use bit::json::Json;
use bit::mcp::http_server;
use bit::mcp::registry::{get_mcp_servers, Registry};

fn tools(names: &[&str]) -> Vec<Json> {
    names
        .iter()
        .map(|n| Json::object().with("name", Json::text(n)))
        .collect()
}

fn text_result(text: &str) -> Json {
    let block = Json::object()
        .with("type", Json::text("text"))
        .with("text", Json::text(text));
    Json::object().with("content", Json::array(vec![block]))
}

#[test]
fn servers_connect_on_first_use() {
    let mut r = Registry::new();
    assert_eq!(r.last_error("a"), None);
    assert_eq!(r.ensure("a"), None);
    assert_eq!(r.last_error("a"), Some("not connected yet".to_string()));
    assert_eq!(r.connected("a", Ok(tools(&["t", "u"]))), Ok(tools(&["t", "u"])));
    assert!(r.is_connected("a") && !r.is_connected("A"));
    assert_eq!(r.ensure("a"), Some(tools(&["t", "u"])));
    assert_eq!((r.tool_count("a"), r.tool_count("b")), (2, 0));
    assert_eq!(r.last_error("a"), None);
    assert_eq!(r.last_error("b"), Some("not connected yet".to_string()));
}

#[test]
fn failed_attempts_are_remembered() {
    let mut r = Registry::new();
    assert_eq!(r.connected("a", Err("no".to_string())), Err("no".to_string()));
    assert_eq!(r.last_error("a"), Some("no".to_string()));
    assert_eq!(r.ensure("a"), None);
    assert_eq!(r.last_error("a"), Some("no".to_string()));
}

#[test]
fn a_failed_call_disconnects() {
    let mut r = Registry::new();
    r.connected("a", Ok(tools(&["t"]))).unwrap();
    r.connected("b", Ok(tools(&["u"]))).unwrap();
    assert_eq!(r.call_tool("a", Ok(text_result("hi"))), Ok("hi".to_string()));
    assert!(r.is_connected("a"));
    assert_eq!(
        r.call_tool("a", Err("gone".to_string())),
        Err("gone".to_string())
    );
    assert_eq!(r.ensure("a"), None);
    assert_eq!(r.last_error("a"), Some("gone".to_string()));
    assert!(r.is_connected("b"));
    let inside = format!("x{}", "é".repeat(4000));
    assert!(r.call_tool("b", Ok(text_result(&inside))).is_ok());
    assert!(r.is_connected("b"));
    assert_eq!(r.last_error("b"), None);
}

#[test]
fn forgotten_servers_are_untried() {
    let mut r = Registry::new();
    r.connected("a", Ok(tools(&["t"]))).unwrap();
    r.connected("b", Ok(tools(&["u"]))).unwrap();
    r.invalidate("a");
    assert_eq!((r.is_connected("a"), r.last_error("a")), (false, None));
    assert_eq!(r.ensure("a"), None);
    assert_eq!(r.ensure("b"), Some(tools(&["u"])));
}

#[test]
fn servers_are_shown_with_their_state() {
    let mut r = Registry::new();
    r.connected("a", Ok(tools(&["t"]))).unwrap();
    r.connected("b", Err("no".to_string())).unwrap_err();
    let servers: Vec<_> = ["a", "b", "c"]
        .iter()
        .map(|n| http_server(n.to_string(), String::new()))
        .collect();
    let shown = get_mcp_servers(servers, &mut r);
    let states: Vec<_> = shown
        .iter()
        .map(|v| (v.server.name.as_str(), v.connected, v.tool_count, v.error.as_deref()))
        .collect();
    assert_eq!(
        states,
        [("a", true, 1, None), ("b", false, 0, Some("no")), ("c", false, 0, None)]
    );
}
