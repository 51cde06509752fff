use bit::json::{to_text, Json};
use bit::mcp::{
    call, delete, find, flatten_mcp_content, http_server, is_remote, load_all, namespaced, parse_namespaced,
    presets, read_until_id, send_error, set_disabled_tools, start_error, store_path, test_target,
    to_connect, tool_defs, tools_view, upsert, Connection, HandshakeStep, McpServer, ReadEvent,
    ToolView,
};
use bit::output::MAX_OUTPUT;

fn block(kind: &str, key: &str, value: &str) -> Json {
    Json::object()
        .with("type", Json::text(kind))
        .with(key, Json::text(value))
}

#[test]
fn namespaces_round_trip() {
    let n = namespaced("gmail", "search_emails");
    assert_eq!(n, "mcp__gmail__search_emails");
    assert_eq!(parse_namespaced(&n), Some(("gmail", "search_emails")));
}

#[test]
fn rejects_non_mcp_names() {
    assert_eq!(parse_namespaced("run_shell"), None);
    assert_eq!(parse_namespaced("mcp__onlyoneunderscore"), None);
    assert_eq!(parse_namespaced("mcp__a__b__c"), Some(("a", "b__c")));
}

#[test]
fn flatten_extracts_text_blocks() {
    let v = Json::object().with(
        "content",
        Json::array(vec![
            block("text", "text", "Subject: Hi"),
            block("text", "text", "Body here"),
            block("image", "data", "..."),
        ]),
    );
    assert_eq!(flatten_mcp_content(&v), "Subject: Hi\nBody here");
}

#[test]
fn flatten_truncates_large_output() {
    let big = "x".repeat(MAX_OUTPUT * 2);
    let v = Json::object().with("content", Json::array(vec![block("text", "text", &big)]));
    let out = flatten_mcp_content(&v);
    assert!(out.ends_with("…[truncated]"));
    assert!(out.len() < MAX_OUTPUT + 64);
}

fn server(name: &str, enabled: bool) -> McpServer {
    let mut s = http_server(name.to_string(), "https://x/mcp".to_string());
    s.enabled = enabled;
    s
}

fn tool(name: &str) -> Json {
    Json::object().with("name", Json::text(name))
}

fn line(text: &str) -> ReadEvent {
    ReadEvent::Line(text.to_string())
}

#[test]
fn servers_are_kept_by_name() {
    assert_eq!(store_path("/c"), "/c/mcp.json");
    assert!(load_all(None).is_empty());
    let all = upsert(vec![server("Gmail", true)], server("notion", true));
    assert_eq!(all.len(), 2);
    let all = upsert(all, server("GMAIL", false));
    assert_eq!((all.len(), all[0].name.as_str()), (2, "GMAIL"));
    assert_eq!(upsert(all.clone(), server("GMAIL", false)), all);
    assert_eq!(find(&all, "NOTION"), Some(1));
    assert_eq!(delete(all.clone(), "gmail").unwrap(), vec![server("notion", true)]);
    assert_eq!(delete(all, "x"), Err("no MCP server named 'x'".to_string()));
}

#[test]
fn only_http_servers_are_remote() {
    assert!(is_remote(&server("a", true)));
    let mut local = server("a", true);
    local.transport = String::new();
    assert!(!is_remote(&local));
}

#[test]
fn names_without_double_underscores_round_trip() {
    for s in ["a", "a_b", "gmail", ""] {
        for t in ["t", "t__u", "_t", ""] {
            let full = namespaced(s, t);
            let (server, tool) = parse_namespaced(&full).unwrap();
            if !format!("{s}_").contains("__") && !full.contains("___") {
                assert_eq!((server, tool), (s, t));
            }
            assert_eq!(namespaced(server, tool), full);
        }
    }
    assert_eq!(parse_namespaced("mcp__a___b"), Some(("a", "_b")));
    assert_eq!(parse_namespaced("mcp__é__b"), Some(("é", "b")));
}

#[test]
fn results_without_text_are_shown_whole() {
    let v = Json::object().with("content", Json::array(vec![block("text", "text", " \n")]));
    assert_eq!(
        flatten_mcp_content(&v),
        "{\"content\":[{\"text\":\" \\n\",\"type\":\"text\"}]}"
    );
    assert_eq!(flatten_mcp_content(&Json::object()), "{}");
}

#[test]
fn large_results_are_cut_between_characters() {
    let inside = format!("x{}", "é".repeat(2000));
    let v = Json::object().with("content", Json::array(vec![block("text", "text", &inside)]));
    let out = flatten_mcp_content(&v);
    assert_eq!(out, format!("x{}\n…[truncated]", "é".repeat(1999)));
    assert!(out.len() < MAX_OUTPUT + 64);
}

#[test]
fn enabled_servers_offer_their_tools() {
    let mut gmail = server("gmail", true);
    gmail.disabled_tools = vec!["send".to_string()];
    let servers = vec![gmail, server("off", false), server("down", true)];
    let described = tool("search")
        .with("description", Json::text("Find mail"))
        .with("inputSchema", Json::object().with("type", Json::text("object")));
    let lists = vec![
        Some(vec![described, tool("send"), Json::object(), tool("labels")]),
        Some(vec![tool("x")]),
        None,
    ];
    let defs: Vec<String> = tool_defs(&servers, &lists).iter().map(to_text).collect();
    assert_eq!(
        defs,
        [
            "{\"description\":\"[gmail] Find mail\",\"input_schema\":{\"type\":\"object\"},\
             \"name\":\"mcp__gmail__search\"}",
            "{\"description\":\"[gmail] labels\",\"input_schema\":{\"properties\":{},\
             \"type\":\"object\"},\"name\":\"mcp__gmail__labels\"}",
        ]
    );
    assert_eq!(to_connect(&servers), [0, 2]);
}

#[test]
fn tools_are_switched_off_by_server() {
    let all = vec![server("a", true), server("b", true)];
    let off = vec!["t".to_string()];
    let all = set_disabled_tools(all, "B", off.clone()).unwrap();
    assert!(all[0].disabled_tools.is_empty());
    assert_eq!(all[1].disabled_tools, off);
    assert_eq!(
        set_disabled_tools(all, "c", Vec::new()),
        Err("no MCP server named 'c'".to_string())
    );
}

#[test]
fn tools_are_shown_with_their_state() {
    let mut s = server("a", true);
    s.disabled_tools = vec!["b".to_string()];
    let hint = |h: Json| Json::object().with("destructiveHint", h);
    let tools = vec![
        tool("a")
            .with("description", Json::text("A"))
            .with("annotations", hint(Json::Bool(true))),
        Json::object(),
        tool("b").with("annotations", Json::Null),
        tool("c").with("annotations", hint(Json::Null)),
    ];
    let view = |name: &str, description: Option<&str>, enabled, destructive| ToolView {
        name: name.to_string(),
        description: description.map(|d| d.to_string()),
        enabled,
        destructive,
    };
    assert_eq!(
        tools_view(&s, &tools),
        vec![
            view("a", Some("A"), true, Some(true)),
            view("b", None, false, None),
            view("c", None, true, None),
        ]
    );
}

#[test]
fn calls_are_routed() {
    let servers = vec![server("Gmail", true), server("off", false)];
    assert_eq!(call(&servers, "mcp__gmail__a__b"), Ok((0, "a__b".to_string())));
    assert_eq!(
        call(&servers, "gmail"),
        Err("malformed MCP tool name: gmail".to_string())
    );
    assert_eq!(
        call(&servers, "mcp__x__y"),
        Err("MCP server 'x' is not configured".to_string())
    );
    assert_eq!(
        call(&servers, "mcp__OFF__y"),
        Err("MCP server 'off' is disabled".to_string())
    );
    assert_eq!(test_target(&servers, "gmail"), Ok(0));
    assert_eq!(test_target(&servers, "off"), Err("server is disabled".to_string()));
    assert_eq!(test_target(&servers, "x"), Err("no MCP server named 'x'".to_string()));
}

#[test]
fn the_handshake_lists_the_tools() {
    let mut c = Connection::new();
    let (text, want) = match c.connect(Ok(Json::Null), "0.2.0") {
        HandshakeStep::Send { text, want } => (text, want),
        other => panic!("expected a message, got {other:?}"),
    };
    assert_eq!(want, 1);
    assert_eq!(
        text,
        "{\"id\":1,\"jsonrpc\":\"2.0\",\"method\":\"initialize\",\"params\":{\"capabilities\":{},\
         \"clientInfo\":{\"name\":\"bit\",\"version\":\"0.2.0\"},\
         \"protocolVersion\":\"2025-06-18\"}}\n"
    );
    let (text, want) = match c.connect(Ok(Json::object()), "0.2.0") {
        HandshakeStep::Send { text, want } => (text, want),
        other => panic!("expected a message, got {other:?}"),
    };
    assert_eq!(want, 2);
    assert_eq!(
        text,
        "{\"jsonrpc\":\"2.0\",\"method\":\"notifications/initialized\",\"params\":{}}\n\
         {\"id\":2,\"jsonrpc\":\"2.0\",\"method\":\"tools/list\",\"params\":{}}\n"
    );
    let listed = Json::object().with("tools", Json::array(vec![tool("t")]));
    assert_eq!(c.connect(Ok(listed), "0.2.0"), HandshakeStep::Connected);
    assert_eq!(c.tools, vec![tool("t")]);
    let (text, want) = c.call("t", &Json::object());
    assert_eq!(want, 3);
    let args = Json::object().with("a\nb", Json::text("c\nd"));
    assert_eq!(c.call("t\n", &args).0.matches('\n').count(), 1);
    assert_eq!(
        text,
        "{\"id\":3,\"jsonrpc\":\"2.0\",\"method\":\"tools/call\",\
         \"params\":{\"arguments\":{},\"name\":\"t\"}}\n"
    );
}

#[test]
fn a_failed_handshake_says_why() {
    let mut c = Connection::new();
    c.connect(Ok(Json::Null), "0.2.0");
    assert_eq!(
        c.connect(Err("server closed stdout".to_string()), "0.2.0"),
        HandshakeStep::Failed("server closed stdout".to_string())
    );
    assert_eq!(
        start_error("npx", "not found"),
        "couldn't start 'npx' (is it installed?): not found"
    );
    assert_eq!(send_error(false, "broken pipe"), "write failed: broken pipe");
    assert_eq!(send_error(true, "broken pipe"), "flush failed: broken pipe");
}

#[test]
fn only_the_awaited_response_counts() {
    for noise in [
        "",
        "  \n",
        "server ready",
        "{\"method\":\"log\"}",
        "{\"id\":6,\"result\":1}",
        "{\"id\":\"7\",\"result\":1}",
    ] {
        assert_eq!(read_until_id(7, &line(noise)), None);
    }
    assert_eq!(
        read_until_id(7, &line(" {\"id\":7,\"result\":{\"a\":1}}\n")),
        Some(Ok(Json::object().with("a", Json::number(1))))
    );
    assert_eq!(read_until_id(7, &line("{\"id\":7}")), Some(Ok(Json::Null)));
    let err = |text: &str| Some(Err(text.to_string()));
    assert_eq!(
        read_until_id(7, &line("{\"id\":7,\"error\":{\"message\":\"bad\"}}")),
        err("server error: bad")
    );
    assert_eq!(read_until_id(7, &line("{\"id\":7,\"error\":{}}")), err("server error: (unknown)"));
    assert_eq!(
        read_until_id(7, &ReadEvent::TimedOut),
        err("timed out after 30s waiting for response to request 7")
    );
    assert_eq!(read_until_id(7, &ReadEvent::Failed("io".to_string())), err("read failed: io"));
    assert_eq!(read_until_id(7, &ReadEvent::Closed), err("server closed stdout"));
}

#[test]
fn the_gallery_has_gmail() {
    let all = presets();
    assert_eq!(all.len(), 1);
    assert_eq!((all[0].id, all[0].command), ("gmail", "npx"));
    assert_eq!(all[0].args, ["-y", "gmail-mcp-imap"]);
    let keys: Vec<(&str, bool)> = all[0].fields.iter().map(|f| (f.env_key, f.secret)).collect();
    assert_eq!(keys, [("GMAIL_EMAIL", false), ("GMAIL_APP_PASSWORD", true)]);
}
