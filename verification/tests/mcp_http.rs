use bit::json::{to_text, Json};
use bit::mcp::http::{
    answered, bind_error, browser_command, call_arguments, callback_timeout, connect_next,
    normalize_url, percent_decode, run_oauth_flow, sign_in_next, tool_to_value,
    wait_for_callback, with_transport_hint, Annotations, CallOutcome, ConnectStage,
    HttpConnection, RemoteTool, SignInStage, CALLBACK_PORT,
};
use bit::mcp::http_server;
use bit::mcp::oauth::{
    sanitize_name, temp_name, token_path, FileCredentialStore, REDIRECT_URI,
};

#[test]
fn percent_decode_basics() {
    assert_eq!(percent_decode("abc"), "abc");
    assert_eq!(percent_decode("a%2Fb"), "a/b");
    assert_eq!(percent_decode("%20"), " ");
    assert_eq!(percent_decode("a+b"), "a b");
    assert_eq!(percent_decode("%ZZ"), "%ZZ"); // bad hex passes through
}

#[test]
fn normalize_url_rewrites_sse_to_mcp() {
    // Some services advertise /sse where /mcp is needed.
    assert_eq!(
        normalize_url("https://mcp.cloudflare.com/sse"),
        "https://mcp.cloudflare.com/mcp"
    );
    // Trailing slash handled too.
    assert_eq!(
        normalize_url("https://mcp.cloudflare.com/sse/"),
        "https://mcp.cloudflare.com/mcp/"
    );
}

#[test]
fn normalize_url_is_idempotent_and_passthrough() {
    // Already /mcp → unchanged.
    assert_eq!(
        normalize_url("https://mcp.notion.com/mcp"),
        "https://mcp.notion.com/mcp"
    );
    // A path-less or non-sse URL passes through untouched.
    assert_eq!(normalize_url("https://example.com"), "https://example.com");
    assert_eq!(
        normalize_url("https://example.com/api/v1/mcp"),
        "https://example.com/api/v1/mcp"
    );
    // /sse in the middle of a path stays, only the last segment counts.
    assert_eq!(
        normalize_url("https://example.com/sse/things"),
        "https://example.com/sse/things"
    );
}

#[test]
fn transport_hint_adds_guidance_on_404() {
    let with = with_transport_hint(
        "https://mcp.example.com/sse",
        "connect failed: HTTP 404 Not Found",
    );
    assert!(with.contains("Streamable-HTTP"), "hint should mention /mcp");
    // No hint when the URL is already /mcp.
    let without = with_transport_hint(
        "https://mcp.example.com/mcp",
        "connect failed: HTTP 404 Not Found",
    );
    assert_eq!(without, "connect failed: HTTP 404 Not Found");
    // No hint on unrelated errors.
    let auth = with_transport_hint("https://mcp.example.com/sse", "Auth required");
    assert_eq!(auth, "Auth required");
}

#[test]
fn sanitize_is_safe() {
    assert_eq!(sanitize_name("gmail"), "gmail");
    assert_eq!(sanitize_name("my-server"), "my-server");
    assert_eq!(sanitize_name("../../etc"), "______etc");
    assert_eq!(sanitize_name(""), "server");
    assert_eq!(sanitize_name("a/b"), "a_b");
}

#[test]
fn percent_decoding_is_lenient() {
    assert_eq!(percent_decode("%C3%A9"), "é");
    assert_eq!(percent_decode("%2f%2F"), "//");
    assert_eq!(percent_decode("%+A"), "% A");
    assert_eq!(percent_decode("%+Fx"), "% Fx");
    assert_eq!(percent_decode("%A+"), "%A ");
    assert_eq!(percent_decode("100%"), "100%");
    assert_eq!(percent_decode("%4"), "%4");
    assert_eq!(percent_decode("%FF"), "\u{fffd}");
    assert_eq!(percent_decode("%é"), "%é");
    assert_eq!(percent_decode("né"), "né");
}

#[test]
fn percent_decoding_undoes_encoding() {
    let text: String = (0u8..128).map(|b| b as char).collect();
    let encoded: String = text.bytes().map(|b| format!("%{b:02X}")).collect();
    assert_eq!(percent_decode(&encoded), text);
}

#[test]
fn normalizing_twice_changes_nothing() {
    for url in ["", "/", "/sse", "h/sse//", "h/sse/sse", "h/mcp/", "h/sse?x"] {
        let once = normalize_url(url);
        assert_eq!(normalize_url(&once), once);
    }
    assert_eq!(normalize_url("h/sse//"), "h/mcp/");
    assert_eq!(normalize_url("h/sse/sse"), "h/sse/mcp");
}

#[test]
fn tokens_stay_in_their_directory() {
    assert_eq!(token_path("/c", "../x"), "/c/mcp/___x.2e2e2f78.token.json");
    assert_eq!(token_path("/c", "my-server_1"), "/c/mcp/my-server_1.token.json");
    assert_eq!(token_path("/c", ""), "/c/mcp/server..token.json");
    assert_eq!(token_path("/c", "é/"), "/c/mcp/é_.c3a92f.token.json");
    assert_eq!(token_path("/c/", "né"), "/c/mcp/né.token.json");
    assert_ne!(token_path("/c", "a"), token_path("/c", "b"));
    assert_eq!(
        FileCredentialStore::path_for(Some("/c"), "a"),
        Some("/c/mcp/a.token.json".to_string())
    );
    assert_eq!(FileCredentialStore::path_for(None, "a"), None);
    assert_eq!(FileCredentialStore::new("/c/x".to_string()).path, "/c/x");
    assert_eq!(temp_name(Some("a.token.json")), ".a.token.json.tmp");
    assert_eq!(temp_name(None), ".token.tmp");
    assert_eq!(sanitize_name(&sanitize_name("a b.c")), "a_b_c");
}

#[test]
fn servers_never_share_a_token_file() {
    let names = ["a/b", "a_b", "a b", "a.b", "", "server", "my server", "my_server", "_", "."];
    for a in names {
        for b in names {
            assert_eq!(token_path("/c", a) == token_path("/c", b), a == b);
        }
    }
}

#[test]
fn the_callback_is_where_the_browser_is_sent() {
    assert_eq!(REDIRECT_URI, format!("http://127.0.0.1:{CALLBACK_PORT}/callback"));
}

#[test]
fn sign_in_and_connection_use_the_same_address() {
    let plan = run_oauth_flow("/c", "cf", "https://mcp.cloudflare.com/sse");
    assert_eq!(plan.url, "https://mcp.cloudflare.com/mcp");
    let server = http_server("cf".to_string(), plan.url.clone());
    assert_eq!(server.transport, "http");
    let connect = HttpConnection::connect("/c", &server, true).unwrap();
    assert_eq!((connect.token, connect.url), (plan.token, plan.url));
    assert_eq!(
        HttpConnection::connect("/c", &server, false).unwrap_err(),
        "not authenticated — use “Add a service” in Settings first"
    );
}

#[test]
fn failures_are_told() {
    let connect = |stage: ConnectStage, e: &str| {
        connect_next("https://h/sse", stage, Err(e.to_string())).unwrap_err()
    };
    assert_eq!(connect(ConnectStage::SettingUp, "e"), "auth setup failed: e");
    assert_eq!(connect(ConnectStage::LoadingCredentials, "e"), "credential load failed: e");
    assert_eq!(connect(ConnectStage::Connecting, "e"), "connect failed: e");
    assert!(connect(ConnectStage::Connecting, "405")
        .starts_with("connect failed: 405\n\nThis URL may be an SSE-only endpoint"));
    assert_eq!(connect(ConnectStage::ListingTools, "e"), "tools/list failed: e");
    assert_eq!(
        connect_next("h", ConnectStage::LoadingCredentials, Ok(false)),
        Err("not authenticated — use “Add a service” in Settings first".to_string())
    );
    let sign_in = |stage: SignInStage| sign_in_next(stage, Err("e".to_string())).unwrap_err();
    assert_eq!(sign_in(SignInStage::Initializing), "auth init failed: e");
    assert_eq!(sign_in(SignInStage::Starting), "authorization start failed: e");
    assert_eq!(sign_in(SignInStage::AwaitingCallback), "authorization callback failed: e");
    assert_eq!(sign_in(SignInStage::Exchanging), "token exchange failed: e");
    assert_eq!(
        sign_in_next(SignInStage::Starting, Ok(false)),
        Err("unexpected OAuth state after start_authorization".to_string())
    );
    assert_eq!(
        bind_error(8473, false, "denied"),
        "couldn't bind callback port 8473: denied"
    );
    assert_eq!(
        bind_error(8473, true, "in use"),
        "Bit's sign-in callback port 8473 is already in use — likely a stale Bit process. \
         Quit Bit fully (tray → Quit Bit) and try again. (Underlying error: in use)"
    );
    assert_eq!(callback_timeout(), "timed out after 300s waiting for sign-in");
}

#[test]
fn connections_and_sign_ins_take_every_stage() {
    let mut stage = ConnectStage::SettingUp;
    let mut taken = vec![stage];
    while stage != ConnectStage::Connected {
        stage = connect_next("h", stage, Ok(true)).unwrap();
        taken.push(stage);
    }
    assert_eq!(
        taken,
        [
            ConnectStage::SettingUp,
            ConnectStage::LoadingCredentials,
            ConnectStage::Connecting,
            ConnectStage::ListingTools,
            ConnectStage::Connected
        ]
    );
    let mut stage = SignInStage::Initializing;
    let mut taken = vec![stage];
    while stage != SignInStage::SignedIn {
        stage = sign_in_next(stage, Ok(true)).unwrap();
        taken.push(stage);
    }
    assert_eq!(
        taken,
        [
            SignInStage::Initializing,
            SignInStage::Starting,
            SignInStage::AwaitingCallback,
            SignInStage::Exchanging,
            SignInStage::SignedIn
        ]
    );
}

#[test]
fn calls_of_remote_tools_are_answered() {
    let body = "{\"content\":[{\"type\":\"text\",\"text\":\"hi\"}]}".to_string();
    assert_eq!(
        HttpConnection::call(&CallOutcome::Body(body)),
        Ok("hi".to_string())
    );
    assert_eq!(
        HttpConnection::call(&CallOutcome::Failed("e".to_string())),
        Err("tool call failed: e".to_string())
    );
    assert_eq!(
        HttpConnection::call(&CallOutcome::Closed),
        Err("connection closed".to_string())
    );
    assert!(answered(&CallOutcome::Body("{".to_string())).is_err());
    assert_eq!(call_arguments(&Json::object()), Some("{}".to_string()));
    assert_eq!(call_arguments(&Json::Null), None);
}

#[test]
fn remote_tools_look_like_local_ones() {
    let tool = RemoteTool {
        name: "t".to_string(),
        description: None,
        input_schema: Json::object(),
        annotations: Some(Annotations {
            read_only: Some(true),
            destructive: None,
            idempotent: Some(false),
            open_world: None,
        }),
    };
    let text = "{\"annotations\":{\"destructiveHint\":null,\"idempotentHint\":false,\
                \"openWorldHint\":null,\"readOnlyHint\":true},\"description\":null,\
                \"inputSchema\":{},\"name\":\"t\"}";
    assert_eq!(to_text(&tool_to_value(&tool)), text);
    let c = HttpConnection::connected(&vec![tool]);
    assert_eq!(to_text(&c.tools()[0]), text);
}

#[test]
fn the_callback_takes_code_and_state() {
    let (page, got) = wait_for_callback("GET /callback?code=a%2Fb&state=s+t&x HTTP/1.1\r\n");
    assert_eq!(got, Some(("a/b".to_string(), "s t".to_string())));
    let (head, body) = page.split_once("\r\n\r\n").unwrap();
    assert!(head.starts_with("HTTP/1.1 200 OK\r\nContent-Type: text/html; charset=utf-8\r\n"));
    assert!(head.ends_with(&format!("Content-Length: {}", body.len())));
    assert!(body.contains("✓ Connected"));
    let (page, got) = wait_for_callback("GET /favicon.ico HTTP/1.1\r\n");
    assert_eq!(got, None);
    assert!(page.ends_with("<h2>Waiting…</h2>"));
    assert_eq!(wait_for_callback("GET /callback?code=a HTTP/1.1").1, None);
    assert_eq!(wait_for_callback("").1, None);
    assert_eq!(
        wait_for_callback("GET /?code=1&code=2&state HTTP/1.1").1,
        Some(("2".to_string(), String::new()))
    );
}

#[test]
fn other_visits_are_skipped() {
    let lines = [
        "GET /favicon.ico HTTP/1.1",
        "GET /callback?state=s HTTP/1.1",
        "GET /callback?code=c&state=s HTTP/1.1",
        "GET /callback?code=d&state=t HTTP/1.1",
    ];
    let first = lines.iter().find_map(|line| wait_for_callback(line).1);
    assert_eq!(first, Some(("c".to_string(), "s".to_string())));
}

#[test]
fn the_browser_depends_on_the_system() {
    assert_eq!(browser_command("macos"), "open");
    assert_eq!(browser_command("windows"), "explorer");
    assert_eq!(browser_command("linux"), "xdg-open");
}
