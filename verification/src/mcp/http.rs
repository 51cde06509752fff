//! Remote MCP servers, over Streamable HTTP with OAuth.
//!
//! The session itself, discovery and the exchange of tokens are the business of an
//! SDK. What is decided here: which address is used, where the token lies, what the
//! user is told when something fails, and what the browser's visit to the callback
//! means.

use crate::json;
use crate::json::{Json, JsonView};
use crate::mcp;
use crate::mcp::oauth;
use crate::mcp::McpServer;
use crate::text;
use crate::text::Cut;
use vstd::prelude::*;
use vstd::string::*;
use vstd::utf8::*;

verus! {

/// The port that the browser is sent back to.
pub const CALLBACK_PORT: u16 = 8473;

/// How many seconds the user has to sign in.
pub const CALLBACK_TIMEOUT_SECS: u64 = 300;

// ============================ addresses ============================

/// The address that is used for a server: the `/mcp` one in place of a `/sse` one,
/// whatever number of `/` follows it, and any other as it is.
pub open spec fn normalized(url: Seq<char>) -> Seq<char> {
    match text::before_suffix(text::trim_end_char(url, '/'), "/sse"@) {
        Some(prefix) => prefix + "/mcp"@ + (if url.last() == '/' {
            "/"@
        } else {
            ""@
        }),
        None => url,
    }
}

/// Use the Streamable-HTTP address of a server in place of its SSE address, which
/// cannot be spoken to. Tokens are bound to an address, so this comes before the
/// sign-in.
pub fn normalize_url(url: &str) -> (r: String)
    ensures
        r@ == normalized(url@),
{
    let trimmed = text::trim_end_matches(url, '/');
    match text::strip_suffix(trimmed.as_str(), "/sse") {
        Some(prefix) => {
            proof {
                reveal_strlit("/sse");
                reveal_strlit("/");
                if url@.len() == 0 {
                    assert(text::trim_end_char(url@, '/') == url@);
                }
                let end = url@.subrange(url@.len() - 1, url@.len() as int);
                assert(end[0] == url@.last());
                assert((end =~= "/"@) == (url@.last() == '/'));
            }
            let slash = if text::ends_with(url, "/") {
                "/"
            } else {
                ""
            };
            let mut s = prefix;
            s.append("/mcp");
            s.append(slash);
            s
        },
        None => url.to_owned(),
    }
}

/// What was normalized is not an SSE address, and normalizing it again changes
/// nothing.
pub proof fn law_normalizing_is_idempotent(url: Seq<char>)
    ensures
        text::before_suffix(text::trim_end_char(normalized(url), '/'), "/sse"@) is None,
        normalized(normalized(url)) == normalized(url),
{
    match text::before_suffix(text::trim_end_char(url, '/'), "/sse"@) {
        Some(prefix) => {
            reveal_strlit("/sse");
            reveal_strlit("/mcp");
            reveal_strlit("/");
            reveal_strlit("");
            let stem = prefix + "/mcp"@;
            assert(stem.last() == 'p');
            assert(text::trim_end_char(stem, '/') == stem);
            if url.last() == '/' {
                assert(normalized(url).drop_last() =~= stem);
                assert(normalized(url).last() == '/');
                assert(text::trim_end_char(normalized(url), '/') == stem);
            } else {
                assert(normalized(url) =~= stem);
            }
            if "/sse"@.is_suffix_of(stem) {
                assert(stem.subrange(stem.len() - 4, stem.len() as int).last() == 'p');
                assert("/sse"@.last() == 'e');
            }
        },
        None => {},
    }
}

/// An address that does not end in `/sse`, with or without `/` behind it, is used as
/// it is.
pub proof fn law_other_addresses_are_kept(url: Seq<char>)
    requires
        !("/sse"@.is_suffix_of(text::trim_end_char(url, '/'))),
    ensures
        normalized(url) == url,
{
}

/// Does the message look as if the address did not speak the protocol?
pub open spec fn looks_like_not_found(err: Seq<char>) -> bool {
    text::contained(err, "404"@) || text::contained(err, "405"@) || text::contained(
        err,
        "Method Not Allowed"@,
    )
}

/// What is told of an address that may be an SSE one.
pub open spec fn hinted(url: Seq<char>, err: Seq<char>) -> Seq<char> {
    if looks_like_not_found(err) && !"/mcp"@.is_suffix_of(url) {
        err
            + "\n\nThis URL may be an SSE-only endpoint, which Bit doesn’t support. Try the Streamable-HTTP URL instead — usually the same path ending in `/mcp` (e.g. https://mcp.example.com/mcp)."@
    } else {
        err
    }
}

/// The message of a failed connection, with a hint at the `/mcp` address where the
/// address may be one for SSE only.
pub fn with_transport_hint(url: &str, err: &str) -> (r: String)
    ensures
        r@ == hinted(url@, err@),
{
    let not_found = text::contains(err, "404") || text::contains(err, "405") || text::contains(
        err,
        "Method Not Allowed",
    );
    if not_found && !text::ends_with(url, "/mcp") {
        text::joined(
            err,
            "\n\nThis URL may be an SSE-only endpoint, which Bit doesn’t support. Try the Streamable-HTTP URL instead — usually the same path ending in `/mcp` (e.g. https://mcp.example.com/mcp).",
        )
    } else {
        err.to_owned()
    }
}

// ============================ connections ============================

/// Where a sign-in leaves its token, and the address that it is for.
#[derive(Debug)]
pub struct SignIn {
    pub token: String,
    pub url: String,
}

/// Where the sign-in of a server leaves its token, and the address that it is for.
pub open spec fn sign_in_place(config_dir: Seq<char>, name: Seq<char>, url: Seq<char>) -> (
    Seq<char>,
    Seq<char>,
) {
    (oauth::token_place(config_dir, name), normalized(url))
}

/// Is `r` how a server is connected to, given whether its token file is there?
pub open spec fn connects_with(
    config_dir: Seq<char>,
    server: McpServer,
    token_exists: bool,
    r: Result<SignIn, String>,
) -> bool {
    match r {
        Ok(s) => {
            &&& token_exists
            &&& (s.token@, s.url@) == sign_in_place(config_dir, server.name@, server.url@)
        },
        Err(e) => !token_exists && e@ == not_authenticated(),
    }
}

/// How far the making of a connection has come: what is under way.
#[derive(Debug, Clone, Copy, PartialEq, Eq, Structural)]
pub enum ConnectStage {
    /// Authorization is set up.
    SettingUp,
    /// Stored credentials are loaded.
    LoadingCredentials,
    /// The session is opened.
    Connecting,
    /// The tools are listed.
    ListingTools,
    /// Nothing: it is done.
    Connected,
}

pub open spec fn not_authenticated() -> Seq<char> {
    "not authenticated — use “Add a service” in Settings first"@
}

/// What is told of a connection that failed at that stage.
pub open spec fn connect_failure(url: Seq<char>, stage: ConnectStage, e: Seq<char>) -> Seq<char> {
    match stage {
        ConnectStage::SettingUp => "auth setup failed: "@ + e,
        ConnectStage::LoadingCredentials => "credential load failed: "@ + e,
        ConnectStage::Connecting => hinted(url, "connect failed: "@ + e),
        ConnectStage::ListingTools => "tools/list failed: "@ + e,
        ConnectStage::Connected => e,
    }
}

/// Where a connection stands after what was under way ended with `outcome`: one stage
/// further, or given up. What was under way may have found nothing, which matters for
/// credentials alone.
pub open spec fn connect_after(
    url: Seq<char>,
    stage: ConnectStage,
    outcome: Result<bool, Seq<char>>,
) -> Result<ConnectStage, Seq<char>> {
    match outcome {
        Err(e) => Err(connect_failure(url, stage, e)),
        Ok(found) => match stage {
            ConnectStage::SettingUp => Ok(ConnectStage::LoadingCredentials),
            ConnectStage::LoadingCredentials => if found {
                Ok(ConnectStage::Connecting)
            } else {
                Err(not_authenticated())
            },
            ConnectStage::Connecting => Ok(ConnectStage::ListingTools),
            ConnectStage::ListingTools => Ok(ConnectStage::Connected),
            ConnectStage::Connected => Ok(ConnectStage::Connected),
        },
    }
}

/// The view of an outcome.
pub open spec fn outcome_text<T>(r: Result<T, String>) -> Result<T, Seq<char>> {
    match r {
        Ok(x) => Ok(x),
        Err(e) => Err(e@),
    }
}

/// Go on with a connection after what was under way has ended.
pub fn connect_next(url: &str, stage: ConnectStage, outcome: Result<bool, String>) -> (r: Result<
    ConnectStage,
    String,
>)
    ensures
        outcome_text(r) == connect_after(url@, stage, outcome_text(outcome)),
{
    match outcome {
        Err(e) => Err(
            match stage {
                ConnectStage::SettingUp => text::joined("auth setup failed: ", e.as_str()),
                ConnectStage::LoadingCredentials => {
                    text::joined("credential load failed: ", e.as_str())
                },
                ConnectStage::Connecting => {
                    let err = text::joined("connect failed: ", e.as_str());
                    with_transport_hint(url, err.as_str())
                },
                ConnectStage::ListingTools => text::joined("tools/list failed: ", e.as_str()),
                ConnectStage::Connected => e,
            },
        ),
        Ok(found) => match stage {
            ConnectStage::SettingUp => Ok(ConnectStage::LoadingCredentials),
            ConnectStage::LoadingCredentials => if found {
                Ok(ConnectStage::Connecting)
            } else {
                Err("not authenticated — use “Add a service” in Settings first".to_owned())
            },
            ConnectStage::Connecting => Ok(ConnectStage::ListingTools),
            ConnectStage::ListingTools => Ok(ConnectStage::Connected),
            ConnectStage::Connected => Ok(ConnectStage::Connected),
        },
    }
}

/// Where a connection stands after a number of outcomes: as far as they take it, and
/// given up from the first failure on.
pub open spec fn connected_by(
    url: Seq<char>,
    stage: ConnectStage,
    outcomes: Seq<Result<bool, Seq<char>>>,
) -> Result<ConnectStage, Seq<char>>
    decreases outcomes.len(),
{
    if outcomes.len() == 0 {
        Ok(stage)
    } else {
        match connect_after(url, stage, outcomes[0]) {
            Ok(next) => connected_by(url, next, outcomes.drop_first()),
            Err(e) => Err(e),
        }
    }
}

/// A connection is made by four outcomes, if and only if none of them is a failure and
/// there are credentials.
pub proof fn law_connection_takes_every_stage(
    url: Seq<char>,
    outcomes: Seq<Result<bool, Seq<char>>>,
)
    requires
        outcomes.len() == 4,
    ensures
        connected_by(url, ConnectStage::SettingUp, outcomes) == Ok::<ConnectStage, Seq<char>>(
            ConnectStage::Connected,
        ) <==> (forall|i: int| 0 <= i < 4 ==> (#[trigger] outcomes[i]) is Ok) && outcomes[1]
            == Ok::<bool, Seq<char>>(true),
{
    reveal_with_fuel(connected_by, 5);
    let o1 = outcomes.drop_first();
    let o2 = o1.drop_first();
    let o3 = o2.drop_first();
    assert(o1[0] == outcomes[1] && o2[0] == outcomes[2] && o3[0] == outcomes[3]);
    assert(o3.drop_first().len() == 0);
}

/// How a call of a tool went: the connection was closed, the call failed, or there
/// is a result, as text.
#[derive(Debug)]
pub enum CallOutcome {
    Closed,
    Failed(String),
    Body(String),
}

/// The result of a call, or what is told of its failure. `parsed` is what the text
/// of the result was read as.
pub open spec fn outcome_view(
    outcome: CallOutcome,
    parsed: Result<JsonView, Seq<char>>,
) -> Result<JsonView, Seq<char>> {
    match outcome {
        CallOutcome::Closed => Err("connection closed"@),
        CallOutcome::Failed(e) => Err("tool call failed: "@ + e@),
        CallOutcome::Body(_) => parsed,
    }
}

/// What the text of a call's result is read as.
pub open spec fn parsed_body(outcome: CallOutcome) -> Result<JsonView, Seq<char>> {
    match outcome {
        CallOutcome::Body(t) => json::json_parse(t@),
        _ => Err(Seq::empty()),
    }
}

/// The result of a call, or what is told of its failure.
pub fn answered(outcome: &CallOutcome) -> (r: Result<Json, String>)
    ensures
        json::read_view(r) == outcome_view(*outcome, parsed_body(*outcome)),
{
    match outcome {
        CallOutcome::Closed => Err("connection closed".to_owned()),
        CallOutcome::Failed(e) => Err(text::joined("tool call failed: ", e.as_str())),
        CallOutcome::Body(t) => json::parse(t.as_str()),
    }
}

/// A live connection to a remote server, as far as it is known here: the tools that
/// the server listed.
#[derive(Debug)]
pub struct HttpConnection {
    tools: Vec<Json>,
}

impl View for HttpConnection {
    type V = Seq<JsonView>;

    closed spec fn view(&self) -> Seq<JsonView> {
        json::json_views(self.tools@)
    }
}

impl HttpConnection {
    /// The tools, as the server described them.
    pub fn tools(&self) -> (r: &Vec<Json>)
        ensures
            json::json_views(r@) == self@,
    {
        &self.tools
    }

    /// How to connect to a server: with which token file and at which address. A
    /// server without a token file was never signed in to.
    pub fn connect(config_dir: &str, server: &McpServer, token_exists: bool) -> (r: Result<
        SignIn,
        String,
    >)
        ensures
            connects_with(config_dir@, *server, token_exists, r),
    {
        if !token_exists {
            return Err("not authenticated — use “Add a service” in Settings first".to_owned());
        }
        Ok(
            SignIn {
                token: oauth::token_path(config_dir, server.name.as_str()),
                url: normalize_url(server.url.as_str()),
            },
        )
    }

    /// A connection to a server that listed these tools.
    pub fn connected(listed: &Vec<RemoteTool>) -> (r: Self)
        ensures
            r@ == listed@.map_values(|t: RemoteTool| remote_view(t)),
    {
        let mut tools: Vec<Json> = Vec::new();
        for i in 0..listed.len()
            invariant
                tools@.len() == i,
                forall|j: int| 0 <= j < i ==> (#[trigger] tools@[j])@ == remote_view(listed@[j]),
        {
            tools.push(tool_to_value(&listed[i]));
        }
        assert(json::json_views(tools@) =~= listed@.map_values(|t: RemoteTool| remote_view(t)));
        HttpConnection { tools }
    }

    /// What a call of a tool gives: the readable text of its result, or what is told
    /// of its failure.
    pub fn call(outcome: &CallOutcome) -> (r: Result<String, String>)
        ensures
            mcp::call_gives(
                outcome_view(*outcome, parsed_body(*outcome)),
                crate::workflows::result_view(r),
            ),
    {
        match answered(outcome) {
            Ok(result) => Ok(mcp::flatten_mcp_content(&result)),
            Err(e) => Err(e),
        }
    }
}

/// The arguments of a call, as text.
pub open spec fn arguments_text(args: JsonView) -> Option<Seq<char>> {
    if args is Object {
        Some(json::json_text(args))
    } else {
        None
    }
}

/// The arguments of a call, as text, where they are an object; none otherwise.
pub fn call_arguments(args: &Json) -> (r: Option<String>)
    ensures
        text::opt_view(r) == arguments_text(args@),
{
    match args {
        Json::Object(_) => Some(json::render(args)),
        _ => None,
    }
}

// ============================ tools ============================

/// What a remote server says of how a tool behaves.
#[derive(Debug, Clone)]
pub struct Annotations {
    pub read_only: Option<bool>,
    pub destructive: Option<bool>,
    pub idempotent: Option<bool>,
    pub open_world: Option<bool>,
}

/// A tool that a remote server listed.
#[derive(Debug)]
pub struct RemoteTool {
    pub name: String,
    pub description: Option<String>,
    pub input_schema: Json,
    pub annotations: Option<Annotations>,
}

pub open spec fn hint_view(hint: Option<bool>) -> JsonView {
    match hint {
        Some(b) => JsonView::Bool(b),
        None => JsonView::Null,
    }
}

pub open spec fn annotations_view(a: Annotations) -> JsonView {
    JsonView::Object(
        seq![
            ("readOnlyHint"@, hint_view(a.read_only)),
            ("destructiveHint"@, hint_view(a.destructive)),
            ("idempotentHint"@, hint_view(a.idempotent)),
            ("openWorldHint"@, hint_view(a.open_world)),
        ],
    )
}

/// A remote tool in the form that a local server lists its tools in.
pub open spec fn remote_view(tool: RemoteTool) -> JsonView {
    JsonView::Object(
        seq![
            ("name"@, JsonView::Str(tool.name@)),
            (
                "description"@,
                match tool.description {
                    Some(d) => JsonView::Str(d@),
                    None => JsonView::Null,
                },
            ),
            ("inputSchema"@, tool.input_schema@),
            (
                "annotations"@,
                match tool.annotations {
                    Some(a) => annotations_view(a),
                    None => JsonView::Null,
                },
            ),
        ],
    )
}

fn hint(h: Option<bool>) -> (r: Json)
    ensures
        r@ == hint_view(h),
{
    match h {
        Some(b) => Json::Bool(b),
        None => Json::Null,
    }
}

/// A remote tool in the form that a local server lists its tools in, so that both
/// are treated alike.
pub fn tool_to_value(tool: &RemoteTool) -> (r: Json)
    ensures
        r@ == remote_view(*tool),
{
    let description = match &tool.description {
        Some(d) => Json::text(d.as_str()),
        None => Json::Null,
    };
    let annotations = match &tool.annotations {
        Some(a) => {
            let v = Json::object().with("readOnlyHint", hint(a.read_only)).with(
                "destructiveHint",
                hint(a.destructive),
            ).with("idempotentHint", hint(a.idempotent)).with(
                "openWorldHint",
                hint(a.open_world),
            );
            assert(v@->Object_0 =~= annotations_view(*a)->Object_0);
            v
        },
        None => Json::Null,
    };
    let r = Json::object().with("name", Json::text(tool.name.as_str())).with(
        "description",
        description,
    ).with("inputSchema", tool.input_schema.clone()).with("annotations", annotations);
    assert(r@->Object_0 =~= remote_view(*tool)->Object_0);
    r
}

/// A remote tool joins the agent's tools under its server's name, with the schema
/// that it was listed with.
pub proof fn law_remote_tools_are_offered(server: Seq<char>, tool: RemoteTool)
    ensures
        mcp::definition(server, remote_view(tool)) matches Some(d) && {
            &&& d.str_at("name"@) == Some(mcp::full_name(server, tool.name@))
            &&& d.get("input_schema"@) == Some(tool.input_schema@)
            &&& d.str_at("description"@) == Some("["@ + server + "] "@ + (match tool.description {
                Some(text) => text@,
                None => tool.name@,
            }))
        },
{
    reveal_strlit("name");
    reveal_strlit("description");
    reveal_strlit("inputSchema");
    reveal_strlit("annotations");
    reveal_strlit("input_schema");
    assert("name"@.len() == 4 && "description"@.len() == 11 && "inputSchema"@.len() == 11
        && "annotations"@.len() == 11 && "input_schema"@.len() == 12);
    assert("inputSchema"@[0] == 'i' && "description"@[0] == 'd' && "annotations"@[0] == 'a');
    reveal_with_fuel(json::lookup, 6);
}

// ============================ signing in ============================

/// How far a sign-in has come: what is under way.
#[derive(Debug, Clone, Copy, PartialEq, Eq, Structural)]
pub enum SignInStage {
    /// The server's authorization is looked up.
    Initializing,
    /// Authorization is started.
    Starting,
    /// The browser is open, and its visit is waited for.
    AwaitingCallback,
    /// The code is exchanged for a token.
    Exchanging,
    /// Nothing: the token is stored.
    SignedIn,
}

/// What is told of a sign-in that failed at that stage.
pub open spec fn sign_in_failure(stage: SignInStage, e: Seq<char>) -> Seq<char> {
    match stage {
        SignInStage::Initializing => "auth init failed: "@ + e,
        SignInStage::Starting => "authorization start failed: "@ + e,
        SignInStage::AwaitingCallback => "authorization callback failed: "@ + e,
        SignInStage::Exchanging => "token exchange failed: "@ + e,
        SignInStage::SignedIn => e,
    }
}

/// Where a sign-in stands after what was under way ended with `outcome`: one stage
/// further, or given up. A start may not have led to a session.
pub open spec fn sign_in_after(stage: SignInStage, outcome: Result<bool, Seq<char>>) -> Result<
    SignInStage,
    Seq<char>,
> {
    match outcome {
        Err(e) => Err(sign_in_failure(stage, e)),
        Ok(in_session) => match stage {
            SignInStage::Initializing => Ok(SignInStage::Starting),
            SignInStage::Starting => if in_session {
                Ok(SignInStage::AwaitingCallback)
            } else {
                Err("unexpected OAuth state after start_authorization"@)
            },
            SignInStage::AwaitingCallback => Ok(SignInStage::Exchanging),
            SignInStage::Exchanging => Ok(SignInStage::SignedIn),
            SignInStage::SignedIn => Ok(SignInStage::SignedIn),
        },
    }
}

/// Go on with a sign-in after what was under way has ended.
pub fn sign_in_next(stage: SignInStage, outcome: Result<bool, String>) -> (r: Result<
    SignInStage,
    String,
>)
    ensures
        outcome_text(r) == sign_in_after(stage, outcome_text(outcome)),
{
    match outcome {
        Err(e) => Err(
            match stage {
                SignInStage::Initializing => text::joined("auth init failed: ", e.as_str()),
                SignInStage::Starting => text::joined("authorization start failed: ", e.as_str()),
                SignInStage::AwaitingCallback => {
                    text::joined("authorization callback failed: ", e.as_str())
                },
                SignInStage::Exchanging => text::joined("token exchange failed: ", e.as_str()),
                SignInStage::SignedIn => e,
            },
        ),
        Ok(in_session) => match stage {
            SignInStage::Initializing => Ok(SignInStage::Starting),
            SignInStage::Starting => if in_session {
                Ok(SignInStage::AwaitingCallback)
            } else {
                Err("unexpected OAuth state after start_authorization".to_owned())
            },
            SignInStage::AwaitingCallback => Ok(SignInStage::Exchanging),
            SignInStage::Exchanging => Ok(SignInStage::SignedIn),
            SignInStage::SignedIn => Ok(SignInStage::SignedIn),
        },
    }
}

/// How a server is signed in to: where its token goes, and the address that the
/// token is for, which is the one to keep for the server.
pub fn run_oauth_flow(config_dir: &str, name: &str, url: &str) -> (r: SignIn)
    ensures
        (r.token@, r.url@) == sign_in_place(config_dir@, name@, url@),
{
    SignIn { token: oauth::token_path(config_dir, name), url: normalize_url(url) }
}

/// A server that is kept with the address of its sign-in is connected to at exactly
/// that address, which its token is bound to.
pub proof fn law_sign_in_fits_connection(url: Seq<char>, server: McpServer)
    requires
        server.url@ == normalized(url),
    ensures
        normalized(server.url@) == server.url@,
{
    law_normalizing_is_idempotent(url);
}

/// A server that was signed in to, and is kept under its name and with the address of the
/// sign-in, is connected to with that token and at that address; and no server is
/// connected to with the token of another.
pub proof fn law_tokens_fit_their_server(
    config_dir: Seq<char>,
    name: Seq<char>,
    url: Seq<char>,
    other: Seq<char>,
    elsewhere: Seq<char>,
)
    ensures
        sign_in_place(config_dir, name, sign_in_place(config_dir, name, url).1) == sign_in_place(
            config_dir,
            name,
            url,
        ),
        name != other ==> sign_in_place(config_dir, name, url).0 != sign_in_place(
            config_dir,
            other,
            elsewhere,
        ).0,
{
    law_normalizing_is_idempotent(url);
    if name != other {
        oauth::law_tokens_are_kept_apart(config_dir, name, other);
    }
}

/// The program that opens an address in the browser.
pub open spec fn browser_on(os: Seq<char>) -> Seq<char> {
    if os == "macos"@ {
        "open"@
    } else if os == "windows"@ {
        "explorer"@
    } else {
        "xdg-open"@
    }
}

pub fn browser_command(os: &str) -> (r: &'static str)
    ensures
        r@ == browser_on(os@),
{
    if text::same(os, "macos") {
        "open"
    } else if text::same(os, "windows") {
        "explorer"
    } else {
        "xdg-open"
    }
}

/// What is told when the callback's port cannot be had.
pub open spec fn bind_failure(port: nat, in_use: bool, e: Seq<char>) -> Seq<char> {
    if in_use {
        "Bit's sign-in callback port "@ + text::decimal(port)
            + " is already in use — likely a stale Bit process. Quit Bit fully (tray → Quit Bit) and try again. (Underlying error: "@
            + e + ")"@
    } else {
        "couldn't bind callback port "@ + text::decimal(port) + ": "@ + e
    }
}

/// What is told when the callback's port cannot be had: where it is taken, most
/// likely by another Bit.
pub fn bind_error(port: u16, in_use: bool, e: &str) -> (r: String)
    ensures
        r@ == bind_failure(port as nat, in_use, e@),
{
    let number = text::u64_text(port as u64);
    if in_use {
        let mut s = "Bit's sign-in callback port ".to_owned();
        s.append(number.as_str());
        s.append(
            " is already in use — likely a stale Bit process. Quit Bit fully (tray → Quit Bit) and try again. (Underlying error: ",
        );
        s.append(e);
        s.append(")");
        s
    } else {
        let mut s = "couldn't bind callback port ".to_owned();
        s.append(number.as_str());
        s.append(": ");
        s.append(e);
        s
    }
}

/// What is told when nobody signed in in time.
pub fn callback_timeout() -> (r: String)
    ensures
        r@ == "timed out after "@ + text::decimal(CALLBACK_TIMEOUT_SECS as nat)
            + "s waiting for sign-in"@,
{
    let mut s = "timed out after ".to_owned();
    s.append(text::u64_text(CALLBACK_TIMEOUT_SECS).as_str());
    s.append("s waiting for sign-in");
    s
}

// ---- the browser's visit ----

/// The query of a request line such as `GET /callback?code=…&state=… HTTP/1.1`: what
/// follows the first `?` in its second word.
pub open spec fn query_in(line: Seq<char>) -> Option<Seq<char>> {
    let ws = text::words(line);
    if ws.len() > 1 {
        match text::parted(ws[1], "?"@) {
            Some((_, q)) => Some(q),
            None => None,
        }
    } else {
        None
    }
}

fn query_of(line: &str) -> (r: Option<String>)
    ensures
        text::opt_view(r) == query_in(line@),
{
    let ws = text::split_whitespace(line);
    assert(text::views(ws@).len() == ws@.len());
    if ws.len() > 1 {
        assert(text::views(ws@)[1] == ws@[1]@);
        match text::split_once(ws[1].as_str(), "?") {
            Some((_, q)) => Some(q),
            None => None,
        }
    } else {
        None
    }
}

/// The page that the browser shows.
pub open spec fn page(connected: bool) -> Seq<char> {
    if connected {
        "<!doctype html><meta charset=utf-8><title>Bit</title><style>body{font:14px -apple-system,sans-serif;text-align:center;padding:60px}</style><h2>✓ Connected</h2><p>You can close this tab and return to Bit.</p>"@
    } else {
        "<!doctype html><meta charset=utf-8><title>Bit</title><h2>Waiting…</h2>"@
    }
}

/// A whole response with the given page, and with its length in bytes.
pub open spec fn response_with(body: Seq<char>) -> Seq<char> {
    "HTTP/1.1 200 OK\r\nContent-Type: text/html; charset=utf-8\r\nConnection: close\r\nContent-Length: "@
        + text::decimal(encode_utf8(body).len()) + "\r\n\r\n"@ + body
}

/// The response to the browser, with or without a query in its request.
pub fn callback_response(connected: bool) -> (r: String)
    ensures
        r@ == response_with(page(connected)),
{
    let body = if connected {
        "<!doctype html><meta charset=utf-8><title>Bit</title><style>body{font:14px -apple-system,sans-serif;text-align:center;padding:60px}</style><h2>✓ Connected</h2><p>You can close this tab and return to Bit.</p>"
    } else {
        "<!doctype html><meta charset=utf-8><title>Bit</title><h2>Waiting…</h2>"
    };
    let mut s =
        "HTTP/1.1 200 OK\r\nContent-Type: text/html; charset=utf-8\r\nConnection: close\r\nContent-Length: ".to_owned();
    s.append(text::usize_text(body.as_bytes().len()).as_str());
    s.append("\r\n\r\n");
    s.append(body);
    s
}

/// The key and the value of one part of a query; without `=` the whole part is the
/// key.
pub open spec fn key_value(part: Seq<char>) -> (Seq<char>, Seq<char>) {
    match text::parted(part, "="@) {
        Some(kv) => kv,
        None => (part, ""@),
    }
}

/// The decoded value that a key has last in the parts of a query.
pub open spec fn last_value(parts: Seq<Seq<char>>, key: Seq<char>) -> Option<Seq<char>>
    decreases parts.len(),
{
    if parts.len() == 0 {
        None
    } else {
        let (k, v) = key_value(parts.last());
        if k == key {
            Some(percent_decoded(v))
        } else {
            last_value(parts.drop_last(), key)
        }
    }
}

/// The code and the state in a query, where it has both.
pub open spec fn sign_in_of(query: Seq<char>) -> Option<(Seq<char>, Seq<char>)> {
    let parts = text::pieces(query, Cut::At('&'));
    match (last_value(parts, "code"@), last_value(parts, "state"@)) {
        (Some(c), Some(s)) => Some((c, s)),
        _ => None,
    }
}

fn code_and_state(query: &str) -> (r: Option<(String, String)>)
    ensures
        text::opt_pair_view(r) == sign_in_of(query@),
{
    let parts = text::split(query, &Cut::At('&'));
    let ghost all = text::views(parts@);
    let mut code: Option<String> = None;
    let mut state: Option<String> = None;
    proof {
        reveal_strlit("code");
        reveal_strlit("state");
        assert("code"@.len() == 4 && "state"@.len() == 5);
    }
    for i in 0..parts.len()
        invariant
            all == text::views(parts@),
            "code"@.len() != "state"@.len(),
            text::opt_view(code) == last_value(all.take(i as int), "code"@),
            text::opt_view(state) == last_value(all.take(i as int), "state"@),
    {
        proof {
            assert(all.take(i + 1).drop_last() =~= all.take(i as int));
            assert(all.take(i + 1).last() == parts@[i as int]@);
        }
        let (k, v) = match text::split_once(parts[i].as_str(), "=") {
            Some(kv) => kv,
            None => (parts[i].clone(), "".to_owned()),
        };
        let val = percent_decode(v.as_str());
        if text::same(k.as_str(), "code") {
            code = Some(val);
        } else if text::same(k.as_str(), "state") {
            state = Some(val);
        }
    }
    assert(all.take(all.len() as int) =~= all);
    match (code, state) {
        (Some(c), Some(s)) => Some((c, s)),
        _ => None,
    }
}

/// The code and the state that a request carries, where it carries both.
pub open spec fn visit(request_line: Seq<char>) -> Option<(Seq<char>, Seq<char>)> {
    match query_in(request_line) {
        Some(q) => sign_in_of(q),
        None => None,
    }
}

/// What a request to the callback gets back, and what it tells: the code and the
/// state, once a request carries both.
pub fn wait_for_callback(request_line: &str) -> (r: (String, Option<(String, String)>))
    ensures
        r.0@ == response_with(page(query_in(request_line@) is Some)),
        text::opt_pair_view(r.1) == visit(request_line@),
{
    match query_of(request_line) {
        Some(q) => (callback_response(true), code_and_state(q.as_str())),
        None => (callback_response(false), None),
    }
}

/// The code and the state in a number of requests, one after the other: those of the
/// first that carries both.
pub open spec fn signed_in_by(request_lines: Seq<Seq<char>>) -> Option<(Seq<char>, Seq<char>)>
    decreases request_lines.len(),
{
    if request_lines.len() == 0 {
        None
    } else if visit(request_lines[0]) is Some {
        visit(request_lines[0])
    } else {
        signed_in_by(request_lines.drop_first())
    }
}

/// Requests that do not carry both, such as one for an icon, never change what is taken
/// for the sign-in, wherever they come in.
pub proof fn law_other_visits_are_skipped(
    before: Seq<Seq<char>>,
    other: Seq<char>,
    after: Seq<Seq<char>>,
)
    requires
        visit(other) is None,
    ensures
        signed_in_by(before + seq![other] + after) == signed_in_by(before + after),
    decreases before.len(),
{
    let with = before + seq![other] + after;
    if before.len() == 0 {
        assert(with[0] == other);
        assert(with.drop_first() =~= before + after);
    } else {
        law_other_visits_are_skipped(before.drop_first(), other, after);
        assert(with[0] == before[0]);
        assert(with.drop_first() =~= before.drop_first() + seq![other] + after);
        assert((before + after)[0] == before[0]);
        assert((before + after).drop_first() =~= before.drop_first() + after);
    }
}

/// The first request that carries both is the sign-in, whatever follows it.
pub proof fn law_first_sign_in_counts(
    before: Seq<Seq<char>>,
    line: Seq<char>,
    after: Seq<Seq<char>>,
)
    requires
        visit(line) is Some,
        forall|i: int| 0 <= i < before.len() ==> visit(#[trigger] before[i]) is None,
    ensures
        signed_in_by(before + seq![line] + after) == visit(line),
    decreases before.len(),
{
    let all = before + seq![line] + after;
    if before.len() == 0 {
        assert(all[0] == line);
    } else {
        let rest = before.drop_first();
        assert forall|i: int| 0 <= i < rest.len() implies visit(#[trigger] rest[i]) is None by {
            assert(rest[i] == before[i + 1]);
        }
        law_first_sign_in_counts(rest, line, after);
        assert(all[0] == before[0]);
        assert(all.drop_first() =~= rest + seq![line] + after);
    }
}

// ---- percent-encoding ----

/// The value of a hexadecimal digit.
pub open spec fn hex_value(b: u8) -> Option<u8> {
    if 48 <= b <= 57 {
        Some((b - 48) as u8)
    } else if 65 <= b <= 70 {
        Some((b - 55) as u8)
    } else if 97 <= b <= 102 {
        Some((b - 87) as u8)
    } else {
        None
    }
}

/// The number that two hexadecimal digits spell.
pub open spec fn hex_pair(a: u8, b: u8) -> Option<u8> {
    match (hex_value(a), hex_value(b)) {
        (Some(x), Some(y)) => Some((16 * x + y) as u8),
        _ => None,
    }
}

/// The bytes that percent-encoded bytes stand for: `%` and two digits for the byte
/// of that number, `+` for a space, any other byte for itself, a `%` without its
/// digits too.
pub open spec fn decoded(bytes: Seq<u8>) -> Seq<u8>
    decreases bytes.len(),
{
    if bytes.len() == 0 {
        Seq::empty()
    } else if bytes[0] == 37 && bytes.len() > 2 && hex_pair(bytes[1], bytes[2]) is Some {
        seq![hex_pair(bytes[1], bytes[2])->0] + decoded(bytes.skip(3))
    } else if bytes[0] == 43 {
        seq![32u8] + decoded(bytes.skip(1))
    } else {
        seq![bytes[0]] + decoded(bytes.skip(1))
    }
}

/// The text that percent-encoded text stands for.
pub open spec fn percent_decoded(s: Seq<char>) -> Seq<char> {
    text::utf8_lossy(decoded(encode_utf8(s)))
}

fn hex_digit(b: u8) -> (r: Option<u8>)
    ensures
        r == hex_value(b),
        r matches Some(x) ==> x < 16,
{
    if 48 <= b && b <= 57 {
        Some(b - 48)
    } else if 65 <= b && b <= 70 {
        Some(b - 55)
    } else if 97 <= b && b <= 102 {
        Some(b - 87)
    } else {
        None
    }
}

fn hex_byte(a: u8, b: u8) -> (r: Option<u8>)
    ensures
        r == hex_pair(a, b),
{
    match (hex_digit(a), hex_digit(b)) {
        (Some(x), Some(y)) => Some(16 * x + y),
        _ => None,
    }
}

/// Decode a value of a query.
pub fn percent_decode(s: &str) -> (r: String)
    ensures
        r@ == percent_decoded(s@),
{
    let bytes = s.as_bytes();
    let mut out: Vec<u8> = Vec::new();
    let mut i: usize = 0;
    assert(bytes@.skip(0) =~= bytes@);
    assert(out@ + decoded(bytes@) =~= decoded(bytes@));
    while i < bytes.len()
        invariant
            i <= bytes@.len(),
            out@ + decoded(bytes@.skip(i as int)) == decoded(bytes@),
        decreases bytes@.len() - i,
    {
        let ghost rest = bytes@.skip(i as int);
        let ghost before = out@;
        assert(rest.skip(1) =~= bytes@.skip(i + 1));
        if bytes[i] == 37 && bytes.len() - i > 2 {
            assert(rest[1] == bytes@[i + 1] && rest[2] == bytes@[i + 2]);
            match hex_byte(bytes[i + 1], bytes[i + 2]) {
                Some(b) => {
                    assert(rest.skip(3) =~= bytes@.skip(i + 3));
                    out.push(b);
                    i = i + 3;
                    assert(out@ + decoded(bytes@.skip(i as int)) =~= before + decoded(rest));
                    continue ;
                },
                None => {},
            }
        }
        if bytes[i] == 43 {
            out.push(32);
        } else {
            out.push(bytes[i]);
        }
        i = i + 1;
        assert(out@ + decoded(bytes@.skip(i as int)) =~= before + decoded(rest));
    }
    assert(bytes@.skip(i as int) =~= Seq::empty());
    assert(out@ =~= decoded(bytes@));
    text::from_utf8_lossy(&out)
}

/// The digit for a number below 16.
pub open spec fn hex_char(x: int) -> u8 {
    if x < 10 {
        (48 + x) as u8
    } else {
        (55 + x) as u8
    }
}

/// Bytes with each of them percent-encoded.
pub open spec fn encoded(bytes: Seq<u8>) -> Seq<u8>
    decreases bytes.len(),
{
    if bytes.len() == 0 {
        Seq::empty()
    } else {
        seq![37u8, hex_char(bytes[0] as int / 16), hex_char(bytes[0] as int % 16)] + encoded(
            bytes.skip(1),
        )
    }
}

/// Whatever the bytes, decoding gives back what was percent-encoded.
pub proof fn law_decoding_undoes_encoding(bytes: Seq<u8>)
    ensures
        decoded(encoded(bytes)) == bytes,
    decreases bytes.len(),
{
    if bytes.len() > 0 {
        law_decoding_undoes_encoding(bytes.skip(1));
        let e = encoded(bytes);
        let b = bytes[0] as int;
        assert(e.skip(3) =~= encoded(bytes.skip(1)));
        assert(e[0] == 37 && e[1] == hex_char(b / 16) && e[2] == hex_char(b % 16));
        assert(0 <= b / 16 < 16 && 0 <= b % 16 < 16 && 16 * (b / 16) + b % 16 == b);
        assert(hex_pair(e[1], e[2]) == Some(bytes[0]));
        assert(decoded(e) =~= seq![bytes[0]] + bytes.skip(1));
        assert(seq![bytes[0]] + bytes.skip(1) =~= bytes);
    }
}

proof fn lemma_plain_bytes(bytes: Seq<u8>)
    requires
        forall|i: int| 0 <= i < bytes.len() ==> #[trigger] bytes[i] != 37 && bytes[i] != 43,
    ensures
        decoded(bytes) == bytes,
    decreases bytes.len(),
{
    if bytes.len() > 0 {
        lemma_plain_bytes(bytes.skip(1));
        assert(seq![bytes[0]] + bytes.skip(1) =~= bytes);
    }
}

proof fn lemma_encoded_scalar(c: char)
    requires
        c != '%',
        c != '+',
    ensures
        forall|i: int|
            0 <= i < encode_scalar(c as u32).len() ==> {
                let b = #[trigger] encode_scalar(c as u32)[i];
                b != 37 && b != 43
            },
{
    let v = c as u32;
    char_is_scalar(c);
    assert(v != 37 && v != 43);
    assert(v <= 0x7f ==> (v & 0x7f) as u8 == v as u8) by (bit_vector);
    assert(0xc0u8 | ((v >> 6) & 0x1f) as u8 >= 128) by (bit_vector);
    assert(0xe0u8 | ((v >> 12) & 0x0f) as u8 >= 128) by (bit_vector);
    assert(0xf0u8 | ((v >> 18) & 0x07) as u8 >= 128) by (bit_vector);
    assert(0x80u8 | (v & 0x3f) as u8 >= 128) by (bit_vector);
    assert(0x80u8 | ((v >> 6) & 0x3f) as u8 >= 128) by (bit_vector);
    assert(0x80u8 | ((v >> 12) & 0x3f) as u8 >= 128) by (bit_vector);
}

proof fn lemma_plain_chars(s: Seq<char>)
    requires
        forall|i: int| 0 <= i < s.len() ==> #[trigger] s[i] != '%' && s[i] != '+',
    ensures
        forall|i: int|
            0 <= i < encode_utf8(s).len() ==> #[trigger] encode_utf8(s)[i] != 37 && encode_utf8(
                s,
            )[i] != 43,
    decreases s.len(),
{
    if s.len() > 0 {
        lemma_plain_chars(s.drop_first());
        lemma_encoded_scalar(s[0]);
        let head = encode_scalar(s[0] as u32);
        let rest = encode_utf8(s.drop_first());
        assert forall|i: int| 0 <= i < encode_utf8(s).len() implies #[trigger] encode_utf8(s)[i]
            != 37 && encode_utf8(s)[i] != 43 by {
            if i < head.len() {
                assert(encode_utf8(s)[i] == head[i]);
            } else {
                assert(encode_utf8(s)[i] == rest[i - head.len()]);
            }
        }
    }
}

/// Text without `%` and `+` stands for itself.
pub proof fn law_plain_text_is_kept(s: Seq<char>)
    requires
        forall|i: int| 0 <= i < s.len() ==> #[trigger] s[i] != '%' && s[i] != '+',
    ensures
        percent_decoded(s) == s,
{
    lemma_plain_chars(s);
    lemma_plain_bytes(encode_utf8(s));
    encode_utf8_valid_utf8(s);
    encode_utf8_decode_utf8(s);
}

// ============================ what is kept to ============================

/// An SSE address becomes the `/mcp` address beside it; slashes behind it become
/// one.
pub proof fn law_sse_addresses_are_replaced(stem: Seq<char>, slashes: nat)
    ensures
        normalized(stem + "/sse"@) == stem + "/mcp"@,
        slashes > 0 ==> normalized(stem + "/sse"@ + Seq::new(slashes, |i: int| '/')) == stem
            + "/mcp"@ + "/"@,
{
    reveal_strlit("/sse");
    assert("/sse"@.len() == 4);
    reveal_strlit("");
    assert(""@.len() == 0);
    let address = stem + "/sse"@;
    let run = Seq::new(slashes, |i: int| '/');
    assert(address.last() == 'e');
    text::law_trimming_a_character(address, '/', slashes);
    assert(address.subrange(address.len() - 4, address.len() as int) =~= "/sse"@);
    assert(address.take(address.len() - 4) =~= stem);
    assert(stem + "/mcp"@ + ""@ =~= stem + "/mcp"@);
    if slashes > 0 {
        assert((address + run).last() == '/');
    }
}

/// A message is told in full. The hint is given exactly where the message speaks of
/// something not found or not allowed and the address does not end in `/mcp`.
pub proof fn law_hints_follow_the_message(url: Seq<char>, err: Seq<char>)
    ensures
        err.is_prefix_of(hinted(url, err)),
        hinted(url, err) != err <==> !"/mcp"@.is_suffix_of(url) && (text::contained(err, "404"@)
            || text::contained(err, "405"@) || text::contained(err, "Method Not Allowed"@)),
        hinted(url, err) != err ==> text::contained(hinted(url, err), "`/mcp`"@),
{
    let hint =
        "\n\nThis URL may be an SSE-only endpoint, which Bit doesn’t support. Try the Streamable-HTTP URL instead — usually the same path ending in `/mcp` (e.g. https://mcp.example.com/mcp)."@;
    reveal_strlit(
        "\n\nThis URL may be an SSE-only endpoint, which Bit doesn’t support. Try the Streamable-HTTP URL instead — usually the same path ending in `/mcp` (e.g. https://mcp.example.com/mcp).",
    );
    reveal_strlit("`/mcp`");
    assert(hint.len() == 179);
    assert("`/mcp`"@.len() == 6);
    let at: int = 137;
    assert(hint.subrange(at, at + 6) =~= "`/mcp`"@);
    let told = err + hint;
    let place: int = err.len() + at;
    assert(told.subrange(place, place + 6) =~= "`/mcp`"@);
    assert(text::occurs_at(told, "`/mcp`"@, place));
    assert(told.len() > err.len());
    assert(err.is_prefix_of(told));
}

/// Whatever stage a connection or a sign-in fails at, the reason is told; and it
/// never goes on from a failure.
pub proof fn law_failures_tell_why(
    url: Seq<char>,
    stage: ConnectStage,
    sign_in: SignInStage,
    e: Seq<char>,
)
    ensures
        connect_after(url, stage, Err(e)) matches Err(told) && text::contained(told, e),
        sign_in_after(sign_in, Err(e)) matches Err(told) && text::contained(told, e),
{
    let none = Seq::<char>::empty();
    text::law_found_within("auth setup failed: "@, e, none);
    text::law_found_within("credential load failed: "@, e, none);
    text::law_found_within("connect failed: "@, e, none);
    text::law_found_within("tools/list failed: "@, e, none);
    text::law_found_within("auth init failed: "@, e, none);
    text::law_found_within("authorization start failed: "@, e, none);
    text::law_found_within("authorization callback failed: "@, e, none);
    text::law_found_within("token exchange failed: "@, e, none);
    text::law_found_within(none, e, none);
    assert(none + e + none =~= e);
    assert("auth setup failed: "@ + e + none =~= "auth setup failed: "@ + e);
    assert("credential load failed: "@ + e + none =~= "credential load failed: "@ + e);
    assert("connect failed: "@ + e + none =~= "connect failed: "@ + e);
    assert("tools/list failed: "@ + e + none =~= "tools/list failed: "@ + e);
    assert("auth init failed: "@ + e + none =~= "auth init failed: "@ + e);
    assert("authorization start failed: "@ + e + none =~= "authorization start failed: "@ + e);
    assert("authorization callback failed: "@ + e + none =~= "authorization callback failed: "@ + e);
    assert("token exchange failed: "@ + e + none =~= "token exchange failed: "@ + e);
    let said = "connect failed: "@ + e;
    let told = hinted(url, said);
    if told != said {
        let hint = told.skip(said.len() as int);
        text::law_found_within("connect failed: "@, e, hint);
        assert(told =~= "connect failed: "@ + e + hint);
    }
}

/// The stages come one after the other: authorization, the credentials, the session, the
/// tools, and then there is nothing more to do.
pub proof fn law_stages_come_in_order(url: Seq<char>, found: bool)
    ensures
        connect_after(url, ConnectStage::SettingUp, Ok(found)) == Ok::<ConnectStage, Seq<char>>(
            ConnectStage::LoadingCredentials,
        ),
        connect_after(url, ConnectStage::LoadingCredentials, Ok(found)) is Ok <==> found,
        connect_after(url, ConnectStage::LoadingCredentials, Ok(true)) == Ok::<
            ConnectStage,
            Seq<char>,
        >(ConnectStage::Connecting),
        connect_after(url, ConnectStage::Connecting, Ok(found)) == Ok::<ConnectStage, Seq<char>>(
            ConnectStage::ListingTools,
        ),
        connect_after(url, ConnectStage::ListingTools, Ok(found)) == Ok::<ConnectStage, Seq<char>>(
            ConnectStage::Connected,
        ),
        sign_in_after(SignInStage::Initializing, Ok(found)) == Ok::<SignInStage, Seq<char>>(
            SignInStage::Starting,
        ),
        sign_in_after(SignInStage::Starting, Ok(found)) is Ok <==> found,
        sign_in_after(SignInStage::Starting, Ok(true)) == Ok::<SignInStage, Seq<char>>(
            SignInStage::AwaitingCallback,
        ),
        sign_in_after(SignInStage::AwaitingCallback, Ok(found)) == Ok::<SignInStage, Seq<char>>(
            SignInStage::Exchanging,
        ),
        sign_in_after(SignInStage::Exchanging, Ok(found)) == Ok::<SignInStage, Seq<char>>(
            SignInStage::SignedIn,
        ),
{
}

/// Where a sign-in stands after a number of outcomes.
pub open spec fn signed_by(stage: SignInStage, outcomes: Seq<Result<bool, Seq<char>>>) -> Result<
    SignInStage,
    Seq<char>,
>
    decreases outcomes.len(),
{
    if outcomes.len() == 0 {
        Ok(stage)
    } else {
        match sign_in_after(stage, outcomes[0]) {
            Ok(next) => signed_by(next, outcomes.drop_first()),
            Err(e) => Err(e),
        }
    }
}

/// A sign-in is made by four outcomes, if and only if none of them is a failure and
/// its start led to a session.
pub proof fn law_sign_in_takes_every_stage(outcomes: Seq<Result<bool, Seq<char>>>)
    requires
        outcomes.len() == 4,
    ensures
        signed_by(SignInStage::Initializing, outcomes) == Ok::<SignInStage, Seq<char>>(
            SignInStage::SignedIn,
        ) <==> (forall|i: int| 0 <= i < 4 ==> (#[trigger] outcomes[i]) is Ok) && outcomes[1]
            == Ok::<bool, Seq<char>>(true),
        signed_by(SignInStage::Initializing, outcomes.take(3)) != Ok::<SignInStage, Seq<char>>(
            SignInStage::SignedIn,
        ),
{
    reveal_with_fuel(signed_by, 5);
    let o1 = outcomes.drop_first();
    let o2 = o1.drop_first();
    let o3 = o2.drop_first();
    assert(o1[0] == outcomes[1] && o2[0] == outcomes[2] && o3[0] == outcomes[3]);
    assert(o3.drop_first().len() == 0);
    let t = outcomes.take(3);
    assert(t.drop_first().drop_first().drop_first().len() == 0);
}

/// A remote tool is shown with what its server says of it, just as a local one is.
pub proof fn law_remote_tools_are_shown(disabled: Seq<Seq<char>>, tool: RemoteTool)
    ensures
        mcp::shown(disabled, remote_view(tool)) matches Some(v) && {
            &&& v.name == tool.name@
            &&& v.description == text::opt_view(tool.description)
            &&& v.enabled == !disabled.contains(tool.name@)
            &&& v.destructive == (match tool.annotations {
                Some(a) => a.destructive,
                None => None,
            })
        },
{
    reveal_strlit("name");
    reveal_strlit("description");
    reveal_strlit("inputSchema");
    reveal_strlit("annotations");
    assert("name"@.len() == 4 && "description"@.len() == 11 && "inputSchema"@.len() == 11
        && "annotations"@.len() == 11);
    assert("inputSchema"@[0] == 'i' && "description"@[0] == 'd' && "annotations"@[0] == 'a');
    reveal_strlit("readOnlyHint");
    reveal_strlit("destructiveHint");
    reveal_strlit("idempotentHint");
    reveal_strlit("openWorldHint");
    assert("readOnlyHint"@.len() == 12 && "destructiveHint"@.len() == 15
        && "idempotentHint"@.len() == 14 && "openWorldHint"@.len() == 13);
    let m = remote_view(tool)->Object_0;
    json::law_last_member_counts(m, 0);
    json::law_last_member_counts(m, 1);
    json::law_last_member_counts(m, 2);
    json::law_last_member_counts(m, 3);
    if let Some(a) = tool.annotations {
        let h = annotations_view(a)->Object_0;
        json::law_last_member_counts(h, 0);
        json::law_last_member_counts(h, 1);
        json::law_last_member_counts(h, 2);
        json::law_last_member_counts(h, 3);
    }
}

/// Each hint of a remote server stands under its own key; one that was not given is
/// null.
pub proof fn law_hints_stand_under_their_key(a: Annotations)
    ensures
        annotations_view(a).get("readOnlyHint"@) == Some(hint_view(a.read_only)),
        annotations_view(a).get("destructiveHint"@) == Some(hint_view(a.destructive)),
        annotations_view(a).get("idempotentHint"@) == Some(hint_view(a.idempotent)),
        annotations_view(a).get("openWorldHint"@) == Some(hint_view(a.open_world)),
        hint_view(a.read_only).bool() == a.read_only,
        hint_view(None) is Null,
{
    reveal_strlit("readOnlyHint");
    reveal_strlit("destructiveHint");
    reveal_strlit("idempotentHint");
    reveal_strlit("openWorldHint");
    assert("readOnlyHint"@.len() == 12 && "destructiveHint"@.len() == 15
        && "idempotentHint"@.len() == 14 && "openWorldHint"@.len() == 13);
    let h = annotations_view(a)->Object_0;
    json::law_last_member_counts(h, 0);
    json::law_last_member_counts(h, 1);
    json::law_last_member_counts(h, 2);
    json::law_last_member_counts(h, 3);
}

/// A call gives what its result was read as; a failure tells why.
pub proof fn law_call_outcomes(outcome: CallOutcome, parsed: Result<JsonView, Seq<char>>)
    ensures
        match outcome {
            CallOutcome::Closed => outcome_view(outcome, parsed) is Err,
            CallOutcome::Failed(e) => outcome_view(outcome, parsed) matches Err(told)
                && e@.is_suffix_of(told),
            CallOutcome::Body(_) => outcome_view(outcome, parsed) == parsed,
        },
{
    if let CallOutcome::Failed(e) = outcome {
        assert(e@.is_suffix_of("tool call failed: "@ + e@));
    }
}

// ---- the browser's visit ----

/// A part of a query is cut at its first `=`; without one it is a key without a
/// value.
pub proof fn law_keys_and_values(key: Seq<char>, value: Seq<char>)
    requires
        !key.contains('='),
    ensures
        key_value(key + "="@ + value) == (key, value),
        key_value(key).0 == key,
        key_value(key).1.len() == 0,
{
    reveal_strlit("=");
    assert("="@ =~= seq!['=']);
    text::law_parted_at(key, '=', value);
    reveal_strlit("");
    assert(""@.len() == 0);
    text::lemma_find(key, "="@);
    if text::contained(key, "="@) {
        let i = choose|i: int| text::occurs_at(key, "="@, i);
        assert(key.subrange(i, i + 1)[0] == key[i]);
        assert(key.contains('='));
    }
}

/// A key has a value exactly where some part has the key, and then it is the decoded
/// value of the last such part.
pub proof fn law_last_value_counts(parts: Seq<Seq<char>>, key: Seq<char>)
    ensures
        last_value(parts, key) is Some <==> exists|i: int|
            0 <= i < parts.len() && key_value(#[trigger] parts[i]).0 == key,
        last_value(parts, key) matches Some(v) ==> exists|i: int|
            {
                &&& 0 <= i < parts.len()
                &&& key_value(#[trigger] parts[i]).0 == key
                &&& v == percent_decoded(key_value(parts[i]).1)
                &&& forall|j: int| i < j < parts.len() ==> key_value(#[trigger] parts[j]).0 != key
            },
    decreases parts.len(),
{
    if parts.len() > 0 {
        let n = parts.len() - 1;
        let rest = parts.drop_last();
        assert(parts.last() == parts[n]);
        law_last_value_counts(rest, key);
        if key_value(parts[n]).0 != key {
            if exists|i: int| 0 <= i < parts.len() && key_value(#[trigger] parts[i]).0 == key {
                let i = choose|i: int| 0 <= i < parts.len() && key_value(#[trigger] parts[i]).0 == key;
                assert(rest[i] == parts[i]);
            }
            if let Some(v) = last_value(rest, key) {
                let i = choose|i: int|
                    {
                        &&& 0 <= i < rest.len()
                        &&& key_value(#[trigger] rest[i]).0 == key
                        &&& v == percent_decoded(key_value(rest[i]).1)
                        &&& forall|j: int| i < j < rest.len() ==> key_value(#[trigger] rest[j]).0 != key
                    };
                assert(rest[i] == parts[i]);
                assert forall|j: int| i < j < parts.len() implies key_value(#[trigger] parts[j]).0
                    != key by {
                    if j < n {
                        assert(rest[j] == parts[j]);
                    }
                }
            }
        }
    }
}

/// A query is a sign-in exactly where one of its parts has the key `code` and one
/// the key `state`, in whatever places.
pub proof fn law_sign_in_needs_both(query: Seq<char>)
    ensures
        ({
            let parts = text::pieces(query, Cut::At('&'));
            &&& sign_in_of(query) is Some <==> exists|i: int, j: int|
                {
                    &&& 0 <= i < parts.len()
                    &&& 0 <= j < parts.len()
                    &&& key_value(#[trigger] parts[i]).0 == "code"@
                    &&& key_value(#[trigger] parts[j]).0 == "state"@
                }
            &&& sign_in_of(query) matches Some((code, state)) ==> {
                &&& last_value(parts, "code"@) == Some(code)
                &&& last_value(parts, "state"@) == Some(state)
            }
        }),
{
    let parts = text::pieces(query, Cut::At('&'));
    law_last_value_counts(parts, "code"@);
    law_last_value_counts(parts, "state"@);
}

/// The code and the state of a sign-in are read off whichever of them comes first,
/// and whatever other part stands beside them.
pub proof fn law_sign_in_in_any_order(code: Seq<char>, state: Seq<char>, other: Seq<char>)
    requires
        forall|i: int|
            0 <= i < code.len() ==> #[trigger] code[i] != '&' && code[i] != '=' && code[i] != '%'
                && code[i] != '+',
        forall|i: int|
            0 <= i < state.len() ==> #[trigger] state[i] != '&' && state[i] != '=' && state[i]
                != '%' && state[i] != '+',
        !other.contains('&'),
        key_value(other).0 != "code"@,
        key_value(other).0 != "state"@,
    ensures
        sign_in_of("code="@ + code + "&state="@ + state) == Some((code, state)),
        sign_in_of("state="@ + state + "&code="@ + code) == Some((code, state)),
        sign_in_of("code="@ + code + "&"@ + other + "&state="@ + state) == Some((code, state)),
        sign_in_of(other + "&state="@ + state + "&code="@ + code) == Some((code, state)),
{
    let cut = Cut::At('&');
    reveal_strlit("code");
    reveal_strlit("state");
    reveal_strlit("=");
    reveal_strlit("&");
    reveal_strlit("code=");
    reveal_strlit("state=");
    reveal_strlit("&code=");
    reveal_strlit("&state=");
    assert("code"@.len() == 4 && "state"@.len() == 5);
    let a = "code"@ + "="@ + code;
    let b = "state"@ + "="@ + state;
    assert(!"code"@.contains('=') && !"state"@.contains('='));
    law_keys_and_values("code"@, code);
    law_keys_and_values("state"@, state);
    law_plain_text_is_kept(code);
    law_plain_text_is_kept(state);
    assert forall|i: int| 0 <= i < a.len() implies !cut.cuts(#[trigger] a[i]) by {
        if i >= 5 {
            assert(a[i] == code[i - 5]);
        }
    }
    assert forall|i: int| 0 <= i < b.len() implies !cut.cuts(#[trigger] b[i]) by {
        if i >= 6 {
            assert(b[i] == state[i - 6]);
        }
    }
    assert forall|i: int| 0 <= i < other.len() implies !cut.cuts(#[trigger] other[i]) by {
        assert(other.contains(other[i]));
    }
    text::law_uncut_is_whole(a, cut);
    text::law_uncut_is_whole(b, cut);
    text::law_uncut_is_whole(other, cut);
    lemma_few_parts(seq![a, b], "code"@);
    lemma_few_parts(seq![a, b], "state"@);
    lemma_few_parts(seq![b, a], "code"@);
    lemma_few_parts(seq![b, a], "state"@);
    text::law_cutting(a, '&', b, cut);
    text::law_cutting(b, '&', a, cut);
    assert("code="@ + code + "&state="@ + state =~= a.push('&') + b);
    assert("state="@ + state + "&code="@ + code =~= b.push('&') + a);
    assert(seq![a] + seq![b] =~= seq![a, b]);
    assert(seq![b] + seq![a] =~= seq![b, a]);
    let ob = other.push('&') + b;
    let ba = b.push('&') + a;
    text::law_cutting(other, '&', b, cut);
    text::law_cutting(a, '&', ob, cut);
    text::law_cutting(other, '&', ba, cut);
    assert("code="@ + code + "&"@ + other + "&state="@ + state =~= a.push('&') + ob);
    assert(other + "&state="@ + state + "&code="@ + code =~= other.push('&') + ba);
    assert(seq![a] + (seq![other] + seq![b]) =~= seq![a, other, b]);
    assert(seq![other] + (seq![b] + seq![a]) =~= seq![other, b, a]);
    lemma_few_parts(seq![a, other, b], "code"@);
    lemma_few_parts(seq![a, other, b], "state"@);
    lemma_few_parts(seq![other, b, a], "code"@);
    lemma_few_parts(seq![other, b, a], "state"@);
}

proof fn lemma_few_parts(parts: Seq<Seq<char>>, key: Seq<char>)
    requires
        2 <= parts.len() <= 3,
    ensures
        last_value(parts, key) == (if key_value(parts.last()).0 == key {
            Some(percent_decoded(key_value(parts.last()).1))
        } else if key_value(parts[parts.len() - 2]).0 == key {
            Some(percent_decoded(key_value(parts[parts.len() - 2]).1))
        } else if parts.len() == 3 && key_value(parts[0]).0 == key {
            Some(percent_decoded(key_value(parts[0]).1))
        } else {
            None
        }),
{
    reveal_with_fuel(last_value, 4);
    let rest = parts.drop_last();
    assert(rest.last() == parts[parts.len() - 2]);
    if parts.len() == 3 {
        assert(rest.drop_last().last() == parts[0]);
    }
}

/// What follows the `?` of the address in a request line is the query, and the
/// sign-in is read off it; an address without one carries nothing.
pub proof fn law_visits_are_read(
    method: Seq<char>,
    path: Seq<char>,
    query: Seq<char>,
    rest: Seq<char>,
)
    requires
        method.len() > 0,
        path.len() > 0,
        forall|i: int| 0 <= i < method.len() ==> !text::whitespace(#[trigger] method[i]),
        forall|i: int| 0 <= i < path.len() ==> !text::whitespace(#[trigger] path[i]),
        forall|i: int| 0 <= i < query.len() ==> !text::whitespace(#[trigger] query[i]),
        !path.contains('?'),
    ensures
        query_in(method + " "@ + path + "?"@ + query + " "@ + rest) == Some(query),
        visit(method + " "@ + path + "?"@ + query + " "@ + rest) == sign_in_of(query),
        query_in(method + " "@ + path + " "@ + rest) is None,
        visit(method + " "@ + path + " "@ + rest) is None,
{
    reveal_strlit(" ");
    reveal_strlit("?");
    assert(" "@ =~= seq![' ']);
    assert("?"@ =~= seq!['?']);
    let target = path + "?"@ + query;
    assert forall|i: int| 0 <= i < target.len() implies !text::whitespace(#[trigger] target[i]) by {
        if i > path.len() {
            assert(target[i] == query[i - path.len() - 1]);
        }
    }
    let line = method + " "@ + path + "?"@ + query + " "@ + rest;
    let behind = target.push(' ') + rest;
    assert(line =~= method.push(' ') + behind);
    text::law_words(method, ' ', behind);
    text::law_words(target, ' ', rest);
    assert(text::words(line) =~= seq![method] + (seq![target] + text::words(rest)));
    assert(text::words(line)[1] == target);
    text::law_parted_at(path, '?', query);
    let plain = method + " "@ + path + " "@ + rest;
    let then = path.push(' ') + rest;
    assert(plain =~= method.push(' ') + then);
    text::law_words(method, ' ', then);
    text::law_words(path, ' ', rest);
    assert(text::words(plain) =~= seq![method] + (seq![path] + text::words(rest)));
    assert(text::words(plain)[1] == path);
    text::lemma_find(path, "?"@);
    if text::contained(path, "?"@) {
        let i = choose|i: int| text::occurs_at(path, "?"@, i);
        assert(path.subrange(i, i + 1)[0] == path[i]);
        assert(path.contains('?'));
    }
}

/// A response ends with its page, behind an empty line and a head that ends with the
/// number of the page's bytes.
pub proof fn law_responses_are_measured(body: Seq<char>)
    ensures
        exists|head: Seq<char>, number: Seq<char>|
            {
                &&& response_with(body) == #[trigger] (head + number) + "\r\n\r\n"@ + body
                &&& text::all_digits(number)
                &&& text::digits_value(number) == encode_utf8(body).len()
            },
{
    let head =
        "HTTP/1.1 200 OK\r\nContent-Type: text/html; charset=utf-8\r\nConnection: close\r\nContent-Length: "@;
    let number = text::decimal(encode_utf8(body).len());
    text::lemma_decimal_value(encode_utf8(body).len());
    assert(response_with(body) == (head + number) + "\r\n\r\n"@ + body);
}

// ---- percent-encoding ----

/// A `%` with two hexadecimal digits, of either case, stands for the byte that they
/// spell, wherever it stands; one without them stands for itself, and so does every
/// other byte but `+`, which stands for a space.
pub proof fn law_bytes_are_decoded(
    b: u8,
    lower_high: bool,
    lower_low: bool,
    plain: u8,
    x: u8,
    y: u8,
    rest: Seq<u8>,
)
    requires
        plain != 37,
        plain != 43,
    ensures
        decoded(
            seq![37u8, digit_for(b as int / 16, lower_high), digit_for(b as int % 16, lower_low)]
                + rest,
        ) == seq![b] + decoded(rest),
        decoded(seq![43u8] + rest) == seq![32u8] + decoded(rest),
        decoded(seq![plain] + rest) == seq![plain] + decoded(rest),
        !(is_hex(x) && is_hex(y)) ==> decoded(seq![37u8, x, y] + rest) == seq![37u8] + decoded(
            seq![x, y] + rest,
        ),
        decoded(seq![37u8]) == seq![37u8],
{
    let d = seq![37u8, digit_for(b as int / 16, lower_high), digit_for(b as int % 16, lower_low)];
    let n = b as int;
    assert(0 <= n / 16 < 16 && 0 <= n % 16 < 16 && 16 * (n / 16) + n % 16 == n);
    assert((d + rest).skip(3) =~= rest);
    assert((d + rest)[0] == 37 && (d + rest)[1] == d[1] && (d + rest)[2] == d[2]);
    assert(hex_pair(d[1], d[2]) == Some(b));
    assert((seq![43u8] + rest).skip(1) =~= rest);
    assert((seq![plain] + rest).skip(1) =~= rest);
    assert((seq![37u8, x, y] + rest).skip(1) =~= seq![x, y] + rest);
    assert((seq![37u8, x, y] + rest)[1] == x && (seq![37u8, x, y] + rest)[2] == y);
    assert(seq![37u8].skip(1) =~= Seq::empty());
    assert(decoded(Seq::empty()) =~= Seq::empty());
    assert(decoded(seq![37u8]) =~= seq![37u8]);
}

/// The hexadecimal digit for a number below 16, in lower case or in upper case.
pub open spec fn digit_for(x: int, lower: bool) -> u8 {
    if x < 10 {
        ('0' as int + x) as u8
    } else if lower {
        ('a' as int + x - 10) as u8
    } else {
        ('A' as int + x - 10) as u8
    }
}

pub open spec fn is_hex(b: u8) -> bool {
    '0' as int <= b <= '9' as int || 'a' as int <= b <= 'f' as int || 'A' as int <= b <= 'F' as int
}

/// Encoded text stands for the text: with each of its bytes percent-encoded, any
/// text is read back as it was.
pub proof fn law_encoded_text_is_read_back(s: Seq<char>, t: Seq<char>)
    requires
        encode_utf8(t) == encoded(encode_utf8(s)),
    ensures
        percent_decoded(t) == s,
{
    law_decoding_undoes_encoding(encode_utf8(s));
    encode_utf8_valid_utf8(s);
    encode_utf8_decode_utf8(s);
}

/// Arguments that are an object are handed over whole; anything else is not.
pub proof fn law_arguments_are_handed_over(
    members: Seq<(Seq<char>, JsonView)>,
    other: JsonView,
)
    ensures
        arguments_text(JsonView::Object(members)) == Some(
            json::json_text(JsonView::Object(members)),
        ),
        !(other is Object) ==> arguments_text(other) is None,
{
}

/// A server is connected to exactly where its token is there, and then with the token of
/// its own name and at the address that the token was got for.
pub proof fn law_connections_need_a_token(
    config_dir: Seq<char>,
    server: McpServer,
    token_exists: bool,
    r: Result<SignIn, String>,
)
    requires
        connects_with(config_dir, server, token_exists, r),
    ensures
        r is Ok <==> token_exists,
        r matches Ok(s) ==> {
            &&& s.token@ == oauth::token_place(config_dir, server.name@)
            &&& s.url@ == normalized(server.url@)
            &&& normalized(s.url@) == s.url@
        },
{
    law_normalizing_is_idempotent(server.url@);
}

/// What is told of a port that cannot be had names the port and gives the reason,
/// whether or not it is taken.
pub proof fn law_ports_are_named(port: nat, in_use: bool, e: Seq<char>)
    ensures
        text::contained(bind_failure(port, in_use, e), text::decimal(port)),
        text::contained(bind_failure(port, in_use, e), e),
{
    let number = text::decimal(port);
    let taken =
        " is already in use — likely a stale Bit process. Quit Bit fully (tray → Quit Bit) and try again. (Underlying error: "@;
    let a = "Bit's sign-in callback port "@;
    let b = "couldn't bind callback port "@;
    text::law_found_within(a, number, taken + e + ")"@);
    assert(a + number + taken + e + ")"@ =~= a + number + (taken + e + ")"@));
    text::law_found_within(a + number + taken, e, ")"@);
    text::law_found_within(b, number, ": "@ + e);
    assert(b + number + ": "@ + e =~= b + number + (": "@ + e));
    text::law_found_within(b + number + ": "@, e, Seq::empty());
    assert(b + number + ": "@ + e + Seq::<char>::empty() =~= b + number + ": "@ + e);
}

/// Every system but the two that have one of their own opens addresses in the same way.
pub proof fn law_browsers(os: Seq<char>)
    ensures
        browser_on("macos"@) == "open"@,
        browser_on("windows"@) == "explorer"@,
        os != "macos"@ && os != "windows"@ ==> browser_on(os) == "xdg-open"@,
{
    reveal_strlit("macos");
    reveal_strlit("windows");
    assert("macos"@.len() == 5 && "windows"@.len() == 7);
}

} // verus!
