//! MCP (Model Context Protocol) servers: how they are kept, how one is spoken to
//! over its standard streams, and how its tools join the agent's.
//!
//! A server's tools are offered under `mcp__<server>__<tool>`. The protocol is
//! kept small: the initialize handshake, `tools/list`, whose result is kept, and
//! `tools/call`.

pub mod http;
pub mod oauth;
pub mod registry;

use crate::agent;
use crate::json;
use crate::json::{Json, JsonView};
use crate::output;
use crate::paths;
use crate::roster;
use crate::text;
use std::collections::BTreeMap;
use vstd::prelude::*;
use vstd::string::*;

verus! {

/// The protocol version that is advertised on `initialize`.
pub const PROTOCOL_VERSION: &'static str = "2025-06-18";

/// How many seconds a single response is waited for.
pub const READ_TIMEOUT_SECS: u64 = 30;

// ============================ model and storage ============================

/// One configured MCP server.
#[derive(Debug, Clone, PartialEq)]
pub struct McpServer {
    pub name: String,
    /// `http` for a remote server; anything else is a local program.
    pub transport: String,
    pub command: String,
    pub args: Vec<String>,
    pub env: BTreeMap<String, String>,
    pub url: String,
    pub enabled: bool,
    /// The gallery preset it came from, if any.
    pub preset: String,
    /// The tools that the user has switched off.
    pub disabled_tools: Vec<String>,
}

/// A server that does not say whether it is enabled is enabled.
pub fn default_true() -> (r: bool)
    ensures
        r,
{
    true
}

/// Where the servers are kept.
pub fn store_path(config_dir: &str) -> (r: String)
    ensures
        r@ == paths::below(config_dir@, "mcp.json"@),
{
    paths::join(config_dir, "mcp.json")
}

/// The servers to work with: those that could be read, or else none.
pub fn load_all(stored: Option<Vec<McpServer>>) -> (r: Vec<McpServer>)
    ensures
        r@ == (match stored {
            Some(all) => all@,
            None => Seq::empty(),
        }),
{
    match stored {
        Some(all) => all,
        None => Vec::new(),
    }
}

/// The names of the servers, in order.
pub open spec fn names(all: Seq<McpServer>) -> Seq<Seq<char>> {
    all.map_values(|s: McpServer| s.name@)
}

/// The place of the first server with the given name, whatever the case of its
/// letters.
pub fn find(all: &Vec<McpServer>, name: &str) -> (r: Option<usize>)
    ensures
        match r {
            Some(i) => roster::place(names(all@), name@) == Some(i as int) && i < all@.len(),
            None => roster::place(names(all@), name@) is None,
        },
{
    let mut i: usize = 0;
    while i < all.len()
        invariant
            i <= all@.len(),
            roster::place(names(all@), name@) == roster::place_from(names(all@), name@, i as int),
        decreases all@.len() - i,
    {
        assert(names(all@)[i as int] == all@[i as int].name@);
        if text::eq_ignore_ascii_case(all[i].name.as_str(), name) {
            return Some(i);
        }
        i = i + 1;
    }
    None
}

/// The servers after one was saved: in place of the first of its name, whatever
/// the case of its letters, or else at the end.
pub open spec fn saved(all: Seq<McpServer>, server: McpServer) -> Seq<McpServer> {
    match roster::place(names(all), server.name@) {
        Some(i) => all.update(i, server),
        None => all.push(server),
    }
}

/// Create or update a server, matched by its name, whatever the case of its
/// letters.
pub fn upsert(all: Vec<McpServer>, server: McpServer) -> (r: Vec<McpServer>)
    ensures
        r@ == saved(all@, server),
{
    let mut all = all;
    match find(&all, server.name.as_str()) {
        Some(i) => {
            all.set(i, server);
        },
        None => {
            all.push(server);
        },
    }
    all
}

/// The servers that deleting by this name leaves.
pub open spec fn remaining(all: Seq<McpServer>, name: Seq<char>) -> Seq<McpServer> {
    all.filter(|s: McpServer| !text::eq_ignore_case(s.name@, name))
}

pub open spec fn unknown_server(name: Seq<char>) -> Seq<char> {
    "no MCP server named '"@ + name + "'"@
}

fn unknown(name: &str) -> (r: String)
    ensures
        r@ == unknown_server(name@),
{
    let mut e = "no MCP server named '".to_owned();
    e.append(name);
    e.append("'");
    e
}

/// Delete the servers with the given name, whatever the case of its letters.
pub fn delete(all: Vec<McpServer>, name: &str) -> (r: Result<Vec<McpServer>, String>)
    ensures
        match r {
            Ok(kept) => kept@ == remaining(all@, name@) && roster::place(
                names(all@),
                name@,
            ) is Some,
            Err(e) => roster::place(names(all@), name@) is None && e@ == unknown_server(name@),
        },
{
    let ghost given = all@;
    let ghost keep = |s: McpServer| !text::eq_ignore_case(s.name@, name@);
    match find(&all, name) {
        None => {
            return Err(unknown(name));
        },
        Some(_) => {},
    }
    let mut kept: Vec<McpServer> = Vec::new();
    proof {
        reveal(Seq::filter);
        assert(given.take(0).filter(keep) =~= Seq::empty());
    }
    for s in it: all
        invariant
            it.seq() == given,
            keep == (|s: McpServer| !text::eq_ignore_case(s.name@, name@)),
            kept@ == given.take(it.index() as int).filter(keep),
    {
        proof {
            reveal(Seq::filter);
            assert(given.take(it.index() + 1).drop_last() =~= given.take(it.index() as int));
            assert(given.take(it.index() + 1).last() == given[it.index() as int]);
        }
        if !text::eq_ignore_ascii_case(s.name.as_str(), name) {
            kept.push(s);
        }
    }
    assert(given.take(given.len() as int) =~= given);
    Ok(kept)
}

/// A saved server is the one that its name leads to, and no other is touched.
pub proof fn law_saved_is_found(all: Seq<McpServer>, server: McpServer)
    ensures
        roster::place(names(saved(all, server)), server.name@) matches Some(i) && saved(
            all,
            server,
        )[i] == server && forall|j: int|
            0 <= j < all.len() && j != i ==> #[trigger] saved(all, server)[j] == all[j],
{
    let after = saved(all, server);
    roster::lemma_place(names(all), server.name@);
    let at = match roster::place(names(all), server.name@) {
        Some(i) => i,
        None => all.len() as int,
    };
    assert(names(after)[at] == server.name@);
    assert forall|j: int| 0 <= j < at implies !text::eq_ignore_case(
        #[trigger] names(after)[j],
        server.name@,
    ) by {
        assert(names(after)[j] == names(all)[j]);
    }
    roster::lemma_place_is(names(after), server.name@, at);
}

/// Saving the same server again changes nothing.
pub proof fn law_saving_is_idempotent(all: Seq<McpServer>, server: McpServer)
    ensures
        saved(saved(all, server), server) == saved(all, server),
{
    law_saved_is_found(all, server);
    roster::lemma_place(names(saved(all, server)), server.name@);
    assert(saved(saved(all, server), server) =~= saved(all, server));
}

/// Where no two servers share a name, none do after saving one.
pub proof fn law_saving_keeps_names_distinct(all: Seq<McpServer>, server: McpServer)
    requires
        roster::distinct(names(all)),
    ensures
        roster::distinct(names(saved(all, server))),
{
    let after = saved(all, server);
    roster::lemma_place(names(all), server.name@);
    let at = match roster::place(names(all), server.name@) {
        Some(i) => i,
        None => all.len() as int,
    };
    assert(names(after)[at] == server.name@);
    assert forall|i: int, j: int|
        0 <= i < j < names(after).len() implies !text::eq_ignore_case(
        #[trigger] names(after)[i],
        #[trigger] names(after)[j],
    ) by {
        if i != at {
            assert(names(after)[i] == names(all)[i]);
        }
        if j != at {
            assert(names(after)[j] == names(all)[j]);
        }
        if text::eq_ignore_case(names(after)[i], names(after)[j]) && at < all.len() {
            if i == at {
                roster::lemma_same_name(names(all)[at], names(all)[j], server.name@);
            } else if j == at {
                roster::lemma_same_name(names(all)[at], names(all)[i], server.name@);
            }
        }
    }
}

/// A deleted server is gone, and every server of another name is left.
pub proof fn law_deleted_is_gone(all: Seq<McpServer>, name: Seq<char>)
    ensures
        roster::place(names(remaining(all, name)), name) is None,
        forall|i: int|
            0 <= i < all.len() && !text::eq_ignore_case(all[i].name@, name) ==> remaining(
                all,
                name,
            ).contains(#[trigger] all[i]),
{
    let keep = |s: McpServer| !text::eq_ignore_case(s.name@, name);
    assert forall|i: int| 0 <= i < all.len() && !text::eq_ignore_case(all[i].name@, name) implies
        remaining(all, name).contains(#[trigger] all[i]) by {
        all.lemma_filter_contains(keep, i);
    }
    roster::lemma_place(names(remaining(all, name)), name);
    let p = roster::place(names(remaining(all, name)), name);
    if p is Some {
        all.lemma_filter_pred(keep, p->0);
    }
}

// ============================ the wire ============================

/// A JSON-RPC request.
pub open spec fn request_of(id: nat, method: Seq<char>, params: JsonView) -> JsonView {
    JsonView::Object(
        seq![
            ("jsonrpc"@, JsonView::Str("2.0"@)),
            ("id"@, JsonView::Number(text::decimal(id))),
            ("method"@, JsonView::Str(method)),
            ("params"@, params),
        ],
    )
}

/// A JSON-RPC notification.
pub open spec fn notification_of(method: Seq<char>, params: JsonView) -> JsonView {
    JsonView::Object(
        seq![
            ("jsonrpc"@, JsonView::Str("2.0"@)),
            ("method"@, JsonView::Str(method)),
            ("params"@, params),
        ],
    )
}

/// A message as it goes out: its text and the end of the line.
pub open spec fn framed(v: JsonView) -> Seq<char> {
    json::json_text(v).push('\n')
}

pub fn request_message(id: u64, method: &str, params: Json) -> (r: Json)
    ensures
        r@ == request_of(id as nat, method@, params@),
{
    let ghost shown = params@;
    let r = Json::object().with("jsonrpc", Json::text("2.0")).with("id", Json::number(id)).with(
        "method",
        Json::text(method),
    ).with("params", params);
    assert(r@->Object_0 =~= request_of(id as nat, method@, shown)->Object_0);
    r
}

pub fn notification_message(method: &str, params: Json) -> (r: Json)
    ensures
        r@ == notification_of(method@, params@),
{
    let ghost shown = params@;
    let r = Json::object().with("jsonrpc", Json::text("2.0")).with(
        "method",
        Json::text(method),
    ).with("params", params);
    assert(r@->Object_0 =~= notification_of(method@, shown)->Object_0);
    r
}

/// Is this a line, with the end of it and no other?
pub open spec fn one_line(s: Seq<char>) -> bool {
    s.len() > 0 && s.last() == '\n' && !s.drop_last().contains('\n')
}

fn frame(j: &Json) -> (r: String)
    ensures
        r@ == framed(j@),
        one_line(r@),
{
    let mut line = json::render(j);
    let ghost text = line@;
    line.push('\n');
    assert(line@.drop_last() =~= text);
    line
}

/// What a message means to someone who waits for the response to request `want`:
/// nothing where it has no id or another one, the error that the server reports,
/// or the result.
pub open spec fn answer(want: nat, msg: JsonView) -> Option<Result<JsonView, Seq<char>>> {
    match msg.get("id"@) {
        None => None,
        Some(id) => if !id.is_number(want) {
            None
        } else {
            match msg.get("error"@) {
                Some(err) => Some(
                    Err(
                        "server error: "@ + (match err.str_at("message"@) {
                            Some(m) => m,
                            None => "(unknown)"@,
                        }),
                    ),
                ),
                None => Some(Ok(agent::or_else(msg.get("result"@), JsonView::Null))),
            }
        },
    }
}

/// The view of an answer.
pub open spec fn answer_view(r: Option<Result<Json, String>>) -> Option<
    Result<JsonView, Seq<char>>,
> {
    match r {
        Some(x) => Some(json::read_view(x)),
        None => None,
    }
}

/// What a message means to someone who waits for the response to request `want`.
pub fn answer_in(want: u64, msg: &Json) -> (r: Option<Result<Json, String>>)
    ensures
        answer_view(r) == answer(want as nat, msg@),
{
    match msg.get("id") {
        None => None,
        Some(id) => if !id.is_u64(want) {
            None
        } else {
            match msg.get("error") {
                Some(err) => Some(
                    Err(text::joined("server error: ", err.str_or("message", "(unknown)"))),
                ),
                None => Some(
                    Ok(
                        match msg.get("result") {
                            Some(v) => v.clone(),
                            None => Json::Null,
                        },
                    ),
                ),
            }
        },
    }
}

/// What waiting for a line ended with.
#[derive(Debug, PartialEq)]
pub enum ReadEvent {
    /// The time was up.
    TimedOut,
    /// Reading failed, for this reason.
    Failed(String),
    /// The server has closed its output.
    Closed,
    /// A line came in.
    Line(String),
}

pub enum ReadView {
    TimedOut,
    Failed(Seq<char>),
    Closed,
    Line(Seq<char>),
}

impl View for ReadEvent {
    type V = ReadView;

    open spec fn view(&self) -> ReadView {
        match self {
            ReadEvent::TimedOut => ReadView::TimedOut,
            ReadEvent::Failed(e) => ReadView::Failed(e@),
            ReadEvent::Closed => ReadView::Closed,
            ReadEvent::Line(l) => ReadView::Line(l@),
        }
    }
}

/// What an event means to someone who waits for the response to request `want`.
/// Blank lines, lines that are no JSON and messages for others mean nothing.
pub open spec fn heard(want: nat, e: ReadView) -> Option<Result<JsonView, Seq<char>>> {
    match e {
        ReadView::TimedOut => Some(
            Err(
                "timed out after "@ + text::decimal(READ_TIMEOUT_SECS as nat)
                    + "s waiting for response to request "@ + text::decimal(want),
            ),
        ),
        ReadView::Failed(why) => Some(Err("read failed: "@ + why)),
        ReadView::Closed => Some(Err("server closed stdout"@)),
        ReadView::Line(line) => if text::trimmed(line).len() == 0 {
            None
        } else {
            match json::json_parse(text::trimmed(line)) {
                Ok(msg) => answer(want, msg),
                Err(_) => None,
            }
        },
    }
}

/// One event while waiting for the response to request `want`: the response, or
/// nothing where the wait goes on.
pub fn read_until_id(want: u64, event: &ReadEvent) -> (r: Option<Result<Json, String>>)
    ensures
        answer_view(r) == heard(want as nat, event@),
{
    match event {
        ReadEvent::TimedOut => {
            let mut e = "timed out after ".to_owned();
            let secs = text::u64_text(READ_TIMEOUT_SECS);
            e.append(secs.as_str());
            e.append("s waiting for response to request ");
            let id = text::u64_text(want);
            e.append(id.as_str());
            Some(Err(e))
        },
        ReadEvent::Failed(why) => Some(Err(text::joined("read failed: ", why.as_str()))),
        ReadEvent::Closed => Some(Err("server closed stdout".to_owned())),
        ReadEvent::Line(line) => {
            let trimmed = text::trim(line.as_str());
            if trimmed.as_str().is_empty() {
                return None;
            }
            match json::parse(trimmed.as_str()) {
                Ok(msg) => answer_in(want, &msg),
                Err(_) => None,
            }
        },
    }
}

/// The response to request `want` in a stream of events: the first that means
/// anything.
pub open spec fn response(want: nat, events: Seq<ReadView>) -> Option<Result<JsonView, Seq<char>>>
    decreases events.len(),
{
    if events.len() == 0 {
        None
    } else if heard(want, events[0]) is Some {
        heard(want, events[0])
    } else {
        response(want, events.drop_first())
    }
}

/// Banners, notifications and responses to other requests never change what is
/// taken for the response, wherever they come in.
pub proof fn law_noise_is_skipped(
    want: nat,
    before: Seq<ReadView>,
    noise: ReadView,
    after: Seq<ReadView>,
)
    requires
        heard(want, noise) is None,
    ensures
        response(want, before + seq![noise] + after) == response(want, before + after),
    decreases before.len(),
{
    let with = before + seq![noise] + after;
    if before.len() == 0 {
        assert(with[0] == noise);
        assert(with.drop_first() =~= before + after);
    } else {
        law_noise_is_skipped(want, before.drop_first(), noise, after);
        assert(with[0] == before[0]);
        assert(with.drop_first() =~= before.drop_first() + seq![noise] + after);
        assert((before + after)[0] == before[0]);
        assert((before + after).drop_first() =~= before.drop_first() + after);
    }
}

/// A message answers at most one request: the one whose number it carries.
pub proof fn law_answers_are_not_mixed_up(a: nat, b: nat, msg: JsonView)
    requires
        answer(a, msg) is Some,
        answer(b, msg) is Some,
    ensures
        a == b,
{
    text::lemma_decimal_value(a);
    text::lemma_decimal_value(b);
}

/// How far the handshake with a server has come.
#[derive(Debug, Clone, Copy, PartialEq, Eq, Structural)]
pub enum Stage {
    /// Nothing was said yet.
    Fresh,
    /// `initialize` was sent.
    Initializing,
    /// `tools/list` was sent.
    Listing,
    /// The tools are known.
    Ready,
}

/// The talk with one server.
#[derive(Debug, PartialEq)]
pub struct Connection {
    pub stage: Stage,
    /// The number of the next request.
    pub next_id: u64,
    /// What `tools/list` gave.
    pub tools: Vec<Json>,
}

pub struct ConnectionView {
    pub stage: Stage,
    pub next_id: nat,
    pub tools: Seq<JsonView>,
}

impl View for Connection {
    type V = ConnectionView;

    open spec fn view(&self) -> ConnectionView {
        ConnectionView {
            stage: self.stage,
            next_id: self.next_id as nat,
            tools: json::json_views(self.tools@),
        }
    }
}

/// What the handshake needs next.
#[derive(Debug, PartialEq)]
pub enum HandshakeStep {
    /// Write this and wait for the response to request `want`.
    Send { text: String, want: u64 },
    /// The tools are known.
    Connected,
    /// It has failed.
    Failed(String),
}

pub enum HandshakeView {
    Send { text: Seq<char>, want: nat },
    Connected,
    Failed(Seq<char>),
}

impl View for HandshakeStep {
    type V = HandshakeView;

    open spec fn view(&self) -> HandshakeView {
        match self {
            HandshakeStep::Send { text, want } => HandshakeView::Send {
                text: text@,
                want: *want as nat,
            },
            HandshakeStep::Connected => HandshakeView::Connected,
            HandshakeStep::Failed(e) => HandshakeView::Failed(e@),
        }
    }
}

/// What `initialize` says of this client.
pub open spec fn client_params(version: Seq<char>) -> JsonView {
    JsonView::Object(
        seq![
            ("protocolVersion"@, JsonView::Str(PROTOCOL_VERSION@)),
            ("capabilities"@, JsonView::Object(Seq::empty())),
            (
                "clientInfo"@,
                JsonView::Object(
                    seq![
                        ("name"@, JsonView::Str("bit"@)),
                        ("version"@, JsonView::Str(version)),
                    ],
                ),
            ),
        ],
    )
}

fn initialize_params(version: &str) -> (r: Json)
    ensures
        r@ == client_params(version@),
{
    let info = Json::object().with("name", Json::text("bit")).with("version", Json::text(version));
    let r = Json::object().with("protocolVersion", Json::text(PROTOCOL_VERSION)).with(
        "capabilities",
        Json::object(),
    ).with("clientInfo", info);
    assert(info@->Object_0 =~= client_params(version@)->Object_0[2].1->Object_0);
    assert(r@->Object_0 =~= client_params(version@)->Object_0);
    r
}

/// The connection when the handshake goes on: `initialize` first; when that is
/// answered, the note that it was, and `tools/list`; when that is answered, the
/// tools are kept. An error ends it.
pub open spec fn handshake(
    c: ConnectionView,
    reply: Result<JsonView, Seq<char>>,
    version: Seq<char>,
) -> (ConnectionView, HandshakeView) {
    match c.stage {
        Stage::Fresh => (
            ConnectionView { stage: Stage::Initializing, next_id: c.next_id + 1, ..c },
            HandshakeView::Send {
                text: framed(request_of(c.next_id, "initialize"@, client_params(version))),
                want: c.next_id,
            },
        ),
        Stage::Initializing => match reply {
            Err(e) => (c, HandshakeView::Failed(e)),
            Ok(_) => (
                ConnectionView { stage: Stage::Listing, next_id: c.next_id + 1, ..c },
                HandshakeView::Send {
                    text: framed(
                        notification_of(
                            "notifications/initialized"@,
                            JsonView::Object(Seq::empty()),
                        ),
                    ) + framed(
                        request_of(c.next_id, "tools/list"@, JsonView::Object(Seq::empty())),
                    ),
                    want: c.next_id,
                },
            ),
        },
        Stage::Listing => match reply {
            Err(e) => (c, HandshakeView::Failed(e)),
            Ok(v) => (
                ConnectionView { stage: Stage::Ready, tools: v.array_at("tools"@), ..c },
                HandshakeView::Connected,
            ),
        },
        Stage::Ready => (c, HandshakeView::Connected),
    }
}

impl Connection {
    /// A connection on which nothing was said yet.
    pub fn new() -> (r: Connection)
        ensures
            r@ == (ConnectionView { stage: Stage::Fresh, next_id: 1, tools: Seq::empty() }),
    {
        let r = Connection { stage: Stage::Fresh, next_id: 1, tools: Vec::new() };
        assert(r@.tools =~= Seq::empty());
        r
    }

    /// Number a request: the line to write, and the number that its response will
    /// carry.
    pub fn request(&mut self, method: &str, params: Json) -> (r: (String, u64))
        requires
            old(self).next_id < u64::MAX,
        ensures
            r.1 == old(self).next_id,
            r.0@ == framed(request_of(r.1 as nat, method@, params@)),
            one_line(r.0@),
            final(self)@ == (ConnectionView { next_id: old(self)@.next_id + 1, ..old(self)@ }),
    {
        let id = self.next_id;
        self.next_id = self.next_id + 1;
        (frame(&request_message(id, method, params)), id)
    }

    /// The line to write for a notification.
    pub fn notify(&self, method: &str, params: Json) -> (r: String)
        ensures
            r@ == framed(notification_of(method@, params@)),
            one_line(r@),
    {
        frame(&notification_message(method, params))
    }

    /// Go on with the handshake, on the response to the last request where there
    /// was one.
    pub fn connect(&mut self, reply: Result<Json, String>, version: &str) -> (r: HandshakeStep)
        requires
            old(self).stage is Fresh || old(self).stage is Initializing ==> old(self).next_id
                < u64::MAX,
        ensures
            (final(self)@, r@) == handshake(old(self)@, json::read_view(reply), version@),
    {
        match self.stage {
            Stage::Fresh => {
                let (text, want) = self.request("initialize", initialize_params(version));
                self.stage = Stage::Initializing;
                HandshakeStep::Send { text, want }
            },
            Stage::Initializing => match reply {
                Err(e) => HandshakeStep::Failed(e),
                Ok(_) => {
                    let mut text = self.notify("notifications/initialized", Json::object());
                    let (list, want) = self.request("tools/list", Json::object());
                    text.append(list.as_str());
                    self.stage = Stage::Listing;
                    HandshakeStep::Send { text, want }
                },
            },
            Stage::Listing => match reply {
                Err(e) => HandshakeStep::Failed(e),
                Ok(v) => {
                    self.tools = v.array_at("tools");
                    self.stage = Stage::Ready;
                    HandshakeStep::Connected
                },
            },
            Stage::Ready => HandshakeStep::Connected,
        }
    }

    /// Number a call of a tool.
    pub fn call(&mut self, tool: &str, args: &Json) -> (r: (String, u64))
        requires
            old(self).next_id < u64::MAX,
        ensures
            r.1 == old(self).next_id,
            r.0@ == framed(request_of(r.1 as nat, "tools/call"@, call_params(tool@, args@))),
            one_line(r.0@),
            final(self)@ == (ConnectionView { next_id: old(self)@.next_id + 1, ..old(self)@ }),
    {
        let params = Json::object().with("name", Json::text(tool)).with("arguments", args.clone());
        assert(params@->Object_0 =~= call_params(tool@, args@)->Object_0);
        self.request("tools/call", params)
    }
}

/// What `tools/call` is told.
pub open spec fn call_params(tool: Seq<char>, args: JsonView) -> JsonView {
    JsonView::Object(seq![("name"@, JsonView::Str(tool)), ("arguments"@, args)])
}

/// A handshake in which the server answers every request asks for exactly two
/// responses, to requests 1 and 2, and ends with the tools that the second
/// carries.
pub proof fn law_handshake(init: JsonView, list: JsonView, version: Seq<char>)
    ensures
        ({
            let fresh = ConnectionView {
                stage: Stage::Fresh,
                next_id: 1,
                tools: Seq::<JsonView>::empty(),
            };
            let nothing = Err::<JsonView, Seq<char>>(Seq::empty());
            let (c1, s1) = handshake(fresh, nothing, version);
            let (c2, s2) = handshake(c1, Ok(init), version);
            let (c3, s3) = handshake(c2, Ok(list), version);
            &&& s1 is Send && s1->want == 1
            &&& s2 is Send && s2->want == 2
            &&& s3 is Connected
            &&& c3.tools == list.array_at("tools"@)
            &&& c3.next_id == 3
        }),
{
}

/// What is told of a server that could not be started.
pub open spec fn start_failure(command: Seq<char>, why: Seq<char>) -> Seq<char> {
    "couldn't start '"@ + command + "' (is it installed?): "@ + why
}

/// Why a server could not be started.
pub fn start_error(command: &str, why: &str) -> (r: String)
    ensures
        r@ == start_failure(command@, why@),
{
    let mut e = "couldn't start '".to_owned();
    e.append(command);
    e.append("' (is it installed?): ");
    e.append(why);
    e
}

/// What is told of a message that could not be sent.
pub open spec fn send_failure(written: bool, why: Seq<char>) -> Seq<char> {
    if written {
        "flush failed: "@ + why
    } else {
        "write failed: "@ + why
    }
}

/// Why a message could not be sent: writing failed, or passing on what was
/// written.
pub fn send_error(written: bool, why: &str) -> (r: String)
    ensures
        r@ == send_failure(written, why@),
{
    if written {
        text::joined("flush failed: ", why)
    } else {
        text::joined("write failed: ", why)
    }
}

// ============================ tool results ============================

/// The text that a content block adds to what is there already: a text block its
/// text, on a line of its own, any other block nothing.
pub open spec fn with_block(out: Seq<char>, block: JsonView) -> Seq<char> {
    match block.str_at("text"@) {
        Some(t) => if block.str_at("type"@) == Some("text"@) {
            if out.len() > 0 {
                out.push('\n') + t
            } else {
                t
            }
        } else {
            out
        },
        None => out,
    }
}

/// The text of a list of content blocks.
pub open spec fn blocks_text(blocks: Seq<JsonView>) -> Seq<char>
    decreases blocks.len(),
{
    if blocks.len() == 0 {
        Seq::empty()
    } else {
        with_block(blocks_text(blocks.drop_last()), blocks.last())
    }
}

/// The readable text of a `tools/call` result, when `raw` is the result itself as
/// text: that of its text blocks, or the result itself where they hold nothing but
/// whitespace.
pub open spec fn readable(result: JsonView, raw: Seq<char>) -> Seq<char> {
    let t = blocks_text(result.array_at("content"@));
    if text::trimmed(t).len() > 0 {
        t
    } else {
        raw
    }
}

/// The readable text of a `tools/call` result, before it is cut to size.
pub open spec fn flattened(result: JsonView) -> Seq<char> {
    readable(result, json::json_text(result))
}

fn text_of_blocks(blocks: &Vec<Json>) -> (r: String)
    ensures
        r@ == blocks_text(json::json_views(blocks@)),
{
    let ghost all = json::json_views(blocks@);
    let mut out = String::new();
    for i in 0..blocks.len()
        invariant
            all == json::json_views(blocks@),
            out@ == blocks_text(all.take(i as int)),
    {
        proof {
            assert(all.take(i + 1).drop_last() =~= all.take(i as int));
            assert(all.take(i + 1).last() == blocks@[i as int]@);
        }
        match blocks[i].str_at("type") {
            Some(kind) => if text::same(kind, "text") {
                match blocks[i].str_at("text") {
                    Some(t) => {
                        let ghost before = out@;
                        if !out.as_str().is_empty() {
                            out.push('\n');
                        }
                        out.append(t);
                        assert(before.len() == 0 ==> out@ =~= t@);
                    },
                    None => {},
                }
            },
            None => {},
        }
    }
    assert(all.take(all.len() as int) =~= all);
    out
}

/// The readable text of a `tools/call` result, when `raw` is the result itself as
/// text.
pub fn readable_text(result: &Json, raw: String) -> (r: String)
    ensures
        r@ == readable(result@, raw@),
{
    let t = text_of_blocks(&result.array_at("content"));
    if text::is_blank(t.as_str()) {
        raw
    } else {
        t
    }
}

/// The readable text of a `tools/call` result: its text blocks, one to a line, or
/// else the result itself, cut to size.
pub fn flatten_mcp_content(result: &Json) -> (r: String)
    ensures
        r@ == output::capped(flattened(result@)),
{
    output::cap(readable_text(result, json::render(result)))
}

// ============================ names ============================

/// The name under which a server's tool is offered.
pub open spec fn full_name(server: Seq<char>, tool: Seq<char>) -> Seq<char> {
    "mcp__"@ + server + "__"@ + tool
}

/// `mcp__<server>__<tool>`: the form that is offered and that the model calls.
pub fn namespaced(server: &str, tool: &str) -> (r: String)
    ensures
        r@ == full_name(server@, tool@),
{
    let mut s = "mcp__".to_owned();
    s.append(server);
    s.append("__");
    s.append(tool);
    s
}

/// The server and the tool in a name.
pub open spec fn parts_of(full: Seq<char>) -> Option<(Seq<char>, Seq<char>)> {
    match text::after_prefix(full, "mcp__"@) {
        Some(rest) => text::parted(rest, "__"@),
        None => None,
    }
}

/// Split a namespaced tool name back into server and tool.
pub fn parse_namespaced(full: &str) -> (r: Option<(&str, &str)>)
    ensures
        match r {
            Some((server, tool)) => parts_of(full@) == Some((server@, tool@)),
            None => parts_of(full@) is None,
        },
{
    match text::strip_prefix(full, "mcp__") {
        None => None,
        Some(rest) => {
            let head = text::chars_of("mcp__").len();
            let sep = text::chars_of("__");
            let cs = text::chars_of(rest.as_str());
            let total = text::chars_of(full).len();
            match text::position(&cs, &sep) {
                None => None,
                Some(i) => {
                    proof {
                        text::lemma_find(rest@, "__"@);
                        assert(rest@.len() + head == total);
                        assert(i + sep@.len() <= rest@.len());
                    }
                    let server = full.substring_char(head, head + i);
                    let tool = full.substring_char(head + i + sep.len(), total);
                    assert(server@ =~= rest@.take(i as int));
                    assert(tool@ =~= rest@.skip(i + sep@.len()));
                    Some((server, tool))
                },
            }
        },
    }
}

/// The name of a tool leads back to its server and the tool, unless the server's
/// name holds `__` or ends in `_`.
pub proof fn law_names_round_trip(server: Seq<char>, tool: Seq<char>)
    requires
        !text::contained(server.push('_'), "__"@),
    ensures
        parts_of(full_name(server, tool)) == Some((server, tool)),
{
    reveal_strlit("mcp__");
    reveal_strlit("__");
    let sep = "__"@;
    let full = full_name(server, tool);
    let rest = server + sep + tool;
    assert(full.take("mcp__"@.len() as int) =~= "mcp__"@);
    assert(full.skip("mcp__"@.len() as int) =~= rest);
    let n = server.len() as int;
    assert(rest.subrange(n, n + 2) =~= sep);
    assert forall|j: int| 0 <= j < n implies !(#[trigger] text::occurs_at(rest, sep, j)) by {
        if text::occurs_at(rest, sep, j) {
            assert(rest.subrange(j, j + 2)[0] == '_' && rest.subrange(j, j + 2)[1] == '_');
            assert(server.push('_').subrange(j, j + 2) =~= sep);
            assert(text::occurs_at(server.push('_'), sep, j));
        }
    }
    text::lemma_first_at(rest, sep, n);
    assert(rest.take(n) =~= server);
    assert(rest.skip(n + 2) =~= tool);
}

/// A name that is understood was made from its parts.
pub proof fn law_parsed_names_are_whole(full: Seq<char>)
    ensures
        parts_of(full) matches Some((server, tool)) ==> full == full_name(server, tool),
{
    if let Some((server, tool)) = parts_of(full) {
        let rest = full.skip("mcp__"@.len() as int);
        text::lemma_find(rest, "__"@);
        let i = text::find(rest, "__"@)->0;
        assert(rest =~= server + rest.subrange(i, i + "__"@.len()) + tool);
        assert(full =~= "mcp__"@ + rest);
        assert(full =~= full_name(server, tool));
    }
}

// ============================ the agent's side ============================

/// How a server's tool is described to the model; none where the tool has no name.
pub open spec fn definition(server: Seq<char>, tool: JsonView) -> Option<JsonView> {
    match tool.str_at("name"@) {
        None => None,
        Some(raw) => Some(
            JsonView::Object(
                seq![
                    ("name"@, JsonView::Str(full_name(server, raw))),
                    (
                        "description"@,
                        JsonView::Str(
                            "["@ + server + "] "@ + (match tool.str_at("description"@) {
                                Some(d) => d,
                                None => raw,
                            }),
                        ),
                    ),
                    (
                        "input_schema"@,
                        agent::or_else(tool.get("inputSchema"@), agent::any_object()),
                    ),
                ],
            ),
        ),
    }
}

fn define(server: &str, tool: &Json) -> (r: Option<Json>)
    ensures
        json::opt_json(r) == definition(server@, tool@),
{
    match tool.str_at("name") {
        None => None,
        Some(raw) => {
            let schema = match tool.get("inputSchema") {
                Some(v) => v.clone(),
                None => agent::any_object_schema(),
            };
            let mut description = "[".to_owned();
            description.append(server);
            description.append("] ");
            description.append(tool.str_or("description", raw));
            let name = namespaced(server, raw);
            let r = Json::object().with("name", Json::text(name.as_str())).with(
                "description",
                Json::text(description.as_str()),
            ).with("input_schema", schema);
            assert(r@->Object_0 =~= definition(server@, tool@)->0->Object_0);
            Some(r)
        },
    }
}

/// Has the user switched the tool off?
pub open spec fn switched_off(disabled: Seq<Seq<char>>, tool: JsonView) -> bool {
    tool.str_at("name"@) matches Some(name) && disabled.contains(name)
}

/// The definitions of those of a server's tools that are not switched off.
pub open spec fn definitions(
    server: Seq<char>,
    disabled: Seq<Seq<char>>,
    tools: Seq<JsonView>,
) -> Seq<JsonView>
    decreases tools.len(),
{
    if tools.len() == 0 {
        Seq::empty()
    } else {
        match definition(server, tools.last()) {
            Some(d) => if switched_off(disabled, tools.last()) {
                definitions(server, disabled, tools.drop_last())
            } else {
                definitions(server, disabled, tools.drop_last()).push(d)
            },
            None => definitions(server, disabled, tools.drop_last()),
        }
    }
}

fn is_switched_off(disabled: &Vec<String>, tool: &Json) -> (r: bool)
    ensures
        r == switched_off(text::views(disabled@), tool@),
{
    match tool.str_at("name") {
        None => false,
        Some(name) => text::among(disabled, name),
    }
}

fn server_defs(server: &McpServer, tools: &Vec<Json>) -> (r: Vec<Json>)
    ensures
        json::json_views(r@) == definitions(
            server.name@,
            text::views(server.disabled_tools@),
            json::json_views(tools@),
        ),
{
    let ghost all = json::json_views(tools@);
    let ghost off = text::views(server.disabled_tools@);
    let mut out: Vec<Json> = Vec::new();
    assert(json::json_views(out@) =~= definitions(server.name@, off, all.take(0)));
    for i in 0..tools.len()
        invariant
            all == json::json_views(tools@),
            off == text::views(server.disabled_tools@),
            json::json_views(out@) == definitions(server.name@, off, all.take(i as int)),
    {
        proof {
            assert(all.take(i + 1).drop_last() =~= all.take(i as int));
            assert(all.take(i + 1).last() == tools@[i as int]@);
        }
        let ghost before = json::json_views(out@);
        if !is_switched_off(&server.disabled_tools, &tools[i]) {
            match define(server.name.as_str(), &tools[i]) {
                Some(d) => {
                    let ghost shown = d@;
                    out.push(d);
                    assert(json::json_views(out@) =~= before.push(shown));
                },
                None => {},
            }
        }
    }
    assert(all.take(all.len() as int) =~= all);
    out
}

/// The views of the tools that the servers answered with.
pub open spec fn tool_views(lists: Seq<Option<Vec<Json>>>) -> Seq<Option<Seq<JsonView>>> {
    lists.map_values(
        |l: Option<Vec<Json>>|
            match l {
                Some(v) => Some(json::json_views(v@)),
                None => None,
            },
    )
}

/// The definitions of the tools of the first `n` servers: of each that is enabled
/// and could be reached.
pub open spec fn all_definitions(
    servers: Seq<McpServer>,
    lists: Seq<Option<Seq<JsonView>>>,
    n: int,
) -> Seq<JsonView>
    decreases n,
{
    if n <= 0 {
        Seq::empty()
    } else {
        all_definitions(servers, lists, n - 1) + (match lists[n - 1] {
            Some(tools) => if servers[n - 1].enabled {
                definitions(
                    servers[n - 1].name@,
                    text::views(servers[n - 1].disabled_tools@),
                    tools,
                )
            } else {
                Seq::empty()
            },
            None => Seq::empty(),
        })
    }
}

/// The definitions of the tools of every enabled server. `lists` holds, for each
/// server, the tools it answered with; a server that could not be reached simply
/// contributes none.
pub fn tool_defs(servers: &Vec<McpServer>, lists: &Vec<Option<Vec<Json>>>) -> (r: Vec<Json>)
    requires
        servers@.len() == lists@.len(),
    ensures
        json::json_views(r@) == all_definitions(
            servers@,
            tool_views(lists@),
            servers@.len() as int,
        ),
{
    let mut out: Vec<Json> = Vec::new();
    assert(json::json_views(out@) =~= Seq::empty());
    for i in 0..servers.len()
        invariant
            servers@.len() == lists@.len(),
            json::json_views(out@) == all_definitions(servers@, tool_views(lists@), i as int),
    {
        let ghost before = json::json_views(out@);
        assert(tool_views(lists@)[i as int] == (match lists@[i as int] {
            Some(v) => Some(json::json_views(v@)),
            None => None,
        }));
        if servers[i].enabled {
            match &lists[i] {
                Some(tools) => {
                    let mut defs = server_defs(&servers[i], tools);
                    let ghost shown = json::json_views(defs@);
                    out.append(&mut defs);
                    assert(json::json_views(out@) =~= before + shown);
                },
                None => {},
            }
        }
        assert(json::json_views(out@) =~= all_definitions(
            servers@,
            tool_views(lists@),
            i + 1,
        ));
    }
    out
}

/// Where a call of a namespaced tool goes: the place of the server in the list and
/// the server's own name for the tool, or why it goes nowhere.
pub open spec fn routed(servers: Seq<McpServer>, full: Seq<char>) -> Result<
    (int, Seq<char>),
    Seq<char>,
> {
    match parts_of(full) {
        None => Err("malformed MCP tool name: "@ + full),
        Some((server, tool)) => match roster::place(names(servers), server) {
            None => Err("MCP server '"@ + server + "' is not configured"@),
            Some(i) => if servers[i].enabled {
                Ok((i, tool))
            } else {
                Err("MCP server '"@ + servers[i].name@ + "' is disabled"@)
            },
        },
    }
}

/// The view of where a call goes.
pub open spec fn route_view(r: Result<(usize, String), String>) -> Result<
    (int, Seq<char>),
    Seq<char>,
> {
    match r {
        Ok((i, tool)) => Ok((i as int, tool@)),
        Err(e) => Err(e@),
    }
}

/// Route a call of a namespaced tool to its server.
pub fn call(servers: &Vec<McpServer>, full: &str) -> (r: Result<(usize, String), String>)
    ensures
        route_view(r) == routed(servers@, full@),
        r matches Ok((i, _)) ==> i < servers@.len() && servers@[i as int].enabled,
{
    match parse_namespaced(full) {
        None => Err(text::joined("malformed MCP tool name: ", full)),
        Some((server, tool)) => match find(servers, server) {
            None => {
                let mut e = "MCP server '".to_owned();
                e.append(server);
                e.append("' is not configured");
                Err(e)
            },
            Some(i) => if servers[i].enabled {
                Ok((i, tool.to_owned()))
            } else {
                let mut e = "MCP server '".to_owned();
                e.append(servers[i].name.as_str());
                e.append("' is disabled");
                Err(e)
            },
        },
    }
}

/// No tool that is switched off is offered: each definition is that of a tool that is
/// not.
pub proof fn law_switched_off_is_not_offered(
    server: Seq<char>,
    disabled: Seq<Seq<char>>,
    tools: Seq<JsonView>,
    d: JsonView,
)
    requires
        definitions(server, disabled, tools).contains(d),
    ensures
        exists|i: int|
            {
                &&& 0 <= i < tools.len()
                &&& definition(server, #[trigger] tools[i]) == Some(d)
                &&& !switched_off(disabled, tools[i])
            },
    decreases tools.len(),
{
    let all = definitions(server, disabled, tools);
    let rest = definitions(server, disabled, tools.drop_last());
    let k = all.index_of(d);
    if rest.contains(d) {
        law_switched_off_is_not_offered(server, disabled, tools.drop_last(), d);
        let i = choose|i: int|
            {
                &&& 0 <= i < tools.drop_last().len()
                &&& definition(server, #[trigger] tools.drop_last()[i]) == Some(d)
                &&& !switched_off(disabled, tools.drop_last()[i])
            };
        assert(tools[i] == tools.drop_last()[i]);
    } else {
        if k < rest.len() {
            assert(rest[k] == d);
        }
        assert(definition(server, tools[tools.len() - 1]) == Some(d));
    }
}

/// The servers after one of them was told which of its tools are switched off.
pub open spec fn with_disabled(
    all: Seq<McpServer>,
    name: Seq<char>,
    disabled: Vec<String>,
) -> Seq<McpServer> {
    match roster::place(names(all), name) {
        Some(i) => all.update(i, (McpServer { disabled_tools: disabled, ..all[i] })),
        None => all,
    }
}

/// Switch off exactly the given tools of a server, by the names that the server has
/// for them.
pub fn set_disabled_tools(all: Vec<McpServer>, name: &str, disabled: Vec<String>) -> (r: Result<
    Vec<McpServer>,
    String,
>)
    ensures
        match r {
            Ok(kept) => roster::place(names(all@), name@) is Some && kept@ == with_disabled(
                all@,
                name@,
                disabled,
            ),
            Err(e) => roster::place(names(all@), name@) is None && e@ == unknown_server(name@),
        },
{
    let mut all = all;
    match find(&all, name) {
        None => Err(unknown(name)),
        Some(i) => {
            all[i].disabled_tools = disabled;
            Ok(all)
        },
    }
}

/// A tool of a server as it is shown to the user.
#[derive(Debug, PartialEq)]
pub struct ToolView {
    /// The server's own name for it.
    pub name: String,
    pub description: Option<String>,
    /// The user has not switched it off.
    pub enabled: bool,
    /// What the server says of whether it is destructive, if anything.
    pub destructive: Option<bool>,
}

/// What is shown of a tool.
pub struct ToolShown {
    pub name: Seq<char>,
    pub description: Option<Seq<char>>,
    pub enabled: bool,
    pub destructive: Option<bool>,
}

impl View for ToolView {
    type V = ToolShown;

    open spec fn view(&self) -> ToolShown {
        ToolShown {
            name: self.name@,
            description: text::opt_view(self.description),
            enabled: self.enabled,
            destructive: self.destructive,
        }
    }
}

/// The server's hint of whether a tool is destructive.
pub open spec fn destructive_hint(tool: JsonView) -> Option<bool> {
    match tool.get("annotations"@) {
        Some(a) => match a.get("destructiveHint"@) {
            Some(hint) => hint.bool(),
            None => None,
        },
        None => None,
    }
}

/// How a tool is shown; not at all where it has no name.
pub open spec fn shown(disabled: Seq<Seq<char>>, tool: JsonView) -> Option<ToolShown> {
    match tool.str_at("name"@) {
        None => None,
        Some(name) => Some(
            ToolShown {
                name,
                description: tool.str_at("description"@),
                enabled: !switched_off(disabled, tool),
                destructive: destructive_hint(tool),
            },
        ),
    }
}

/// How a server's tools are shown, in order.
pub open spec fn all_shown(disabled: Seq<Seq<char>>, tools: Seq<JsonView>) -> Seq<ToolShown>
    decreases tools.len(),
{
    if tools.len() == 0 {
        Seq::empty()
    } else {
        match shown(disabled, tools.last()) {
            Some(v) => all_shown(disabled, tools.drop_last()).push(v),
            None => all_shown(disabled, tools.drop_last()),
        }
    }
}

fn show(disabled: &Vec<String>, tool: &Json) -> (r: Option<ToolView>)
    ensures
        match r {
            Some(v) => shown(text::views(disabled@), tool@) == Some(v@),
            None => shown(text::views(disabled@), tool@) is None,
        },
{
    match tool.str_at("name") {
        None => None,
        Some(name) => Some(
            ToolView {
                name: name.to_owned(),
                description: match tool.str_at("description") {
                    Some(d) => Some(d.to_owned()),
                    None => None,
                },
                enabled: !is_switched_off(disabled, tool),
                destructive: match tool.get("annotations") {
                    Some(a) => match a.get("destructiveHint") {
                        Some(hint) => hint.as_bool(),
                        None => None,
                    },
                    None => None,
                },
            },
        ),
    }
}

/// The tools of a server as they are shown: each with whether it is switched on and
/// what the server says of whether it is destructive.
pub fn tools_view(server: &McpServer, tools: &Vec<Json>) -> (r: Vec<ToolView>)
    ensures
        r@.map_values(|v: ToolView| v@) == all_shown(
            text::views(server.disabled_tools@),
            json::json_views(tools@),
        ),
{
    let ghost all = json::json_views(tools@);
    let ghost off = text::views(server.disabled_tools@);
    let mut out: Vec<ToolView> = Vec::new();
    assert(out@.map_values(|v: ToolView| v@) =~= Seq::empty());
    for i in 0..tools.len()
        invariant
            all == json::json_views(tools@),
            off == text::views(server.disabled_tools@),
            out@.map_values(|v: ToolView| v@) == all_shown(off, all.take(i as int)),
    {
        proof {
            assert(all.take(i + 1).drop_last() =~= all.take(i as int));
            assert(all.take(i + 1).last() == tools@[i as int]@);
        }
        let ghost before = out@.map_values(|v: ToolView| v@);
        match show(&server.disabled_tools, &tools[i]) {
            Some(v) => {
                let ghost view = v@;
                out.push(v);
                assert(out@.map_values(|v: ToolView| v@) =~= before.push(view));
            },
            None => {},
        }
    }
    assert(all.take(all.len() as int) =~= all);
    out
}

/// A tool is shown exactly where it can be offered, and shown as switched on exactly
/// where it is.
pub proof fn law_shown_as_offered(server: Seq<char>, disabled: Seq<Seq<char>>, tool: JsonView)
    ensures
        shown(disabled, tool) is Some <==> definition(server, tool) is Some,
        shown(disabled, tool) matches Some(v) ==> (v.enabled <==> definitions(
            server,
            disabled,
            seq![tool],
        ).len() == 1),
{
    reveal_with_fuel(definitions, 2);
    assert(seq![tool].last() == tool);
    assert(seq![tool].drop_last() =~= Seq::empty());
}

/// The places of the servers that are enabled, among the first `n`.
pub open spec fn enabled_among(servers: Seq<McpServer>, n: int) -> Seq<int>
    decreases n,
{
    if n <= 0 {
        Seq::empty()
    } else if servers[n - 1].enabled {
        enabled_among(servers, n - 1).push(n - 1)
    } else {
        enabled_among(servers, n - 1)
    }
}

/// The places of the servers to connect to: of all that are enabled.
pub fn to_connect(servers: &Vec<McpServer>) -> (r: Vec<usize>)
    ensures
        r@.map_values(|i: usize| i as int) == enabled_among(servers@, servers@.len() as int),
{
    let mut out: Vec<usize> = Vec::new();
    assert(out@.map_values(|i: usize| i as int) =~= Seq::empty());
    for i in 0..servers.len()
        invariant
            out@.map_values(|i: usize| i as int) == enabled_among(servers@, i as int),
    {
        let ghost before = out@.map_values(|i: usize| i as int);
        if servers[i].enabled {
            out.push(i);
            assert(out@.map_values(|i: usize| i as int) =~= before.push(i as int));
        }
    }
    out
}

/// Is the server a remote one?
pub fn is_remote(server: &McpServer) -> (r: bool)
    ensures
        r == (server.transport@ == "http"@),
{
    text::same(server.transport.as_str(), "http")
}

/// The place of the server with the given name, whatever the case of its letters, or that
/// there is none.
pub fn find_named(servers: &Vec<McpServer>, name: &str) -> (r: Result<usize, String>)
    ensures
        match r {
            Ok(i) => roster::place(names(servers@), name@) == Some(i as int) && i < servers@.len(),
            Err(e) => roster::place(names(servers@), name@) is None && e@ == unknown_server(name@),
        },
{
    match find(servers, name) {
        None => Err(unknown(name)),
        Some(i) => Ok(i),
    }
}

/// Is `r` the place of a server to be tried out, or why it cannot be?
pub open spec fn targets(
    servers: Seq<McpServer>,
    name: Seq<char>,
    r: Result<usize, String>,
) -> bool {
    match (roster::place(names(servers), name), r) {
        (None, Err(e)) => e@ == unknown_server(name),
        (Some(i), Ok(k)) => k == i && servers[i].enabled,
        (Some(i), Err(e)) => !servers[i].enabled && e@ == "server is disabled"@,
        (None, Ok(_)) => false,
    }
}

/// A server to be tried out: its place in the list, or why it cannot be.
pub fn test_target(servers: &Vec<McpServer>, name: &str) -> (r: Result<usize, String>)
    ensures
        targets(servers@, name@, r),
        r matches Ok(k) ==> k < servers@.len(),
{
    match find_named(servers, name) {
        Err(e) => Err(e),
        Ok(i) => if servers[i].enabled {
            Ok(i)
        } else {
            Err("server is disabled".to_owned())
        },
    }
}

/// The record of a remote server that was just signed in to.
pub fn http_server(name: String, url: String) -> (r: McpServer)
    ensures
        r.name == name,
        r.url == url,
        r.transport@ == "http"@,
        r.enabled,
        r.command@ == Seq::<char>::empty(),
        r.args@ == Seq::<String>::empty(),
        r.env@ == Map::<String, String>::empty(),
        r.preset@ == Seq::<char>::empty(),
        r.disabled_tools@ == Seq::<String>::empty(),
{
    McpServer {
        name,
        transport: "http".to_owned(),
        command: String::new(),
        args: Vec::new(),
        env: BTreeMap::new(),
        url,
        enabled: true,
        preset: String::new(),
        disabled_tools: Vec::new(),
    }
}

// ============================ presets ============================

/// A gallery entry: what it is, the credentials it needs, and how its server is
/// started. The collected values go into the server's environment.
#[derive(Debug)]
pub struct Preset {
    pub id: &'static str,
    pub label: &'static str,
    pub description: &'static str,
    pub fields: Vec<PresetField>,
    pub command: &'static str,
    pub args: Vec<&'static str>,
}

#[derive(Debug)]
pub struct PresetField {
    pub env_key: &'static str,
    pub label: &'static str,
    pub placeholder: &'static str,
    pub secret: bool,
}

/// Is this a field with these texts?
pub open spec fn is_field(
    f: PresetField,
    env_key: Seq<char>,
    label: Seq<char>,
    placeholder: Seq<char>,
    secret: bool,
) -> bool {
    f.env_key@ == env_key && f.label@ == label && f.placeholder@ == placeholder && f.secret
        == secret
}

/// Is this the entry for Gmail, by way of a community IMAP server?
pub open spec fn is_gmail(p: Preset) -> bool {
    &&& p.id@ == "gmail"@
    &&& p.label@ == "Gmail"@
    &&& p.description@ == "Read your inbox — “do I have unread mail?”, “any email from …?”"@
    &&& p.command@ == "npx"@
    &&& p.args@.len() == 2
    &&& p.args@[0]@ == "-y"@
    &&& p.args@[1]@ == "gmail-mcp-imap"@
    &&& p.fields@.len() == 2
    &&& is_field(p.fields@[0], "GMAIL_EMAIL"@, "Your Gmail address"@, "you@gmail.com"@, false)
    &&& is_field(
        p.fields@[1],
        "GMAIL_APP_PASSWORD"@,
        "App Password (16 characters)"@,
        "e.g. zfuy wpew zrde nmij"@,
        true,
    )
}

/// The gallery.
pub fn presets() -> (r: Vec<Preset>)
    ensures
        r@.len() == 1,
        is_gmail(r@[0]),
{
    let mut fields: Vec<PresetField> = Vec::new();
    fields.push(
        PresetField {
            env_key: "GMAIL_EMAIL",
            label: "Your Gmail address",
            placeholder: "you@gmail.com",
            secret: false,
        },
    );
    fields.push(
        PresetField {
            env_key: "GMAIL_APP_PASSWORD",
            label: "App Password (16 characters)",
            placeholder: "e.g. zfuy wpew zrde nmij",
            secret: true,
        },
    );
    let mut args: Vec<&'static str> = Vec::new();
    args.push("-y");
    args.push("gmail-mcp-imap");
    let mut out: Vec<Preset> = Vec::new();
    out.push(
        Preset {
            id: "gmail",
            label: "Gmail",
            description: "Read your inbox — “do I have unread mail?”, “any email from …?”",
            fields,
            command: "npx",
            args,
        },
    );
    out
}

// ============================ what is kept to ============================

/// A request carries its number, its method and its parameters, unchanged; a
/// notification the same but no number. Each goes out as its own text and one end
/// of line.
pub proof fn law_messages_carry_what_is_sent(id: nat, method: Seq<char>, params: JsonView)
    ensures
        request_of(id, method, params).str_at("jsonrpc"@) == Some("2.0"@),
        request_of(id, method, params).get("id"@) == Some(JsonView::Number(text::decimal(id))),
        request_of(id, method, params).str_at("method"@) == Some(method),
        request_of(id, method, params).get("params"@) == Some(params),
        notification_of(method, params).str_at("jsonrpc"@) == Some("2.0"@),
        notification_of(method, params).get("id"@) is None,
        notification_of(method, params).str_at("method"@) == Some(method),
        notification_of(method, params).get("params"@) == Some(params),
        framed(params).len() == json::json_text(params).len() + 1,
        framed(params).drop_last() == json::json_text(params),
        framed(params).last() == '\n',
{
    reveal_strlit("jsonrpc");
    assert("jsonrpc"@.len() == 7);
    reveal_strlit("id");
    assert("id"@.len() == 2);
    reveal_strlit("method");
    assert("method"@.len() == 6);
    reveal_strlit("params");
    assert("params"@.len() == 6);
    assert("method"@[0] == 'm' && "params"@[0] == 'p');
    let r = request_of(id, method, params)->Object_0;
    json::law_last_member_counts(r, 0);
    json::law_last_member_counts(r, 1);
    json::law_last_member_counts(r, 2);
    json::law_last_member_counts(r, 3);
    let n = notification_of(method, params)->Object_0;
    json::law_last_member_counts(n, 0);
    json::law_last_member_counts(n, 1);
    json::law_last_member_counts(n, 2);
    json::law_absent_members_are_none(n, "id"@);
    assert(framed(params).drop_last() =~= json::json_text(params));
}

/// A call of a tool carries the tool's name and the arguments, whatever they are.
pub proof fn law_calls_carry_their_arguments(tool: Seq<char>, args: JsonView)
    ensures
        call_params(tool, args).str_at("name"@) == Some(tool),
        call_params(tool, args).get("arguments"@) == Some(args),
{
    reveal_strlit("name");
    assert("name"@.len() == 4);
    reveal_strlit("arguments");
    assert("arguments"@.len() == 9);
    let m = call_params(tool, args)->Object_0;
    json::law_last_member_counts(m, 0);
    json::law_last_member_counts(m, 1);
}

/// Is this the line of a request with this number, method and parameters?
pub open spec fn is_request_line(
    line: Seq<char>,
    id: nat,
    method: Seq<char>,
    params: JsonView,
) -> bool {
    exists|m: JsonView|
        {
            &&& line == #[trigger] framed(m)
            &&& m.get("id"@) matches Some(number) && number.is_number(id)
            &&& m.str_at("method"@) == Some(method)
            &&& m.get("params"@) == Some(params)
        }
}

/// A server that answers under the number of a request, with a result and no error,
/// is heard by whoever made that request, and gives the result; with an error, it
/// gives the error's message. A message without a number, or with the number of
/// another request, is not taken for the answer.
pub proof fn law_answers_reach_their_request(
    id: nat,
    other: nat,
    method: Seq<char>,
    params: JsonView,
    msg: JsonView,
)
    ensures
        ({
            let number = request_of(id, method, params).get("id"@);
            &&& msg.get("id"@) == number && msg.get("error"@) is None ==> (match msg.get(
                "result"@,
            ) {
                Some(v) => answer(id, msg) == Some(Ok::<JsonView, Seq<char>>(v)),
                None => answer(id, msg) == Some(Ok::<JsonView, Seq<char>>(JsonView::Null)),
            })
            &&& msg.get("id"@) == number && msg.get("error"@) is Some ==> (answer(
                id,
                msg,
            ) matches Some(Err(e)) && (msg.get("error"@)->0.str_at("message"@) matches Some(m)
                ==> m.is_suffix_of(e)))
            &&& msg.get("id"@) is None ==> answer(id, msg) is None
            &&& msg.get("id"@) == number && other != id ==> answer(other, msg) is None
        }),
{
    law_messages_carry_what_is_sent(id, method, params);
    text::law_numbers_are_told_apart(id, other);
    if let Some(err) = msg.get("error"@) {
        if let Some(m) = err.str_at("message"@) {
            assert(m.is_suffix_of("server error: "@ + m));
        }
    }
}

/// A line is read for the message in it, whatever whitespace stands around that; a
/// blank line, or one that is no JSON, means nothing. A wait that fails ends, with
/// the reason.
pub proof fn law_lines_are_read(
    want: nat,
    before: Seq<char>,
    line: Seq<char>,
    behind: Seq<char>,
    why: Seq<char>,
)
    requires
        forall|i: int| 0 <= i < before.len() ==> text::whitespace(#[trigger] before[i]),
        forall|i: int| 0 <= i < behind.len() ==> text::whitespace(#[trigger] behind[i]),
        line.len() > 0,
        !text::whitespace(line[0]),
        !text::whitespace(line.last()),
    ensures
        json::json_parse(line) matches Ok(msg) ==> heard(
            want,
            ReadView::Line(before + line + behind),
        ) == answer(want, msg),
        json::json_parse(line) is Err ==> heard(want, ReadView::Line(before + line + behind)) is None,
        heard(want, ReadView::Line(before + behind)) is None,
        heard(want, ReadView::Failed(why)) matches Some(Err(e)) && why.is_suffix_of(e),
        heard(want, ReadView::Closed) matches Some(Err(_)),
        heard(want, ReadView::TimedOut) matches Some(Err(e)) && text::decimal(want).is_suffix_of(e),
{
    text::law_trimming_ignores_whitespace(before, line, behind);
    assert(text::trimmed(line) == line);
    text::law_trimming_ignores_whitespace(before, Seq::empty(), behind);
    assert(before + Seq::<char>::empty() + behind =~= before + behind);
}

/// The response is the first event that means anything, whatever comes behind it.
pub proof fn law_first_answer_counts(
    want: nat,
    before: Seq<ReadView>,
    e: ReadView,
    behind: Seq<ReadView>,
)
    requires
        forall|i: int| 0 <= i < before.len() ==> heard(want, #[trigger] before[i]) is None,
    ensures
        heard(want, e) is Some ==> response(want, before + seq![e] + behind) == heard(want, e),
        response(want, before) is None,
    decreases before.len(),
{
    let all = before + seq![e] + behind;
    if before.len() == 0 {
        assert(all[0] == e);
    } else {
        assert(heard(want, before[0]) is None);
        assert(all[0] == before[0]);
        assert(all.drop_first() =~= before.drop_first() + seq![e] + behind);
        let rest = before.drop_first();
        assert forall|i: int| 0 <= i < rest.len() implies heard(want, #[trigger] rest[i]) is None by {
            assert(rest[i] == before[i + 1]);
        }
        law_first_answer_counts(want, rest, e, behind);
    }
}

/// The handshake, whatever number it starts with: it sends `initialize` with the
/// client's name and version; once that is answered it notes so, without asking for
/// an answer, and asks for the tools; once those came in it is connected and keeps
/// them. An error at either point ends it with the reason. Each request has a number
/// of its own.
pub proof fn law_handshake_says_the_right_things(
    c: ConnectionView,
    v: JsonView,
    e: Seq<char>,
    version: Seq<char>,
)
    ensures
        ({
            let (ok, sent) = handshake(c, Ok(v), version);
            let (err, failed) = handshake(c, Err(e), version);
            &&& c.stage is Fresh ==> {
                &&& ok.stage is Initializing
                &&& sent is Send
                &&& sent->want == c.next_id
                &&& is_request_line(sent->text, c.next_id, "initialize"@, client_params(version))
                &&& (err, failed) == (ok, sent)
            }
            &&& c.stage is Initializing ==> {
                &&& ok.stage is Listing
                &&& sent is Send
                &&& sent->want == c.next_id
                &&& exists|note: JsonView, ask: Seq<char>|
                    {
                        &&& sent->text == #[trigger] (framed(note) + ask)
                        &&& note.get("id"@) is None
                        &&& note.str_at("method"@) == Some("notifications/initialized"@)
                        &&& is_request_line(
                            ask,
                            c.next_id,
                            "tools/list"@,
                            JsonView::Object(Seq::empty()),
                        )
                    }
                &&& (err, failed) == (c, HandshakeView::Failed(e))
            }
            &&& c.stage is Listing ==> {
                &&& sent is Connected
                &&& ok.stage is Ready
                &&& ok.tools == v.array_at("tools"@)
                &&& (err, failed) == (c, HandshakeView::Failed(e))
            }
            &&& sent is Send ==> ok.next_id == c.next_id + 1
            &&& !(c.stage is Listing) ==> ok.tools == c.tools
        }),
{
    law_messages_carry_what_is_sent(c.next_id, "initialize"@, client_params(version));
    law_messages_carry_what_is_sent(c.next_id, "tools/list"@, JsonView::Object(Seq::empty()));
    law_messages_carry_what_is_sent(
        0,
        "notifications/initialized"@,
        JsonView::Object(Seq::empty()),
    );
    let init = framed(request_of(c.next_id, "initialize"@, client_params(version)));
    let ask = framed(request_of(c.next_id, "tools/list"@, JsonView::Object(Seq::empty())));
    let note = notification_of("notifications/initialized"@, JsonView::Object(Seq::empty()));
    assert(is_request_line(init, c.next_id, "initialize"@, client_params(version)));
    assert(is_request_line(ask, c.next_id, "tools/list"@, JsonView::Object(Seq::empty())));
    if c.stage is Initializing {
        let (ok, sent) = handshake(c, Ok(v), version);
        assert(sent->text == framed(note) + ask);
    }
}

/// `initialize` tells the protocol's version, the client's name and its version.
pub proof fn law_client_says_who_it_is(version: Seq<char>)
    ensures
        client_params(version).str_at("protocolVersion"@) == Some(PROTOCOL_VERSION@),
        client_params(version).get("capabilities"@) == Some(JsonView::Object(Seq::empty())),
        client_params(version).get("clientInfo"@) matches Some(info) && info.str_at("name"@)
            == Some("bit"@) && info.str_at("version"@) == Some(version),
{
    reveal_strlit("protocolVersion");
    assert("protocolVersion"@.len() == 15);
    reveal_strlit("capabilities");
    assert("capabilities"@.len() == 12);
    reveal_strlit("clientInfo");
    assert("clientInfo"@.len() == 10);
    reveal_strlit("name");
    assert("name"@.len() == 4);
    reveal_strlit("version");
    assert("version"@.len() == 7);
    let m = client_params(version)->Object_0;
    json::law_last_member_counts(m, 0);
    json::law_last_member_counts(m, 1);
    json::law_last_member_counts(m, 2);
    let info = m[2].1->Object_0;
    json::law_last_member_counts(info, 0);
    json::law_last_member_counts(info, 1);
}

/// The text of a result is that of its text blocks, in their order, one to a line.
pub proof fn law_text_blocks_are_joined(blocks: Seq<JsonView>, texts: Seq<Seq<char>>)
    requires
        blocks.len() == texts.len(),
        forall|i: int|
            0 <= i < blocks.len() ==> (#[trigger] blocks[i]).str_at("type"@) == Some("text"@)
                && blocks[i].str_at("text"@) == Some(texts[i]) && texts[i].len() > 0,
    ensures
        blocks_text(blocks) == text::joined_with(texts, seq!['\n']),
        blocks.len() > 0 ==> blocks_text(blocks).len() > 0,
    decreases blocks.len(),
{
    if blocks.len() > 0 {
        let n = blocks.len() - 1;
        let rest = blocks.drop_last();
        let some = texts.drop_last();
        assert(blocks.last() == blocks[n]);
        assert forall|i: int| 0 <= i < rest.len() implies (#[trigger] rest[i]).str_at("type"@)
            == Some("text"@) && rest[i].str_at("text"@) == Some(some[i]) && some[i].len() > 0 by {
            assert(rest[i] == blocks[i]);
        }
        law_text_blocks_are_joined(rest, some);
        if n > 0 {
            let before = blocks_text(rest);
            assert(before.push('\n') + texts[n] =~= before + seq!['\n'] + texts[n]);
        }
        assert(blocks_text(blocks) =~= text::joined_with(texts, seq!['\n']));
    }
}

/// A block that is not text adds nothing, wherever it stands.
pub proof fn law_other_blocks_add_nothing(
    a: Seq<JsonView>,
    other: JsonView,
    b: Seq<JsonView>,
)
    requires
        other.str_at("type"@) != Some("text"@) || other.str_at("text"@) is None,
    ensures
        blocks_text(a + seq![other] + b) == blocks_text(a + b),
    decreases b.len(),
{
    let with = a + seq![other] + b;
    let without = a + b;
    if b.len() == 0 {
        assert(with.drop_last() =~= a);
        assert(with.last() == other);
        assert(without =~= a);
    } else {
        law_other_blocks_add_nothing(a, other, b.drop_last());
        assert(with.drop_last() =~= a + seq![other] + b.drop_last());
        assert(with.last() == b.last());
        assert(without.drop_last() =~= a + b.drop_last());
        assert(without.last() == b.last());
    }
}

/// A result is read as the text of its blocks where that holds anything but
/// whitespace, and as itself otherwise.
pub proof fn law_results_are_readable(result: JsonView, raw: Seq<char>)
    ensures
        ({
            let t = blocks_text(result.array_at("content"@));
            let blank = forall|i: int| 0 <= i < t.len() ==> text::whitespace(#[trigger] t[i]);
            &&& blank ==> readable(result, raw) == raw
            &&& !blank ==> readable(result, raw) == t
        }),
        flattened(result) == readable(result, json::json_text(result)),
{
    text::law_blank(blocks_text(result.array_at("content"@)));
}

/// A tool is offered under the name that leads back to its server and to it, with
/// the server named in front of its description and with its own schema. One
/// without a description is described by its name, and a tool without a name is
/// not offered.
pub proof fn law_tools_are_offered_as_they_are(server: Seq<char>, tool: JsonView)
    ensures
        definition(server, tool) is Some <==> tool.str_at("name"@) is Some,
        definition(server, tool) matches Some(d) ==> {
            let raw = tool.str_at("name"@)->0;
            &&& d.str_at("name"@) == Some("mcp__"@ + server + "__"@ + raw)
            &&& d.str_at("description"@) matches Some(said) && {
                &&& ("["@ + server + "] "@).is_prefix_of(said)
                &&& tool.str_at("description"@) matches Some(own) ==> said == "["@ + server + "] "@
                    + own
                &&& tool.str_at("description"@) is None ==> said == "["@ + server + "] "@ + raw
            }
            &&& tool.get("inputSchema"@) is Some ==> d.get("input_schema"@) == tool.get(
                "inputSchema"@,
            )
            &&& tool.get("inputSchema"@) is None ==> d.get("input_schema"@) == Some(
                agent::any_object(),
            )
        },
{
    if let Some(d) = definition(server, tool) {
        reveal_strlit("name");
        assert("name"@.len() == 4);
        reveal_strlit("description");
        assert("description"@.len() == 11);
        reveal_strlit("input_schema");
        assert("input_schema"@.len() == 12);
        let m = d->Object_0;
        json::law_last_member_counts(m, 0);
        json::law_last_member_counts(m, 1);
        json::law_last_member_counts(m, 2);
        let head = "["@ + server + "] "@;
        let said = d.str_at("description"@)->0;
        assert(said.take(head.len() as int) =~= head);
    }
}

/// May the tool be offered: has it a name, and one that is not among those switched
/// off?
pub open spec fn may_be_offered(disabled: Seq<Seq<char>>, tool: JsonView) -> bool {
    tool.str_at("name"@) matches Some(name) && forall|k: int|
        0 <= k < disabled.len() ==> #[trigger] disabled[k] != name
}

/// Of a server's tools exactly those are offered that have a name and are not
/// switched off: each once, in the order of the server.
pub proof fn law_exactly_the_enabled_tools_are_offered(
    server: Seq<char>,
    disabled: Seq<Seq<char>>,
    tools: Seq<JsonView>,
)
    ensures
        ({
            let offered = tools.filter(|t: JsonView| may_be_offered(disabled, t));
            let defs = definitions(server, disabled, tools);
            &&& defs.len() == offered.len()
            &&& forall|i: int|
                0 <= i < defs.len() ==> Some(#[trigger] defs[i]) == definition(server, offered[i])
        }),
    decreases tools.len(),
{
    reveal(Seq::filter);
    if tools.len() > 0 {
        law_exactly_the_enabled_tools_are_offered(server, disabled, tools.drop_last());
        let t = tools.last();
        if let Some(name) = t.str_at("name"@) {
            if disabled.contains(name) {
                let k = disabled.index_of(name);
                assert(disabled[k] == name);
            }
        }
        assert(may_be_offered(disabled, t) == (definition(server, t) is Some && !switched_off(
            disabled,
            t,
        )));
    }
}

/// Every tool of an enabled server that could be reached is offered together with
/// those of the others, and nothing else is; a server that is not enabled or could
/// not be reached takes nothing away.
pub proof fn law_every_enabled_server_is_offered(
    servers: Seq<McpServer>,
    lists: Seq<Option<Seq<JsonView>>>,
    n: int,
    d: JsonView,
)
    requires
        0 <= n <= servers.len(),
        servers.len() == lists.len(),
    ensures
        all_definitions(servers, lists, n).contains(d) <==> exists|i: int|
            0 <= i < n && offered_by(#[trigger] servers[i], lists[i], d),
    decreases n,
{
    if n > 0 {
        law_every_enabled_server_is_offered(servers, lists, n - 1, d);
        let before = all_definitions(servers, lists, n - 1);
        let all = all_definitions(servers, lists, n);
        let more = match lists[n - 1] {
            Some(tools) => if servers[n - 1].enabled {
                definitions(
                    servers[n - 1].name@,
                    text::views(servers[n - 1].disabled_tools@),
                    tools,
                )
            } else {
                Seq::empty()
            },
            None => Seq::empty(),
        };
        assert(all == before + more);
        if all.contains(d) {
            let k = all.index_of(d);
            if k < before.len() {
                assert(before[k] == d);
            } else {
                assert(more[k - before.len()] == d);
                assert(offered_by(servers[n - 1], lists[n - 1], d));
            }
        }
        if before.contains(d) {
            let k = before.index_of(d);
            assert(all[k] == d);
        }
        if offered_by(servers[n - 1], lists[n - 1], d) {
            let k = more.index_of(d);
            assert(all[before.len() + k] == d);
        }
        if exists|i: int| 0 <= i < n && offered_by(#[trigger] servers[i], lists[i], d) {
            let i = choose|i: int| 0 <= i < n && offered_by(#[trigger] servers[i], lists[i], d);
            if i < n - 1 {
                assert(before.contains(d));
            }
        }
    }
}

/// Is this the definition of a tool of this server, which is enabled and answered
/// with these tools?
pub open spec fn offered_by(
    server: McpServer,
    list: Option<Seq<JsonView>>,
    d: JsonView,
) -> bool {
    &&& server.enabled
    &&& list matches Some(tools) && definitions(
        server.name@,
        text::views(server.disabled_tools@),
        tools,
    ).contains(d)
}

/// A call by the name under which a tool was offered reaches the server that offered
/// it, under the server's own name for the tool, as long as that server is enabled
/// and the first of its name. Any other name reaches no server.
pub proof fn law_calls_reach_their_server(
    servers: Seq<McpServer>,
    i: int,
    tool: Seq<char>,
    other: Seq<char>,
)
    requires
        0 <= i < servers.len(),
        !text::contained(servers[i].name@.push('_'), "__"@),
        !text::contained(other.push('_'), "__"@),
        forall|j: int|
            0 <= j < i ==> !text::eq_ignore_case((#[trigger] servers[j]).name@, servers[i].name@),
    ensures
        servers[i].enabled ==> routed(servers, full_name(servers[i].name@, tool)) == Ok::<
            (int, Seq<char>),
            Seq<char>,
        >((i, tool)),
        !servers[i].enabled ==> routed(servers, full_name(servers[i].name@, tool)) is Err,
        (forall|j: int|
            0 <= j < servers.len() ==> !text::eq_ignore_case((#[trigger] servers[j]).name@, other))
            ==> routed(servers, full_name(other, tool)) is Err,
        routed(servers, full_name(other, tool)) matches Ok((k, t)) ==> {
            &&& 0 <= k < servers.len()
            &&& servers[k].enabled
            &&& text::eq_ignore_case(servers[k].name@, other)
            &&& t == tool
        },
{
    law_names_round_trip(servers[i].name@, tool);
    law_names_round_trip(other, tool);
    let all = names(servers);
    assert forall|j: int| 0 <= j < i implies !text::eq_ignore_case(
        #[trigger] all[j],
        servers[i].name@,
    ) by {
        assert(all[j] == servers[j].name@);
    }
    roster::lemma_place_is(all, servers[i].name@, i);
    roster::lemma_place(all, other);
}

/// Telling a server which of its tools are switched off changes that and nothing
/// else: no other server, and nothing else of this one. Those tools are then the
/// ones that it does not offer.
pub proof fn law_switching_off_tools(
    all: Seq<McpServer>,
    name: Seq<char>,
    disabled: Vec<String>,
    i: int,
    tool: JsonView,
)
    requires
        roster::place(names(all), name) == Some(i),
    ensures
        ({
            let then = with_disabled(all, name, disabled);
            &&& then.len() == all.len()
            &&& then[i] == (McpServer { disabled_tools: disabled, ..all[i] })
            &&& forall|k: int| 0 <= k < all.len() && k != i ==> #[trigger] then[k] == all[k]
            &&& tool.str_at("name"@) matches Some(raw) ==> (text::views(disabled@).contains(raw)
                ==> definitions(
                then[i].name@,
                text::views(then[i].disabled_tools@),
                seq![tool],
            ).len() == 0)
        }),
{
    roster::lemma_place(names(all), name);
    reveal_with_fuel(definitions, 2);
    assert(seq![tool].last() == tool);
    assert(seq![tool].drop_last() =~= Seq::empty());
}

/// What is shown of a tool is what the server says of it: its name, its description
/// and its hint of whether it is destructive; and whether the user has left it on.
/// All tools that have a name are shown, in order.
pub proof fn law_tools_are_shown_as_they_are(
    disabled: Seq<Seq<char>>,
    tools: Seq<JsonView>,
)
    ensures
        ({
            let named = tools.filter(|t: JsonView| t.str_at("name"@) is Some);
            let all = all_shown(disabled, tools);
            &&& all.len() == named.len()
            &&& forall|i: int|
                0 <= i < all.len() ==> {
                    &&& Some((#[trigger] all[i]).name) == named[i].str_at("name"@)
                    &&& all[i].description == named[i].str_at("description"@)
                    &&& all[i].enabled == may_be_offered(disabled, named[i])
                    &&& all[i].destructive == destructive_hint(named[i])
                }
        }),
    decreases tools.len(),
{
    reveal(Seq::filter);
    if tools.len() > 0 {
        law_tools_are_shown_as_they_are(disabled, tools.drop_last());
        let t = tools.last();
        if let Some(name) = t.str_at("name"@) {
            if disabled.contains(name) {
                let k = disabled.index_of(name);
                assert(disabled[k] == name);
            }
            assert(may_be_offered(disabled, t) == !switched_off(disabled, t));
        }
    }
}

/// A tool counts as destructive, or as not, exactly where its annotations say so.
pub proof fn law_hints_are_the_servers(tool: JsonView, b: bool)
    ensures
        destructive_hint(tool) == Some(b) <==> (tool.get("annotations"@) matches Some(a) && a.get(
            "destructiveHint"@,
        ) == Some(JsonView::Bool(b))),
{
}

/// The servers to connect to are the enabled ones, each once and in order.
pub proof fn law_enabled_servers_are_connected(servers: Seq<McpServer>, n: int)
    requires
        0 <= n <= servers.len(),
    ensures
        forall|i: int|
            (#[trigger] enabled_among(servers, n).contains(i)) <==> (0 <= i < n && servers[i].enabled),
        forall|j: int, k: int|
            0 <= j < k < enabled_among(servers, n).len() ==> #[trigger] enabled_among(servers, n)[j]
                < #[trigger] enabled_among(servers, n)[k],
    decreases n,
{
    if n > 0 {
        law_enabled_servers_are_connected(servers, n - 1);
        let before = enabled_among(servers, n - 1);
        let all = enabled_among(servers, n);
        assert forall|i: int|
            (#[trigger] all.contains(i)) <==> (0 <= i < n && servers[i].enabled) by {
            assert(before.contains(i) <==> (0 <= i < n - 1 && servers[i].enabled));
            if before.contains(i) {
                assert(all[before.index_of(i)] == i);
            }
            if all.contains(i) {
                let k = all.index_of(i);
                if k < before.len() {
                    assert(before[k] == i);
                }
            }
            if servers[n - 1].enabled {
                assert(all[before.len() as int] == n - 1);
            }
        }
        assert forall|j: int, k: int| 0 <= j < k < all.len() implies #[trigger] all[j]
            < #[trigger] all[k] by {
            assert(before[j] == all[j]);
            assert(before.contains(before[j]));
            assert(0 <= before[j] < n - 1) by {
                let i = before[j];
                assert(before.contains(i));
            }
            if k < before.len() {
                assert(before[k] == all[k]);
            }
        }
    }
}

/// A server is tried out exactly where one of the name is configured, whatever the case of
/// its letters, and the first of them is enabled.
pub proof fn law_servers_are_tried_out(
    servers: Seq<McpServer>,
    name: Seq<char>,
    r: Result<usize, String>,
)
    requires
        targets(servers, name, r),
    ensures
        r matches Ok(k) ==> {
            &&& 0 <= k < servers.len()
            &&& servers[k as int].enabled
            &&& text::eq_ignore_case(servers[k as int].name@, name)
            &&& forall|j: int|
                0 <= j < k ==> !text::eq_ignore_case((#[trigger] servers[j]).name@, name)
        },
        r is Err ==> forall|j: int|
            0 <= j < servers.len() && text::eq_ignore_case((#[trigger] servers[j]).name@, name)
                ==> exists|k: int|
                0 <= k <= j && text::eq_ignore_case((#[trigger] servers[k]).name@, name)
                    && !servers[k].enabled,
{
    let all = names(servers);
    roster::lemma_place(all, name);
    assert(forall|j: int| 0 <= j < servers.len() ==> all[j] == (#[trigger] servers[j]).name@);
    if r is Err {
        assert forall|j: int|
            0 <= j < servers.len() && text::eq_ignore_case(
                (#[trigger] servers[j]).name@,
                name,
            ) implies exists|k: int|
            0 <= k <= j && text::eq_ignore_case((#[trigger] servers[k]).name@, name)
                && !servers[k].enabled by {
            assert(all[j] == servers[j].name@);
            let k = roster::place(all, name)->0;
            assert(text::eq_ignore_case(servers[k].name@, name) && !servers[k].enabled);
        }
    }
}

/// What is told when a server cannot be had names the server, and gives the reason.
pub proof fn law_missing_servers_are_named(
    servers: Seq<McpServer>,
    name: Seq<char>,
    tool: Seq<char>,
    why: Seq<char>,
)
    ensures
        text::contained(unknown_server(name), name),
        text::contained(start_failure(name, why), name),
        why.is_suffix_of(start_failure(name, why)),
        !text::contained(name.push('_'), "__"@) && roster::place(names(servers), name) is None ==> (
        routed(servers, full_name(name, tool)) matches Err(e) && text::contained(e, name)),
        parts_of(name) is None ==> (routed(servers, name) matches Err(e) && name.is_suffix_of(e)),
{
    text::law_found_within("no MCP server named '"@, name, "'"@);
    text::law_found_within("couldn't start '"@, name, "' (is it installed?): "@ + why);
    assert(start_failure(name, why) =~= "couldn't start '"@ + name + ("' (is it installed?): "@
        + why));
    text::law_found_within("MCP server '"@, name, "' is not configured"@);
    if !text::contained(name.push('_'), "__"@) {
        law_names_round_trip(name, tool);
    }
}

/// Deleting by a name goes through the list in order: it leaves of two lists joined what
/// it leaves of each, and of a single server that server, unless it has the name.
pub proof fn law_deleting_goes_in_order(
    a: Seq<McpServer>,
    b: Seq<McpServer>,
    s: McpServer,
    name: Seq<char>,
)
    ensures
        remaining(a + b, name) == remaining(a, name) + remaining(b, name),
        text::eq_ignore_case(s.name@, name) ==> remaining(seq![s], name).len() == 0,
        !text::eq_ignore_case(s.name@, name) ==> remaining(seq![s], name) == seq![s],
{
    let keep = |s: McpServer| !text::eq_ignore_case(s.name@, name);
    Seq::filter_distributes_over_add(a, b, keep);
    reveal(Seq::filter);
    assert(seq![s].drop_last() =~= Seq::empty());
    assert(Seq::<McpServer>::empty().filter(keep) =~= Seq::empty());
    assert(seq![s].last() == s);
    if !text::eq_ignore_case(s.name@, name) {
        assert(remaining(seq![s], name) =~= seq![s]);
    }
}

/// Saving a server adds one to the list exactly where none has its name, and then at the
/// end.
pub proof fn law_saving_adds_at_most_one(all: Seq<McpServer>, server: McpServer)
    ensures
        ({
            let fresh = forall|j: int|
                0 <= j < all.len() ==> !text::eq_ignore_case(
                    (#[trigger] all[j]).name@,
                    server.name@,
                );
            &&& fresh ==> saved(all, server) == all.push(server)
            &&& !fresh ==> saved(all, server).len() == all.len()
        }),
{
    let list = names(all);
    roster::lemma_place(list, server.name@);
    if let Some(i) = roster::place(list, server.name@) {
        assert(list[i] == all[i].name@);
    } else {
        assert forall|j: int| 0 <= j < all.len() implies !text::eq_ignore_case(
            (#[trigger] all[j]).name@,
            server.name@,
        ) by {
            assert(list[j] == all[j].name@);
        }
    }
}

/// Each text block stands on a line of its own behind those before it, an empty one too;
/// only at the very start there is no line to end.
pub proof fn law_blocks_add_a_line(blocks: Seq<JsonView>, block: JsonView, t: Seq<char>)
    requires
        block.str_at("type"@) == Some("text"@),
        block.str_at("text"@) == Some(t),
    ensures
        blocks_text(blocks).len() > 0 ==> blocks_text(blocks.push(block)) == blocks_text(blocks)
            + seq!['\n'] + t,
        blocks_text(blocks).len() == 0 ==> blocks_text(blocks.push(block)) == t,
        blocks_text(Seq::empty()).len() == 0,
{
    let more = blocks.push(block);
    assert(more.drop_last() =~= blocks);
    assert(more.last() == block);
    assert(blocks_text(blocks).push('\n') + t =~= blocks_text(blocks) + seq!['\n'] + t);
}

/// Is `r` what a call of a tool gives for the server's reply?
pub open spec fn call_gives(
    reply: Result<JsonView, Seq<char>>,
    r: Result<Seq<char>, Seq<char>>,
) -> bool {
    match reply {
        Ok(result) => r == Ok::<Seq<char>, Seq<char>>(output::capped(flattened(result))),
        Err(e) => r == Err::<Seq<char>, Seq<char>>(e),
    }
}

/// A call gives a text exactly where the server gave a result, and the server's error
/// otherwise. The text is that of the result's blocks wherever that is not blank and
/// within bounds; it never goes much beyond those.
pub proof fn law_calls_give_text(
    reply: Result<JsonView, Seq<char>>,
    r: Result<Seq<char>, Seq<char>>,
)
    requires
        call_gives(reply, r),
    ensures
        r is Ok <==> reply is Ok,
        r matches Err(e) ==> reply == Err::<JsonView, Seq<char>>(e),
        r matches Ok(t) ==> {
            let whole = blocks_text(reply->Ok_0.array_at("content"@));
            &&& vstd::utf8::encode_utf8(t).len() < 4064
            &&& (exists|i: int| 0 <= i < whole.len() && !text::whitespace(#[trigger] whole[i]))
                && vstd::utf8::encode_utf8(whole).len() <= 4000 ==> t == whole
        },
{
    if let Ok(result) = reply {
        law_results_are_readable(result, json::json_text(result));
        output::law_output_is_bounded(flattened(result));
    }
}

/// What is told of a message that could not be sent gives the whole reason, and tells
/// whether it was written.
pub proof fn law_send_failures_are_told(written: bool, why: Seq<char>)
    ensures
        why.is_suffix_of(send_failure(written, why)),
        send_failure(written, why) != send_failure(!written, why),
{
    reveal_strlit("flush failed: ");
    reveal_strlit("write failed: ");
    assert("flush failed: "@.len() == 14 && "write failed: "@.len() == 14);
    assert(("flush failed: "@ + why)[0] == 'f');
    assert(("write failed: "@ + why)[0] == 'w');
}

} // verus!
