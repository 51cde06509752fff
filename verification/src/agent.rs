//! The agent: how a request is put to a language model, how the tools it calls
//! are run, and how its answer becomes a yes or a no.

use crate::config::AgentConfig;
use crate::json;
use crate::json::{Json, JsonView};
use crate::text;
use crate::workflows::Workflow;
use vstd::prelude::*;
use vstd::string::*;

verus! {

/// What the model is told about itself.
pub const SYSTEM: &'static str = "You are Bit, a desktop companion modeled on the Bit from the film TRON. Act on the user's Mac using the tools available to you (run their saved workflows, open apps and URLs, toggle Focus/Do Not Disturb, and — if enabled — other actions). When the user asks for something, DO it by calling the appropriate tool(s) before answering. You manage named multi-step workflows: when the request matches a saved workflow (by name or trigger phrase, e.g. \"let's work on Heatsink\"), call run_workflow. When asked to set up or change a routine, call save_workflow (note: drafts save disabled until the user enables them). The request comes from speech-to-text and may be garbled. If you cannot confidently tell what they want, do NOT guess — just answer \"no\". Honesty is critical: only answer \"yes\" if you ACTUALLY completed the action and the tool results confirm success. If a tool errors or you couldn't do it, answer \"no\". Never claim unverified success. You can ONLY speak with the word \"yes\" or \"no\". For personality you MAY repeat it up to three times for emphasis (\"yes yes yes\", \"no no no\") when the moment fits, but usually once is right. Your final message must be only the word yes or no, repeated 1 to 3 times, lowercase, nothing else.";

/// How many requests one question may take.
pub const MAX_TURNS: usize = 8;

// ---- providers ----

/// Does the provider speak OpenAI's API?
pub open spec fn speaks_openai(provider: Seq<char>) -> bool {
    provider == "openai"@ || provider == "openrouter"@
}

pub fn is_openai(provider: &str) -> (r: bool)
    ensures
        r == speaks_openai(provider@),
{
    text::same(provider, "openai") || text::same(provider, "openrouter")
}

/// Where a provider is found when the settings do not say.
pub open spec fn default_url(provider: Seq<char>) -> Seq<char> {
    if provider == "anthropic"@ {
        "https://api.anthropic.com"@
    } else if provider == "openai"@ {
        "https://api.openai.com/v1"@
    } else if provider == "openrouter"@ {
        "https://openrouter.ai/api/v1"@
    } else {
        "https://api.z.ai/api/anthropic"@
    }
}

/// Where the provider is found: the address in the settings, without whitespace
/// around it and slashes behind it, or else the provider's own.
pub open spec fn base_of(cfg: AgentConfig) -> Seq<char> {
    let b = text::trim_end_char(text::trimmed(cfg.base_url@), '/');
    if b.len() > 0 {
        b
    } else {
        default_url(cfg.provider@)
    }
}

pub fn base_url(cfg: &AgentConfig) -> (r: String)
    ensures
        r@ == base_of(*cfg),
{
    let b = text::trim_end_matches(text::trim(cfg.base_url.as_str()).as_str(), '/');
    if !b.as_str().is_empty() {
        return b;
    }
    let p = cfg.provider.as_str();
    if text::same(p, "anthropic") {
        "https://api.anthropic.com".to_owned()
    } else if text::same(p, "openai") {
        "https://api.openai.com/v1".to_owned()
    } else if text::same(p, "openrouter") {
        "https://openrouter.ai/api/v1".to_owned()
    } else {
        "https://api.z.ai/api/anthropic".to_owned()
    }
}

/// The address that requests are sent to.
pub open spec fn endpoint_of(cfg: AgentConfig) -> Seq<char> {
    base_of(cfg) + (if speaks_openai(cfg.provider@) {
        "/chat/completions"@
    } else {
        "/v1/messages"@
    })
}

pub fn endpoint(cfg: &AgentConfig) -> (r: String)
    ensures
        r@ == endpoint_of(*cfg),
{
    let base = base_url(cfg);
    if is_openai(cfg.provider.as_str()) {
        text::joined(base.as_str(), "/chat/completions")
    } else {
        text::joined(base.as_str(), "/v1/messages")
    }
}

/// The views of a list of headers.
pub open spec fn header_views(h: Seq<(String, String)>) -> Seq<(Seq<char>, Seq<char>)> {
    h.map_values(|p: (String, String)| (p.0@, p.1@))
}

fn header(name: &str, value: &str) -> (r: (String, String))
    ensures
        r.0@ == name@,
        r.1@ == value@,
{
    (name.to_owned(), value.to_owned())
}

/// The headers of a request in Anthropic's form.
pub open spec fn anthropic_header_views(cfg: AgentConfig) -> Seq<(Seq<char>, Seq<char>)> {
    seq![
        ("anthropic-version"@, "2023-06-01"@),
        if cfg.provider@ == "anthropic"@ {
            ("x-api-key"@, cfg.api_key@)
        } else {
            ("authorization"@, "Bearer "@ + cfg.api_key@)
        },
    ]
}

/// The headers of a request in OpenAI's form.
pub open spec fn openai_header_views(cfg: AgentConfig) -> Seq<(Seq<char>, Seq<char>)> {
    if cfg.provider@ == "openrouter"@ {
        seq![
            ("authorization"@, "Bearer "@ + cfg.api_key@),
            ("http-referer"@, "https://github.com/kksimons/bit"@),
            ("x-title"@, "Bit"@),
        ]
    } else {
        seq![("authorization"@, "Bearer "@ + cfg.api_key@)]
    }
}

pub fn anthropic_headers(cfg: &AgentConfig) -> (r: Vec<(String, String)>)
    ensures
        header_views(r@) == anthropic_header_views(*cfg),
{
    let mut h: Vec<(String, String)> = Vec::new();
    h.push(header("anthropic-version", "2023-06-01"));
    if text::same(cfg.provider.as_str(), "anthropic") {
        h.push(header("x-api-key", cfg.api_key.as_str()));
    } else {
        let bearer = text::joined("Bearer ", cfg.api_key.as_str());
        h.push(header("authorization", bearer.as_str()));
    }
    h
}

pub fn openai_headers(cfg: &AgentConfig) -> (r: Vec<(String, String)>)
    ensures
        header_views(r@) == openai_header_views(*cfg),
{
    let mut h: Vec<(String, String)> = Vec::new();
    let bearer = text::joined("Bearer ", cfg.api_key.as_str());
    h.push(header("authorization", bearer.as_str()));
    if text::same(cfg.provider.as_str(), "openrouter") {
        h.push(header("http-referer", "https://github.com/kksimons/bit"));
        h.push(header("x-title", "Bit"));
    }
    h
}

// ---- the workflows that the model is told of ----

/// The line that tells of one workflow.
pub open spec fn workflow_line(w: Workflow) -> Seq<char> {
    "\n- \""@ + w.name@ + "\""@ + (if w.trigger_phrases@.len() == 0 {
        Seq::empty()
    } else {
        " — triggers: "@ + text::joined_with(text::views(w.trigger_phrases@), ", "@)
    })
}

/// The lines that tell of the enabled workflows.
pub open spec fn workflow_lines(all: Seq<Workflow>) -> Seq<char>
    decreases all.len(),
{
    if all.len() == 0 {
        Seq::empty()
    } else if all.last().enabled {
        workflow_lines(all.drop_last()) + workflow_line(all.last())
    } else {
        workflow_lines(all.drop_last())
    }
}

/// What the model is told about the saved workflows.
pub open spec fn told_of(all: Seq<Workflow>) -> Seq<char> {
    if exists|i: int| 0 <= i < all.len() && (#[trigger] all[i]).enabled {
        "\n\nSaved workflows you can run (call run_workflow with the exact name):"@
            + workflow_lines(all)
    } else {
        "\n\nThe user has no enabled workflows yet."@
    }
}

fn line_for(w: &Workflow) -> (r: String)
    ensures
        r@ == workflow_line(*w),
{
    let mut s = "\n- \"".to_owned();
    s.append(w.name.as_str());
    s.append("\"");
    let mut triggers = String::new();
    if w.trigger_phrases.len() > 0 {
        triggers.append(" — triggers: ");
        let phrases = text::join(&w.trigger_phrases, ", ");
        triggers.append(phrases.as_str());
        assert(triggers@ =~= " — triggers: "@ + phrases@);
    }
    s.append(triggers.as_str());
    s
}

pub fn workflows_context(all: &Vec<Workflow>) -> (r: String)
    ensures
        r@ == told_of(all@),
{
    let mut lines = String::new();
    let mut any = false;
    for i in 0..all.len()
        invariant
            lines@ == workflow_lines(all@.take(i as int)),
            any == exists|k: int| 0 <= k < i && (#[trigger] all@[k]).enabled,
    {
        assert(all@.take(i + 1).drop_last() =~= all@.take(i as int));
        assert(all@.take(i + 1).last() == all@[i as int]);
        if all[i].enabled {
            let line = line_for(&all[i]);
            lines.append(line.as_str());
            any = true;
        }
    }
    assert(all@.take(all@.len() as int) =~= all@);
    if any {
        text::joined(
            "\n\nSaved workflows you can run (call run_workflow with the exact name):",
            lines.as_str(),
        )
    } else {
        "\n\nThe user has no enabled workflows yet.".to_owned()
    }
}

// ---- the verdict ----

pub open spec fn is_yes(w: Seq<char>) -> bool {
    w == "yes"@ || w == "yeah"@ || w == "yep"@ || w == "yup"@
}

pub open spec fn is_no(w: Seq<char>) -> bool {
    w == "no"@ || w == "nope"@ || w == "nah"@
}

/// How many words are a yes.
pub open spec fn yes_count(words: Seq<Seq<char>>) -> nat
    decreases words.len(),
{
    if words.len() == 0 {
        0
    } else {
        yes_count(words.drop_last()) + (if is_yes(words.last()) {
            1nat
        } else {
            0
        })
    }
}

/// How many words are a no.
pub open spec fn no_count(words: Seq<Seq<char>>) -> nat
    decreases words.len(),
{
    if words.len() == 0 {
        0
    } else {
        no_count(words.drop_last()) + (if is_no(words.last()) {
            1nat
        } else {
            0
        })
    }
}

/// A count of words, as how often to say one: once to three times.
pub open spec fn clamped(n: nat) -> u8 {
    if n < 1 {
        1
    } else if n > 3 {
        3
    } else {
        n as u8
    }
}

/// Yes or no, and how often it is said: whichever there is more of, yes on a tie,
/// up to three times; a single no where there is neither.
pub open spec fn verdict_on(yes: nat, no: nat) -> (bool, u8) {
    if yes == 0 && no == 0 {
        (false, 1)
    } else if yes >= no {
        (true, clamped(yes))
    } else {
        (false, clamped(no))
    }
}

/// The verdict of a text that is in lower case already.
pub open spec fn verdict_of(lower: Seq<char>) -> (bool, u8) {
    let words = text::pieces(lower, text::Cut::NonAlphabetic);
    verdict_on(yes_count(words), no_count(words))
}

/// The verdict of a text.
pub open spec fn verdict(s: Seq<char>) -> (bool, u8) {
    verdict_of(text::lowercase(s))
}

proof fn lemma_yes_is_not_no(w: Seq<char>)
    requires
        is_yes(w),
    ensures
        !is_no(w),
{
    reveal_strlit("yes");
    reveal_strlit("yeah");
    reveal_strlit("yep");
    reveal_strlit("yup");
    reveal_strlit("no");
    reveal_strlit("nope");
    reveal_strlit("nah");
    assert(w[0] == 'y');
}

/// The verdict of a text that is in lower case already.
pub fn tally(lower: &str) -> (r: (bool, u8))
    ensures
        r == verdict_of(lower@),
        1 <= r.1 <= 3,
{
    let words = text::split(lower, &text::Cut::NonAlphabetic);
    let mut yes: usize = 0;
    let mut no: usize = 0;
    for i in 0..words.len()
        invariant
            yes <= i,
            no <= i,
            yes == yes_count(text::views(words@).take(i as int)),
            no == no_count(text::views(words@).take(i as int)),
    {
        let w = words[i].as_str();
        proof {
            let all = text::views(words@);
            assert(all.take(i + 1).drop_last() =~= all.take(i as int));
            assert(all.take(i + 1).last() == w@);
            if is_yes(w@) {
                lemma_yes_is_not_no(w@);
            }
        }
        if text::same(w, "yes") || text::same(w, "yeah") || text::same(w, "yep") || text::same(
            w,
            "yup",
        ) {
            yes = yes + 1;
        } else if text::same(w, "no") || text::same(w, "nope") || text::same(w, "nah") {
            no = no + 1;
        }
    }
    assert(text::views(words@).take(words@.len() as int) =~= text::views(words@));
    if yes == 0 && no == 0 {
        return (false, 1);
    }
    let says_yes = yes >= no;
    let count: usize = if says_yes {
        yes
    } else {
        no
    };
    let times: u8 = if count < 1 {
        1
    } else if count > 3 {
        3
    } else {
        count as u8
    };
    (says_yes, times)
}

/// Reduce free text to a yes or a no: whichever is said more often wins, and it is
/// said at most three times.
pub fn reduce_verdict(s: &str) -> (r: (bool, u8))
    ensures
        r == verdict(s@),
        1 <= r.1 <= 3,
{
    let lower = text::to_lowercase(s);
    tally(lower.as_str())
}

// ---- tool definitions in OpenAI's form ----

/// The schema of a tool that takes nothing in particular.
pub open spec fn any_object() -> JsonView {
    JsonView::Object(
        seq![("type"@, JsonView::Str("object"@)), ("properties"@, JsonView::Object(Seq::empty()))],
    )
}

pub fn any_object_schema() -> (r: Json)
    ensures
        r@ == any_object(),
{
    let r = Json::object().with("type", Json::text("object")).with("properties", Json::object());
    assert(r@->Object_0 =~= any_object()->Object_0);
    r
}

/// A value, or `default` where there is none.
pub open spec fn or_else(v: Option<JsonView>, default: JsonView) -> JsonView {
    match v {
        Some(x) => x,
        None => default,
    }
}

/// A tool definition in OpenAI's form.
pub open spec fn openai_tool(t: JsonView) -> JsonView {
    JsonView::Object(
        seq![
            ("type"@, JsonView::Str("function"@)),
            (
                "function"@,
                JsonView::Object(
                    seq![
                        ("name"@, or_else(t.get("name"@), JsonView::Null)),
                        ("description"@, or_else(t.get("description"@), JsonView::Null)),
                        ("parameters"@, or_else(t.get("input_schema"@), any_object())),
                    ],
                ),
            ),
        ],
    )
}

fn member_or_null(t: &Json, key: &str) -> (r: Json)
    ensures
        r@ == or_else(t@.get(key@), JsonView::Null),
{
    match t.get(key) {
        Some(v) => v.clone(),
        None => Json::Null,
    }
}

fn to_openai_tool(t: &Json) -> (r: Json)
    ensures
        r@ == openai_tool(t@),
{
    let parameters = match t.get("input_schema") {
        Some(v) => v.clone(),
        None => any_object_schema(),
    };
    let ghost shown = parameters@;
    let function = Json::object().with("name", member_or_null(t, "name")).with(
        "description",
        member_or_null(t, "description"),
    ).with("parameters", parameters);
    assert(function@->Object_0 =~= openai_tool(t@)->Object_0[1].1->Object_0);
    let r = Json::object().with("type", Json::text("function")).with("function", function);
    assert(r@->Object_0 =~= openai_tool(t@)->Object_0);
    r
}

/// Convert Anthropic-style tool definitions to OpenAI's form.
pub fn to_openai_tools(anthropic: &Vec<Json>) -> (r: Vec<Json>)
    ensures
        json::json_views(r@) == json::json_views(anthropic@).map_values(
            |t: JsonView| openai_tool(t),
        ),
{
    let mut out: Vec<Json> = Vec::new();
    for i in 0..anthropic.len()
        invariant
            out@.len() == i,
            forall|k: int| 0 <= k < i ==> (#[trigger] out@[k])@ == openai_tool(anthropic@[k]@),
    {
        out.push(to_openai_tool(&anthropic[i]));
    }
    assert(json::json_views(out@) =~= json::json_views(anthropic@).map_values(
        |t: JsonView| openai_tool(t),
    ));
    out
}

// ---- the conversation ----

/// The two forms in which requests are put.
#[derive(Debug, Clone, Copy, PartialEq, Eq, Structural)]
pub enum Api {
    /// Anthropic's Messages API (Z.AI, Anthropic).
    Anthropic,
    /// OpenAI's Chat Completions API (OpenAI, OpenRouter).
    OpenAi,
}

/// A tool that the model wants run.
#[derive(Debug, PartialEq)]
pub struct ToolCall {
    pub id: String,
    pub name: String,
    pub input: Json,
}

pub struct CallView {
    pub id: Seq<char>,
    pub name: Seq<char>,
    pub input: JsonView,
}

impl View for ToolCall {
    type V = CallView;

    open spec fn view(&self) -> CallView {
        CallView { id: self.id@, name: self.name@, input: self.input@ }
    }
}

pub open spec fn call_views(calls: Seq<ToolCall>) -> Seq<CallView> {
    calls.map_values(|c: ToolCall| c@)
}

pub open spec fn call_ids(calls: Seq<CallView>) -> Seq<Seq<char>> {
    calls.map_values(|c: CallView| c.id)
}

/// A question on its way to an answer.
#[derive(Debug, PartialEq)]
pub struct Chat {
    pub api: Api,
    pub model: String,
    pub system: String,
    pub tools: Vec<Json>,
    pub messages: Vec<Json>,
    /// How many requests were sent.
    pub turns: usize,
    /// The calls whose results are awaited.
    pub pending: Vec<String>,
}

pub struct ChatView {
    pub api: Api,
    pub model: Seq<char>,
    pub system: Seq<char>,
    pub tools: Seq<JsonView>,
    pub messages: Seq<JsonView>,
    pub turns: nat,
    pub pending: Seq<Seq<char>>,
}

impl View for Chat {
    type V = ChatView;

    open spec fn view(&self) -> ChatView {
        ChatView {
            api: self.api,
            model: self.model@,
            system: self.system@,
            tools: json::json_views(self.tools@),
            messages: json::json_views(self.messages@),
            turns: self.turns as nat,
            pending: text::views(self.pending@),
        }
    }
}

/// What a question needs next.
#[derive(Debug, PartialEq)]
pub enum ChatStep {
    /// Send this request body.
    Post(String),
    /// Run these tools, in order.
    Run(Vec<ToolCall>),
    /// The question is answered: yes or no and how often, or why not.
    Done(Result<(bool, u8), String>),
}

pub enum StepView {
    Post(Seq<char>),
    Run(Seq<CallView>),
    Done(Result<(bool, u8), Seq<char>>),
}

impl View for ChatStep {
    type V = StepView;

    open spec fn view(&self) -> StepView {
        match self {
            ChatStep::Post(body) => StepView::Post(body@),
            ChatStep::Run(calls) => StepView::Run(call_views(calls@)),
            ChatStep::Done(Ok(v)) => StepView::Done(Ok(*v)),
            ChatStep::Done(Err(e)) => StepView::Done(Err(e@)),
        }
    }
}

/// A message with a role and a text.
pub open spec fn message(role: Seq<char>, content: JsonView) -> JsonView {
    JsonView::Object(seq![("role"@, JsonView::Str(role)), ("content"@, content)])
}

fn new_message(role: &str, content: Json) -> (r: Json)
    ensures
        r@ == message(role@, content@),
{
    let ghost shown = content@;
    let r = Json::object().with("role", Json::text(role)).with("content", content);
    assert(r@->Object_0 =~= message(role@, shown)->Object_0);
    r
}

/// A question that was just asked.
pub open spec fn asked(
    cfg: AgentConfig,
    workflows: Seq<Workflow>,
    tools: Seq<JsonView>,
    transcript: Seq<char>,
) -> ChatView {
    let system = SYSTEM@ + told_of(workflows);
    let user = message("user"@, JsonView::Str(transcript));
    if speaks_openai(cfg.provider@) {
        ChatView {
            api: Api::OpenAi,
            model: cfg.model@,
            system,
            tools: tools.map_values(|t: JsonView| openai_tool(t)),
            messages: seq![message("system"@, JsonView::Str(system)), user],
            turns: 0,
            pending: Seq::empty(),
        }
    } else {
        ChatView {
            api: Api::Anthropic,
            model: cfg.model@,
            system,
            tools,
            messages: seq![user],
            turns: 0,
            pending: Seq::empty(),
        }
    }
}

/// Take up a question, as it was heard, with the tools that may be used.
pub fn ask(
    cfg: &AgentConfig,
    workflows: &Vec<Workflow>,
    tools: &Vec<Json>,
    transcript: &str,
) -> (r: Chat)
    ensures
        r@ == asked(*cfg, workflows@, json::json_views(tools@), transcript@),
{
    let system = text::joined(SYSTEM, workflows_context(workflows).as_str());
    let mut messages: Vec<Json> = Vec::new();
    let openai = is_openai(cfg.provider.as_str());
    if openai {
        messages.push(new_message("system", Json::text(system.as_str())));
    }
    messages.push(new_message("user", Json::text(transcript)));
    let r = Chat {
        api: if openai {
            Api::OpenAi
        } else {
            Api::Anthropic
        },
        model: cfg.model.clone(),
        system,
        tools: if openai {
            to_openai_tools(tools)
        } else {
            json::clone_all(tools)
        },
        messages,
        turns: 0,
        pending: Vec::new(),
    };
    proof {
        let want = asked(*cfg, workflows@, json::json_views(tools@), transcript@);
        assert(r@.messages =~= want.messages);
        assert(r@.pending =~= want.pending);
    }
    r
}

/// The body of the next request.
pub open spec fn body(c: ChatView) -> JsonView {
    match c.api {
        Api::Anthropic => JsonView::Object(
            seq![
                ("model"@, JsonView::Str(c.model)),
                ("max_tokens"@, JsonView::Number(text::decimal(1024))),
                ("system"@, JsonView::Str(c.system)),
                ("tools"@, JsonView::Array(c.tools)),
                ("messages"@, JsonView::Array(c.messages)),
            ],
        ),
        Api::OpenAi => JsonView::Object(
            seq![
                ("model"@, JsonView::Str(c.model)),
                ("messages"@, JsonView::Array(c.messages)),
                ("tools"@, JsonView::Array(c.tools)),
                ("tool_choice"@, JsonView::Str("auto"@)),
            ],
        ),
    }
}

/// The question when its next request is due: sent, or given up after
/// `MAX_TURNS` of them.
pub open spec fn after_next(c: ChatView) -> (ChatView, StepView) {
    if c.turns >= MAX_TURNS {
        (c, StepView::Done(Err("tool loop exceeded max turns"@)))
    } else {
        (ChatView { turns: c.turns + 1, ..c }, StepView::Post(json::json_text(body(c))))
    }
}

/// The texts of the text blocks, one behind the other.
pub open spec fn block_text(content: Seq<JsonView>) -> Seq<char>
    decreases content.len(),
{
    if content.len() == 0 {
        Seq::empty()
    } else {
        block_text(content.drop_last()) + (match content.last().str_at("text"@) {
            Some(t) => if content.last().str_at("type"@) == Some("text"@) {
                t
            } else {
                Seq::empty()
            },
            None => Seq::empty(),
        })
    }
}

/// A string, or the empty one where there is none.
pub open spec fn or_empty(s: Option<Seq<char>>) -> Seq<char> {
    match s {
        Some(x) => x,
        None => Seq::empty(),
    }
}

/// The call that a block of Anthropic's asks for.
pub open spec fn block_call(b: JsonView) -> CallView {
    CallView {
        id: or_empty(b.str_at("id"@)),
        name: or_empty(b.str_at("name"@)),
        input: or_else(b.get("input"@), JsonView::Object(Seq::empty())),
    }
}

/// The calls that a reply of Anthropic's asks for.
pub open spec fn block_calls(content: Seq<JsonView>) -> Seq<CallView>
    decreases content.len(),
{
    if content.len() == 0 {
        Seq::empty()
    } else if content.last().str_at("type"@) == Some("tool_use"@) {
        block_calls(content.drop_last()).push(block_call(content.last()))
    } else {
        block_calls(content.drop_last())
    }
}

/// What a reply of Anthropic's leads to.
pub open spec fn after_anthropic(c: ChatView, v: JsonView) -> (ChatView, StepView) {
    let content = v.array_at("content"@);
    if v.str_at("stop_reason"@) == Some("tool_use"@) {
        let calls = block_calls(content);
        (
            ChatView {
                messages: c.messages.push(message("assistant"@, JsonView::Array(content))),
                pending: call_ids(calls),
                ..c
            },
            StepView::Run(calls),
        )
    } else {
        (c, StepView::Done(Ok(verdict(block_text(content)))))
    }
}

/// The arguments of a call of OpenAI's, as text.
pub open spec fn arguments_of(call: JsonView) -> Seq<char> {
    match call.get("function"@) {
        Some(f) => match f.str_at("arguments"@) {
            Some(a) => a,
            None => "{}"@,
        },
        None => "{}"@,
    }
}

/// A call of OpenAI's, when reading its arguments gave `parsed`.
pub open spec fn function_call(
    call: JsonView,
    parsed: Result<JsonView, Seq<char>>,
) -> CallView {
    CallView {
        id: or_empty(call.str_at("id"@)),
        name: match call.get("function"@) {
            Some(f) => or_empty(f.str_at("name"@)),
            None => Seq::empty(),
        },
        input: match parsed {
            Ok(v) => v,
            Err(_) => JsonView::Object(Seq::empty()),
        },
    }
}

/// The calls that a reply of OpenAI's asks for.
pub open spec fn function_calls(calls: Seq<JsonView>) -> Seq<CallView> {
    calls.map_values(|c: JsonView| function_call(c, json::json_parse(arguments_of(c))))
}

/// The message in a reply of OpenAI's.
pub open spec fn first_choice(v: JsonView) -> Option<JsonView> {
    match v.get("choices"@) {
        Some(choices) => match choices.at(0) {
            Some(choice) => choice.get("message"@),
            None => None,
        },
        None => None,
    }
}

/// What a reply of OpenAI's leads to.
pub open spec fn after_openai(c: ChatView, v: JsonView) -> (ChatView, StepView) {
    match first_choice(v) {
        None => (c, StepView::Done(Err("no choices in response"@))),
        Some(msg) => {
            let calls = function_calls(msg.array_at("tool_calls"@));
            if calls.len() > 0 {
                (
                    ChatView { messages: c.messages.push(msg), pending: call_ids(calls), ..c },
                    StepView::Run(calls),
                )
            } else {
                (c, StepView::Done(Ok(verdict(or_empty(msg.str_at("content"@))))))
            }
        },
    }
}

/// What a reply leads to; an error ends the question.
pub open spec fn after_reply(c: ChatView, reply: Result<JsonView, Seq<char>>) -> (
    ChatView,
    StepView,
) {
    match reply {
        Err(e) => (c, StepView::Done(Err(e))),
        Ok(v) => match c.api {
            Api::Anthropic => after_anthropic(c, v),
            Api::OpenAi => after_openai(c, v),
        },
    }
}

/// The result of one call in Anthropic's form.
pub open spec fn tool_result(id: Seq<char>, outcome: Result<Seq<char>, Seq<char>>) -> JsonView {
    JsonView::Object(
        seq![
            ("type"@, JsonView::Str("tool_result"@)),
            ("tool_use_id"@, JsonView::Str(id)),
            (
                "content"@,
                JsonView::Str(
                    match outcome {
                        Ok(t) => t,
                        Err(e) => e,
                    },
                ),
            ),
            ("is_error"@, JsonView::Bool(outcome is Err)),
        ],
    )
}

/// The result of one call in OpenAI's form.
pub open spec fn tool_message(id: Seq<char>, outcome: Result<Seq<char>, Seq<char>>) -> JsonView {
    JsonView::Object(
        seq![
            ("role"@, JsonView::Str("tool"@)),
            ("tool_call_id"@, JsonView::Str(id)),
            (
                "content"@,
                JsonView::Str(
                    match outcome {
                        Ok(t) => t,
                        Err(e) => e,
                    },
                ),
            ),
        ],
    )
}

/// The question with the results of the calls, in the order in which they were
/// asked for.
pub open spec fn after_results(
    c: ChatView,
    outcomes: Seq<Result<Seq<char>, Seq<char>>>,
) -> ChatView {
    let messages = match c.api {
        Api::Anthropic => c.messages.push(
            message(
                "user"@,
                JsonView::Array(
                    Seq::new(c.pending.len(), |i: int| tool_result(c.pending[i], outcomes[i])),
                ),
            ),
        ),
        Api::OpenAi => c.messages + Seq::new(
            c.pending.len(),
            |i: int| tool_message(c.pending[i], outcomes[i]),
        ),
    };
    ChatView { messages, pending: Seq::empty(), ..c }
}

/// The views of what a number of tools ended with.
pub open spec fn outcome_views(s: Seq<Result<String, String>>) -> Seq<
    Result<Seq<char>, Seq<char>>,
> {
    s.map_values(|r: Result<String, String>| crate::workflows::result_view(r))
}

fn text_in(content: &Vec<Json>) -> (r: String)
    ensures
        r@ == block_text(json::json_views(content@)),
{
    let ghost all = json::json_views(content@);
    let mut out = String::new();
    for i in 0..content.len()
        invariant
            all == json::json_views(content@),
            out@ == block_text(all.take(i as int)),
    {
        proof {
            assert(all.take(i + 1).drop_last() =~= all.take(i as int));
            assert(all.take(i + 1).last() == content@[i as int]@);
        }
        let ghost before = out@;
        match content[i].str_at("type") {
            Some(kind) => if text::same(kind, "text") {
                match content[i].str_at("text") {
                    Some(t) => {
                        out.append(t);
                    },
                    None => {},
                }
            },
            None => {},
        }
        assert(out@ =~= block_text(all.take(i + 1)));
    }
    assert(all.take(all.len() as int) =~= all);
    out
}

fn call_in_block(b: &Json) -> (r: ToolCall)
    ensures
        r@ == block_call(b@),
{
    proof {
        reveal_strlit("");
        assert(""@ =~= Seq::<char>::empty());
    }
    ToolCall {
        id: b.str_or("id", "").to_owned(),
        name: b.str_or("name", "").to_owned(),
        input: match b.get("input") {
            Some(v) => v.clone(),
            None => Json::object(),
        },
    }
}

fn calls_in_blocks(content: &Vec<Json>) -> (r: Vec<ToolCall>)
    ensures
        call_views(r@) == block_calls(json::json_views(content@)),
{
    let ghost all = json::json_views(content@);
    let mut out: Vec<ToolCall> = Vec::new();
    assert(call_views(out@) =~= block_calls(all.take(0)));
    for i in 0..content.len()
        invariant
            all == json::json_views(content@),
            call_views(out@) == block_calls(all.take(i as int)),
    {
        proof {
            assert(all.take(i + 1).drop_last() =~= all.take(i as int));
            assert(all.take(i + 1).last() == content@[i as int]@);
        }
        let ghost before = call_views(out@);
        match content[i].str_at("type") {
            Some(kind) => if text::same(kind, "tool_use") {
                out.push(call_in_block(&content[i]));
                assert(call_views(out@) =~= before.push(block_call(content@[i as int]@)));
            },
            None => {},
        }
    }
    assert(all.take(all.len() as int) =~= all);
    out
}

fn arguments_text(call: &Json) -> (r: String)
    ensures
        r@ == arguments_of(call@),
{
    match call.get("function") {
        Some(f) => f.str_or("arguments", "{}").to_owned(),
        None => "{}".to_owned(),
    }
}

/// A call of OpenAI's, when reading its arguments gave `parsed`: arguments that
/// cannot be read count as none.
pub fn openai_call(call: &Json, parsed: Result<Json, String>) -> (r: ToolCall)
    ensures
        r@ == function_call(call@, json::read_view(parsed)),
{
    proof {
        reveal_strlit("");
        assert(""@ =~= Seq::<char>::empty());
    }
    ToolCall {
        id: call.str_or("id", "").to_owned(),
        name: match call.get("function") {
            Some(f) => f.str_or("name", "").to_owned(),
            None => String::new(),
        },
        input: match parsed {
            Ok(v) => v,
            Err(_) => Json::object(),
        },
    }
}

fn calls_in_message(calls: &Vec<Json>) -> (r: Vec<ToolCall>)
    ensures
        call_views(r@) == function_calls(json::json_views(calls@)),
{
    let ghost all = json::json_views(calls@);
    let mut out: Vec<ToolCall> = Vec::new();
    for i in 0..calls.len()
        invariant
            all == json::json_views(calls@),
            out@.len() == i,
            forall|k: int| 0 <= k < i ==> (#[trigger] out@[k])@ == function_calls(all)[k],
    {
        let args = arguments_text(&calls[i]);
        let parsed = json::parse(args.as_str());
        out.push(openai_call(&calls[i], parsed));
    }
    assert(call_views(out@) =~= function_calls(all));
    out
}

fn ids_of(calls: &Vec<ToolCall>) -> (r: Vec<String>)
    ensures
        text::views(r@) == call_ids(call_views(calls@)),
{
    let mut out: Vec<String> = Vec::new();
    for i in 0..calls.len()
        invariant
            out@.len() == i,
            forall|k: int| 0 <= k < i ==> (#[trigger] out@[k])@ == calls@[k].id@,
    {
        out.push(calls[i].id.clone());
    }
    assert(text::views(out@) =~= call_ids(call_views(calls@)));
    out
}

fn first_message(v: &Json) -> (r: Option<&Json>)
    ensures
        match r {
            Some(m) => first_choice(v@) == Some(m@),
            None => first_choice(v@) is None,
        },
{
    match v.get("choices") {
        Some(choices) => match choices.as_array() {
            Some(items) => if items.len() > 0 {
                items[0].get("message")
            } else {
                None
            },
            None => None,
        },
        None => None,
    }
}

fn new_tool_result(id: &str, outcome: &Result<String, String>) -> (r: Json)
    ensures
        r@ == tool_result(id@, crate::workflows::result_view(*outcome)),
{
    let (content, is_error) = match outcome {
        Ok(t) => (t.as_str(), false),
        Err(e) => (e.as_str(), true),
    };
    let r = Json::object().with("type", Json::text("tool_result")).with(
        "tool_use_id",
        Json::text(id),
    ).with("content", Json::text(content)).with("is_error", Json::Bool(is_error));
    assert(r@->Object_0 =~= tool_result(
        id@,
        crate::workflows::result_view(*outcome),
    )->Object_0);
    r
}

fn new_tool_message(id: &str, outcome: &Result<String, String>) -> (r: Json)
    ensures
        r@ == tool_message(id@, crate::workflows::result_view(*outcome)),
{
    let content = match outcome {
        Ok(t) => t.as_str(),
        Err(e) => e.as_str(),
    };
    let r = Json::object().with("role", Json::text("tool")).with(
        "tool_call_id",
        Json::text(id),
    ).with("content", Json::text(content));
    assert(r@->Object_0 =~= tool_message(
        id@,
        crate::workflows::result_view(*outcome),
    )->Object_0);
    r
}

impl Chat {
    /// The body of the next request.
    pub fn request_body(&self) -> (r: Json)
        ensures
            r@ == body(self@),
            r@.str_at("model"@) == Some(self.model@),
            r@.get("tools"@) == Some(JsonView::Array(json::json_views(self.tools@))),
            r@.get("messages"@) == Some(JsonView::Array(json::json_views(self.messages@))),
    {
        proof {
            law_requests_are_whole(self@);
        }
        let tools = Json::array(json::clone_all(&self.tools));
        let messages = Json::array(json::clone_all(&self.messages));
        let r = match self.api {
            Api::Anthropic => Json::object().with("model", Json::text(self.model.as_str())).with(
                "max_tokens",
                Json::number(1024),
            ).with("system", Json::text(self.system.as_str())).with("tools", tools).with(
                "messages",
                messages,
            ),
            Api::OpenAi => Json::object().with("model", Json::text(self.model.as_str())).with(
                "messages",
                messages,
            ).with("tools", tools).with("tool_choice", Json::text("auto")),
        };
        assert(r@->Object_0 =~= body(self@)->Object_0);
        r
    }

    /// What is due next: a request, or the end after too many of them.
    pub fn next(&mut self) -> (r: ChatStep)
        ensures
            (final(self)@, r@) == after_next(old(self)@),
    {
        if self.turns >= MAX_TURNS {
            return ChatStep::Done(Err("tool loop exceeded max turns".to_owned()));
        }
        let b = self.request_body();
        self.turns = self.turns + 1;
        ChatStep::Post(json::render(&b))
    }

    fn anthropic_reply(&mut self, v: &Json) -> (r: ChatStep)
        ensures
            (final(self)@, r@) == after_anthropic(old(self)@, v@),
    {
        let content = v.array_at("content");
        let wants_tools = match v.str_at("stop_reason") {
            Some(stop) => text::same(stop, "tool_use"),
            None => false,
        };
        if wants_tools {
            let calls = calls_in_blocks(&content);
            self.pending = ids_of(&calls);
            let ghost before = self.messages@;
            let ghost msg = message("assistant"@, JsonView::Array(json::json_views(content@)));
            self.messages.push(new_message("assistant", Json::array(content)));
            assert(json::json_views(self.messages@) =~= json::json_views(before).push(msg));
            return ChatStep::Run(calls);
        }
        let said = text_in(&content);
        ChatStep::Done(Ok(reduce_verdict(said.as_str())))
    }

    fn openai_reply(&mut self, v: &Json) -> (r: ChatStep)
        ensures
            (final(self)@, r@) == after_openai(old(self)@, v@),
    {
        proof {
            reveal_strlit("");
            assert(""@ =~= Seq::<char>::empty());
        }
        match first_message(v) {
            None => ChatStep::Done(Err("no choices in response".to_owned())),
            Some(msg) => {
                let calls = calls_in_message(&msg.array_at("tool_calls"));
                assert(call_views(calls@).len() == calls@.len());
                if calls.len() > 0 {
                    self.pending = ids_of(&calls);
                    let ghost before = self.messages@;
                    self.messages.push(msg.clone());
                    assert(json::json_views(self.messages@) =~= json::json_views(before).push(
                        msg@,
                    ));
                    return ChatStep::Run(calls);
                }
                ChatStep::Done(Ok(reduce_verdict(msg.str_or("content", ""))))
            },
        }
    }

    /// Take in the reply to a request.
    pub fn reply(&mut self, reply: Result<Json, String>) -> (r: ChatStep)
        ensures
            (final(self)@, r@) == after_reply(old(self)@, json::read_view(reply)),
    {
        match reply {
            Err(e) => ChatStep::Done(Err(e)),
            Ok(v) => match self.api {
                Api::Anthropic => self.anthropic_reply(&v),
                Api::OpenAi => self.openai_reply(&v),
            },
        }
    }

    /// Take in what the tools ended with, one outcome for each call that was asked
    /// for.
    pub fn results(&mut self, outcomes: &Vec<Result<String, String>>)
        requires
            outcomes@.len() == old(self).pending@.len(),
        ensures
            final(self)@ == after_results(old(self)@, outcome_views(outcomes@)),
    {
        let ghost c = self@;
        let ghost seen = outcome_views(outcomes@);
        let mut made: Vec<Json> = Vec::new();
        for i in 0..self.pending.len()
            invariant
                made@.len() == i,
                c == self@,
                seen == outcome_views(outcomes@),
                outcomes@.len() == self.pending@.len(),
                forall|k: int|
                    0 <= k < i ==> (#[trigger] made@[k])@ == (match c.api {
                        Api::Anthropic => tool_result(c.pending[k], seen[k]),
                        Api::OpenAi => tool_message(c.pending[k], seen[k]),
                    }),
        {
            let id = self.pending[i].as_str();
            let m = match self.api {
                Api::Anthropic => new_tool_result(id, &outcomes[i]),
                Api::OpenAi => new_tool_message(id, &outcomes[i]),
            };
            made.push(m);
        }
        let ghost views = json::json_views(made@);
        match self.api {
            Api::Anthropic => {
                assert(views =~= Seq::new(
                    c.pending.len(),
                    |i: int| tool_result(c.pending[i], seen[i]),
                ));
                self.messages.push(new_message("user", Json::array(made)));
                assert(json::json_views(self.messages@) =~= c.messages.push(
                    message("user"@, JsonView::Array(views)),
                ));
            },
            Api::OpenAi => {
                assert(views =~= Seq::new(
                    c.pending.len(),
                    |i: int| tool_message(c.pending[i], seen[i]),
                ));
                self.messages.append(&mut made);
                assert(json::json_views(self.messages@) =~= c.messages + views);
            },
        }
        self.pending = Vec::new();
        assert(text::views(self.pending@) =~= Seq::empty());
    }
}

// ---- requests ----

/// How a request ended on the wire.
#[derive(Debug, PartialEq)]
pub enum HttpReply {
    /// With this text, which ought to be JSON.
    Body(String),
    /// With a body that could not be read, for this reason.
    Unreadable(String),
    /// With an error status and this text.
    Status { code: u16, body: String },
    /// Not at all, for this reason.
    Failed(String),
}

/// What a request gives, when reading the text of its body gave `parsed`.
pub open spec fn posted(r: HttpReply, parsed: Result<JsonView, Seq<char>>) -> Result<
    JsonView,
    Seq<char>,
> {
    match r {
        HttpReply::Body(_) => match parsed {
            Ok(v) => Ok(v),
            Err(e) => Err("Failed to read JSON: "@ + e),
        },
        HttpReply::Unreadable(e) => Err("Failed to read JSON: "@ + e@),
        HttpReply::Status { code, body } => Err(
            "HTTP "@ + text::decimal(code as nat) + ": "@ + body@,
        ),
        HttpReply::Failed(e) => Err(e@),
    }
}

/// What a request gives: the JSON value of its reply, or what went wrong.
pub fn post(reply: HttpReply) -> (r: Result<Json, String>)
    ensures
        json::read_view(r) == posted(
            reply,
            match reply {
                HttpReply::Body(t) => json::json_parse(t@),
                _ => Err(Seq::empty()),
            },
        ),
{
    match reply {
        HttpReply::Body(t) => match json::parse(t.as_str()) {
            Ok(v) => Ok(v),
            Err(e) => Err(text::joined("Failed to read JSON: ", e.as_str())),
        },
        HttpReply::Unreadable(e) => Err(text::joined("Failed to read JSON: ", e.as_str())),
        HttpReply::Status { code, body } => {
            let mut e = "HTTP ".to_owned();
            let n = text::u64_text(code as u64);
            e.append(n.as_str());
            e.append(": ");
            e.append(body.as_str());
            Err(e)
        },
        HttpReply::Failed(e) => Err(e),
    }
}

// ---- whole conversations ----

/// One round of a conversation: the reply to a request, and what the tools that it
/// asked for ended with.
pub struct Round {
    pub reply: Result<JsonView, Seq<char>>,
    pub outcomes: Seq<Result<Seq<char>, Seq<char>>>,
}

/// How many requests a conversation sends, and how it ends, as far as the rounds
/// go.
pub open spec fn converse(c: ChatView, rounds: Seq<Round>) -> (
    nat,
    Option<Result<(bool, u8), Seq<char>>>,
)
    decreases rounds.len(),
{
    match after_next(c) {
        (sent, StepView::Post(_)) => if rounds.len() == 0 {
            (1, None)
        } else {
            match after_reply(sent, rounds[0].reply) {
                (asked, StepView::Run(_)) => {
                    let rest = converse(
                        after_results(asked, rounds[0].outcomes),
                        rounds.drop_first(),
                    );
                    (rest.0 + 1, rest.1)
                },
                (_, StepView::Done(end)) => (1, Some(end)),
                (_, StepView::Post(_)) => (1, None),
            }
        },
        (_, StepView::Done(end)) => (0, Some(end)),
        (_, StepView::Run(_)) => (0, None),
    }
}

/// However the model replies, a question takes at most `MAX_TURNS` requests, and
/// is over when that many replies are in.
pub proof fn law_conversation_is_bounded(c: ChatView, rounds: Seq<Round>)
    requires
        c.turns <= MAX_TURNS,
    ensures
        converse(c, rounds).0 <= MAX_TURNS - c.turns,
        rounds.len() >= MAX_TURNS - c.turns ==> converse(c, rounds).1 is Some,
    decreases rounds.len(),
{
    if let (sent, StepView::Post(_)) = after_next(c) {
        if rounds.len() > 0 {
            if let (asked, StepView::Run(_)) = after_reply(sent, rounds[0].reply) {
                law_conversation_is_bounded(
                    after_results(asked, rounds[0].outcomes),
                    rounds.drop_first(),
                );
            }
        }
    }
}

/// Does the reply ask for tools?
pub open spec fn asks_for_tools(api: Api, reply: Result<JsonView, Seq<char>>) -> bool {
    reply matches Ok(v) && match api {
        Api::Anthropic => v.str_at("stop_reason"@) == Some("tool_use"@),
        Api::OpenAi => first_choice(v) matches Some(msg) && msg.array_at("tool_calls"@).len() > 0,
    }
}

/// A conversation that goes on asking for tools is given up after `MAX_TURNS`
/// requests.
pub proof fn law_endless_tool_use_is_given_up(c: ChatView, rounds: Seq<Round>)
    requires
        c.turns <= MAX_TURNS,
        rounds.len() == MAX_TURNS - c.turns,
        forall|i: int| 0 <= i < rounds.len() ==> asks_for_tools(c.api, (#[trigger] rounds[i]).reply),
    ensures
        converse(c, rounds) == (
            (MAX_TURNS - c.turns) as nat,
            Some(Err::<(bool, u8), Seq<char>>("tool loop exceeded max turns"@)),
        ),
    decreases rounds.len(),
{
    if rounds.len() > 0 {
        let (sent, step) = after_next(c);
        assert(asks_for_tools(c.api, rounds[0].reply));
        let (asked, run) = after_reply(sent, rounds[0].reply);
        assert(run is Run);
        let rest = rounds.drop_first();
        assert forall|i: int| 0 <= i < rest.len() implies asks_for_tools(
            c.api,
            (#[trigger] rest[i]).reply,
        ) by {
            assert(rest[i] == rounds[i + 1]);
        }
        law_endless_tool_use_is_given_up(after_results(asked, rounds[0].outcomes), rest);
    }
}

/// Whatever is answered, it is yes or no, said one to three times.
pub proof fn law_answer_is_short(c: ChatView, rounds: Seq<Round>)
    ensures
        converse(c, rounds).1 matches Some(Ok(answer)) ==> 1 <= answer.1 <= 3,
    decreases rounds.len(),
{
    if let (sent, StepView::Post(_)) = after_next(c) {
        if rounds.len() > 0 {
            if let (asked, StepView::Run(_)) = after_reply(sent, rounds[0].reply) {
                law_answer_is_short(
                    after_results(asked, rounds[0].outcomes),
                    rounds.drop_first(),
                );
            }
        }
    }
}

/// A reply without any yes or no word is a single no.
pub proof fn law_silence_is_no(lower: Seq<char>)
    requires
        forall|i: int|
            0 <= i < text::pieces(lower, text::Cut::NonAlphabetic).len() ==> !is_yes(
                #[trigger] text::pieces(lower, text::Cut::NonAlphabetic)[i],
            ) && !is_no(text::pieces(lower, text::Cut::NonAlphabetic)[i]),
    ensures
        verdict_of(lower) == (false, 1u8),
{
    lemma_no_votes(text::pieces(lower, text::Cut::NonAlphabetic));
}

proof fn lemma_no_votes(words: Seq<Seq<char>>)
    requires
        forall|i: int| 0 <= i < words.len() ==> !is_yes(#[trigger] words[i]) && !is_no(words[i]),
    ensures
        yes_count(words) == 0,
        no_count(words) == 0,
    decreases words.len(),
{
    if words.len() > 0 {
        lemma_no_votes(words.drop_last());
    }
}

/// Nothing that was said is lost: each step only adds to the messages.
pub proof fn law_history_only_grows(
    c: ChatView,
    reply: Result<JsonView, Seq<char>>,
    outcomes: Seq<Result<Seq<char>, Seq<char>>>,
)
    ensures
        c.messages.is_prefix_of(after_next(c).0.messages),
        c.messages.is_prefix_of(after_reply(c, reply).0.messages),
        c.messages.is_prefix_of(after_results(c, outcomes).messages),
{
    if let Ok(v) = reply {
        let content = v.array_at("content"@);
        let grown = c.messages.push(message("assistant"@, JsonView::Array(content)));
        assert(c.messages =~= grown.take(c.messages.len() as int));
        if let Some(msg) = first_choice(v) {
            assert(c.messages =~= c.messages.push(msg).take(c.messages.len() as int));
        }
    }
    let after = after_results(c, outcomes).messages;
    assert(c.messages =~= after.take(c.messages.len() as int));
}

// ---- what a request holds ----

proof fn lemma_request_keys()
    ensures
        "model"@ != "max_tokens"@,
        "model"@ != "system"@,
        "model"@ != "tools"@,
        "model"@ != "messages"@,
        "model"@ != "tool_choice"@,
        "max_tokens"@ != "system"@,
        "max_tokens"@ != "tools"@,
        "max_tokens"@ != "messages"@,
        "system"@ != "tools"@,
        "system"@ != "messages"@,
        "tools"@ != "messages"@,
        "tools"@ != "tool_choice"@,
        "messages"@ != "tool_choice"@,
{
    reveal_strlit("model");
    assert("model"@.len() == 5);
    reveal_strlit("max_tokens");
    assert("max_tokens"@.len() == 10);
    reveal_strlit("system");
    assert("system"@.len() == 6);
    reveal_strlit("tools");
    assert("tools"@.len() == 5);
    reveal_strlit("messages");
    assert("messages"@.len() == 8);
    reveal_strlit("tool_choice");
    assert("tool_choice"@.len() == 11);
    assert("model"@[0] == 'm' && "tools"@[0] == 't');
}

/// Every request of a question holds the model, all the tools and all the messages,
/// whichever turn it is; in Anthropic's form the system prompt and the limit of
/// 1024 tokens too, in OpenAI's the leave to pick a tool. That request is what is
/// sent as long as there is a turn left.
pub proof fn law_requests_are_whole(c: ChatView)
    ensures
        body(c).str_at("model"@) == Some(c.model),
        body(c).get("tools"@) == Some(JsonView::Array(c.tools)),
        body(c).array_at("tools"@) == c.tools,
        body(c).get("messages"@) == Some(JsonView::Array(c.messages)),
        body(c).array_at("messages"@) == c.messages,
        c.api is Anthropic ==> {
            &&& body(c).str_at("system"@) == Some(c.system)
            &&& body(c).get("max_tokens"@) == Some(JsonView::Number(text::decimal(1024)))
        },
        c.api is OpenAi ==> body(c).str_at("tool_choice"@) == Some("auto"@),
        after_next(c).1 is Post <==> c.turns < 8,
        after_next(c).1 is Post ==> after_next(c).1->Post_0 == json::json_text(body(c)),
        after_next(c).1 is Post ==> after_next(c).0.turns == c.turns + 1,
        !(after_next(c).1 is Post) ==> after_next(c).1 is Done && after_next(c).1->Done_0 is Err,
{
    lemma_request_keys();
    let m = body(c)->Object_0;
    match c.api {
        Api::Anthropic => {
            json::law_last_member_counts(m, 0);
            json::law_last_member_counts(m, 1);
            json::law_last_member_counts(m, 2);
            json::law_last_member_counts(m, 3);
            json::law_last_member_counts(m, 4);
        },
        Api::OpenAi => {
            json::law_last_member_counts(m, 0);
            json::law_last_member_counts(m, 1);
            json::law_last_member_counts(m, 2);
            json::law_last_member_counts(m, 3);
        },
    }
}

/// The texts of the requests that a conversation sends, as far as the rounds go.
pub open spec fn posts(c: ChatView, rounds: Seq<Round>) -> Seq<Seq<char>>
    decreases rounds.len(),
{
    match after_next(c) {
        (sent, StepView::Post(t)) => if rounds.len() == 0 {
            seq![t]
        } else {
            match after_reply(sent, rounds[0].reply) {
                (asked, StepView::Run(_)) => seq![t] + posts(
                    after_results(asked, rounds[0].outcomes),
                    rounds.drop_first(),
                ),
                _ => seq![t],
            }
        },
        _ => Seq::empty(),
    }
}

/// Is this the text of a request that holds the question's tools, its model and
/// everything that was said when it was asked?
pub open spec fn carries(t: Seq<char>, b: JsonView, c: ChatView) -> bool {
    &&& t == json::json_text(b)
    &&& b.str_at("model"@) == Some(c.model)
    &&& b.array_at("tools"@) == c.tools
    &&& c.messages.is_prefix_of(b.array_at("messages"@))
    &&& c.api is Anthropic ==> b.str_at("system"@) == Some(c.system)
}

pub open spec fn is_request_of(t: Seq<char>, c: ChatView) -> bool {
    exists|b: JsonView| carries(t, b, c)
}

/// Every request that a question sends, the first and each that follows on tools,
/// carries the question: its tools, its model and its messages.
pub proof fn law_every_request_carries_the_question(c: ChatView, rounds: Seq<Round>)
    ensures
        forall|i: int|
            0 <= i < posts(c, rounds).len() ==> is_request_of(#[trigger] posts(c, rounds)[i], c),
    decreases rounds.len(),
{
    law_requests_are_whole(c);
    let all = posts(c, rounds);
    let (sent, step) = after_next(c);
    assert forall|i: int| 0 <= i < all.len() implies is_request_of(#[trigger] all[i], c) by {
        assert(step is Post);
        let t = step->Post_0;
        assert(all[0] == t);
        if i == 0 {
            assert(carries(all[i], body(c), c));
        } else {
            let (asked, run) = after_reply(sent, rounds[0].reply);
            assert(run is Run);
            let next = after_results(asked, rounds[0].outcomes);
            let rest = rounds.drop_first();
            law_every_request_carries_the_question(next, rest);
            law_question_is_kept(c, rounds[0].reply, rounds[0].outcomes);
            law_question_is_kept(sent, rounds[0].reply, rounds[0].outcomes);
            law_question_is_kept(asked, rounds[0].reply, rounds[0].outcomes);
            law_history_only_grows(sent, rounds[0].reply, rounds[0].outcomes);
            law_history_only_grows(asked, rounds[0].reply, rounds[0].outcomes);
            assert(c.messages.is_prefix_of(next.messages));
            let later = posts(next, rest)[i - 1];
            assert(all[i] == later);
            assert(is_request_of(later, next));
            let b = choose|b: JsonView| carries(later, b, next);
            assert(carries(all[i], b, c));
        }
    }
}

/// Neither a request nor a reply nor a result changes the form of the requests, the
/// model, the system prompt or the tools; only a request counts as a turn.
pub proof fn law_question_is_kept(
    c: ChatView,
    reply: Result<JsonView, Seq<char>>,
    outcomes: Seq<Result<Seq<char>, Seq<char>>>,
)
    ensures
        same_question(after_next(c).0, c),
        same_question(after_reply(c, reply).0, c),
        same_question(after_results(c, outcomes), c),
        after_next(c).0.messages == c.messages,
        after_next(c).0.pending == c.pending,
        after_reply(c, reply).0.turns == c.turns,
        after_results(c, outcomes).turns == c.turns,
{
}

pub open spec fn same_question(a: ChatView, b: ChatView) -> bool {
    a.api == b.api && a.model == b.model && a.system == b.system && a.tools == b.tools
}

/// A question that was just asked has the model of the settings and ends with what
/// was heard, said by the user. Its tools are the given ones, in their order; in
/// OpenAI's form each with its name, its description and its schema.
pub proof fn law_question_is_as_asked(
    cfg: AgentConfig,
    workflows: Seq<Workflow>,
    tools: Seq<JsonView>,
    transcript: Seq<char>,
)
    ensures
        ({
            let c = asked(cfg, workflows, tools, transcript);
            let openai = cfg.provider@ == "openai"@ || cfg.provider@ == "openrouter"@;
            &&& c.model == cfg.model@
            &&& c.turns == 0
            &&& c.pending.len() == 0
            &&& c.api is OpenAi <==> openai
            &&& c.messages.last().str_at("role"@) == Some("user"@)
            &&& c.messages.last().str_at("content"@) == Some(transcript)
            &&& SYSTEM@.is_prefix_of(c.system)
            &&& told_of(workflows).is_suffix_of(c.system)
            &&& c.system.len() == SYSTEM@.len() + told_of(workflows).len()
            &&& !openai ==> c.tools == tools && c.messages.len() == 1
            &&& openai ==> {
                &&& c.messages.len() == 2
                &&& c.messages[0].str_at("role"@) == Some("system"@)
                &&& c.messages[0].str_at("content"@) == Some(c.system)
                &&& c.tools.len() == tools.len()
                &&& forall|i: int|
                    0 <= i < tools.len() ==> same_tool(#[trigger] c.tools[i], tools[i])
            }
        }),
{
    let c = asked(cfg, workflows, tools, transcript);
    law_messages_say_it("user"@, JsonView::Str(transcript));
    law_messages_say_it("system"@, JsonView::Str(c.system));
    assert(SYSTEM@.is_prefix_of(SYSTEM@ + told_of(workflows)));
    assert(told_of(workflows).is_suffix_of(SYSTEM@ + told_of(workflows)));
    if speaks_openai(cfg.provider@) {
        assert forall|i: int| 0 <= i < tools.len() implies same_tool(
            #[trigger] c.tools[i],
            tools[i],
        ) by {
            law_tools_are_converted(tools[i]);
        }
    }
}

/// A message has the role and the content that it was made with.
pub proof fn law_messages_say_it(role: Seq<char>, content: JsonView)
    ensures
        message(role, content).str_at("role"@) == Some(role),
        message(role, content).get("content"@) == Some(content),
{
    reveal_strlit("role");
    assert("role"@.len() == 4);
    reveal_strlit("content");
    assert("content"@.len() == 7);
    let m = message(role, content)->Object_0;
    json::law_last_member_counts(m, 0);
    json::law_last_member_counts(m, 1);
}

/// Is `o` the tool `t` in OpenAI's form: a function with `t`'s name, description
/// and schema?
pub open spec fn same_tool(o: JsonView, t: JsonView) -> bool {
    &&& o.str_at("type"@) == Some("function"@)
    &&& o.get("function"@) matches Some(f) && {
        &&& t.get("name"@) is Some ==> f.get("name"@) == t.get("name"@)
        &&& t.get("description"@) is Some ==> f.get("description"@) == t.get("description"@)
        &&& t.get("input_schema"@) is Some ==> f.get("parameters"@) == t.get("input_schema"@)
        &&& t.get("name"@) is None ==> f.get("name"@) == Some(JsonView::Null)
        &&& t.get("description"@) is None ==> f.get("description"@) == Some(JsonView::Null)
        &&& t.get("input_schema"@) is None ==> f.get("parameters"@) == Some(any_object())
    }
}

/// A tool keeps its name, its description and its schema in OpenAI's form.
pub proof fn law_tools_are_converted(t: JsonView)
    ensures
        same_tool(openai_tool(t), t),
        any_object().str_at("type"@) == Some("object"@),
{
    reveal_strlit("type");
    assert("type"@.len() == 4);
    reveal_strlit("function");
    assert("function"@.len() == 8);
    reveal_strlit("name");
    assert("name"@.len() == 4);
    reveal_strlit("description");
    assert("description"@.len() == 11);
    reveal_strlit("parameters");
    assert("parameters"@.len() == 10);
    reveal_strlit("properties");
    assert("properties"@.len() == 10);
    assert("description"@[0] == 'd');
    let m = openai_tool(t)->Object_0;
    json::law_last_member_counts(m, 0);
    json::law_last_member_counts(m, 1);
    let f = m[1].1->Object_0;
    json::law_last_member_counts(f, 0);
    json::law_last_member_counts(f, 1);
    json::law_last_member_counts(f, 2);
    json::law_last_member_counts(any_object()->Object_0, 0);
}

// ---- what a reply asks for, and what it is answered ----

/// Does a block ask for a tool?
pub open spec fn wants_tool(b: JsonView) -> bool {
    b.str_at("type"@) == Some("tool_use"@)
}

/// The calls of a reply in Anthropic's form are its tool-use blocks, in their order,
/// one call for each: with the block's id, its name and its input.
pub proof fn law_calls_are_the_blocks(content: Seq<JsonView>)
    ensures
        ({
            let wanted = content.filter(|b: JsonView| wants_tool(b));
            let calls = block_calls(content);
            &&& calls.len() == wanted.len()
            &&& forall|i: int|
                0 <= i < calls.len() ==> {
                    &&& wanted[i].str_at("id"@) is Some ==> Some((#[trigger] calls[i]).id)
                        == wanted[i].str_at("id"@)
                    &&& wanted[i].str_at("name"@) is Some ==> Some(calls[i].name)
                        == wanted[i].str_at("name"@)
                    &&& wanted[i].get("input"@) is Some ==> Some(calls[i].input) == wanted[i].get(
                        "input"@,
                    )
                    &&& wanted[i].str_at("id"@) is None ==> calls[i].id.len() == 0
                    &&& wanted[i].str_at("name"@) is None ==> calls[i].name.len() == 0
                    &&& wanted[i].get("input"@) is None ==> calls[i].input == JsonView::Object(
                        Seq::empty(),
                    )
                }
        }),
    decreases content.len(),
{
    reveal(Seq::filter);
    if content.len() > 0 {
        law_calls_are_the_blocks(content.drop_last());
    }
}

/// The text of a reply is that of its text blocks, one behind the other; no other
/// block adds to it.
pub proof fn law_reply_text(a: Seq<JsonView>, b: Seq<JsonView>, block: JsonView)
    ensures
        block_text(a + b) == block_text(a) + block_text(b),
        block.str_at("type"@) == Some("text"@) && block.str_at("text"@) is Some ==> Some(
            block_text(seq![block]),
        ) == block.str_at("text"@),
        block.str_at("type"@) != Some("text"@) || block.str_at("text"@) is None ==> block_text(
            seq![block],
        ).len() == 0,
    decreases b.len(),
{
    assert(seq![block].drop_last() =~= Seq::empty());
    assert(seq![block].last() == block);
    assert(block_text(Seq::empty()) =~= Seq::empty());
    if b.len() == 0 {
        assert(a + b =~= a);
    } else {
        assert((a + b).drop_last() =~= a + b.drop_last());
        assert((a + b).last() == b.last());
        law_reply_text(a, b.drop_last(), block);
        assert(block_text(a + b) =~= block_text(a) + block_text(b));
    }
    match block.str_at("text"@) {
        Some(t) => {
            assert(Seq::<char>::empty() + t =~= t);
        },
        None => {},
    }
}

/// A reply that could not be had ends the question with the reason. One in
/// Anthropic's form has tools run where it stopped for them, and is otherwise the
/// answer, which is read off its text; one in OpenAI's form has tools run where
/// its first message calls any, and is otherwise the answer, which is read off
/// that message's content.
pub proof fn law_replies_are_followed(c: ChatView, v: JsonView, e: Seq<char>)
    ensures
        after_reply(c, Err(e)).1 == StepView::Done(Err::<(bool, u8), Seq<char>>(e)),
        after_reply(c, Ok(v)).1 is Run <==> asks_for_tools(c.api, Ok(v)),
        c.api is Anthropic && !asks_for_tools(c.api, Ok(v)) ==> after_reply(c, Ok(v)).1
            == StepView::Done(
            Ok::<(bool, u8), Seq<char>>(verdict(block_text(v.array_at("content"@)))),
        ),
        c.api is Anthropic && asks_for_tools(c.api, Ok(v)) ==> after_reply(c, Ok(v)).1
            == StepView::Run(block_calls(v.array_at("content"@))),
        c.api is OpenAi && !asks_for_tools(c.api, Ok(v)) && first_choice(v) is Some ==> (
        first_choice(v)->0.str_at("content"@) matches Some(t) ==> after_reply(c, Ok(v)).1
            == StepView::Done(Ok::<(bool, u8), Seq<char>>(verdict(t)))),
        c.api is OpenAi && !asks_for_tools(c.api, Ok(v)) && first_choice(v) is Some
            && first_choice(v)->0.str_at("content"@) is None ==> after_reply(c, Ok(v)).1
            == StepView::Done(Ok::<(bool, u8), Seq<char>>(verdict(Seq::empty()))),
        c.api is OpenAi && asks_for_tools(c.api, Ok(v)) ==> after_reply(c, Ok(v)).1
            == StepView::Run(function_calls(first_choice(v)->0.array_at("tool_calls"@))),
        c.api is OpenAi && first_choice(v) is None ==> after_reply(c, Ok(v)).1 is Done
            && after_reply(c, Ok(v)).1->Done_0 is Err,
{
}

/// The message of a reply in OpenAI's form is the message of its first choice.
pub proof fn law_first_choice_counts(
    choices: Seq<JsonView>,
    msg: JsonView,
    before: Seq<(Seq<char>, JsonView)>,
    within: Seq<(Seq<char>, JsonView)>,
)
    requires
        choices.len() > 0,
        choices[0] == JsonView::Object(within.push(("message"@, msg))),
    ensures
        first_choice(JsonView::Object(before.push(("choices"@, JsonView::Array(choices)))))
            == Some(msg),
        first_choice(
            JsonView::Object(before.push(("choices"@, JsonView::Array(Seq::empty())))),
        ) is None,
{
    json::law_written_members_are_read(before, "choices"@, JsonView::Array(choices), "choices"@);
    json::law_written_members_are_read(
        before,
        "choices"@,
        JsonView::Array(Seq::empty()),
        "choices"@,
    );
    json::law_written_members_are_read(within, "message"@, msg, "message"@);
}

/// The calls of a message in OpenAI's form are its tool calls, in their order, one
/// for each: with its id, the name of its function, and the arguments of its
/// function read as JSON; arguments that cannot be read count as none.
pub proof fn law_calls_are_the_tool_calls(calls: Seq<JsonView>, i: int)
    requires
        0 <= i < calls.len(),
    ensures
        function_calls(calls).len() == calls.len(),
        calls[i].str_at("id"@) is Some ==> Some(function_calls(calls)[i].id) == calls[i].str_at(
            "id"@,
        ),
        calls[i].get("function"@) matches Some(f) ==> {
            &&& f.str_at("name"@) is Some ==> Some(function_calls(calls)[i].name) == f.str_at(
                "name"@,
            )
            &&& f.str_at("name"@) is None ==> function_calls(calls)[i].name.len() == 0
            &&& f.str_at("arguments"@) matches Some(a) ==> (match json::json_parse(a) {
                Ok(v) => function_calls(calls)[i].input == v,
                Err(_) => function_calls(calls)[i].input == JsonView::Object(Seq::empty()),
            })
            &&& f.str_at("arguments"@) is None ==> (match json::json_parse("{}"@) {
                Ok(v) => function_calls(calls)[i].input == v,
                Err(_) => function_calls(calls)[i].input == JsonView::Object(Seq::empty()),
            })
        },
        calls[i].str_at("id"@) is None ==> function_calls(calls)[i].id.len() == 0,
        calls[i].get("function"@) is None ==> function_calls(calls)[i].name.len() == 0,
{
}

/// What is said in answer to a call: what its tool ended with.
pub open spec fn said(outcome: Result<Seq<char>, Seq<char>>) -> Seq<char> {
    match outcome {
        Ok(t) => t,
        Err(e) => e,
    }
}

/// A result names the call that it answers, holds what the tool ended with and, in
/// Anthropic's form, says whether that was an error.
pub proof fn law_results_name_their_call(id: Seq<char>, outcome: Result<Seq<char>, Seq<char>>)
    ensures
        tool_result(id, outcome).str_at("type"@) == Some("tool_result"@),
        tool_result(id, outcome).str_at("tool_use_id"@) == Some(id),
        tool_result(id, outcome).str_at("content"@) == Some(said(outcome)),
        tool_result(id, outcome).get("is_error"@) == Some(JsonView::Bool(outcome is Err)),
        tool_message(id, outcome).str_at("role"@) == Some("tool"@),
        tool_message(id, outcome).str_at("tool_call_id"@) == Some(id),
        tool_message(id, outcome).str_at("content"@) == Some(said(outcome)),
{
    reveal_strlit("type");
    assert("type"@.len() == 4);
    reveal_strlit("tool_use_id");
    assert("tool_use_id"@.len() == 11);
    reveal_strlit("content");
    assert("content"@.len() == 7);
    reveal_strlit("is_error");
    assert("is_error"@.len() == 8);
    reveal_strlit("role");
    assert("role"@.len() == 4);
    reveal_strlit("tool_call_id");
    assert("tool_call_id"@.len() == 12);
    let m = tool_result(id, outcome)->Object_0;
    json::law_last_member_counts(m, 0);
    json::law_last_member_counts(m, 1);
    json::law_last_member_counts(m, 2);
    json::law_last_member_counts(m, 3);
    let n = tool_message(id, outcome)->Object_0;
    json::law_last_member_counts(n, 0);
    json::law_last_member_counts(n, 1);
    json::law_last_member_counts(n, 2);
}

/// When a reply has had its tools run, the next request says so: behind the earlier
/// messages it holds the reply, and behind that one result for each call, in the
/// order of the calls, under the id of the call and with what its tool ended with.
pub proof fn law_calls_are_answered(
    c: ChatView,
    v: JsonView,
    outcomes: Seq<Result<Seq<char>, Seq<char>>>,
)
    requires
        asks_for_tools(c.api, Ok(v)),
        outcomes.len() == after_reply(c, Ok(v)).1->Run_0.len(),
    ensures
        ({
            let calls = after_reply(c, Ok(v)).1->Run_0;
            let then = after_results(after_reply(c, Ok(v)).0, outcomes);
            let n = c.messages.len() as int;
            &&& then.pending.len() == 0
            &&& c.messages == then.messages.take(n)
            &&& c.api is Anthropic ==> {
                let reply = then.messages[n];
                let results = then.messages[n + 1];
                &&& then.messages.len() == n + 2
                &&& reply.str_at("role"@) == Some("assistant"@)
                &&& reply.array_at("content"@) == v.array_at("content"@)
                &&& results.str_at("role"@) == Some("user"@)
                &&& results.array_at("content"@).len() == calls.len()
                &&& forall|i: int|
                    0 <= i < calls.len() ==> {
                        let one = results.array_at("content"@)[i];
                        &&& one.str_at("tool_use_id"@) == Some((#[trigger] calls[i]).id)
                        &&& one.str_at("content"@) == Some(said(outcomes[i]))
                        &&& one.get("is_error"@) == Some(JsonView::Bool(outcomes[i] is Err))
                    }
            }
            &&& c.api is OpenAi ==> {
                &&& then.messages.len() == n + 1 + calls.len()
                &&& Some(then.messages[n]) == first_choice(v)
                &&& forall|i: int|
                    0 <= i < calls.len() ==> {
                        let one = then.messages[n + 1 + i];
                        &&& one.str_at("role"@) == Some("tool"@)
                        &&& one.str_at("tool_call_id"@) == Some((#[trigger] calls[i]).id)
                        &&& one.str_at("content"@) == Some(said(outcomes[i]))
                    }
            }
        }),
{
    let (mid, step) = after_reply(c, Ok(v));
    let calls = step->Run_0;
    let then = after_results(mid, outcomes);
    let n = c.messages.len() as int;
    assert(mid.pending.len() == calls.len());
    assert(c.messages =~= then.messages.take(n));
    match c.api {
        Api::Anthropic => {
            law_messages_say_it("assistant"@, JsonView::Array(v.array_at("content"@)));
            let made = Seq::new(
                mid.pending.len(),
                |i: int| tool_result(mid.pending[i], outcomes[i]),
            );
            law_messages_say_it("user"@, JsonView::Array(made));
            assert(then.messages[n + 1] == message("user"@, JsonView::Array(made)));
            assert forall|i: int| 0 <= i < calls.len() implies {
                let one = then.messages[n + 1].array_at("content"@)[i];
                &&& one.str_at("tool_use_id"@) == Some((#[trigger] calls[i]).id)
                &&& one.str_at("content"@) == Some(said(outcomes[i]))
                &&& one.get("is_error"@) == Some(JsonView::Bool(outcomes[i] is Err))
            } by {
                law_results_name_their_call(calls[i].id, outcomes[i]);
                assert(mid.pending[i] == calls[i].id);
                assert(made[i] == tool_result(calls[i].id, outcomes[i]));
            }
        },
        Api::OpenAi => {
            assert forall|i: int| 0 <= i < calls.len() implies {
                let one = then.messages[n + 1 + i];
                &&& one.str_at("role"@) == Some("tool"@)
                &&& one.str_at("tool_call_id"@) == Some((#[trigger] calls[i]).id)
                &&& one.str_at("content"@) == Some(said(outcomes[i]))
            } by {
                law_results_name_their_call(calls[i].id, outcomes[i]);
                assert(mid.pending[i] == calls[i].id);
                assert(then.messages[n + 1 + i] == tool_message(calls[i].id, outcomes[i]));
            }
        },
    }
}

// ---- which answer wins ----

/// Where anything was said for yes or for no, the answer is yes exactly where there
/// is at least as much yes as no; it is said as often as the winner, three times at
/// most.
pub proof fn law_majority_wins(yes: nat, no: nat)
    requires
        yes + no > 0,
    ensures
        verdict_on(yes, no).0 <==> yes >= no,
        verdict_on(yes, no).0 ==> verdict_on(yes, no).1 == (if yes < 3 { yes } else { 3 }),
        !verdict_on(yes, no).0 ==> verdict_on(yes, no).1 == (if no < 3 { no } else { 3 }),
        verdict_on(0, 0) == (false, 1u8),
{
}

/// More yes never turns a yes into a no, and more no never turns a no into a yes.
pub proof fn law_votes_count_for_their_side(yes: nat, no: nat, more: nat)
    ensures
        verdict_on(yes, no).0 ==> verdict_on(yes + more, no).0,
        !verdict_on(yes, no).0 ==> !verdict_on(yes, no + more).0,
{
}

/// The votes for yes are the words yes, yeah, yep and yup, and those for no the
/// words no, nope and nah: as many of either as there are such words, wherever they
/// stand.
pub proof fn law_votes_are_words(words: Seq<Seq<char>>)
    ensures
        yes_count(words) == words.filter(
            |w: Seq<char>| w == "yes"@ || w == "yeah"@ || w == "yep"@ || w == "yup"@,
        ).len(),
        no_count(words) == words.filter(
            |w: Seq<char>| w == "no"@ || w == "nope"@ || w == "nah"@,
        ).len(),
    decreases words.len(),
{
    reveal(Seq::filter);
    if words.len() > 0 {
        law_votes_are_words(words.drop_last());
    }
}

/// A reply in which some word is a no and none is a yes is never a yes; one in which
/// some word is a yes and none is a no always is.
pub proof fn law_unanimous_replies(lower: Seq<char>, i: int)
    requires
        0 <= i < text::pieces(lower, text::Cut::NonAlphabetic).len(),
    ensures
        ({
            let words = text::pieces(lower, text::Cut::NonAlphabetic);
            let none_yes = forall|k: int| 0 <= k < words.len() ==> !is_yes(#[trigger] words[k]);
            let none_no = forall|k: int| 0 <= k < words.len() ==> !is_no(#[trigger] words[k]);
            &&& is_no(words[i]) && none_yes ==> !verdict_of(lower).0
            &&& is_yes(words[i]) && none_no ==> verdict_of(lower).0
        }),
{
    let words = text::pieces(lower, text::Cut::NonAlphabetic);
    lemma_some_vote(words, i);
    lemma_one_sided(words);
}

proof fn lemma_some_vote(words: Seq<Seq<char>>, i: int)
    requires
        0 <= i < words.len(),
    ensures
        is_yes(words[i]) ==> yes_count(words) > 0,
        is_no(words[i]) ==> no_count(words) > 0,
    decreases words.len(),
{
    if i < words.len() - 1 {
        lemma_some_vote(words.drop_last(), i);
    }
}

proof fn lemma_one_sided(words: Seq<Seq<char>>)
    ensures
        (forall|k: int| 0 <= k < words.len() ==> !is_yes(#[trigger] words[k])) ==> yes_count(words)
            == 0,
        (forall|k: int| 0 <= k < words.len() ==> !is_no(#[trigger] words[k])) ==> no_count(words)
            == 0,
    decreases words.len(),
{
    if words.len() > 0 {
        lemma_one_sided(words.drop_last());
        let rest = words.drop_last();
        assert(forall|k: int| 0 <= k < rest.len() ==> rest[k] == words[k]);
        assert(words.last() == words[words.len() - 1]);
    }
}

/// Words count wherever they stand in a reply: a reply made of two, with a character
/// between that is no letter, has the votes of both; and the case of ASCII letters
/// makes no difference.
pub proof fn law_replies_add_up(a: Seq<char>, c: char, b: Seq<char>)
    requires
        !text::alphabetic(c),
    ensures
        verdict_of(a.push(c) + b) == verdict_on(
            yes_count(text::pieces(a, text::Cut::NonAlphabetic)) + yes_count(
                text::pieces(b, text::Cut::NonAlphabetic),
            ),
            no_count(text::pieces(a, text::Cut::NonAlphabetic)) + no_count(
                text::pieces(b, text::Cut::NonAlphabetic),
            ),
        ),
        (forall|i: int| 0 <= i < a.len() ==> '\0' <= #[trigger] a[i] <= '\u{7f}') ==> verdict(a)
            == verdict_of(text::lowered(a)),
{
    text::law_cutting(a, c, b, text::Cut::NonAlphabetic);
    lemma_votes_add(
        text::pieces(a, text::Cut::NonAlphabetic),
        text::pieces(b, text::Cut::NonAlphabetic),
    );
    if forall|i: int| 0 <= i < a.len() ==> '\0' <= #[trigger] a[i] <= '\u{7f}' {
        assert(vstd::utf8::is_ascii_chars(a));
        text::law_case_is_ignored(a, a);
    }
}

proof fn lemma_votes_add(a: Seq<Seq<char>>, b: Seq<Seq<char>>)
    ensures
        yes_count(a + b) == yes_count(a) + yes_count(b),
        no_count(a + b) == no_count(a) + no_count(b),
    decreases b.len(),
{
    if b.len() == 0 {
        assert(a + b =~= a);
    } else {
        assert((a + b).drop_last() =~= a + b.drop_last());
        assert((a + b).last() == b.last());
        lemma_votes_add(a, b.drop_last());
    }
}

// ---- what the model is told, and where ----

/// The model is told of every enabled workflow, on a line that starts with its name
/// in quotes and ends with its trigger phrases.
pub proof fn law_enabled_workflows_are_told(all: Seq<Workflow>, i: int)
    requires
        0 <= i < all.len(),
        all[i].enabled,
    ensures
        text::contained(told_of(all), "\n- \""@ + all[i].name@ + "\""@),
        all[i].trigger_phrases@.len() > 0 ==> text::contained(
            told_of(all),
            "\n- \""@ + all[i].name@ + "\""@ + " — triggers: "@ + text::joined_with(
                text::views(all[i].trigger_phrases@),
                ", "@,
            ),
        ),
{
    let intro = "\n\nSaved workflows you can run (call run_workflow with the exact name):"@;
    lemma_told(all, i);
    let (x, y): (Seq<char>, Seq<char>) = choose|x: Seq<char>, y: Seq<char>|
        workflow_lines(all) == #[trigger] (x + workflow_line(all[i]) + y);
    let name = "\n- \""@ + all[i].name@ + "\""@;
    let line = workflow_line(all[i]);
    text::law_found_within(intro + x, line, y);
    assert(told_of(all) =~= intro + x + line + y);
    let tail = line.skip(name.len() as int);
    assert(line =~= name + tail);
    text::law_found_within(intro + x, name, tail + y);
    assert(told_of(all) =~= intro + x + name + (tail + y));
    if all[i].trigger_phrases@.len() > 0 {
        assert(line =~= "\n- \""@ + all[i].name@ + "\""@ + " — triggers: "@ + text::joined_with(
            text::views(all[i].trigger_phrases@),
            ", "@,
        ));
    }
}

proof fn lemma_told(all: Seq<Workflow>, i: int)
    requires
        0 <= i < all.len(),
        all[i].enabled,
    ensures
        exists|x: Seq<char>, y: Seq<char>|
            workflow_lines(all) == #[trigger] (x + workflow_line(all[i]) + y),
    decreases all.len(),
{
    if i == all.len() - 1 {
        let x = workflow_lines(all.drop_last());
        assert(workflow_lines(all) =~= x + workflow_line(all[i]) + Seq::<char>::empty());
    } else {
        let rest = all.drop_last();
        lemma_told(rest, i);
        let (x, y): (Seq<char>, Seq<char>) = choose|x: Seq<char>, y: Seq<char>|
            workflow_lines(rest) == #[trigger] (x + workflow_line(rest[i]) + y);
        let more = if all.last().enabled {
            workflow_line(all.last())
        } else {
            Seq::empty()
        };
        assert(workflow_lines(all) =~= x + workflow_line(all[i]) + (y + more));
    }
}

/// The model is told nothing of a workflow that is not enabled, and of the others
/// in their order.
pub proof fn law_disabled_workflows_are_untold(a: Seq<Workflow>, w: Workflow, b: Seq<Workflow>)
    requires
        !w.enabled,
    ensures
        told_of(a.push(w) + b) == told_of(a + b),
        workflow_lines(a + b) == workflow_lines(a) + workflow_lines(b),
{
    lemma_lines_add(a, b);
    lemma_lines_add(a.push(w), b);
    assert(a.push(w).drop_last() =~= a);
    let with_it = a.push(w) + b;
    let without = a + b;
    if exists|i: int| 0 <= i < with_it.len() && (#[trigger] with_it[i]).enabled {
        let i = choose|i: int| 0 <= i < with_it.len() && (#[trigger] with_it[i]).enabled;
        let j = if i < a.len() {
            i
        } else {
            i - 1
        };
        assert(without[j] == with_it[i]);
    }
    if exists|i: int| 0 <= i < without.len() && (#[trigger] without[i]).enabled {
        let i = choose|i: int| 0 <= i < without.len() && (#[trigger] without[i]).enabled;
        let j = if i < a.len() {
            i
        } else {
            i + 1
        };
        assert(with_it[j] == without[i]);
    }
}

proof fn lemma_lines_add(a: Seq<Workflow>, b: Seq<Workflow>)
    ensures
        workflow_lines(a + b) == workflow_lines(a) + workflow_lines(b),
    decreases b.len(),
{
    if b.len() == 0 {
        assert(a + b =~= a);
        assert(workflow_lines(a + b) =~= workflow_lines(a) + workflow_lines(b));
    } else {
        assert((a + b).drop_last() =~= a + b.drop_last());
        assert((a + b).last() == b.last());
        lemma_lines_add(a, b.drop_last());
        assert(workflow_lines(a + b) =~= workflow_lines(a) + workflow_lines(b));
    }
}

/// Requests go to the address in the settings, whatever whitespace stands around it
/// and however many slashes behind it, and there to the path of the provider's API.
/// Where the settings hold no address, they go where the provider is found.
pub proof fn law_requests_go_where_told(
    cfg: AgentConfig,
    before: Seq<char>,
    address: Seq<char>,
    slashes: nat,
    behind: Seq<char>,
)
    requires
        cfg.base_url@ == before + (address + Seq::new(slashes, |i: int| '/')) + behind,
        forall|i: int| 0 <= i < before.len() ==> text::whitespace(#[trigger] before[i]),
        forall|i: int| 0 <= i < behind.len() ==> text::whitespace(#[trigger] behind[i]),
        address.len() > 0 ==> !text::whitespace(address[0]) && !text::whitespace(address.last())
            && address.last() != '/',
    ensures
        address.len() > 0 ==> base_of(cfg) == address,
        address.len() == 0 ==> base_of(cfg) == default_url(cfg.provider@),
        base_of(cfg).is_prefix_of(endpoint_of(cfg)),
        endpoint_of(cfg).skip(base_of(cfg).len() as int) == (if cfg.provider@ == "openai"@
            || cfg.provider@ == "openrouter"@ {
            "/chat/completions"@
        } else {
            "/v1/messages"@
        }),
{
    let run = Seq::new(slashes, |i: int| '/');
    let core = address + run;
    text::law_trimming_ignores_whitespace(before, core, behind);
    if core.len() > 0 {
        assert(!text::whitespace(core[0]));
        assert(!text::whitespace(core.last()));
        assert(text::trimmed(core) == core);
    } else {
        assert(text::trimmed(core) =~= core);
    }
    text::law_trimming_a_character(address, '/', slashes);
    if address.len() == 0 {
        assert(text::trim_end_char(address, '/') =~= address);
    }
    assert(endpoint_of(cfg).skip(base_of(cfg).len() as int) =~= (if speaks_openai(cfg.provider@) {
        "/chat/completions"@
    } else {
        "/v1/messages"@
    }));
}

/// A provider that is none of the three known by name is found where the nameless
/// one is, and spoken to in the same form.
pub proof fn law_unknown_providers(provider: Seq<char>)
    requires
        provider != "anthropic"@,
        provider != "openai"@,
        provider != "openrouter"@,
    ensures
        default_url(provider) == "https://api.z.ai/api/anthropic"@,
        !speaks_openai(provider),
        !speaks_openai("anthropic"@),
{
    reveal_strlit("anthropic");
    assert("anthropic"@.len() == 9);
    reveal_strlit("openai");
    assert("openai"@.len() == 6);
    reveal_strlit("openrouter");
    assert("openrouter"@.len() == 10);
}

/// The key is sent whole and once, alone under its own header to Anthropic and as a
/// bearer token to everyone else.
pub proof fn law_key_is_sent(cfg: AgentConfig)
    ensures
        ({
            let bearer = ("authorization"@, "Bearer "@ + cfg.api_key@);
            let h = anthropic_header_views(cfg);
            let o = openai_header_views(cfg);
            &&& h.len() == 2
            &&& cfg.provider@ == "anthropic"@ ==> h.contains(("x-api-key"@, cfg.api_key@))
            &&& cfg.provider@ != "anthropic"@ ==> h.contains(bearer)
            &&& h.contains(("anthropic-version"@, "2023-06-01"@))
            &&& o.contains(bearer)
            &&& cfg.provider@ != "openrouter"@ ==> o.len() == 1
            &&& cfg.provider@ == "openrouter"@ ==> o.len() == 3 && o.contains(
                ("x-title"@, "Bit"@),
            )
        }),
{
    let h = anthropic_header_views(cfg);
    let o = openai_header_views(cfg);
    assert(h[0] == h[0] && h[1] == h[1]);
    assert(o[0] == ("authorization"@, "Bearer "@ + cfg.api_key@));
    if cfg.provider@ == "openrouter"@ {
        assert(o[2] == ("x-title"@, "Bit"@));
    }
}

/// A request gives the value that its reply holds; whatever went wrong is told in
/// full.
pub proof fn law_failures_are_told(
    r: HttpReply,
    parsed: Result<JsonView, Seq<char>>,
)
    ensures
        posted(r, parsed) is Ok <==> r is Body && parsed is Ok,
        posted(r, parsed) matches Ok(v) ==> parsed == Ok::<JsonView, Seq<char>>(v),
        posted(r, parsed) matches Err(told) ==> (match r {
            HttpReply::Body(_) => parsed->Err_0.is_suffix_of(told),
            HttpReply::Unreadable(e) => e@.is_suffix_of(told),
            HttpReply::Status { code, body } => body@.is_suffix_of(told) && text::contained(
                told,
                text::decimal(code as nat),
            ),
            HttpReply::Failed(e) => told == e@,
        }),
{
    match r {
        HttpReply::Status { code, body } => {
            text::law_found_within("HTTP "@, text::decimal(code as nat), ": "@ + body@);
            assert("HTTP "@ + text::decimal(code as nat) + ": "@ + body@ =~= "HTTP "@
                + text::decimal(code as nat) + (": "@ + body@));
        },
        _ => {},
    }
}

/// The line of a workflow that comes last stands last, and nothing stands behind its
/// name, or its trigger phrases where it has any.
pub proof fn law_told_workflows_end_with_the_last(all: Seq<Workflow>, w: Workflow)
    requires
        w.enabled,
    ensures
        ({
            let name = "\n- \""@ + w.name@ + "\""@;
            let phrases = " — triggers: "@ + text::joined_with(
                text::views(w.trigger_phrases@),
                ", "@,
            );
            let line = if w.trigger_phrases@.len() == 0 {
                name
            } else {
                name + phrases
            };
            &&& line.is_suffix_of(told_of(all.push(w)))
            &&& workflow_lines(all.push(w)).len() == workflow_lines(all).len() + line.len()
        }),
{
    let more = all.push(w);
    assert(more.drop_last() =~= all);
    assert(more.last() == w && more[all.len() as int] == w);
    let name = "\n- \""@ + w.name@ + "\""@;
    let phrases = " — triggers: "@ + text::joined_with(text::views(w.trigger_phrases@), ", "@);
    let line = if w.trigger_phrases@.len() == 0 {
        name
    } else {
        name + phrases
    };
    assert(workflow_line(w) =~= line);
    let intro = "\n\nSaved workflows you can run (call run_workflow with the exact name):"@;
    assert(told_of(more) =~= (intro + workflow_lines(all)) + line);
}

} // verus!
