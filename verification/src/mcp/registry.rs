//! What is known of each MCP server that was talked to: the tools of one that is
//! connected, or why it is not.
//!
//! A server keeps its slot for as long as the program runs, so one that is connected
//! stays connected from call to call. A call that fails turns its server's slot into
//! an error, and the next use connects anew.

use crate::json;
use crate::json::{Json, JsonView};
use crate::mcp;
use crate::mcp::McpServer;
use crate::text;
use vstd::prelude::*;
use vstd::string::*;

verus! {

/// The state of one server.
#[derive(Debug)]
pub enum Slot {
    /// Connected, with the tools that it offers.
    Connected(Vec<Json>),
    /// Not connected, and why.
    Error(String),
}

pub enum SlotView {
    Connected(Seq<JsonView>),
    Error(Seq<char>),
}

impl View for Slot {
    type V = SlotView;

    open spec fn view(&self) -> SlotView {
        match *self {
            Slot::Connected(tools) => SlotView::Connected(json::json_views(tools@)),
            Slot::Error(e) => SlotView::Error(e@),
        }
    }
}

/// What a list of slots says of each name: what the first slot of that name holds.
pub open spec fn by_name(slots: Seq<(String, Slot)>) -> Map<Seq<char>, SlotView>
    decreases slots.len(),
{
    if slots.len() == 0 {
        Map::empty()
    } else {
        let before = by_name(slots.drop_last());
        if before.dom().contains(slots.last().0@) {
            before
        } else {
            before.insert(slots.last().0@, slots.last().1@)
        }
    }
}

/// The state of a server that was never connected.
pub open spec fn untried() -> SlotView {
    SlotView::Error("not connected yet"@)
}

/// The state after the slot of a server was asked for: one is made where there was
/// none.
pub open spec fn with_slot(slots: Map<Seq<char>, SlotView>, name: Seq<char>) -> Map<
    Seq<char>,
    SlotView,
> {
    if slots.dom().contains(name) {
        slots
    } else {
        slots.insert(name, untried())
    }
}

/// The tools of a server, where it is connected.
pub open spec fn tools_of(slots: Map<Seq<char>, SlotView>, name: Seq<char>) -> Option<
    Seq<JsonView>,
> {
    if slots.dom().contains(name) {
        match slots[name] {
            SlotView::Connected(tools) => Some(tools),
            SlotView::Error(_) => None,
        }
    } else {
        None
    }
}

/// Why a server is not connected, where that is known.
pub open spec fn error_of(slots: Map<Seq<char>, SlotView>, name: Seq<char>) -> Option<Seq<char>> {
    if slots.dom().contains(name) {
        match slots[name] {
            SlotView::Connected(_) => None,
            SlotView::Error(e) => Some(e),
        }
    } else {
        None
    }
}

/// The state that an attempt to connect leaves.
pub open spec fn attempted(outcome: Result<Vec<Json>, String>) -> SlotView {
    match outcome {
        Ok(tools) => SlotView::Connected(json::json_views(tools@)),
        Err(e) => SlotView::Error(e@),
    }
}

/// The state that a call of a tool leaves: an error, where it failed.
pub open spec fn after_call(
    slots: Map<Seq<char>, SlotView>,
    name: Seq<char>,
    reply: Result<Json, String>,
) -> Map<Seq<char>, SlotView> {
    match reply {
        Ok(_) => slots,
        Err(e) => slots.insert(name, SlotView::Error(e@)),
    }
}

proof fn lemma_absent(slots: Seq<(String, Slot)>, name: Seq<char>)
    requires
        forall|j: int| 0 <= j < slots.len() ==> (#[trigger] slots[j]).0@ != name,
    ensures
        !by_name(slots).dom().contains(name),
    decreases slots.len(),
{
    if slots.len() > 0 {
        lemma_absent(slots.drop_last(), name);
    }
}

proof fn lemma_first(slots: Seq<(String, Slot)>, i: int)
    requires
        0 <= i < slots.len(),
        forall|j: int| 0 <= j < i ==> (#[trigger] slots[j]).0@ != slots[i].0@,
    ensures
        by_name(slots).dom().contains(slots[i].0@),
        by_name(slots)[slots[i].0@] == slots[i].1@,
    decreases slots.len(),
{
    if i == slots.len() - 1 {
        lemma_absent(slots.drop_last(), slots[i].0@);
    } else {
        lemma_first(slots.drop_last(), i);
    }
}

proof fn lemma_update(slots: Seq<(String, Slot)>, i: int, entry: (String, Slot))
    requires
        0 <= i < slots.len(),
        forall|j: int| 0 <= j < i ==> (#[trigger] slots[j]).0@ != slots[i].0@,
        entry.0@ == slots[i].0@,
    ensures
        by_name(slots.update(i, entry)) == by_name(slots).insert(entry.0@, entry.1@),
    decreases slots.len(),
{
    let rest = slots.drop_last();
    if i == slots.len() - 1 {
        lemma_absent(rest, entry.0@);
        assert(slots.update(i, entry).drop_last() =~= rest);
    } else {
        lemma_update(rest, i, entry);
        lemma_first(rest, i);
        assert(slots.update(i, entry).drop_last() =~= rest.update(i, entry));
    }
    assert(by_name(slots.update(i, entry)) =~= by_name(slots).insert(entry.0@, entry.1@));
}

/// Has the slot another name?
pub open spec fn other_than(name: Seq<char>) -> spec_fn((String, Slot)) -> bool {
    |e: (String, Slot)| e.0@ != name
}

proof fn lemma_without(slots: Seq<(String, Slot)>, name: Seq<char>)
    ensures
        by_name(slots.filter(other_than(name))) == by_name(slots).remove(name),
    decreases slots.len(),
{
    reveal(Seq::filter);
    let keep = other_than(name);
    if slots.len() > 0 {
        lemma_without(slots.drop_last(), name);
        let kept = slots.drop_last().filter(keep);
        assert(kept.push(slots.last()).drop_last() =~= kept);
    }
    assert(by_name(slots.filter(keep)) =~= by_name(slots).remove(name));
}

/// The servers' states, by name.
pub struct Registry {
    slots: Vec<(String, Slot)>,
}

impl View for Registry {
    type V = Map<Seq<char>, SlotView>;

    closed spec fn view(&self) -> Map<Seq<char>, SlotView> {
        by_name(self.slots@)
    }
}

impl Registry {
    /// A registry that knows of no server.
    pub fn new() -> (r: Self)
        ensures
            r@ == Map::<Seq<char>, SlotView>::empty(),
    {
        Registry { slots: Vec::new() }
    }

    fn position(&self, name: &str) -> (r: Option<usize>)
        ensures
            match r {
                Some(i) => {
                    &&& i < self.slots@.len()
                    &&& self.slots@[i as int].0@ == name@
                    &&& forall|j: int| 0 <= j < i ==> (#[trigger] self.slots@[j]).0@ != name@
                    &&& self@.dom().contains(name@)
                    &&& self@[name@] == self.slots@[i as int].1@
                },
                None => {
                    &&& forall|j: int|
                        0 <= j < self.slots@.len() ==> (#[trigger] self.slots@[j]).0@ != name@
                    &&& !self@.dom().contains(name@)
                },
            },
    {
        let mut i: usize = 0;
        while i < self.slots.len()
            invariant
                i <= self.slots@.len(),
                forall|j: int| 0 <= j < i ==> (#[trigger] self.slots@[j]).0@ != name@,
            decreases self.slots@.len() - i,
        {
            if text::same(self.slots[i].0.as_str(), name) {
                proof {
                    lemma_first(self.slots@, i as int);
                }
                return Some(i);
            }
            i = i + 1;
        }
        proof {
            lemma_absent(self.slots@, name@);
        }
        None
    }

    fn put(&mut self, name: &str, slot: Slot)
        ensures
            final(self)@ == old(self)@.insert(name@, slot@),
    {
        let ghost before = self.slots@;
        match self.position(name) {
            Some(i) => {
                let entry = (name.to_owned(), slot);
                proof {
                    lemma_update(before, i as int, entry);
                }
                self.slots.set(i, entry);
            },
            None => {
                let entry = (name.to_owned(), slot);
                assert(before.push(entry).drop_last() =~= before);
                self.slots.push(entry);
            },
        }
    }

    /// Make sure that a server has a slot.
    fn slot(&mut self, name: &str)
        ensures
            final(self)@ == with_slot(old(self)@, name@),
    {
        match self.position(name) {
            Some(_) => {},
            None => {
                self.put(name, Slot::Error("not connected yet".to_owned()));
            },
        }
    }

    /// Forget a server, so that its next use connects with fresh settings.
    pub fn invalidate(&mut self, name: &str)
        ensures
            final(self)@ == old(self)@.remove(name@),
    {
        let mut slots: Vec<(String, Slot)> = Vec::new();
        std::mem::swap(&mut slots, &mut self.slots);
        let ghost given = slots@;
        let ghost keep = other_than(name@);
        let mut kept: Vec<(String, Slot)> = Vec::new();
        proof {
            reveal(Seq::filter);
            assert(given.take(0).filter(keep) =~= Seq::empty());
        }
        for e in it: slots
            invariant
                it.seq() == given,
                keep == other_than(name@),
                kept@ == given.take(it.index() as int).filter(keep),
        {
            proof {
                reveal(Seq::filter);
                assert(given.take(it.index() + 1).drop_last() =~= given.take(it.index() as int));
                assert(given.take(it.index() + 1).last() == given[it.index() as int]);
            }
            if !text::same(e.0.as_str(), name) {
                kept.push(e);
            }
        }
        proof {
            assert(given.take(given.len() as int) =~= given);
            lemma_without(given, name@);
        }
        self.slots = kept;
    }

    /// The tools of a server that is connected; nothing where the server has to be
    /// connected first, and `connected` then told how that went.
    pub fn ensure(&mut self, name: &str) -> (r: Option<Vec<Json>>)
        ensures
            final(self)@ == with_slot(old(self)@, name@),
            match r {
                Some(tools) => tools_of(old(self)@, name@) == Some(json::json_views(tools@)),
                None => tools_of(old(self)@, name@) is None,
            },
    {
        self.slot(name);
        match self.position(name) {
            Some(i) => match &self.slots[i].1 {
                Slot::Connected(tools) => Some(json::clone_all(tools)),
                Slot::Error(_) => None,
            },
            None => None,
        }
    }

    /// Note how an attempt to connect to a server went, and pass it on.
    pub fn connected(&mut self, name: &str, outcome: Result<Vec<Json>, String>) -> (r: Result<
        Vec<Json>,
        String,
    >)
        ensures
            final(self)@ == old(self)@.insert(name@, attempted(outcome)),
            attempted(r) == attempted(outcome),
    {
        match outcome {
            Ok(tools) => {
                self.put(name, Slot::Connected(json::clone_all(&tools)));
                Ok(tools)
            },
            Err(e) => {
                self.put(name, Slot::Error(e.clone()));
                Err(e)
            },
        }
    }

    /// How many tools a connected server has; none where it is not connected.
    pub fn tool_count(&mut self, name: &str) -> (r: usize)
        ensures
            final(self)@ == with_slot(old(self)@, name@),
            r == (match tools_of(old(self)@, name@) {
                Some(tools) => tools.len(),
                None => 0,
            }),
    {
        self.slot(name);
        match self.position(name) {
            Some(i) => match &self.slots[i].1 {
                Slot::Connected(tools) => tools.len(),
                Slot::Error(_) => 0,
            },
            None => 0,
        }
    }

    /// Is the server connected?
    pub fn is_connected(&self, name: &str) -> (r: bool)
        ensures
            r == (tools_of(self@, name@) is Some),
    {
        match self.position(name) {
            Some(i) => match &self.slots[i].1 {
                Slot::Connected(_) => true,
                Slot::Error(_) => false,
            },
            None => false,
        }
    }

    /// Why the server is not connected, if that is known.
    pub fn last_error(&self, name: &str) -> (r: Option<String>)
        ensures
            text::opt_view(r) == error_of(self@, name@),
    {
        match self.position(name) {
            Some(i) => match &self.slots[i].1 {
                Slot::Connected(_) => None,
                Slot::Error(e) => Some(e.clone()),
            },
            None => None,
        }
    }

    /// What a call of a tool gives for the server's reply: its readable text, or the
    /// error, which also ends the connection.
    pub fn call_tool(&mut self, name: &str, reply: Result<Json, String>) -> (r: Result<
        String,
        String,
    >)
        ensures
            final(self)@ == after_call(old(self)@, name@, reply),
            mcp::call_gives(json::read_view(reply), crate::workflows::result_view(r)),
    {
        match reply {
            Ok(result) => Ok(mcp::flatten_mcp_content(&result)),
            Err(e) => {
                self.put(name, Slot::Error(e.clone()));
                Err(e)
            },
        }
    }
}

/// What an attempt to connect found is what the registry then says of the server,
/// and it says of the others what it said before.
pub proof fn law_attempts_are_remembered(
    slots: Map<Seq<char>, SlotView>,
    name: Seq<char>,
    outcome: Result<Vec<Json>, String>,
    other: Seq<char>,
)
    ensures
        tools_of(slots.insert(name, attempted(outcome)), name) == (match outcome {
            Ok(tools) => Some(json::json_views(tools@)),
            Err(_) => None,
        }),
        error_of(slots.insert(name, attempted(outcome)), name) == (match outcome {
            Ok(_) => None,
            Err(e) => Some(e@),
        }),
        other != name ==> tools_of(slots.insert(name, attempted(outcome)), other) == tools_of(
            slots,
            other,
        ) && error_of(slots.insert(name, attempted(outcome)), other) == error_of(slots, other),
{
}

/// What a whole call of a tool comes to: the server is connected first where it is not,
/// which ends with `attempt`, and then the tool is called, which ends with `reply`. Gives
/// the state after it, and the error where it failed.
pub open spec fn whole_call(
    slots: Map<Seq<char>, SlotView>,
    name: Seq<char>,
    attempt: Result<Vec<Json>, String>,
    reply: Result<Json, String>,
) -> (Map<Seq<char>, SlotView>, Option<Seq<char>>) {
    let asked = with_slot(slots, name);
    let tried = if tools_of(slots, name) is Some {
        asked
    } else {
        asked.insert(name, attempted(attempt))
    };
    match (error_of(tried, name), reply) {
        (Some(e), _) => (tried, Some(e)),
        (None, Ok(_)) => (after_call(tried, name, reply), None),
        (None, Err(e)) => (after_call(tried, name, reply), Some(e@)),
    }
}

/// A whole call that fails, in connecting or in the call itself, leaves its server
/// disconnected with that error, so that the next use connects anew; one that succeeds
/// leaves it connected and without an error. Other servers are as they were.
pub proof fn law_whole_calls(
    slots: Map<Seq<char>, SlotView>,
    name: Seq<char>,
    attempt: Result<Vec<Json>, String>,
    reply: Result<Json, String>,
    other: Seq<char>,
)
    ensures
        ({
            let (after, failure) = whole_call(slots, name, attempt, reply);
            &&& failure matches Some(e) ==> tools_of(after, name) is None && error_of(after, name)
                == Some(e)
            &&& failure is None ==> tools_of(after, name) is Some && error_of(after, name) is None
            &&& failure is None <==> (tools_of(slots, name) is Some || attempt is Ok) && reply is Ok
            &&& other != name ==> after.dom().contains(other) == slots.dom().contains(other)
                && after[other] == slots[other]
        }),
{
}

/// A server that is connected stays connected while its calls succeed; once a call
/// fails it has to be connected anew, and the failure is the error it is known by. A
/// call says nothing of other servers.
pub proof fn law_failed_call_disconnects(
    slots: Map<Seq<char>, SlotView>,
    name: Seq<char>,
    reply: Result<Json, String>,
    other: Seq<char>,
)
    ensures
        reply is Ok ==> tools_of(after_call(slots, name, reply), name) == tools_of(slots, name),
        reply matches Err(e) ==> {
            &&& tools_of(after_call(slots, name, reply), name) is None
            &&& error_of(after_call(slots, name, reply), name) == Some(e@)
        },
        other != name ==> tools_of(after_call(slots, name, reply), other) == tools_of(slots, other),
{
}

/// A server that was forgotten is neither connected nor in error, its next use finds
/// it untried, and the others are as they were.
pub proof fn law_forgetting(slots: Map<Seq<char>, SlotView>, name: Seq<char>, other: Seq<char>)
    ensures
        tools_of(slots.remove(name), name) is None,
        error_of(slots.remove(name), name) is None,
        error_of(with_slot(slots.remove(name), name), name) == Some("not connected yet"@),
        other != name ==> tools_of(slots.remove(name), other) == tools_of(slots, other)
            && error_of(slots.remove(name), other) == error_of(slots, other),
{
}

/// A server as it is shown, with what is known of its connection.
#[derive(Debug)]
pub struct McpServerView {
    pub server: McpServer,
    pub connected: bool,
    pub tool_count: usize,
    pub error: Option<String>,
}

/// Is this how the server is shown?
pub open spec fn shows(
    v: McpServerView,
    server: McpServer,
    slots: Map<Seq<char>, SlotView>,
) -> bool {
    &&& v.server == server
    &&& v.connected == (tools_of(slots, server.name@) is Some)
    &&& v.tool_count == (match tools_of(slots, server.name@) {
        Some(tools) => tools.len(),
        None => 0,
    })
    &&& text::opt_view(v.error) == error_of(slots, server.name@)
}

/// The servers as they are shown. Looking changes nothing.
pub fn get_mcp_servers(servers: Vec<McpServer>, registry: &mut Registry) -> (r: Vec<McpServerView>)
    ensures
        final(registry)@ == old(registry)@,
        r@.len() == servers@.len(),
        forall|i: int|
            0 <= i < r@.len() ==> shows(#[trigger] r@[i], servers@[i], old(registry)@),
{
    let ghost given = servers@;
    let mut out: Vec<McpServerView> = Vec::new();
    for server in it: servers
        invariant
            it.seq() == given,
            registry@ == old(registry)@,
            out@.len() == it.index(),
            forall|i: int|
                0 <= i < it.index() ==> shows(#[trigger] out@[i], given[i], old(registry)@),
    {
        let connected = registry.is_connected(server.name.as_str());
        let tool_count = if connected {
            registry.tool_count(server.name.as_str())
        } else {
            0
        };
        let error = registry.last_error(server.name.as_str());
        out.push(McpServerView { server, connected, tool_count, error });
    }
    out
}

/// What is shown of a server is what the last attempt to connect to it found: that it is
/// connected, and how many tools it has, or why it is not; and one that was never tried
/// is shown as neither connected nor in error.
pub proof fn law_servers_are_shown_as_they_are(
    v: McpServerView,
    server: McpServer,
    slots: Map<Seq<char>, SlotView>,
    outcome: Result<Vec<Json>, String>,
)
    ensures
        shows(v, server, slots.insert(server.name@, attempted(outcome))) ==> {
            &&& v.server == server
            &&& v.connected <==> outcome is Ok
            &&& outcome matches Ok(tools) ==> v.tool_count == tools@.len() && v.error is None
            &&& outcome matches Err(e) ==> v.tool_count == 0 && (v.error matches Some(told)
                && told@ == e@)
        },
        shows(v, server, slots.remove(server.name@)) ==> !v.connected && v.tool_count == 0
            && v.error is None,
{
}

/// Asking for a server's slot makes one, where there is none, that is not connected yet;
/// it changes no slot that is there.
pub proof fn law_slots_are_kept(
    slots: Map<Seq<char>, SlotView>,
    name: Seq<char>,
    other: Seq<char>,
)
    ensures
        with_slot(slots, name).dom().contains(name),
        slots.dom().contains(other) ==> with_slot(slots, name).dom().contains(other) && with_slot(
            slots,
            name,
        )[other] == slots[other],
        other != name && !slots.dom().contains(other) ==> !with_slot(slots, name).dom().contains(
            other,
        ),
        tools_of(with_slot(slots, name), name) == tools_of(slots, name),
        with_slot(with_slot(slots, name), name) == with_slot(slots, name),
{
}

} // verus!
