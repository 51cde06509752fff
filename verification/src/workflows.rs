//! Named multi-step workflows: how they are kept, found and run.

use crate::paths;
use crate::roster;
use crate::text;
use crate::tools;
use vstd::prelude::*;
use vstd::string::*;

verus! {

/// One step of a workflow.
#[derive(Debug, Clone, PartialEq)]
pub enum Step {
    Shell { command: String },
    OpenApp { name: String },
    OpenUrl { url: String },
    AppleScript { script: String },
    /// Open one Ghostty window with these tabs.
    Ghostty { tabs: Vec<GhosttyTab> },
    /// Turn Do Not Disturb on or off.
    Focus { enabled: bool },
    /// Pause between steps.
    Delay { ms: u64 },
}

#[derive(Debug, Clone, PartialEq)]
pub struct GhosttyTab {
    /// Working directory for the tab (supports a leading `~`).
    pub dir: String,
    /// Optional command to run on open.
    pub command: Option<String>,
    /// Optional human label.
    pub title: Option<String>,
}

#[derive(Debug, Clone, PartialEq)]
pub struct Workflow {
    pub id: String,
    pub name: String,
    pub trigger_phrases: Vec<String>,
    pub enabled: bool,
    pub steps: Vec<Step>,
}

/// A workflow that does not say whether it is enabled is enabled.
pub fn default_true() -> (r: bool)
    ensures
        r,
{
    true
}

/// What a step is called in messages.
pub open spec fn kind(s: Step) -> Seq<char> {
    match s {
        Step::Shell { .. } => "shell"@,
        Step::OpenApp { .. } => "open_app"@,
        Step::OpenUrl { .. } => "open_url"@,
        Step::AppleScript { .. } => "applescript"@,
        Step::Ghostty { .. } => "ghostty"@,
        Step::Focus { .. } => "focus"@,
        Step::Delay { .. } => "delay"@,
    }
}

pub fn step_kind(s: &Step) -> (r: &'static str)
    ensures
        r@ == kind(*s),
{
    match s {
        Step::Shell { .. } => "shell",
        Step::OpenApp { .. } => "open_app",
        Step::OpenUrl { .. } => "open_url",
        Step::AppleScript { .. } => "applescript",
        Step::Ghostty { .. } => "ghostty",
        Step::Focus { .. } => "focus",
        Step::Delay { .. } => "delay",
    }
}

// ---- storage ----

/// Where the workflows are kept.
pub fn store_path(config_dir: &str) -> (r: String)
    ensures
        r@ == paths::below(config_dir@, "workflows.json"@),
{
    paths::join(config_dir, "workflows.json")
}

/// The workflows to work with: those that could be read, or else none.
pub fn load_all(stored: Option<Vec<Workflow>>) -> (r: Vec<Workflow>)
    ensures
        r@ == (match stored {
            Some(all) => all@,
            None => Seq::empty(),
        }),
{
    match stored {
        Some(all) => all,
        None => Vec::new(),
    }
}

/// The names of the workflows, in order.
pub open spec fn names(all: Seq<Workflow>) -> Seq<Seq<char>> {
    all.map_values(|w: Workflow| w.name@)
}

/// A lower-case name with a hyphen in place of whatever is no letter or digit.
pub open spec fn slugged(lower: Seq<char>) -> Seq<char> {
    lower.map_values(
        |c: char|
            if text::alphanumeric(c) {
                c
            } else {
                '-'
            },
    )
}

/// Without the hyphens at either end.
pub open spec fn unhyphened(s: Seq<char>) -> Seq<char> {
    text::trim_end_char(text::trim_start_char(s, '-'), '-')
}

/// The slug of a name that is in lower case already.
pub fn slug(lower: &str) -> (r: String)
    ensures
        r@ == unhyphened(slugged(lower@)),
{
    let cs = text::chars_of(lower);
    let mut out = String::new();
    for i in 0..cs.len()
        invariant
            cs@ == lower@,
            out@ == slugged(cs@).take(i as int),
    {
        let c = if cs[i].is_alphanumeric() {
            cs[i]
        } else {
            '-'
        };
        out.push(c);
        assert(slugged(cs@).take(i + 1) =~= slugged(cs@).take(i as int).push(c));
    }
    assert(slugged(cs@).take(cs@.len() as int) =~= slugged(cs@));
    let head = text::trim_start_matches(out.as_str(), '-');
    text::trim_end_matches(head.as_str(), '-')
}

/// The id that a workflow of this name gets at this time.
pub open spec fn fresh_id(name: Seq<char>, nanos: u128) -> Seq<char> {
    unhyphened(slugged(text::lowercase(name))) + "-"@ + text::decimal(nanos as nat)
}

/// A stable-ish id from the name and the time, in nanoseconds since the epoch.
pub fn new_id(name: &str, nanos: u128) -> (r: String)
    ensures
        r@ == fresh_id(name@, nanos),
{
    let lower = text::to_lowercase(name);
    let mut out = slug(lower.as_str());
    out.append("-");
    let time = text::u128_text(nanos);
    out.append(time.as_str());
    out
}

/// The first workflow with the given name, whatever the case of its letters.
fn position_of(all: &Vec<Workflow>, name: &str) -> (r: Option<usize>)
    ensures
        match r {
            Some(i) => roster::place(names(all@), name@) == Some(i as int) && i < all@.len(),
            None => roster::place(names(all@), name@) is None,
        },
{
    let mut i: usize = 0;
    while i < all.len()
        invariant
            i <= all@.len(),
            roster::place(names(all@), name@) == roster::place_from(names(all@), name@, i as int),
        decreases all@.len() - i,
    {
        assert(names(all@)[i as int] == all@[i as int].name@);
        if text::eq_ignore_ascii_case(all[i].name.as_str(), name) {
            return Some(i);
        }
        i = i + 1;
    }
    None
}

/// Is `after` what the list becomes when a workflow is saved at this time? A
/// workflow of the same name, whatever the case of its letters, is replaced where
/// it stands and hands its id on; otherwise the new one goes to the end, and gets
/// an id where it has none.
pub open spec fn saved(
    before: Seq<Workflow>,
    wf: Workflow,
    nanos: u128,
    after: Seq<Workflow>,
    at: int,
) -> bool {
    match roster::place(names(before), wf.name@) {
        Some(i) => {
            &&& at == i
            &&& after == before.update(i, Workflow { id: before[i].id, ..wf })
        },
        None => {
            &&& at == before.len()
            &&& after.len() == before.len() + 1
            &&& after.drop_last() == before
            &&& if wf.id@.len() > 0 {
                after.last() == wf
            } else {
                &&& after.last() == Workflow { id: after.last().id, ..wf }
                &&& after.last().id@ == fresh_id(wf.name@, nanos)
            }
        },
    }
}

/// Create or update a workflow. Gives the new list and the place of the workflow
/// in it.
pub fn upsert(all: Vec<Workflow>, wf: Workflow, nanos: u128) -> (r: (Vec<Workflow>, usize))
    ensures
        saved(all@, wf, nanos, r.0@, r.1 as int),
        r.1 < r.0@.len(),
{
    let ghost before = all@;
    let ghost given = wf;
    let mut all = all;
    let mut wf = wf;
    match position_of(&all, wf.name.as_str()) {
        Some(i) => {
            wf.id = all[i].id.clone();
            all.set(i, wf);
            (all, i)
        },
        None => {
            if wf.id.as_str().is_empty() {
                wf.id = new_id(wf.name.as_str(), nanos);
            }
            let at = all.len();
            all.push(wf);
            assert(all@.drop_last() =~= before);
            (all, at)
        },
    }
}

/// Does deleting by this name, or id, leave the workflow alone?
pub open spec fn survives(w: Workflow, name: Seq<char>) -> bool {
    !text::eq_ignore_case(w.name@, name) && w.id@ != name
}

/// The workflows that deleting by this name, or id, leaves.
pub open spec fn remaining(all: Seq<Workflow>, name: Seq<char>) -> Seq<Workflow> {
    all.filter(|w: Workflow| survives(w, name))
}

/// Delete the workflows with the given name, whatever the case of its letters, or
/// with the given id.
pub fn delete(all: Vec<Workflow>, name: &str) -> (r: Result<Vec<Workflow>, String>)
    ensures
        match r {
            Ok(kept) => kept@ == remaining(all@, name@) && exists|i: int|
                0 <= i < all@.len() && !survives(#[trigger] all@[i], name@),
            Err(e) => {
                &&& forall|i: int| 0 <= i < all@.len() ==> survives(#[trigger] all@[i], name@)
                &&& e@ == "no workflow named '"@ + name@ + "'"@
            },
        },
{
    let ghost given = all@;
    let ghost keep = |w: Workflow| survives(w, name@);
    let before = all.len();
    let mut kept: Vec<Workflow> = Vec::new();
    proof {
        reveal(Seq::filter);
        assert(given.take(0).filter(keep) =~= Seq::empty());
    }
    for w in it: all
        invariant
            it.seq() == given,
            keep == (|w: Workflow| survives(w, name@)),
            kept@ == given.take(it.index() as int).filter(keep),
            kept@.len() <= it.index(),
            kept@.len() == it.index() ==> forall|i: int|
                0 <= i < it.index() ==> survives(#[trigger] given[i], name@),
            kept@.len() < it.index() ==> exists|i: int|
                0 <= i < it.index() && !survives(#[trigger] given[i], name@),
    {
        proof {
            reveal(Seq::filter);
            assert(given.take(it.index() + 1).drop_last() =~= given.take(it.index() as int));
            assert(given.take(it.index() + 1).last() == given[it.index() as int]);
        }
        if !text::eq_ignore_ascii_case(w.name.as_str(), name) && !text::same(
            w.id.as_str(),
            name,
        ) {
            kept.push(w);
        }
    }
    assert(given.take(given.len() as int) =~= given);
    if kept.len() == before {
        Err(not_found(name))
    } else {
        Ok(kept)
    }
}

/// Does the workflow's name, in lower case, contain the lower-case query?
pub open spec fn loosely(w: Workflow, query: Seq<char>) -> bool {
    text::contained(text::lowercase(w.name@), query)
}

/// Is `r` the place of the workflow that a name leads to: the first with that
/// name, whatever the case of its letters, or else the first whose name contains
/// it?
pub open spec fn found(all: Seq<Workflow>, name: Seq<char>, r: Option<int>) -> bool {
    match roster::place(names(all), name) {
        Some(i) => r == Some(i),
        None => match r {
            Some(i) => {
                &&& 0 <= i < all.len()
                &&& loosely(all[i], text::lowercase(name))
                &&& forall|j: int| 0 <= j < i ==> !loosely(#[trigger] all[j], text::lowercase(name))
            },
            None => forall|j: int|
                0 <= j < all.len() ==> !loosely(#[trigger] all[j], text::lowercase(name)),
        },
    }
}

/// The place of the workflow that a name leads to.
pub fn find(all: &Vec<Workflow>, name: &str) -> (r: Option<usize>)
    ensures
        found(
            all@,
            name@,
            match r {
                Some(i) => Some(i as int),
                None => None,
            },
        ),
        r matches Some(i) ==> i < all@.len(),
{
    match position_of(all, name) {
        Some(i) => {
            return Some(i);
        },
        None => {},
    }
    let q = text::to_lowercase(name);
    for i in 0..all.len()
        invariant
            q@ == text::lowercase(name@),
            roster::place(names(all@), name@) is None,
            forall|j: int| 0 <= j < i ==> !loosely(#[trigger] all@[j], text::lowercase(name@)),
    {
        let lower = text::to_lowercase(all[i].name.as_str());
        if text::contains(lower.as_str(), q.as_str()) {
            return Some(i);
        }
    }
    None
}

/// What is said when no workflow is found.
pub fn not_found(name: &str) -> (r: String)
    ensures
        r@ == "no workflow named '"@ + name@ + "'"@,
{
    let mut e = "no workflow named '".to_owned();
    e.append(name);
    e.append("'");
    e
}

proof fn lemma_saved_place(
    before: Seq<Workflow>,
    wf: Workflow,
    nanos: u128,
    after: Seq<Workflow>,
    at: int,
)
    requires
        saved(before, wf, nanos, after, at),
    ensures
        0 <= at < after.len(),
        roster::place(names(after), wf.name@) == Some(at),
{
    roster::lemma_place(names(before), wf.name@);
    assert forall|j: int| 0 <= j < at implies !text::eq_ignore_case(
        #[trigger] names(after)[j],
        wf.name@,
    ) by {
        assert(names(after)[j] == names(before)[j]) by {
            if at == before.len() {
                assert(after.drop_last()[j] == before[j]);
            }
        }
    }
    assert(names(after)[at] == wf.name@);
    roster::lemma_place_is(names(after), wf.name@, at);
}

/// A saved workflow is the one that its name leads to.
pub proof fn law_saved_is_found(
    before: Seq<Workflow>,
    wf: Workflow,
    nanos: u128,
    after: Seq<Workflow>,
    at: int,
)
    requires
        saved(before, wf, nanos, after, at),
    ensures
        found(after, wf.name@, Some(at)),
        after[at] == (Workflow { id: after[at].id, ..wf }),
{
    lemma_saved_place(before, wf, nanos, after, at);
    roster::lemma_place(names(before), wf.name@);
}

/// Saving touches no other workflow, and a workflow that replaces another keeps
/// its id.
pub proof fn law_saving_keeps_the_rest(
    before: Seq<Workflow>,
    wf: Workflow,
    nanos: u128,
    after: Seq<Workflow>,
    at: int,
)
    requires
        saved(before, wf, nanos, after, at),
    ensures
        forall|j: int| 0 <= j < before.len() && j != at ==> #[trigger] after[j] == before[j],
        at < before.len() ==> after[at].id == before[at].id,
        after.len() == (if at < before.len() {
            before.len()
        } else {
            before.len() + 1
        }),
{
    roster::lemma_place(names(before), wf.name@);
    if at == before.len() {
        assert forall|j: int| 0 <= j < before.len() && j != at implies #[trigger] after[j]
            == before[j] by {
            assert(after.drop_last()[j] == before[j]);
        }
    }
}

/// Saving a workflow once more, at any time, changes nothing.
pub proof fn law_saving_is_idempotent(
    before: Seq<Workflow>,
    wf: Workflow,
    nanos: u128,
    after: Seq<Workflow>,
    at: int,
    later: u128,
    again: Seq<Workflow>,
    at_again: int,
)
    requires
        saved(before, wf, nanos, after, at),
        saved(after, wf, later, again, at_again),
    ensures
        at_again == at,
        again == after,
{
    lemma_saved_place(before, wf, nanos, after, at);
    law_saved_is_found(before, wf, nanos, after, at);
    assert(again =~= after);
}

/// Where no two workflows share a name, none do after saving one.
pub proof fn law_saving_keeps_names_distinct(
    before: Seq<Workflow>,
    wf: Workflow,
    nanos: u128,
    after: Seq<Workflow>,
    at: int,
)
    requires
        saved(before, wf, nanos, after, at),
        roster::distinct(names(before)),
    ensures
        roster::distinct(names(after)),
{
    roster::lemma_place(names(before), wf.name@);
    law_saving_keeps_the_rest(before, wf, nanos, after, at);
    assert(names(after)[at] == wf.name@);
    assert forall|i: int, j: int|
        0 <= i < j < names(after).len() implies !text::eq_ignore_case(
        #[trigger] names(after)[i],
        #[trigger] names(after)[j],
    ) by {
        if i != at {
            assert(names(after)[i] == names(before)[i]);
        }
        if j != at {
            assert(names(after)[j] == names(before)[j]);
        }
        if text::eq_ignore_case(names(after)[i], names(after)[j]) {
            if at < before.len() {
                if i == at {
                    roster::lemma_same_name(names(before)[at], names(before)[j], wf.name@);
                } else if j == at {
                    roster::lemma_same_name(names(before)[at], names(before)[i], wf.name@);
                }
            }
        }
    }
}

/// A deleted workflow is gone: nothing that is left has its name, whatever the
/// case of its letters, or its id; and everything else is left.
pub proof fn law_deleted_is_gone(all: Seq<Workflow>, name: Seq<char>)
    ensures
        forall|i: int|
            0 <= i < remaining(all, name).len() ==> survives(
                #[trigger] remaining(all, name)[i],
                name,
            ),
        forall|i: int|
            0 <= i < all.len() && survives(all[i], name) ==> remaining(all, name).contains(
                #[trigger] all[i],
            ),
        roster::place(names(remaining(all, name)), name) is None,
{
    let keep = |w: Workflow| survives(w, name);
    assert forall|i: int| 0 <= i < remaining(all, name).len() implies survives(
        #[trigger] remaining(all, name)[i],
        name,
    ) by {
        all.lemma_filter_pred(keep, i);
    }
    assert forall|i: int| 0 <= i < all.len() && survives(all[i], name) implies remaining(
        all,
        name,
    ).contains(#[trigger] all[i]) by {
        all.lemma_filter_contains(keep, i);
    }
    roster::lemma_place(names(remaining(all, name)), name);
    let p = roster::place(names(remaining(all, name)), name);
    if p is Some {
        assert(survives(remaining(all, name)[p->0], name));
    }
}

// ---- execution ----

/// What a step has done on the machine.
#[derive(Debug, PartialEq)]
pub enum StepAction {
    /// Run a program and look at its output.
    Run(tools::CommandLine),
    /// Turn Do Not Disturb on or off.
    Focus { enabled: bool },
    /// Open a Ghostty window with the tabs of this step.
    Ghostty,
    /// Wait this many milliseconds.
    Sleep { ms: u64 },
}

/// What comes next in a run.
#[derive(Debug, PartialEq)]
pub enum RunStep {
    /// Perform the action of the step at this place.
    Do { step: usize, action: StepAction },
    /// The run is over.
    Done(Result<String, String>),
}

/// Is `a` what the step has done?
pub open spec fn acts(s: Step, a: StepAction) -> bool {
    match s {
        Step::Shell { command } => a matches StepAction::Run(c) && c.runs(
            "zsh"@,
            seq!["-lc"@, command@],
        ),
        Step::OpenApp { name } => a matches StepAction::Run(c) && c.runs(
            "open"@,
            seq!["-a"@, name@],
        ),
        Step::OpenUrl { url } => a matches StepAction::Run(c) && c.runs("open"@, seq![url@]),
        Step::AppleScript { script } => a matches StepAction::Run(c) && c.runs(
            "osascript"@,
            seq!["-e"@, script@],
        ),
        Step::Ghostty { .. } => a == StepAction::Ghostty,
        Step::Focus { enabled } => a == (StepAction::Focus { enabled }),
        Step::Delay { ms } => a == (StepAction::Sleep { ms }),
    }
}

fn action_of(s: &Step) -> (r: StepAction)
    ensures
        acts(*s, r),
{
    match s {
        Step::Shell { command } => StepAction::Run(tools::run_shell(command.as_str())),
        Step::OpenApp { name } => StepAction::Run(tools::open_app(name.as_str())),
        Step::OpenUrl { url } => StepAction::Run(tools::open_url(url.as_str())),
        Step::AppleScript { script } => StepAction::Run(tools::run_applescript(script.as_str())),
        Step::Ghostty { .. } => StepAction::Ghostty,
        Step::Focus { enabled } => StepAction::Focus { enabled: *enabled },
        Step::Delay { ms } => StepAction::Sleep { ms: *ms },
    }
}

/// What is said when every step has succeeded.
pub open spec fn ran(wf: Workflow) -> Seq<char> {
    "ran workflow '"@ + wf.name@ + "' ("@ + text::decimal(wf.steps@.len()) + " steps)"@
}

/// What is said when the step at place `i` has failed.
pub open spec fn step_failed(wf: Workflow, i: int, e: Seq<char>) -> Seq<char> {
    "step "@ + text::decimal((i + 1) as nat) + " ("@ + kind(wf.steps@[i]) + ") failed: "@ + e
}

/// Is `r` what comes next when the first `i` steps have succeeded?
pub open spec fn continues(wf: Workflow, i: int, r: RunStep) -> bool {
    if i < wf.steps@.len() {
        r matches RunStep::Do { step, action } && step == i && acts(wf.steps@[i], action)
    } else {
        r matches RunStep::Done(Ok(s)) && s@ == ran(wf)
    }
}

/// Is `r` what comes next when the step at place `i` has ended with `result`?
pub open spec fn follows(
    wf: Workflow,
    i: int,
    result: Result<Seq<char>, Seq<char>>,
    r: RunStep,
) -> bool {
    match result {
        Ok(_) => continues(wf, i + 1, r),
        Err(e) => r matches RunStep::Done(Err(s)) && s@ == step_failed(wf, i, e),
    }
}

/// The view of what a step ended with.
pub open spec fn result_view(r: Result<String, String>) -> Result<Seq<char>, Seq<char>> {
    match r {
        Ok(s) => Ok(s@),
        Err(e) => Err(e@),
    }
}

fn continue_at(wf: &Workflow, i: usize) -> (r: RunStep)
    requires
        i <= wf.steps@.len(),
    ensures
        continues(*wf, i as int, r),
{
    if i < wf.steps.len() {
        RunStep::Do { step: i, action: action_of(&wf.steps[i]) }
    } else {
        let mut s = "ran workflow '".to_owned();
        s.append(wf.name.as_str());
        s.append("' (");
        let n = text::usize_text(wf.steps.len());
        s.append(n.as_str());
        s.append(" steps)");
        RunStep::Done(Ok(s))
    }
}

/// Begin to run a workflow.
pub fn run(wf: &Workflow) -> (r: RunStep)
    ensures
        continues(*wf, 0, r),
{
    continue_at(wf, 0)
}

/// Go on after the step at place `i`. The steps run in order, and the first that
/// fails ends the run.
pub fn run_on(wf: &Workflow, i: usize, result: Result<String, String>) -> (r: RunStep)
    requires
        i < wf.steps@.len(),
    ensures
        follows(*wf, i as int, result_view(result), r),
{
    assert(i < wf.steps.len());
    match result {
        Ok(_) => continue_at(wf, i + 1),
        Err(e) => {
            let mut s = "step ".to_owned();
            let n = text::usize_text(i + 1);
            s.append(n.as_str());
            s.append(" (");
            s.append(step_kind(&wf.steps[i]));
            s.append(") failed: ");
            s.append(e.as_str());
            RunStep::Done(Err(s))
        },
    }
}

/// How a run ends from step `i` on, when the steps end with `results`, as far as
/// those go.
pub open spec fn ending(
    wf: Workflow,
    i: int,
    results: Seq<Result<Seq<char>, Seq<char>>>,
) -> Option<Result<Seq<char>, Seq<char>>>
    decreases wf.steps@.len() - i,
{
    if i >= wf.steps@.len() {
        Some(Ok(ran(wf)))
    } else if i < 0 || i >= results.len() {
        None
    } else {
        match results[i] {
            Ok(_) => ending(wf, i + 1, results),
            Err(e) => Some(Err(step_failed(wf, i, e))),
        }
    }
}

/// `ending` is what the run's own steps come to: a run that is over has ended
/// that way, and one that goes on ends as it does from there.
pub proof fn law_run_ends(
    wf: Workflow,
    i: int,
    results: Seq<Result<Seq<char>, Seq<char>>>,
    r: RunStep,
)
    requires
        0 <= i < wf.steps@.len(),
        i < results.len(),
        follows(wf, i, results[i], r),
    ensures
        match r {
            RunStep::Done(end) => ending(wf, i, results) == Some(result_view(end)),
            RunStep::Do { step, action } => {
                &&& step == i + 1
                &&& acts(wf.steps@[i + 1], action)
                &&& ending(wf, i, results) == ending(wf, step as int, results)
            },
        },
{
    reveal_with_fuel(ending, 2);
}

/// A run in which every step succeeds reports success; one whose first failing
/// step is at place `k` reports that step, and no later step matters.
pub proof fn law_first_failure_is_reported(
    wf: Workflow,
    i: int,
    results: Seq<Result<Seq<char>, Seq<char>>>,
)
    requires
        0 <= i <= wf.steps@.len(),
        results.len() == wf.steps@.len(),
    ensures
        (forall|k: int| i <= k < results.len() ==> (#[trigger] results[k]) is Ok) ==> ending(
            wf,
            i,
            results,
        ) == Some(Ok::<Seq<char>, Seq<char>>(ran(wf))),
        forall|k: int|
            #![trigger results[k]]
            i <= k < results.len() && results[k] is Err && (forall|j: int|
                i <= j < k ==> (#[trigger] results[j]) is Ok) ==> ending(wf, i, results) == Some(
                Err::<Seq<char>, Seq<char>>(step_failed(wf, k, results[k]->Err_0)),
            ),
    decreases wf.steps@.len() - i,
{
    if i < wf.steps@.len() {
        law_first_failure_is_reported(wf, i + 1, results);
        assert(results[i] is Ok || results[i] is Err);
    }
}

// ---- Ghostty windows ----

/// A character inside an AppleScript string literal.
pub open spec fn escape(c: char) -> Seq<char> {
    if c == '\\' {
        seq!['\\', '\\']
    } else if c == '"' {
        seq!['\\', '"']
    } else {
        seq![c]
    }
}

/// A text inside an AppleScript string literal.
pub open spec fn escaped(s: Seq<char>) -> Seq<char>
    decreases s.len(),
{
    if s.len() == 0 {
        Seq::empty()
    } else {
        escape(s[0]) + escaped(s.drop_first())
    }
}

pub fn ascript(s: &str) -> (r: String)
    ensures
        r@ == escaped(s@),
{
    let cs = text::chars_of(s);
    let mut out = String::new();
    assert(cs@.skip(0) =~= cs@);
    for i in 0..cs.len()
        invariant
            out@ + escaped(cs@.skip(i as int)) == escaped(cs@),
    {
        let ghost before = out@;
        assert(cs@.skip(i as int).drop_first() =~= cs@.skip(i + 1));
        if cs[i] == '\\' || cs[i] == '"' {
            out.push('\\');
        }
        out.push(cs[i]);
        assert(out@ =~= before + escape(cs@[i as int]));
        assert(out@ + escaped(cs@.skip(i + 1)) =~= before + escaped(cs@.skip(i as int)));
    }
    assert(out@ + escaped(cs@.skip(cs@.len() as int)) =~= out@);
    out
}

/// What AppleScript reads between the quotes of a string literal, where it meets
/// only escapes that are written here; none where a quote would end it early.
pub open spec fn unescaped(s: Seq<char>) -> Option<Seq<char>>
    decreases s.len(),
{
    if s.len() == 0 {
        Some(Seq::empty())
    } else if s[0] == '"' {
        None
    } else if s[0] == '\\' {
        if s.len() >= 2 && (s[1] == '\\' || s[1] == '"') {
            match unescaped(s.skip(2)) {
                Some(rest) => Some(seq![s[1]] + rest),
                None => None,
            }
        } else {
            None
        }
    } else {
        match unescaped(s.drop_first()) {
            Some(rest) => Some(seq![s[0]] + rest),
            None => None,
        }
    }
}

/// Whatever the text, the literal that holds it is read back as that text, and no
/// quote in it ends the literal early.
pub proof fn law_escaping_is_faithful(s: Seq<char>)
    ensures
        unescaped(escaped(s)) == Some(s),
    decreases s.len(),
{
    if s.len() > 0 {
        law_escaping_is_faithful(s.drop_first());
        let e = escaped(s);
        let rest = escaped(s.drop_first());
        if s[0] == '\\' || s[0] == '"' {
            assert(e[0] == '\\' && e[1] == s[0]);
            assert(e.skip(2) =~= rest);
        } else {
            assert(e[0] == s[0]);
            assert(e.drop_first() =~= rest);
        }
        assert(seq![s[0]] + s.drop_first() =~= s);
    }
}

/// A directory with a leading `~` replaced by the home directory, where that is
/// known.
pub open spec fn expanded(dir: Seq<char>, home: Option<Seq<char>>) -> Seq<char> {
    match home {
        None => dir,
        Some(h) => match text::after_prefix(dir, "~/"@) {
            Some(rest) => h + "/"@ + rest,
            None => if dir == "~"@ {
                h
            } else {
                dir
            },
        },
    }
}

/// The view of an optional string slice.
pub open spec fn opt_str(o: Option<&str>) -> Option<Seq<char>> {
    match o {
        Some(s) => Some(s@),
        None => None,
    }
}

pub fn expand_tilde(dir: &str, home: Option<&str>) -> (r: String)
    ensures
        r@ == expanded(dir@, opt_str(home)),
{
    match home {
        None => dir.to_owned(),
        Some(h) => match text::strip_prefix(dir, "~/") {
            Some(rest) => {
                let mut out = h.to_owned();
                out.append("/");
                out.append(rest.as_str());
                out
            },
            None => if text::same(dir, "~") {
                h.to_owned()
            } else {
                dir.to_owned()
            },
        },
    }
}

/// The lines that the tab at place `i` adds to the script.
pub open spec fn tab_lines(i: int, tab: GhosttyTab, home: Option<Seq<char>>) -> Seq<char> {
    let cfg = "cfg"@ + text::decimal(i as nat);
    "    set "@ + cfg + " to new surface configuration\n"@
        + "    set initial working directory of "@ + cfg + " to \""@ + escaped(
        expanded(tab.dir@, home),
    ) + "\"\n"@ + input_line(cfg, tab) + (if i == 0 {
        "    set win to new window with configuration "@ + cfg + "\n"@
    } else {
        "    new tab in win with configuration "@ + cfg + "\n"@
    })
}

/// The line that types the tab's command, where it has one that is not blank.
pub open spec fn input_line(cfg: Seq<char>, tab: GhosttyTab) -> Seq<char> {
    match tab.command {
        Some(cmd) => if text::trimmed(cmd@).len() > 0 {
            "    set initial input of "@ + cfg + " to \""@ + escaped(cmd@) + "\\n\"\n"@
        } else {
            Seq::empty()
        },
        None => Seq::empty(),
    }
}

/// The lines that the first `n` tabs add to the script.
pub open spec fn all_tab_lines(tabs: Seq<GhosttyTab>, home: Option<Seq<char>>, n: int) -> Seq<char>
    decreases n,
{
    if n <= 0 {
        Seq::empty()
    } else {
        all_tab_lines(tabs, home, n - 1) + tab_lines(n - 1, tabs[n - 1], home)
    }
}

/// The whole script.
pub open spec fn script_of(tabs: Seq<GhosttyTab>, home: Option<Seq<char>>) -> Seq<char> {
    "tell application \"Ghostty\"\n    activate\n"@ + all_tab_lines(
        tabs,
        home,
        tabs.len() as int,
    ) + "end tell\n"@
}

fn tab_text(i: usize, tab: &GhosttyTab, home: Option<&str>) -> (r: String)
    ensures
        r@ == tab_lines(i as int, *tab, opt_str(home)),
{
    let mut cfg = "cfg".to_owned();
    let n = text::usize_text(i);
    cfg.append(n.as_str());
    let mut s = "    set ".to_owned();
    s.append(cfg.as_str());
    s.append(" to new surface configuration\n");
    s.append("    set initial working directory of ");
    s.append(cfg.as_str());
    s.append(" to \"");
    let dir = ascript(expand_tilde(tab.dir.as_str(), home).as_str());
    s.append(dir.as_str());
    s.append("\"\n");
    let mut input = String::new();
    match &tab.command {
        Some(cmd) => {
            if !text::is_blank(cmd.as_str()) {
                input.append("    set initial input of ");
                input.append(cfg.as_str());
                input.append(" to \"");
                let typed = ascript(cmd.as_str());
                input.append(typed.as_str());
                input.append("\\n\"\n");
            }
        },
        None => {},
    }
    assert(input@ =~= input_line(cfg@, *tab));
    s.append(input.as_str());
    let mut last = if i == 0 {
        "    set win to new window with configuration ".to_owned()
    } else {
        "    new tab in win with configuration ".to_owned()
    };
    last.append(cfg.as_str());
    last.append("\n");
    s.append(last.as_str());
    s
}

/// An AppleScript that opens one Ghostty window with the given tabs, each in its
/// directory and, where it has one, running its command in the live shell.
pub fn ghostty_script(tabs: &Vec<GhosttyTab>, home: Option<&str>) -> (r: String)
    ensures
        r@ == script_of(tabs@, opt_str(home)),
{
    let mut s = "tell application \"Ghostty\"\n    activate\n".to_owned();
    let ghost head = s@;
    assert(s@ =~= head + all_tab_lines(tabs@, opt_str(home), 0));
    for i in 0..tabs.len()
        invariant
            s@ == head + all_tab_lines(tabs@, opt_str(home), i as int),
    {
        let lines = tab_text(i, &tabs[i], home);
        s.append(lines.as_str());
        assert(s@ =~= head + all_tab_lines(tabs@, opt_str(home), i + 1));
    }
    s.append("end tell\n");
    s
}

/// Is `r` the command that opens the window, or why there is none to open?
pub open spec fn opens(
    tabs: Seq<GhosttyTab>,
    home: Option<Seq<char>>,
    r: Result<tools::CommandLine, String>,
) -> bool {
    match r {
        Ok(c) => tabs.len() > 0 && c.runs("osascript"@, seq!["-e"@, script_of(tabs, home)]),
        Err(e) => tabs.len() == 0 && e@ == "no tabs specified"@,
    }
}

/// The command that opens the window, or why there is none to open.
pub fn run_ghostty(tabs: &Vec<GhosttyTab>, home: Option<&str>) -> (r: Result<
    tools::CommandLine,
    String,
>)
    ensures
        opens(tabs@, opt_str(home), r),
{
    if tabs.len() == 0 {
        return Err("no tabs specified".to_owned());
    }
    let script = ghostty_script(tabs, home);
    Ok(tools::run_applescript(script.as_str()))
}

/// What opening a window with `n` tabs came to.
pub open spec fn ghostty_came_to(n: nat, success: bool, stderr: Seq<char>) -> Result<
    Seq<char>,
    Seq<char>,
> {
    if success {
        Ok("opened Ghostty with "@ + text::decimal(n) + " tab(s)"@)
    } else {
        Err(
            "Ghostty AppleScript failed (is Ghostty 1.3+ installed and Automation allowed?): "@
                + stderr,
        )
    }
}

/// What opening a window with `n` tabs came to, from how the script ended.
pub fn ghostty_result(n: usize, success: bool, stderr: &Vec<u8>) -> (r: Result<String, String>)
    ensures
        result_view(r) == ghostty_came_to(n as nat, success, text::utf8_lossy(stderr@)),
{
    if success {
        let mut s = "opened Ghostty with ".to_owned();
        let count = text::usize_text(n);
        s.append(count.as_str());
        s.append(" tab(s)");
        Ok(s)
    } else {
        let why = text::from_utf8_lossy(stderr);
        Err(
            text::joined(
                "Ghostty AppleScript failed (is Ghostty 1.3+ installed and Automation allowed?): ",
                why.as_str(),
            ),
        )
    }
}

// ---- what is kept to ----

/// A directory in the home directory, written with `~`, is that directory; any other is
/// itself, and so is every one where the home directory is not known.
pub proof fn law_home_is_put_in(rest: Seq<char>, h: Seq<char>, dir: Seq<char>)
    ensures
        expanded("~/"@ + rest, Some(h)) == h + "/"@ + rest,
        expanded("~"@, Some(h)) == h,
        expanded(dir, None) == dir,
        dir.len() == 0 || dir[0] != '~' ==> expanded(dir, Some(h)) == dir,
        dir.len() > 1 && dir[1] != '/' ==> expanded(dir, Some(h)) == dir,
{
    reveal_strlit("~/");
    reveal_strlit("~");
    assert("~/"@.len() == 2 && "~"@.len() == 1);
    text::law_prefixes_come_off("~/"@, rest);
    if "~/"@.is_prefix_of(dir) {
        assert(dir.subrange(0, 2)[0] == dir[0]);
        assert(dir.subrange(0, 2)[1] == dir[1]);
    }
}

/// A step is done with what it says and nothing else: its command, its program's name,
/// its address or its script is the last thing that is handed over, as it stands.
pub proof fn law_steps_are_done_as_they_say(s: Step, a: StepAction)
    requires
        acts(s, a),
    ensures
        match s {
            Step::Shell { command } => a matches StepAction::Run(c) && c.program@ == "zsh"@
                && c.args@.len() == 2 && c.args@[0]@ == "-lc"@ && c.args@.last()@ == command@,
            Step::OpenApp { name } => a matches StepAction::Run(c) && c.program@ == "open"@
                && c.args@.len() == 2 && c.args@[0]@ == "-a"@ && c.args@.last()@ == name@,
            Step::OpenUrl { url } => a matches StepAction::Run(c) && c.program@ == "open"@
                && c.args@.len() == 1 && c.args@.last()@ == url@,
            Step::AppleScript { script } => a matches StepAction::Run(c) && c.program@
                == "osascript"@ && c.args@.len() == 2 && c.args@[0]@ == "-e"@ && c.args@.last()@
                == script@,
            Step::Ghostty { .. } => a is Ghostty,
            Step::Focus { enabled } => a matches StepAction::Focus { enabled: e } && e == enabled,
            Step::Delay { ms } => a matches StepAction::Sleep { ms: m } && m == ms,
        },
{
    if let StepAction::Run(c) = a {
        let args = text::views(c.args@);
        assert(args.len() == c.args@.len());
        if args.len() > 0 {
            assert(args[args.len() - 1] == c.args@.last()@);
            assert(args[0] == c.args@[0]@);
        }
    }
}

/// What is said of a failed step tells its number, counted from one, its kind and the
/// whole reason; what is said of a finished run tells the workflow's name and how many
/// steps it had.
pub proof fn law_runs_are_reported(wf: Workflow, i: int, e: Seq<char>)
    requires
        0 <= i < wf.steps@.len(),
    ensures
        e.is_suffix_of(step_failed(wf, i, e)),
        text::contained(step_failed(wf, i, e), text::decimal((i + 1) as nat)),
        text::contained(step_failed(wf, i, e), kind(wf.steps@[i])),
        text::contained(ran(wf), wf.name@),
        text::contained(ran(wf), text::decimal(wf.steps@.len())),
{
    let number = text::decimal((i + 1) as nat);
    let what = kind(wf.steps@[i]);
    let told = step_failed(wf, i, e);
    text::law_found_within("step "@, number, " ("@ + what + ") failed: "@ + e);
    assert(told =~= "step "@ + number + (" ("@ + what + ") failed: "@ + e));
    text::law_found_within("step "@ + number + " ("@, what, ") failed: "@ + e);
    assert(told =~= "step "@ + number + " ("@ + what + (") failed: "@ + e));
    let count = text::decimal(wf.steps@.len());
    text::law_found_within("ran workflow '"@, wf.name@, "' ("@ + count + " steps)"@);
    assert(ran(wf) =~= "ran workflow '"@ + wf.name@ + ("' ("@ + count + " steps)"@));
    text::law_found_within("ran workflow '"@ + wf.name@ + "' ("@, count, " steps)"@);
}

/// Steps of different kinds are called differently.
pub proof fn law_kinds_are_told_apart(a: Step, b: Step)
    requires
        kind(a) == kind(b),
    ensures
        a is Shell <==> b is Shell,
        a is OpenApp <==> b is OpenApp,
        a is OpenUrl <==> b is OpenUrl,
        a is AppleScript <==> b is AppleScript,
        a is Ghostty <==> b is Ghostty,
        a is Focus <==> b is Focus,
        a is Delay <==> b is Delay,
{
    reveal_strlit("shell");
    reveal_strlit("open_app");
    reveal_strlit("open_url");
    reveal_strlit("applescript");
    reveal_strlit("ghostty");
    reveal_strlit("focus");
    reveal_strlit("delay");
    assert("shell"@.len() == 5 && "open_app"@.len() == 8 && "open_url"@.len() == 8);
    assert("applescript"@.len() == 11 && "ghostty"@.len() == 7);
    assert("focus"@.len() == 5 && "delay"@.len() == 5);
    assert("shell"@[0] == 's' && "focus"@[0] == 'f' && "delay"@[0] == 'd');
    assert("open_app"@[5] == 'a' && "open_url"@[5] == 'u');
}

/// An id ends with the time, so that those of one name differ at different times; what
/// stands before the time is made of letters, digits and hyphens, and no hyphen stands
/// at its ends.
pub proof fn law_ids_differ(name: Seq<char>, at: u128, later: u128)
    ensures
        ("-"@ + text::decimal(at as nat)).is_suffix_of(fresh_id(name, at)),
        fresh_id(name, at) == fresh_id(name, later) ==> at == later,
        ({
            let slug = unhyphened(slugged(text::lowercase(name)));
            &&& slug.len() > 0 ==> slug[0] != '-' && slug.last() != '-'
            &&& forall|i: int|
                0 <= i < slug.len() ==> text::alphanumeric(#[trigger] slug[i]) || slug[i] == '-'
        }),
{
    let slug = unhyphened(slugged(text::lowercase(name)));
    let x = "-"@ + text::decimal(at as nat);
    let y = "-"@ + text::decimal(later as nat);
    assert(fresh_id(name, at) =~= slug + x);
    assert(fresh_id(name, later) =~= slug + y);
    if slug + x == slug + y {
        assert((slug + x).skip(slug.len() as int) =~= x);
        assert((slug + y).skip(slug.len() as int) =~= y);
        text::law_prefixes_come_off("-"@, text::decimal(at as nat));
        text::law_prefixes_come_off("-"@, text::decimal(later as nat));
        text::law_numbers_are_told_apart(at as nat, later as nat);
    }
    lemma_slug(slugged(text::lowercase(name)));
}

/// The slug of a name keeps its letters and digits where they stand, between the first
/// and the last of them.
pub proof fn law_slugs_keep_letters(a: Seq<char>, s: Seq<char>, b: Seq<char>)
    requires
        forall|i: int| 0 <= i < a.len() ==> !text::alphanumeric(#[trigger] a[i]),
        forall|i: int| 0 <= i < b.len() ==> !text::alphanumeric(#[trigger] b[i]),
        s.len() > 0,
        text::alphanumeric(s[0]),
        text::alphanumeric(s.last()),
    ensures
        unhyphened(slugged(a + s + b)).len() == s.len(),
        forall|i: int|
            0 <= i < s.len() ==> #[trigger] unhyphened(slugged(a + s + b))[i] == (
            if text::alphanumeric(s[i]) {
                s[i]
            } else {
                '-'
            }),
{
    let all = slugged(a + s + b);
    let core = slugged(s);
    let x = Seq::new(a.len(), |i: int| '-');
    let y = Seq::new(b.len(), |i: int| '-');
    assert(all =~= x + core + y);
    assert(!text::alphanumeric('-'));
    assert(core[0] == s[0] && core.last() == s.last());
    lemma_start_run(x, core + y);
    assert(x + core + y =~= x + (core + y));
    assert((core + y)[0] == core[0]);
    text::law_trimming_a_character(core, '-', b.len());
    assert(unhyphened(all) == core);
}

proof fn lemma_start_run(x: Seq<char>, s: Seq<char>)
    requires
        forall|i: int| 0 <= i < x.len() ==> #[trigger] x[i] == '-',
    ensures
        text::trim_start_char(x + s, '-') == text::trim_start_char(s, '-'),
    decreases x.len(),
{
    if x.len() == 0 {
        assert(x + s =~= s);
    } else {
        assert((x + s)[0] == x[0]);
        assert((x + s).drop_first() =~= x.drop_first() + s);
        lemma_start_run(x.drop_first(), s);
    }
}

proof fn lemma_slug(s: Seq<char>)
    requires
        forall|i: int| 0 <= i < s.len() ==> text::alphanumeric(#[trigger] s[i]) || s[i] == '-',
    ensures
        unhyphened(s).len() > 0 ==> unhyphened(s)[0] != '-' && unhyphened(s).last() != '-',
        forall|i: int|
            0 <= i < unhyphened(s).len() ==> text::alphanumeric(#[trigger] unhyphened(s)[i])
                || unhyphened(s)[i] == '-',
    decreases s.len(),
{
    if s.len() > 0 && s[0] == '-' {
        let t = s.drop_first();
        assert forall|i: int| 0 <= i < t.len() implies text::alphanumeric(#[trigger] t[i]) || t[i]
            == '-' by {
            assert(t[i] == s[i + 1]);
        }
        lemma_slug(t);
    } else {
        lemma_slug_end(s);
    }
}

proof fn lemma_slug_end(s: Seq<char>)
    ensures
        text::trim_end_char(s, '-').is_prefix_of(s),
        text::trim_end_char(s, '-').len() > 0 ==> text::trim_end_char(s, '-').last() != '-',
        forall|i: int|
            0 <= i < text::trim_end_char(s, '-').len() ==> #[trigger] text::trim_end_char(s, '-')[i]
                == s[i],
    decreases s.len(),
{
    if s.len() > 0 && s.last() == '-' {
        lemma_slug_end(s.drop_last());
    }
}

/// A name leads to one workflow at most: to the one that has it, whatever the case of its
/// letters, even where others come before whose name contains it; and only where none
/// has it, to the first whose name, in lower case, contains it in lower case.
pub proof fn law_names_lead_to_one(
    all: Seq<Workflow>,
    name: Seq<char>,
    i: int,
    r: Option<int>,
    before: Seq<char>,
    behind: Seq<char>,
)
    requires
        found(all, name, r),
    ensures
        forall|other: Option<int>| #[trigger] found(all, name, other) ==> other == r,
        0 <= i < all.len() && text::eq_ignore_case(all[i].name@, name) ==> (r matches Some(k) && k
            <= i && text::eq_ignore_case(all[k].name@, name)),
        0 <= i < all.len() && text::lowercase(all[i].name@) == before + text::lowercase(name)
            + behind ==> r is Some && (roster::place(names(all), name) is None ==> r->0 <= i),
        r matches Some(k) ==> ((forall|j: int|
            0 <= j < all.len() ==> !text::eq_ignore_case((#[trigger] all[j]).name@, name))
            ==> text::contained(text::lowercase(all[k].name@), text::lowercase(name))),
{
    let list = names(all);
    roster::lemma_place(list, name);
    if 0 <= i < all.len() && text::eq_ignore_case(all[i].name@, name) {
        assert(list[i] == all[i].name@);
    }
    text::law_found_within(before, text::lowercase(name), behind);
    if 0 <= i < all.len() && text::lowercase(all[i].name@) == before + text::lowercase(name)
        + behind {
        assert(loosely(all[i], text::lowercase(name)));
    }
    assert forall|other: Option<int>| #[trigger] found(all, name, other) implies other == r by {
        if roster::place(list, name) is None {
            if let Some(a) = other {
                assert(loosely(all[a], text::lowercase(name)));
            }
            if let Some(b) = r {
                assert(loosely(all[b], text::lowercase(name)));
            }
        }
    }
}

/// A workflow does not survive being deleted by its name, in any case of its letters, or
/// by its id; it survives being deleted by anything else.
pub proof fn law_deleting_meets_its_mark(w: Workflow, name: Seq<char>)
    ensures
        !survives(w, w.name@),
        !survives(w, text::lowered(w.name@)),
        !survives(w, w.id@),
        !survives(w, name) ==> name == w.id@ || text::lowered(name) == text::lowered(w.name@),
{
    text::law_case_is_ignored(w.name@, name);
    text::law_case_is_ignored(w.name@, w.name@);
}

/// Opening a window succeeds exactly where its script does; what is told of a success
/// holds the number of tabs, and of a failure everything that the script printed.
pub proof fn law_windows_are_reported(n: nat, success: bool, stderr: Seq<char>)
    ensures
        ghostty_came_to(n, success, stderr) is Ok <==> success,
        ghostty_came_to(n, success, stderr) matches Ok(s) ==> text::contained(s, text::decimal(n)),
        ghostty_came_to(n, success, stderr) matches Err(e) ==> stderr.is_suffix_of(e),
{
    text::law_found_within("opened Ghostty with "@, text::decimal(n), " tab(s)"@);
}

/// A workflow that is new goes to the end as it is; where it came without an id it gets
/// one, which ends with the time.
pub proof fn law_new_workflows_get_an_id(
    before: Seq<Workflow>,
    wf: Workflow,
    nanos: u128,
    after: Seq<Workflow>,
    at: int,
)
    requires
        saved(before, wf, nanos, after, at),
        forall|j: int|
            0 <= j < before.len() ==> !text::eq_ignore_case((#[trigger] before[j]).name@, wf.name@),
    ensures
        at == before.len(),
        after.drop_last() == before,
        wf.id@.len() > 0 ==> after.last() == wf,
        wf.id@.len() == 0 ==> text::decimal(nanos as nat).is_suffix_of(after.last().id@)
            && after.last().name == wf.name && after.last().steps == wf.steps
            && after.last().enabled == wf.enabled && after.last().trigger_phrases
            == wf.trigger_phrases,
{
    let list = names(before);
    roster::lemma_place(list, wf.name@);
    if let Some(i) = roster::place(list, wf.name@) {
        assert(list[i] == before[i].name@);
    }
    let slug = unhyphened(slugged(text::lowercase(wf.name@)));
    let number = text::decimal(nanos as nat);
    assert(fresh_id(wf.name@, nanos) =~= (slug + "-"@) + number);
    assert(number.is_suffix_of((slug + "-"@) + number));
}

/// Deleting goes through the list in order: it leaves of two lists joined what it leaves
/// of each, and of a single workflow that workflow, or nothing.
pub proof fn law_deleting_goes_in_order(
    a: Seq<Workflow>,
    b: Seq<Workflow>,
    w: Workflow,
    name: Seq<char>,
)
    ensures
        remaining(a + b, name) == remaining(a, name) + remaining(b, name),
        survives(w, name) ==> remaining(seq![w], name) == seq![w],
        !survives(w, name) ==> remaining(seq![w], name).len() == 0,
{
    let keep = |w: Workflow| survives(w, name);
    Seq::filter_distributes_over_add(a, b, keep);
    reveal(Seq::filter);
    assert(seq![w].drop_last() =~= Seq::empty());
    assert(Seq::<Workflow>::empty().filter(keep) =~= Seq::empty());
    assert(seq![w].last() == w);
    if survives(w, name) {
        assert(remaining(seq![w], name) =~= seq![w]);
    }
}

/// A step that opens an application or an address does what the tool of that name does,
/// when it is called with the same words; and so do steps that run a command or a script.
pub proof fn law_steps_do_what_tools_do(
    s: Step,
    a: StepAction,
    input: crate::json::JsonView,
    r: Result<tools::ToolAction, String>,
)
    requires
        acts(s, a),
        tools::planned(
            true,
            match s {
                Step::Shell { .. } => "run_shell"@,
                Step::AppleScript { .. } => "run_applescript"@,
                _ => kind(s),
            },
            input,
            r,
        ),
        match s {
            Step::Shell { command } => input.str_at("command"@) == Some(command@),
            Step::OpenApp { name } => input.str_at("name"@) == Some(name@),
            Step::OpenUrl { url } => input.str_at("url"@) == Some(url@),
            Step::AppleScript { script } => input.str_at("script"@) == Some(script@),
            _ => false,
        },
    ensures
        a matches StepAction::Run(c) && (r matches Ok(tools::ToolAction::Run(d)) && c.program@
            == d.program@ && text::views(c.args@) == text::views(d.args@)),
{
    tools::lemma_tool_names();
    match s {
        Step::Shell { command } => {
            assert(seq!["-lc"@].push(command@) =~= seq!["-lc"@, command@]);
        },
        Step::OpenApp { name } => {
            assert(seq!["-a"@].push(name@) =~= seq!["-a"@, name@]);
        },
        Step::OpenUrl { url } => {
            assert(Seq::<Seq<char>>::empty().push(url@) =~= seq![url@]);
        },
        Step::AppleScript { script } => {
            assert(seq!["-e"@].push(script@) =~= seq!["-e"@, script@]);
        },
        _ => {},
    }
}

/// A run does every step, in order, and nothing else: it begins with the first, after a
/// step that succeeded comes the next, and after the last the run is over and a success;
/// after a step that failed it is over too, and a failure.
pub proof fn law_steps_come_in_order(
    wf: Workflow,
    i: int,
    result: Result<Seq<char>, Seq<char>>,
    first: RunStep,
    next: RunStep,
)
    requires
        0 <= i < wf.steps@.len(),
        continues(wf, 0, first),
        follows(wf, i, result, next),
    ensures
        first matches RunStep::Do { step, action } && step == 0 && acts(wf.steps@[0], action),
        result is Ok && i + 1 < wf.steps@.len() ==> (next matches RunStep::Do { step, action }
            && step == i + 1 && acts(wf.steps@[i + 1], action)),
        result is Ok && i + 1 == wf.steps@.len() ==> (next matches RunStep::Done(end)
            && end is Ok),
        result is Err ==> (next matches RunStep::Done(end) && end is Err),
{
}

/// A workflow without steps is over at once, and a success.
pub proof fn law_empty_runs_succeed(wf: Workflow, first: RunStep)
    requires
        wf.steps@.len() == 0,
        continues(wf, 0, first),
    ensures
        first matches RunStep::Done(end) && end is Ok,
{
}

} // verus!
