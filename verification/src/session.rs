//! A conversation with the Bit, from the press of the shortcut to its answer: what
//! each event leads to.

use crate::config::AgentConfig;
use crate::paths;
use crate::text;
use vstd::prelude::*;
use vstd::string::*;

verus! {

// ============================ the shortcut ============================

/// How many nanoseconds a press of the shortcut is deaf to further ones: 350 ms.
pub const DEBOUNCE_NS: u128 = 350_000_000;

/// When the shortcut last did something, in nanoseconds on a clock that never goes
/// back.
#[derive(Debug)]
pub struct Debounce {
    pub last: u128,
}

/// How long it has been since `last`; no time at all, should that lie ahead.
pub open spec fn elapsed(last: u128, now: u128) -> int {
    if now >= last {
        now - last
    } else {
        0
    }
}

impl Debounce {
    pub fn new(now: u128) -> (r: Self)
        ensures
            r.last == now,
    {
        Debounce { last: now }
    }

    /// Does this event of a shortcut count? The talk shortcut's key going down does,
    /// unless it did a moment ago: held keys repeat, and events come twice.
    pub fn press(&mut self, is_talk: bool, is_down: bool, now: u128) -> (r: bool)
        ensures
            r == (is_talk && is_down && elapsed(old(self).last, now) >= DEBOUNCE_NS),
            final(self).last == last_press(old(self).last, (is_talk && is_down, now)),
    {
        if !is_talk || !is_down {
            return false;
        }
        if now < self.last || now - self.last < DEBOUNCE_NS {
            return false;
        }
        self.last = now;
        true
    }
}

/// When the shortcut last did something, after an event: whether it was the talk
/// shortcut's key going down, and when.
pub open spec fn last_press(last: u128, event: (bool, u128)) -> u128 {
    if event.0 && elapsed(last, event.1) >= DEBOUNCE_NS {
        event.1
    } else {
        last
    }
}

/// However often the key goes down within the time that a press is deaf for, it does
/// nothing more.
pub proof fn law_one_press_one_toggle(last: u128, events: Seq<(bool, u128)>)
    requires
        forall|i: int|
            0 <= i < events.len() ==> elapsed(last, (#[trigger] events[i]).1) < DEBOUNCE_NS,
    ensures
        events.fold_left(last, |l: u128, e: (bool, u128)| last_press(l, e)) == last,
    decreases events.len(),
{
    reveal_with_fuel(Seq::fold_left, 2);
    if events.len() > 0 {
        law_one_press_one_toggle(last, events.drop_last());
    }
}

/// What a press of the shortcut leads to.
#[derive(Debug)]
pub enum Toggle {
    /// There is no microphone: say no, once. With the reason.
    Refuse(String),
    /// There is no transcription model yet: open the settings, where one is picked.
    OpenSettings,
    /// Listen.
    Listen,
    /// Stop listening, and go on with what was heard.
    Finish,
}

pub enum ToggleView {
    Refuse(Seq<char>),
    OpenSettings,
    Listen,
    Finish,
}

impl View for Toggle {
    type V = ToggleView;

    open spec fn view(&self) -> ToggleView {
        match *self {
            Toggle::Refuse(s) => ToggleView::Refuse(s@),
            Toggle::OpenSettings => ToggleView::OpenSettings,
            Toggle::Listen => ToggleView::Listen,
            Toggle::Finish => ToggleView::Finish,
        }
    }
}

/// What a press of the shortcut leads to.
pub open spec fn toggled(
    is_recording: bool,
    available: bool,
    last_error: Option<Seq<char>>,
    model_ready: bool,
) -> ToggleView {
    if is_recording {
        ToggleView::Finish
    } else if !available {
        ToggleView::Refuse(
            match last_error {
                Some(e) => e,
                None => "microphone unavailable"@,
            },
        )
    } else if !model_ready {
        ToggleView::OpenSettings
    } else {
        ToggleView::Listen
    }
}

/// What a press of the shortcut leads to: while listening to its end, and otherwise,
/// where there is a microphone and a model, to its start.
pub fn on_toggle(
    is_recording: bool,
    available: bool,
    last_error: Option<String>,
    model_ready: bool,
) -> (r: Toggle)
    ensures
        r@ == toggled(is_recording, available, text::opt_view(last_error), model_ready),
{
    if is_recording {
        return Toggle::Finish;
    }
    if !available {
        return match last_error {
            Some(e) => Toggle::Refuse(e),
            None => Toggle::Refuse("microphone unavailable".to_owned()),
        };
    }
    if !model_ready {
        return Toggle::OpenSettings;
    }
    Toggle::Listen
}

// ============================ going quiet ============================

/// How many quiet ticks of 100 ms end the listening, once someone spoke.
pub const SILENCE_TICKS: u32 = 11;

/// How many ticks the listening takes at most.
pub const MAX_TICKS: u32 = 300;

/// How many samples an eighth of a second has.
pub open spec fn eighth(sample_rate: u32) -> int {
    (sample_rate / 8) as int
}

/// How many samples the loudness is taken over: an eighth of a second.
pub fn loudness_window(sample_rate: u32) -> (r: usize)
    ensures
        r == eighth(sample_rate),
{
    (sample_rate / 8) as usize
}

/// What a tick of the silence watcher leads to.
#[derive(Debug, Clone, Copy, PartialEq, Eq, Structural)]
pub enum Watch {
    /// Watch on.
    Listening,
    /// The recording was ended by someone else.
    Ended,
    /// End the recording.
    Finish,
}

/// Ends the listening on its own once the user stops talking.
#[derive(Debug, Clone, Copy)]
pub struct SilenceWatcher {
    pub spoke: bool,
    pub silent_ticks: u32,
    pub ticks: u32,
}

impl SilenceWatcher {
    /// Is there still something to wait for?
    pub open spec fn waits(self) -> bool {
        self.ticks < MAX_TICKS && self.silent_ticks < SILENCE_TICKS
    }

    /// After a tick during which it was loud, or not.
    pub open spec fn after(self, loud: bool) -> Self {
        SilenceWatcher {
            spoke: self.spoke || loud,
            silent_ticks: if loud {
                0
            } else if self.spoke {
                (self.silent_ticks + 1) as u32
            } else {
                self.silent_ticks
            },
            ticks: (self.ticks + 1) as u32,
        }
    }

    pub fn new() -> (r: Self)
        ensures
            r == beginning(),
            r.waits(),
    {
        SilenceWatcher { spoke: false, silent_ticks: 0, ticks: 0 }
    }

    /// Is there still something to wait for?
    pub fn is_waiting(&self) -> (r: bool)
        ensures
            r == self.waits(),
    {
        self.ticks < MAX_TICKS && self.silent_ticks < SILENCE_TICKS
    }

    /// What a tick leads to, when it was loud during it, or not. Once the watcher has
    /// said that the recording ends, it has no more to say.
    pub fn tick(&mut self, is_recording: bool, loud: bool) -> (r: Watch)
        requires
            old(self).waits(),
        ensures
            !is_recording ==> r is Ended && *final(self) == *old(self),
            is_recording ==> {
                &&& *final(self) == old(self).after(loud)
                &&& r == if final(self).waits() {
                    Watch::Listening
                } else {
                    Watch::Finish
                }
            },
    {
        if !is_recording {
            return Watch::Ended;
        }
        self.ticks = self.ticks + 1;
        if loud {
            self.spoke = true;
            self.silent_ticks = 0;
        } else if self.spoke {
            self.silent_ticks = self.silent_ticks + 1;
        }
        if (self.spoke && self.silent_ticks >= SILENCE_TICKS) || self.ticks >= MAX_TICKS {
            Watch::Finish
        } else {
            Watch::Listening
        }
    }
}

/// The watcher before the first tick.
pub open spec fn beginning() -> SilenceWatcher {
    SilenceWatcher { spoke: false, silent_ticks: 0, ticks: 0 }
}

/// The watcher after the given ticks, each of them loud or not.
pub open spec fn watched(ticks: Seq<bool>) -> SilenceWatcher
    decreases ticks.len(),
{
    if ticks.len() == 0 {
        beginning()
    } else {
        watched(ticks.drop_last()).after(ticks.last())
    }
}

/// How many ticks in a row it has been quiet.
pub open spec fn lull(ticks: Seq<bool>) -> nat
    decreases ticks.len(),
{
    if ticks.len() == 0 || ticks.last() {
        0
    } else {
        lull(ticks.drop_last()) + 1
    }
}

/// The listening goes on for exactly as long as it is under 30 seconds and either
/// nobody has spoken yet or the quiet since then is under 1.1 seconds.
pub proof fn law_listening_ends_with_silence(ticks: Seq<bool>)
    requires
        ticks.len() <= 300,
    ensures
        watched(ticks).ticks == ticks.len(),
        watched(ticks).spoke == ticks.contains(true),
        watched(ticks).silent_ticks == (if ticks.contains(true) {
            lull(ticks)
        } else {
            0
        }),
        watched(ticks).waits() <==> ticks.len() < 300 && (ticks.contains(true) ==> lull(ticks)
            < 11),
    decreases ticks.len(),
{
    if ticks.len() > 0 {
        let before = ticks.drop_last();
        law_listening_ends_with_silence(before);
        lemma_lull(before);
        assert(ticks.contains(true) == (before.contains(true) || ticks.last())) by {
            if before.contains(true) {
                let i = before.index_of(true);
                assert(ticks[i]);
            }
            if ticks.last() {
                assert(ticks[ticks.len() - 1]);
            }
            if ticks.contains(true) {
                let i = ticks.index_of(true);
                if i < before.len() {
                    assert(before[i]);
                }
            }
        }
    }
}

proof fn lemma_lull(ticks: Seq<bool>)
    ensures
        lull(ticks) <= ticks.len(),
    decreases ticks.len(),
{
    if ticks.len() > 0 {
        lemma_lull(ticks.drop_last());
    }
}

// ============================ the answer ============================

/// What was heard: the transcript without the whitespace around it, and nothing where
/// the transcription failed.
pub fn heard(transcript: Result<String, String>) -> (r: String)
    ensures
        r@ == heard_in(transcript),
{
    match transcript {
        Ok(t) => text::trim(t.as_str()),
        Err(_) => String::new(),
    }
}

/// What follows from what was heard: a question to the agent, where something was
/// heard and there is a key to ask with; otherwise back to neutral.
pub fn question(heard: &str, config: Option<AgentConfig>) -> (r: Option<AgentConfig>)
    ensures
        r == (if heard@.len() > 0 {
            config
        } else {
            None
        }),
{
    if heard.is_empty() {
        None
    } else {
        config
    }
}

/// The answer that is given: the agent's, or a single no where it failed.
pub fn answer(outcome: Result<(bool, u8), String>) -> (r: (bool, u8))
    ensures
        r == (match outcome {
            Ok(v) => v,
            Err(_) => (false, 1u8),
        }),
{
    match outcome {
        Ok(v) => v,
        Err(_) => (false, 1),
    }
}

/// The word for an answer.
pub open spec fn verdict_word(yes: bool) -> Seq<char> {
    if yes {
        "yes"@
    } else {
        "no"@
    }
}

pub fn verdict_kind(yes: bool) -> (r: &'static str)
    ensures
        r@ == verdict_word(yes),
{
    if yes {
        "yes"
    } else {
        "no"
    }
}

/// How far the end of a recording has come: what is under way.
#[derive(Debug, Clone, Copy, PartialEq, Eq, Structural)]
pub enum FinishStage {
    /// The recording is stopped.
    Stopping,
    /// What was recorded is transcribed.
    Transcribing,
    /// The agent is asked.
    Asking,
    /// Nothing any more.
    Over,
}

/// How what was under way has ended.
#[derive(Debug)]
pub enum FinishEvent {
    /// The recording was stopped here, or had been stopped elsewhere.
    Stopped { here: bool },
    /// There is a transcript, or there is none, and this is what the agent works with.
    Transcribed { transcript: Result<String, String>, config: Option<AgentConfig> },
    /// The agent has answered, or failed.
    Answered(Result<(bool, u8), String>),
}

/// What to do next.
#[derive(Debug)]
pub enum FinishAction {
    Nothing,
    /// Show that the Bit is thinking, and transcribe what was recorded.
    Think,
    /// Show that the Bit is at rest. With what was heard.
    Rest { heard: String },
    /// Ask the agent what was heard.
    Ask { heard: String, config: AgentConfig },
    /// Say yes or no, so many times.
    Say { yes: bool, times: u8 },
}

pub enum FinishView {
    Nothing,
    Think,
    Rest { heard: Seq<char> },
    Ask { heard: Seq<char>, config: AgentConfig },
    Say { yes: bool, times: u8 },
}

impl View for FinishAction {
    type V = FinishView;

    open spec fn view(&self) -> FinishView {
        match *self {
            FinishAction::Nothing => FinishView::Nothing,
            FinishAction::Think => FinishView::Think,
            FinishAction::Rest { heard } => FinishView::Rest { heard: heard@ },
            FinishAction::Ask { heard, config } => FinishView::Ask { heard: heard@, config },
            FinishAction::Say { yes, times } => FinishView::Say { yes, times },
        }
    }
}

/// What a transcript says: its text without the whitespace around it, or nothing where
/// there is none.
pub open spec fn heard_in(transcript: Result<String, String>) -> Seq<char> {
    match transcript {
        Ok(t) => text::trimmed(t@),
        Err(_) => Seq::empty(),
    }
}

/// Where the end of a recording stands after an event, and what to do next. A stop that
/// came too late does nothing; the transcript leads to the agent where it says something
/// and there is a key, and to rest otherwise; the agent's answer is given, and a single
/// no where it failed. An event that is not waited for changes nothing.
pub open spec fn finished(stage: FinishStage, event: FinishEvent) -> (FinishStage, FinishView) {
    match (stage, event) {
        (FinishStage::Stopping, FinishEvent::Stopped { here }) => if here {
            (FinishStage::Transcribing, FinishView::Think)
        } else {
            (FinishStage::Over, FinishView::Nothing)
        },
        (FinishStage::Transcribing, FinishEvent::Transcribed { transcript, config }) => {
            let heard = heard_in(transcript);
            match config {
                Some(config) => if heard.len() > 0 {
                    (FinishStage::Asking, FinishView::Ask { heard, config })
                } else {
                    (FinishStage::Over, FinishView::Rest { heard })
                },
                None => (FinishStage::Over, FinishView::Rest { heard }),
            }
        },
        (FinishStage::Asking, FinishEvent::Answered(outcome)) => (
            FinishStage::Over,
            match outcome {
                Ok((yes, times)) => FinishView::Say { yes, times },
                Err(_) => FinishView::Say { yes: false, times: 1 },
            },
        ),
        _ => (stage, FinishView::Nothing),
    }
}

/// Go on with the end of a recording after an event.
pub fn finish_recording(stage: FinishStage, event: FinishEvent) -> (r: (FinishStage, FinishAction))
    ensures
        (r.0, r.1@) == finished(stage, event),
{
    match (stage, event) {
        (FinishStage::Stopping, FinishEvent::Stopped { here }) => if here {
            (FinishStage::Transcribing, FinishAction::Think)
        } else {
            (FinishStage::Over, FinishAction::Nothing)
        },
        (FinishStage::Transcribing, FinishEvent::Transcribed { transcript, config }) => {
            let text = heard(transcript);
            match question(text.as_str(), config) {
                Some(config) => (FinishStage::Asking, FinishAction::Ask { heard: text, config }),
                None => (FinishStage::Over, FinishAction::Rest { heard: text }),
            }
        },
        (FinishStage::Asking, FinishEvent::Answered(outcome)) => {
            let (yes, times) = answer(outcome);
            (FinishStage::Over, FinishAction::Say { yes, times })
        },
        _ => (stage, FinishAction::Nothing),
    }
}

/// Is `r` the name of the state that the overlay takes on with an action?
pub open spec fn is_overlay_state(action: FinishView, r: Option<&'static str>) -> bool {
    match (action, r) {
        (FinishView::Think, Some(s)) => s@ == "thinking"@,
        (FinishView::Rest { .. }, Some(s)) => s@ == "neutral"@,
        (FinishView::Think, None) | (FinishView::Rest { .. }, None) => false,
        (_, r) => r is None,
    }
}

/// The name of the state that the overlay takes on with an action; none where it takes on
/// no new state, or says yes or no instead.
pub fn overlay_state(action: &FinishAction) -> (r: Option<&'static str>)
    ensures
        is_overlay_state(action@, r),
{
    match action {
        FinishAction::Think => Some("thinking"),
        FinishAction::Rest { .. } => Some("neutral"),
        _ => None,
    }
}

/// What the overlay shows.
pub enum Shown {
    Thinking,
    Neutral,
    Verdict { yes: bool, times: u8 },
}

/// What an action shows.
pub open spec fn shown_by(action: FinishView) -> Seq<Shown> {
    match action {
        FinishView::Think => seq![Shown::Thinking],
        FinishView::Rest { .. } => seq![Shown::Neutral],
        FinishView::Say { yes, times } => seq![Shown::Verdict { yes, times }],
        _ => Seq::empty(),
    }
}

/// Where the end of a recording stands after a number of events, and what was shown on
/// the way.
pub open spec fn shown_over(stage: FinishStage, events: Seq<FinishEvent>) -> (
    FinishStage,
    Seq<Shown>,
)
    decreases events.len(),
{
    if events.len() == 0 {
        (stage, Seq::empty())
    } else {
        let (next, action) = finished(stage, events[0]);
        let (end, rest) = shown_over(next, events.drop_first());
        (end, shown_by(action) + rest)
    }
}

proof fn lemma_shown_over(stage: FinishStage, events: Seq<FinishEvent>)
    ensures
        ({
            let (end, shown) = shown_over(stage, events);
            &&& stage is Over ==> end is Over && shown.len() == 0
            &&& stage is Transcribing || stage is Asking ==> {
                &&& end !is Stopping
                &&& shown.len() == (if end is Over {
                    1int
                } else {
                    0
                })
                &&& shown.len() == 1 ==> shown[0] !is Thinking
                &&& stage is Asking && shown.len() == 1 ==> shown[0] is Verdict
            }
            &&& stage is Stopping ==> {
                ||| end is Stopping && shown.len() == 0
                ||| end is Over && shown.len() == 0
                ||| end !is Stopping && shown.len() == (if end is Over {
                    2int
                } else {
                    1
                }) && shown[0] is Thinking && (shown.len() == 2 ==> shown[1] !is Thinking)
            }
        }),
    decreases events.len(),
{
    if events.len() > 0 {
        let (next, action) = finished(stage, events[0]);
        lemma_shown_over(next, events.drop_first());
    }
}

/// Whatever happens after a recording, the overlay shows nothing, where the recording was
/// stopped elsewhere, or that it is thinking, and then, when all is over, exactly one
/// thing more: that it is at rest, or a yes or a no.
pub proof fn law_thinking_ends_once(events: Seq<FinishEvent>)
    ensures
        ({
            let (end, shown) = shown_over(FinishStage::Stopping, events);
            &&& shown.len() <= 2
            &&& shown.len() > 0 ==> shown[0] is Thinking
            &&& shown.len() == 2 <==> end is Over && shown.len() > 0
            &&& shown.len() == 2 ==> shown[1] is Neutral || shown[1] is Verdict
        }),
        events.len() > 0 && events[0] == (FinishEvent::Stopped { here: false }) ==> shown_over(
            FinishStage::Stopping,
            events,
        ) == (FinishStage::Over, Seq::<Shown>::empty()),
{
    lemma_shown_over(FinishStage::Stopping, events);
    if events.len() > 0 {
        let (next, action) = finished(FinishStage::Stopping, events[0]);
        lemma_shown_over(next, events.drop_first());
        assert(shown_over(FinishStage::Stopping, events).1 =~= shown_by(action) + shown_over(
            next,
            events.drop_first(),
        ).1);
        if events[0] == (FinishEvent::Stopped { here: false }) {
            assert(shown_over(FinishStage::Stopping, events).1 =~= Seq::empty());
        }
    }
}

// ============================ the window ============================

/// Whether the cursor was over the Bit when the window was last told what to do with
/// clicks; nothing where it was never told.
#[derive(Debug)]
pub struct Passthrough {
    pub last: Option<bool>,
}

/// Whether the Bit takes clicks: while it is dragged it does, and otherwise where the
/// cursor is over it, if that is known.
pub open spec fn takes_clicks(dragging: bool, over: Option<bool>) -> Option<bool> {
    if dragging {
        Some(true)
    } else {
        over
    }
}

/// What was told last, and what has to be told now: to ignore the cursor, or not to,
/// where that differs from what was told last.
pub open spec fn polled(last: Option<bool>, dragging: bool, over: Option<bool>) -> (
    Option<bool>,
    Option<bool>,
) {
    match takes_clicks(dragging, over) {
        Some(takes) => (
            Some(takes),
            if last == Some(takes) {
                None
            } else {
                Some(!takes)
            },
        ),
        None => (last, None),
    }
}

impl Passthrough {
    pub fn new() -> (r: Self)
        ensures
            r.last is None,
    {
        Passthrough { last: None }
    }

    /// Whether the window has to be told to ignore the cursor, or not to, given
    /// whether the Bit is dragged and whether the cursor is over it, if that is known.
    pub fn poll(&mut self, dragging: bool, over: Option<bool>) -> (r: Option<bool>)
        ensures
            (final(self).last, r) == polled(old(self).last, dragging, over),
    {
        let takes = if dragging {
            true
        } else {
            match over {
                Some(o) => o,
                None => {
                    return None;
                },
            }
        };
        match self.last {
            Some(l) => {
                if l == takes {
                    return None;
                }
            },
            None => {},
        }
        self.last = Some(takes);
        Some(!takes)
    }
}

/// A window that does what it is told takes clicks exactly where it should, after each
/// poll that knows where the cursor is; and it is told nothing twice.
pub proof fn law_window_follows(
    last: Option<bool>,
    ignores: bool,
    dragging: bool,
    over: Option<bool>,
)
    requires
        last matches Some(takes) ==> ignores == !takes,
    ensures
        ({
            let (now, told) = polled(last, dragging, over);
            let after = match told {
                Some(ignore) => ignore,
                None => ignores,
            };
            &&& takes_clicks(dragging, over) matches Some(takes) ==> after == !takes
            &&& now matches Some(takes) ==> after == !takes
            &&& polled(now, dragging, over) == (now, None::<bool>)
        }),
{
}

/// An entry of the tray's menu.
#[derive(Debug, Clone, Copy, PartialEq, Eq, Structural)]
pub enum MenuAction {
    OpenSettings,
    Quit,
    Nothing,
}

/// What an entry of the tray's menu does.
pub open spec fn menu_does(id: Seq<char>) -> MenuAction {
    if id == "settings"@ {
        MenuAction::OpenSettings
    } else if id == "quit"@ {
        MenuAction::Quit
    } else {
        MenuAction::Nothing
    }
}

pub fn menu_action(id: &str) -> (r: MenuAction)
    ensures
        r == menu_does(id@),
{
    if text::same(id, "settings") {
        MenuAction::OpenSettings
    } else if text::same(id, "quit") {
        MenuAction::Quit
    } else {
        MenuAction::Nothing
    }
}

/// Is `r` whether to start with the user's session?
pub open spec fn autostarts(debug_build: bool, enabled: bool, r: Result<bool, String>) -> bool {
    match r {
        Ok(b) => !debug_build && b == enabled,
        Err(_) => debug_build,
    }
}

/// Whether to start with the user's session; refused in development builds, which
/// would start to a blank window.
pub fn set_autostart(debug_build: bool, enabled: bool) -> (r: Result<bool, String>)
    ensures
        autostarts(debug_build, enabled, r),
        match r {
            Ok(b) => !debug_build && b == enabled,
            Err(e) => debug_build && e@
                == "Launch on startup is disabled in development builds — the dev binary can’t find its UI after a reboot. Build and install the app first: `bun run tauri build`, then open the resulting .app and re-enable this."@,
        },
{
    if debug_build {
        return Err(
            "Launch on startup is disabled in development builds — the dev binary can’t find its UI after a reboot. Build and install the app first: `bun run tauri build`, then open the resulting .app and re-enable this.".to_owned(),
        );
    }
    Ok(enabled)
}

/// The directory of the log, below the home directory.
pub open spec fn log_dir(home: Seq<char>) -> Seq<char> {
    paths::below(paths::below(home, "Library/Logs"@), "ca.kylesimons.bit"@)
}

/// The directory of the log, and the log in it.
pub fn log_path(home: &str) -> (r: (String, String))
    ensures
        r.0@ == log_dir(home@),
        r.1@ == paths::below(log_dir(home@), "bit.log"@),
{
    let logs = paths::join(home, "Library/Logs");
    let dir = paths::join(logs.as_str(), "ca.kylesimons.bit");
    let file = paths::join(dir.as_str(), "bit.log");
    (dir, file)
}

// ============================ what is kept to ============================

/// A press ends a recording whatever else is the case, and starts one exactly where none
/// is on, there is a microphone and there is a model. Without a microphone it is refused,
/// with the reason that is known; without a model alone it leads to the settings.
pub proof fn law_presses_toggle(
    is_recording: bool,
    available: bool,
    last_error: Option<Seq<char>>,
    model_ready: bool,
)
    ensures
        ({
            let r = toggled(is_recording, available, last_error, model_ready);
            &&& r is Finish <==> is_recording
            &&& r is Listen <==> !is_recording && available && model_ready
            &&& r is Refuse <==> !is_recording && !available
            &&& r is OpenSettings <==> !is_recording && available && !model_ready
            &&& r matches ToggleView::Refuse(why) ==> (last_error matches Some(e) ==> why == e)
        }),
{
}

/// A press counts exactly where it comes 350 milliseconds or more after the last that
/// counted, and is then the last itself; nothing but the key going down ever is.
pub proof fn law_presses_count(last: u128, now: u128)
    ensures
        now >= last + 350_000_000 ==> last_press(last, (true, now)) == now,
        now < last + 350_000_000 ==> last_press(last, (true, now)) == last,
        last_press(last, (false, now)) == last,
        elapsed(last, now) >= DEBOUNCE_NS <==> now >= last + 350_000_000,
{
}

/// What is heard is the transcript without the whitespace around it, and nothing where
/// there is none.
pub proof fn law_transcripts_are_heard(
    transcript: Result<String, String>,
    before: Seq<char>,
    said: Seq<char>,
    behind: Seq<char>,
)
    requires
        forall|i: int| 0 <= i < before.len() ==> text::whitespace(#[trigger] before[i]),
        forall|i: int| 0 <= i < behind.len() ==> text::whitespace(#[trigger] behind[i]),
        said.len() > 0 ==> !text::whitespace(said[0]) && !text::whitespace(said.last()),
        transcript matches Ok(t) ==> t@ == before + said + behind,
    ensures
        transcript is Ok ==> heard_in(transcript) == said,
        transcript is Err ==> heard_in(transcript).len() == 0,
{
    text::law_trimming_ignores_whitespace(before, said, behind);
    if said.len() == 0 {
        assert(text::trimmed(said) =~= said);
    }
}

/// After a recording was stopped here, what was recorded is transcribed; what was heard
/// is put to the agent, with the very settings at hand, where anything was heard and
/// there is a key; and the agent's answer is what is said, a single no where it failed.
/// Anything else that comes in between changes nothing.
pub proof fn law_recordings_are_answered(
    transcript: Result<String, String>,
    config: Option<AgentConfig>,
    outcome: Result<(bool, u8), String>,
    stage: FinishStage,
    event: FinishEvent,
)
    ensures
        finished(FinishStage::Stopping, FinishEvent::Stopped { here: true }) == (
            FinishStage::Transcribing,
            FinishView::Think,
        ),
        ({
            let (next, action) = finished(
                FinishStage::Transcribing,
                FinishEvent::Transcribed { transcript, config },
            );
            let heard = heard_in(transcript);
            &&& heard.len() > 0 && config is Some ==> {
                &&& next is Asking
                &&& action matches FinishView::Ask { heard: h, config: c } && h == heard && Some(c)
                    == config
            }
            &&& heard.len() == 0 || config is None ==> next is Over && (
            action matches FinishView::Rest { heard: h } && h == heard)
        }),
        finished(FinishStage::Asking, FinishEvent::Answered(outcome)).0 is Over,
        outcome matches Ok(v) ==> finished(FinishStage::Asking, FinishEvent::Answered(outcome)).1
            == (FinishView::Say { yes: v.0, times: v.1 }),
        outcome is Err ==> finished(FinishStage::Asking, FinishEvent::Answered(outcome)).1 == (
        FinishView::Say { yes: false, times: 1 }),
        stage is Over ==> finished(stage, event) == (stage, FinishView::Nothing),
        stage is Stopping && !(event is Stopped) ==> finished(stage, event) == (
            stage,
            FinishView::Nothing,
        ),
        stage is Transcribing && !(event is Transcribed) ==> finished(stage, event) == (
            stage,
            FinishView::Nothing,
        ),
        stage is Asking && !(event is Answered) ==> finished(stage, event) == (
            stage,
            FinishView::Nothing,
        ),
{
}

/// A Bit that is dragged takes clicks, and otherwise it does where the cursor is over it;
/// where that is not known, nothing is told.
pub proof fn law_clicks_go_to_the_bit(last: Option<bool>, over: bool)
    ensures
        takes_clicks(true, Some(over)) == Some(true),
        takes_clicks(true, None) == Some(true),
        takes_clicks(false, Some(over)) == Some(over),
        takes_clicks(false, None) is None,
        polled(last, false, None) == (last, None::<bool>),
        last != Some(over) ==> polled(last, false, Some(over)).1 == Some(!over),
{
}

/// The log lies in the directory for logs, below the home directory.
pub proof fn law_log_lies_at_home(home: Seq<char>)
    requires
        home.len() > 0,
        home.last() != '/',
    ensures
        log_dir(home) == home + "/Library/Logs/ca.kylesimons.bit"@,
{
    reveal_strlit("Library/Logs");
    reveal_strlit("ca.kylesimons.bit");
    reveal_strlit("/Library/Logs/ca.kylesimons.bit");
    assert("Library/Logs"@.len() == 12 && "Library/Logs"@.last() == 's');
    assert("ca.kylesimons.bit"@.len() == 17);
    assert("/Library/Logs/ca.kylesimons.bit"@ =~= seq!['/'] + "Library/Logs"@ + seq!['/']
        + "ca.kylesimons.bit"@);
    paths::law_below(home, "Library/Logs"@);
    let logs = paths::below(home, "Library/Logs"@);
    assert(logs.last() == 's');
    paths::law_below(logs, "ca.kylesimons.bit"@);
    assert(log_dir(home) =~= home + "/Library/Logs/ca.kylesimons.bit"@);
}

/// The word that is said for an answer is one that, taken as a reply, gives that answer.
pub proof fn law_answers_are_said_in_their_word(yes: bool)
    ensures
        crate::agent::verdict_of(verdict_word(yes)) == (yes, 1u8),
{
    let w = verdict_word(yes);
    reveal_strlit("yes");
    reveal_strlit("no");
    assert("yes"@.len() == 3 && "no"@.len() == 2);
    assert(w[0] == (if yes { 'y' } else { 'n' }));
    assert forall|i: int| 0 <= i < w.len() implies !text::Cut::NonAlphabetic.cuts(
        #[trigger] w[i],
    ) by {
        if yes {
            assert(w[0] == 'y' && w[1] == 'e' && w[2] == 's');
        } else {
            assert(w[0] == 'n' && w[1] == 'o');
        }
    }
    text::law_uncut_is_whole(w, text::Cut::NonAlphabetic);
    let words = seq![w];
    assert(words.drop_last() =~= Seq::empty());
    assert(words.last() == w);
    reveal_with_fuel(crate::agent::yes_count, 2);
    reveal_with_fuel(crate::agent::no_count, 2);
    reveal_strlit("yeah");
    reveal_strlit("yep");
    reveal_strlit("yup");
    reveal_strlit("nope");
    reveal_strlit("nah");
    assert("yeah"@[0] == 'y' && "yep"@[0] == 'y' && "yup"@[0] == 'y');
    assert("nope"@[0] == 'n' && "nah"@[0] == 'n' && "no"@[0] == 'n' && "yes"@[0] == 'y');
}

/// An installed Bit starts with the session exactly where the user wants it to; one that
/// is being developed refuses either way.
pub proof fn law_autostart_is_as_wanted(debug_build: bool, enabled: bool, r: Result<bool, String>)
    requires
        autostarts(debug_build, enabled, r),
    ensures
        r is Err <==> debug_build,
        r matches Ok(b) ==> b == enabled,
{
}

/// Eight windows of the loudness make a second, but for the samples that do not divide.
pub proof fn law_loudness_is_over_an_eighth(sample_rate: u32)
    ensures
        8 * eighth(sample_rate) <= sample_rate < 8 * eighth(sample_rate) + 8,
{
}

/// Only the two entries of the menu do anything, each its own thing.
pub proof fn law_menu_entries(id: Seq<char>)
    ensures
        menu_does("settings"@) is OpenSettings,
        menu_does("quit"@) is Quit,
        menu_does(id) is OpenSettings ==> id == "settings"@,
        menu_does(id) is Quit ==> id == "quit"@,
{
    reveal_strlit("settings");
    reveal_strlit("quit");
    assert("settings"@.len() == 8 && "quit"@.len() == 4);
}

/// The overlay takes on a state by name exactly with the actions that show it thinking or
/// at rest.
pub proof fn law_overlay_states(action: FinishView, r: Option<&'static str>)
    requires
        is_overlay_state(action, r),
    ensures
        r is Some <==> shown_by(action).len() == 1 && !(shown_by(action)[0] is Verdict),
        r matches Some(s) ==> (s@ == "thinking"@ <==> shown_by(action)[0] is Thinking),
        r matches Some(s) ==> (s@ == "neutral"@ <==> shown_by(action)[0] is Neutral),
{
    reveal_strlit("thinking");
    reveal_strlit("neutral");
    assert("thinking"@.len() == 8 && "neutral"@.len() == 7);
}

} // verus!
