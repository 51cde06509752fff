use bit::config::AgentConfig;
use bit::session::{
    answer, finish_recording, heard, log_path, loudness_window, menu_action, on_toggle,
    overlay_state, question, set_autostart, verdict_kind, Debounce, FinishAction, FinishEvent,
    FinishStage, MenuAction, Passthrough, SilenceWatcher, Toggle, Watch, MAX_TICKS,
};

fn ticks_until_end(loud: &[bool]) -> Option<usize> {
    let mut w = SilenceWatcher::new();
    for (i, l) in loud.iter().enumerate() {
        assert!(w.is_waiting());
        if w.tick(true, *l) == Watch::Finish {
            return Some(i + 1);
        }
    }
    None
}

#[test]
fn one_press_is_one_toggle() {
    let ms = 1_000_000u128;
    let mut d = Debounce::new(1000 * ms);
    assert!(!d.press(true, true, 1349 * ms));
    assert!(!d.press(false, true, 2000 * ms));
    assert!(!d.press(true, false, 2000 * ms));
    assert!(d.press(true, true, 1350 * ms));
    assert!(!d.press(true, true, 1351 * ms));
    assert!(!d.press(true, true, 1000 * ms));
    assert!(d.press(true, true, 1700 * ms));
}

#[test]
fn a_press_starts_or_ends_listening() {
    assert!(matches!(on_toggle(true, false, None, false), Toggle::Finish));
    assert!(matches!(on_toggle(false, true, None, true), Toggle::Listen));
    assert!(matches!(on_toggle(false, true, None, false), Toggle::OpenSettings));
    assert!(matches!(on_toggle(false, false, None, true),
        Toggle::Refuse(r) if r == "microphone unavailable"));
    assert!(matches!(on_toggle(false, false, Some("no mic".to_string()), true),
        Toggle::Refuse(r) if r == "no mic"));
}

#[test]
fn listening_ends_with_silence() {
    let mut heard = vec![false; 50];
    heard.push(true);
    heard.extend(vec![false; 10]);
    assert_eq!(ticks_until_end(&heard), None);
    heard.push(true);
    heard.extend(vec![false; 11]);
    assert_eq!(ticks_until_end(&heard), Some(50 + 1 + 10 + 1 + 11));
}

#[test]
fn listening_ends_after_thirty_seconds() {
    assert_eq!(ticks_until_end(&[false; 400]), Some(MAX_TICKS as usize));
    assert_eq!(ticks_until_end(&[true; 400]), Some(MAX_TICKS as usize));
    let mut w = SilenceWatcher::new();
    assert_eq!(w.tick(false, true), Watch::Ended);
    assert_eq!(loudness_window(48_000), 6000);
    assert_eq!(loudness_window(0), 0);
}

#[test]
fn what_was_heard_is_asked() {
    let cfg = AgentConfig {
        provider: String::new(),
        base_url: String::new(),
        model: String::new(),
        api_key: "k".to_string(),
    };
    assert_eq!(heard(Ok(" hi \n".to_string())), "hi");
    assert_eq!(heard(Err("e".to_string())), "");
    assert_eq!(question("hi", Some(cfg.clone())), Some(cfg.clone()));
    assert_eq!(question("", Some(cfg)), None);
    assert_eq!(question("hi", None), None);
}

#[test]
fn a_failed_agent_says_no_once() {
    assert_eq!(answer(Ok((true, 3))), (true, 3));
    assert_eq!(answer(Err("e".to_string())), (false, 1));
    assert_eq!((verdict_kind(true), verdict_kind(false)), ("yes", "no"));
}

fn config() -> Option<AgentConfig> {
    Some(AgentConfig {
        provider: String::new(),
        base_url: String::new(),
        model: String::new(),
        api_key: "k".to_string(),
    })
}

fn shown(events: Vec<FinishEvent>) -> (FinishStage, Vec<String>) {
    let mut stage = FinishStage::Stopping;
    let mut shown = Vec::new();
    for event in events {
        let (next, action) = finish_recording(stage, event);
        stage = next;
        if let Some(state) = overlay_state(&action) {
            shown.push(state.to_string());
        }
        if let FinishAction::Say { yes, times } = action {
            shown.push(format!("{} x{times}", verdict_kind(yes)));
        }
    }
    (stage, shown)
}

fn transcribed(text: &str, config: Option<AgentConfig>) -> FinishEvent {
    FinishEvent::Transcribed { transcript: Ok(text.to_string()), config }
}

#[test]
fn thinking_ends_once() {
    let here = || FinishEvent::Stopped { here: true };
    let yes = || FinishEvent::Answered(Ok((true, 2)));
    let over = |states: &[&str]| {
        (FinishStage::Over, states.iter().map(|s| s.to_string()).collect::<Vec<_>>())
    };
    assert_eq!(shown(vec![FinishEvent::Stopped { here: false }, here(), yes()]), over(&[]));
    assert_eq!(
        shown(vec![here(), transcribed(" hi ", config()), yes(), yes()]),
        over(&["thinking", "yes x2"])
    );
    assert_eq!(
        shown(vec![
            here(),
            transcribed("hi", config()),
            FinishEvent::Answered(Err("e".to_string()))
        ]),
        over(&["thinking", "no x1"])
    );
    assert_eq!(shown(vec![here(), transcribed(" ", config()), yes()]), over(&["thinking", "neutral"]));
    assert_eq!(shown(vec![here(), transcribed("hi", None), here()]), over(&["thinking", "neutral"]));
    let failed = FinishEvent::Transcribed { transcript: Err("e".to_string()), config: config() };
    assert_eq!(shown(vec![here(), failed]), over(&["thinking", "neutral"]));
    assert_eq!(shown(vec![yes(), here(), here()]).0, FinishStage::Transcribing);
    let (_, action) = finish_recording(FinishStage::Transcribing, transcribed(" hi ", config()));
    assert!(matches!(action, FinishAction::Ask { heard, config }
        if heard == "hi" && config.api_key == "k"));
}

#[test]
fn clicks_pass_through_around_the_bit() {
    let mut p = Passthrough::new();
    assert_eq!(p.poll(false, None), None);
    assert_eq!(p.poll(false, Some(false)), Some(true));
    assert_eq!(p.poll(false, Some(false)), None);
    assert_eq!(p.poll(true, Some(false)), Some(false));
    assert_eq!(p.poll(true, None), None);
    assert_eq!(p.poll(false, Some(true)), None);
    assert_eq!(p.poll(false, Some(false)), Some(true));
}

#[test]
fn the_menu_opens_settings_and_quits() {
    assert_eq!(menu_action("settings"), MenuAction::OpenSettings);
    assert_eq!(menu_action("quit"), MenuAction::Quit);
    assert_eq!(menu_action("x"), MenuAction::Nothing);
}

#[test]
fn development_builds_do_not_start_with_the_session() {
    assert_eq!(set_autostart(false, true), Ok(true));
    assert_eq!(set_autostart(false, false), Ok(false));
    assert_eq!(
        set_autostart(true, true),
        Err("Launch on startup is disabled in development builds — the dev binary can’t find \
             its UI after a reboot. Build and install the app first: `bun run tauri build`, then \
             open the resulting .app and re-enable this."
            .to_string())
    );
}

#[test]
fn the_log_lies_in_the_library() {
    assert_eq!(
        log_path("/h"),
        (
            "/h/Library/Logs/ca.kylesimons.bit".to_string(),
            "/h/Library/Logs/ca.kylesimons.bit/bit.log".to_string()
        )
    );
}
