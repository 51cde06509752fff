use bit::tools::CommandLine;
use bit::workflows::{
    ascript, delete, expand_tilde, find, ghostty_result, ghostty_script, load_all, new_id,
    not_found, run, run_ghostty, run_on, step_kind, store_path, upsert, GhosttyTab, RunStep,
    Step, StepAction, Workflow,
};

fn workflow(id: &str, name: &str, steps: Vec<Step>) -> Workflow {
    Workflow {
        id: id.to_string(),
        name: name.to_string(),
        trigger_phrases: Vec::new(),
        enabled: true,
        steps,
    }
}

fn tab(dir: &str, command: Option<&str>) -> GhosttyTab {
    GhosttyTab {
        dir: dir.to_string(),
        command: command.map(|c| c.to_string()),
        title: None,
    }
}

fn line(program: &str, args: &[&str]) -> CommandLine {
    CommandLine {
        program: program.to_string(),
        args: args.iter().map(|a| a.to_string()).collect(),
    }
}

#[test]
fn saved_workflows_are_found() {
    assert!(load_all(None).is_empty());
    assert_eq!(store_path("/c"), "/c/workflows.json");
    let (all, at) = upsert(Vec::new(), workflow("", "Heat Sink!", Vec::new()), 42);
    assert_eq!((at, all[0].id.as_str()), (0, "heat-sink-42"));
    let (all, at) = upsert(all, workflow("own", "other", Vec::new()), 43);
    assert_eq!((at, all[1].id.as_str()), (1, "own"));
    let step = Step::Delay { ms: 1 };
    let (all, at) = upsert(all, workflow("ignored", "HEAT SINK!", vec![step.clone()]), 44);
    assert_eq!((at, all.len()), (0, 2));
    assert_eq!(all[0], workflow("heat-sink-42", "HEAT SINK!", vec![step]));
    assert_eq!(find(&all, "heat sink!"), Some(0));
    assert_eq!(find(&all, "THER"), Some(1));
    assert_eq!(find(&all, "e"), Some(0));
    assert_eq!(find(&all, "none"), None);
    assert_eq!(not_found("none"), "no workflow named 'none'");
}

#[test]
fn deleted_workflows_are_gone() {
    let all = vec![
        workflow("1", "a", Vec::new()),
        workflow("2", "b", Vec::new()),
        workflow("3", "A", Vec::new()),
    ];
    let kept = delete(all.clone(), "A").unwrap();
    assert_eq!(kept, vec![workflow("2", "b", Vec::new())]);
    assert_eq!(delete(all.clone(), "2").unwrap().len(), 2);
    assert_eq!(delete(all, "x"), Err("no workflow named 'x'".to_string()));
}

#[test]
fn ids_come_from_name_and_time() {
    assert_eq!(new_id("--Déjà Vu 2--", 7), "déjà-vu-2-7");
    assert_eq!(new_id("!!", 0), "-0");
}

#[test]
fn steps_run_in_order() {
    let wf = workflow(
        "",
        "w",
        vec![
            Step::Shell { command: "ls".to_string() },
            Step::OpenApp { name: "Safari".to_string() },
            Step::OpenUrl { url: "u".to_string() },
            Step::AppleScript { script: "s".to_string() },
            Step::Ghostty { tabs: Vec::new() },
            Step::Focus { enabled: true },
            Step::Delay { ms: 5 },
        ],
    );
    let kinds: Vec<&str> = wf.steps.iter().map(step_kind).collect();
    assert_eq!(
        kinds,
        ["shell", "open_app", "open_url", "applescript", "ghostty", "focus", "delay"]
    );
    let actions = vec![
        StepAction::Run(line("zsh", &["-lc", "ls"])),
        StepAction::Run(line("open", &["-a", "Safari"])),
        StepAction::Run(line("open", &["u"])),
        StepAction::Run(line("osascript", &["-e", "s"])),
        StepAction::Ghostty,
        StepAction::Focus { enabled: true },
        StepAction::Sleep { ms: 5 },
    ];
    let mut next = run(&wf);
    for (i, action) in actions.into_iter().enumerate() {
        assert_eq!(next, RunStep::Do { step: i, action });
        next = run_on(&wf, i, Ok("fine".to_string()));
    }
    assert_eq!(next, RunStep::Done(Ok("ran workflow 'w' (7 steps)".to_string())));
    assert_eq!(
        run_on(&wf, 4, Err("no tabs specified".to_string())),
        RunStep::Done(Err("step 5 (ghostty) failed: no tabs specified".to_string()))
    );
}

#[test]
fn an_empty_workflow_succeeds() {
    assert_eq!(
        run(&workflow("", "w", Vec::new())),
        RunStep::Done(Ok("ran workflow 'w' (0 steps)".to_string()))
    );
}

#[test]
fn scripts_are_escaped() {
    assert_eq!(ascript("say \"a\\b\""), "say \\\"a\\\\b\\\"");
    assert_eq!(expand_tilde("~/x", Some("/h")), "/h/x");
    assert_eq!(expand_tilde("~", Some("/h")), "/h");
    assert_eq!(expand_tilde("~x", Some("/h")), "~x");
    assert_eq!(expand_tilde("~/x", None), "~/x");
}

#[test]
fn ghostty_windows_get_their_tabs() {
    let tabs = vec![tab("~/p", Some("bun \"dev\"")), tab("/q", Some("  ")), tab("/r", None)];
    assert_eq!(
        ghostty_script(&tabs, Some("/h")),
        "tell application \"Ghostty\"\n    activate\n\
         \x20   set cfg0 to new surface configuration\n\
         \x20   set initial working directory of cfg0 to \"/h/p\"\n\
         \x20   set initial input of cfg0 to \"bun \\\"dev\\\"\\n\"\n\
         \x20   set win to new window with configuration cfg0\n\
         \x20   set cfg1 to new surface configuration\n\
         \x20   set initial working directory of cfg1 to \"/q\"\n\
         \x20   new tab in win with configuration cfg1\n\
         \x20   set cfg2 to new surface configuration\n\
         \x20   set initial working directory of cfg2 to \"/r\"\n\
         \x20   new tab in win with configuration cfg2\n\
         end tell\n"
    );
    assert_eq!(run_ghostty(&Vec::new(), None), Err("no tabs specified".to_string()));
    let c = run_ghostty(&tabs, None).unwrap();
    assert_eq!((c.program.as_str(), c.args[0].as_str()), ("osascript", "-e"));
    assert!(c.args[1].contains("\"~/p\""));
    assert_eq!(
        ghostty_result(3, true, &Vec::new()),
        Ok("opened Ghostty with 3 tab(s)".to_string())
    );
    assert_eq!(
        ghostty_result(3, false, &b"bad\xff".to_vec()),
        Err("Ghostty AppleScript failed (is Ghostty 1.3+ installed and Automation allowed?): \
             bad\u{fffd}"
            .to_string())
    );
}
