use bit::json::Json;
use bit::output::{cap, MAX_OUTPUT};
use bit::tools::{
    definitions, dnd_status, execute, list_shortcuts, run, set_focus, CommandLine, ToolAction,
};

fn line(program: &str, args: &[&str]) -> CommandLine {
    CommandLine {
        program: program.to_string(),
        args: args.iter().map(|a| a.to_string()).collect(),
    }
}

fn input(key: &str, value: &str) -> Json {
    Json::object().with(key, Json::text(value))
}

fn err(text: &str) -> Result<ToolAction, String> {
    Err(text.to_string())
}

#[test]
fn calls_become_commands() {
    assert_eq!(
        execute(true, "run_shell", &input("command", "ls")),
        Ok(ToolAction::Run(line("zsh", &["-lc", "ls"])))
    );
    assert_eq!(
        execute(false, "open_app", &input("name", "Safari")),
        Ok(ToolAction::Run(line("open", &["-a", "Safari"])))
    );
    assert_eq!(
        execute(false, "open_url", &input("url", "http://x")),
        Ok(ToolAction::Run(line("open", &["http://x"])))
    );
    assert_eq!(
        execute(true, "run_applescript", &input("script", "beep")),
        Ok(ToolAction::Run(line("osascript", &["-e", "beep"])))
    );
    assert_eq!(
        execute(false, "set_focus", &Json::object().with("enabled", Json::Bool(true))),
        Ok(ToolAction::Focus { enabled: true })
    );
    assert_eq!(execute(false, "mcp__gmail__x", &Json::Null), Ok(ToolAction::Mcp));
}

#[test]
fn calls_without_arguments_are_refused() {
    let none = Json::object();
    assert_eq!(execute(true, "run_shell", &none), err("missing command"));
    assert_eq!(execute(true, "open_app", &none), err("missing name"));
    assert_eq!(execute(true, "open_url", &none), err("missing url"));
    assert_eq!(execute(true, "set_focus", &input("enabled", "yes")), err("missing enabled"));
    assert_eq!(execute(true, "set_focus", &none), err("missing enabled"));
    assert_eq!(execute(true, "run_applescript", &none), err("missing script"));
    assert_eq!(execute(true, "fly", &none), err("unknown tool: fly"));
}

#[test]
fn raw_execution_needs_developer_mode() {
    assert_eq!(
        execute(false, "run_shell", &input("command", "ls")),
        err("unknown tool: run_shell")
    );
    assert_eq!(
        execute(false, "run_applescript", &input("script", "beep")),
        err("unknown tool: run_applescript")
    );
    let names = |dev: bool| -> Vec<String> {
        definitions(dev)
            .iter()
            .map(|d| d.str_at("name").unwrap().to_string())
            .collect()
    };
    assert_eq!(names(false), ["open_app", "open_url", "set_focus"]);
    assert_eq!(
        names(true),
        ["run_shell", "open_app", "open_url", "set_focus", "run_applescript"]
    );
}

#[test]
fn offered_tools_can_be_called() {
    for dev in [false, true] {
        for d in definitions(dev) {
            let r = execute(dev, d.str_at("name").unwrap(), &Json::object());
            assert!(r.unwrap_err().starts_with("missing "));
        }
    }
}

#[test]
fn do_not_disturb_needs_its_shortcuts() {
    assert_eq!(list_shortcuts(), line("shortcuts", &["list"]));
    let both = b" Bit DND On\r\nother\nBit DND Off \n".to_vec();
    let one = b"Bit DND On\nBit DND Offline\n".to_vec();
    assert!(dnd_status(Some(&both)));
    assert!(!dnd_status(Some(&one)));
    assert!(!dnd_status(None));
    assert_eq!(set_focus(true, &one), Ok(line("shortcuts", &["run", "Bit DND On"])));
    assert_eq!(
        set_focus(false, &one),
        Err("Shortcut 'Bit DND Off' not found. The user must create Shortcuts named \
             'Bit DND On' and 'Bit DND Off' (each a 'Set Focus' action) in the Shortcuts app."
            .to_string())
    );
}

#[test]
fn output_is_put_together() {
    let out = |o: &[u8], e: &[u8], ok: bool, code: Option<i32>| {
        run(&o.to_vec(), &e.to_vec(), ok, code)
    };
    assert_eq!(out(b"hi", b" \n", true, Some(0)), "hi");
    assert_eq!(out(b"hi", b"warn", true, Some(0)), "hi\n[stderr] warn");
    assert_eq!(out(b"", b"no", false, Some(2)), "\n[stderr] no\n[exit code: 2]");
    assert_eq!(out(b"", b"", false, None), "\n[exit code: -1]");
    assert_eq!(out(b" \n", b"", true, Some(0)), "(no output; succeeded)");
    assert_eq!(out(b"a\xffb", b"", true, Some(0)), "a\u{fffd}b");
}

#[test]
fn output_is_cut_to_size() {
    assert_eq!(cap("x".repeat(MAX_OUTPUT)), "x".repeat(MAX_OUTPUT));
    let cut = run(&vec![b'x'; MAX_OUTPUT + 1], &Vec::new(), true, Some(0));
    assert_eq!(cut, format!("{}\n…[truncated]", "x".repeat(MAX_OUTPUT)));
    assert_eq!(
        cap("é".repeat(MAX_OUTPUT)),
        format!("{}\n…[truncated]", "é".repeat(MAX_OUTPUT / 2))
    );
}

#[test]
fn output_is_cut_between_characters() {
    let inside = format!("x{}", "é".repeat(MAX_OUTPUT));
    assert_eq!(
        run(&inside.clone().into_bytes(), &Vec::new(), true, Some(0)),
        format!("x{}\n…[truncated]", "é".repeat(MAX_OUTPUT / 2 - 1))
    );
    for width in ["x", "é", "…", "😀"] {
        for shift in 0..5 {
            let s = format!("{}{}", "y".repeat(shift), width.repeat(MAX_OUTPUT + 1));
            let out = cap(s.clone());
            let kept = out.strip_suffix("\n…[truncated]").unwrap();
            assert!(s.starts_with(kept));
            assert!(kept.len() <= MAX_OUTPUT && kept.len() > MAX_OUTPUT - 4);
        }
    }
}
