//! How Ghostty's AppleScript is read: what a script of commands leaves on the
//! screen. The scripts that open windows are held against this reading.

use crate::text;
use crate::workflows;
use crate::workflows::GhosttyTab;
use vstd::prelude::*;
use vstd::string::*;

verus! {

/// What a surface configuration says so far: the working directory, and the text that is
/// typed once the surface is open.
pub struct Surface {
    pub dir: Option<Seq<char>>,
    pub input: Option<Seq<char>>,
}

/// The configurations by their variables, and the windows with their tabs, each as it
/// was configured when it was opened.
pub struct Screen {
    pub configs: Map<Seq<char>, Surface>,
    pub windows: Seq<Seq<Surface>>,
}

/// The length of the word at the start of a text.
pub open spec fn word_len(s: Seq<char>) -> nat
    decreases s.len(),
{
    if s.len() == 0 || s[0] == ' ' || s[0] == '\n' {
        0
    } else {
        1 + word_len(s.drop_first())
    }
}

/// The word at the start of a text, and what follows it.
pub open spec fn word(s: Seq<char>) -> (Seq<char>, Seq<char>) {
    (s.take(word_len(s) as int), s.skip(word_len(s) as int))
}

/// What a string literal says, from behind its opening quote, and what follows its
/// closing one. A backslash stands before a quote, a backslash or an `n` for a new line.
pub open spec fn literal(s: Seq<char>) -> Option<(Seq<char>, Seq<char>)>
    decreases s.len(),
{
    if s.len() == 0 {
        None
    } else if s[0] == '"' {
        Some((Seq::empty(), s.drop_first()))
    } else if s[0] == '\\' {
        if s.len() < 2 || !(s[1] == '\\' || s[1] == '"' || s[1] == 'n') {
            None
        } else {
            match literal(s.skip(2)) {
                Some((t, rest)) => Some(
                    (
                        seq![
                            if s[1] == 'n' {
                                '\n'
                            } else {
                                s[1]
                            },
                        ] + t,
                        rest,
                    ),
                ),
                None => None,
            }
        }
    } else {
        match literal(s.drop_first()) {
            Some((t, rest)) => Some((seq![s[0]] + t, rest)),
            None => None,
        }
    }
}

/// A variable and the string it is set to, where that is what comes, and what follows.
pub open spec fn setting(s: Seq<char>) -> Option<(Seq<char>, Seq<char>, Seq<char>)> {
    let (name, behind) = word(s);
    match text::after_prefix(behind, " to \""@) {
        Some(quoted) => match literal(quoted) {
            Some((t, end)) => match text::after_prefix(end, "\n"@) {
                Some(rest) => Some((name, t, rest)),
                None => None,
            },
            None => None,
        },
        None => None,
    }
}

/// A variable at the end of a line, where that is what comes, and what follows the line.
pub open spec fn last_word(s: Seq<char>) -> Option<(Seq<char>, Seq<char>)> {
    let (name, behind) = word(s);
    match text::after_prefix(behind, "\n"@) {
        Some(rest) => Some((name, rest)),
        None => None,
    }
}

/// The screen after the first command of a script, and the rest of the script.
#[verifier::opaque]
pub open spec fn command(s: Seq<char>, screen: Screen) -> Option<(Screen, Seq<char>)> {
    let known = screen.configs;
    if let Some(r) = text::after_prefix(s, "    set initial working directory of "@) {
        match setting(r) {
            Some((name, t, rest)) => if known.dom().contains(name) {
                let surface = Surface { dir: Some(t), ..known[name] };
                Some((Screen { configs: known.insert(name, surface), ..screen }, rest))
            } else {
                None
            },
            None => None,
        }
    } else if let Some(r) = text::after_prefix(s, "    set initial input of "@) {
        match setting(r) {
            Some((name, t, rest)) => if known.dom().contains(name) {
                let surface = Surface { input: Some(t), ..known[name] };
                Some((Screen { configs: known.insert(name, surface), ..screen }, rest))
            } else {
                None
            },
            None => None,
        }
    } else if let Some(r) = text::after_prefix(s, "    set win to new window with configuration "@) {
        match last_word(r) {
            Some((name, rest)) => if known.dom().contains(name) {
                Some((Screen { windows: screen.windows.push(seq![known[name]]), ..screen }, rest))
            } else {
                None
            },
            None => None,
        }
    } else if let Some(r) = text::after_prefix(s, "    new tab in win with configuration "@) {
        match last_word(r) {
            Some((name, rest)) => if known.dom().contains(name) && screen.windows.len() > 0 {
                let window = screen.windows.last().push(known[name]);
                Some((Screen { windows: screen.windows.drop_last().push(window), ..screen }, rest))
            } else {
                None
            },
            None => None,
        }
    } else if let Some(r) = text::after_prefix(s, "    set "@) {
        let (name, behind) = word(r);
        match text::after_prefix(behind, " to new surface configuration\n"@) {
            Some(rest) => {
                let surface = Surface { dir: None, input: None };
                Some((Screen { configs: known.insert(name, surface), ..screen }, rest))
            },
            None => None,
        }
    } else {
        None
    }
}

/// The windows that the commands of a script leave, from the given screen on; none where
/// a command cannot be read or names what there is not.
pub open spec fn performed(s: Seq<char>, screen: Screen) -> Option<Seq<Seq<Surface>>>
    decreases s.len(),
{
    if s == "end tell\n"@ {
        Some(screen.windows)
    } else {
        match command(s, screen) {
            Some((then, rest)) => if rest.len() < s.len() {
                performed(rest, then)
            } else {
                None
            },
            None => None,
        }
    }
}

/// The windows that a whole script opens.
pub open spec fn opened_by(script: Seq<char>) -> Option<Seq<Seq<Surface>>> {
    match text::after_prefix(script, "tell application \"Ghostty\"\n    activate\n"@) {
        Some(commands) => performed(
            commands,
            Screen { configs: Map::empty(), windows: Seq::empty() },
        ),
        None => None,
    }
}

/// How a tab is to be opened: in its directory, and with its command typed and entered
/// where it has one that is not blank.
pub open spec fn wanted(tab: GhosttyTab, home: Option<Seq<char>>) -> Surface {
    Surface {
        dir: Some(workflows::expanded(tab.dir@, home)),
        input: match tab.command {
            Some(cmd) => if exists|i: int| 0 <= i < cmd@.len() && !text::whitespace(
                #[trigger] cmd@[i],
            ) {
                Some(cmd@.push('\n'))
            } else {
                None
            },
            None => None,
        },
    }
}

/// The script for a list of tabs opens one window with exactly those tabs, in their
/// order: each in its own directory and with its own command.
pub proof fn law_script_opens_the_tabs(tabs: Seq<GhosttyTab>, home: Option<Seq<char>>)
    requires
        tabs.len() > 0,
    ensures
        opened_by(workflows::script_of(tabs, home)) == Some(
            seq![Seq::new(tabs.len(), |i: int| wanted(tabs[i], home))],
        ),
{
    let head = "tell application \"Ghostty\"\n    activate\n"@;
    let n = tabs.len() as int;
    let start = Screen { configs: Map::empty(), windows: Seq::empty() };
    let lines = workflows::all_tab_lines(tabs, home, n);
    text::law_prefixes_come_off(head, lines + "end tell\n"@);
    assert(workflows::script_of(tabs, home) =~= head + (lines + "end tell\n"@));
    lemma_tabs(tabs, home, n, "end tell\n"@);
    let end = screen_after(tabs, home, n);
    assert(end.windows =~= seq![Seq::new(tabs.len(), |i: int| wanted(tabs[i], home))]);
}

/// The variable of the tab at place `i`.
spec fn variable(i: int) -> Seq<char> {
    "cfg"@ + text::decimal(i as nat)
}

/// The screen when the first `n` tabs are open.
spec fn screen_after(tabs: Seq<GhosttyTab>, home: Option<Seq<char>>, n: int) -> Screen
    decreases n,
{
    if n <= 0 {
        Screen { configs: Map::empty(), windows: Seq::empty() }
    } else {
        Screen {
            configs: screen_after(tabs, home, n - 1).configs.insert(
                variable(n - 1),
                wanted(tabs[n - 1], home),
            ),
            windows: seq![Seq::new(n as nat, |i: int| wanted(tabs[i], home))],
        }
    }
}

proof fn lemma_tabs(tabs: Seq<GhosttyTab>, home: Option<Seq<char>>, n: int, rest: Seq<char>)
    requires
        0 <= n <= tabs.len(),
    ensures
        performed(
            workflows::all_tab_lines(tabs, home, n) + rest,
            screen_after(tabs, home, 0),
        ) == performed(rest, screen_after(tabs, home, n)),
    decreases n,
{
    let lines = workflows::all_tab_lines(tabs, home, n);
    if n == 0 {
        assert(lines + rest =~= rest);
    } else {
        let before = workflows::all_tab_lines(tabs, home, n - 1);
        let one = workflows::tab_lines(n - 1, tabs[n - 1], home);
        assert(lines + rest =~= before + (one + rest));
        lemma_tabs(tabs, home, n - 1, one + rest);
        let screen = screen_after(tabs, home, n - 1);
        lemma_tab(n - 1, tabs[n - 1], home, screen, rest);
        let then = tab_opened(n - 1, tabs[n - 1], home, screen);
        let want = screen_after(tabs, home, n);
        assert(then.windows =~= want.windows) by {
            let all = Seq::new(n as nat, |i: int| wanted(tabs[i], home));
            if n == 1 {
                assert(all =~= seq![wanted(tabs[0], home)]);
            } else {
                let fewer = Seq::new((n - 1) as nat, |i: int| wanted(tabs[i], home));
                assert(screen.windows =~= seq![fewer]);
                assert(screen.windows.drop_last() =~= Seq::empty());
                assert(fewer.push(wanted(tabs[n - 1], home)) =~= all);
            }
        }
        assert(then == want);
    }
}

/// The screen after the tab at place `i` was opened.
spec fn tab_opened(
    i: int,
    tab: GhosttyTab,
    home: Option<Seq<char>>,
    screen: Screen,
) -> Screen {
    let surface = wanted(tab, home);
    Screen {
        configs: screen.configs.insert(variable(i), surface),
        windows: if i == 0 {
            screen.windows.push(seq![surface])
        } else {
            screen.windows.drop_last().push(screen.windows.last().push(surface))
        },
    }
}

proof fn lemma_tab(
    i: int,
    tab: GhosttyTab,
    home: Option<Seq<char>>,
    screen: Screen,
    rest: Seq<char>,
)
    requires
        0 <= i,
        i > 0 ==> screen.windows.len() > 0,
    ensures
        performed(workflows::tab_lines(i, tab, home) + rest, screen) == performed(
            rest,
            tab_opened(i, tab, home, screen),
        ),
{
    let cfg = variable(i);
    let dir = workflows::expanded(tab.dir@, home);
    let known = screen.configs;
    let blank = Surface { dir: None, input: None };
    let placed = Surface { dir: Some(dir), input: None };
    let surface = wanted(tab, home);
    let open = if i == 0 {
        "    set win to new window with configuration "@ + cfg + "\n"@
    } else {
        "    new tab in win with configuration "@ + cfg + "\n"@
    };
    let input = workflows::input_line(cfg, tab);
    let s4 = open + rest;
    let s3 = input + s4;
    let s2 = "    set initial working directory of "@ + cfg + " to \""@ + workflows::escaped(dir)
        + "\"\n"@ + s3;
    let s1 = "    set "@ + cfg + " to new surface configuration\n"@ + s2;
    lemma_lines(i, tab, home, rest);
    let c1 = Screen { configs: known.insert(cfg, blank), ..screen };
    let c2 = Screen { configs: c1.configs.insert(cfg, placed), ..screen };
    let c3 = Screen { configs: c2.configs.insert(cfg, surface), ..screen };
    lemma_create(cfg, i, s2, screen);
    lemma_directory(cfg, i, dir, s3, c1);
    match tab.command {
        Some(cmd) => {
            text::law_blank(cmd@);
            if text::trimmed(cmd@).len() > 0 {
                assert(exists|k: int| 0 <= k < cmd@.len() && !text::whitespace(#[trigger] cmd@[k]));
                lemma_input(cfg, i, cmd@, s4, c2);
            } else {
                assert(s3 =~= s4);
            }
        },
        None => {
            assert(s3 =~= s4);
        },
    }
    assert(c3.configs =~= c2.configs.insert(cfg, surface));
    if surface.input is None {
        assert(surface == placed);
        assert(c3.configs =~= c2.configs);
    }
    assert(performed(s1, screen) == performed(s4, c3));
    lemma_open(cfg, i, rest, c3);
    assert(c3.configs =~= known.insert(cfg, surface));
}

/// The lines of a tab, one behind the other.
proof fn lemma_lines(i: int, tab: GhosttyTab, home: Option<Seq<char>>, rest: Seq<char>)
    ensures
        ({
            let cfg = variable(i);
            let open = if i == 0 {
                "    set win to new window with configuration "@ + cfg + "\n"@
            } else {
                "    new tab in win with configuration "@ + cfg + "\n"@
            };
            let s3 = workflows::input_line(cfg, tab) + (open + rest);
            let s2 = "    set initial working directory of "@ + cfg + " to \""@
                + workflows::escaped(workflows::expanded(tab.dir@, home)) + "\"\n"@ + s3;
            workflows::tab_lines(i, tab, home) + rest == "    set "@ + cfg
                + " to new surface configuration\n"@ + s2
        }),
{
    let cfg = variable(i);
    let open = if i == 0 {
        "    set win to new window with configuration "@ + cfg + "\n"@
    } else {
        "    new tab in win with configuration "@ + cfg + "\n"@
    };
    let a = "    set "@ + cfg + " to new surface configuration\n"@;
    let b = "    set initial working directory of "@;
    let c = " to \""@;
    let d = workflows::escaped(workflows::expanded(tab.dir@, home));
    let e = "\"\n"@;
    let f = workflows::input_line(cfg, tab);
    assert(workflows::tab_lines(i, tab, home) == a + b + cfg + c + d + e + f + open);
    assert(a + b + cfg + c + d + e + f + open + rest =~= a + (b + cfg + c + d + e + (f + (open
        + rest))));
}

/// Digits hold neither a space nor an end of line.
proof fn lemma_variable(i: int, behind: Seq<char>)
    requires
        0 <= i,
        behind.len() > 0,
        behind[0] == ' ' || behind[0] == '\n',
    ensures
        word(variable(i) + behind) == (variable(i), behind),
        variable(i).len() > 3,
        variable(i)[0] == 'c',
{
    reveal_strlit("cfg");
    assert("cfg"@.len() == 3);
    let v = variable(i);
    text::lemma_decimal_value(i as nat);
    assert forall|k: int| 0 <= k < v.len() implies #[trigger] v[k] != ' ' && v[k] != '\n' by {
        if k >= 3 {
            assert(v[k] == text::decimal(i as nat)[k - 3]);
        }
    }
    lemma_word(v, behind);
    assert((v + behind).take(v.len() as int) =~= v);
    assert((v + behind).skip(v.len() as int) =~= behind);
}

proof fn lemma_word(w: Seq<char>, behind: Seq<char>)
    requires
        behind.len() > 0,
        behind[0] == ' ' || behind[0] == '\n',
        forall|k: int| 0 <= k < w.len() ==> #[trigger] w[k] != ' ' && w[k] != '\n',
    ensures
        word_len(w + behind) == w.len(),
    decreases w.len(),
{
    if w.len() == 0 {
        assert(w + behind =~= behind);
    } else {
        assert((w + behind)[0] == w[0]);
        assert((w + behind).drop_first() =~= w.drop_first() + behind);
        lemma_word(w.drop_first(), behind);
    }
}

/// An escaped text inside a literal says the text, and then what the rest says.
proof fn lemma_literal(t: Seq<char>, rest: Seq<char>)
    ensures
        match literal(rest) {
            Some((u, behind)) => literal(workflows::escaped(t) + rest) == Some((t + u, behind)),
            None => true,
        },
    decreases t.len(),
{
    let e = workflows::escaped(t);
    if t.len() == 0 {
        assert(e + rest =~= rest);
        if let Some((u, behind)) = literal(rest) {
            assert(t + u =~= u);
        }
    } else {
        lemma_literal(t.drop_first(), rest);
        let e1 = workflows::escaped(t.drop_first());
        let s = e + rest;
        if t[0] == '\\' || t[0] == '"' {
            assert(s[0] == '\\' && s[1] == t[0]);
            assert(s.skip(2) =~= e1 + rest);
        } else {
            assert(s[0] == t[0]);
            assert(s.drop_first() =~= e1 + rest);
        }
        if let Some((u, behind)) = literal(rest) {
            assert(seq![t[0]] + (t.drop_first() + u) =~= t + u);
        }
    }
}

proof fn lemma_no_prefix(s: Seq<char>, p: Seq<char>, k: int)
    requires
        0 <= k < p.len(),
        k < s.len(),
        s[k] != p[k],
    ensures
        text::after_prefix(s, p) is None,
{
    if p.is_prefix_of(s) {
        assert(s.subrange(0, p.len() as int)[k] == p[k]);
    }
}

proof fn lemma_create(cfg: Seq<char>, i: int, rest: Seq<char>, screen: Screen)
    requires
        0 <= i,
        cfg == variable(i),
    ensures
        performed("    set "@ + cfg + " to new surface configuration\n"@ + rest, screen)
            == performed(
            rest,
            Screen {
                configs: screen.configs.insert(cfg, Surface { dir: None, input: None }),
                ..screen
            },
        ),
{
    reveal(command);
    let tail = " to new surface configuration\n"@ + rest;
    let s = "    set "@ + cfg + " to new surface configuration\n"@ + rest;
    reveal_strlit("    set ");
    reveal_strlit("    set initial working directory of ");
    reveal_strlit("    set initial input of ");
    reveal_strlit("    set win to new window with configuration ");
    reveal_strlit("    new tab in win with configuration ");
    reveal_strlit(" to new surface configuration\n");
    reveal_strlit("end tell\n");
    assert("    set "@.len() == 8);
    assert("    set initial working directory of "@.len() == 37);
    assert("    set initial input of "@.len() == 25);
    assert("    set win to new window with configuration "@.len() == 45);
    assert("    new tab in win with configuration "@.len() == 38);
    assert(" to new surface configuration\n"@.len() == 30);
    assert(tail[0] == ' ');
    lemma_variable(i, tail);
    assert(s[8] == cfg[0]);
    assert(s[4] == 's');
    lemma_no_prefix(s, "    set initial working directory of "@, 8);
    lemma_no_prefix(s, "    set initial input of "@, 8);
    lemma_no_prefix(s, "    set win to new window with configuration "@, 8);
    lemma_no_prefix(s, "    new tab in win with configuration "@, 4);
    assert(s =~= "    set "@ + (cfg + tail));
    text::law_prefixes_come_off("    set "@, cfg + tail);
    text::law_prefixes_come_off(" to new surface configuration\n"@, rest);
    assert(s[0] == ' ');
    assert("end tell\n"@[0] == 'e');
}

/// Where a setting is written, it is read.
proof fn lemma_setting(cfg: Seq<char>, i: int, inside: Seq<char>, t: Seq<char>, rest: Seq<char>)
    requires
        0 <= i,
        cfg == variable(i),
        literal(inside + rest) == Some((t, "\n"@ + rest)),
    ensures
        setting(cfg + " to \""@ + inside + rest) == Some((cfg, t, rest)),
{
    let tail = " to \""@ + inside + rest;
    reveal_strlit(" to \"");
    assert(" to \""@.len() == 5);
    assert(tail[0] == ' ');
    lemma_variable(i, tail);
    assert(cfg + " to \""@ + inside + rest =~= cfg + tail);
    assert(tail =~= " to \""@ + (inside + rest));
    text::law_prefixes_come_off(" to \""@, inside + rest);
    text::law_prefixes_come_off("\n"@, rest);
}

proof fn lemma_directory(cfg: Seq<char>, i: int, dir: Seq<char>, rest: Seq<char>, screen: Screen)
    requires
        0 <= i,
        cfg == variable(i),
        screen.configs.dom().contains(cfg),
    ensures
        performed(
            "    set initial working directory of "@ + cfg + " to \""@ + workflows::escaped(dir)
                + "\"\n"@ + rest,
            screen,
        ) == performed(
            rest,
            Screen {
                configs: screen.configs.insert(
                    cfg,
                    Surface { dir: Some(dir), ..screen.configs[cfg] },
                ),
                ..screen
            },
        ),
{
    reveal(command);
    let key = "    set initial working directory of "@;
    let inside = workflows::escaped(dir) + "\"\n"@;
    let s = key + cfg + " to \""@ + workflows::escaped(dir) + "\"\n"@ + rest;
    reveal_strlit("    set initial working directory of ");
    reveal_strlit("end tell\n");
    reveal_strlit("\"\n");
    reveal_strlit("\n");
    assert(key.len() == 37);
    assert("\"\n"@.len() == 2 && "\n"@.len() == 1);
    let end = "\"\n"@ + rest;
    assert(end[0] == '"');
    assert(end.drop_first() =~= "\n"@ + rest);
    lemma_literal(dir, end);
    assert(dir + Seq::<char>::empty() =~= dir);
    assert(inside + rest =~= workflows::escaped(dir) + end);
    lemma_setting(cfg, i, inside, dir, rest);
    assert(s =~= key + (cfg + " to \""@ + inside + rest));
    text::law_prefixes_come_off(key, cfg + " to \""@ + inside + rest);
    assert(s[0] == ' ');
    assert("end tell\n"@[0] == 'e');
}

proof fn lemma_input(cfg: Seq<char>, i: int, cmd: Seq<char>, rest: Seq<char>, screen: Screen)
    requires
        0 <= i,
        cfg == variable(i),
        screen.configs.dom().contains(cfg),
    ensures
        performed(
            "    set initial input of "@ + cfg + " to \""@ + workflows::escaped(cmd) + "\\n\"\n"@
                + rest,
            screen,
        ) == performed(
            rest,
            Screen {
                configs: screen.configs.insert(
                    cfg,
                    Surface { input: Some(cmd.push('\n')), ..screen.configs[cfg] },
                ),
                ..screen
            },
        ),
{
    reveal(command);
    let key = "    set initial input of "@;
    let inside = workflows::escaped(cmd) + "\\n\"\n"@;
    let s = key + cfg + " to \""@ + workflows::escaped(cmd) + "\\n\"\n"@ + rest;
    reveal_strlit("    set initial input of ");
    reveal_strlit("    set initial working directory of ");
    reveal_strlit("end tell\n");
    reveal_strlit("\\n\"\n");
    reveal_strlit("\n");
    assert(key.len() == 25);
    assert("    set initial working directory of "@.len() == 37);
    assert("\\n\"\n"@.len() == 4 && "\n"@.len() == 1);
    let end = "\\n\"\n"@ + rest;
    let closing = end.skip(2);
    assert(end[0] == '\\' && end[1] == 'n');
    assert(closing[0] == '"');
    assert(closing.drop_first() =~= "\n"@ + rest);
    reveal_with_fuel(literal, 2);
    assert(seq!['\n'] + Seq::<char>::empty() =~= seq!['\n']);
    assert(literal(end) == Some((seq!['\n'], "\n"@ + rest)));
    lemma_literal(cmd, end);
    assert(cmd + seq!['\n'] =~= cmd.push('\n'));
    assert(inside + rest =~= workflows::escaped(cmd) + end);
    lemma_setting(cfg, i, inside, cmd.push('\n'), rest);
    assert(s =~= key + (cfg + " to \""@ + inside + rest));
    assert(s[16] == key[16]);
    lemma_no_prefix(s, "    set initial working directory of "@, 16);
    text::law_prefixes_come_off(key, cfg + " to \""@ + inside + rest);
    assert(s[0] == ' ');
    assert("end tell\n"@[0] == 'e');
}

proof fn lemma_open(cfg: Seq<char>, i: int, rest: Seq<char>, screen: Screen)
    requires
        0 <= i,
        cfg == variable(i),
        screen.configs.dom().contains(cfg),
        i > 0 ==> screen.windows.len() > 0,
    ensures
        performed(
            (if i == 0 {
                "    set win to new window with configuration "@ + cfg + "\n"@
            } else {
                "    new tab in win with configuration "@ + cfg + "\n"@
            }) + rest,
            screen,
        ) == performed(
            rest,
            Screen {
                windows: if i == 0 {
                    screen.windows.push(seq![screen.configs[cfg]])
                } else {
                    screen.windows.drop_last().push(
                        screen.windows.last().push(screen.configs[cfg]),
                    )
                },
                ..screen
            },
        ),
{
    reveal(command);
    reveal_strlit("    set initial working directory of ");
    reveal_strlit("    set initial input of ");
    reveal_strlit("    set win to new window with configuration ");
    reveal_strlit("    new tab in win with configuration ");
    reveal_strlit("end tell\n");
    reveal_strlit("\n");
    assert("    set initial working directory of "@.len() == 37);
    assert("    set initial input of "@.len() == 25);
    assert("    set win to new window with configuration "@.len() == 45);
    assert("    new tab in win with configuration "@.len() == 38);
    assert("\n"@.len() == 1);
    assert("end tell\n"@[0] == 'e');
    let tail = "\n"@ + rest;
    assert(tail[0] == '\n');
    lemma_variable(i, tail);
    text::law_prefixes_come_off("\n"@, rest);
    let win = "    set win to new window with configuration "@;
    let tab = "    new tab in win with configuration "@;
    let key = if i == 0 {
        win
    } else {
        tab
    };
    let s = key + cfg + "\n"@ + rest;
    assert(s =~= key + (cfg + tail));
    text::law_prefixes_come_off(key, cfg + tail);
    assert(s[0] == ' ');
    assert(s[4] == key[4] && s[8] == key[8]);
    if i == 0 {
        lemma_no_prefix(s, "    set initial working directory of "@, 8);
        lemma_no_prefix(s, "    set initial input of "@, 8);
    } else {
        lemma_no_prefix(s, "    set initial working directory of "@, 4);
        lemma_no_prefix(s, "    set initial input of "@, 4);
        lemma_no_prefix(s, win, 4);
    }
}

/// The command for a list of tabs hands AppleScript a script that opens one window with
/// exactly those tabs; without a tab there is no command.
pub proof fn law_command_opens_the_tabs(
    tabs: Seq<GhosttyTab>,
    home: Option<Seq<char>>,
    r: Result<crate::tools::CommandLine, String>,
)
    requires
        workflows::opens(tabs, home, r),
    ensures
        r is Ok <==> tabs.len() > 0,
        r matches Ok(c) ==> c.program@ == "osascript"@ && c.args@.len() == 2 && opened_by(
            c.args@[1]@,
        ) == Some(seq![Seq::new(tabs.len(), |i: int| wanted(tabs[i], home))]),
{
    if let Ok(c) = r {
        law_script_opens_the_tabs(tabs, home);
        let args = text::views(c.args@);
        assert(args.len() == c.args@.len());
        assert(args[1] == c.args@[1]@);
    }
}

} // verus!
