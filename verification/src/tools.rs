//! The built-in tools: what the model is told of them, and what a call of one
//! comes to.

use crate::json::{Json, JsonView};
use crate::output;
use crate::text;
use vstd::prelude::*;
use vstd::string::*;

verus! {

/// A program to run and what to pass to it.
#[derive(Debug, PartialEq)]
pub struct CommandLine {
    pub program: String,
    pub args: Vec<String>,
}

impl CommandLine {
    /// Is this the given program with these arguments?
    pub open spec fn runs(self, program: Seq<char>, args: Seq<Seq<char>>) -> bool {
        self.program@ == program && text::views(self.args@) =~= args
    }
}

fn command(program: &str, first: &str) -> (r: CommandLine)
    ensures
        r.runs(program@, seq![first@]),
{
    let mut args: Vec<String> = Vec::new();
    args.push(first.to_owned());
    assert(text::views(args@) =~= seq![first@]);
    CommandLine { program: program.to_owned(), args }
}

fn command2(program: &str, first: &str, second: &str) -> (r: CommandLine)
    ensures
        r.runs(program@, seq![first@, second@]),
{
    let mut args: Vec<String> = Vec::new();
    args.push(first.to_owned());
    args.push(second.to_owned());
    assert(text::views(args@) =~= seq![first@, second@]);
    CommandLine { program: program.to_owned(), args }
}

// ---- single actions ----

/// A command through the user's login shell.
pub fn run_shell(cmd: &str) -> (r: CommandLine)
    ensures
        r.runs("zsh"@, seq!["-lc"@, cmd@]),
{
    command2("zsh", "-lc", cmd)
}

/// An application by name.
pub fn open_app(name: &str) -> (r: CommandLine)
    ensures
        r.runs("open"@, seq!["-a"@, name@]),
{
    command2("open", "-a", name)
}

/// A URL in the default browser.
pub fn open_url(url: &str) -> (r: CommandLine)
    ensures
        r.runs("open"@, seq![url@]),
{
    command("open", url)
}

/// An AppleScript snippet.
pub fn run_applescript(script: &str) -> (r: CommandLine)
    ensures
        r.runs("osascript"@, seq!["-e"@, script@]),
{
    command2("osascript", "-e", script)
}

// ---- Do Not Disturb ----

/// The name of the Shortcut that turns Do Not Disturb on or off.
pub open spec fn shortcut_name(enabled: bool) -> Seq<char> {
    if enabled {
        "Bit DND On"@
    } else {
        "Bit DND Off"@
    }
}

fn shortcut(enabled: bool) -> (r: &'static str)
    ensures
        r@ == shortcut_name(enabled),
{
    if enabled {
        "Bit DND On"
    } else {
        "Bit DND Off"
    }
}

/// Is the name one of the lines, up to whitespace around it?
pub open spec fn listed(listing: Seq<char>, name: Seq<char>) -> bool {
    exists|i: int|
        0 <= i < text::pieces(listing, text::Cut::At('\n')).len() && text::trimmed(
            #[trigger] text::pieces(listing, text::Cut::At('\n'))[i],
        ) == name
}

pub fn is_listed(listing: &str, name: &str) -> (r: bool)
    ensures
        r == listed(listing@, name@),
{
    let lines = text::split(listing, &text::Cut::At('\n'));
    for i in 0..lines.len()
        invariant
            text::views(lines@) == text::pieces(listing@, text::Cut::At('\n')),
            forall|k: int|
                0 <= k < i ==> text::trimmed(
                    #[trigger] text::pieces(listing@, text::Cut::At('\n'))[k],
                ) != name@,
    {
        assert(text::views(lines@)[i as int] == lines@[i as int]@);
        if text::same(text::trim(lines[i].as_str()).as_str(), name) {
            return true;
        }
    }
    false
}

/// The command that lists the user's Shortcuts.
pub fn list_shortcuts() -> (r: CommandLine)
    ensures
        r.runs("shortcuts"@, seq!["list"@]),
{
    command("shortcuts", "list")
}

/// Does the list hold both Shortcuts that Do Not Disturb needs?
pub open spec fn dnd_ready(listing: Seq<char>) -> bool {
    listed(listing, shortcut_name(true)) && listed(listing, shortcut_name(false))
}

/// Are both Shortcuts there that Do Not Disturb needs? `listing` is what
/// `list_shortcuts` printed, where it could be run.
pub fn dnd_status(listing: Option<&Vec<u8>>) -> (r: bool)
    ensures
        r == (match listing {
            Some(bytes) => dnd_ready(text::utf8_lossy(bytes@)),
            None => false,
        }),
{
    match listing {
        Some(bytes) => {
            let names = text::from_utf8_lossy(bytes);
            is_listed(names.as_str(), shortcut(true)) && is_listed(names.as_str(), shortcut(false))
        },
        None => false,
    }
}

pub open spec fn missing_shortcut(enabled: bool) -> Seq<char> {
    "Shortcut '"@ + shortcut_name(enabled)
        + "' not found. The user must create Shortcuts named 'Bit DND On' and 'Bit DND Off' (each a 'Set Focus' action) in the Shortcuts app."@
}

/// Is `r` how Do Not Disturb is turned on or off, given the names of the Shortcuts that
/// exist?
pub open spec fn turns_focus(
    enabled: bool,
    names: Seq<char>,
    r: Result<CommandLine, String>,
) -> bool {
    match r {
        Ok(c) => listed(names, shortcut_name(enabled)) && c.runs(
            "shortcuts"@,
            seq!["run"@, shortcut_name(enabled)],
        ),
        Err(e) => !listed(names, shortcut_name(enabled)) && e@ == missing_shortcut(enabled),
    }
}

/// Turning Do Not Disturb on or off, given the names of the Shortcuts that exist.
/// Running a Shortcut that does not exist reports success, so its presence is
/// checked first.
pub fn focus_command(enabled: bool, names: &str) -> (r: Result<CommandLine, String>)
    ensures
        turns_focus(enabled, names@, r),
{
    if is_listed(names, shortcut(enabled)) {
        Ok(command2("shortcuts", "run", shortcut(enabled)))
    } else {
        let mut e = "Shortcut '".to_owned();
        e.append(shortcut(enabled));
        e.append("' not found. The user must create Shortcuts named 'Bit DND On' and 'Bit DND Off' (each a 'Set Focus' action) in the Shortcuts app.");
        Err(e)
    }
}

/// `focus_command` on what `list_shortcuts` printed.
pub fn set_focus(enabled: bool, listing: &Vec<u8>) -> (r: Result<CommandLine, String>)
    ensures
        turns_focus(enabled, text::utf8_lossy(listing@), r),
{
    focus_command(enabled, text::from_utf8_lossy(listing).as_str())
}

// ---- what a command printed ----

/// Everything a finished command has to say, before it is cut to size.
pub open spec fn full_output(
    stdout: Seq<char>,
    stderr: Seq<char>,
    success: bool,
    code: Option<i32>,
) -> Seq<char> {
    let with_err = if text::trimmed(stderr).len() > 0 {
        stdout + "\n[stderr] "@ + stderr
    } else {
        stdout
    };
    if success {
        with_err
    } else {
        with_err + "\n[exit code: "@ + text::decimal_int(
            match code {
                Some(c) => c as int,
                None => -1,
            },
        ) + "]"@
    }
}

/// The text that a finished command gives.
pub open spec fn command_text(
    stdout: Seq<char>,
    stderr: Seq<char>,
    success: bool,
    code: Option<i32>,
) -> Seq<char> {
    let s = output::capped(full_output(stdout, stderr, success, code));
    if text::trimmed(s).len() > 0 {
        s
    } else {
        "(no output; succeeded)"@
    }
}

fn describe(stdout: &str, stderr: &str, success: bool, code: Option<i32>) -> (r: String)
    ensures
        r@ == full_output(stdout@, stderr@, success, code),
{
    let mut s = stdout.to_owned();
    if !text::is_blank(stderr) {
        s.append("\n[stderr] ");
        s.append(stderr);
    }
    if !success {
        let code_text = text::i32_text(
            match code {
                Some(c) => c,
                None => -1,
            },
        );
        s.append("\n[exit code: ");
        s.append(code_text.as_str());
        s.append("]");
    }
    s
}

/// The text of a finished command, from what it printed.
pub fn output_of(stdout: &str, stderr: &str, success: bool, code: Option<i32>) -> (r: String)
    ensures
        r@ == command_text(stdout@, stderr@, success, code),
{
    let s = output::cap(describe(stdout, stderr, success, code));
    if text::is_blank(s.as_str()) {
        "(no output; succeeded)".to_owned()
    } else {
        s
    }
}

/// The text of a finished command, from the bytes it printed.
pub fn run(stdout: &Vec<u8>, stderr: &Vec<u8>, success: bool, code: Option<i32>) -> (r: String)
    ensures
        r@ == command_text(text::utf8_lossy(stdout@), text::utf8_lossy(stderr@), success, code),
{
    let out = text::from_utf8_lossy(stdout);
    let err = text::from_utf8_lossy(stderr);
    output_of(out.as_str(), err.as_str(), success, code)
}

// ---- definitions ----

/// An object schema with one property, which is required.
pub open spec fn one_property(key: Seq<char>, property: JsonView) -> JsonView {
    JsonView::Object(
        seq![
            ("type"@, JsonView::Str("object"@)),
            ("properties"@, JsonView::Object(seq![(key, property)])),
            ("required"@, JsonView::Array(seq![JsonView::Str(key)])),
        ],
    )
}

/// A schema that only names a type.
pub open spec fn plain_type(kind: Seq<char>) -> JsonView {
    JsonView::Object(seq![("type"@, JsonView::Str(kind))])
}

/// A tool as it is described to the model.
pub open spec fn definition(name: Seq<char>, description: Seq<char>, schema: JsonView) -> JsonView {
    JsonView::Object(
        seq![
            ("name"@, JsonView::Str(name)),
            ("description"@, JsonView::Str(description)),
            ("input_schema"@, schema),
        ],
    )
}

pub open spec fn run_shell_definition() -> JsonView {
    definition(
        "run_shell"@,
        "Run a command on the user's Mac through their login shell (zsh -lc), with their normal PATH and environment. Use this to launch apps and CLIs (e.g. open Ghostty, start OrbStack, bring up dev services) and for any terminal task. Returns combined stdout/stderr and a non-zero exit note on failure."@,
        one_property(
            "command"@,
            JsonView::Object(
                seq![
                    ("type"@, JsonView::Str("string"@)),
                    ("description"@, JsonView::Str("The shell command to run."@)),
                ],
            ),
        ),
    )
}

pub open spec fn open_app_definition() -> JsonView {
    definition(
        "open_app"@,
        "Open a macOS application by name, e.g. \"Ghostty\", \"OrbStack\", \"Safari\"."@,
        one_property("name"@, plain_type("string"@)),
    )
}

pub open spec fn open_url_definition() -> JsonView {
    definition(
        "open_url"@,
        "Open a URL in the user's default browser."@,
        one_property("url"@, plain_type("string"@)),
    )
}

pub open spec fn set_focus_definition() -> JsonView {
    definition(
        "set_focus"@,
        "Turn macOS Do Not Disturb / Focus on (true) or off (false). Requires the user to have created Shortcuts named exactly 'Bit DND On' and 'Bit DND Off'."@,
        one_property("enabled"@, plain_type("boolean"@)),
    )
}

pub open spec fn run_applescript_definition() -> JsonView {
    definition(
        "run_applescript"@,
        "Run an AppleScript snippet via osascript to control macOS apps and system (volume, windows, System Events, etc.)."@,
        one_property("script"@, plain_type("string"@)),
    )
}

/// The built-in tools that are offered: those that run whatever the model writes
/// only in developer mode.
pub open spec fn offered(developer_mode: bool) -> Seq<JsonView> {
    if developer_mode {
        seq![
            run_shell_definition(),
            open_app_definition(),
            open_url_definition(),
            set_focus_definition(),
            run_applescript_definition(),
        ]
    } else {
        seq![open_app_definition(), open_url_definition(), set_focus_definition()]
    }
}

fn type_schema(kind: &str) -> (r: Json)
    ensures
        r@ == plain_type(kind@),
{
    Json::object().with("type", Json::text(kind))
}

fn property_schema(key: &str, property: Json) -> (r: Json)
    ensures
        r@ == one_property(key@, property@),
{
    let mut required: Vec<Json> = Vec::new();
    required.push(Json::text(key));
    let list = Json::array(required);
    assert(list@->Array_0 =~= seq![JsonView::Str(key@)]);
    let ghost shown = property@;
    let r = Json::object().with("type", Json::text("object")).with(
        "properties",
        Json::object().with(key, property),
    ).with("required", list);
    assert(r@->Object_0 =~= one_property(key@, shown)->Object_0);
    r
}

fn define(name: &str, description: &str, schema: Json) -> (r: Json)
    ensures
        r@ == definition(name@, description@, schema@),
{
    let ghost shown = schema@;
    let r = Json::object().with("name", Json::text(name)).with(
        "description",
        Json::text(description),
    ).with("input_schema", schema);
    assert(r@->Object_0 =~= definition(name@, description@, shown)->Object_0);
    r
}

/// The definitions of the built-in tools, in the form the Anthropic API takes.
pub fn definitions(developer_mode: bool) -> (r: Vec<Json>)
    ensures
        crate::json::json_views(r@) == offered(developer_mode),
{
    let mut out: Vec<Json> = Vec::new();
    if developer_mode {
        let command_schema = type_schema("string").with(
            "description",
            Json::text("The shell command to run."),
        );
        assert(command_schema@->Object_0 =~= seq![
            ("type"@, JsonView::Str("string"@)),
            ("description"@, JsonView::Str("The shell command to run."@)),
        ]);
        out.push(
            define(
                "run_shell",
                "Run a command on the user's Mac through their login shell (zsh -lc), with their normal PATH and environment. Use this to launch apps and CLIs (e.g. open Ghostty, start OrbStack, bring up dev services) and for any terminal task. Returns combined stdout/stderr and a non-zero exit note on failure.",
                property_schema("command", command_schema),
            ),
        );
    }
    out.push(
        define(
            "open_app",
            "Open a macOS application by name, e.g. \"Ghostty\", \"OrbStack\", \"Safari\".",
            property_schema("name", type_schema("string")),
        ),
    );
    out.push(
        define(
            "open_url",
            "Open a URL in the user's default browser.",
            property_schema("url", type_schema("string")),
        ),
    );
    out.push(
        define(
            "set_focus",
            "Turn macOS Do Not Disturb / Focus on (true) or off (false). Requires the user to have created Shortcuts named exactly 'Bit DND On' and 'Bit DND Off'.",
            property_schema("enabled", type_schema("boolean")),
        ),
    );
    if developer_mode {
        out.push(
            define(
                "run_applescript",
                "Run an AppleScript snippet via osascript to control macOS apps and system (volume, windows, System Events, etc.).",
                property_schema("script", type_schema("string")),
            ),
        );
    }
    assert(crate::json::json_views(out@) =~= offered(developer_mode));
    out
}

// ---- calls ----

/// What a tool call comes to.
#[derive(Debug, PartialEq)]
pub enum ToolAction {
    /// Run a program and hand back its output.
    Run(CommandLine),
    /// Turn Do Not Disturb on or off.
    Focus { enabled: bool },
    /// Pass the call on to the MCP server that the name leads to.
    Mcp,
}

/// The argument with the given key, where it is a string.
pub open spec fn argument(input: JsonView, key: Seq<char>, missing: Seq<char>) -> Result<
    Seq<char>,
    Seq<char>,
> {
    match input.str_at(key) {
        Some(s) => Ok(s),
        None => Err(missing),
    }
}

/// Is `r` what a call of the tool `name` comes to? The tools that run whatever
/// the model writes are known in developer mode only.
pub open spec fn planned(
    developer_mode: bool,
    name: Seq<char>,
    input: JsonView,
    r: Result<ToolAction, String>,
) -> bool {
    if "mcp__"@.is_prefix_of(name) {
        r == Ok::<ToolAction, String>(ToolAction::Mcp)
    } else if name == "run_shell"@ && developer_mode {
        runs_with(r, argument(input, "command"@, "missing command"@), "zsh"@, seq!["-lc"@])
    } else if name == "open_app"@ {
        runs_with(r, argument(input, "name"@, "missing name"@), "open"@, seq!["-a"@])
    } else if name == "open_url"@ {
        runs_with(r, argument(input, "url"@, "missing url"@), "open"@, seq![])
    } else if name == "set_focus"@ {
        match input.get("enabled"@) {
            Some(JsonView::Bool(b)) => r == Ok::<ToolAction, String>(
                ToolAction::Focus { enabled: b },
            ),
            _ => r matches Err(e) && e@ == "missing enabled"@,
        }
    } else if name == "run_applescript"@ && developer_mode {
        runs_with(r, argument(input, "script"@, "missing script"@), "osascript"@, seq!["-e"@])
    } else {
        r matches Err(e) && e@ == "unknown tool: "@ + name
    }
}

/// Does the call run the program with the flags and then the argument, or report
/// that the argument is missing?
pub open spec fn runs_with(
    r: Result<ToolAction, String>,
    arg: Result<Seq<char>, Seq<char>>,
    program: Seq<char>,
    flags: Seq<Seq<char>>,
) -> bool {
    match arg {
        Ok(a) => r matches Ok(ToolAction::Run(c)) && c.runs(program, flags.push(a)),
        Err(missing) => r matches Err(e) && e@ == missing,
    }
}

/// What a call of a tool comes to, or why it cannot be made.
pub fn execute(developer_mode: bool, name: &str, input: &Json) -> (r: Result<ToolAction, String>)
    ensures
        planned(developer_mode, name@, input@, r),
{
    proof {
        reveal_strlit("mcp__");
        reveal_strlit("run_shell");
        reveal_strlit("open_app");
        reveal_strlit("open_url");
        reveal_strlit("set_focus");
        reveal_strlit("run_applescript");
    }
    if text::starts_with(name, "mcp__") {
        Ok(ToolAction::Mcp)
    } else if developer_mode && text::same(name, "run_shell") {
        match input.str_at("command") {
            Some(cmd) => Ok(ToolAction::Run(run_shell(cmd))),
            None => Err("missing command".to_owned()),
        }
    } else if text::same(name, "open_app") {
        match input.str_at("name") {
            Some(app) => Ok(ToolAction::Run(open_app(app))),
            None => Err("missing name".to_owned()),
        }
    } else if text::same(name, "open_url") {
        match input.str_at("url") {
            Some(url) => Ok(ToolAction::Run(open_url(url))),
            None => Err("missing url".to_owned()),
        }
    } else if text::same(name, "set_focus") {
        match input.get("enabled") {
            Some(v) => match v.as_bool() {
                Some(enabled) => Ok(ToolAction::Focus { enabled }),
                None => Err("missing enabled".to_owned()),
            },
            None => Err("missing enabled".to_owned()),
        }
    } else if developer_mode && text::same(name, "run_applescript") {
        match input.str_at("script") {
            Some(script) => Ok(ToolAction::Run(run_applescript(script))),
            None => Err("missing script".to_owned()),
        }
    } else {
        Err(text::joined("unknown tool: ", name))
    }
}

/// Outside developer mode no tool call comes to a shell command or an AppleScript
/// of the model's own, whatever its name and arguments.
pub proof fn law_no_raw_execution(
    name: Seq<char>,
    input: JsonView,
    r: Result<ToolAction, String>,
    c: CommandLine,
)
    requires
        planned(false, name, input, r),
        r == Ok::<ToolAction, String>(ToolAction::Run(c)),
    ensures
        c.program@ == "open"@,
        c.program@ != "zsh"@,
        c.program@ != "osascript"@,
{
    reveal_strlit("open");
    reveal_strlit("zsh");
    reveal_strlit("osascript");
    assert("open"@[0] == 'o' && "zsh"@[0] == 'z' && "osascript"@.len() == 9);
}

proof fn lemma_definition_name(d: JsonView)
    requires
        d is Object,
        d->Object_0.len() == 3,
        d->Object_0[0].0 == "name"@,
        d->Object_0[1].0 == "description"@,
        d->Object_0[2].0 == "input_schema"@,
    ensures
        d.get("name"@) == Some(d->Object_0[0].1),
{
    reveal_strlit("name");
    reveal_strlit("description");
    reveal_strlit("input_schema");
    assert("name"@.len() == 4 && "description"@.len() == 11 && "input_schema"@.len() == 12);
    let m = d->Object_0;
    assert(m.drop_last().last() == m[1]);
    assert(m.drop_last().drop_last().last() == m[0]);
    reveal_with_fuel(crate::json::lookup, 4);
}

/// A tool that is offered is one that can be called: a call of it never comes to an
/// unknown tool.
pub proof fn law_offered_tools_are_known(
    developer_mode: bool,
    i: int,
    input: JsonView,
    r: Result<ToolAction, String>,
)
    requires
        0 <= i < offered(developer_mode).len(),
        planned(developer_mode, offered(developer_mode)[i].str_at("name"@)->0, input, r),
    ensures
        offered(developer_mode)[i].str_at("name"@) matches Some(name) && (r matches Err(e) ==> e@
            != "unknown tool: "@ + name),
{
    reveal_strlit("mcp__");
    reveal_strlit("run_shell");
    reveal_strlit("open_app");
    reveal_strlit("open_url");
    reveal_strlit("set_focus");
    reveal_strlit("run_applescript");
    reveal_strlit("unknown tool: ");
    reveal_strlit("missing command");
    reveal_strlit("missing name");
    reveal_strlit("missing url");
    reveal_strlit("missing enabled");
    reveal_strlit("missing script");
    lemma_definition_name(offered(developer_mode)[i]);
    let name = offered(developer_mode)[i].str_at("name"@)->0;
    assert(name == "run_shell"@ && developer_mode || name == "open_app"@ || name == "open_url"@
        || name == "set_focus"@ || name == "run_applescript"@ && developer_mode);
    assert(name[0] != 'm');
    assert(("unknown tool: "@ + name)[0] == 'u');
    if let Err(e) = r {
        assert(e@[0] == 'm');
    }
}

// ---- what is kept to ----

/// A definition has the name, the description and the schema that it was made with; a
/// schema with one property names it, describes it and requires it.
pub proof fn law_definitions_say_it(
    name: Seq<char>,
    description: Seq<char>,
    schema: JsonView,
    key: Seq<char>,
    property: JsonView,
)
    ensures
        definition(name, description, schema).str_at("name"@) == Some(name),
        definition(name, description, schema).str_at("description"@) == Some(description),
        definition(name, description, schema).get("input_schema"@) == Some(schema),
        one_property(key, property).str_at("type"@) == Some("object"@),
        one_property(key, property).get("properties"@) matches Some(p) && p.get(key) == Some(
            property,
        ),
        one_property(key, property).array_at("required"@) == seq![JsonView::Str(key)],
        plain_type(key).str_at("type"@) == Some(key),
{
    reveal_strlit("name");
    reveal_strlit("description");
    reveal_strlit("input_schema");
    reveal_strlit("type");
    reveal_strlit("properties");
    reveal_strlit("required");
    assert("name"@.len() == 4 && "description"@.len() == 11 && "input_schema"@.len() == 12);
    assert("type"@.len() == 4 && "properties"@.len() == 10 && "required"@.len() == 8);
    let d = definition(name, description, schema)->Object_0;
    crate::json::law_last_member_counts(d, 0);
    crate::json::law_last_member_counts(d, 1);
    crate::json::law_last_member_counts(d, 2);
    let o = one_property(key, property)->Object_0;
    crate::json::law_last_member_counts(o, 0);
    crate::json::law_last_member_counts(o, 1);
    crate::json::law_last_member_counts(o, 2);
    crate::json::law_last_member_counts(seq![(key, property)], 0);
    crate::json::law_last_member_counts(plain_type(key)->Object_0, 0);
}

/// The one argument that a tool's definition requires.
pub open spec fn required_key(d: JsonView) -> Seq<char> {
    d.get("input_schema"@)->0.array_at("required"@)[0]->Str_0
}

/// The type that a tool's definition gives to that argument.
pub open spec fn required_type(d: JsonView) -> Option<Seq<char>> {
    match d.get("input_schema"@) {
        Some(schema) => match schema.get("properties"@) {
            Some(p) => match p.get(required_key(d)) {
                Some(property) => property.str_at("type"@),
                None => None,
            },
            None => None,
        },
        None => None,
    }
}

/// A tool can be called as its definition says. Where the argument that it requires is
/// given and of the type that it names, the call is made with that argument: a text is
/// the last thing that the program is handed, as it stands, and a choice is the state
/// that Do Not Disturb goes to. Where it is not, the call is refused, and what is told
/// names the argument.
pub proof fn law_calls_are_made_as_defined(
    developer_mode: bool,
    i: int,
    input: JsonView,
    r: Result<ToolAction, String>,
)
    requires
        0 <= i < offered(developer_mode).len(),
        planned(developer_mode, offered(developer_mode)[i].str_at("name"@)->0, input, r),
    ensures
        ({
            let d = offered(developer_mode)[i];
            let key = required_key(d);
            &&& required_type(d) == Some("string"@) || required_type(d) == Some("boolean"@)
            &&& required_type(d) == Some("string"@) ==> (match input.str_at(key) {
                Some(s) => r matches Ok(ToolAction::Run(c)) && c.args@.len() > 0 && c.args@.last()@
                    == s,
                None => r matches Err(e) && e@ == "missing "@ + key,
            })
            &&& required_type(d) == Some("boolean"@) ==> (match input.get(key) {
                Some(JsonView::Bool(b)) => r matches Ok(ToolAction::Focus { enabled }) && enabled
                    == b,
                _ => r matches Err(e) && e@ == "missing "@ + key,
            })
        }),
{
    let d = offered(developer_mode)[i];
    lemma_tool_names();
    lemma_tool_definitions();
    lemma_definition_name(d);
    if let Ok(ToolAction::Run(c)) = r {
        let args = text::views(c.args@);
        assert(args.len() == c.args@.len());
        if args.len() > 0 {
            assert(args[args.len() - 1] == c.args@.last()@);
        }
    }
}

pub(crate) proof fn lemma_tool_names()
    ensures
        !"mcp__"@.is_prefix_of("run_shell"@),
        !"mcp__"@.is_prefix_of("open_app"@),
        !"mcp__"@.is_prefix_of("open_url"@),
        !"mcp__"@.is_prefix_of("set_focus"@),
        !"mcp__"@.is_prefix_of("run_applescript"@),
        "run_shell"@ != "open_app"@,
        "run_shell"@ != "open_url"@,
        "run_shell"@ != "set_focus"@,
        "run_shell"@ != "run_applescript"@,
        "open_app"@ != "open_url"@,
        "open_app"@ != "set_focus"@,
        "open_app"@ != "run_applescript"@,
        "open_url"@ != "set_focus"@,
        "open_url"@ != "run_applescript"@,
        "set_focus"@ != "run_applescript"@,
        "string"@ != "boolean"@,
        "missing command"@ == "missing "@ + "command"@,
        "missing name"@ == "missing "@ + "name"@,
        "missing url"@ == "missing "@ + "url"@,
        "missing enabled"@ == "missing "@ + "enabled"@,
        "missing script"@ == "missing "@ + "script"@,
{
    reveal_strlit("mcp__");
    reveal_strlit("run_shell");
    reveal_strlit("open_app");
    reveal_strlit("open_url");
    reveal_strlit("set_focus");
    reveal_strlit("run_applescript");
    reveal_strlit("string");
    reveal_strlit("boolean");
    reveal_strlit("missing command");
    reveal_strlit("missing name");
    reveal_strlit("missing url");
    reveal_strlit("missing enabled");
    reveal_strlit("missing script");
    reveal_strlit("missing ");
    reveal_strlit("command");
    reveal_strlit("name");
    reveal_strlit("url");
    reveal_strlit("enabled");
    reveal_strlit("script");
    assert("mcp__"@.len() == 5 && "mcp__"@[0] == 'm');
    assert("run_shell"@.len() == 9 && "run_shell"@[0] == 'r');
    assert("open_app"@.len() == 8 && "open_app"@[0] == 'o' && "open_app"@[5] == 'a');
    assert("open_url"@.len() == 8 && "open_url"@[0] == 'o' && "open_url"@[5] == 'u');
    assert("set_focus"@.len() == 9 && "set_focus"@[0] == 's');
    assert("run_applescript"@.len() == 15 && "run_applescript"@[0] == 'r');
    assert("string"@.len() == 6 && "boolean"@.len() == 7);
    lemma_starts_otherwise("run_shell"@);
    lemma_starts_otherwise("open_app"@);
    lemma_starts_otherwise("open_url"@);
    lemma_starts_otherwise("set_focus"@);
    lemma_starts_otherwise("run_applescript"@);
    assert("missing command"@ =~= "missing "@ + "command"@);
    assert("missing name"@ =~= "missing "@ + "name"@);
    assert("missing url"@ =~= "missing "@ + "url"@);
    assert("missing enabled"@ =~= "missing "@ + "enabled"@);
    assert("missing script"@ =~= "missing "@ + "script"@);
}

proof fn lemma_starts_otherwise(name: Seq<char>)
    requires
        name.len() > 5,
        name[0] != 'm',
    ensures
        !"mcp__"@.is_prefix_of(name),
{
    reveal_strlit("mcp__");
    assert("mcp__"@.len() == 5);
    if "mcp__"@.is_prefix_of(name) {
        assert(name.subrange(0, 5)[0] == "mcp__"@[0]);
    }
}

proof fn lemma_tool_definitions()
    ensures
        required_key(run_shell_definition()) == "command"@,
        required_type(run_shell_definition()) == Some("string"@),
        required_key(open_app_definition()) == "name"@,
        required_type(open_app_definition()) == Some("string"@),
        required_key(open_url_definition()) == "url"@,
        required_type(open_url_definition()) == Some("string"@),
        required_key(set_focus_definition()) == "enabled"@,
        required_type(set_focus_definition()) == Some("boolean"@),
        required_key(run_applescript_definition()) == "script"@,
        required_type(run_applescript_definition()) == Some("string"@),
{
    let described = JsonView::Object(
        seq![
            ("type"@, JsonView::Str("string"@)),
            ("description"@, JsonView::Str("The shell command to run."@)),
        ],
    );
    let string = plain_type("string"@);
    lemma_required(run_shell_definition(), "command"@, described, "string"@);
    lemma_required(open_app_definition(), "name"@, string, "string"@);
    lemma_required(open_url_definition(), "url"@, string, "string"@);
    lemma_required(set_focus_definition(), "enabled"@, plain_type("boolean"@), "boolean"@);
    lemma_required(run_applescript_definition(), "script"@, string, "string"@);
}

proof fn lemma_required(d: JsonView, key: Seq<char>, property: JsonView, kind: Seq<char>)
    requires
        d is Object,
        d->Object_0.len() == 3,
        d == definition(
            d->Object_0[0].1->Str_0,
            d->Object_0[1].1->Str_0,
            one_property(key, property),
        ),
        property is Object,
        1 <= property->Object_0.len() <= 2,
        property->Object_0[0] == ("type"@, JsonView::Str(kind)),
        property->Object_0.len() == 2 ==> property->Object_0[1].0 == "description"@,
    ensures
        required_key(d) == key,
        required_type(d) == Some(kind),
{
    law_definitions_say_it(
        d->Object_0[0].1->Str_0,
        d->Object_0[1].1->Str_0,
        one_property(key, property),
        key,
        property,
    );
    reveal_strlit("type");
    reveal_strlit("description");
    assert("type"@.len() == 4 && "description"@.len() == 11);
    crate::json::law_last_member_counts(property->Object_0, 0);
}

/// Opening an application, opening an address and Do Not Disturb are always offered;
/// running what the model writes is offered in developer mode and not otherwise. No
/// other tool is offered, and none twice.
pub proof fn law_what_is_offered(developer_mode: bool, name: Seq<char>)
    ensures
        (exists|i: int|
            0 <= i < offered(developer_mode).len() && (#[trigger] offered(
                developer_mode,
            )[i]).str_at("name"@) == Some(name)) <==> {
            ||| name == "open_app"@
            ||| name == "open_url"@
            ||| name == "set_focus"@
            ||| developer_mode && name == "run_shell"@
            ||| developer_mode && name == "run_applescript"@
        },
        offered(developer_mode).len() == (if developer_mode { 5nat } else { 3 }),
{
    let all = offered(developer_mode);
    assert forall|i: int| 0 <= i < all.len() implies (#[trigger] all[i]).get("name"@) == Some(
        all[i]->Object_0[0].1,
    ) by {
        lemma_definition_name(all[i]);
    }
    if developer_mode {
        assert(all[0].str_at("name"@) == Some("run_shell"@));
        assert(all[1].str_at("name"@) == Some("open_app"@));
        assert(all[2].str_at("name"@) == Some("open_url"@));
        assert(all[3].str_at("name"@) == Some("set_focus"@));
        assert(all[4].str_at("name"@) == Some("run_applescript"@));
    } else {
        assert(all[0].str_at("name"@) == Some("open_app"@));
        assert(all[1].str_at("name"@) == Some("open_url"@));
        assert(all[2].str_at("name"@) == Some("set_focus"@));
    }
}

/// Every namespaced name is passed on, in either mode, and nothing else is.
pub proof fn law_namespaced_calls_are_passed_on(
    developer_mode: bool,
    rest: Seq<char>,
    name: Seq<char>,
    input: JsonView,
    r: Result<ToolAction, String>,
)
    ensures
        planned(developer_mode, "mcp__"@ + rest, input, r) ==> r == Ok::<ToolAction, String>(
            ToolAction::Mcp,
        ),
        planned(developer_mode, name, input, r) && r == Ok::<ToolAction, String>(ToolAction::Mcp)
            ==> "mcp__"@.is_prefix_of(name),
{
    text::law_prefixes_come_off("mcp__"@, rest);
}

/// What a finished command gives starts with what it printed and holds its errors where
/// it printed any but whitespace; where it failed, it ends with the exit code. Nothing
/// else is put to it.
pub proof fn law_output_is_told(
    stdout: Seq<char>,
    stderr: Seq<char>,
    success: bool,
    code: Option<i32>,
)
    ensures
        ({
            let all = full_output(stdout, stderr, success, code);
            let quiet = forall|i: int|
                0 <= i < stderr.len() ==> text::whitespace(#[trigger] stderr[i]);
            &&& stdout.is_prefix_of(all)
            &&& success && quiet ==> all == stdout
            &&& !quiet ==> text::contained(all, "[stderr] "@ + stderr)
            &&& success && !quiet ==> stderr.is_suffix_of(all)
            &&& !success ==> (code matches Some(c) ==> ("[exit code: "@ + text::decimal_int(
                c as int,
            ) + "]"@).is_suffix_of(all))
            &&& !success && code is None ==> ("[exit code: "@ + text::decimal_int(-1)
                + "]"@).is_suffix_of(all)
        }),
{
    text::law_blank(stderr);
    let n = match code {
        Some(c) => c as int,
        None => -1,
    };
    let end = "[exit code: "@ + text::decimal_int(n) + "]"@;
    let noted = "[stderr] "@ + stderr;
    lemma_notes(stderr, n);
    let line = seq!['\n'];
    let printed = if text::trimmed(stderr).len() > 0 {
        stdout + (line + noted)
    } else {
        stdout
    };
    assert(text::trimmed(stderr).len() > 0 ==> stdout + "\n[stderr] "@ + stderr =~= printed);
    let all = full_output(stdout, stderr, success, code);
    if success {
        assert(all == printed);
    } else {
        assert(all =~= printed + (line + end));
        assert(printed + (line + end) =~= (printed + line) + end);
        lemma_ends(printed + line, end);
    }
    assert(all =~= stdout + all.skip(stdout.len() as int));
    lemma_starts(stdout, all);
    if text::trimmed(stderr).len() > 0 {
        let behind = if success {
            Seq::empty()
        } else {
            line + end
        };
        text::law_found_within(stdout + line, noted, behind);
        assert(all =~= stdout + line + noted + behind);
        if success {
            assert(all =~= (stdout + line + "[stderr] "@) + stderr);
            lemma_ends(stdout + line + "[stderr] "@, stderr);
        }
    }
}

proof fn lemma_notes(stderr: Seq<char>, n: int)
    ensures
        "\n[stderr] "@ + stderr == seq!['\n'] + ("[stderr] "@ + stderr),
        "\n[exit code: "@ + text::decimal_int(n) + "]"@ == seq!['\n'] + ("[exit code: "@
            + text::decimal_int(n) + "]"@),
{
    reveal_strlit("\n[stderr] ");
    reveal_strlit("[stderr] ");
    reveal_strlit("\n[exit code: ");
    reveal_strlit("[exit code: ");
    assert("\n[stderr] "@ =~= seq!['\n'] + "[stderr] "@);
    assert("\n[exit code: "@ =~= seq!['\n'] + "[exit code: "@);
    assert("\n[stderr] "@ + stderr =~= seq!['\n'] + ("[stderr] "@ + stderr));
    assert("\n[exit code: "@ + text::decimal_int(n) + "]"@ =~= seq!['\n'] + ("[exit code: "@
        + text::decimal_int(n) + "]"@));
}

proof fn lemma_ends(a: Seq<char>, b: Seq<char>)
    ensures
        b.is_suffix_of(a + b),
{
}

proof fn lemma_starts(a: Seq<char>, all: Seq<char>)
    requires
        exists|b: Seq<char>| all == #[trigger] (a + b),
    ensures
        a.is_prefix_of(all),
{
}

/// The text of a command is its whole output, where that is within bounds and holds
/// anything but whitespace; a command that printed nothing is said to have succeeded.
pub proof fn law_output_is_handed_on(
    stdout: Seq<char>,
    stderr: Seq<char>,
    success: bool,
    code: Option<i32>,
)
    ensures
        ({
            let all = output::capped(full_output(stdout, stderr, success, code));
            let blank = forall|i: int| 0 <= i < all.len() ==> text::whitespace(#[trigger] all[i]);
            &&& !blank ==> command_text(stdout, stderr, success, code) == all
            &&& blank ==> command_text(stdout, stderr, success, code) == "(no output; succeeded)"@
        }),
{
    text::law_blank(output::capped(full_output(stdout, stderr, success, code)));
}

/// A whole number is written with its digits, and with a minus sign in front exactly
/// where it is negative.
pub proof fn law_codes_are_written(n: int)
    ensures
        n >= 0 ==> text::digits_value(text::decimal_int(n)) == n && text::all_digits(
            text::decimal_int(n),
        ),
        n < 0 ==> text::decimal_int(n)[0] == '-' && text::digits_value(
            text::decimal_int(n).drop_first(),
        ) == -n,
{
    if n >= 0 {
        text::lemma_decimal_value(n as nat);
    } else {
        text::lemma_decimal_value((-n) as nat);
        assert(text::decimal_int(n).drop_first() =~= text::decimal((-n) as nat));
    }
}

/// A name is listed exactly where one of the lines is the name, up to whitespace around
/// it.
pub proof fn law_listed_names_stand_on_a_line(lines: Seq<Seq<char>>, name: Seq<char>)
    requires
        lines.len() > 0,
        forall|i: int| 0 <= i < lines.len() ==> !(#[trigger] lines[i]).contains('\n'),
    ensures
        listed(text::joined_with(lines, seq!['\n']), name) <==> exists|i: int|
            0 <= i < lines.len() && text::trimmed(#[trigger] lines[i]) == name,
{
    text::law_cutting_undoes_joining(lines, '\n');
    let listing = text::joined_with(lines, seq!['\n']);
    if listed(listing, name) {
        let i = choose|i: int|
            0 <= i < text::pieces(listing, text::Cut::At('\n')).len() && text::trimmed(
                #[trigger] text::pieces(listing, text::Cut::At('\n'))[i],
            ) == name;
        assert(text::trimmed(lines[i]) == name);
    }
    if exists|i: int| 0 <= i < lines.len() && text::trimmed(#[trigger] lines[i]) == name {
        let i = choose|i: int| 0 <= i < lines.len() && text::trimmed(#[trigger] lines[i]) == name;
        assert(text::trimmed(text::pieces(listing, text::Cut::At('\n'))[i]) == name);
    }
}

/// The two Shortcuts of Do Not Disturb are told apart, and the one that is missing is
/// named.
pub proof fn law_shortcuts_are_told_apart(enabled: bool)
    ensures
        shortcut_name(enabled) != shortcut_name(!enabled),
        text::contained(missing_shortcut(enabled), "'"@ + shortcut_name(enabled) + "'"@),
{
    reveal_strlit("Bit DND On");
    reveal_strlit("Bit DND Off");
    assert("Bit DND On"@.len() == 10 && "Bit DND Off"@.len() == 11);
    let rest =
        "' not found. The user must create Shortcuts named 'Bit DND On' and 'Bit DND Off' (each a 'Set Focus' action) in the Shortcuts app."@;
    reveal_strlit("Shortcut '");
    reveal_strlit("'");
    reveal_strlit(
        "' not found. The user must create Shortcuts named 'Bit DND On' and 'Bit DND Off' (each a 'Set Focus' action) in the Shortcuts app.",
    );
    assert("Shortcut '"@.len() == 10 && "'"@.len() == 1);
    let name = shortcut_name(enabled);
    let quoted = "'"@ + name + "'"@;
    let before = "Shortcut '"@.take(9);
    text::law_found_within(before, quoted, rest.drop_first());
    assert("Shortcut '"@ =~= before + "'"@);
    assert(rest =~= "'"@ + rest.drop_first());
    assert(missing_shortcut(enabled) =~= before + quoted + rest.drop_first());
}

/// Do Not Disturb is turned on by the one Shortcut and off by the other, each where it is
/// on a line of the list and only there; and it can be had exactly where both are.
pub proof fn law_focus_is_turned(
    enabled: bool,
    lines: Seq<Seq<char>>,
    r: Result<CommandLine, String>,
)
    requires
        lines.len() > 0,
        forall|i: int| 0 <= i < lines.len() ==> !(#[trigger] lines[i]).contains('\n'),
        turns_focus(enabled, text::joined_with(lines, seq!['\n']), r),
    ensures
        ({
            let name = if enabled {
                "Bit DND On"@
            } else {
                "Bit DND Off"@
            };
            let there = exists|i: int| 0 <= i < lines.len() && text::trimmed(#[trigger] lines[i]) == name;
            &&& r is Ok <==> there
            &&& r matches Ok(c) ==> c.program@ == "shortcuts"@ && c.args@.len() == 2 && c.args@[0]@
                == "run"@ && c.args@[1]@ == name
        }),
        dnd_ready(text::joined_with(lines, seq!['\n'])) <==> (exists|i: int|
            0 <= i < lines.len() && text::trimmed(#[trigger] lines[i]) == "Bit DND On"@) && (exists|i: int|
            0 <= i < lines.len() && text::trimmed(#[trigger] lines[i]) == "Bit DND Off"@),
{
    law_listed_names_stand_on_a_line(lines, "Bit DND On"@);
    law_listed_names_stand_on_a_line(lines, "Bit DND Off"@);
    if let Ok(c) = r {
        let args = text::views(c.args@);
        assert(args.len() == c.args@.len());
        assert(args[0] == c.args@[0]@ && args[1] == c.args@[1]@);
    }
}

/// A call by a name that is neither namespaced nor offered in the mode at hand is refused,
/// and what is told names it; so outside developer mode the tools that run what the model
/// writes are refused like any unknown one.
pub proof fn law_unknown_tools_are_refused(
    developer_mode: bool,
    name: Seq<char>,
    input: JsonView,
    r: Result<ToolAction, String>,
)
    requires
        planned(developer_mode, name, input, r),
        !"mcp__"@.is_prefix_of(name),
        forall|i: int|
            0 <= i < offered(developer_mode).len() ==> (#[trigger] offered(
                developer_mode,
            )[i]).str_at("name"@) != Some(name),
    ensures
        r matches Err(e) && name.is_suffix_of(e@),
{
    law_what_is_offered(developer_mode, name);
    assert(name.is_suffix_of("unknown tool: "@ + name));
}

} // verus!
