//! Where the OAuth tokens of remote MCP servers are kept: one file for each server,
//! which only its owner may read.
//!
//! A refresh rewrites the file on essentially every call, so it is written to a
//! temporary file in the same directory, which then takes its place.

use crate::paths;
use crate::text;
use vstd::prelude::*;
use vstd::string::*;
use vstd::utf8::*;

verus! {

/// The address that the browser is sent back to. It is registered beforehand, and so
/// it is fixed.
pub const REDIRECT_URI: &'static str = "http://127.0.0.1:8473/callback";

/// May the character stand in the name of a token file?
pub open spec fn safe(c: char) -> bool {
    text::alphanumeric(c) || c == '-' || c == '_'
}

/// A server's name as part of a file's name: `_` stands for each character that is
/// not safe, and `server` for no name at all.
pub open spec fn sanitized(name: Seq<char>) -> Seq<char> {
    if name.len() == 0 {
        "server"@
    } else {
        name.map_values(|c: char| if safe(c) { c } else { '_' })
    }
}

/// Restrict a server's name to characters that are safe in a file's name, so that no
/// name leads out of the directory.
pub fn sanitize_name(name: &str) -> (r: String)
    ensures
        r@ == sanitized(name@),
{
    let cs = text::chars_of(name);
    let mut cleaned = String::new();
    for i in 0..cs.len()
        invariant
            cs@ == name@,
            cleaned@.len() == i,
            forall|j: int|
                0 <= j < i ==> #[trigger] cleaned@[j] == (if safe(cs@[j]) { cs@[j] } else { '_' }),
    {
        let c = cs[i];
        if c.is_alphanumeric() || c == '-' || c == '_' {
            cleaned.push(c);
        } else {
            cleaned.push('_');
        }
    }
    if cs.len() == 0 {
        "server".to_owned()
    } else {
        assert(cleaned@ =~= sanitized(name@));
        cleaned
    }
}

/// Every sanitized name has a character, and all of its characters are safe: none is
/// `/` or `.`, so none of them leads to another directory.
pub proof fn law_sanitized_is_safe(name: Seq<char>)
    ensures
        sanitized(name).len() > 0,
        forall|i: int|
            0 <= i < sanitized(name).len() ==> {
                &&& safe(#[trigger] sanitized(name)[i])
                &&& sanitized(name)[i] != '/'
                &&& sanitized(name)[i] != '.'
            },
{
    reveal_strlit("server");
}

/// Sanitizing a sanitized name changes nothing.
pub proof fn law_sanitizing_is_idempotent(name: Seq<char>)
    ensures
        sanitized(sanitized(name)) == sanitized(name),
{
    law_sanitized_is_safe(name);
    assert(sanitized(sanitized(name)) =~= sanitized(name));
}

/// A name of safe characters stays as it is, so two such names stay apart.
pub proof fn law_safe_names_are_kept(name: Seq<char>)
    requires
        name.len() > 0,
        forall|i: int| 0 <= i < name.len() ==> safe(#[trigger] name[i]),
    ensures
        sanitized(name) == name,
{
    assert(sanitized(name) =~= name);
}

/// A number below 16 as a digit.
pub open spec fn hex_digit(x: int) -> char {
    if x < 10 {
        (48 + x) as u8 as char
    } else {
        (87 + x) as u8 as char
    }
}

/// Bytes in hexadecimal, two digits for each.
pub open spec fn hex(bytes: Seq<u8>) -> Seq<char> {
    Seq::new(
        2 * bytes.len(),
        |i: int|
            if i % 2 == 0 {
                hex_digit(bytes[i / 2] as int / 16)
            } else {
                hex_digit(bytes[i / 2] as int % 16)
            },
    )
}

fn digit_of(x: u8) -> (r: char)
    requires
        x < 16,
    ensures
        r == hex_digit(x as int),
{
    if x < 10 {
        (48 + x) as char
    } else {
        (87 + x) as char
    }
}

fn hex_of(s: &str) -> (r: String)
    ensures
        r@ == hex(encode_utf8(s@)),
{
    let bytes = s.as_bytes();
    let mut out = String::new();
    for i in 0..bytes.len()
        invariant
            out@.len() == 2 * i,
            forall|k: int| 0 <= k < 2 * i ==> #[trigger] out@[k] == hex(bytes@)[k],
    {
        out.push(digit_of(bytes[i] / 16));
        out.push(digit_of(bytes[i] % 16));
    }
    assert(out@ =~= hex(bytes@));
    out
}

/// What stands before the ending of a server's token file: its name, where that is safe
/// as it is; otherwise the sanitized name, a dot, and the name itself in hexadecimal,
/// which tells it from other names that sanitize alike.
pub open spec fn token_stem(server: Seq<char>) -> Seq<char> {
    if sanitized(server) == server {
        server
    } else {
        sanitized(server).push('.') + hex(encode_utf8(server))
    }
}

/// The name of the file that holds a server's token.
pub open spec fn token_file(server: Seq<char>) -> Seq<char> {
    token_stem(server) + ".token.json"@
}

/// The path of the file that holds a server's token.
pub open spec fn token_place(config_dir: Seq<char>, server: Seq<char>) -> Seq<char> {
    paths::below(paths::below(config_dir, "mcp"@), token_file(server))
}

/// The path of the file that holds a server's token, which no other server shares:
/// `mcp/<server>.token.json` below the directory for settings, where the server's name is
/// safe.
pub fn token_path(config_dir: &str, name: &str) -> (r: String)
    ensures
        r@ == token_place(config_dir@, name@),
{
    let mut file = sanitize_name(name);
    if !text::same(file.as_str(), name) {
        file.push('.');
        file.append(hex_of(name).as_str());
    }
    file.append(".token.json");
    let dir = paths::join(config_dir, "mcp");
    paths::join(dir.as_str(), file.as_str())
}

proof fn lemma_hex(bytes: Seq<u8>)
    ensures
        forall|i: int|
            0 <= i < hex(bytes).len() ==> #[trigger] hex(bytes)[i] != '/' && hex(bytes)[i] != '.',
{
}

/// Bytes can be told from their hexadecimal form.
proof fn lemma_hex_injective(a: Seq<u8>, b: Seq<u8>)
    requires
        hex(a) == hex(b),
    ensures
        a == b,
{
    assert(hex(a).len() == 2 * a.len() && hex(b).len() == 2 * b.len());
    assert forall|i: int| 0 <= i < a.len() implies a[i] == b[i] by {
        assert(hex(a)[2 * i] == hex_digit(a[i] as int / 16));
        assert(hex(b)[2 * i] == hex_digit(b[i] as int / 16));
        assert(hex(a)[2 * i + 1] == hex_digit(a[i] as int % 16));
        assert(hex(b)[2 * i + 1] == hex_digit(b[i] as int % 16));
        assert(a[i] as int / 16 == b[i] as int / 16);
        assert(a[i] as int % 16 == b[i] as int % 16);
    }
    assert(a =~= b);
}

/// A token file always lies in the directory for tokens itself, whatever the
/// server's name.
pub proof fn law_tokens_stay_in_place(config_dir: Seq<char>, server: Seq<char>)
    ensures
        token_place(config_dir, server) == paths::below(config_dir, "mcp"@).push('/')
            + token_file(server),
        !token_file(server).contains('/'),
{
    reveal_strlit("mcp");
    reveal_strlit(".token.json");
    law_sanitized_is_safe(server);
    lemma_hex(encode_utf8(server));
    let dir = paths::below(config_dir, "mcp"@);
    assert(dir.last() == 'p');
    let stem = token_stem(server);
    assert forall|i: int| 0 <= i < stem.len() implies #[trigger] stem[i] != '/' by {
        let safe = sanitized(server);
        if i < safe.len() {
            assert(stem[i] == safe[i]);
        } else if i > safe.len() {
            assert(stem[i] == hex(encode_utf8(server))[i - safe.len() - 1]);
        }
    }
    let file = token_file(server);
    assert forall|i: int| 0 <= i < file.len() implies #[trigger] file[i] != '/' by {
        if i < stem.len() {
            assert(file[i] == stem[i]);
        } else {
            assert(file[i] == ".token.json"@[i - stem.len()]);
        }
    }
    assert(stem[0] == sanitized(server)[0]);
    assert(file[0] == stem[0]);
}

/// Two servers with different names never share a token file, whatever the names.
pub proof fn law_tokens_are_kept_apart(config_dir: Seq<char>, a: Seq<char>, b: Seq<char>)
    requires
        a != b,
    ensures
        token_place(config_dir, a) != token_place(config_dir, b),
{
    law_tokens_stay_in_place(config_dir, a);
    law_tokens_stay_in_place(config_dir, b);
    let dir = paths::below(config_dir, "mcp"@).push('/');
    let end = ".token.json"@;
    if token_place(config_dir, a) == token_place(config_dir, b) {
        let p = token_place(config_dir, a);
        assert(token_stem(a) =~= p.subrange(dir.len() as int, p.len() - end.len()));
        assert(token_stem(b) =~= p.subrange(dir.len() as int, p.len() - end.len()));
        lemma_stems_differ(a, b);
    }
}

proof fn lemma_stems_differ(a: Seq<char>, b: Seq<char>)
    requires
        token_stem(a) == token_stem(b),
    ensures
        a == b,
{
    law_sanitized_is_safe(a);
    law_sanitized_is_safe(b);
    let stem = token_stem(a);
    let x = sanitized(a);
    let y = sanitized(b);
    // The sanitized name ends at the first dot, if there is one.
    assert(forall|i: int| 0 <= i < x.len() ==> #[trigger] stem[i] == x[i]);
    assert(forall|i: int| 0 <= i < y.len() ==> #[trigger] token_stem(b)[i] == y[i]);
    if x != a {
        assert(stem[x.len() as int] == '.');
    }
    if y != b {
        assert(token_stem(b)[y.len() as int] == '.');
    }
    if x != a && y != b {
        if x.len() < y.len() {
            assert(stem[x.len() as int] == y[x.len() as int]);
        } else if y.len() < x.len() {
            assert(stem[y.len() as int] == x[y.len() as int]);
        }
        let n = x.len() as int + 1;
        assert(hex(encode_utf8(a)) =~= stem.skip(n));
        assert(hex(encode_utf8(b)) =~= stem.skip(n));
        lemma_hex_injective(encode_utf8(a), encode_utf8(b));
        encode_utf8_decode_utf8(a);
        encode_utf8_decode_utf8(b);
    } else if x != a {
        assert(stem[x.len() as int] == y[x.len() as int]);
    } else if y != b {
        assert(stem[y.len() as int] == x[y.len() as int]);
    }
}

/// A server's credentials, in a file of its own.
pub struct FileCredentialStore {
    pub path: String,
}

impl FileCredentialStore {
    pub fn new(path: String) -> (r: Self)
        ensures
            r.path == path,
    {
        FileCredentialStore { path }
    }

    /// The path of the store of a server, where the directory for settings is known.
    pub fn path_for(config_dir: Option<&str>, server_name: &str) -> (r: Option<String>)
        ensures
            text::opt_view(r) == (match config_dir {
                Some(dir) => Some(token_place(dir@, server_name@)),
                None => None,
            }),
    {
        match config_dir {
            Some(dir) => Some(token_path(dir, server_name)),
            None => None,
        }
    }
}

/// The name of the temporary file that a file is written to.
pub open spec fn temp_for(file_name: Seq<char>) -> Seq<char> {
    "."@ + file_name + ".tmp"@
}

/// The temporary file of a token file is not the token file of any server.
pub proof fn law_temporary_files_are_no_tokens(a: Seq<char>, b: Seq<char>)
    ensures
        temp_for(token_file(a)) != token_file(b),
{
    reveal_strlit(".");
    law_sanitized_is_safe(b);
    assert(temp_for(token_file(a))[0] == '.');
    assert(token_file(b)[0] == sanitized(b)[0]);
}

/// The name of the temporary file that a file is written to before it takes the
/// file's place; `token` stands for a file without a name.
pub fn temp_name(file_name: Option<&str>) -> (r: String)
    ensures
        r@ == temp_for(
            match file_name {
                Some(n) => n@,
                None => "token"@,
            },
        ),
{
    let mut s = ".".to_owned();
    match file_name {
        Some(n) => {
            s.append(n);
        },
        None => {
            s.append("token");
        },
    }
    s.append(".tmp");
    s
}

/// Sanitizing changes each character by itself: a safe one stays, and any other becomes
/// `_`. Letters, digits, hyphens and underscores are safe.
pub proof fn law_sanitizing_is_by_character(name: Seq<char>, i: int, c: char)
    requires
        0 <= i < name.len(),
    ensures
        sanitized(name).len() == name.len(),
        safe(name[i]) ==> sanitized(name)[i] == name[i],
        !safe(name[i]) ==> sanitized(name)[i] == '_',
        'a' <= c <= 'z' || 'A' <= c <= 'Z' || '0' <= c <= '9' || c == '-' || c == '_' ==> safe(c),
        c == '/' || c == '.' || c == ' ' || c == ':' ==> !safe(c),
{
}

/// The token of a server with a safe name lies under that name, in the directory for
/// tokens below the one for settings.
pub proof fn law_safe_tokens_have_plain_names(config_dir: Seq<char>, server: Seq<char>)
    requires
        config_dir.len() > 0,
        config_dir.last() != '/',
        server.len() > 0,
        forall|i: int| 0 <= i < server.len() ==> safe(#[trigger] server[i]),
    ensures
        token_place(config_dir, server) == config_dir + "/mcp/"@ + server + ".token.json"@,
{
    law_safe_names_are_kept(server);
    law_tokens_stay_in_place(config_dir, server);
    reveal_strlit("mcp");
    reveal_strlit("/mcp/");
    assert("mcp"@.len() == 3);
    assert("/mcp/"@ =~= seq!['/'] + "mcp"@ + seq!['/']);
    paths::law_below(config_dir, "mcp"@);
    assert(token_place(config_dir, server) =~= config_dir + "/mcp/"@ + server + ".token.json"@);
}

/// Two files never share a temporary file, and none is its own.
pub proof fn law_temporary_files_are_kept_apart(a: Seq<char>, b: Seq<char>)
    ensures
        temp_for(a) == temp_for(b) ==> a == b,
        temp_for(a) != a,
        text::contained(temp_for(a), a),
{
    reveal_strlit(".");
    reveal_strlit(".tmp");
    assert("."@.len() == 1 && ".tmp"@.len() == 4);
    assert(temp_for(a).subrange(1, temp_for(a).len() - 4) =~= a);
    assert(temp_for(b).subrange(1, temp_for(b).len() - 4) =~= b);
    text::law_found_within("."@, a, ".tmp"@);
}

} // verus!
