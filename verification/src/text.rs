//! Strings as sequences of characters.
//!
//! Everything the rest of the crate does to text is built from the functions
//! here: each says what it does over the `Seq<char>` view of its arguments.

use vstd::prelude::*;
use vstd::string::*;
use vstd::utf8::*;

verus! {

// ---- characters ----

pub open spec fn ascii(c: char) -> bool {
    (c as u32) < 128
}

pub open spec fn ascii_upper(c: char) -> bool {
    'A' <= c <= 'Z'
}

pub open spec fn ascii_letter(c: char) -> bool {
    'a' <= c <= 'z' || 'A' <= c <= 'Z'
}

pub open spec fn ascii_digit(c: char) -> bool {
    '0' <= c <= '9'
}

/// The whitespace characters below 128: tab, line feed, vertical tab, form
/// feed, carriage return and space.
pub open spec fn ascii_space(c: char) -> bool {
    9 <= c as u32 <= 13 || c == ' '
}

/// The lower-case form of an ASCII letter; every other character is itself.
pub open spec fn ascii_lower(c: char) -> char {
    if ascii_upper(c) {
        ((c as u32) + 32) as char
    } else {
        c
    }
}

/// Whether `char::is_alphabetic` holds of a character from 128 on.
pub uninterp spec fn unicode_alphabetic(c: char) -> bool;

/// Whether `char::is_alphanumeric` holds of a character from 128 on.
pub uninterp spec fn unicode_alphanumeric(c: char) -> bool;

/// Whether `char::is_whitespace` holds of a character from 128 on.
pub uninterp spec fn unicode_whitespace(c: char) -> bool;

pub open spec fn alphabetic(c: char) -> bool {
    if ascii(c) {
        ascii_letter(c)
    } else {
        unicode_alphabetic(c)
    }
}

pub open spec fn alphanumeric(c: char) -> bool {
    if ascii(c) {
        ascii_letter(c) || ascii_digit(c)
    } else {
        unicode_alphanumeric(c)
    }
}

pub open spec fn whitespace(c: char) -> bool {
    if ascii(c) {
        ascii_space(c)
    } else {
        unicode_whitespace(c)
    }
}

/// `char::is_alphabetic`: below 128 exactly the ASCII letters; from 128 on the
/// Unicode `Alphabetic` property, which is named and not spelled out.
pub assume_specification[ char::is_alphabetic ](c: char) -> (r: bool)
    ensures
        r == (if ascii(c) { ascii_letter(c) } else { unicode_alphabetic(c) }),
;

/// `char::is_alphanumeric`: below 128 exactly the ASCII letters and digits; from
/// 128 on the Unicode properties, which are named and not spelled out.
pub assume_specification[ char::is_alphanumeric ](c: char) -> (r: bool)
    ensures
        r == (if ascii(c) { ascii_letter(c) || ascii_digit(c) } else { unicode_alphanumeric(c) }),
;

/// `char::is_whitespace`: below 128 the six ASCII characters with the Unicode
/// `White_Space` property; from 128 on that property, named and not spelled out.
pub assume_specification[ char::is_whitespace ](c: char) -> (r: bool)
    ensures
        r == (if ascii(c) { ascii_space(c) } else { unicode_whitespace(c) }),
;

/// `String::push`: the character is put behind the string.
pub assume_specification[ String::push ](s: &mut String, c: char)
    ensures
        final(s)@ == old(s)@.push(c),
;

// ---- whole strings ----

/// Do two strings hold the same characters?
pub fn same(a: &str, b: &str) -> (r: bool)
    ensures
        r == (a@ == b@),
{
    a.to_owned() == b.to_owned()
}

/// The characters of a string, in order.
pub fn chars_of(s: &str) -> (r: Vec<char>)
    ensures
        r@ == s@,
{
    let mut out: Vec<char> = Vec::new();
    for c in it: s.chars()
        invariant
            out@ == it.seq().take(it.index() as int),
            it.seq() == s@,
    {
        out.push(c);
    }
    out
}

/// The string made of the characters of `cs` from `from` up to `to`.
pub fn string_between(cs: &Vec<char>, from: usize, to: usize) -> (r: String)
    requires
        from <= to <= cs@.len(),
    ensures
        r@ == cs@.subrange(from as int, to as int),
{
    let mut out = String::new();
    for i in from..to
        invariant
            from <= to <= cs@.len(),
            out@ == cs@.subrange(from as int, i as int),
    {
        out.push(cs[i]);
        assert(cs@.subrange(from as int, i + 1) =~= cs@.subrange(from as int, i as int).push(
            cs@[i as int],
        ));
    }
    out
}

/// One string behind another.
pub fn joined(a: &str, b: &str) -> (r: String)
    ensures
        r@ == a@ + b@,
{
    let mut out = a.to_owned();
    out.append(b);
    out
}

// ---- lower case ----

/// What `str::to_lowercase` makes of a string with a character outside ASCII.
pub uninterp spec fn unicode_lowercase(s: Seq<char>) -> Seq<char>;

pub open spec fn lowercase(s: Seq<char>) -> Seq<char> {
    if is_ascii_chars(s) {
        s.map_values(|c: char| ascii_lower(c))
    } else {
        unicode_lowercase(s)
    }
}

/// `str::to_lowercase`: on a string of ASCII characters each letter goes to lower
/// case and nothing else changes; on any other string the Unicode mapping, which
/// is named and not spelled out.
#[verifier::external_body]
pub(crate) fn to_lowercase(s: &str) -> (r: String)
    ensures
        r@ == (if is_ascii_chars(s@) {
            s@.map_values(|c: char| ascii_lower(c))
        } else {
            unicode_lowercase(s@)
        }),
{
    s.to_lowercase()
}

/// The lower-case form of an ASCII letter; every other character is itself.
pub fn to_ascii_lower(c: char) -> (r: char)
    ensures
        r == ascii_lower(c),
{
    if 'A' <= c && c <= 'Z' {
        (c as u8 + 32) as char
    } else {
        c
    }
}

/// Are two strings equal up to the case of their ASCII letters?
pub open spec fn eq_ignore_case(a: Seq<char>, b: Seq<char>) -> bool {
    &&& a.len() == b.len()
    &&& forall|i: int| 0 <= i < a.len() ==> ascii_lower(#[trigger] a[i]) == ascii_lower(b[i])
}

pub fn eq_ignore_ascii_case(a: &str, b: &str) -> (r: bool)
    ensures
        r == eq_ignore_case(a@, b@),
{
    let x = chars_of(a);
    let y = chars_of(b);
    if x.len() != y.len() {
        return false;
    }
    for i in 0..x.len()
        invariant
            x@ == a@,
            y@ == b@,
            x@.len() == y@.len(),
            forall|k: int| 0 <= k < i ==> ascii_lower(#[trigger] x@[k]) == ascii_lower(y@[k]),
    {
        if to_ascii_lower(x[i]) != to_ascii_lower(y[i]) {
            return false;
        }
    }
    true
}

// ---- bytes ----

/// What `String::from_utf8_lossy` makes of bytes that are not valid UTF-8.
pub uninterp spec fn replaced_utf8(bytes: Seq<u8>) -> Seq<char>;

pub open spec fn utf8_lossy(bytes: Seq<u8>) -> Seq<char> {
    if valid_utf8(bytes) {
        decode_utf8(bytes)
    } else {
        replaced_utf8(bytes)
    }
}

/// `String::from_utf8_lossy`: valid UTF-8 is decoded as it stands; what comes of
/// other bytes, with replacement characters in it, is named and not spelled out.
#[verifier::external_body]
pub(crate) fn from_utf8_lossy(bytes: &Vec<u8>) -> (r: String)
    ensures
        r@ == (if valid_utf8(bytes@) { decode_utf8(bytes@) } else { replaced_utf8(bytes@) }),
{
    String::from_utf8_lossy(bytes).into_owned()
}

// ---- trimming ----

/// Without the whitespace at the start.
pub open spec fn trim_start(s: Seq<char>) -> Seq<char>
    decreases s.len(),
{
    if s.len() > 0 && whitespace(s[0]) {
        trim_start(s.drop_first())
    } else {
        s
    }
}

/// Without the whitespace at the end.
pub open spec fn trim_end(s: Seq<char>) -> Seq<char>
    decreases s.len(),
{
    if s.len() > 0 && whitespace(s.last()) {
        trim_end(s.drop_last())
    } else {
        s
    }
}

/// Without the whitespace at either end.
pub open spec fn trimmed(s: Seq<char>) -> Seq<char> {
    trim_end(trim_start(s))
}

pub fn trim(s: &str) -> (r: String)
    ensures
        r@ == trimmed(s@),
{
    let cs = chars_of(s);
    let mut from: usize = 0;
    assert(cs@.skip(0) =~= cs@);
    while from < cs.len() && cs[from].is_whitespace()
        invariant
            from <= cs@.len(),
            trim_start(cs@) == trim_start(cs@.skip(from as int)),
        ensures
            from <= cs@.len(),
            trim_start(cs@) == cs@.skip(from as int),
        decreases cs@.len() - from,
    {
        assert(cs@.skip(from as int).drop_first() =~= cs@.skip(from + 1));
        from = from + 1;
    }
    let mut to: usize = cs.len();
    assert(cs@.subrange(from as int, to as int) =~= cs@.skip(from as int));
    while to > from && cs[to - 1].is_whitespace()
        invariant
            from <= to <= cs@.len(),
            trimmed(cs@) == trim_end(cs@.subrange(from as int, to as int)),
        ensures
            from <= to <= cs@.len(),
            trimmed(cs@) == cs@.subrange(from as int, to as int),
        decreases to,
    {
        assert(cs@.subrange(from as int, to as int).drop_last() =~= cs@.subrange(
            from as int,
            to - 1,
        ));
        to = to - 1;
    }
    string_between(&cs, from, to)
}

/// Is there nothing but whitespace?
pub fn is_blank(s: &str) -> (r: bool)
    ensures
        r == (trimmed(s@).len() == 0),
{
    trim(s).as_str().is_empty()
}

proof fn lemma_trim_start(s: Seq<char>)
    ensures
        trim_start(s).len() == 0 || !whitespace(trim_start(s)[0]),
        trim_start(s).is_suffix_of(s),
    decreases s.len(),
{
    if s.len() > 0 && whitespace(s[0]) {
        lemma_trim_start(s.drop_first());
    }
}

proof fn lemma_trim_end(s: Seq<char>)
    ensures
        trim_end(s).len() == 0 || !whitespace(trim_end(s).last()),
        trim_end(s).is_prefix_of(s),
    decreases s.len(),
{
    if s.len() > 0 && whitespace(s.last()) {
        lemma_trim_end(s.drop_last());
    }
}

/// What is trimmed starts and ends with something other than whitespace.
pub proof fn lemma_trimmed_ends(s: Seq<char>)
    ensures
        trimmed(s).len() > 0 ==> !whitespace(trimmed(s)[0]) && !whitespace(trimmed(s).last()),
{
    lemma_trim_start(s);
    lemma_trim_end(trim_start(s));
}

/// Trimming a second time changes nothing.
pub proof fn lemma_trimmed_idempotent(s: Seq<char>)
    ensures
        trimmed(trimmed(s)) == trimmed(s),
{
    lemma_trimmed_ends(s);
}

/// Without the run of `c` at the end.
pub open spec fn trim_end_char(s: Seq<char>, c: char) -> Seq<char>
    decreases s.len(),
{
    if s.len() > 0 && s.last() == c {
        trim_end_char(s.drop_last(), c)
    } else {
        s
    }
}

/// Without the run of `c` at the start.
pub open spec fn trim_start_char(s: Seq<char>, c: char) -> Seq<char>
    decreases s.len(),
{
    if s.len() > 0 && s[0] == c {
        trim_start_char(s.drop_first(), c)
    } else {
        s
    }
}

pub fn trim_end_matches(s: &str, c: char) -> (r: String)
    ensures
        r@ == trim_end_char(s@, c),
{
    let cs = chars_of(s);
    let mut to: usize = cs.len();
    assert(cs@.take(to as int) =~= cs@);
    while to > 0 && cs[to - 1] == c
        invariant
            to <= cs@.len(),
            trim_end_char(cs@, c) == trim_end_char(cs@.take(to as int), c),
        ensures
            to <= cs@.len(),
            trim_end_char(cs@, c) == cs@.take(to as int),
        decreases to,
    {
        assert(cs@.take(to as int).drop_last() =~= cs@.take(to - 1));
        to = to - 1;
    }
    string_between(&cs, 0, to)
}

pub fn trim_start_matches(s: &str, c: char) -> (r: String)
    ensures
        r@ == trim_start_char(s@, c),
{
    let cs = chars_of(s);
    let mut from: usize = 0;
    assert(cs@.skip(0) =~= cs@);
    while from < cs.len() && cs[from] == c
        invariant
            from <= cs@.len(),
            trim_start_char(cs@, c) == trim_start_char(cs@.skip(from as int), c),
        ensures
            from <= cs@.len(),
            trim_start_char(cs@, c) == cs@.skip(from as int),
        decreases cs@.len() - from,
    {
        assert(cs@.skip(from as int).drop_first() =~= cs@.skip(from + 1));
        from = from + 1;
    }
    string_between(&cs, from, cs.len())
}

// ---- searching ----

/// Does `p` stand in `s` from position `i` on?
pub open spec fn occurs_at(s: Seq<char>, p: Seq<char>, i: int) -> bool {
    &&& 0 <= i
    &&& i + p.len() <= s.len()
    &&& s.subrange(i, i + p.len()) == p
}

/// Is position `i` the first at which `p` stands in `s`?
pub open spec fn first_at(s: Seq<char>, p: Seq<char>, i: int) -> bool {
    &&& occurs_at(s, p, i)
    &&& forall|j: int| 0 <= j < i ==> !(#[trigger] occurs_at(s, p, j))
}

/// The first position from `from` on at which `p` stands in `s`.
pub open spec fn find_from(s: Seq<char>, p: Seq<char>, from: int) -> Option<int>
    decreases s.len() + 1 - from,
{
    if from + p.len() > s.len() {
        None
    } else if occurs_at(s, p, from) {
        Some(from)
    } else {
        find_from(s, p, from + 1)
    }
}

/// The first position at which `p` stands in `s`.
pub open spec fn find(s: Seq<char>, p: Seq<char>) -> Option<int> {
    find_from(s, p, 0)
}

pub open spec fn contained(s: Seq<char>, p: Seq<char>) -> bool {
    exists|i: int| occurs_at(s, p, i)
}

proof fn lemma_find_from(s: Seq<char>, p: Seq<char>, from: int)
    requires
        0 <= from,
    ensures
        match find_from(s, p, from) {
            Some(i) => {
                &&& from <= i
                &&& occurs_at(s, p, i)
                &&& forall|j: int| from <= j < i ==> !(#[trigger] occurs_at(s, p, j))
            },
            None => forall|j: int| from <= j ==> !(#[trigger] occurs_at(s, p, j)),
        },
    decreases s.len() + 1 - from,
{
    if from + p.len() <= s.len() && !occurs_at(s, p, from) {
        lemma_find_from(s, p, from + 1);
    }
}

/// `find` gives the first position, and gives one whenever there is one.
pub proof fn lemma_find(s: Seq<char>, p: Seq<char>)
    ensures
        match find(s, p) {
            Some(i) => first_at(s, p, i) && contained(s, p),
            None => !contained(s, p),
        },
{
    lemma_find_from(s, p, 0);
}

/// A first position is the one that `find` gives.
pub proof fn lemma_first_at(s: Seq<char>, p: Seq<char>, i: int)
    requires
        first_at(s, p, i),
    ensures
        find(s, p) == Some(i),
{
    lemma_find(s, p);
    let k = find(s, p);
    assert(occurs_at(s, p, i));
    if k->0 < i {
        assert(occurs_at(s, p, k->0));
    }
}

/// Does `p` stand in `cs` from position `i` on?
fn stands_at(cs: &Vec<char>, p: &Vec<char>, i: usize) -> (r: bool)
    ensures
        r == occurs_at(cs@, p@, i as int),
{
    if i > cs.len() || p.len() > cs.len() - i {
        return false;
    }
    for k in 0..p.len()
        invariant
            i + p.len() <= cs.len(),
            forall|j: int| 0 <= j < k ==> cs@[i + j] == #[trigger] p@[j],
    {
        if cs[i + k] != p[k] {
            assert(cs@.subrange(i as int, i + p@.len())[k as int] != p@[k as int]);
            return false;
        }
    }
    assert(cs@.subrange(i as int, i + p@.len()) =~= p@);
    true
}

/// The first position at which `p` stands in `cs`.
pub fn position(cs: &Vec<char>, p: &Vec<char>) -> (r: Option<usize>)
    ensures
        match r {
            Some(i) => find(cs@, p@) == Some(i as int),
            None => find(cs@, p@) is None,
        },
{
    let mut i: usize = 0;
    while i <= cs.len() && p.len() <= cs.len() - i
        invariant
            i <= cs@.len() + 1,
            find(cs@, p@) == find_from(cs@, p@, i as int),
        decreases cs@.len() + 1 - i,
    {
        if stands_at(cs, p, i) {
            return Some(i);
        }
        if i == cs.len() {
            assert(cs@.subrange(i as int, i + p@.len()) =~= p@);
            return None;
        }
        i = i + 1;
    }
    None
}

pub fn contains(s: &str, p: &str) -> (r: bool)
    ensures
        r == contained(s@, p@),
{
    proof {
        lemma_find(s@, p@);
    }
    let cs = chars_of(s);
    let ps = chars_of(p);
    position(&cs, &ps).is_some()
}

pub fn starts_with(s: &str, p: &str) -> (r: bool)
    ensures
        r == p@.is_prefix_of(s@),
{
    let cs = chars_of(s);
    let ps = chars_of(p);
    let r = stands_at(&cs, &ps, 0);
    assert(r == p@.is_prefix_of(s@));
    r
}

pub fn ends_with(s: &str, p: &str) -> (r: bool)
    ensures
        r == p@.is_suffix_of(s@),
{
    let cs = chars_of(s);
    let ps = chars_of(p);
    if ps.len() > cs.len() {
        return false;
    }
    let r = stands_at(&cs, &ps, cs.len() - ps.len());
    assert(r == p@.is_suffix_of(s@));
    r
}

/// What follows the prefix `p`, where the string starts with it.
pub open spec fn after_prefix(s: Seq<char>, p: Seq<char>) -> Option<Seq<char>> {
    if p.is_prefix_of(s) {
        Some(s.skip(p.len() as int))
    } else {
        None
    }
}

/// What precedes the suffix `p`, where the string ends with it.
pub open spec fn before_suffix(s: Seq<char>, p: Seq<char>) -> Option<Seq<char>> {
    if p.is_suffix_of(s) {
        Some(s.take(s.len() - p.len()))
    } else {
        None
    }
}

/// The view of an optional string.
pub open spec fn opt_view(o: Option<String>) -> Option<Seq<char>> {
    match o {
        Some(s) => Some(s@),
        None => None,
    }
}

pub fn strip_prefix(s: &str, p: &str) -> (r: Option<String>)
    ensures
        opt_view(r) == after_prefix(s@, p@),
{
    if !starts_with(s, p) {
        return None;
    }
    let cs = chars_of(s);
    let ps = chars_of(p);
    let r = string_between(&cs, ps.len(), cs.len());
    assert(r@ =~= s@.skip(p@.len() as int));
    Some(r)
}

pub fn strip_suffix(s: &str, p: &str) -> (r: Option<String>)
    ensures
        opt_view(r) == before_suffix(s@, p@),
{
    if !ends_with(s, p) {
        return None;
    }
    let cs = chars_of(s);
    let ps = chars_of(p);
    let r = string_between(&cs, 0, cs.len() - ps.len());
    assert(r@ =~= s@.take(s@.len() - p@.len()));
    Some(r)
}

/// The parts before and behind the first occurrence of `sep`.
pub open spec fn parted(s: Seq<char>, sep: Seq<char>) -> Option<(Seq<char>, Seq<char>)> {
    match find(s, sep) {
        Some(i) => Some((s.take(i), s.skip(i + sep.len()))),
        None => None,
    }
}

/// The view of an optional pair of strings.
pub open spec fn opt_pair_view(o: Option<(String, String)>) -> Option<(Seq<char>, Seq<char>)> {
    match o {
        Some(p) => Some((p.0@, p.1@)),
        None => None,
    }
}

pub fn split_once(s: &str, sep: &str) -> (r: Option<(String, String)>)
    ensures
        opt_pair_view(r) == parted(s@, sep@),
{
    proof {
        lemma_find(s@, sep@);
    }
    let cs = chars_of(s);
    let ps = chars_of(sep);
    match position(&cs, &ps) {
        Some(i) => {
            assert(i + ps.len() <= cs.len());
            let a = string_between(&cs, 0, i);
            let b = string_between(&cs, i + ps.len(), cs.len());
            assert(a@ =~= s@.take(i as int));
            assert(b@ =~= s@.skip(i + sep@.len()));
            Some((a, b))
        },
        None => None,
    }
}

// ---- splitting and joining ----

/// Where a string is cut into pieces.
pub enum Cut {
    /// At each occurrence of one character.
    At(char),
    /// At each character that is not alphabetic.
    NonAlphabetic,
    /// At each whitespace character.
    Whitespace,
}

impl Cut {
    pub open spec fn cuts(self, c: char) -> bool {
        match self {
            Cut::At(d) => c == d,
            Cut::NonAlphabetic => !alphabetic(c),
            Cut::Whitespace => whitespace(c),
        }
    }

    pub fn is_at(&self, c: char) -> (r: bool)
        ensures
            r == self.cuts(c),
    {
        match self {
            Cut::At(d) => c == *d,
            Cut::NonAlphabetic => !c.is_alphabetic(),
            Cut::Whitespace => c.is_whitespace(),
        }
    }
}

/// The pieces between the characters at which `cut` cuts: one more than there
/// are such characters, empty ones among them.
pub open spec fn pieces(s: Seq<char>, cut: Cut) -> Seq<Seq<char>>
    decreases s.len(),
{
    if s.len() == 0 {
        seq![Seq::empty()]
    } else {
        let before = pieces(s.drop_last(), cut);
        if cut.cuts(s.last()) {
            before.push(Seq::empty())
        } else {
            before.drop_last().push(before.last().push(s.last()))
        }
    }
}

/// There is always at least one piece.
pub proof fn lemma_pieces_nonempty(s: Seq<char>, cut: Cut)
    ensures
        pieces(s, cut).len() > 0,
    decreases s.len(),
{
    if s.len() > 0 {
        lemma_pieces_nonempty(s.drop_last(), cut);
    }
}

/// The character sequences of a sequence of strings.
pub open spec fn views(v: Seq<String>) -> Seq<Seq<char>> {
    v.map_values(|s: String| s@)
}

/// Is the string one of those in the list?
pub fn among(list: &Vec<String>, s: &str) -> (r: bool)
    ensures
        r == views(list@).contains(s@),
{
    for i in 0..list.len()
        invariant
            forall|j: int| 0 <= j < i ==> (#[trigger] list@[j])@ != s@,
    {
        if same(list[i].as_str(), s) {
            assert(views(list@)[i as int] == s@);
            return true;
        }
    }
    assert(forall|j: int| 0 <= j < list@.len() ==> #[trigger] views(list@)[j] == list@[j]@);
    false
}

pub fn split(s: &str, cut: &Cut) -> (r: Vec<String>)
    ensures
        views(r@) == pieces(s@, *cut),
        r@.len() > 0,
{
    let cs = chars_of(s);
    let mut done: Vec<String> = Vec::new();
    let mut last = String::new();
    assert(views(done@).push(last@) =~= pieces(cs@.take(0), *cut));
    for i in 0..cs.len()
        invariant
            views(done@).push(last@) == pieces(cs@.take(i as int), *cut),
    {
        assert(cs@.take(i + 1).drop_last() =~= cs@.take(i as int));
        assert(cs@.take(i + 1).last() == cs@[i as int]);
        let ghost before = views(done@).push(last@);
        assert(before.drop_last() =~= views(done@));
        assert(before.last() == last@);
        if cut.is_at(cs[i]) {
            done.push(last);
            last = String::new();
            assert(views(done@) =~= before);
        } else {
            last.push(cs[i]);
        }
    }
    assert(cs@.take(cs@.len() as int) =~= cs@);
    let ghost before = views(done@).push(last@);
    done.push(last);
    assert(views(done@) =~= before);
    done
}

/// The pieces between whitespace that are not empty.
pub open spec fn words(s: Seq<char>) -> Seq<Seq<char>> {
    pieces(s, Cut::Whitespace).filter(|w: Seq<char>| w.len() > 0)
}

pub fn split_whitespace(s: &str) -> (r: Vec<String>)
    ensures
        views(r@) == words(s@),
{
    let all = split(s, &Cut::Whitespace);
    let ghost keep = |w: Seq<char>| w.len() > 0;
    let mut out: Vec<String> = Vec::new();
    proof {
        reveal(Seq::filter);
        assert(views(all@).take(0).filter(keep) =~= Seq::empty());
        assert(views(out@) =~= Seq::empty());
    }
    for i in 0..all.len()
        invariant
            keep == (|w: Seq<char>| w.len() > 0),
            views(out@) == views(all@).take(i as int).filter(keep),
    {
        proof {
            reveal(Seq::filter);
            assert(views(all@).take(i + 1).drop_last() =~= views(all@).take(i as int));
            assert(views(all@).take(i + 1).last() == all@[i as int]@);
        }
        let ghost before = views(out@);
        if !all[i].as_str().is_empty() {
            out.push(all[i].clone());
            assert(views(out@) =~= before.push(all@[i as int]@));
        }
    }
    assert(views(all@).take(all@.len() as int) =~= views(all@));
    out
}

/// The strings one behind the other, with `sep` between them.
pub open spec fn joined_with(parts: Seq<Seq<char>>, sep: Seq<char>) -> Seq<char>
    decreases parts.len(),
{
    if parts.len() == 0 {
        Seq::empty()
    } else if parts.len() == 1 {
        parts[0]
    } else {
        joined_with(parts.drop_last(), sep) + sep + parts.last()
    }
}

pub fn join(parts: &Vec<String>, sep: &str) -> (r: String)
    ensures
        r@ == joined_with(views(parts@), sep@),
{
    let mut out = String::new();
    assert(views(parts@).take(0) =~= Seq::empty());
    for i in 0..parts.len()
        invariant
            out@ == joined_with(views(parts@).take(i as int), sep@),
    {
        assert(views(parts@).take(i + 1).drop_last() =~= views(parts@).take(i as int));
        assert(views(parts@).take(i + 1).last() == parts@[i as int]@);
        if i > 0 {
            out.append(sep);
        }
        out.append(parts[i].as_str());
        assert(i == 0 ==> out@ =~= parts@[0]@);
    }
    assert(views(parts@).take(parts@.len() as int) =~= views(parts@));
    out
}

// ---- numbers ----

/// The character of a decimal digit.
pub open spec fn digit_char(d: nat) -> char {
    (48 + d) as char
}

/// A number in decimal, without leading zeros.
pub open spec fn decimal(n: nat) -> Seq<char>
    decreases n,
{
    if n < 10 {
        seq![digit_char(n)]
    } else {
        decimal(n / 10).push(digit_char(n % 10))
    }
}

/// A whole number in decimal, with a minus sign in front where it is negative.
pub open spec fn decimal_int(n: int) -> Seq<char> {
    if n < 0 {
        seq!['-'] + decimal((-n) as nat)
    } else {
        decimal(n as nat)
    }
}

/// The number that a run of digits stands for.
pub open spec fn digits_value(s: Seq<char>) -> nat
    decreases s.len(),
{
    if s.len() == 0 {
        0
    } else {
        10 * digits_value(s.drop_last()) + (s.last() as nat - 48) as nat
    }
}

/// Are all the characters decimal digits?
pub open spec fn all_digits(s: Seq<char>) -> bool {
    forall|i: int| 0 <= i < s.len() ==> ascii_digit(#[trigger] s[i])
}

/// Reading a number's decimal form gives the number back.
pub proof fn lemma_decimal_value(n: nat)
    ensures
        decimal(n).len() > 0,
        all_digits(decimal(n)),
        digits_value(decimal(n)) == n,
    decreases n,
{
    if n < 10 {
        assert(decimal(n).drop_last() =~= Seq::empty());
        assert(digits_value(Seq::<char>::empty()) == 0);
    } else {
        lemma_decimal_value(n / 10);
        assert(decimal(n).drop_last() =~= decimal(n / 10));
    }
}

pub fn digit(d: u128) -> (r: char)
    requires
        d < 10,
    ensures
        r == digit_char(d as nat),
{
    (48 + d as u8) as char
}

pub fn u128_text(n: u128) -> (r: String)
    ensures
        r@ == decimal(n as nat),
    decreases n,
{
    if n < 10 {
        let mut out = String::new();
        out.push(digit(n));
        assert(out@ =~= decimal(n as nat));
        out
    } else {
        let mut out = u128_text(n / 10);
        out.push(digit(n % 10));
        out
    }
}

pub fn u64_text(n: u64) -> (r: String)
    ensures
        r@ == decimal(n as nat),
{
    u128_text(n as u128)
}

pub fn usize_text(n: usize) -> (r: String)
    ensures
        r@ == decimal(n as nat),
{
    u128_text(n as u128)
}

pub fn i32_text(n: i32) -> (r: String)
    ensures
        r@ == decimal_int(n as int),
{
    if n < 0 {
        let mut out = String::new();
        out.push('-');
        let m = u128_text((-(n as i64)) as u128);
        out.append(m.as_str());
        assert(out@ =~= seq!['-'] + decimal((-n) as nat));
        out
    } else {
        u128_text(n as u128)
    }
}

// ---- what the functions above are for ----

/// Cutting at a place where `cut` cuts gives the pieces of what stands before it
/// and then those of what stands behind it.
pub proof fn law_cutting(a: Seq<char>, c: char, b: Seq<char>, cut: Cut)
    requires
        cut.cuts(c),
    ensures
        pieces(a.push(c) + b, cut) == pieces(a, cut) + pieces(b, cut),
    decreases b.len(),
{
    let s = a.push(c) + b;
    if b.len() == 0 {
        assert(s.drop_last() =~= a);
        assert(s.last() == c);
        assert(pieces(s, cut) =~= pieces(a, cut) + pieces(b, cut));
    } else {
        law_cutting(a, c, b.drop_last(), cut);
        lemma_pieces_nonempty(b.drop_last(), cut);
        assert(s.drop_last() =~= a.push(c) + b.drop_last());
        assert(s.last() == b.last());
        let x = pieces(a, cut);
        let y = pieces(b.drop_last(), cut);
        assert((x + y).last() == y.last());
        assert((x + y).drop_last() =~= x + y.drop_last());
        assert(pieces(s, cut) =~= x + pieces(b, cut));
    }
}

/// A text in which nothing is cut is one piece.
pub proof fn law_uncut_is_whole(s: Seq<char>, cut: Cut)
    requires
        forall|i: int| 0 <= i < s.len() ==> !cut.cuts(#[trigger] s[i]),
    ensures
        pieces(s, cut) == seq![s],
    decreases s.len(),
{
    if s.len() == 0 {
        assert(s =~= Seq::empty());
    } else {
        assert(forall|i: int| 0 <= i < s.len() - 1 ==> #[trigger] s.drop_last()[i] == s[i]);
        law_uncut_is_whole(s.drop_last(), cut);
        assert(s.last() == s[s.len() - 1]);
        assert(s.drop_last().push(s.last()) =~= s);
        assert(pieces(s, cut) =~= seq![s]);
    }
}

/// The words on both sides of a whitespace character are the words of the two
/// sides, one after the other; a text without whitespace is one word, and nothing
/// is none.
pub proof fn law_words(a: Seq<char>, c: char, b: Seq<char>)
    ensures
        whitespace(c) ==> words(a.push(c) + b) == words(a) + words(b),
        (forall|i: int| 0 <= i < a.len() ==> !whitespace(#[trigger] a[i])) ==> words(a) == (
        if a.len() > 0 {
            seq![a]
        } else {
            Seq::empty()
        }),
{
    let keep = |w: Seq<char>| w.len() > 0;
    reveal(Seq::filter);
    if whitespace(c) {
        law_cutting(a, c, b, Cut::Whitespace);
        let x = pieces(a, Cut::Whitespace);
        let y = pieces(b, Cut::Whitespace);
        Seq::filter_distributes_over_add(x, y, keep);
        assert(words(a.push(c) + b) =~= words(a) + words(b));
    }
    if forall|i: int| 0 <= i < a.len() ==> !whitespace(#[trigger] a[i]) {
        law_uncut_is_whole(a, Cut::Whitespace);
        assert(seq![a].drop_last() =~= Seq::empty());
        assert(Seq::<Seq<char>>::empty().filter(keep) =~= Seq::empty());
        assert(seq![a].last() == a);
        assert(words(a) =~= seq![a].filter(keep));
        if a.len() > 0 {
            assert(seq![a].filter(keep) =~= seq![a]);
        } else {
            assert(seq![a].filter(keep) =~= Seq::empty());
        }
    }
}

/// Cutting at a character and joining with it gives the text back, and no piece
/// holds the character.
pub proof fn law_joining_undoes_cutting(s: Seq<char>, c: char)
    ensures
        joined_with(pieces(s, Cut::At(c)), seq![c]) == s,
        forall|i: int|
            0 <= i < pieces(s, Cut::At(c)).len() ==> !(#[trigger] pieces(s, Cut::At(c))[i]).contains(
                c,
            ),
    decreases s.len(),
{
    let cut = Cut::At(c);
    let sep = seq![c];
    reveal_with_fuel(joined_with, 2);
    if s.len() > 0 {
        let t = s.drop_last();
        let before = pieces(t, cut);
        law_joining_undoes_cutting(t, c);
        lemma_pieces_nonempty(t, cut);
        assert(t.push(s.last()) =~= s);
        let now = pieces(s, cut);
        if s.last() == c {
            assert(now.drop_last() =~= before);
            assert(joined_with(now, sep) =~= s);
        } else {
            let last = before.last();
            assert(before.drop_last().push(last) =~= before);
            assert(now.drop_last() =~= before.drop_last());
            if before.len() > 1 {
                assert(joined_with(now, sep) =~= joined_with(before, sep).push(s.last()));
            } else {
                assert(now[0] == last.push(s.last()));
            }
            assert(joined_with(now, sep) =~= s);
            assert forall|i: int| 0 <= i < now.len() implies !(#[trigger] now[i]).contains(c) by {
                if i < now.len() - 1 {
                    assert(now[i] == before[i]);
                } else {
                    assert(before[i] == last);
                    if now[i].contains(c) {
                        let k = now[i].index_of(c);
                        assert(last[k] == c);
                    }
                }
            }
        }
    } else {
        assert(pieces(s, cut)[0] =~= Seq::empty());
        assert(joined_with(pieces(s, cut), sep) =~= s);
    }
}

/// Joining two lists, neither empty, joins each of them and puts the separator
/// between; one string alone is itself.
pub proof fn law_joining(a: Seq<Seq<char>>, b: Seq<Seq<char>>, sep: Seq<char>)
    requires
        a.len() > 0,
        b.len() > 0,
    ensures
        joined_with(a + b, sep) == joined_with(a, sep) + sep + joined_with(b, sep),
        joined_with(seq![a[0]], sep) == a[0],
    decreases b.len(),
{
    let all = a + b;
    assert(all.last() == b.last());
    if b.len() == 1 {
        assert(all.drop_last() =~= a);
    } else {
        assert(all.drop_last() =~= a + b.drop_last());
        law_joining(a, b.drop_last(), sep);
        assert(joined_with(all, sep) =~= joined_with(a, sep) + sep + joined_with(b, sep));
    }
}

/// Trimming takes whitespace away from both ends and nothing else: what is left
/// stands in the text between two runs of whitespace, and does not itself start or
/// end with any.
pub proof fn law_trimming(s: Seq<char>)
    ensures
        exists|from: int, to: int|
            {
                &&& 0 <= from <= to <= s.len()
                &&& trimmed(s) == #[trigger] s.subrange(from, to)
                &&& forall|i: int| 0 <= i < from || to <= i < s.len() ==> whitespace(#[trigger] s[i])
            },
        trimmed(s).len() > 0 ==> !whitespace(trimmed(s)[0]) && !whitespace(trimmed(s).last()),
{
    lemma_trimmed_ends(s);
    lemma_start_cut(s);
    let t = trim_start(s);
    lemma_end_cut(t);
    let from = s.len() - t.len();
    let to = from + trim_end(t).len();
    assert(forall|i: int| 0 <= i < t.len() ==> #[trigger] t[i] == s[from + i]);
    assert forall|i: int| 0 <= i < from || to <= i < s.len() implies whitespace(
        #[trigger] s[i],
    ) by {
        if to <= i {
            assert(t[i - from] == s[i]);
        }
    }
    assert(trimmed(s) =~= s.subrange(from, to));
}

proof fn lemma_start_cut(s: Seq<char>)
    ensures
        trim_start(s).len() <= s.len(),
        trim_start(s) == s.skip(s.len() - trim_start(s).len()),
        forall|i: int| 0 <= i < s.len() - trim_start(s).len() ==> whitespace(#[trigger] s[i]),
    decreases s.len(),
{
    if s.len() > 0 && whitespace(s[0]) {
        let t = s.drop_first();
        lemma_start_cut(t);
        assert forall|i: int| 0 <= i < s.len() - trim_start(s).len() implies whitespace(
            #[trigger] s[i],
        ) by {
            if i > 0 {
                assert(t[i - 1] == s[i]);
            }
        }
        assert(trim_start(s) =~= s.skip(s.len() - trim_start(s).len()));
    } else {
        assert(s =~= s.skip(0));
    }
}

proof fn lemma_end_cut(s: Seq<char>)
    ensures
        trim_end(s).len() <= s.len(),
        trim_end(s) == s.take(trim_end(s).len() as int),
        forall|i: int| trim_end(s).len() <= i < s.len() ==> whitespace(#[trigger] s[i]),
    decreases s.len(),
{
    if s.len() > 0 && whitespace(s.last()) {
        let t = s.drop_last();
        lemma_end_cut(t);
        assert forall|i: int| trim_end(s).len() <= i < s.len() implies whitespace(
            #[trigger] s[i],
        ) by {
            if i < t.len() {
                assert(t[i] == s[i]);
            }
        }
        assert(trim_end(s) =~= s.take(trim_end(s).len() as int));
    } else {
        assert(s =~= s.take(s.len() as int));
    }
}

/// Whitespace around a text makes no difference to what trimming leaves of it.
pub proof fn law_trimming_ignores_whitespace(a: Seq<char>, s: Seq<char>, b: Seq<char>)
    requires
        forall|i: int| 0 <= i < a.len() ==> whitespace(#[trigger] a[i]),
        forall|i: int| 0 <= i < b.len() ==> whitespace(#[trigger] b[i]),
    ensures
        trimmed(a + s + b) == trimmed(s),
    decreases a.len() + b.len(),
{
    let all = a + s + b;
    if a.len() > 0 {
        assert(all[0] == a[0]);
        assert(all.drop_first() =~= a.drop_first() + s + b);
        law_trimming_ignores_whitespace(a.drop_first(), s, b);
    } else if b.len() > 0 {
        let t = s + b.drop_last();
        assert(b.last() == b[b.len() - 1]);
        assert(all =~= t.push(b.last()));
        assert(a + s + b.drop_last() =~= t);
        lemma_blank_behind(t, b.last());
        law_trimming_ignores_whitespace(a, s, b.drop_last());
    } else {
        assert(all =~= s);
    }
}

proof fn lemma_blank_behind(t: Seq<char>, c: char)
    requires
        whitespace(c),
    ensures
        trimmed(t.push(c)) == trimmed(t),
    decreases t.len(),
{
    let s = t.push(c);
    if t.len() == 0 {
        assert(s.drop_first() =~= Seq::empty());
        assert(trim_start(s) =~= trim_start(s.drop_first()));
        assert(trim_start(t) =~= Seq::empty());
    } else if whitespace(t[0]) {
        assert(s[0] == t[0]);
        assert(s.drop_first() =~= t.drop_first().push(c));
        lemma_blank_behind(t.drop_first(), c);
    } else {
        assert(s[0] == t[0]);
        assert(s.drop_last() =~= t);
        assert(s.last() == c);
    }
}

/// Taking a character off the end takes off the whole run of it and nothing else.
pub proof fn law_trimming_a_character(s: Seq<char>, c: char, n: nat)
    ensures
        trim_end_char(s + Seq::new(n, |i: int| c), c) == trim_end_char(s, c),
        s.len() > 0 && s.last() != c ==> trim_end_char(s, c) == s,
        trim_end_char(s, c).is_prefix_of(s),
    decreases n,
{
    let run = Seq::new(n, |i: int| c);
    lemma_char_cut(s, c);
    if n > 0 {
        let shorter = Seq::new((n - 1) as nat, |i: int| c);
        assert((s + run).drop_last() =~= s + shorter);
        assert((s + run).last() == c);
        law_trimming_a_character(s, c, (n - 1) as nat);
    } else {
        assert(s + run =~= s);
    }
}

proof fn lemma_char_cut(s: Seq<char>, c: char)
    ensures
        trim_end_char(s, c).is_prefix_of(s),
    decreases s.len(),
{
    if s.len() > 0 && s.last() == c {
        lemma_char_cut(s.drop_last(), c);
    }
}

/// A text is parted at the first place where the separator stands: the parts and
/// the separator make up the text, and the first part does not hold it. A text
/// without the separator is not parted.
pub proof fn law_parting(s: Seq<char>, sep: Seq<char>)
    ensures
        match parted(s, sep) {
            Some((a, b)) => s == a + sep + b && (sep.len() > 0 ==> !contained(a, sep)),
            None => !contained(s, sep),
        },
{
    lemma_find(s, sep);
    match find(s, sep) {
        Some(i) => {
            assert(s =~= s.take(i) + s.subrange(i, i + sep.len()) + s.skip(i + sep.len()));
            if sep.len() > 0 && contained(s.take(i), sep) {
                let j = choose|j: int| occurs_at(s.take(i), sep, j);
                assert(s.take(i).subrange(j, j + sep.len()) =~= s.subrange(j, j + sep.len()));
                assert(occurs_at(s, sep, j));
                assert(j < i);
            }
        },
        None => {},
    }
}

/// A text is parted at a character right behind the first part, where that does
/// not hold the character.
pub proof fn law_parted_at(a: Seq<char>, c: char, b: Seq<char>)
    requires
        !a.contains(c),
    ensures
        parted(a + seq![c] + b, seq![c]) == Some((a, b)),
{
    let s = a + seq![c] + b;
    let sep = seq![c];
    assert(s.subrange(a.len() as int, a.len() + 1int) =~= sep);
    assert forall|j: int| 0 <= j < a.len() implies !(#[trigger] occurs_at(s, sep, j)) by {
        if occurs_at(s, sep, j) {
            assert(s.subrange(j, j + 1)[0] == a[j]);
            assert(a.contains(c));
        }
    }
    assert(occurs_at(s, sep, a.len() as int));
    lemma_first_at(s, sep, a.len() as int);
    assert(s.take(a.len() as int) =~= a);
    assert(s.skip(a.len() + 1int) =~= b);
}

/// What stands between two texts is found in them joined, and nothing is found
/// that does not stand there.
pub proof fn law_found_within(a: Seq<char>, p: Seq<char>, b: Seq<char>)
    ensures
        contained(a + p + b, p),
        contained(a, p) ==> exists|x: Seq<char>, y: Seq<char>| a == #[trigger] (x + p + y),
{
    let s = a + p + b;
    assert(s.subrange(a.len() as int, (a.len() + p.len()) as int) =~= p);
    assert(occurs_at(s, p, a.len() as int));
    if contained(a, p) {
        let i = choose|i: int| occurs_at(a, p, i);
        let x = a.take(i);
        let y = a.skip(i + p.len());
        assert(a =~= x + p + y);
    }
}

/// A number is written with digits only, without leading zeros, and stands for
/// itself; so no two numbers are written alike.
pub proof fn law_numbers_are_told_apart(n: nat, m: nat)
    ensures
        digits_value(decimal(n)) == n,
        all_digits(decimal(n)),
        decimal(n).len() > 1 ==> decimal(n)[0] != '0',
        decimal(n) == decimal(m) ==> n == m,
        n < 10 ==> decimal(n).len() == 1 && decimal(n)[0] as nat == '0' as nat + n,
        decimal(10 * n + m % 10).last() as nat == '0' as nat + m % 10,
{
    lemma_decimal_value(n);
    lemma_decimal_value(m);
    lemma_no_leading_zero(n);
}

proof fn lemma_no_leading_zero(n: nat)
    ensures
        decimal(n).len() > 0,
        n > 0 ==> decimal(n)[0] != '0',
        n < 10 ==> decimal(n).len() == 1,
    decreases n,
{
    if n >= 10 {
        lemma_no_leading_zero(n / 10);
    }
}

/// A text with each of its upper-case ASCII letters in lower case.
pub open spec fn lowered(s: Seq<char>) -> Seq<char> {
    Seq::new(s.len(), |i: int| ascii_lower(s[i]))
}

/// Names are compared without regard to the case of ASCII letters: lowering such
/// letters anywhere makes no difference, and any other change does. Where a text holds
/// ASCII characters only, that is all that lower case does to it.
pub proof fn law_case_is_ignored(a: Seq<char>, b: Seq<char>)
    ensures
        eq_ignore_case(a, a),
        eq_ignore_case(a, b) == eq_ignore_case(b, a),
        eq_ignore_case(a, lowered(a)),
        eq_ignore_case(a, b) <==> lowered(a) == lowered(b),
        is_ascii_chars(a) ==> lowercase(a) == lowered(a),
{
    let x = lowered(a);
    let y = lowered(b);
    assert(forall|i: int| 0 <= i < a.len() ==> #[trigger] x[i] == ascii_lower(a[i]));
    assert(forall|i: int| 0 <= i < b.len() ==> #[trigger] y[i] == ascii_lower(b[i]));
    if x == y {
        assert(a.len() == x.len() && b.len() == y.len());
        assert forall|i: int| 0 <= i < a.len() implies ascii_lower(#[trigger] a[i]) == ascii_lower(
            b[i],
        ) by {
            assert(x[i] == ascii_lower(a[i]));
            assert(y[i] == ascii_lower(b[i]));
        }
    }
    if eq_ignore_case(a, b) {
        assert(x =~= y);
    }
    if eq_ignore_case(b, a) {
        assert forall|i: int| 0 <= i < a.len() implies ascii_lower(#[trigger] a[i]) == ascii_lower(
            b[i],
        ) by {
            assert(ascii_lower(b[i]) == ascii_lower(a[i]));
        }
    }
    if is_ascii_chars(a) {
        assert(lowercase(a) =~= lowered(a));
    }
}

/// An upper-case ASCII letter goes to the letter that stands 32 behind it; every
/// other character stays.
pub proof fn law_lower_case(c: char)
    ensures
        'A' <= c <= 'Z' ==> ascii_lower(c) as nat == c as nat + 32,
        c < 'A' || 'Z' < c ==> ascii_lower(c) == c,
{
}

/// Trimming leaves nothing exactly where there is nothing but whitespace.
pub proof fn law_blank(s: Seq<char>)
    ensures
        trimmed(s).len() == 0 <==> forall|i: int| 0 <= i < s.len() ==> whitespace(#[trigger] s[i]),
{
    law_trimming(s);
    let (from, to): (int, int) = choose|from: int, to: int|
        {
            &&& 0 <= from <= to <= s.len()
            &&& trimmed(s) == #[trigger] s.subrange(from, to)
            &&& forall|i: int| 0 <= i < from || to <= i < s.len() ==> whitespace(#[trigger] s[i])
        };
    if trimmed(s).len() > 0 {
        assert(s.subrange(from, to)[0] == s[from]);
    }
}

/// A prefix comes off, and what stood behind it is left; a suffix comes off, and
/// what stood before it is left. What does not start or end that way has neither.
pub proof fn law_prefixes_come_off(p: Seq<char>, s: Seq<char>)
    ensures
        after_prefix(p + s, p) == Some(s),
        before_suffix(s + p, p) == Some(s),
        after_prefix(s, p) matches Some(rest) ==> s == p + rest,
        before_suffix(s, p) matches Some(rest) ==> s == rest + p,
{
    assert((p + s).subrange(0, p.len() as int) =~= p);
    assert((p + s).skip(p.len() as int) =~= s);
    let t = s + p;
    assert(t.subrange(t.len() - p.len(), t.len() as int) =~= p);
    assert(t.take(t.len() - p.len()) =~= s);
    if p.is_prefix_of(s) {
        assert(s =~= s.subrange(0, p.len() as int) + s.skip(p.len() as int));
    }
    if p.is_suffix_of(s) {
        assert(s =~= s.take(s.len() - p.len()) + s.subrange(s.len() - p.len(), s.len() as int));
    }
}

/// Joining with a character that none of the parts holds and cutting at it gives the
/// parts back.
pub proof fn law_cutting_undoes_joining(parts: Seq<Seq<char>>, c: char)
    requires
        parts.len() > 0,
        forall|i: int| 0 <= i < parts.len() ==> !(#[trigger] parts[i]).contains(c),
    ensures
        pieces(joined_with(parts, seq![c]), Cut::At(c)) == parts,
    decreases parts.len(),
{
    let cut = Cut::At(c);
    let last = parts.last();
    assert(last == parts[parts.len() - 1]);
    assert forall|i: int| 0 <= i < last.len() implies !cut.cuts(#[trigger] last[i]) by {
        assert(last.contains(last[i]));
    }
    law_uncut_is_whole(last, cut);
    if parts.len() == 1 {
        assert(parts =~= seq![last]);
    } else {
        let rest = parts.drop_last();
        assert forall|i: int| 0 <= i < rest.len() implies !(#[trigger] rest[i]).contains(c) by {
            assert(rest[i] == parts[i]);
        }
        law_cutting_undoes_joining(rest, c);
        let a = joined_with(rest, seq![c]);
        law_cutting(a, c, last, cut);
        assert(joined_with(parts, seq![c]) =~= a.push(c) + last);
        assert(rest + seq![last] =~= parts);
    }
}

} // verus!
