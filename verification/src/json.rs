//! JSON values: a plain tree, how to build one, how to look into one, and the
//! text form that `serde_json` reads and writes.

use crate::text;
use serde_json::{Number, Value};
use vstd::prelude::*;

verus! {

/// A JSON value.
#[derive(Debug, PartialEq)]
pub enum Json {
    Null,
    Bool(bool),
    /// A number, in the form in which it is written.
    Number(String),
    Str(String),
    Array(Vec<Json>),
    /// The members, in order.
    Object(Vec<(String, Json)>),
}

/// What a JSON value is.
pub enum JsonView {
    Null,
    Bool(bool),
    Number(Seq<char>),
    Str(Seq<char>),
    Array(Seq<JsonView>),
    Object(Seq<(Seq<char>, JsonView)>),
}

pub open spec fn json_view(j: Json) -> JsonView
    decreases j,
{
    match j {
        Json::Null => JsonView::Null,
        Json::Bool(b) => JsonView::Bool(b),
        Json::Number(n) => JsonView::Number(n@),
        Json::Str(s) => JsonView::Str(s@),
        Json::Array(v) => JsonView::Array(
            Seq::new(
                v@.len(),
                |i: int|
                    if 0 <= i < v@.len() {
                        json_view(v@[i])
                    } else {
                        JsonView::Null
                    },
            ),
        ),
        Json::Object(m) => JsonView::Object(
            Seq::new(
                m@.len(),
                |i: int|
                    if 0 <= i < m@.len() {
                        (m@[i].0@, json_view(m@[i].1))
                    } else {
                        (Seq::empty(), JsonView::Null)
                    },
            ),
        ),
    }
}

impl View for Json {
    type V = JsonView;

    open spec fn view(&self) -> JsonView {
        json_view(*self)
    }
}

/// The values of a sequence of JSON values.
pub open spec fn json_views(s: Seq<Json>) -> Seq<JsonView> {
    s.map_values(|j: Json| j@)
}

/// The members of an object, as values.
pub open spec fn member_views(s: Seq<(String, Json)>) -> Seq<(Seq<char>, JsonView)> {
    s.map_values(|p: (String, Json)| (p.0@, p.1@))
}

/// The value of an optional JSON value.
pub open spec fn opt_json(o: Option<Json>) -> Option<JsonView> {
    match o {
        Some(j) => Some(j@),
        None => None,
    }
}

proof fn lemma_array_view(v: Vec<Json>)
    ensures
        json_view(Json::Array(v)) == JsonView::Array(json_views(v@)),
{
    assert(json_view(Json::Array(v))->Array_0 =~= json_views(v@));
}

proof fn lemma_object_view(m: Vec<(String, Json)>)
    ensures
        json_view(Json::Object(m)) == JsonView::Object(member_views(m@)),
{
    assert(json_view(Json::Object(m))->Object_0 =~= member_views(m@));
}

/// The value of the last member with the given key.
pub open spec fn lookup(m: Seq<(Seq<char>, JsonView)>, key: Seq<char>) -> Option<JsonView>
    decreases m.len(),
{
    if m.len() == 0 {
        None
    } else if m.last().0 == key {
        Some(m.last().1)
    } else {
        lookup(m.drop_last(), key)
    }
}

impl JsonView {
    /// The member of an object with the given key, the last of them should there be
    /// several; anything but an object has none.
    pub open spec fn get(self, key: Seq<char>) -> Option<JsonView> {
        match self {
            JsonView::Object(m) => lookup(m, key),
            _ => None,
        }
    }

    /// The element of an array at the given place; anything but an array has none.
    pub open spec fn at(self, i: int) -> Option<JsonView> {
        match self {
            JsonView::Array(s) => if 0 <= i < s.len() {
                Some(s[i])
            } else {
                None
            },
            _ => None,
        }
    }

    pub open spec fn str(self) -> Option<Seq<char>> {
        match self {
            JsonView::Str(s) => Some(s),
            _ => None,
        }
    }

    pub open spec fn bool(self) -> Option<bool> {
        match self {
            JsonView::Bool(b) => Some(b),
            _ => None,
        }
    }

    pub open spec fn array(self) -> Option<Seq<JsonView>> {
        match self {
            JsonView::Array(s) => Some(s),
            _ => None,
        }
    }

    /// Is this the number `n`?
    pub open spec fn is_number(self, n: nat) -> bool {
        self == JsonView::Number(text::decimal(n))
    }

    /// The string under a key of an object.
    pub open spec fn str_at(self, key: Seq<char>) -> Option<Seq<char>> {
        match self.get(key) {
            Some(v) => v.str(),
            None => None,
        }
    }

    /// The array under a key of an object; the empty one where there is none.
    pub open spec fn array_at(self, key: Seq<char>) -> Seq<JsonView> {
        match self.get(key) {
            Some(JsonView::Array(s)) => s,
            _ => Seq::empty(),
        }
    }
}

/// A key leads to the last member that has it: to that member's value, whatever
/// stands before it.
pub proof fn law_last_member_counts(m: Seq<(Seq<char>, JsonView)>, i: int)
    requires
        0 <= i < m.len(),
        forall|j: int| i < j < m.len() ==> (#[trigger] m[j]).0 != m[i].0,
    ensures
        JsonView::Object(m).get(m[i].0) == Some(m[i].1),
    decreases m.len(),
{
    if m.last().0 != m[i].0 {
        let rest = m.drop_last();
        assert(forall|j: int| 0 <= j < rest.len() ==> rest[j] == m[j]);
        law_last_member_counts(rest, i);
    }
}

/// A key that no member has leads to nothing.
pub proof fn law_absent_members_are_none(m: Seq<(Seq<char>, JsonView)>, key: Seq<char>)
    requires
        forall|j: int| 0 <= j < m.len() ==> (#[trigger] m[j]).0 != key,
    ensures
        JsonView::Object(m).get(key) is None,
    decreases m.len(),
{
    if m.len() > 0 {
        assert(m.last() == m[m.len() - 1]);
        let rest = m.drop_last();
        assert(forall|j: int| 0 <= j < rest.len() ==> rest[j] == m[j]);
        law_absent_members_are_none(rest, key);
    }
}

/// What is written under a key is read back from there, and the other keys lead
/// where they led before.
pub proof fn law_written_members_are_read(
    m: Seq<(Seq<char>, JsonView)>,
    key: Seq<char>,
    value: JsonView,
    other: Seq<char>,
)
    ensures
        JsonView::Object(m.push((key, value))).get(key) == Some(value),
        other != key ==> JsonView::Object(m.push((key, value))).get(other) == JsonView::Object(
            m,
        ).get(other),
{
    let more = m.push((key, value));
    assert(more.last() == (key, value));
    assert(more.drop_last() =~= m);
}

/// Each kind of value is read as what it is, and as nothing else.
pub proof fn law_values_are_read_as_they_are(
    s: Seq<char>,
    b: bool,
    a: Seq<JsonView>,
    n: nat,
    other: nat,
    key: Seq<char>,
)
    ensures
        JsonView::Str(s).str() == Some(s),
        JsonView::Bool(b).str() is None,
        JsonView::Array(a).str() is None,
        JsonView::Bool(b).bool() == Some(b),
        JsonView::Str(s).bool() is None,
        JsonView::Array(a).array() == Some(a),
        JsonView::Str(s).array() is None,
        forall|i: int| 0 <= i < a.len() ==> JsonView::Array(a).at(i) == Some(#[trigger] a[i]),
        JsonView::Array(a).at(a.len() as int) is None,
        JsonView::Number(text::decimal(n)).is_number(n),
        JsonView::Number(text::decimal(n)).is_number(other) ==> n == other,
        JsonView::Str(s).get(key) is None,
        JsonView::Object(seq![(key, JsonView::Str(s))]).str_at(key) == Some(s),
        JsonView::Object(seq![(key, JsonView::Bool(b))]).str_at(key) is None,
        JsonView::Object(seq![(key, JsonView::Array(a))]).array_at(key) == a,
        JsonView::Object(seq![(key, JsonView::Str(s))]).array_at(key).len() == 0,
{
    law_last_member_counts(seq![(key, JsonView::Str(s))], 0);
    law_last_member_counts(seq![(key, JsonView::Bool(b))], 0);
    law_last_member_counts(seq![(key, JsonView::Array(a))], 0);
    text::lemma_decimal_value(n);
    text::lemma_decimal_value(other);
}

/// What stands under a key is read as what it is: a string as that string, an array as
/// that array, and anything else as neither.
pub proof fn law_members_are_read_as_they_are(j: JsonView, key: Seq<char>)
    ensures
        match j.get(key) {
            Some(JsonView::Str(s)) => j.str_at(key) == Some(s) && j.array_at(key).len() == 0,
            Some(JsonView::Array(a)) => j.str_at(key) is None && j.array_at(key) == a,
            _ => j.str_at(key) is None && j.array_at(key).len() == 0,
        },
        j.get(key) is Some ==> j is Object,
{
}

impl Json {
    /// The object without members.
    pub fn object() -> (r: Json)
        ensures
            r@ == JsonView::Object(Seq::empty()),
    {
        let r = Json::Object(Vec::new());
        assert(r@->Object_0 =~= Seq::empty());
        r
    }

    /// The object with one more member, behind the others.
    pub fn with(self, key: &str, value: Json) -> (r: Json)
        requires
            self@ is Object,
        ensures
            r@ == JsonView::Object(self@->Object_0.push((key@, value@))),
    {
        match self {
            Json::Object(m) => {
                let mut m = m;
                let ghost before = m;
                proof {
                    lemma_object_view(before);
                }
                m.push((key.to_owned(), value));
                proof {
                    lemma_object_view(m);
                    assert(member_views(m@) =~= member_views(before@).push((key@, value@)));
                }
                Json::Object(m)
            },
            _ => Json::Null,
        }
    }

    pub fn text(s: &str) -> (r: Json)
        ensures
            r@ == JsonView::Str(s@),
    {
        Json::Str(s.to_owned())
    }

    pub fn number(n: u64) -> (r: Json)
        ensures
            r@ == JsonView::Number(text::decimal(n as nat)),
    {
        Json::Number(text::u64_text(n))
    }

    pub fn array(items: Vec<Json>) -> (r: Json)
        ensures
            r@ == JsonView::Array(json_views(items@)),
    {
        proof {
            lemma_array_view(items);
        }
        Json::Array(items)
    }

    /// The member of an object with the given key; the last, should there be several.
    pub fn get(&self, key: &str) -> (r: Option<&Json>)
        ensures
            match r {
                Some(j) => self@.get(key@) == Some(j@),
                None => self@.get(key@) is None,
            },
    {
        match self {
            Json::Object(m) => {
                proof {
                    lemma_object_view(*m);
                    assert(member_views(m@).take(m@.len() as int) =~= member_views(m@));
                }
                let mut i: usize = m.len();
                while i > 0
                    invariant
                        i <= m@.len(),
                        lookup(member_views(m@), key@) == lookup(
                            member_views(m@).take(i as int),
                            key@,
                        ),
                        self@ == JsonView::Object(member_views(m@)),
                    decreases i,
                {
                    i = i - 1;
                    assert(member_views(m@).take(i + 1).last() == (m@[i as int].0@, m@[i as int].1@));
                    assert(member_views(m@).take(i + 1).drop_last() =~= member_views(m@).take(
                        i as int,
                    ));
                    if text::same(m[i].0.as_str(), key) {
                        return Some(&m[i].1);
                    }
                }
                None
            },
            _ => None,
        }
    }

    pub fn as_str(&self) -> (r: Option<&str>)
        ensures
            match r {
                Some(s) => self@.str() == Some(s@),
                None => self@.str() is None,
            },
    {
        match self {
            Json::Str(s) => Some(s.as_str()),
            _ => None,
        }
    }

    pub fn as_bool(&self) -> (r: Option<bool>)
        ensures
            r == self@.bool(),
    {
        match self {
            Json::Bool(b) => Some(*b),
            _ => None,
        }
    }

    pub fn as_array(&self) -> (r: Option<&Vec<Json>>)
        ensures
            match r {
                Some(v) => self@.array() == Some(json_views(v@)),
                None => self@.array() is None,
            },
    {
        match self {
            Json::Array(v) => {
                proof {
                    lemma_array_view(*v);
                }
                Some(v)
            },
            _ => None,
        }
    }

    /// Is this the number `n`?
    pub fn is_u64(&self, n: u64) -> (r: bool)
        ensures
            r == self@.is_number(n as nat),
    {
        match self {
            Json::Number(t) => text::same(t.as_str(), text::u64_text(n).as_str()),
            _ => false,
        }
    }

    /// The string under a key of an object.
    pub fn str_at(&self, key: &str) -> (r: Option<&str>)
        ensures
            match r {
                Some(s) => self@.str_at(key@) == Some(s@),
                None => self@.str_at(key@) is None,
            },
    {
        match self.get(key) {
            Some(v) => v.as_str(),
            None => None,
        }
    }

    /// The string under a key of an object, or `default` where there is none.
    pub fn str_or<'a>(&'a self, key: &str, default: &'a str) -> (r: &'a str)
        ensures
            r@ == (match self@.str_at(key@) {
                Some(s) => s,
                None => default@,
            }),
    {
        match self.str_at(key) {
            Some(s) => s,
            None => default,
        }
    }

    /// The array under a key of an object; the empty one where there is none.
    pub fn array_at(&self, key: &str) -> (r: Vec<Json>)
        ensures
            json_views(r@) == self@.array_at(key@),
    {
        match self.get(key) {
            Some(v) => match v.as_array() {
                Some(items) => clone_all(items),
                None => {
                    let r: Vec<Json> = Vec::new();
                    assert(json_views(r@) =~= Seq::empty());
                    r
                },
            },
            None => {
                let r: Vec<Json> = Vec::new();
                assert(json_views(r@) =~= Seq::empty());
                r
            },
        }
    }
}

impl Clone for Json {
    fn clone(&self) -> (r: Self)
        ensures
            r@ == self@,
        decreases self,
    {
        match self {
            Json::Null => Json::Null,
            Json::Bool(b) => Json::Bool(*b),
            Json::Number(n) => Json::Number(n.clone()),
            Json::Str(s) => Json::Str(s.clone()),
            Json::Array(v) => {
                let mut out: Vec<Json> = Vec::new();
                for i in 0..v.len()
                    invariant
                        out@.len() == i,
                        *self == Json::Array(*v),
                        forall|k: int| 0 <= k < i ==> (#[trigger] out@[k])@ == v@[k]@,
                {
                    assert(decreases_to!(*self => self->Array_0@[i as int]));
                    out.push(v[i].clone());
                }
                let r = Json::Array(out);
                assert(r@->Array_0 =~= self@->Array_0);
                r
            },
            Json::Object(m) => {
                let mut out: Vec<(String, Json)> = Vec::new();
                for i in 0..m.len()
                    invariant
                        out@.len() == i,
                        *self == Json::Object(*m),
                        forall|k: int|
                            0 <= k < i ==> (#[trigger] out@[k]).0@ == m@[k].0@ && out@[k].1@
                                == m@[k].1@,
                {
                    assert(decreases_to!(*self => self->Object_0@[i as int].1));
                    out.push((m[i].0.clone(), m[i].1.clone()));
                }
                let r = Json::Object(out);
                assert(r@->Object_0 =~= self@->Object_0);
                r
            },
        }
    }
}

/// A copy of each value.
pub fn clone_all(items: &Vec<Json>) -> (r: Vec<Json>)
    ensures
        json_views(r@) == json_views(items@),
{
    let mut out: Vec<Json> = Vec::new();
    for i in 0..items.len()
        invariant
            json_views(out@) == json_views(items@).take(i as int),
    {
        let ghost before = json_views(out@);
        out.push(items[i].clone());
        assert(json_views(out@) =~= before.push(items@[i as int]@));
        assert(json_views(items@).take(i + 1) =~= before.push(items@[i as int]@));
    }
    assert(json_views(items@).take(items@.len() as int) =~= json_views(items@));
    out
}

// ---- the text form ----

/// The value that `serde_json` reads from a text, or the message of the error that
/// it reports.
pub uninterp spec fn json_parse(text: Seq<char>) -> Result<JsonView, Seq<char>>;

/// The text that `serde_json` writes for a value.
pub uninterp spec fn json_text(v: JsonView) -> Seq<char>;

/// The view of what reading a text gives.
pub open spec fn read_view(r: Result<Json, String>) -> Result<JsonView, Seq<char>> {
    match r {
        Ok(j) => Ok(j@),
        Err(e) => Err(e@),
    }
}

#[verifier::external_type_specification]
#[verifier::external_body]
pub struct ExValue(serde_json::Value);

/// A `serde_json::Value` moved into a `Json`, variant by variant; a number is
/// taken by its `Display` form. Nothing is claimed of it here: `parse` speaks of
/// the text that was read.
#[verifier::external_body]
fn json_of_value(v: Value) -> (r: Json) {
    match v {
        Value::Null => Json::Null,
        Value::Bool(b) => Json::Bool(b),
        Value::Number(n) => Json::Number(n.to_string()),
        Value::String(s) => Json::Str(s),
        Value::Array(a) => Json::Array(a.into_iter().map(json_of_value).collect()),
        Value::Object(m) => Json::Object(
            m.into_iter().map(|(k, v)| (k, json_of_value(v))).collect(),
        ),
    }
}

/// A `Json` copied into a `serde_json::Value`, variant by variant; of two members
/// with one key the later stays, and a text that is no number becomes null. A
/// number goes by `str::parse`, whose nearest value is the one that was printed.
/// Nothing is claimed of it here: `render` speaks of the text that is written.
#[verifier::external_body]
fn value_of_json(j: &Json) -> (r: Value) {
    match j {
        Json::Null => Value::Null,
        Json::Bool(b) => Value::Bool(*b),
        Json::Number(n) => n.parse::<u64>().map(Value::from)
            .or_else(|_| n.parse::<i64>().map(Value::from))
            .or_else(|_| n.parse().map(|x| Number::from_f64(x).into()))
            .unwrap_or_default(),
        Json::Str(s) => Value::String(s.clone()),
        Json::Array(a) => Value::Array(a.iter().map(value_of_json).collect()),
        Json::Object(m) => Value::Object(
            m.iter().map(|p| (p.0.clone(), value_of_json(&p.1))).collect(),
        ),
    }
}

/// `serde_json::from_str` into a `serde_json::Value`: what it reads, or the
/// message of the error that it reports, depends on the text alone. Which text
/// stands for which value is not spelled out.
#[verifier::external_body]
pub(crate) fn parse(text: &str) -> (r: Result<Json, String>)
    ensures
        read_view(r) == json_parse(text@),
{
    serde_json::from_str(text).map(json_of_value).map_err(|e| e.to_string())
}

/// `serde_json::Value`'s `Display`, which writes what `serde_json::to_string`
/// does: the text depends on the value alone, and there always is one. It is
/// compact, and a line feed inside a string or a key is escaped, so the text has
/// none. Otherwise, which value gives which text is not spelled out.
#[verifier::external_body]
pub(crate) fn render(j: &Json) -> (r: String)
    ensures
        r@ == json_text(j@),
        !r@.contains('\n'),
{
    value_of_json(j).to_string()
}

/// Read a value from its text.
pub fn from_text(text: &str) -> (r: Result<Json, String>)
    ensures
        read_view(r) == json_parse(text@),
{
    parse(text)
}

/// The text of a value, which is always a single line.
pub fn to_text(j: &Json) -> (r: String)
    ensures
        r@ == json_text(j@),
        !r@.contains('\n'),
{
    render(j)
}

} // verus!
