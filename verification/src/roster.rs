//! Lists whose entries are found by name, whatever the case of its letters.

use crate::text;
use vstd::prelude::*;

verus! {

/// The first place from `from` on at which the list holds the name.
pub open spec fn place_from(names: Seq<Seq<char>>, name: Seq<char>, from: int) -> Option<int>
    decreases names.len() - from,
{
    if from < 0 || from >= names.len() {
        None
    } else if text::eq_ignore_case(names[from], name) {
        Some(from)
    } else {
        place_from(names, name, from + 1)
    }
}

/// The first place at which the list holds the name.
pub open spec fn place(names: Seq<Seq<char>>, name: Seq<char>) -> Option<int> {
    place_from(names, name, 0)
}

/// Does no name occur twice?
pub open spec fn distinct(names: Seq<Seq<char>>) -> bool {
    forall|i: int, j: int|
        0 <= i < j < names.len() ==> !text::eq_ignore_case(#[trigger] names[i], #[trigger] names[j])
}

proof fn lemma_place_from(names: Seq<Seq<char>>, name: Seq<char>, from: int)
    requires
        0 <= from,
    ensures
        match place_from(names, name, from) {
            Some(i) => {
                &&& from <= i < names.len()
                &&& text::eq_ignore_case(names[i], name)
                &&& forall|j: int|
                    from <= j < i ==> !text::eq_ignore_case(#[trigger] names[j], name)
            },
            None => forall|j: int|
                from <= j < names.len() ==> !text::eq_ignore_case(#[trigger] names[j], name),
        },
    decreases names.len() - from,
{
    if from < names.len() && !text::eq_ignore_case(names[from], name) {
        lemma_place_from(names, name, from + 1);
    }
}

/// `place` gives the first place with the name, and gives one whenever there is
/// one.
pub proof fn lemma_place(names: Seq<Seq<char>>, name: Seq<char>)
    ensures
        match place(names, name) {
            Some(i) => {
                &&& 0 <= i < names.len()
                &&& text::eq_ignore_case(names[i], name)
                &&& forall|j: int| 0 <= j < i ==> !text::eq_ignore_case(#[trigger] names[j], name)
            },
            None => forall|j: int|
                0 <= j < names.len() ==> !text::eq_ignore_case(#[trigger] names[j], name),
        },
{
    lemma_place_from(names, name, 0);
}

/// A place with the name before which the name does not occur is the one that
/// `place` gives.
pub proof fn lemma_place_is(names: Seq<Seq<char>>, name: Seq<char>, i: int)
    requires
        0 <= i < names.len(),
        text::eq_ignore_case(names[i], name),
        forall|j: int| 0 <= j < i ==> !text::eq_ignore_case(#[trigger] names[j], name),
    ensures
        place(names, name) == Some(i),
{
    lemma_place(names, name);
    let p = place(names, name);
    if p->0 < i {
        assert(!text::eq_ignore_case(names[p->0], name));
    }
}

/// Names equal to one name up to case are equal up to case.
pub proof fn lemma_same_name(a: Seq<char>, b: Seq<char>, c: Seq<char>)
    requires
        text::eq_ignore_case(a, c),
        text::eq_ignore_case(b, c),
    ensures
        text::eq_ignore_case(a, b),
        text::eq_ignore_case(b, a),
{
}

} // verus!
