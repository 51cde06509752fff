//! File paths as text, with `/` between the components.

use crate::text;
use vstd::prelude::*;
use vstd::string::*;

verus! {

/// `part` below `base`: an absolute part stands for itself, and one `/` stands
/// between the two where there is none yet.
pub open spec fn below(base: Seq<char>, part: Seq<char>) -> Seq<char> {
    if part.len() > 0 && part[0] == '/' {
        part
    } else if base.len() == 0 || base.last() == '/' {
        base + part
    } else {
        base.push('/') + part
    }
}

pub fn join(base: &str, part: &str) -> (r: String)
    ensures
        r@ == below(base@, part@),
{
    let b = text::chars_of(base);
    let p = text::chars_of(part);
    if p.len() > 0 && p[0] == '/' {
        return part.to_owned();
    }
    let mut out = base.to_owned();
    if b.len() > 0 && b[b.len() - 1] != '/' {
        out.push('/');
    }
    out.append(part);
    out
}

/// A relative part comes last in the path and the base first, with one `/` between them
/// and nothing else; an absolute part stands for itself.
pub proof fn law_below(base: Seq<char>, part: Seq<char>)
    ensures
        part.is_suffix_of(below(base, part)),
        part.len() > 0 && part[0] == '/' ==> below(base, part) == part,
        part.len() == 0 || part[0] != '/' ==> {
            &&& base.is_prefix_of(below(base, part))
            &&& base.len() > 0 && base.last() != '/' ==> below(base, part) == base + seq!['/']
                + part
            &&& base.len() == 0 || base.last() == '/' ==> below(base, part) == base + part
        },
{
    assert(base.push('/') + part =~= base + seq!['/'] + part);
    assert(part.subrange(0, part.len() as int) =~= part);
}

/// Different relative parts are found at different places below one base.
pub proof fn law_parts_differ(base: Seq<char>, a: Seq<char>, b: Seq<char>)
    requires
        a.len() == 0 || a[0] != '/',
        b.len() == 0 || b[0] != '/',
        below(base, a) == below(base, b),
    ensures
        a == b,
{
    let n = below(base, a).len() - a.len();
    assert(below(base, a).skip(n) =~= a);
    assert(below(base, b).skip(n) =~= b);
}

} // verus!
