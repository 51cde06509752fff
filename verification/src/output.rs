//! The bound on what a tool hands back to the model.

use crate::text;
use vstd::prelude::*;
use vstd::string::*;
use vstd::utf8::*;

verus! {

/// The largest output, in bytes, that is handed on whole.
pub const MAX_OUTPUT: usize = 4000;

/// The longest beginning of a text that takes at most so many bytes. It ends between
/// two characters.
pub open spec fn fitting(s: Seq<char>, bytes: int) -> Seq<char>
    decreases s.len(),
{
    if encode_utf8(s).len() <= bytes || s.len() == 0 {
        s
    } else {
        fitting(s.drop_last(), bytes)
    }
}

/// The output; of one that is too large, what fits of it and a note that the rest is
/// gone.
pub open spec fn capped(s: Seq<char>) -> Seq<char> {
    if encode_utf8(s).len() > MAX_OUTPUT {
        fitting(s, MAX_OUTPUT as int) + "\n…[truncated]"@
    } else {
        s
    }
}

proof fn lemma_encode_concat(a: Seq<char>, b: Seq<char>)
    ensures
        encode_utf8(a + b) == encode_utf8(a) + encode_utf8(b),
    decreases a.len(),
{
    if a.len() == 0 {
        assert(a + b =~= b);
        assert(encode_utf8(a) + encode_utf8(b) =~= encode_utf8(b));
    } else {
        lemma_encode_concat(a.drop_first(), b);
        assert((a + b).drop_first() =~= a.drop_first() + b);
        assert(encode_utf8(a + b) =~= encode_utf8(a) + encode_utf8(b));
    }
}

/// A character takes at most four bytes.
proof fn lemma_encode_len(s: Seq<char>)
    ensures
        encode_utf8(s).len() <= 4 * s.len(),
    decreases s.len(),
{
    if s.len() > 0 {
        lemma_encode_len(s.drop_first());
    }
}

/// One more character adds its own bytes.
proof fn lemma_encode_next(s: Seq<char>, i: int)
    requires
        0 <= i < s.len(),
    ensures
        encode_utf8(s.take(i + 1)).len() == encode_utf8(s.take(i)).len() + encode_scalar(
            s[i] as u32,
        ).len(),
{
    let c = seq![s[i]];
    reveal_with_fuel(encode_utf8, 2);
    assert(c.drop_first() =~= Seq::empty());
    assert(encode_utf8(c) =~= encode_scalar(s[i] as u32));
    assert(s.take(i + 1) =~= s.take(i) + c);
    lemma_encode_concat(s.take(i), c);
}

/// Where the first `i` characters fit and one more does not, those are what fits.
proof fn lemma_fitting(s: Seq<char>, i: int, n: int, bytes: int)
    requires
        0 <= i < n <= s.len(),
        encode_utf8(s.take(i)).len() <= bytes,
        encode_utf8(s.take(i + 1)).len() > bytes,
    ensures
        encode_utf8(s.take(n)).len() > bytes,
        fitting(s.take(n), bytes) == s.take(i),
    decreases n,
{
    reveal_with_fuel(fitting, 2);
    assert(s.take(n).drop_last() =~= s.take(n - 1));
    if n > i + 1 {
        lemma_fitting(s, i, n - 1, bytes);
        lemma_encode_next(s, n - 1);
    }
}

/// How many bytes a character takes.
fn width(c: char) -> (r: usize)
    ensures
        r == encode_scalar(c as u32).len(),
        1 <= r <= 4,
{
    let v = c as u32;
    if v < 0x80 {
        1
    } else if v < 0x800 {
        2
    } else if v < 0x10000 {
        3
    } else {
        4
    }
}

/// What fits of an output that is too large.
fn cut(s: &str) -> (r: String)
    requires
        encode_utf8(s@).len() > MAX_OUTPUT,
    ensures
        r@ == fitting(s@, MAX_OUTPUT as int),
{
    let cs = text::chars_of(s);
    let mut size: usize = 0;
    let mut i: usize = 0;
    while i < cs.len()
        invariant
            cs@ == s@,
            i <= cs@.len(),
            size <= MAX_OUTPUT,
            size == encode_utf8(cs@.take(i as int)).len(),
        decreases cs@.len() - i,
    {
        let w = width(cs[i]);
        proof {
            lemma_encode_next(cs@, i as int);
        }
        if size + w > MAX_OUTPUT {
            proof {
                lemma_fitting(cs@, i as int, cs@.len() as int, MAX_OUTPUT as int);
                assert(cs@.take(cs@.len() as int) =~= cs@);
                assert(cs@.take(i as int) =~= cs@.subrange(0, i as int));
            }
            return text::string_between(&cs, 0, i);
        }
        size = size + w;
        i = i + 1;
    }
    assert(cs@.take(i as int) =~= s@);
    s.to_owned()
}

/// Cut an output to size, between two characters.
pub fn cap(s: String) -> (r: String)
    ensures
        r@ == capped(s@),
{
    let n = s.as_str().as_bytes().len();
    if n > MAX_OUTPUT {
        let mut out = cut(s.as_str());
        out.append("\n…[truncated]");
        out
    } else {
        s
    }
}

proof fn lemma_longest(s: Seq<char>, bytes: int)
    requires
        bytes >= 0,
    ensures
        fitting(s, bytes).is_prefix_of(s),
        encode_utf8(fitting(s, bytes)).len() <= bytes,
        encode_utf8(s).len() > bytes ==> {
            &&& encode_utf8(fitting(s, bytes)).len() > bytes - 4
            &&& fitting(s, bytes).len() < s.len()
            &&& encode_utf8(s.take(fitting(s, bytes).len() + 1int)).len() > bytes
        },
    decreases s.len(),
{
    assert(s.is_prefix_of(s)) by {
        assert(s.subrange(0, s.len() as int) =~= s);
    }
    if encode_utf8(s).len() > bytes && s.len() > 0 {
        let rest = s.drop_last();
        lemma_longest(rest, bytes);
        let kept = fitting(s, bytes);
        assert(kept =~= s.subrange(0, kept.len() as int));
        assert(s.take(s.len() - 1) =~= rest);
        assert(s.take(s.len() as int) =~= s);
        lemma_encode_next(s, s.len() - 1);
        if encode_utf8(rest).len() > bytes {
            assert(rest.take(kept.len() + 1int) =~= s.take(kept.len() + 1int));
        } else {
            assert(s.take(kept.len() + 1int) =~= s);
        }
    }
}

/// Whatever the output, it never grows past the bound by more than the note. Output
/// within the bound is handed on whole; of any other a beginning stays, as much of it as
/// the bound allows, so that less than one more character would fit.
pub proof fn law_output_is_bounded(s: Seq<char>)
    ensures
        encode_utf8(capped(s)).len() < MAX_OUTPUT + 64,
        encode_utf8(s).len() <= MAX_OUTPUT ==> capped(s) == s,
        encode_utf8(s).len() > MAX_OUTPUT ==> exists|kept: Seq<char>|
            #![trigger kept.is_prefix_of(s)]
            {
                &&& kept.is_prefix_of(s)
                &&& capped(s) == kept + "\n…[truncated]"@
                &&& MAX_OUTPUT - 4 < encode_utf8(kept).len() <= MAX_OUTPUT
                &&& kept.len() < s.len()
                &&& encode_utf8(s.take(kept.len() + 1int)).len() > MAX_OUTPUT
            },
        MAX_OUTPUT == 4000,
{
    if encode_utf8(s).len() > MAX_OUTPUT {
        let kept = fitting(s, MAX_OUTPUT as int);
        lemma_longest(s, MAX_OUTPUT as int);
        reveal_strlit("\n…[truncated]");
        lemma_encode_concat(kept, "\n…[truncated]"@);
        lemma_encode_len("\n…[truncated]"@);
        assert(kept.is_prefix_of(s));
    }
}

} // verus!
