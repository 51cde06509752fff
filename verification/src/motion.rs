//! Where the Bit goes on the desktop: the corner it hops to when it is shooed away,
//! and the edges that it bounces off.
//!
//! Positions are in pixels, and every position is that of a top left corner.

use vstd::prelude::*;
use vstd::string::*;

verus! {

/// How far from a screen's edges the Bit comes to rest.
pub const MARGIN: i32 = 16;

/// How many milliseconds one step of a movement takes.
pub const TICK_MS: u64 = 8;

/// A screen.
#[derive(Debug, Clone, Copy)]
pub struct Monitor {
    pub x: i32,
    pub y: i32,
    pub width: u32,
    pub height: u32,
}

/// A length as a signed number of 32 bits, which a length from 2^31 on wraps round
/// to.
pub open spec fn signed(n: u32) -> int {
    if n <= i32::MAX {
        n as int
    } else {
        n - 0x1_0000_0000
    }
}

fn to_signed(n: u32) -> (r: i32)
    ensures
        r == signed(n),
{
    if n <= 0x7fff_ffff {
        n as i32
    } else {
        (n as i64 - 0x1_0000_0000) as i32
    }
}

/// The size of the Bit's window; what it usually is, where it cannot be had.
pub fn win_size(size: Option<(u32, u32)>) -> (r: (i32, i32))
    ensures
        match size {
            Some((w, h)) => r.0 == signed(w) && r.1 == signed(h),
            None => r == (240i32, 240i32),
        },
{
    match size {
        Some((w, h)) => (to_signed(w), to_signed(h)),
        None => (240, 240),
    }
}

pub open spec fn fits(n: int) -> bool {
    i32::MIN <= n <= i32::MAX
}

/// Half of a number, towards zero.
pub open spec fn half(n: int) -> int {
    if n >= 0 {
        n / 2
    } else {
        -((-n) / 2)
    }
}

fn halved(n: i64) -> (r: i64)
    requires
        i32::MIN <= n <= i32::MAX,
    ensures
        r == half(n as int),
{
    if n >= 0 {
        n / 2
    } else {
        -((-n) / 2)
    }
}

// ============================ shooing ============================

/// Is this the leftmost screen, the first of those that are as far left?
pub open spec fn is_leftmost(ms: Seq<Monitor>, i: int) -> bool {
    &&& 0 <= i < ms.len()
    &&& forall|j: int| 0 <= j < ms.len() ==> ms[i].x <= (#[trigger] ms[j]).x
    &&& forall|j: int| 0 <= j < i ==> ms[i].x < (#[trigger] ms[j]).x
}

/// Is this the rightmost screen, the last of those that are as far right?
pub open spec fn is_rightmost(ms: Seq<Monitor>, i: int) -> bool {
    &&& 0 <= i < ms.len()
    &&& forall|j: int| 0 <= j < ms.len() ==> (#[trigger] ms[j]).x <= ms[i].x
    &&& forall|j: int| i < j < ms.len() ==> (#[trigger] ms[j]).x < ms[i].x
}

pub open spec fn leftmost(ms: Seq<Monitor>) -> Monitor {
    ms[choose|i: int| is_leftmost(ms, i)]
}

pub open spec fn rightmost(ms: Seq<Monitor>) -> Monitor {
    ms[choose|i: int| is_rightmost(ms, i)]
}

fn left_screen(ms: &Vec<Monitor>) -> (r: Monitor)
    requires
        ms@.len() > 0,
    ensures
        r == leftmost(ms@),
{
    let mut best: usize = 0;
    for i in 0..ms.len()
        invariant
            best < ms@.len(),
            best <= i,
            forall|j: int| 0 <= j < i ==> ms@[best as int].x <= (#[trigger] ms@[j]).x,
            forall|j: int| 0 <= j < best ==> ms@[best as int].x < (#[trigger] ms@[j]).x,
    {
        if ms[i].x < ms[best].x {
            best = i;
        }
    }
    assert(is_leftmost(ms@, best as int));
    let ghost k = choose|i: int| is_leftmost(ms@, i);
    assert(k == best) by {
        if k < best {
            assert(ms@[best as int].x < ms@[k].x);
        } else if k > best {
            assert(ms@[k].x < ms@[best as int].x);
        }
    }
    ms[best]
}

fn right_screen(ms: &Vec<Monitor>) -> (r: Monitor)
    requires
        ms@.len() > 0,
    ensures
        r == rightmost(ms@),
{
    let mut best: usize = 0;
    for i in 0..ms.len()
        invariant
            best < ms@.len(),
            best <= i,
            forall|j: int| 0 <= j < i ==> (#[trigger] ms@[j]).x <= ms@[best as int].x,
            forall|j: int| best < j < i ==> (#[trigger] ms@[j]).x < ms@[best as int].x,
    {
        if ms[best].x <= ms[i].x {
            best = i;
        }
    }
    assert(is_rightmost(ms@, best as int));
    let ghost k = choose|i: int| is_rightmost(ms@, i);
    assert(k == best) by {
        if k < best {
            assert(ms@[best as int].x < ms@[k].x);
        } else if k > best {
            assert(ms@[k].x < ms@[best as int].x);
        }
    }
    ms[best]
}

proof fn lemma_only_screen(ms: Seq<Monitor>)
    requires
        ms.len() == 1,
    ensures
        leftmost(ms) == ms[0],
        rightmost(ms) == ms[0],
{
    assert(is_leftmost(ms, 0));
    assert(is_rightmost(ms, 0));
}

/// The middle of the Bit, across.
pub open spec fn center(cur_x: int, ww: int) -> int {
    cur_x + half(ww)
}

/// The corner at the top left of a screen.
pub open spec fn top_left(m: Monitor) -> (int, int) {
    (m.x + MARGIN, m.y + MARGIN)
}

/// The corner at the top right of a screen, for a Bit of that width.
pub open spec fn top_right(m: Monitor, ww: int) -> (int, int) {
    (m.x + signed(m.width) - ww - MARGIN, m.y + MARGIN)
}

/// Where the Bit hops to. With two screens or more: from the rightmost one to the top
/// left of the leftmost one, and from anywhere else to the top right of the rightmost
/// one. With one screen: to the other one of its top corners.
pub open spec fn hop(ms: Seq<Monitor>, ww: int, cur_x: int) -> (int, int) {
    let left = leftmost(ms);
    let right = rightmost(ms);
    if ms.len() >= 2 {
        if center(cur_x, ww) >= right.x {
            top_left(left)
        } else {
            top_right(right, ww)
        }
    } else if center(cur_x, ww) < left.x + half(signed(left.width)) {
        top_right(left, ww)
    } else {
        top_left(left)
    }
}

/// Does everything that has to be computed for the hop fit in 32 bits?
pub open spec fn hop_fits(ms: Seq<Monitor>, ww: int, cur_x: int) -> bool {
    let left = leftmost(ms);
    let right = rightmost(ms);
    let to = if ms.len() >= 2 && center(cur_x, ww) >= right.x {
        left
    } else {
        right
    };
    let goes_left = if ms.len() >= 2 {
        center(cur_x, ww) >= right.x
    } else {
        center(cur_x, ww) >= left.x + half(signed(left.width))
    };
    &&& fits(center(cur_x, ww))
    &&& ms.len() < 2 ==> fits(left.x + half(signed(left.width)))
    &&& fits(to.y + MARGIN)
    &&& goes_left ==> fits(to.x + MARGIN)
    &&& !goes_left ==> fits(to.x + signed(to.width)) && fits(to.x + signed(to.width) - ww) && fits(
        to.x + signed(to.width) - ww - MARGIN,
    )
}

/// "Get out of here!": where the Bit hops to, unless there is no screen. Nothing where
/// what has to be computed for it does not fit in 32 bits.
pub fn shoo(monitors: &Vec<Monitor>, win: (i32, i32), cur: (i32, i32)) -> (r: Option<
    Result<(i32, i32), String>,
>)
    ensures
        match r {
            Some(Ok(to)) => {
                &&& monitors@.len() > 0
                &&& hop_fits(monitors@, win.0 as int, cur.0 as int)
                &&& (to.0 as int, to.1 as int) == hop(monitors@, win.0 as int, cur.0 as int)
            },
            Some(Err(e)) => monitors@.len() == 0 && e@ == "no monitors"@,
            None => monitors@.len() > 0 && !hop_fits(monitors@, win.0 as int, cur.0 as int),
        },
{
    if monitors.len() == 0 {
        return Some(Err("no monitors".to_owned()));
    }
    match target(monitors, win, cur) {
        Some(to) => Some(Ok(to)),
        None => None,
    }
}

fn target(monitors: &Vec<Monitor>, win: (i32, i32), cur: (i32, i32)) -> (r: Option<(i32, i32)>)
    requires
        monitors@.len() > 0,
    ensures
        match r {
            Some(to) => hop_fits(monitors@, win.0 as int, cur.0 as int) && (
            to.0 as int, to.1 as int) == hop(monitors@, win.0 as int, cur.0 as int),
            None => !hop_fits(monitors@, win.0 as int, cur.0 as int),
        },
{
    let left = left_screen(monitors);
    let right = right_screen(monitors);
    proof {
        if monitors@.len() == 1 {
            lemma_only_screen(monitors@);
        }
    }
    let ww = win.0 as i64;
    let center_x = cur.0 as i64 + halved(ww);
    if !is_32_bit(center_x) {
        return None;
    }
    let goes_left = if monitors.len() >= 2 {
        center_x >= right.x as i64
    } else {
        let middle = left.x as i64 + halved(to_signed(left.width) as i64);
        if !is_32_bit(middle) {
            return None;
        }
        center_x >= middle
    };
    if goes_left {
        let x = left.x as i64 + MARGIN as i64;
        let y = left.y as i64 + MARGIN as i64;
        if is_32_bit(x) && is_32_bit(y) {
            Some((x as i32, y as i32))
        } else {
            None
        }
    } else {
        let edge = right.x as i64 + to_signed(right.width) as i64;
        let x = edge - ww - MARGIN as i64;
        let y = right.y as i64 + MARGIN as i64;
        if is_32_bit(edge) && is_32_bit(edge - ww) && is_32_bit(x) && is_32_bit(y) {
            Some((x as i32, y as i32))
        } else {
            None
        }
    }
}

fn is_32_bit(n: i64) -> (r: bool)
    ensures
        r == fits(n as int),
{
    -0x8000_0000 <= n && n <= 0x7fff_ffff
}

/// Is a window of that width at that place within the screen, across?
pub open spec fn within(m: Monitor, x: int, ww: int) -> bool {
    m.x <= x && x + ww <= m.x + m.width
}

/// The Bit comes to rest within a screen, at the margin from its top, wherever it
/// was, as long as the leftmost and the rightmost screen are wide enough for it.
pub proof fn law_hop_lands_on_a_screen(ms: Seq<Monitor>, ww: int, cur_x: int)
    requires
        ms.len() > 0,
        0 <= ww,
        leftmost(ms).width <= i32::MAX,
        rightmost(ms).width <= i32::MAX,
        ww + 2 * MARGIN <= leftmost(ms).width,
        ww + 2 * MARGIN <= rightmost(ms).width,
    ensures
        exists|m: Monitor|
            {
                &&& m == leftmost(ms) || m == rightmost(ms)
                &&& #[trigger] within(m, hop(ms, ww, cur_x).0, ww)
                &&& hop(ms, ww, cur_x).1 == m.y + MARGIN
            },
{
    let left = leftmost(ms);
    let right = rightmost(ms);
    let to = hop(ms, ww, cur_x);
    assert(within(left, to.0, ww) && to.1 == left.y + MARGIN || within(right, to.0, ww) && to.1
        == right.y + MARGIN);
}

/// Shooing the Bit takes it to one of two corners, and shooing it again to the other:
/// with two screens side by side that it fits on, and with one that is wide enough for
/// it to be on its left half and on its right half.
pub proof fn law_hops_alternate(ms: Seq<Monitor>, ww: int, cur_x: int)
    requires
        ms.len() > 0,
        0 <= ww,
        leftmost(ms).width <= i32::MAX,
        rightmost(ms).width <= i32::MAX,
        ww + 2 * MARGIN <= leftmost(ms).width,
        ww + 2 * MARGIN <= rightmost(ms).width,
        ms.len() >= 2 ==> leftmost(ms).x + leftmost(ms).width <= rightmost(ms).x,
        ms.len() == 1 ==> half(ww) + MARGIN < half(leftmost(ms).width as int),
    ensures
        hop(ms, ww, top_left(leftmost(ms)).0) == top_right(rightmost(ms), ww),
        hop(ms, ww, top_right(rightmost(ms), ww).0) == top_left(leftmost(ms)),
        hop(ms, ww, cur_x) == top_left(leftmost(ms)) || hop(ms, ww, cur_x) == top_right(
            rightmost(ms),
            ww,
        ),
{
    if ms.len() == 1 {
        lemma_only_screen(ms);
    }
}

// ============================ flinging ============================

/// How far the Bit's corner can go on the desktop.
#[derive(Debug, Clone, Copy)]
pub struct Bounds {
    pub min_x: i32,
    pub min_y: i32,
    pub max_x: i32,
    pub max_y: i32,
}

pub open spec fn least(a: int, b: int) -> int {
    if a <= b {
        a
    } else {
        b
    }
}

pub open spec fn most(a: int, b: int) -> int {
    if a >= b {
        a
    } else {
        b
    }
}

/// The outer edges of the desktop that the screens make up together.
pub struct Edges {
    pub left: int,
    pub top: int,
    pub right: int,
    pub bottom: int,
}

pub open spec fn edges(ms: Seq<Monitor>) -> Edges
    decreases ms.len(),
{
    if ms.len() == 0 {
        Edges {
            left: i32::MAX as int,
            top: i32::MAX as int,
            right: i32::MIN as int,
            bottom: i32::MIN as int,
        }
    } else {
        let before = edges(ms.drop_last());
        let m = ms.last();
        Edges {
            left: least(before.left, m.x as int),
            top: least(before.top, m.y as int),
            right: most(before.right, m.x + signed(m.width)),
            bottom: most(before.bottom, m.y + signed(m.height)),
        }
    }
}

/// Does everything that has to be computed for the bounds fit in 32 bits?
pub open spec fn bounds_fit(ms: Seq<Monitor>, ww: int, wh: int) -> bool {
    &&& forall|i: int|
        0 <= i < ms.len() ==> fits((#[trigger] ms[i]).x + signed(ms[i].width)) && fits(
            ms[i].y + signed(ms[i].height),
        )
    &&& fits(edges(ms).right - ww)
    &&& fits(edges(ms).bottom - wh)
}

/// Are these the bounds of a window of that size?
pub open spec fn is_bounds(b: Bounds, ms: Seq<Monitor>, ww: int, wh: int) -> bool {
    &&& b.min_x == edges(ms).left
    &&& b.min_y == edges(ms).top
    &&& b.max_x == most(edges(ms).right - ww, edges(ms).left)
    &&& b.max_y == most(edges(ms).bottom - wh, edges(ms).top)
}

/// How far a Bit of that size can be flung: over the whole desktop, and over at least a
/// point of it. Nowhere, without a screen. Nothing where what has to be computed for it
/// does not fit in 32 bits.
pub fn fling(monitors: &Vec<Monitor>, win: (i32, i32)) -> (r: Option<Option<Bounds>>)
    ensures
        match r {
            Some(Some(b)) => {
                &&& monitors@.len() > 0
                &&& bounds_fit(monitors@, win.0 as int, win.1 as int)
                &&& is_bounds(b, monitors@, win.0 as int, win.1 as int)
            },
            Some(None) => monitors@.len() == 0,
            None => monitors@.len() > 0 && !bounds_fit(
                monitors@,
                win.0 as int,
                win.1 as int,
            ),
        },
{
    if monitors.len() == 0 {
        return Some(None);
    }
    match bounds(monitors, win) {
        Some(b) => Some(Some(b)),
        None => None,
    }
}

fn bounds(monitors: &Vec<Monitor>, win: (i32, i32)) -> (r: Option<Bounds>)
    ensures
        match r {
            Some(b) => {
                &&& bounds_fit(monitors@, win.0 as int, win.1 as int)
                &&& is_bounds(b, monitors@, win.0 as int, win.1 as int)
            },
            None => !bounds_fit(monitors@, win.0 as int, win.1 as int),
        },
{
    let mut min_x: i32 = i32::MAX;
    let mut min_y: i32 = i32::MAX;
    let mut right: i32 = i32::MIN;
    let mut bottom: i32 = i32::MIN;
    for i in 0..monitors.len()
        invariant
            forall|j: int|
                0 <= j < i ==> fits((#[trigger] monitors@[j]).x + signed(monitors@[j].width))
                    && fits(monitors@[j].y + signed(monitors@[j].height)),
            (Edges {
                left: min_x as int,
                top: min_y as int,
                right: right as int,
                bottom: bottom as int,
            }) == edges(monitors@.take(i as int)),
    {
        assert(monitors@.take(i + 1).drop_last() =~= monitors@.take(i as int));
        let m = monitors[i];
        let r = m.x as i64 + to_signed(m.width) as i64;
        let b = m.y as i64 + to_signed(m.height) as i64;
        if !is_32_bit(r) || !is_32_bit(b) {
            assert(!fits(monitors@[i as int].x + signed(monitors@[i as int].width)) || !fits(
                monitors@[i as int].y + signed(monitors@[i as int].height),
            ));
            return None;
        }
        if m.x < min_x {
            min_x = m.x;
        }
        if m.y < min_y {
            min_y = m.y;
        }
        if r > right as i64 {
            right = r as i32;
        }
        if b > bottom as i64 {
            bottom = b as i32;
        }
    }
    assert(monitors@.take(monitors@.len() as int) =~= monitors@);
    let x = right as i64 - win.0 as i64;
    let y = bottom as i64 - win.1 as i64;
    if !is_32_bit(x) || !is_32_bit(y) {
        return None;
    }
    Some(
        Bounds {
            min_x,
            min_y,
            max_x: if x < min_x as i64 {
                min_x
            } else {
                x as i32
            },
            max_y: if y < min_y as i64 {
                min_y
            } else {
                y as i32
            },
        },
    )
}

proof fn lemma_edges(ms: Seq<Monitor>, i: int)
    requires
        0 <= i < ms.len(),
    ensures
        edges(ms).left <= ms[i].x,
        edges(ms).top <= ms[i].y,
        ms[i].x + signed(ms[i].width) <= edges(ms).right,
        ms[i].y + signed(ms[i].height) <= edges(ms).bottom,
    decreases ms.len(),
{
    if i < ms.len() - 1 {
        lemma_edges(ms.drop_last(), i);
        assert(ms.drop_last()[i] == ms[i]);
    }
}

/// The bounds are never empty, and they reach over every screen: a window that fits
/// on a screen stays within the bounds wherever on that screen it is.
pub proof fn law_bounds_cover_every_screen(
    b: Bounds,
    ms: Seq<Monitor>,
    ww: int,
    wh: int,
    i: int,
    x: int,
    y: int,
)
    requires
        is_bounds(b, ms, ww, wh),
        0 <= i < ms.len(),
        ms[i].x <= x <= ms[i].x + signed(ms[i].width) - ww,
        ms[i].y <= y <= ms[i].y + signed(ms[i].height) - wh,
    ensures
        b.min_x <= x <= b.max_x,
        b.min_y <= y <= b.max_y,
{
    lemma_edges(ms, i);
}

// ============================ what is kept to ============================

/// The leftmost screen is one of the screens, and none is further left; the rightmost is
/// one of them, and none is further right. Of several that are as far left the first
/// counts, and of several that are as far right the last.
pub proof fn law_outer_screens(ms: Seq<Monitor>, j: int)
    requires
        0 <= j < ms.len(),
    ensures
        ms.contains(leftmost(ms)),
        ms.contains(rightmost(ms)),
        leftmost(ms).x <= ms[j].x <= rightmost(ms).x,
        exists|i: int|
            {
                &&& 0 <= i < ms.len()
                &&& #[trigger] ms[i] == leftmost(ms)
                &&& forall|k: int| 0 <= k < i ==> (#[trigger] ms[k]).x > ms[i].x
            },
        exists|i: int|
            {
                &&& 0 <= i < ms.len()
                &&& #[trigger] ms[i] == rightmost(ms)
                &&& forall|k: int| i < k < ms.len() ==> (#[trigger] ms[k]).x < ms[i].x
            },
{
    lemma_some_leftmost(ms, ms.len() as int);
    lemma_some_rightmost(ms, ms.len() as int);
    let l = choose|i: int| is_leftmost(ms, i);
    let r = choose|i: int| is_rightmost(ms, i);
    assert(is_leftmost(ms, l) && is_rightmost(ms, r));
}

proof fn lemma_some_leftmost(ms: Seq<Monitor>, n: int)
    requires
        0 < n <= ms.len(),
    ensures
        exists|i: int| is_leftmost(ms.take(n), i),
        n == ms.len() ==> exists|i: int| is_leftmost(ms, i),
    decreases n,
{
    let part = ms.take(n);
    if n == 1 {
        assert(is_leftmost(part, 0));
    } else {
        lemma_some_leftmost(ms, n - 1);
        let before = ms.take(n - 1);
        let i = choose|i: int| is_leftmost(before, i);
        assert(forall|j: int| 0 <= j < n - 1 ==> before[j] == part[j]);
        assert(before[i] == part[i]);
        if part[n - 1].x < part[i].x {
            assert forall|j: int| 0 <= j < part.len() implies part[n - 1].x <= (
            #[trigger] part[j]).x by {
                if j < n - 1 {
                    assert(before[i].x <= before[j].x);
                }
            }
            assert forall|j: int| 0 <= j < n - 1 implies part[n - 1].x < (#[trigger] part[j]).x by {
                assert(before[i].x <= before[j].x);
            }
            assert(is_leftmost(part, n - 1));
        } else {
            assert forall|j: int| 0 <= j < part.len() implies part[i].x <= (
            #[trigger] part[j]).x by {
                if j < n - 1 {
                    assert(before[i].x <= before[j].x);
                }
            }
            assert forall|j: int| 0 <= j < i implies part[i].x < (#[trigger] part[j]).x by {
                assert(before[i].x < before[j].x);
            }
            assert(is_leftmost(part, i));
        }
    }
    if n == ms.len() {
        assert(part =~= ms);
    }
}

proof fn lemma_some_rightmost(ms: Seq<Monitor>, n: int)
    requires
        0 < n <= ms.len(),
    ensures
        exists|i: int| is_rightmost(ms.take(n), i),
        n == ms.len() ==> exists|i: int| is_rightmost(ms, i),
    decreases n,
{
    let part = ms.take(n);
    if n == 1 {
        assert(is_rightmost(part, 0));
    } else {
        lemma_some_rightmost(ms, n - 1);
        let before = ms.take(n - 1);
        let i = choose|i: int| is_rightmost(before, i);
        assert(forall|j: int| 0 <= j < n - 1 ==> before[j] == part[j]);
        assert(before[i] == part[i]);
        if part[i].x <= part[n - 1].x {
            assert forall|j: int| 0 <= j < part.len() implies (#[trigger] part[j]).x <= part[n
                - 1].x by {
                if j < n - 1 {
                    assert(before[j].x <= before[i].x);
                }
            }
            assert(is_rightmost(part, n - 1));
        } else {
            assert forall|j: int| 0 <= j < part.len() implies (#[trigger] part[j]).x
                <= part[i].x by {
                if j < n - 1 {
                    assert(before[j].x <= before[i].x);
                }
            }
            assert forall|j: int| i < j < part.len() implies (#[trigger] part[j]).x < part[i].x by {
                if j < n - 1 {
                    assert(before[j].x < before[i].x);
                }
            }
            assert(is_rightmost(part, i));
        }
    }
    if n == ms.len() {
        assert(part =~= ms);
    }
}

/// With two screens or more the Bit leaves the rightmost one for the top left corner of
/// the leftmost, and comes to the top right corner of the rightmost one from anywhere
/// else. On a single screen it goes to the top corner of the half that its middle is not
/// in. A corner is 16 pixels from both edges.
pub proof fn law_hops_go_across(ms: Seq<Monitor>, ww: int, cur_x: int)
    requires
        ms.len() > 0,
        0 <= ww,
        leftmost(ms).width <= i32::MAX,
        rightmost(ms).width <= i32::MAX,
    ensures
        ({
            let to = hop(ms, ww, cur_x);
            let left = leftmost(ms);
            let right = rightmost(ms);
            let middle = cur_x + ww / 2;
            let goes_left = if ms.len() >= 2 {
                middle >= right.x
            } else {
                middle >= left.x + left.width / 2
            };
            &&& goes_left ==> to == (left.x + 16, left.y + 16)
            &&& !goes_left ==> to.0 + ww + 16 == right.x + right.width && to.1 == right.y + 16
        }),
{
    if ms.len() == 1 {
        lemma_only_screen(ms);
    }
}

/// The bounds reach no further than the screens do: each of their sides touches some
/// screen, unless the window is larger than the whole desktop.
pub proof fn law_bounds_are_tight(b: Bounds, ms: Seq<Monitor>, ww: int, wh: int)
    requires
        is_bounds(b, ms, ww, wh),
        ms.len() > 0,
        forall|i: int|
            0 <= i < ms.len() ==> fits((#[trigger] ms[i]).x + signed(ms[i].width)) && fits(
                ms[i].y + signed(ms[i].height),
            ),
    ensures
        exists|i: int| 0 <= i < ms.len() && b.min_x == (#[trigger] ms[i]).x,
        exists|i: int| 0 <= i < ms.len() && b.min_y == (#[trigger] ms[i]).y,
        b.max_x == b.min_x || exists|i: int|
            0 <= i < ms.len() && b.max_x == (#[trigger] ms[i]).x + signed(ms[i].width) - ww,
        b.max_y == b.min_y || exists|i: int|
            0 <= i < ms.len() && b.max_y == (#[trigger] ms[i]).y + signed(ms[i].height) - wh,
        b.min_x <= b.max_x,
        b.min_y <= b.max_y,
{
    lemma_edges_touch(ms);
}

proof fn lemma_edges_touch(ms: Seq<Monitor>)
    requires
        ms.len() > 0,
        forall|i: int|
            0 <= i < ms.len() ==> fits((#[trigger] ms[i]).x + signed(ms[i].width)) && fits(
                ms[i].y + signed(ms[i].height),
            ),
    ensures
        exists|i: int| 0 <= i < ms.len() && edges(ms).left == (#[trigger] ms[i]).x,
        exists|i: int| 0 <= i < ms.len() && edges(ms).top == (#[trigger] ms[i]).y,
        exists|i: int|
            0 <= i < ms.len() && edges(ms).right == (#[trigger] ms[i]).x + signed(ms[i].width),
        exists|i: int|
            0 <= i < ms.len() && edges(ms).bottom == (#[trigger] ms[i]).y + signed(ms[i].height),
    decreases ms.len(),
{
    let n = ms.len() - 1;
    let rest = ms.drop_last();
    let e = edges(ms);
    assert(ms.last() == ms[n]);
    assert(forall|i: int| 0 <= i < n ==> rest[i] == #[trigger] ms[i]);
    if n == 0 {
        reveal_with_fuel(edges, 2);
        assert(e.left == ms[0].x && e.top == ms[0].y);
        assert(e.right == ms[0].x + signed(ms[0].width));
        assert(e.bottom == ms[0].y + signed(ms[0].height));
    } else {
        lemma_edges_touch(rest);
        let before = edges(rest);
        let a = choose|i: int| 0 <= i < rest.len() && before.left == (#[trigger] rest[i]).x;
        let b = choose|i: int| 0 <= i < rest.len() && before.top == (#[trigger] rest[i]).y;
        let c = choose|i: int|
            0 <= i < rest.len() && before.right == (#[trigger] rest[i]).x + signed(rest[i].width);
        let d = choose|i: int|
            0 <= i < rest.len() && before.bottom == (#[trigger] rest[i]).y + signed(rest[i].height);
        assert(ms[a] == rest[a] && ms[b] == rest[b] && ms[c] == rest[c] && ms[d] == rest[d]);
        assert(e.left == ms[a].x || e.left == ms[n].x);
        assert(e.top == ms[b].y || e.top == ms[n].y);
        assert(e.right == ms[c].x + signed(ms[c].width) || e.right == ms[n].x + signed(
            ms[n].width,
        ));
        assert(e.bottom == ms[d].y + signed(ms[d].height) || e.bottom == ms[n].y + signed(
            ms[n].height,
        ));
    }
}

/// Lengths below 2^31 are themselves, and a half is off by less than one.
pub proof fn law_lengths(n: u32, m: int)
    ensures
        n < 0x8000_0000 ==> signed(n) == n,
        n >= 0x8000_0000 ==> signed(n) == n - 0x1_0000_0000,
        m >= 0 ==> m - 1 <= 2 * half(m) <= m,
        m < 0 ==> m <= 2 * half(m) <= m + 1,
{
}

/// On any desktop of less than a hundred million pixels each way a hop can be computed,
/// and so can the bounds; and where a hop can be computed, it fits.
pub proof fn law_ordinary_desktops_fit(ms: Seq<Monitor>, ww: int, wh: int, cur_x: int)
    requires
        ms.len() > 0,
        forall|i: int|
            0 <= i < ms.len() ==> {
                &&& -100_000_000 < (#[trigger] ms[i]).x < 100_000_000
                &&& -100_000_000 < ms[i].y < 100_000_000
                &&& ms[i].width < 100_000_000
                &&& ms[i].height < 100_000_000
            },
        0 <= ww < 100_000_000,
        0 <= wh < 100_000_000,
        -100_000_000 < cur_x < 100_000_000,
    ensures
        hop_fits(ms, ww, cur_x),
        bounds_fit(ms, ww, wh),
        fits(hop(ms, ww, cur_x).0),
        fits(hop(ms, ww, cur_x).1),
{
    law_outer_screens(ms, 0);
    let l = ms.index_of(leftmost(ms));
    let r = ms.index_of(rightmost(ms));
    assert(ms[l] == leftmost(ms) && ms[r] == rightmost(ms));
    if ms.len() == 1 {
        lemma_only_screen(ms);
    }
    assert forall|i: int| 0 <= i < ms.len() implies fits(
        (#[trigger] ms[i]).x + signed(ms[i].width),
    ) && fits(ms[i].y + signed(ms[i].height)) by {}
    lemma_edges_touch(ms);
}

} // verus!
