use vstd::prelude::*;
use crate::screen::{fits_i32, VirtualScreenRect};

verus! {

/// A monitor is usable when it has a positive width and height.
pub open spec fn is_visible(r: VirtualScreenRect) -> bool {
    r.width > 0 && r.height > 0
}

pub open spec fn visible() -> spec_fn(VirtualScreenRect) -> bool {
    |r: VirtualScreenRect| is_visible(r)
}

/// Monitors are listed top to bottom, and left to right within a row: `a` may come
/// before `b` when `(a.top, a.left) <= (b.top, b.left)`.
pub open spec fn position_le(a: VirtualScreenRect, b: VirtualScreenRect) -> bool {
    a.top < b.top || (a.top == b.top && a.left <= b.left)
}

/// The monitors whose top-left corner is `(left, top)`.
pub open spec fn at_position(top: i32, left: i32) -> spec_fn(VirtualScreenRect) -> bool {
    |r: VirtualScreenRect| r.top == top && r.left == left
}

pub open spec fn sorted_by_position(s: Seq<VirtualScreenRect>) -> bool {
    forall|i: int, j: int| 0 <= i < j < s.len() ==> position_le(s[i], s[j])
}

/// `sorted` is `input` sorted by position, stably: ordered by position, and for each
/// position the monitors there appear in the same order as in `input`.
pub open spec fn is_stable_position_sort(sorted: Seq<VirtualScreenRect>, input: Seq<VirtualScreenRect>) -> bool {
    &&& sorted_by_position(sorted)
    &&& forall|top: i32, left: i32|
        #[trigger] sorted.filter(at_position(top, left)) == input.filter(at_position(top, left))
}

/// Filtering a sequence with one more element at its end.
pub proof fn lemma_filter_push<A>(s: Seq<A>, x: A, pred: spec_fn(A) -> bool)
    ensures
        s.push(x).filter(pred) == if pred(x) { s.filter(pred).push(x) } else { s.filter(pred) },
{
    reveal(Seq::filter);
    assert(s.push(x).drop_last() =~= s);
}

/// Filtering keeps nothing of a sequence that holds no wanted element.
pub proof fn lemma_filter_none<A>(s: Seq<A>, pred: spec_fn(A) -> bool)
    requires
        forall|i: int| 0 <= i < s.len() ==> !pred(#[trigger] s[i]),
    ensures
        s.filter(pred) == Seq::<A>::empty(),
    decreases s.len(),
{
    reveal(Seq::filter);
    if s.len() > 0 {
        lemma_filter_none(s.drop_last(), pred);
    }
}

/// Inserting `x` where it belongs in a sorted sequence adds it at the end of the group
/// of its position and leaves every other group as it was.
pub proof fn lemma_insert_keeps_groups(
    s: Seq<VirtualScreenRect>,
    x: VirtualScreenRect,
    p: int,
    top: i32,
    left: i32,
)
    requires
        0 <= p <= s.len(),
        forall|j: int| 0 <= j < p ==> position_le(#[trigger] s[j], x),
        forall|j: int| p <= j < s.len() ==> !position_le(#[trigger] s[j], x),
    ensures
        s.insert(p, x).filter(at_position(top, left)) == if at_position(top, left)(x) {
            s.filter(at_position(top, left)).push(x)
        } else {
            s.filter(at_position(top, left))
        },
{
    let pred = at_position(top, left);
    let a = s.subrange(0, p);
    let b = s.subrange(p, s.len() as int);
    assert(s =~= a + b);
    assert(s.insert(p, x) =~= a.push(x) + b);
    Seq::filter_distributes_over_add(a, b, pred);
    Seq::filter_distributes_over_add(a.push(x), b, pred);
    lemma_filter_push(a, x, pred);
    if pred(x) {
        assert forall|j: int| 0 <= j < b.len() implies !pred(#[trigger] b[j]) by {
            assert(b[j] == s[p + j]);
        }
        lemma_filter_none(b, pred);
        assert(a.filter(pred) + b.filter(pred) =~= a.filter(pred));
        assert(a.filter(pred).push(x) + b.filter(pred) =~= a.filter(pred).push(x));
    }
}

fn placed_before(a: &VirtualScreenRect, b: &VirtualScreenRect) -> (r: bool)
    ensures
        r == position_le(*a, *b),
{
    a.top < b.top || (a.top == b.top && a.left <= b.left)
}

/// Sorts monitors by their top-left corner, top to bottom and then left to right,
/// keeping monitors at the same corner in their reported order.
pub fn sort_by_position(rects: Vec<VirtualScreenRect>) -> (sorted: Vec<VirtualScreenRect>)
    ensures
        is_stable_position_sort(sorted@, rects@),
        sorted@.to_multiset() == rects@.to_multiset(),
{
    let mut out: Vec<VirtualScreenRect> = Vec::new();
    let n = rects.len();
    assert(rects@.take(0) =~= out@);
    for i in 0..n
        invariant
            n == rects.len(),
            sorted_by_position(out@),
            out@.to_multiset() == rects@.take(i as int).to_multiset(),
            forall|top: i32, left: i32|
                #[trigger] out@.filter(at_position(top, left)) == rects@.take(i as int).filter(
                    at_position(top, left),
                ),
    {
        let x = rects[i];
        let mut p = out.len();
        while p > 0 && !placed_before(&out[p - 1], &x)
            invariant
                p <= out.len(),
                forall|j: int| p <= j < out.len() ==> !position_le(#[trigger] out@[j], x),
            decreases p,
        {
            p = p - 1;
        }
        proof {
            assert forall|j: int| 0 <= j < p implies position_le(#[trigger] out@[j], x) by {
                assert(position_le(out@[j], out@[p - 1]) || j == p - 1);
            }
        }
        let ghost before = out@;
        out.insert(p, x);
        proof {
            assert(rects@.take(i + 1) =~= rects@.take(i as int).push(x));
            vstd::seq_lib::to_multiset_insert(before, p as int, x);
            vstd::seq_lib::to_multiset_build(rects@.take(i as int), x);
            assert forall|top: i32, left: i32|
                #[trigger] out@.filter(at_position(top, left)) == rects@.take(i + 1).filter(
                    at_position(top, left),
                ) by {
                lemma_insert_keeps_groups(before, x, p as int, top, left);
                lemma_filter_push(rects@.take(i as int), x, at_position(top, left));
            }
            assert forall|a: int, b: int| 0 <= a < b < out@.len() implies position_le(
                out@[a],
                out@[b],
            ) by {
                if a < p && b > p {
                    assert(out@[a] == before[a]);
                    assert(out@[b] == before[b - 1]);
                } else if a == p {
                    assert(out@[b] == before[b - 1]);
                } else if b == p {
                    assert(out@[a] == before[a]);
                } else if b < p {
                    assert(out@[a] == before[a] && out@[b] == before[b]);
                } else {
                    assert(out@[a] == before[a - 1] && out@[b] == before[b - 1]);
                }
            }
        }
    }
    proof {
        assert(rects@.take(n as int) =~= rects@);
    }
    out
}

/// The monitors of `rects` that have a positive size, in their order.
pub fn keep_visible(rects: &Vec<VirtualScreenRect>) -> (kept: Vec<VirtualScreenRect>)
    ensures
        kept@ == rects@.filter(visible()),
{
    let mut kept: Vec<VirtualScreenRect> = Vec::new();
    let n = rects.len();
    for i in 0..n
        invariant
            n == rects.len(),
            kept@ == rects@.take(i as int).filter(visible()),
    {
        let r = rects[i];
        proof {
            assert(rects@.take(i + 1) =~= rects@.take(i as int).push(r));
            lemma_filter_push(rects@.take(i as int), r, visible());
        }
        if r.width > 0 && r.height > 0 {
            kept.push(r);
        }
    }
    proof {
        assert(rects@.take(n as int) =~= rects@);
    }
    kept
}

/// The monitor list from what the system reported: the monitors of positive size,
/// sorted stably by position; when there is none, the fallback rectangle alone (or
/// nothing, when there is no fallback either).
pub fn current_monitor_rects(
    reported: Vec<VirtualScreenRect>,
    fallback: Option<VirtualScreenRect>,
) -> (monitors: Option<Vec<VirtualScreenRect>>)
    ensures
        ({
            let shown = reported@.filter(visible());
            &&& shown.len() == 0 ==> match fallback {
                None => monitors is None,
                Some(f) => monitors is Some && monitors->0@ == seq![f],
            }
            &&& shown.len() > 0 ==> {
                &&& monitors is Some
                &&& is_stable_position_sort(monitors->0@, shown)
                &&& monitors->0@.to_multiset() == shown.to_multiset()
                &&& forall|i: int| 0 <= i < monitors->0@.len() ==> is_visible(#[trigger] monitors->0@[i])
            }
        }),
{
    let shown = keep_visible(&reported);
    if shown.len() == 0 {
        match fallback {
            Some(f) => Some(vec![f]),
            None => None,
        }
    } else {
        let sorted = sort_by_position(shown);
        proof {
            assert forall|i: int| 0 <= i < sorted@.len() implies is_visible(#[trigger] sorted@[i]) by {
                lemma_stable_sort_same_members(sorted@, reported@.filter(visible()), sorted@[i]);
                let shown_seq = reported@.filter(visible());
                let k = choose|k: int| 0 <= k < shown_seq.len() && shown_seq[k] == sorted@[i];
                reported@.lemma_filter_pred(visible(), k);
            }
        }
        Some(sorted)
    }
}

/// A stable sort by position holds exactly the monitors that it sorted.
pub proof fn lemma_stable_sort_same_members(
    sorted: Seq<VirtualScreenRect>,
    input: Seq<VirtualScreenRect>,
    x: VirtualScreenRect,
)
    requires
        is_stable_position_sort(sorted, input),
    ensures
        sorted.contains(x) <==> input.contains(x),
{
    let p = at_position(x.top, x.left);
    assert(sorted.filter(p) == input.filter(p));
    if sorted.contains(x) {
        let i = choose|i: int| 0 <= i < sorted.len() && sorted[i] == x;
        sorted.lemma_filter_contains(p, i);
        input.lemma_filter_contains_rev(p, x);
    }
    if input.contains(x) {
        let i = choose|i: int| 0 <= i < input.len() && input[i] == x;
        input.lemma_filter_contains(p, i);
        sorted.lemma_filter_contains_rev(p, x);
    }
}

/// The rectangle of a monitor given by its edges, when it has a positive size.
pub fn monitor_from_bounds(left: i32, top: i32, right: i32, bottom: i32) -> (monitor: Option<VirtualScreenRect>)
    requires
        fits_i32(right - left),
        fits_i32(bottom - top),
    ensures
        monitor == if right - left > 0 && bottom - top > 0 {
            Some(VirtualScreenRect { left, top, width: (right - left) as i32, height: (bottom - top) as i32 })
        } else {
            None::<VirtualScreenRect>
        },
{
    let width = right - left;
    let height = bottom - top;
    if width > 0 && height > 0 {
        Some(VirtualScreenRect::new(left, top, width, height))
    } else {
        None
    }
}

/// The virtual screen given by the system's metrics, unless its size is not positive.
pub fn virtual_screen_from_metrics(left: i32, top: i32, width: i32, height: i32) -> (screen: Option<VirtualScreenRect>)
    ensures
        screen == if width <= 0 || height <= 0 {
            None::<VirtualScreenRect>
        } else {
            Some(VirtualScreenRect { left, top, width, height })
        },
{
    if width <= 0 || height <= 0 {
        return None;
    }
    Some(VirtualScreenRect::new(left, top, width, height))
}

/// `r` is the smallest rectangle that spans all of `s`: its left and top edges are
/// the least among the monitors', its right and bottom edges the greatest.
pub open spec fn is_bounding_rect(r: VirtualScreenRect, s: Seq<VirtualScreenRect>) -> bool {
    &&& forall|i: int| 0 <= i < s.len() ==> r.left <= #[trigger] s[i].left
    &&& exists|i: int| 0 <= i < s.len() && r.left == #[trigger] s[i].left
    &&& forall|i: int| 0 <= i < s.len() ==> r.top <= #[trigger] s[i].top
    &&& exists|i: int| 0 <= i < s.len() && r.top == #[trigger] s[i].top
    &&& forall|i: int| 0 <= i < s.len() ==> #[trigger] s[i].right_edge() <= r.right_edge()
    &&& exists|i: int| 0 <= i < s.len() && #[trigger] s[i].right_edge() == r.right_edge()
    &&& forall|i: int| 0 <= i < s.len() ==> #[trigger] s[i].bottom_edge() <= r.bottom_edge()
    &&& exists|i: int| 0 <= i < s.len() && #[trigger] s[i].bottom_edge() == r.bottom_edge()
}

/// Monitor `i` has the greatest right edge of `s`.
pub open spec fn has_max_right(s: Seq<VirtualScreenRect>, i: int) -> bool {
    0 <= i < s.len() && forall|k: int| 0 <= k < s.len() ==> #[trigger] s[k].right_edge() <= s[i].right_edge()
}

/// Monitor `i` has the greatest bottom edge of `s`.
pub open spec fn has_max_bottom(s: Seq<VirtualScreenRect>, i: int) -> bool {
    0 <= i < s.len() && forall|k: int| 0 <= k < s.len() ==> #[trigger] s[k].bottom_edge() <= s[i].bottom_edge()
}

/// Monitor `j` has the least left edge of `s`.
pub open spec fn has_min_left(s: Seq<VirtualScreenRect>, j: int) -> bool {
    0 <= j < s.len() && forall|k: int| 0 <= k < s.len() ==> s[j].left <= #[trigger] s[k].left
}

/// Monitor `j` has the least top edge of `s`.
pub open spec fn has_min_top(s: Seq<VirtualScreenRect>, j: int) -> bool {
    0 <= j < s.len() && forall|k: int| 0 <= k < s.len() ==> s[j].top <= #[trigger] s[k].top
}

/// The spanning rectangle can be computed within `i32`: every monitor's far edges fit,
/// and so do the greatest right edge minus the least left edge and the greatest
/// bottom edge minus the least top edge.
pub open spec fn span_fits(s: Seq<VirtualScreenRect>) -> bool {
    &&& forall|i: int| 0 <= i < s.len() ==> (#[trigger] s[i]).edges_fit()
    &&& forall|i: int, j: int|
        #[trigger] has_max_right(s, i) && #[trigger] has_min_left(s, j) ==> fits_i32(s[i].right_edge() - s[j].left)
    &&& forall|i: int, j: int|
        #[trigger] has_max_bottom(s, i) && #[trigger] has_min_top(s, j) ==> fits_i32(s[i].bottom_edge() - s[j].top)
}

fn fits_i32_exec(v: i64) -> (r: bool)
    ensures
        r == fits_i32(v as int),
{
    -2147483648i64 <= v && v <= 2147483647i64
}

/// Whether the rectangle spanning `monitors` can be computed within `i32`.
pub fn spans_fit(monitors: &Vec<VirtualScreenRect>) -> (fits: bool)
    ensures
        fits == span_fits(monitors@),
{
    let n = monitors.len();
    for i in 0..n
        invariant
            n == monitors.len(),
            forall|k: int| 0 <= k < i ==> (#[trigger] monitors@[k]).edges_fit(),
    {
        let m = monitors[i];
        if !fits_i32_exec(m.left as i64 + m.width as i64) || !fits_i32_exec(m.top as i64 + m.height as i64) {
            assert(!monitors@[i as int].edges_fit());
            return false;
        }
    }
    if n == 0 {
        return true;
    }
    let mut li: usize = 0;
    let mut ti: usize = 0;
    let mut ri: usize = 0;
    let mut bi: usize = 0;
    for i in 1..n
        invariant
            n == monitors.len(),
            li < i && ti < i && ri < i && bi < i,
            forall|k: int| 0 <= k < i ==> monitors@[li as int].left <= #[trigger] monitors@[k].left,
            forall|k: int| 0 <= k < i ==> monitors@[ti as int].top <= #[trigger] monitors@[k].top,
            forall|k: int| 0 <= k < i ==> #[trigger] monitors@[k].right_edge() <= monitors@[ri as int].right_edge(),
            forall|k: int| 0 <= k < i ==> #[trigger] monitors@[k].bottom_edge() <= monitors@[bi as int].bottom_edge(),
    {
        let m = monitors[i];
        if m.left < monitors[li].left {
            li = i;
        }
        if m.top < monitors[ti].top {
            ti = i;
        }
        let r = monitors[ri];
        if m.left as i64 + m.width as i64 > r.left as i64 + r.width as i64 {
            ri = i;
        }
        let b = monitors[bi];
        if m.top as i64 + m.height as i64 > b.top as i64 + b.height as i64 {
            bi = i;
        }
    }
    let ghost s = monitors@;
    assert(has_max_right(s, ri as int) && has_min_left(s, li as int));
    assert(has_max_bottom(s, bi as int) && has_min_top(s, ti as int));
    let r = monitors[ri];
    let l = monitors[li];
    let b = monitors[bi];
    let t = monitors[ti];
    let fits = fits_i32_exec(r.left as i64 + r.width as i64 - l.left as i64)
        && fits_i32_exec(b.top as i64 + b.height as i64 - t.top as i64);
    proof {
        if fits {
            assert forall|i: int, j: int| #[trigger] has_max_right(s, i) && #[trigger] has_min_left(s, j) implies fits_i32(
                s[i].right_edge() - s[j].left,
            ) by {
                assert(s[i].right_edge() == s[ri as int].right_edge());
                assert(s[j].left == s[li as int].left);
            }
            assert forall|i: int, j: int| #[trigger] has_max_bottom(s, i) && #[trigger] has_min_top(s, j) implies fits_i32(
                s[i].bottom_edge() - s[j].top,
            ) by {
                assert(s[i].bottom_edge() == s[bi as int].bottom_edge());
                assert(s[j].top == s[ti as int].top);
            }
        }
    }
    fits
}

/// The virtual screen that spans the given monitors, or nothing when there is none.
pub fn current_virtual_screen_rect(monitors: &Vec<VirtualScreenRect>) -> (screen: Option<VirtualScreenRect>)
    requires
        span_fits(monitors@),
    ensures
        screen is None <==> monitors@.len() == 0,
        screen matches Some(r) ==> is_bounding_rect(r, monitors@),
{
    let n = monitors.len();
    if n == 0 {
        return None;
    }
    let first = monitors[0];
    let mut left = first.left;
    let mut top = first.top;
    let mut right = first.right();
    let mut bottom = first.bottom();
    let ghost mut li: int = 0;
    let ghost mut ti: int = 0;
    let ghost mut ri: int = 0;
    let ghost mut bi: int = 0;
    for i in 1..n
        invariant
            n == monitors.len(),
            span_fits(monitors@),
            0 <= li < i && left == monitors@[li].left,
            0 <= ti < i && top == monitors@[ti].top,
            0 <= ri < i && right == monitors@[ri].right_edge(),
            0 <= bi < i && bottom == monitors@[bi].bottom_edge(),
            forall|k: int| 0 <= k < i ==> left <= #[trigger] monitors@[k].left,
            forall|k: int| 0 <= k < i ==> top <= #[trigger] monitors@[k].top,
            forall|k: int| 0 <= k < i ==> #[trigger] monitors@[k].right_edge() <= right,
            forall|k: int| 0 <= k < i ==> #[trigger] monitors@[k].bottom_edge() <= bottom,
    {
        let m = monitors[i];
        assert(m.edges_fit());
        if m.left < left {
            left = m.left;
            proof { li = i as int; }
        }
        if m.top < top {
            top = m.top;
            proof { ti = i as int; }
        }
        let m_right = m.right();
        if m_right > right {
            right = m_right;
            proof { ri = i as int; }
        }
        let m_bottom = m.bottom();
        if m_bottom > bottom {
            bottom = m_bottom;
            proof { bi = i as int; }
        }
    }
    assert(has_max_right(monitors@, ri) && has_min_left(monitors@, li));
    assert(has_max_bottom(monitors@, bi) && has_min_top(monitors@, ti));
    assert(fits_i32(monitors@[ri].right_edge() - monitors@[li].left));
    assert(fits_i32(monitors@[bi].bottom_edge() - monitors@[ti].top));
    let r = VirtualScreenRect::new(left, top, right - left, bottom - top);
    assert(monitors@[li].left == r.left);
    assert(monitors@[ti].top == r.top);
    assert(monitors@[ri].right_edge() == r.right_edge());
    assert(monitors@[bi].bottom_edge() == r.bottom_edge());
    Some(r)
}

/// Every pixel of every monitor lies on the virtual screen that spans them.
pub proof fn lemma_bounding_rect_covers(
    r: VirtualScreenRect,
    s: Seq<VirtualScreenRect>,
    i: int,
    x: int,
    y: int,
)
    requires
        is_bounding_rect(r, s),
        0 <= i < s.len(),
        s[i].has_point(x, y),
    ensures
        r.has_point(x, y),
{
    assert(r.left <= s[i].left && r.top <= s[i].top);
    assert(s[i].right_edge() <= r.right_edge() && s[i].bottom_edge() <= r.bottom_edge());
}

} // verus!
