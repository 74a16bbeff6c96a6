use vstd::prelude::*;
use crate::output::{Output, Rect, LOGICAL_LIMIT};

verus! {

/// Distance, in logical pixels, under which an edge attracts a dragged output.
pub const SNAP_THRESHOLD: i64 = 40;

/// Grid step used when no edge attracts a coordinate.
pub const GRID_STEP: i64 = 10;

pub open spec fn abs(v: int) -> int {
    if v < 0 {
        -v
    } else {
        v
    }
}

/// Keeps the running best `(distance, value)` unless the new offer is strictly closer.
pub open spec fn offer(best: (int, int), dist: int, value: int) -> (int, int) {
    if dist < best.0 {
        (dist, value)
    } else {
        best
    }
}

/// Vertical extents overlap, widened by the threshold on both sides.
pub open spec fn y_overlap(me: Rect, o: Rect) -> bool {
    me.y < o.y + o.h + SNAP_THRESHOLD && me.y + me.h > o.y - SNAP_THRESHOLD
}

/// Horizontal extents overlap, widened by the threshold on both sides.
pub open spec fn x_overlap(me: Rect, o: Rect) -> bool {
    me.x < o.x + o.w + SNAP_THRESHOLD && me.x + me.w > o.x - SNAP_THRESHOLD
}

/// Horizontal offers of one neighbour: left to its right edge, right to its
/// left edge, left to its left edge.
pub open spec fn x_step(best: (int, int), me: Rect, o: Rect) -> (int, int) {
    if y_overlap(me, o) {
        let b1 = offer(best, abs(me.x - (o.x + o.w)), o.x + o.w);
        let b2 = offer(b1, abs(me.x + me.w - o.x), o.x - me.w);
        offer(b2, abs(me.x - o.x), o.x as int)
    } else {
        best
    }
}

/// Vertical offers of one neighbour: top to its bottom edge, bottom to its
/// top edge, top to its top edge.
pub open spec fn y_step(best: (int, int), me: Rect, o: Rect) -> (int, int) {
    if x_overlap(me, o) {
        let b1 = offer(best, abs(me.y - (o.y + o.h)), o.y + o.h);
        let b2 = offer(b1, abs(me.y + me.h - o.y), o.y - me.h);
        offer(b2, abs(me.y - o.y), o.y as int)
    } else {
        best
    }
}

/// Best horizontal offer over the first `n` rectangles, the one at `skip` left out.
pub open spec fn x_fold(me: Rect, rects: Seq<Rect>, skip: int, n: int) -> (int, int)
    decreases n,
{
    if n <= 0 {
        (SNAP_THRESHOLD as int, me.x as int)
    } else if n - 1 == skip {
        x_fold(me, rects, skip, n - 1)
    } else {
        x_step(x_fold(me, rects, skip, n - 1), me, rects[n - 1])
    }
}

/// Best vertical offer over the first `n` rectangles, the one at `skip` left out.
pub open spec fn y_fold(me: Rect, rects: Seq<Rect>, skip: int, n: int) -> (int, int)
    decreases n,
{
    if n <= 0 {
        (SNAP_THRESHOLD as int, me.y as int)
    } else if n - 1 == skip {
        y_fold(me, rects, skip, n - 1)
    } else {
        y_step(y_fold(me, rects, skip, n - 1), me, rects[n - 1])
    }
}

/// Nearest multiple of the grid step, halves rounded up (for `v >= 0`).
pub open spec fn grid_round(v: int) -> int {
    (v + 5) / GRID_STEP as int * GRID_STEP as int
}

/// Final coordinate: grid fallback when no edge moved it, then kept within `0..=i32::MAX`.
pub open spec fn settle(snapped: int, unsnapped: int) -> int {
    let s = if snapped == unsnapped {
        grid_round(unsnapped)
    } else {
        snapped
    };
    if s < 0 {
        0
    } else if s > i32::MAX {
        i32::MAX as int
    } else {
        s
    }
}

/// Logical rectangles of an arrangement, in order.
pub open spec fn rects_of(outputs: Seq<Output>) -> Seq<Rect> {
    Seq::new(outputs.len(), |i: int| outputs[i].rect_spec())
}

/// The dragged rectangle: provisional corner, extent of the output at `idx`.
pub open spec fn moved_rect(rects: Seq<Rect>, idx: int, x: int, y: int) -> Rect {
    Rect { x: x as i64, y: y as i64, w: rects[idx].w, h: rects[idx].h }
}

/// Snapped position of output `idx` dragged to the provisional position `(x, y)`.
pub open spec fn snap_spec(rects: Seq<Rect>, idx: int, x: int, y: int) -> (int, int) {
    let me = moved_rect(rects, idx, x, y);
    (
        settle(x_fold(me, rects, idx, rects.len() as int).1, x),
        settle(y_fold(me, rects, idx, rects.len() as int).1, y),
    )
}

/// The running best never strays further from the start than its distance.
proof fn lemma_x_fold_close(me: Rect, rects: Seq<Rect>, skip: int, n: int)
    requires
        0 <= n <= rects.len(),
    ensures
        abs(x_fold(me, rects, skip, n).1 - me.x) <= x_fold(me, rects, skip, n).0 <= SNAP_THRESHOLD,
        x_fold(me, rects, skip, n).0 == SNAP_THRESHOLD ==> x_fold(me, rects, skip, n).1 == me.x,
    decreases n,
{
    if n > 0 {
        lemma_x_fold_close(me, rects, skip, n - 1);
    }
}

proof fn lemma_y_fold_close(me: Rect, rects: Seq<Rect>, skip: int, n: int)
    requires
        0 <= n <= rects.len(),
    ensures
        abs(y_fold(me, rects, skip, n).1 - me.y) <= y_fold(me, rects, skip, n).0 <= SNAP_THRESHOLD,
        y_fold(me, rects, skip, n).0 == SNAP_THRESHOLD ==> y_fold(me, rects, skip, n).1 == me.y,
    decreases n,
{
    if n > 0 {
        lemma_y_fold_close(me, rects, skip, n - 1);
    }
}

proof fn lemma_settle_close(s: int, x: int, d: int)
    requires
        0 <= x <= i32::MAX,
        abs(s - x) <= d <= SNAP_THRESHOLD,
        d == SNAP_THRESHOLD ==> s == x,
    ensures
        abs(settle(s, x) - x) < SNAP_THRESHOLD,
{
    assert(x - 4 <= (x + 5) / 10 * 10 <= x + 5) by (nonlinear_arith)
        requires
            x >= 0,
    ;
}

/// A snap moves each coordinate by less than the threshold: either to an
/// edge closer than the threshold, or to the nearest grid line.
pub proof fn lemma_snap_within_threshold(rects: Seq<Rect>, idx: int, x: int, y: int)
    requires
        0 <= idx < rects.len(),
        0 <= x <= i32::MAX,
        0 <= y <= i32::MAX,
    ensures
        abs(snap_spec(rects, idx, x, y).0 - x) < SNAP_THRESHOLD,
        abs(snap_spec(rects, idx, x, y).1 - y) < SNAP_THRESHOLD,
{
    let me = moved_rect(rects, idx, x, y);
    let n = rects.len() as int;
    lemma_x_fold_close(me, rects, idx, n);
    lemma_y_fold_close(me, rects, idx, n);
    lemma_settle_close(x_fold(me, rects, idx, n).1, x, x_fold(me, rects, idx, n).0);
    lemma_settle_close(y_fold(me, rects, idx, n).1, y, y_fold(me, rects, idx, n).0);
}

/// No horizontal offer of the neighbour `o` comes within the threshold.
pub open spec fn no_x_offer(me: Rect, o: Rect) -> bool {
    y_overlap(me, o) ==> {
        &&& abs(me.x - (o.x + o.w)) >= SNAP_THRESHOLD
        &&& abs(me.x + me.w - o.x) >= SNAP_THRESHOLD
        &&& abs(me.x - o.x) >= SNAP_THRESHOLD
    }
}

/// No vertical offer of the neighbour `o` comes within the threshold.
pub open spec fn no_y_offer(me: Rect, o: Rect) -> bool {
    x_overlap(me, o) ==> {
        &&& abs(me.y - (o.y + o.h)) >= SNAP_THRESHOLD
        &&& abs(me.y + me.h - o.y) >= SNAP_THRESHOLD
        &&& abs(me.y - o.y) >= SNAP_THRESHOLD
    }
}

proof fn lemma_x_fold_untouched(me: Rect, rects: Seq<Rect>, skip: int, n: int)
    requires
        0 <= n <= rects.len(),
        forall|j: int| 0 <= j < n && j != skip ==> no_x_offer(me, #[trigger] rects[j]),
    ensures
        x_fold(me, rects, skip, n) == (SNAP_THRESHOLD as int, me.x as int),
    decreases n,
{
    if n > 0 {
        lemma_x_fold_untouched(me, rects, skip, n - 1);
    }
}

proof fn lemma_y_fold_untouched(me: Rect, rects: Seq<Rect>, skip: int, n: int)
    requires
        0 <= n <= rects.len(),
        forall|j: int| 0 <= j < n && j != skip ==> no_y_offer(me, #[trigger] rects[j]),
    ensures
        y_fold(me, rects, skip, n) == (SNAP_THRESHOLD as int, me.y as int),
    decreases n,
{
    if n > 0 {
        lemma_y_fold_untouched(me, rects, skip, n - 1);
    }
}

/// `v` on the grid, kept within `i32`.
pub open spec fn on_grid(v: int) -> int {
    if grid_round(v) > i32::MAX {
        i32::MAX as int
    } else {
        grid_round(v)
    }
}

/// Grid fallback: an axis on which no neighbour offers an edge within the
/// threshold lands on the nearest multiple of the grid step (an isolated
/// output always does).
pub proof fn lemma_snap_grid_fallback(rects: Seq<Rect>, idx: int, x: int, y: int)
    requires
        0 <= idx < rects.len(),
        0 <= x <= i32::MAX,
        0 <= y <= i32::MAX,
    ensures
        (forall|j: int|
            0 <= j < rects.len() && j != idx ==> no_x_offer(
                moved_rect(rects, idx, x, y),
                #[trigger] rects[j],
            )) ==> snap_spec(rects, idx, x, y).0 == on_grid(x),
        (forall|j: int|
            0 <= j < rects.len() && j != idx ==> no_y_offer(
                moved_rect(rects, idx, x, y),
                #[trigger] rects[j],
            )) ==> snap_spec(rects, idx, x, y).1 == on_grid(y),
{
    let me = moved_rect(rects, idx, x, y);
    let n = rects.len() as int;
    assert(grid_round(x) >= 0 && grid_round(y) >= 0) by (nonlinear_arith)
        requires
            x >= 0,
            y >= 0,
    ;
    if forall|j: int| 0 <= j < n && j != idx ==> no_x_offer(me, #[trigger] rects[j]) {
        lemma_x_fold_untouched(me, rects, idx, n);
    }
    if forall|j: int| 0 <= j < n && j != idx ==> no_y_offer(me, #[trigger] rects[j]) {
        lemma_y_fold_untouched(me, rects, idx, n);
    }
}

/// Flush placement: with one neighbour `o` whose vertical extent overlaps,
/// when the dragged right edge is closer to `o`'s left edge than any other
/// horizontal offer, and within the threshold but not already on it, the
/// dragged output ends with its right edge on `o`'s left edge (clamped at 0).
pub proof fn lemma_snap_flush_right(rects: Seq<Rect>, x: int, y: int)
    requires
        rects.len() == 2,
        0 <= x <= i32::MAX,
        0 <= y <= i32::MAX,
        small_rect(rects[0]),
        small_rect(rects[1]),
        y_overlap(moved_rect(rects, 0, x, y), rects[1]),
        0 < abs(x + rects[0].w - rects[1].x) < SNAP_THRESHOLD,
        abs(x + rects[0].w - rects[1].x) < abs(x - (rects[1].x + rects[1].w)),
        abs(x + rects[0].w - rects[1].x) <= abs(x - rects[1].x),
    ensures
        snap_spec(rects, 0, x, y).0 == (if rects[1].x - rects[0].w < 0 {
            0
        } else {
            rects[1].x - rects[0].w
        }),
{
    let me = moved_rect(rects, 0, x, y);
    assert(x_fold(me, rects, 0, 1) == x_fold(me, rects, 0, 0));
}

pub open spec fn all_wf(outputs: Seq<Output>) -> bool {
    forall|i: int| 0 <= i < outputs.len() ==> (#[trigger] outputs[i]).wf()
}

pub open spec fn small_rect(r: Rect) -> bool {
    &&& i32::MIN <= r.x <= i32::MAX
    &&& i32::MIN <= r.y <= i32::MAX
    &&& 0 <= r.w < LOGICAL_LIMIT
    &&& 0 <= r.h < LOGICAL_LIMIT
}

pub open spec fn small_best(b: (int, int)) -> bool {
    0 <= b.0 <= SNAP_THRESHOLD && -2 * LOGICAL_LIMIT <= b.1 <= 2 * LOGICAL_LIMIT
}

fn abs_i64(v: i64) -> (r: i64)
    requires
        v > i64::MIN,
    ensures
        r == abs(v as int),
{
    if v < 0 {
        -v
    } else {
        v
    }
}

fn offer_exec(best: (i64, i64), dist: i64, value: i64) -> (r: (i64, i64))
    ensures
        (r.0 as int, r.1 as int) == offer((best.0 as int, best.1 as int), dist as int, value as int),
{
    if dist < best.0 {
        (dist, value)
    } else {
        best
    }
}

fn x_step_exec(best: (i64, i64), me: Rect, o: Rect) -> (r: (i64, i64))
    requires
        small_rect(me),
        small_rect(o),
        small_best((best.0 as int, best.1 as int)),
    ensures
        (r.0 as int, r.1 as int) == x_step((best.0 as int, best.1 as int), me, o),
        small_best((r.0 as int, r.1 as int)),
{
    let t = SNAP_THRESHOLD;
    if me.y < o.y + o.h + t && me.y + me.h > o.y - t {
        let b1 = offer_exec(best, abs_i64(me.x - (o.x + o.w)), o.x + o.w);
        let b2 = offer_exec(b1, abs_i64(me.x + me.w - o.x), o.x - me.w);
        offer_exec(b2, abs_i64(me.x - o.x), o.x)
    } else {
        best
    }
}

fn y_step_exec(best: (i64, i64), me: Rect, o: Rect) -> (r: (i64, i64))
    requires
        small_rect(me),
        small_rect(o),
        small_best((best.0 as int, best.1 as int)),
    ensures
        (r.0 as int, r.1 as int) == y_step((best.0 as int, best.1 as int), me, o),
        small_best((r.0 as int, r.1 as int)),
{
    let t = SNAP_THRESHOLD;
    if me.x < o.x + o.w + t && me.x + me.w > o.x - t {
        let b1 = offer_exec(best, abs_i64(me.y - (o.y + o.h)), o.y + o.h);
        let b2 = offer_exec(b1, abs_i64(me.y + me.h - o.y), o.y - me.h);
        offer_exec(b2, abs_i64(me.y - o.y), o.y)
    } else {
        best
    }
}

fn settle_exec(snapped: i64, unsnapped: i64) -> (r: i32)
    requires
        0 <= unsnapped <= i32::MAX,
        -2 * LOGICAL_LIMIT <= snapped <= 2 * LOGICAL_LIMIT,
    ensures
        r as int == settle(snapped as int, unsnapped as int),
{
    let s = if snapped == unsnapped {
        (unsnapped + 5) / GRID_STEP * GRID_STEP
    } else {
        snapped
    };
    if s < 0 {
        0
    } else if s > i32::MAX as i64 {
        i32::MAX
    } else {
        s as i32
    }
}

/// Snaps output `idx`, dragged to the provisional position `(x, y)`, to the
/// nearest edge of a neighbour within the threshold, independently per axis;
/// an axis that no edge moved falls back to the grid. Both coordinates end up
/// non-negative.
pub fn snap_position(outputs: &Vec<Output>, idx: usize, x: i64, y: i64) -> (r: (i32, i32))
    requires
        all_wf(outputs@),
        idx < outputs.len(),
        0 <= x <= i32::MAX,
        0 <= y <= i32::MAX,
    ensures
        (r.0 as int, r.1 as int) == snap_spec(rects_of(outputs@), idx as int, x as int, y as int),
        r.0 >= 0,
        r.1 >= 0,
{
    let ghost rects = rects_of(outputs@);
    let mine = outputs[idx].rect();
    let me = Rect { x, y, w: mine.w, h: mine.h };
    assert(me == moved_rect(rects, idx as int, x as int, y as int));
    let mut bx: (i64, i64) = (SNAP_THRESHOLD, x);
    let mut by: (i64, i64) = (SNAP_THRESHOLD, y);
    let mut i: usize = 0;
    while i < outputs.len()
        invariant
            all_wf(outputs@),
            rects == rects_of(outputs@),
            idx < outputs.len(),
            small_rect(me),
            me == moved_rect(rects, idx as int, x as int, y as int),
            0 <= i <= outputs.len(),
            (bx.0 as int, bx.1 as int) == x_fold(me, rects, idx as int, i as int),
            (by.0 as int, by.1 as int) == y_fold(me, rects, idx as int, i as int),
            small_best((bx.0 as int, bx.1 as int)),
            small_best((by.0 as int, by.1 as int)),
        decreases outputs.len() - i,
    {
        if i != idx {
            let o = outputs[i].rect();
            assert(o == rects[i as int]);
            bx = x_step_exec(bx, me, o);
            by = y_step_exec(by, me, o);
        }
        i = i + 1;
    }
    (settle_exec(bx.1, x), settle_exec(by.1, y))
}

} // verus!
