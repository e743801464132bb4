//! Proofs that classic patterns behave as the transition rule dictates: a
//! two-by-two block of alive cells is a still life, and a three-cell
//! blinker oscillates between its horizontal and vertical orientation with
//! period two.

use vstd::prelude::*;
use crate::grid::Grid;
use crate::grid::tick_effect;
use crate::torus::wrap;
use crate::torus::lemma_wrap_range;
use crate::torus::lemma_wrap_shift;
use crate::torus::lemma_wrap_step;
use crate::torus::lemma_wrap_shift_eq;
use crate::torus::lemma_wrap_identity;

verus! {

/// Membership of an axis coordinate `i` in the toroidal segment of `len`
/// consecutive positions starting at `b`, on an axis of extent `m`.
pub open spec fn in_seg(b: int, len: int, i: int, m: int) -> bool {
    wrap(i - b, m) < len
}

/// How a toroidal segment of length `len` meets the window of the three
/// positions `i - 1`, `i` and `i + 1`, stated through the offset
/// `wrap(i - b, m)` of `i` from the segment start. Needs an axis extent of
/// at least `len + 2` so that the segment cannot meet its own wrap-around.
proof fn lemma_seg_window(b: int, len: int, i: int, m: int)
    requires
        1 <= len,
        len + 2 <= m,
        0 <= i < m,
    ensures
        0 <= wrap(i - b, m) < m,
        in_seg(b, len, i, m) == (wrap(i - b, m) < len),
        in_seg(b, len, wrap(i - 1, m), m) == (0 < wrap(i - b, m) && wrap(i - b, m) <= len),
        in_seg(b, len, wrap(i + 1, m), m) == (wrap(i - b, m) == m - 1 || wrap(i - b, m) < len - 1),
{
    let u = wrap(i - b, m);
    lemma_wrap_range(i - b, m);
    lemma_wrap_shift(i - 1, -b, m);
    lemma_wrap_shift(i - b, -1, m);
    lemma_wrap_shift(i + 1, -b, m);
    lemma_wrap_shift(i - b, 1, m);
    lemma_wrap_step(i, m);
    lemma_wrap_step(u, m);
}

/// The grid holds exactly a two-by-two block of alive cells whose
/// lowest-coordinate corner is `(bx, by)` (taken modulo the extent), and
/// every other cell is dead.
pub open spec fn is_block(g: Grid, bx: int, by: int) -> bool {
    forall|i: int, j: int|
        g.in_bounds(i, j) ==> g.cell(i, j) == (in_seg(bx, 2, i, g.spec_width()) && in_seg(
            by,
            2,
            j,
            g.spec_height(),
        ))
}

/// Law: on a grid at least four cells wide and four cells tall that holds
/// exactly a two-by-two block, one generation step leaves every cell
/// unchanged — and the resulting grid is that same block again, so the
/// block survives any number of steps.
#[verifier::rlimit(100)]
pub proof fn lemma_block_still_life(pre: Grid, post: Grid, bx: int, by: int)
    requires
        4 <= pre.spec_width(),
        4 <= pre.spec_height(),
        is_block(pre, bx, by),
        tick_effect(pre, post),
    ensures
        post.spec_width() == pre.spec_width(),
        post.spec_height() == pre.spec_height(),
        forall|i: int, j: int| pre.in_bounds(i, j) ==> post.cell(i, j) == pre.cell(i, j),
        is_block(post, bx, by),
{
    let w = pre.spec_width();
    let h = pre.spec_height();
    assert forall|i: int, j: int| pre.in_bounds(i, j) implies post.cell(i, j) == pre.cell(
        i,
        j,
    ) by {
        lemma_wrap_range(i - 1, w);
        lemma_wrap_range(i + 1, w);
        lemma_wrap_range(j - 1, h);
        lemma_wrap_range(j + 1, h);
        lemma_seg_window(bx, 2, i, w);
        lemma_seg_window(by, 2, j, h);
    }
}

/// The grid holds exactly a horizontal blinker centered at `(cx, cy)`:
/// the three alive cells `(cx - 1, cy)`, `(cx, cy)` and `(cx + 1, cy)`
/// (taken modulo the extent), and every other cell is dead.
pub open spec fn is_hblinker(g: Grid, cx: int, cy: int) -> bool {
    forall|i: int, j: int|
        g.in_bounds(i, j) ==> g.cell(i, j) == (in_seg(cx - 1, 3, i, g.spec_width()) && in_seg(
            cy,
            1,
            j,
            g.spec_height(),
        ))
}

/// The grid holds exactly a vertical blinker centered at `(cx, cy)`: the
/// three alive cells `(cx, cy - 1)`, `(cx, cy)` and `(cx, cy + 1)` (taken
/// modulo the extent), and every other cell is dead.
pub open spec fn is_vblinker(g: Grid, cx: int, cy: int) -> bool {
    forall|i: int, j: int|
        g.in_bounds(i, j) ==> g.cell(i, j) == (in_seg(cx, 1, i, g.spec_width()) && in_seg(
            cy - 1,
            3,
            j,
            g.spec_height(),
        ))
}

/// Law: on a grid at least five cells wide and tall, one generation step
/// turns a horizontal blinker into the vertical blinker with the same
/// center.
#[verifier::rlimit(100)]
pub proof fn lemma_blinker_h_to_v(pre: Grid, post: Grid, cx: int, cy: int)
    requires
        5 <= pre.spec_width(),
        5 <= pre.spec_height(),
        is_hblinker(pre, cx, cy),
        tick_effect(pre, post),
    ensures
        post.spec_width() == pre.spec_width(),
        post.spec_height() == pre.spec_height(),
        is_vblinker(post, cx, cy),
{
    let w = pre.spec_width();
    let h = pre.spec_height();
    assert forall|i: int, j: int| post.in_bounds(i, j) implies post.cell(i, j) == (in_seg(
        cx,
        1,
        i,
        w,
    ) && in_seg(cy - 1, 3, j, h)) by {
        lemma_wrap_range(i - 1, w);
        lemma_wrap_range(i + 1, w);
        lemma_wrap_range(j - 1, h);
        lemma_wrap_range(j + 1, h);
        lemma_seg_window(cx - 1, 3, i, w);
        lemma_seg_window(cy, 1, j, h);
        lemma_wrap_shift(i - cx + 1, -1, w);
        lemma_wrap_step(wrap(i - cx + 1, w), w);
        lemma_wrap_shift(j - cy, 1, h);
        lemma_wrap_step(wrap(j - cy, h), h);
    }
}

/// Law: on a grid at least five cells wide and tall, one generation step
/// turns a vertical blinker into the horizontal blinker with the same
/// center.
#[verifier::rlimit(100)]
pub proof fn lemma_blinker_v_to_h(pre: Grid, post: Grid, cx: int, cy: int)
    requires
        5 <= pre.spec_width(),
        5 <= pre.spec_height(),
        is_vblinker(pre, cx, cy),
        tick_effect(pre, post),
    ensures
        post.spec_width() == pre.spec_width(),
        post.spec_height() == pre.spec_height(),
        is_hblinker(post, cx, cy),
{
    let w = pre.spec_width();
    let h = pre.spec_height();
    assert forall|i: int, j: int| post.in_bounds(i, j) implies post.cell(i, j) == (in_seg(
        cx - 1,
        3,
        i,
        w,
    ) && in_seg(cy, 1, j, h)) by {
        lemma_wrap_range(i - 1, w);
        lemma_wrap_range(i + 1, w);
        lemma_wrap_range(j - 1, h);
        lemma_wrap_range(j + 1, h);
        lemma_seg_window(cx, 1, i, w);
        lemma_seg_window(cy - 1, 3, j, h);
        lemma_wrap_shift(i - cx, 1, w);
        lemma_wrap_step(wrap(i - cx, w), w);
        lemma_wrap_shift(j - cy + 1, -1, h);
        lemma_wrap_step(wrap(j - cy + 1, h), h);
    }
}

/// Law: on a grid at least five cells wide and tall, a horizontal blinker
/// is vertical after one step and back to its exact original state after
/// two — the blinker oscillates with period two.
pub proof fn lemma_blinker_period_two(g0: Grid, g1: Grid, g2: Grid, cx: int, cy: int)
    requires
        5 <= g0.spec_width(),
        5 <= g0.spec_height(),
        is_hblinker(g0, cx, cy),
        tick_effect(g0, g1),
        tick_effect(g1, g2),
    ensures
        is_vblinker(g1, cx, cy),
        is_hblinker(g2, cx, cy),
        g2.spec_width() == g0.spec_width(),
        g2.spec_height() == g0.spec_height(),
        forall|i: int, j: int| g0.in_bounds(i, j) ==> g2.cell(i, j) == g0.cell(i, j),
{
    lemma_blinker_h_to_v(g0, g1, cx, cy);
    lemma_blinker_v_to_h(g1, g2, cx, cy);
}


/// How stepping one position left or right moves the toroidal offset of a
/// coordinate from a base `b`.
proof fn lemma_offset_window(b: int, i: int, m: int)
    requires
        0 < m,
        0 <= i < m,
    ensures
        0 <= wrap(i - b, m) < m,
        wrap(wrap(i - 1, m) - b, m) == (if wrap(i - b, m) == 0 {
            m - 1
        } else {
            wrap(i - b, m) - 1
        }),
        wrap(wrap(i + 1, m) - b, m) == (if wrap(i - b, m) == m - 1 {
            0int
        } else {
            wrap(i - b, m) + 1
        }),
{
    let u = wrap(i - b, m);
    lemma_wrap_range(i - b, m);
    lemma_wrap_shift(i - 1, -b, m);
    lemma_wrap_shift(i - b, -1, m);
    lemma_wrap_shift(i + 1, -b, m);
    lemma_wrap_shift(i - b, 1, m);
    lemma_wrap_step(i, m);
    lemma_wrap_step(u, m);
}

/// The first glider phase, as stamped: offsets (0,0), (2,0), (2,1), (1,1)
/// and (1,2) from the anchor.
pub open spec fn glider_phase0(u: int, v: int) -> bool {
    ||| (u == 0 && v == 0)
    ||| (u == 2 && v == 0)
    ||| (u == 2 && v == 1)
    ||| (u == 1 && v == 1)
    ||| (u == 1 && v == 2)
}

/// The second glider phase: offsets (2,0), (0,1), (2,1), (1,2) and (2,2).
pub open spec fn glider_phase1(u: int, v: int) -> bool {
    ||| (u == 2 && v == 0)
    ||| (u == 0 && v == 1)
    ||| (u == 2 && v == 1)
    ||| (u == 1 && v == 2)
    ||| (u == 2 && v == 2)
}

/// The third glider phase: offsets (1,0), (2,1), (3,1), (1,2) and (2,2).
pub open spec fn glider_phase2(u: int, v: int) -> bool {
    ||| (u == 1 && v == 0)
    ||| (u == 2 && v == 1)
    ||| (u == 3 && v == 1)
    ||| (u == 1 && v == 2)
    ||| (u == 2 && v == 2)
}

/// The fourth glider phase: offsets (2,0), (3,1), (1,2), (2,2) and (3,2).
pub open spec fn glider_phase3(u: int, v: int) -> bool {
    ||| (u == 2 && v == 0)
    ||| (u == 3 && v == 1)
    ||| (u == 1 && v == 2)
    ||| (u == 2 && v == 2)
    ||| (u == 3 && v == 2)
}

/// The grid holds exactly the glider cells that `pattern` selects by their
/// toroidal offset from the anchor `(ax, ay)`, and every other cell is
/// dead.
pub open spec fn holds_pattern(
    g: Grid,
    pattern: spec_fn(int, int) -> bool,
    ax: int,
    ay: int,
) -> bool {
    forall|i: int, j: int|
        g.in_bounds(i, j) ==> g.cell(i, j) == pattern(
            wrap(i - ax, g.spec_width()),
            wrap(j - ay, g.spec_height()),
        )
}

/// One generation step carries the first glider phase into the second.
#[verifier::rlimit(100)]
proof fn lemma_glider_step0(pre: Grid, post: Grid, ax: int, ay: int)
    requires
        6 <= pre.spec_width(),
        6 <= pre.spec_height(),
        holds_pattern(pre, |u: int, v: int| glider_phase0(u, v), ax, ay),
        tick_effect(pre, post),
    ensures
        post.spec_width() == pre.spec_width(),
        post.spec_height() == pre.spec_height(),
        holds_pattern(post, |u: int, v: int| glider_phase1(u, v), ax, ay),
{
    let w = pre.spec_width();
    let h = pre.spec_height();
    assert forall|i: int, j: int| post.in_bounds(i, j) implies post.cell(i, j) == glider_phase1(
        wrap(i - ax, w),
        wrap(j - ay, h),
    ) by {
        lemma_wrap_range(i - 1, w);
        lemma_wrap_range(i + 1, w);
        lemma_wrap_range(j - 1, h);
        lemma_wrap_range(j + 1, h);
        lemma_offset_window(ax, i, w);
        lemma_offset_window(ay, j, h);
    }
}


/// One generation step carries the second glider phase into the third.
#[verifier::rlimit(100)]
proof fn lemma_glider_step1(pre: Grid, post: Grid, ax: int, ay: int)
    requires
        6 <= pre.spec_width(),
        6 <= pre.spec_height(),
        holds_pattern(pre, |u: int, v: int| glider_phase1(u, v), ax, ay),
        tick_effect(pre, post),
    ensures
        post.spec_width() == pre.spec_width(),
        post.spec_height() == pre.spec_height(),
        holds_pattern(post, |u: int, v: int| glider_phase2(u, v), ax, ay),
{
    let w = pre.spec_width();
    let h = pre.spec_height();
    assert forall|i: int, j: int| post.in_bounds(i, j) implies post.cell(i, j) == glider_phase2(
        wrap(i - ax, w),
        wrap(j - ay, h),
    ) by {
        lemma_wrap_range(i - 1, w);
        lemma_wrap_range(i + 1, w);
        lemma_wrap_range(j - 1, h);
        lemma_wrap_range(j + 1, h);
        lemma_offset_window(ax, i, w);
        lemma_offset_window(ay, j, h);
    }
}

/// One generation step carries the third glider phase into the fourth.
#[verifier::rlimit(100)]
proof fn lemma_glider_step2(pre: Grid, post: Grid, ax: int, ay: int)
    requires
        6 <= pre.spec_width(),
        6 <= pre.spec_height(),
        holds_pattern(pre, |u: int, v: int| glider_phase2(u, v), ax, ay),
        tick_effect(pre, post),
    ensures
        post.spec_width() == pre.spec_width(),
        post.spec_height() == pre.spec_height(),
        holds_pattern(post, |u: int, v: int| glider_phase3(u, v), ax, ay),
{
    let w = pre.spec_width();
    let h = pre.spec_height();
    assert forall|i: int, j: int| post.in_bounds(i, j) implies post.cell(i, j) == glider_phase3(
        wrap(i - ax, w),
        wrap(j - ay, h),
    ) by {
        lemma_wrap_range(i - 1, w);
        lemma_wrap_range(i + 1, w);
        lemma_wrap_range(j - 1, h);
        lemma_wrap_range(j + 1, h);
        lemma_offset_window(ax, i, w);
        lemma_offset_window(ay, j, h);
    }
}

/// One generation step carries the fourth glider phase into the first
/// phase again, anchored one cell further along both axes.
#[verifier::rlimit(100)]
proof fn lemma_glider_step3(pre: Grid, post: Grid, ax: int, ay: int)
    requires
        6 <= pre.spec_width(),
        6 <= pre.spec_height(),
        holds_pattern(pre, |u: int, v: int| glider_phase3(u, v), ax, ay),
        tick_effect(pre, post),
    ensures
        post.spec_width() == pre.spec_width(),
        post.spec_height() == pre.spec_height(),
        holds_pattern(post, |u: int, v: int| glider_phase0(u, v), ax + 1, ay + 1),
{
    let w = pre.spec_width();
    let h = pre.spec_height();
    assert forall|i: int, j: int| post.in_bounds(i, j) implies post.cell(i, j) == glider_phase0(
        wrap(i - (ax + 1), w),
        wrap(j - (ay + 1), h),
    ) by {
        lemma_wrap_range(i - 1, w);
        lemma_wrap_range(i + 1, w);
        lemma_wrap_range(j - 1, h);
        lemma_wrap_range(j + 1, h);
        lemma_offset_window(ax, i, w);
        lemma_offset_window(ay, j, h);
        lemma_wrap_shift(i - ax, -1, w);
        lemma_wrap_step(wrap(i - ax, w), w);
        lemma_wrap_shift(j - ay, -1, h);
        lemma_wrap_step(wrap(j - ay, h), h);
    }
}

/// Law: stamping a glider onto a fully dead grid leaves exactly the first
/// glider phase anchored at the stamp position.
pub proof fn lemma_stamp_glider_phase0(pre: Grid, post: Grid, x: int, y: int)
    requires
        3 <= pre.spec_width(),
        3 <= pre.spec_height(),
        forall|i: int, j: int| pre.in_bounds(i, j) ==> !pre.cell(i, j),
        crate::grid::glider_effect(pre, post, x, y),
    ensures
        post.spec_width() == pre.spec_width(),
        post.spec_height() == pre.spec_height(),
        holds_pattern(post, |u: int, v: int| glider_phase0(u, v), x, y),
{
    let w = pre.spec_width();
    let h = pre.spec_height();
    assert forall|i: int, j: int| post.in_bounds(i, j) implies post.cell(i, j) == glider_phase0(
        wrap(i - x, w),
        wrap(j - y, h),
    ) by {
        lemma_wrap_identity(i, w);
        lemma_wrap_identity(j, h);
        lemma_wrap_identity(0, w);
        lemma_wrap_identity(1, w);
        lemma_wrap_identity(2, w);
        lemma_wrap_identity(0, h);
        lemma_wrap_identity(1, h);
        lemma_wrap_identity(2, h);
        lemma_wrap_shift_eq(i - x, 0, x, w);
        lemma_wrap_shift_eq(i - x, 1, x, w);
        lemma_wrap_shift_eq(i - x, 2, x, w);
        lemma_wrap_shift_eq(j - y, 0, y, h);
        lemma_wrap_shift_eq(j - y, 1, y, h);
        lemma_wrap_shift_eq(j - y, 2, y, h);
    }
}

/// Law: on a grid at least six cells wide and tall that holds exactly a
/// freshly stamped glider, four generation steps reproduce the same glider
/// shape anchored one cell further along both axes — the glider travels
/// diagonally by (+1, +1), modulo the extent, every four generations.
pub proof fn lemma_glider_translation(
    g0: Grid,
    g1: Grid,
    g2: Grid,
    g3: Grid,
    g4: Grid,
    x: int,
    y: int,
)
    requires
        6 <= g0.spec_width(),
        6 <= g0.spec_height(),
        holds_pattern(g0, |u: int, v: int| glider_phase0(u, v), x, y),
        tick_effect(g0, g1),
        tick_effect(g1, g2),
        tick_effect(g2, g3),
        tick_effect(g3, g4),
    ensures
        g4.spec_width() == g0.spec_width(),
        g4.spec_height() == g0.spec_height(),
        holds_pattern(g4, |u: int, v: int| glider_phase0(u, v), x + 1, y + 1),
{
    lemma_glider_step0(g0, g1, x, y);
    lemma_glider_step1(g1, g2, x, y);
    lemma_glider_step2(g2, g3, x, y);
    lemma_glider_step3(g3, g4, x, y);
}

} // verus!
