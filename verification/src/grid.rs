//! The grid engine: a toroidal, double-buffered Game-of-Life board.
//!
//! The board owns two same-shaped boolean buffers. A generation step reads
//! the current buffer, writes the scratch buffer, and then exchanges the two
//! in O(1), so the steady state allocates nothing. Editing operations
//! (toggle, pattern stamps, randomize, clear) work on the current buffer;
//! `resize` replaces both buffers and keeps the overlapping region.

use vstd::prelude::*;
use vstd::arithmetic::div_mod::lemma_fundamental_div_mod_converse;
use crate::rule::life_rule;
use crate::rule::next_state;
use crate::torus::wrap;
use crate::torus::lemma_wrap_range;
use crate::torus::lemma_wrap_shift;
use crate::torus::lemma_wrap_step;

verus! {

/// The ways a grid operation can reject its arguments.
#[derive(Clone, Copy, Debug, PartialEq, Eq, Structural)]
pub enum GridError {
    /// A construction or resize was asked for a zero width or height.
    InvalidDimension,
    /// A coordinate lies outside the current grid extent.
    OutOfBounds,
}

/// Counts a cell as one when alive and zero when dead.
pub open spec fn count_alive(b: bool) -> int {
    if b {
        1
    } else {
        0
    }
}

/// The entry of a flat column-major cell vector with `h` rows at column
/// `i`, row `j`.
spec fn cell_at(s: Seq<bool>, h: int, i: int, j: int) -> bool {
    s[i * h + j]
}

/// Position `(x, y)` lands exactly on flat index `x * h + y`; two distinct
/// in-range positions land on distinct indices.
proof fn lemma_flat_inj(x: int, y: int, i: int, j: int, h: int)
    requires
        0 < h,
        0 <= y < h,
        0 <= j < h,
        x * h + y == i * h + j,
    ensures
        x == i && y == j,
{
    lemma_fundamental_div_mod_converse(x * h + y, h, x, y);
    lemma_fundamental_div_mod_converse(i * h + j, h, i, j);
}

/// The flat index of an in-range position lies below `w * h`.
proof fn lemma_flat_bound(x: int, y: int, w: int, h: int)
    requires
        0 <= x < w,
        0 <= y < h,
    ensures
        0 <= x * h + y < w * h,
{
    assert(0 <= x * h + y < w * h) by (nonlinear_arith)
        requires
            0 <= x < w,
            0 <= y < h,
    ;
}

/// A toroidal Game-of-Life board with a current buffer and a same-shaped
/// scratch buffer. Cells are stored column-major: column `x`, row `y` lives
/// at flat index `x * height + y`.
#[derive(Debug)]
pub struct Grid {
    width: usize,
    height: usize,
    cells: Vec<bool>,
    buffer: Vec<bool>,
}

impl Grid {
    /// The number of columns.
    pub closed spec fn spec_width(self) -> int {
        self.width as int
    }

    /// The number of rows.
    pub closed spec fn spec_height(self) -> int {
        self.height as int
    }

    /// Well-formed: both extents are positive and both buffers hold exactly
    /// one entry per cell.
    pub closed spec fn wf(self) -> bool {
        &&& 0 < self.width
        &&& 0 < self.height
        &&& self.cells.len() == self.spec_width() * self.spec_height()
        &&& self.buffer.len() == self.spec_width() * self.spec_height()
    }

    /// Whether `(x, y)` lies within the grid extent.
    pub open spec fn in_bounds(self, x: int, y: int) -> bool {
        0 <= x < self.spec_width() && 0 <= y < self.spec_height()
    }

    /// The alive state of the cell at column `x`, row `y` of the current
    /// generation.
    pub closed spec fn cell(self, x: int, y: int) -> bool {
        self.cells[x * self.spec_height() + y]
    }

    /// The contents of the scratch buffer at column `x`, row `y`.
    pub closed spec fn buf_cell(self, x: int, y: int) -> bool {
        self.buffer[x * self.spec_height() + y]
    }

    /// The number of alive cells among the eight toroidal neighbors of
    /// `(x, y)`: right, left, up, down and the four diagonals, with each
    /// coordinate wrapped modulo the grid extent.
    pub open spec fn neighbor_count(self, x: int, y: int) -> int
        recommends
            self.wf(),
            self.in_bounds(x, y),
    {
        let w = self.spec_width();
        let h = self.spec_height();
        count_alive(self.cell(wrap(x + 1, w), y))
            + count_alive(self.cell(wrap(x - 1, w), y))
            + count_alive(self.cell(x, wrap(y - 1, h)))
            + count_alive(self.cell(x, wrap(y + 1, h)))
            + count_alive(self.cell(wrap(x - 1, w), wrap(y - 1, h)))
            + count_alive(self.cell(wrap(x - 1, w), wrap(y + 1, h)))
            + count_alive(self.cell(wrap(x + 1, w), wrap(y + 1, h)))
            + count_alive(self.cell(wrap(x + 1, w), wrap(y - 1, h)))
    }

    /// The flat index of `(x, y)`.
    fn idx(&self, x: usize, y: usize) -> (i: usize)
        requires
            self.wf(),
            self.in_bounds(x as int, y as int),
        ensures
            i == x as int * self.spec_height() + y as int,
            i < self.cells@.len(),
            i < self.buffer@.len(),
    {
        let n = self.cells.len();
        proof {
            lemma_flat_bound(x as int, y as int, self.spec_width(), self.spec_height());
            assert((x as int) * self.spec_height() + (y as int) < (n as int));
        }
        x * self.height + y
    }

    /// Reads the current-generation cell at `(x, y)`.
    fn get(&self, x: usize, y: usize) -> (b: bool)
        requires
            self.wf(),
            self.in_bounds(x as int, y as int),
        ensures
            b == self.cell(x as int, y as int),
    {
        let i = self.idx(x, y);
        self.cells[i]
    }

    /// Writes the current-generation cell at `(x, y)`, leaving every other
    /// cell and the whole scratch buffer as they were.
    fn set_cell(&mut self, x: usize, y: usize, v: bool)
        requires
            old(self).wf(),
            old(self).in_bounds(x as int, y as int),
        ensures
            final(self).wf(),
            final(self).spec_width() == old(self).spec_width(),
            final(self).spec_height() == old(self).spec_height(),
            final(self).cell(x as int, y as int) == v,
            forall|i: int, j: int|
                old(self).in_bounds(i, j) && !(i == x as int && j == y as int)
                    ==> final(self).cell(i, j) == old(self).cell(i, j),
            forall|i: int, j: int|
                old(self).in_bounds(i, j)
                    ==> final(self).buf_cell(i, j) == old(self).buf_cell(i, j),
    {
        let k = self.idx(x, y);
        self.cells[k] = v;
        proof {
            let h = old(self).spec_height();
            assert forall|i: int, j: int|
                old(self).in_bounds(i, j) && !(i == x as int && j == y as int)
                    implies self.cell(i, j) == old(self).cell(i, j) by {
                lemma_flat_bound(i, j, old(self).spec_width(), h);
                lemma_flat_bound(x as int, y as int, old(self).spec_width(), h);
                if i * h + j == x as int * h + y as int {
                    lemma_flat_inj(i, j, x as int, y as int, h);
                }
            }
        }
    }

    /// Writes the scratch-buffer cell at `(x, y)`, leaving every other
    /// scratch cell and the whole current buffer as they were.
    fn set_buf(&mut self, x: usize, y: usize, v: bool)
        requires
            old(self).wf(),
            old(self).in_bounds(x as int, y as int),
        ensures
            final(self).wf(),
            final(self).spec_width() == old(self).spec_width(),
            final(self).spec_height() == old(self).spec_height(),
            final(self).cells@ == old(self).cells@,
            final(self).buf_cell(x as int, y as int) == v,
            forall|i: int, j: int|
                old(self).in_bounds(i, j) && !(i == x as int && j == y as int)
                    ==> final(self).buf_cell(i, j) == old(self).buf_cell(i, j),
    {
        let k = self.idx(x, y);
        self.buffer[k] = v;
        proof {
            let h = old(self).spec_height();
            assert forall|i: int, j: int|
                old(self).in_bounds(i, j) && !(i == x as int && j == y as int)
                    implies self.buf_cell(i, j) == old(self).buf_cell(i, j) by {
                lemma_flat_bound(i, j, old(self).spec_width(), h);
                lemma_flat_bound(x as int, y as int, old(self).spec_width(), h);
                if i * h + j == x as int * h + y as int {
                    lemma_flat_inj(i, j, x as int, y as int, h);
                }
            }
        }
    }

    /// A fully dead cell vector of the given length.
    fn new_dead_cells(n: usize) -> (v: Vec<bool>)
        ensures
            v@.len() == n,
            forall|i: int| 0 <= i < n ==> !v@[i],
    {
        let mut v: Vec<bool> = Vec::new();
        while v.len() < n
            invariant
                v@.len() <= n,
                forall|i: int| 0 <= i < v@.len() ==> !v@[i],
            decreases n - v@.len(),
        {
            v.push(false);
        }
        v
    }

    /// Builds a grid of the given extents with every cell of both buffers
    /// dead. Rejects a zero width or height with `InvalidDimension`.
    pub fn new(width: usize, height: usize) -> (r: Result<Grid, GridError>)
        requires
            width as int * height as int <= usize::MAX as int,
        ensures
            match r {
                Ok(g) => {
                    &&& width > 0 && height > 0
                    &&& g.wf()
                    &&& g.spec_width() == width
                    &&& g.spec_height() == height
                    &&& forall|x: int, y: int|
                        g.in_bounds(x, y) ==> !g.cell(x, y) && !g.buf_cell(x, y)
                },
                Err(e) => (width == 0 || height == 0) && e == GridError::InvalidDimension,
            },
    {
        if width == 0 || height == 0 {
            return Err(GridError::InvalidDimension);
        }
        let n = width * height;
        let g = Grid {
            width,
            height,
            cells: Self::new_dead_cells(n),
            buffer: Self::new_dead_cells(n),
        };
        proof {
            assert forall|x: int, y: int|
                g.in_bounds(x, y) implies !g.cell(x, y) && !g.buf_cell(x, y) by {
                lemma_flat_bound(x, y, g.spec_width(), g.spec_height());
            }
        }
        Ok(g)
    }

    /// The current extents as `(width, height)`.
    pub fn dimensions(&self) -> (r: (usize, usize))
        ensures
            r.0 == self.spec_width(),
            r.1 == self.spec_height(),
    {
        (self.width, self.height)
    }

    /// Reads the cell at `(x, y)` of the current generation, rejecting an
    /// out-of-range coordinate with `OutOfBounds`.
    pub fn query(&self, x: usize, y: usize) -> (r: Result<bool, GridError>)
        requires
            self.wf(),
        ensures
            match r {
                Ok(b) => self.in_bounds(x as int, y as int) && b == self.cell(x as int, y as int),
                Err(e) => !self.in_bounds(x as int, y as int) && e == GridError::OutOfBounds,
            },
    {
        if x >= self.width || y >= self.height {
            return Err(GridError::OutOfBounds);
        }
        Ok(self.get(x, y))
    }
}

/// One generation step: the post-grid has the same shape, and every cell of
/// the post-grid holds the transition rule applied to that cell of the
/// pre-grid and its toroidal neighbor count in the pre-grid.
pub open spec fn tick_effect(pre: Grid, post: Grid) -> bool {
    &&& post.spec_width() == pre.spec_width()
    &&& post.spec_height() == pre.spec_height()
    &&& forall|x: int, y: int|
        pre.in_bounds(x, y) ==> post.cell(x, y) == life_rule(
            pre.cell(x, y),
            pre.neighbor_count(x, y),
        )
}

/// A toggle at `(x, y)`: that cell is flipped, every other cell and the
/// whole scratch buffer keep their state, and the shape is unchanged.
pub open spec fn toggle_effect(pre: Grid, post: Grid, x: int, y: int) -> bool {
    &&& post.spec_width() == pre.spec_width()
    &&& post.spec_height() == pre.spec_height()
    &&& post.cell(x, y) == !pre.cell(x, y)
    &&& forall|i: int, j: int|
        pre.in_bounds(i, j) && !(i == x && j == y) ==> post.cell(i, j) == pre.cell(i, j)
    &&& forall|i: int, j: int|
        pre.in_bounds(i, j) ==> post.buf_cell(i, j) == pre.buf_cell(i, j)
}

/// Relies on `rand::random`: draws one uniformly distributed boolean;
/// nothing is assumed about the value drawn.
#[verifier::external_body]
fn random_cell() -> bool {
    rand::random::<bool>()
}

impl Grid {
    /// Counts the alive cells among the eight toroidal neighbors of
    /// `(x, y)`.
    #[verifier::rlimit(50)]
    fn neighbors(&self, x: usize, y: usize) -> (n: u8)
        requires
            self.wf(),
            self.in_bounds(x as int, y as int),
        ensures
            n as int == self.neighbor_count(x as int, y as int),
    {
        let w = self.width;
        let h = self.height;
        let xp1 = if x + 1 == w { 0 } else { x + 1 };
        let xm1 = if x == 0 { w - 1 } else { x - 1 };
        let yp1 = if y + 1 == h { 0 } else { y + 1 };
        let ym1 = if y == 0 { h - 1 } else { y - 1 };
        proof {
            lemma_wrap_step(x as int, w as int);
            lemma_wrap_step(y as int, h as int);
        }
        let n1: u8 = if self.get(xp1, y) { 1 } else { 0 };
        let n2: u8 = if self.get(xm1, y) { 1 } else { 0 };
        let n3: u8 = if self.get(x, ym1) { 1 } else { 0 };
        let n4: u8 = if self.get(x, yp1) { 1 } else { 0 };
        let n5: u8 = if self.get(xm1, ym1) { 1 } else { 0 };
        let n6: u8 = if self.get(xm1, yp1) { 1 } else { 0 };
        let n7: u8 = if self.get(xp1, yp1) { 1 } else { 0 };
        let n8: u8 = if self.get(xp1, ym1) { 1 } else { 0 };
        proof {
            let w = self.spec_width();
            let h = self.spec_height();
            assert(n1 == count_alive(self.cell(wrap(x as int + 1, w), y as int)));
            assert(n2 == count_alive(self.cell(wrap(x as int - 1, w), y as int)));
            assert(n3 == count_alive(self.cell(x as int, wrap(y as int - 1, h))));
            assert(n4 == count_alive(self.cell(x as int, wrap(y as int + 1, h))));
            assert(n5 == count_alive(self.cell(wrap(x as int - 1, w), wrap(y as int - 1, h))));
            assert(n6 == count_alive(self.cell(wrap(x as int - 1, w), wrap(y as int + 1, h))));
            assert(n7 == count_alive(self.cell(wrap(x as int + 1, w), wrap(y as int + 1, h))));
            assert(n8 == count_alive(self.cell(wrap(x as int + 1, w), wrap(y as int - 1, h))));
        }
        n1 + n2 + n3 + n4 + n5 + n6 + n7 + n8
    }

    /// Advances the grid by one generation. Every cell of the new current
    /// buffer is the transition rule applied to the old generation; the old
    /// current buffer becomes the new scratch buffer through an O(1)
    /// exchange, so the step allocates nothing.
    pub fn tick(&mut self)
        requires
            old(self).wf(),
        ensures
            final(self).wf(),
            tick_effect(*old(self), *final(self)),
            forall|x: int, y: int|
                old(self).in_bounds(x, y) ==> final(self).buf_cell(x, y) == old(self).cell(x, y),
    {
        let w = self.width;
        let h = self.height;
        let mut x: usize = 0;
        while x < w
            invariant
                self.wf(),
                self.width == old(self).width,
                self.height == old(self).height,
                self.cells@ == old(self).cells@,
                w == self.width,
                h == self.height,
                x <= w,
                forall|i: int, j: int|
                    0 <= i < x as int && 0 <= j < h as int ==> self.buf_cell(i, j) == life_rule(
                        old(self).cell(i, j),
                        old(self).neighbor_count(i, j),
                    ),
            decreases w - x,
        {
            let mut y: usize = 0;
            while y < h
                invariant
                    self.wf(),
                    self.width == old(self).width,
                    self.height == old(self).height,
                    self.cells@ == old(self).cells@,
                    w == self.width,
                    h == self.height,
                    x < w,
                    y <= h,
                    forall|i: int, j: int|
                        0 <= i < x as int && 0 <= j < h as int ==> self.buf_cell(i, j)
                            == life_rule(
                            old(self).cell(i, j),
                            old(self).neighbor_count(i, j),
                        ),
                    forall|j: int|
                        0 <= j < y as int ==> self.buf_cell(x as int, j) == life_rule(
                            old(self).cell(x as int, j),
                            old(self).neighbor_count(x as int, j),
                        ),
                decreases h - y,
            {
                let n = self.neighbors(x, y);
                let alive = self.get(x, y);
                let v = next_state(alive, n);
                self.set_buf(x, y, v);
                y += 1;
            }
            x += 1;
        }
        let ghost mid = *self;
        std::mem::swap(&mut self.cells, &mut self.buffer);
        proof {
            assert forall|a: int, b: int| old(self).in_bounds(a, b) implies self.cell(a, b)
                == life_rule(old(self).cell(a, b), old(self).neighbor_count(a, b)) && self.buf_cell(
                a,
                b,
            ) == old(self).cell(a, b) by {
                assert(mid.buf_cell(a, b) == life_rule(
                    old(self).cell(a, b),
                    old(self).neighbor_count(a, b),
                ));
                assert(self.cell(a, b) == mid.buf_cell(a, b));
                assert(self.buf_cell(a, b) == mid.cell(a, b));
            }
        }
    }

    /// Sets every cell of both buffers to dead.
    pub fn clear(&mut self)
        requires
            old(self).wf(),
        ensures
            final(self).wf(),
            final(self).spec_width() == old(self).spec_width(),
            final(self).spec_height() == old(self).spec_height(),
            forall|x: int, y: int|
                final(self).in_bounds(x, y) ==> !final(self).cell(x, y) && !final(self).buf_cell(
                    x,
                    y,
                ),
    {
        let n = self.cells.len();
        let mut k: usize = 0;
        while k < n
            invariant
                self.wf(),
                self.width == old(self).width,
                self.height == old(self).height,
                n == self.cells@.len(),
                n == self.buffer@.len(),
                k <= n,
                forall|i: int| 0 <= i < k as int ==> !self.cells@[i] && !self.buffer@[i],
            decreases n - k,
        {
            self.cells[k] = false;
            self.buffer[k] = false;
            k += 1;
        }
        proof {
            assert forall|x: int, y: int|
                self.in_bounds(x, y) implies !self.cell(x, y) && !self.buf_cell(x, y) by {
                lemma_flat_bound(x, y, self.spec_width(), self.spec_height());
            }
        }
    }

    /// Sets every cell of the current buffer to an independently drawn
    /// random boolean; the scratch buffer is not touched.
    pub fn randomize(&mut self)
        requires
            old(self).wf(),
        ensures
            final(self).wf(),
            final(self).spec_width() == old(self).spec_width(),
            final(self).spec_height() == old(self).spec_height(),
            forall|x: int, y: int|
                old(self).in_bounds(x, y) ==> final(self).buf_cell(x, y) == old(self).buf_cell(
                    x,
                    y,
                ),
    {
        let n = self.cells.len();
        let mut k: usize = 0;
        while k < n
            invariant
                self.wf(),
                self.width == old(self).width,
                self.height == old(self).height,
                self.buffer@ == old(self).buffer@,
                n == self.cells@.len(),
                k <= n,
            decreases n - k,
        {
            let v = random_cell();
            self.cells[k] = v;
            k += 1;
        }
    }

    /// Flips the cell at `(x, y)`, rejecting an out-of-range coordinate with
    /// `OutOfBounds` and leaving the grid unchanged in that case.
    pub fn toggle(&mut self, x: usize, y: usize) -> (r: Result<(), GridError>)
        requires
            old(self).wf(),
        ensures
            final(self).wf(),
            match r {
                Ok(_) => old(self).in_bounds(x as int, y as int) && toggle_effect(
                    *old(self),
                    *final(self),
                    x as int,
                    y as int,
                ),
                Err(e) => {
                    &&& !old(self).in_bounds(x as int, y as int)
                    &&& e == GridError::OutOfBounds
                    &&& *final(self) == *old(self)
                },
            },
    {
        if x >= self.width || y >= self.height {
            return Err(GridError::OutOfBounds);
        }
        let b = self.get(x, y);
        self.set_cell(x, y, !b);
        Ok(())
    }
}

/// Law: toggling the same cell twice in succession returns every cell of
/// the grid — and the scratch buffer — to its original state.
pub proof fn lemma_toggle_involution(g0: Grid, g1: Grid, g2: Grid, x: int, y: int)
    requires
        g0.in_bounds(x, y),
        toggle_effect(g0, g1, x, y),
        toggle_effect(g1, g2, x, y),
    ensures
        g2.spec_width() == g0.spec_width(),
        g2.spec_height() == g0.spec_height(),
        forall|i: int, j: int| g0.in_bounds(i, j) ==> g2.cell(i, j) == g0.cell(i, j),
        forall|i: int, j: int| g0.in_bounds(i, j) ==> g2.buf_cell(i, j) == g0.buf_cell(i, j),
{
}


/// The five cells a glider stamp at anchor `(x, y)` turns alive: the anchor
/// plus the relative offsets (2,0), (2,1), (1,1) and (1,2), every
/// coordinate wrapped modulo the grid extent.
pub open spec fn glider_target(x: int, y: int, w: int, h: int, i: int, j: int) -> bool {
    ||| (i == wrap(x, w) && j == wrap(y, h))
    ||| (i == wrap(x + 2, w) && j == wrap(y, h))
    ||| (i == wrap(x + 2, w) && j == wrap(y + 1, h))
    ||| (i == wrap(x + 1, w) && j == wrap(y + 1, h))
    ||| (i == wrap(x + 1, w) && j == wrap(y + 2, h))
}

/// A glider stamp: the five target cells become alive, every other cell and
/// the whole scratch buffer keep their state, and the shape is unchanged.
pub open spec fn glider_effect(pre: Grid, post: Grid, x: int, y: int) -> bool {
    &&& post.spec_width() == pre.spec_width()
    &&& post.spec_height() == pre.spec_height()
    &&& forall|i: int, j: int|
        pre.in_bounds(i, j) ==> post.cell(i, j) == (glider_target(
            x,
            y,
            pre.spec_width(),
            pre.spec_height(),
            i,
            j,
        ) || pre.cell(i, j))
    &&& forall|i: int, j: int|
        pre.in_bounds(i, j) ==> post.buf_cell(i, j) == pre.buf_cell(i, j)
}

/// How many of the three cells a line stamp at `(x, y)` toggles — the
/// anchor and its left and right neighbors, wrapped modulo the extent —
/// coincide with `(i, j)`. On an axis of extent below three the three
/// positions can collide, so a cell may be toggled more than once.
pub open spec fn line_flips(x: int, y: int, w: int, h: int, i: int, j: int) -> int {
    (if i == wrap(x - 1, w) && j == wrap(y, h) {
        1int
    } else {
        0int
    }) + (if i == wrap(x, w) && j == wrap(y, h) {
        1int
    } else {
        0int
    }) + (if i == wrap(x + 1, w) && j == wrap(y, h) {
        1int
    } else {
        0int
    })
}

/// A line stamp: each cell changes exactly when it coincides with an odd
/// number of the three toggled positions; the scratch buffer and the shape
/// are unchanged.
pub open spec fn line_effect(pre: Grid, post: Grid, x: int, y: int) -> bool {
    &&& post.spec_width() == pre.spec_width()
    &&& post.spec_height() == pre.spec_height()
    &&& forall|i: int, j: int|
        pre.in_bounds(i, j) ==> post.cell(i, j) == (pre.cell(i, j) != (line_flips(
            x,
            y,
            pre.spec_width(),
            pre.spec_height(),
            i,
            j,
        ) % 2 == 1))
    &&& forall|i: int, j: int|
        pre.in_bounds(i, j) ==> post.buf_cell(i, j) == pre.buf_cell(i, j)
}

impl Grid {
    /// Reads the scratch-buffer cell at `(x, y)`.
    fn get_buf(&self, x: usize, y: usize) -> (b: bool)
        requires
            self.wf(),
            self.in_bounds(x as int, y as int),
        ensures
            b == self.buf_cell(x as int, y as int),
    {
        let i = self.idx(x, y);
        self.buffer[i]
    }

    /// Replaces both buffers with freshly zeroed buffers of the new shape,
    /// copying the overlapping region of each at the coordinate origin; a
    /// grown grid gains dead cells, a shrunk grid drops the cells outside
    /// the new bounds. Rejects a zero width or height with
    /// `InvalidDimension` and leaves the grid unchanged in that case.
    pub fn resize(&mut self, width: usize, height: usize) -> (r: Result<(), GridError>)
        requires
            old(self).wf(),
            width as int * height as int <= usize::MAX as int,
        ensures
            match r {
                Ok(_) => {
                    &&& width > 0 && height > 0
                    &&& final(self).wf()
                    &&& final(self).spec_width() == width
                    &&& final(self).spec_height() == height
                    &&& forall|x: int, y: int|
                        final(self).in_bounds(x, y) ==> final(self).cell(x, y) == (old(
                            self,
                        ).in_bounds(x, y) && old(self).cell(x, y))
                    &&& forall|x: int, y: int|
                        final(self).in_bounds(x, y) ==> final(self).buf_cell(x, y) == (old(
                            self,
                        ).in_bounds(x, y) && old(self).buf_cell(x, y))
                },
                Err(e) => {
                    &&& (width == 0 || height == 0)
                    &&& e == GridError::InvalidDimension
                    &&& *final(self) == *old(self)
                },
            },
    {
        if width == 0 || height == 0 {
            return Err(GridError::InvalidDimension);
        }
        let n = width * height;
        let mut new_cells = Self::new_dead_cells(n);
        let mut new_buffer = Self::new_dead_cells(n);
        let xs = if self.width < width {
            self.width
        } else {
            width
        };
        let ys = if self.height < height {
            self.height
        } else {
            height
        };
        proof {
            assert forall|i: int, j: int|
                0 <= i < width as int && 0 <= j < height as int implies !cell_at(
                new_cells@,
                height as int,
                i,
                j,
            ) && !cell_at(new_buffer@, height as int, i, j) by {
                lemma_flat_bound(i, j, width as int, height as int);
            }
        }
        let mut x: usize = 0;
        while x < xs
            invariant
                self.wf(),
                *self == *old(self),
                0 < width,
                0 < height,
                n == width as int * height as int,
                xs as int == if self.spec_width() < width as int {
                    self.spec_width()
                } else {
                    width as int
                },
                ys as int == if self.spec_height() < height as int {
                    self.spec_height()
                } else {
                    height as int
                },
                new_cells@.len() == n,
                new_buffer@.len() == n,
                x <= xs,
                forall|i: int, j: int|
                    0 <= i < x as int && 0 <= j < ys as int
                        ==> cell_at(new_cells@, height as int, i, j) == self.cell(i, j)
                            && cell_at(new_buffer@, height as int, i, j) == self.buf_cell(i, j),
                forall|i: int, j: int|
                    0 <= i < width as int && 0 <= j < height as int
                        && !(i < x as int && j < ys as int)
                        ==> !cell_at(new_cells@, height as int, i, j)
                            && !cell_at(new_buffer@, height as int, i, j),
            decreases xs - x,
        {
            let mut y: usize = 0;
            while y < ys
                invariant
                    self.wf(),
                    *self == *old(self),
                    0 < width,
                    0 < height,
                    n == width as int * height as int,
                    xs as int == if self.spec_width() < width as int {
                        self.spec_width()
                    } else {
                        width as int
                    },
                    ys as int == if self.spec_height() < height as int {
                        self.spec_height()
                    } else {
                        height as int
                    },
                    new_cells@.len() == n,
                    new_buffer@.len() == n,
                    x < xs,
                    y <= ys,
                    forall|i: int, j: int|
                        0 <= i < x as int && 0 <= j < ys as int
                            ==> cell_at(new_cells@, height as int, i, j) == self.cell(i, j)
                                && cell_at(new_buffer@, height as int, i, j) == self.buf_cell(i, j),
                    forall|j: int|
                        0 <= j < y as int
                            ==> cell_at(new_cells@, height as int, x as int, j)
                                == self.cell(x as int, j)
                                && cell_at(new_buffer@, height as int, x as int, j)
                                == self.buf_cell(x as int, j),
                    forall|i: int, j: int|
                        0 <= i < width as int && 0 <= j < height as int
                            && !((i < x as int && j < ys as int) || (i == x as int && j < y as int))
                            ==> !cell_at(new_cells@, height as int, i, j)
                                && !cell_at(new_buffer@, height as int, i, j),
                decreases ys - y,
            {
                let v = self.get(x, y);
                let bv = self.get_buf(x, y);
                set_at(&mut new_cells, x, y, width, height, v);
                set_at(&mut new_buffer, x, y, width, height, bv);
                y += 1;
            }
            x += 1;
        }
        let ghost nc = new_cells@;
        let ghost nb = new_buffer@;
        self.width = width;
        self.height = height;
        self.cells = new_cells;
        self.buffer = new_buffer;
        proof {
            assert forall|x: int, y: int| self.in_bounds(x, y) implies self.cell(x, y) == (old(
                self,
            ).in_bounds(x, y) && old(self).cell(x, y)) && self.buf_cell(x, y) == (old(
                self,
            ).in_bounds(x, y) && old(self).buf_cell(x, y)) by {
                lemma_flat_bound(x, y, width as int, height as int);
                assert(self.cell(x, y) == cell_at(nc, height as int, x, y));
                assert(self.buf_cell(x, y) == cell_at(nb, height as int, x, y));
            }
        }
        Ok(())
    }

    /// Stamps a glider: turns the five glider cells anchored at `(x, y)`
    /// alive, each coordinate wrapped modulo the grid extent, so the stamp
    /// always succeeds.
    pub fn glider(&mut self, x: usize, y: usize)
        requires
            old(self).wf(),
        ensures
            final(self).wf(),
            glider_effect(*old(self), *final(self), x as int, y as int),
    {
        let w = self.width;
        let h = self.height;
        let x0 = x % w;
        let y0 = y % h;
        let xp1 = if x0 + 1 == w {
            0
        } else {
            x0 + 1
        };
        let xp2 = if xp1 + 1 == w {
            0
        } else {
            xp1 + 1
        };
        let yp1 = if y0 + 1 == h {
            0
        } else {
            y0 + 1
        };
        let yp2 = if yp1 + 1 == h {
            0
        } else {
            yp1 + 1
        };
        proof {
            lemma_wrap_range(x as int, w as int);
            lemma_wrap_range(y as int, h as int);
            lemma_wrap_step(x0 as int, w as int);
            lemma_wrap_step(y0 as int, h as int);
            lemma_wrap_shift(x as int, 1, w as int);
            lemma_wrap_shift(y as int, 1, h as int);
            lemma_wrap_step(xp1 as int, w as int);
            lemma_wrap_step(yp1 as int, h as int);
            lemma_wrap_shift(x as int + 1, 1, w as int);
            lemma_wrap_shift(y as int + 1, 1, h as int);
            assert(xp1 == wrap(x as int + 1, w as int));
            assert(yp1 == wrap(y as int + 1, h as int));
            assert(xp2 == wrap(x as int + 2, w as int));
            assert(yp2 == wrap(y as int + 2, h as int));
        }
        self.set_cell(x0, y0, true);
        self.set_cell(xp2, y0, true);
        self.set_cell(xp2, yp1, true);
        self.set_cell(xp1, yp1, true);
        self.set_cell(xp1, yp2, true);
    }

    /// Stamps a line: toggles the cell at `(x, y)` and its left and right
    /// neighbors, each coordinate wrapped modulo the grid extent, so the
    /// stamp always succeeds.
    pub fn line(&mut self, x: usize, y: usize)
        requires
            old(self).wf(),
        ensures
            final(self).wf(),
            line_effect(*old(self), *final(self), x as int, y as int),
    {
        let w = self.width;
        let h = self.height;
        let x0 = x % w;
        let y0 = y % h;
        let xp1 = if x0 + 1 == w {
            0
        } else {
            x0 + 1
        };
        let xm1 = if x0 == 0 {
            w - 1
        } else {
            x0 - 1
        };
        proof {
            lemma_wrap_range(x as int, w as int);
            lemma_wrap_range(y as int, h as int);
            lemma_wrap_step(x0 as int, w as int);
            lemma_wrap_shift(x as int, 1, w as int);
            lemma_wrap_shift(x as int, -1, w as int);
            assert(xp1 == wrap(x as int + 1, w as int));
            assert(xm1 == wrap(x as int - 1, w as int));
        }
        let b = self.get(xm1, y0);
        self.set_cell(xm1, y0, !b);
        let b = self.get(x0, y0);
        self.set_cell(x0, y0, !b);
        let b = self.get(xp1, y0);
        self.set_cell(xp1, y0, !b);
    }
}

/// Writes `val` at position `(x, y)` of a flat column-major cell vector of
/// shape `w` by `h`, leaving every other position unchanged.
fn set_at(v: &mut Vec<bool>, x: usize, y: usize, w: usize, h: usize, val: bool)
    requires
        old(v)@.len() == w as int * h as int,
        x < w,
        y < h,
    ensures
        final(v)@.len() == old(v)@.len(),
        cell_at(final(v)@, h as int, x as int, y as int) == val,
        forall|i: int, j: int|
            0 <= i < w as int && 0 <= j < h as int && !(i == x as int && j == y as int)
                ==> cell_at(final(v)@, h as int, i, j) == cell_at(old(v)@, h as int, i, j),
{
    let n = v.len();
    proof {
        lemma_flat_bound(x as int, y as int, w as int, h as int);
        assert((x as int) * (h as int) + (y as int) < (n as int));
    }
    let k = x * h + y;
    v[k] = val;
    proof {
        assert forall|i: int, j: int|
            0 <= i < w as int && 0 <= j < h as int && !(i == x as int && j == y as int)
                implies cell_at(v@, h as int, i, j) == cell_at(old(v)@, h as int, i, j) by {
            lemma_flat_bound(i, j, w as int, h as int);
            if i * h as int + j == x as int * h as int + y as int {
                lemma_flat_inj(i, j, x as int, y as int, h as int);
            }
        }
    }
}


/// The editing tools a caller can apply at a grid position.
#[derive(Clone, Copy, Debug, PartialEq, Eq, Structural)]
pub enum Mode {
    Dot,
    Line,
    SmallCube,
    SmallPlus,
    Glider,
}

impl Grid {
    /// Applies the active editing tool at cell position `(x, y)`: the dot
    /// tool toggles that cell, the glider and line tools stamp their
    /// patterns there, and the remaining tools do nothing.
    pub fn draw(&mut self, x: usize, y: usize, mode: &Mode) -> (r: Result<(), GridError>)
        requires
            old(self).wf(),
        ensures
            final(self).wf(),
            match mode {
                Mode::Dot => match r {
                    Ok(_) => old(self).in_bounds(x as int, y as int) && toggle_effect(
                        *old(self),
                        *final(self),
                        x as int,
                        y as int,
                    ),
                    Err(e) => {
                        &&& !old(self).in_bounds(x as int, y as int)
                        &&& e == GridError::OutOfBounds
                        &&& *final(self) == *old(self)
                    },
                },
                Mode::Glider => r is Ok && glider_effect(
                    *old(self),
                    *final(self),
                    x as int,
                    y as int,
                ),
                Mode::Line => r is Ok && line_effect(*old(self), *final(self), x as int, y as int),
                _ => r is Ok && *final(self) == *old(self),
            },
    {
        match mode {
            Mode::Dot => self.toggle(x, y),
            Mode::Glider => {
                self.glider(x, y);
                Ok(())
            },
            Mode::Line => {
                self.line(x, y);
                Ok(())
            },
            _ => Ok(()),
        }
    }
}

} // verus!
