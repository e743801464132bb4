//! Coordinate arithmetic on a torus: every coordinate is taken modulo the
//! grid extent, so the grid has no boundary.

use vstd::prelude::*;
use vstd::arithmetic::div_mod::lemma_small_mod;
use vstd::arithmetic::div_mod::lemma_mod_self_0;
use vstd::arithmetic::div_mod::lemma_mod_multiples_vanish;
use vstd::arithmetic::div_mod::lemma_fundamental_div_mod;

verus! {

/// Wraps an integer coordinate onto an axis of extent `m`: the unique value
/// in `[0, m)` congruent to `i` modulo `m`.
pub open spec fn wrap(i: int, m: int) -> int
    recommends
        0 < m,
{
    i % m
}

/// A wrapped coordinate lies within the axis extent.
pub proof fn lemma_wrap_range(i: int, m: int)
    requires
        0 < m,
    ensures
        0 <= wrap(i, m) < m,
{
}

/// A coordinate already within the extent is unchanged by wrapping.
pub proof fn lemma_wrap_identity(i: int, m: int)
    requires
        0 <= i < m,
    ensures
        wrap(i, m) == i,
{
    lemma_small_mod(i as nat, m as nat);
}

/// Wrapping a coordinate first does not change where a shifted coordinate
/// lands: `wrap(wrap(a, m) + d, m) == wrap(a + d, m)`.
pub proof fn lemma_wrap_shift(a: int, d: int, m: int)
    requires
        0 < m,
    ensures
        wrap(wrap(a, m) + d, m) == wrap(a + d, m),
{
    lemma_fundamental_div_mod(a, m);
    lemma_mod_multiples_vanish(a / m, a % m + d, m);
}

/// Shifting two coordinates by the same offset preserves whether they wrap
/// to the same point, in both directions.
pub proof fn lemma_wrap_shift_eq(a: int, b: int, d: int, m: int)
    requires
        0 < m,
    ensures
        (wrap(a + d, m) == wrap(b + d, m)) <==> (wrap(a, m) == wrap(b, m)),
{
    lemma_wrap_shift(a, d, m);
    lemma_wrap_shift(b, d, m);
    lemma_wrap_shift(a + d, -d, m);
    lemma_wrap_shift(b + d, -d, m);
}

/// Stepping one unit in either direction from an in-range coordinate.
pub proof fn lemma_wrap_step(i: int, m: int)
    requires
        0 < m,
        0 <= i < m,
    ensures
        wrap(i + 1, m) == if i + 1 == m { 0int } else { i + 1 },
        wrap(i - 1, m) == if i == 0 { m - 1 } else { i - 1 },
{
    if i + 1 == m {
        lemma_mod_self_0(m);
    } else {
        lemma_wrap_identity(i + 1, m);
    }
    if i == 0 {
        lemma_wrap_identity(m - 1, m);
        lemma_mod_multiples_vanish(1, -1, m);
    } else {
        lemma_wrap_identity(i - 1, m);
    }
}

} // verus!
