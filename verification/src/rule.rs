//! The Game-of-Life transition rule for a single cell.

use vstd::prelude::*;

verus! {

/// The canonical Game-of-Life rule: an alive cell survives iff it has two or
/// three alive neighbors, and a dead cell becomes alive iff it has exactly
/// three alive neighbors.
pub open spec fn life_rule(alive: bool, n: int) -> bool {
    if alive {
        n == 2 || n == 3
    } else {
        n == 3
    }
}

/// The transition rule written out as the four-way branch classification the
/// engine evaluates: birth on exactly three neighbors, death by isolation or
/// overcrowding, an explicit (redundant) overcrowded-dead branch, survival on
/// two or three neighbors, and a final fall-through to dead.
pub open spec fn life_rule_branches(alive: bool, n: int) -> bool {
    if n == 3 && !alive {
        true
    } else if (n < 2 || n > 3) && alive {
        false
    } else if n > 3 && !alive {
        false
    } else if n == 2 || n == 3 {
        alive
    } else {
        false
    }
}

/// Law: over every alive state and every neighbor count — in particular all
/// eighteen combinations of alive-or-dead with a count between zero and
/// eight — the branch classification agrees with the canonical rule.
pub proof fn lemma_rule_table(alive: bool, n: int)
    ensures
        life_rule_branches(alive, n) == life_rule(alive, n),
{
}

/// Computes the next state of one cell from its current state and its alive
/// neighbor count, following the branch classification.
pub fn next_state(alive: bool, n: u8) -> (r: bool)
    ensures
        r == life_rule(alive, n as int),
{
    if n == 3 && !alive {
        true
    } else if (n < 2 || n > 3) && alive {
        false
    } else if n > 3 && !alive {
        false
    } else if n == 2 || n == 3 {
        alive
    } else {
        false
    }
}

} // verus!
