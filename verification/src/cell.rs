//! The state of a single position on the grid.

use vstd::prelude::*;

verus! {

/// A cell on a grid: either dead or alive.
#[derive(Clone, Copy, PartialEq, Eq, Structural, Debug)]
pub enum Cell {
    Dead,
    Alive,
}

impl Cell {
    /// The opposite state: dead for alive and alive for dead.
    pub open spec fn spec_negate(self) -> Cell {
        match self {
            Cell::Alive => Cell::Dead,
            Cell::Dead => Cell::Alive,
        }
    }

    /// Whether the cell is alive.
    #[inline]
    #[must_use]
    pub fn is_alive(&self) -> (alive: bool)
        ensures
            alive <==> *self == Cell::Alive,
    {
        matches!(self, Cell::Alive)
    }

    /// Whether the cell is dead.
    #[inline]
    #[must_use]
    pub fn is_dead(&self) -> (dead: bool)
        ensures
            dead <==> *self == Cell::Dead,
    {
        !self.is_alive()
    }

    /// The opposite state: a live cell becomes dead and a dead one alive.
    #[inline]
    #[must_use]
    pub fn negate(self) -> (flipped: Cell)
        ensures
            flipped == self.spec_negate(),
    {
        match self {
            Cell::Alive => Cell::Dead,
            Cell::Dead => Cell::Alive,
        }
    }
}

impl Default for Cell {
    /// A cell starts out dead.
    fn default() -> (cell: Cell)
        ensures
            cell == Cell::Dead,
    {
        Cell::Dead
    }
}

impl core::ops::Not for Cell {
    type Output = Cell;

    /// The opposite state, as [`Cell::negate`] gives it.
    fn not(self) -> (flipped: Cell)
        ensures
            flipped == self.spec_negate(),
    {
        self.negate()
    }
}

impl vstd::std_specs::ops::NotSpecImpl for Cell {
    open spec fn obeys_not_spec() -> bool {
        true
    }

    open spec fn not_req(self) -> bool {
        true
    }

    open spec fn not_spec(self) -> Cell {
        self.spec_negate()
    }
}

} // verus!
