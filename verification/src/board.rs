//! The mathematical model of a grid, in which the rules of the game are
//! stated, with the laws that follow from them.

use crate::cell::Cell;
use crate::math::{
    compass, lemma_neighbors_are_adjacent_cells, lemma_neighbors_by_direction, Coord,
};
use vstd::prelude::*;

verus! {

/// The fate of a cell with the given number of live neighbours: born or kept
/// alive by three, left as it is by two, dead otherwise.
pub open spec fn rule(current: Cell, live: nat) -> Cell {
    if live == 3 {
        Cell::Alive
    } else if live == 2 {
        current
    } else {
        Cell::Dead
    }
}

/// What a grid holds: its cells row by row, and the number of steps taken
/// since it was created.
#[verifier::ext_equal]
pub struct Board {
    /// The `(width, height)` of the table.
    pub extents: Coord,
    /// The rows from top to bottom, each from left to right.
    pub rows: Seq<Seq<Cell>>,
    /// The number of steps taken so far.
    pub generation: nat,
}

impl Board {
    /// The table has exactly `height` rows of exactly `width` cells.
    pub open spec fn wf(self) -> bool {
        &&& self.rows.len() == self.extents.1
        &&& forall|y: int|
            0 <= y < self.rows.len() ==> (#[trigger] self.rows[y]).len() == self.extents.0
    }

    /// The board of the given extents on which nothing lives and no step has
    /// been taken.
    pub open spec fn blank(extents: Coord) -> Board {
        Board {
            extents,
            rows: Seq::new(
                extents.1 as nat,
                |y: int| Seq::new(extents.0 as nat, |x: int| Cell::Dead),
            ),
            generation: 0,
        }
    }

    /// The cell at a position.
    pub open spec fn at(self, pos: Coord) -> Cell
        recommends
            pos.within(self.extents),
    {
        self.rows[pos.1 as int][pos.0 as int]
    }

    /// No cell is alive.
    pub open spec fn all_dead(self) -> bool {
        forall|pos: Coord| pos.within(self.extents) ==> #[trigger] self.at(pos) == Cell::Dead
    }

    /// The board with the cell at one position replaced.
    pub open spec fn put(self, pos: Coord, state: Cell) -> Board
        recommends
            pos.within(self.extents),
    {
        Board {
            rows: self.rows.update(
                pos.1 as int,
                self.rows[pos.1 as int].update(pos.0 as int, state),
            ),
            ..self
        }
    }

    /// The board with the cell at one position negated.
    pub open spec fn toggle(self, pos: Coord) -> Board
        recommends
            pos.within(self.extents),
    {
        self.put(pos, self.at(pos).spec_negate())
    }

    /// The number of neighbours of a position that are alive. Positions
    /// beyond the edge are no neighbours, so they never count.
    pub open spec fn live_neighbors(self, pos: Coord) -> nat {
        pos.spec_neighbors(self.extents).filter(|near: Coord| self.at(near) == Cell::Alive).len()
    }

    /// The cell in column `x` of row `y` of a plane that holds the board
    /// and, around it, dead cells only.
    pub open spec fn at_or_dead(self, x: int, y: int) -> Cell {
        if 0 <= x < self.extents.0 && 0 <= y < self.extents.1 {
            self.rows[y][x]
        } else {
            Cell::Dead
        }
    }

    /// One if the cell in the `k`-th compass direction from a position is
    /// alive on that plane, zero if it is dead.
    pub open spec fn live_toward(self, pos: Coord, k: int) -> nat {
        let step = compass()[k];
        if self.at_or_dead(pos.0 + step.0, pos.1 + step.1) == Cell::Alive {
            1
        } else {
            0
        }
    }

    /// The state of a position in the next generation.
    pub open spec fn state_next(self, pos: Coord) -> Cell
        recommends
            pos.within(self.extents),
    {
        rule(self.at(pos), self.live_neighbors(pos))
    }

    /// The next generation: every cell takes its next state at once, each
    /// computed from this board.
    pub open spec fn step(self) -> Board {
        Board {
            extents: self.extents,
            rows: Seq::new(
                self.extents.1 as nat,
                |y: int|
                    Seq::new(
                        self.extents.0 as nat,
                        |x: int| self.state_next(Coord(x as usize, y as usize)),
                    ),
            ),
            generation: self.generation + 1,
        }
    }

    /// The board after `n` steps.
    pub open spec fn steps(self, n: nat) -> Board
        decreases n,
    {
        if n == 0 {
            self
        } else {
            self.steps((n - 1) as nat).step()
        }
    }
}

/// A step keeps the extents and yields a well-formed board.
pub proof fn lemma_step_keeps_shape(board: Board)
    ensures
        board.step().extents == board.extents,
        board.step().wf(),
{
}

/// Every step raises the generation by exactly one, so `n` steps raise it by
/// `n`: a board that starts at generation 0 stands at generation `n`.
pub proof fn lemma_generation_counts_steps(board: Board, n: nat)
    ensures
        board.step().generation == board.generation + 1,
        board.steps(n).generation == board.generation + n,
        board.generation == 0 ==> board.steps(n).generation == n,
    decreases n,
{
    if n > 0 {
        lemma_generation_counts_steps(board, (n - 1) as nat);
    }
}

/// The border is dead: the live neighbours of a position are as many as
/// the live cells in the eight directions around it on a plane that is dead
/// beyond the edge of the board.
pub proof fn lemma_dead_border(board: Board, pos: Coord)
    ensures
        board.live_neighbors(pos) == board.live_toward(pos, 0) + board.live_toward(pos, 1)
            + board.live_toward(pos, 2) + board.live_toward(pos, 3) + board.live_toward(pos, 4)
            + board.live_toward(pos, 5) + board.live_toward(pos, 6) + board.live_toward(pos, 7),
{
    let alive = |near: Coord| board.at(near) == Cell::Alive;
    let toward = |k: int| pos.spec_toward(board.extents, k);
    lemma_neighbors_by_direction(pos, board.extents);
    assert forall|k: int| 0 <= k < 8 implies (#[trigger] toward(k)).filter(alive).len()
        == board.live_toward(pos, k) by {
        reveal_with_fuel(Seq::filter, 2);
        if toward(k).len() > 0 {
            assert(toward(k).drop_last() =~= Seq::<Coord>::empty());
        }
    }
    let upto1 = toward(0) + toward(1);
    let upto2 = upto1 + toward(2);
    let upto3 = upto2 + toward(3);
    let upto4 = upto3 + toward(4);
    let upto5 = upto4 + toward(5);
    let upto6 = upto5 + toward(6);
    Seq::filter_distributes_over_add(toward(0), toward(1), alive);
    Seq::filter_distributes_over_add(upto1, toward(2), alive);
    Seq::filter_distributes_over_add(upto2, toward(3), alive);
    Seq::filter_distributes_over_add(upto3, toward(4), alive);
    Seq::filter_distributes_over_add(upto4, toward(5), alive);
    Seq::filter_distributes_over_add(upto5, toward(6), alive);
    Seq::filter_distributes_over_add(upto6, toward(7), alive);
}

/// On a board where nothing lives no position has a live neighbour.
pub proof fn lemma_dead_board_has_no_live_neighbors(board: Board, pos: Coord)
    requires
        board.all_dead(),
    ensures
        board.live_neighbors(pos) == 0,
{
    let around = pos.spec_neighbors(board.extents);
    let alive = |near: Coord| board.at(near) == Cell::Alive;
    let found = around.filter(alive);
    if found.len() > 0 {
        around.lemma_filter_pred(alive, 0);
        assert(found.contains(found[0]));
        around.lemma_filter_contains_rev(alive, found[0]);
        lemma_neighbors_are_adjacent_cells(pos, board.extents);
        assert(board.at(found[0]) == Cell::Dead);
    }
}

/// A board where nothing lives stays as it is, whatever the number of
/// steps: only its generation moves on.
pub proof fn lemma_dead_board_stays_dead(board: Board, n: nat)
    requires
        board.wf(),
        board.all_dead(),
    ensures
        board.steps(n).all_dead(),
        board.steps(n).rows == board.rows,
        board.steps(n).extents == board.extents,
    decreases n,
{
    if n > 0 {
        let before = board.steps((n - 1) as nat);
        lemma_dead_board_stays_dead(board, (n - 1) as nat);
        let after = before.step();
        assert forall|y: int, x: int|
            0 <= y < before.extents.1 && 0 <= x < before.extents.0 implies #[trigger] after.rows[y][x]
            == before.rows[y][x] by {
            let pos = Coord(x as usize, y as usize);
            lemma_dead_board_has_no_live_neighbors(before, pos);
            assert(before.at(pos) == Cell::Dead);
        }
        assert(after.rows =~~= before.rows);
    }
}

/// Toggling a cell twice restores the board.
pub proof fn lemma_toggle_twice_restores(board: Board, pos: Coord)
    requires
        board.wf(),
        pos.within(board.extents),
    ensures
        board.toggle(pos).at(pos) == board.at(pos).spec_negate(),
        board.toggle(pos).toggle(pos) == board,
{
    assert(board.toggle(pos).toggle(pos).rows =~~= board.rows);
}

} // verus!
