//! The grid of cells and the step from one generation to the next.

use crate::board::Board;
use crate::cell::Cell;
use crate::math::{lemma_neighbors_are_adjacent_cells, Coord};
use vstd::prelude::*;

verus! {

/// The Game of Life cell grid: `H` rows of `W` cells each.
///
/// Positions on it are the [`Coord`]s in the range `(0..W, 0..H)`.
#[derive(Debug)]
pub struct Grid<const W: usize, const H: usize> {
    /// The rows from top to bottom, each from left to right.
    pub cells: [[Cell; W]; H],
    /// The number of steps taken since the grid was created.
    pub generation: u64,
}

impl<const W: usize, const H: usize> View for Grid<W, H> {
    type V = Board;

    open spec fn view(&self) -> Board {
        Board {
            extents: Coord(W, H),
            rows: Seq::new(H as nat, |y: int| self.cells[y]@),
            generation: self.generation as nat,
        }
    }
}

impl<const W: usize, const H: usize> Grid<W, H> {
    /// What a grid holds is always a table of `H` rows of `W` cells.
    pub proof fn lemma_view_is_well_formed(self)
        ensures
            self@.wf(),
            self@.extents == Coord(W, H),
    {
    }

    /// Constructs a grid on which every cell is dead, at generation 0.
    #[must_use]
    pub fn new() -> (grid: Self)
        ensures
            grid@ == Board::blank(Coord(W, H)),
    {
        let grid = Grid { cells: [[Cell::Dead; W]; H], generation: 0 };
        assert(grid@.rows =~~= Board::blank(Coord(W, H)).rows);
        grid
    }

    /// The cell at a position on the grid.
    #[must_use]
    pub fn cell_at(&self, pos: Coord) -> (cell: Cell)
        requires
            pos.within(Coord(W, H)),
        ensures
            cell == self@.at(pos),
    {
        self.cells[pos.1][pos.0]
    }

    /// Overwrites the cell at a position on the grid.
    pub fn set(&mut self, pos: Coord, state: Cell)
        requires
            pos.within(Coord(W, H)),
        ensures
            final(self)@ == old(self)@.put(pos, state),
    {
        self.cells[pos.1][pos.0] = state;
        assert(self@.rows =~~= old(self)@.put(pos, state).rows);
    }

    /// Negates the cell at a position on the grid.
    pub fn toggle(&mut self, pos: Coord)
        requires
            pos.within(Coord(W, H)),
        ensures
            final(self)@ == old(self)@.toggle(pos),
    {
        let flipped = self.cell_at(pos).negate();
        self.set(pos, flipped);
    }

    /// The number of steps taken since the grid was created.
    #[must_use]
    pub fn generation(&self) -> (generation: u64)
        ensures
            generation == self@.generation,
    {
        self.generation
    }

    /// The rows of the grid from top to bottom, for reading.
    #[must_use]
    pub fn cells(&self) -> (rows: &[[Cell; W]; H])
        ensures
            *rows == self.cells,
            forall|pos: Coord|
                pos.within(Coord(W, H)) ==> #[trigger] self@.at(pos)
                    == rows[pos.1 as int][pos.0 as int],
    {
        &self.cells
    }

    /// Calculates the state of a cell in the next generation.
    ///
    /// A cell with three live neighbours is alive, one with two stays as it
    /// is, and any other is dead. Nothing beyond the edge is alive.
    #[must_use]
    pub fn state_next(&self, coord: Coord) -> (next: Cell)
        requires
            coord.within(Coord(W, H)),
        ensures
            next == self@.state_next(coord),
    {
        let ghost all = coord.spec_neighbors(Coord(W, H));
        let ghost alive = |near: Coord| self@.at(near) == Cell::Alive;
        let mut around = coord.neighbors(Coord(W, H));
        let mut live: usize = 0;
        let ghost mut seen: int = 0;
        proof {
            lemma_neighbors_are_adjacent_cells(coord, Coord(W, H));
            assert(all.take(0).filter(alive).len() == 0) by {
                reveal(Seq::filter);
            }
        }
        loop
            invariant_except_break
                0 <= seen <= all.len(),
                around@ == all.skip(seen),
                live == all.take(seen).filter(alive).len(),
                live <= seen,
            invariant
                all == coord.spec_neighbors(Coord(W, H)),
                alive == |near: Coord| self@.at(near) == Cell::Alive,
                all.len() <= 8,
                forall|other: Coord| all.contains(other) ==> other.within(Coord(W, H)),
            ensures
                live == all.filter(alive).len(),
            decreases all.len() - seen,
        {
            match around.next() {
                None => {
                    proof {
                        assert(all.take(seen) =~= all);
                    }
                    break ;
                },
                Some(near) => {
                    proof {
                        assert(near == all[seen]);
                        assert(all.contains(near));
                        assert(all.take(seen + 1) =~= all.take(seen).push(near));
                        all.take(seen).lemma_filter_push(near, alive);
                        assert(all.skip(seen).drop_first() =~= all.skip(seen + 1));
                        seen = seen + 1;
                    }
                    if self.cell_at(near).is_alive() {
                        live = live + 1;
                    }
                },
            }
        }
        match live {
            0 | 1 | 4.. => Cell::Dead,
            2 => self.cell_at(coord),
            3 => Cell::Alive,
        }
    }

    /// Calculates the next generation of the grid, leaving this one as it is.
    ///
    /// Every cell of the result is the next state of its position on this
    /// grid, and the generation is one higher.
    #[must_use]
    pub fn step(&self) -> (next: Self)
        requires
            self.generation < u64::MAX,
        ensures
            next@ == self@.step(),
            next.generation == self.generation + 1,
    {
        let mut cells = [[Cell::Dead; W]; H];
        for y in 0..H
            invariant
                forall|j: int, i: int|
                    0 <= j < y && 0 <= i < W ==> #[trigger] cells[j][i] == self@.state_next(
                        Coord(i as usize, j as usize),
                    ),
        {
            for x in 0..W
                invariant
                    y < H,
                    forall|j: int, i: int|
                        0 <= j < y && 0 <= i < W ==> #[trigger] cells[j][i] == self@.state_next(
                            Coord(i as usize, j as usize),
                        ),
                    forall|i: int|
                        0 <= i < x ==> #[trigger] cells[y as int][i] == self@.state_next(
                            Coord(i as usize, y),
                        ),
            {
                cells[y][x] = self.state_next(Coord(x, y));
            }
        }
        let next = Grid { cells, generation: self.generation + 1 };
        assert(next@.rows =~~= self@.step().rows);
        next
    }
}

impl<const W: usize, const H: usize> Default for Grid<W, H> {
    /// A grid on which every cell is dead, at generation 0.
    fn default() -> (grid: Self)
        ensures
            grid@ == Board::blank(Coord(W, H)),
    {
        Self::new()
    }
}

impl<const W: usize, const H: usize> Clone for Grid<W, H> {
    /// A grid with the same cells at the same generation.
    fn clone(&self) -> (copy: Self)
        ensures
            copy == *self,
    {
        Grid { cells: self.cells, generation: self.generation }
    }
}

impl<const W: usize, const H: usize> core::ops::Index<Coord> for Grid<W, H> {
    type Output = Cell;

    /// The cell at a position on the grid.
    fn index(&self, index: Coord) -> (cell: &Cell)
        ensures
            *cell == self@.at(index),
    {
        &self.cells[index.1][index.0]
    }
}

impl<const W: usize, const H: usize> vstd::std_specs::core::IndexSpecImpl<Coord> for Grid<W, H> {
    open spec fn index_req(&self, index: &Coord) -> bool {
        index.within(Coord(W, H))
    }
}

impl<const W: usize, const H: usize> core::ops::IndexMut<Coord> for Grid<W, H> {
    /// The cell at a position on the grid, for writing.
    fn index_mut(&mut self, index: Coord) -> (cell: &mut Cell)
        requires
            index.within(Coord(W, H)),
        ensures
            *cell == old(self)@.at(index),
            final(self)@ == old(self)@.put(index, *final(cell)),
    {
        &mut self.cells[index.1][index.0]
    }
}

} // verus!
