//! Positions on a grid and the neighbours of a position.

use vstd::prelude::*;

verus! {

/// A 2D coordinate `Coord(x, y)`: `x` grows to the right, `y` grows downwards.
#[derive(Clone, Copy, PartialEq, Eq, Structural, PartialOrd, Ord, Debug)]
pub struct Coord(pub usize, pub usize);

/// The eight compass steps `(dx, dy)` in the order in which neighbours are
/// listed: top-left, top, top-right, right, bottom-right, bottom,
/// bottom-left, left.
pub open spec fn compass() -> Seq<(int, int)> {
    seq![
        (-1int, -1int),
        (0int, -1int),
        (1int, -1int),
        (1int, 0int),
        (1int, 1int),
        (0int, 1int),
        (-1int, 1int),
        (-1int, 0int),
    ]
}

impl Coord {
    /// Whether the position lies on a grid of the given `(width, height)`.
    pub open spec fn within(self, extents: Coord) -> bool {
        self.0 < extents.0 && self.1 < extents.1
    }

    /// The position one `step` away, provided that it lies within `extents`.
    pub open spec fn spec_step(self, extents: Coord, step: (int, int)) -> Option<Coord> {
        let x = self.0 + step.0;
        let y = self.1 + step.1;
        if 0 <= x < extents.0 && 0 <= y < extents.1 {
            Some(Coord(x as usize, y as usize))
        } else {
            None
        }
    }

    /// The neighbours of the position on a grid of the given extents: the
    /// compass steps in order, each replaced by the position it leads to,
    /// those that leave the grid dropped.
    pub open spec fn spec_neighbors(self, extents: Coord) -> Seq<Coord> {
        compass().filter_map(|step: (int, int)| self.spec_step(extents, step))
    }

    /// The neighbour in the `k`-th compass direction as a sequence: of one
    /// position, or of none where that direction leaves the grid.
    pub open spec fn spec_toward(self, extents: Coord, k: int) -> Seq<Coord> {
        match self.spec_step(extents, compass()[k]) {
            Some(pos) => seq![pos],
            None => Seq::empty(),
        }
    }

    /// Whether `other` is one of the eight positions around this one.
    pub open spec fn adjacent(self, other: Coord) -> bool {
        &&& other != self
        &&& -1 <= other.0 - self.0 <= 1
        &&& -1 <= other.1 - self.1 <= 1
    }

    /// Returns the neighbours of the position on a grid of the given
    /// `(width, height)`, in compass order starting at the top-left.
    ///
    /// Directions that leave the grid are skipped, so a corner has three
    /// neighbours and an edge five. A position that lies off the grid has
    /// as neighbours those of the positions around it that lie on it.
    #[must_use]
    pub fn neighbors(&self, extents: Coord) -> (around: Neighbors)
        requires
            extents.0 > 0,
            extents.1 > 0,
        ensures
            around@ == self.spec_neighbors(extents),
    {
        // Which of the three columns and of the three rows around the
        // position lie on the grid.
        let west = 0 < self.0 && self.0 <= extents.0;
        let here_x = self.0 < extents.0;
        let east = self.0 < extents.0 - 1;
        let north = 0 < self.1 && self.1 <= extents.1;
        let here_y = self.1 < extents.1;
        let south = self.1 < extents.1 - 1;

        let slots = [
            if north && west { Some(self.up().left()) } else { None },
            if north && here_x { Some(self.up()) } else { None },
            if north && east { Some(self.up().right()) } else { None },
            if here_y && east { Some(self.right()) } else { None },
            if south && east { Some(self.down().right()) } else { None },
            if south && here_x { Some(self.down()) } else { None },
            if south && west { Some(self.down().left()) } else { None },
            if here_y && west { Some(self.left()) } else { None },
        ];
        proof {
            let reach = |step: (int, int)| self.spec_step(extents, step);
            assert forall|k: int| 0 <= k < 8 implies slots@[k] == reach(
                #[trigger] compass()[k],
            ) by {}
            lemma_filter_map_images(compass(), reach, slots@);
            assert(slots@.skip(0) =~= slots@);
        }
        Neighbors { slots, cursor: 0 }
    }

    /// The horizontal component.
    #[inline]
    #[must_use]
    pub fn x(&self) -> (x: usize)
        ensures
            x == self.0,
    {
        self.0
    }

    /// The vertical component.
    #[inline]
    #[must_use]
    pub fn y(&self) -> (y: usize)
        ensures
            y == self.1,
    {
        self.1
    }

    /// The position one row up.
    #[inline]
    #[must_use]
    pub fn up(&self) -> (moved: Coord)
        requires
            self.1 > 0,
        ensures
            moved == Coord(self.0, (self.1 - 1) as usize),
    {
        Coord(self.0, self.1 - 1)
    }

    /// The position one row down.
    #[inline]
    #[must_use]
    pub fn down(&self) -> (moved: Coord)
        requires
            self.1 < usize::MAX,
        ensures
            moved == Coord(self.0, (self.1 + 1) as usize),
    {
        Coord(self.0, self.1 + 1)
    }

    /// The position one column to the left.
    #[inline]
    #[must_use]
    pub fn left(&self) -> (moved: Coord)
        requires
            self.0 > 0,
        ensures
            moved == Coord((self.0 - 1) as usize, self.1),
    {
        Coord(self.0 - 1, self.1)
    }

    /// The position one column to the right.
    #[inline]
    #[must_use]
    pub fn right(&self) -> (moved: Coord)
        requires
            self.0 < usize::MAX,
        ensures
            moved == Coord((self.0 + 1) as usize, self.1),
    {
        Coord(self.0 + 1, self.1)
    }
}

impl Default for Coord {
    /// The origin.
    fn default() -> (origin: Coord)
        ensures
            origin == Coord(0, 0),
    {
        Coord(0, 0)
    }
}

impl core::ops::Add for Coord {
    type Output = Coord;

    /// Component-wise sum, for components whose sums fit the type.
    fn add(self, rhs: Coord) -> (sum: Coord)
        ensures
            sum == Coord((self.0 + rhs.0) as usize, (self.1 + rhs.1) as usize),
    {
        Coord(self.0 + rhs.0, self.1 + rhs.1)
    }
}

impl vstd::std_specs::ops::AddSpecImpl for Coord {
    open spec fn obeys_add_spec() -> bool {
        true
    }

    open spec fn add_req(self, rhs: Coord) -> bool {
        self.0 + rhs.0 <= usize::MAX && self.1 + rhs.1 <= usize::MAX
    }

    open spec fn add_spec(self, rhs: Coord) -> Coord {
        Coord((self.0 + rhs.0) as usize, (self.1 + rhs.1) as usize)
    }
}

impl core::ops::Sub for Coord {
    type Output = Coord;

    /// Component-wise difference, for a `rhs` that exceeds `self` in no
    /// component.
    fn sub(self, rhs: Coord) -> (difference: Coord)
        ensures
            difference == Coord((self.0 - rhs.0) as usize, (self.1 - rhs.1) as usize),
    {
        Coord(self.0 - rhs.0, self.1 - rhs.1)
    }
}

impl vstd::std_specs::ops::SubSpecImpl for Coord {
    open spec fn obeys_sub_spec() -> bool {
        true
    }

    open spec fn sub_req(self, rhs: Coord) -> bool {
        rhs.0 <= self.0 && rhs.1 <= self.1
    }

    open spec fn sub_spec(self, rhs: Coord) -> Coord {
        Coord((self.0 - rhs.0) as usize, (self.1 - rhs.1) as usize)
    }
}

/// The positions held by a run of slots, in order, the empty slots skipped.
spec fn occupied(slots: Seq<Option<Coord>>) -> Seq<Coord> {
    slots.filter_map(|slot: Option<Coord>| slot)
}

/// The neighbours of a position that are still to be handed out.
///
/// Obtained by calling [`Coord::neighbors`]; its view is the sequence of
/// positions that successive calls of [`Neighbors::next`] return.
#[derive(Debug)]
pub struct Neighbors {
    slots: [Option<Coord>; 8],
    cursor: usize,
}

impl View for Neighbors {
    type V = Seq<Coord>;

    closed spec fn view(&self) -> Seq<Coord> {
        occupied(self.slots@.skip(self.cursor as int))
    }
}

impl Neighbors {
    #[verifier::type_invariant]
    spec fn cursor_in_range(self) -> bool {
        self.cursor <= 8
    }

    /// Hands out the next neighbour, or `None` once all have been handed out.
    pub fn next(&mut self) -> (item: Option<Coord>)
        ensures
            old(self)@.len() == 0 ==> item is None && final(self)@ == old(self)@,
            old(self)@.len() > 0 ==> item == Some(old(self)@.first())
                && final(self)@ == old(self)@.drop_first(),
    {
        proof {
            use_type_invariant(&*self);
        }
        while self.cursor < 8
            invariant
                self.cursor <= 8,
                self@ == old(self)@,
            decreases 8 - self.cursor,
        {
            let slot = self.slots[self.cursor];
            proof {
                let rest = self.slots@.skip(self.cursor as int);
                lemma_occupied_front(rest);
                assert(rest.drop_first() =~= self.slots@.skip(self.cursor + 1));
            }
            self.cursor = self.cursor + 1;
            if let Some(pos) = slot {
                return Some(pos);
            }
        }
        None
    }
}

impl Clone for Neighbors {
    /// A second enumeration that continues from the same point.
    fn clone(&self) -> (copy: Neighbors)
        ensures
            copy@ == self@,
    {
        proof {
            use_type_invariant(self);
        }
        Neighbors { slots: self.slots, cursor: self.cursor }
    }
}

/// The neighbours of a position, written out direction by direction.
pub proof fn lemma_neighbors_by_direction(pos: Coord, extents: Coord)
    ensures
        pos.spec_neighbors(extents) == pos.spec_toward(extents, 0) + pos.spec_toward(extents, 1)
            + pos.spec_toward(extents, 2) + pos.spec_toward(extents, 3)
            + pos.spec_toward(extents, 4) + pos.spec_toward(extents, 5)
            + pos.spec_toward(extents, 6) + pos.spec_toward(extents, 7),
{
    let reach = |step: (int, int)| pos.spec_step(extents, step);
    let steps = compass();
    assert(steps.take(0).filter_map(reach) == Seq::<Coord>::empty());
    steps.lemma_filter_map_take_succ(reach, 0);
    steps.lemma_filter_map_take_succ(reach, 1);
    steps.lemma_filter_map_take_succ(reach, 2);
    steps.lemma_filter_map_take_succ(reach, 3);
    steps.lemma_filter_map_take_succ(reach, 4);
    steps.lemma_filter_map_take_succ(reach, 5);
    steps.lemma_filter_map_take_succ(reach, 6);
    steps.lemma_filter_map_take_succ(reach, 7);
    assert(steps.take(8) =~= steps);
}

/// A position is a neighbour exactly if it lies on the grid and is one of
/// the eight positions around the given one; no neighbour is listed twice,
/// so there are at most eight.
pub proof fn lemma_neighbors_are_adjacent_cells(pos: Coord, extents: Coord)
    ensures
        forall|other: Coord|
            pos.spec_neighbors(extents).contains(other) <==> other.within(extents)
                && pos.adjacent(other),
        pos.spec_neighbors(extents).no_duplicates(),
        pos.spec_neighbors(extents).len() <= 8,
{
    let reach = |step: (int, int)| pos.spec_step(extents, step);
    let steps = compass();
    let around = pos.spec_neighbors(extents);
    assert forall|other: Coord| around.contains(other) implies other.within(extents)
        && pos.adjacent(other) by {
        steps.lemma_filter_map_contains(reach, other);
    }
    assert forall|other: Coord|
        other.within(extents) && pos.adjacent(other) implies around.contains(other) by {
        let step = (other.0 - pos.0, other.1 - pos.1);
        let k: int = if step.1 == -1 {
            step.0 + 1
        } else if step.1 == 1 {
            5 - step.0
        } else if step.0 == 1 {
            3
        } else {
            7
        };
        assert(steps[k] == step);
        lemma_filter_map_keeps(steps, reach, step, other);
    }
    lemma_filter_map_distinct(steps, reach);
    lemma_filter_map_len(steps, reach);
}

/// How many of the places `v - 1`, `v` and `v + 1` lie on an axis of the
/// given length, for a `v` that lies on it.
pub open spec fn span(v: usize, length: usize) -> int {
    let before: int = if v > 0 { 1 } else { 0 };
    let after: int = if v + 1 < length { 1 } else { 0 };
    before + 1 + after
}

/// A position on the grid has as many neighbours as the block of columns
/// and rows around it holds cells besides itself: eight in the interior,
/// five on an edge and three in a corner of a grid that is at least three
/// wide and high.
pub proof fn lemma_neighbor_count(pos: Coord, extents: Coord)
    requires
        pos.within(extents),
    ensures
        pos.spec_neighbors(extents).len() == span(pos.0, extents.0) * span(pos.1, extents.1) - 1,
{
    lemma_neighbors_by_direction(pos, extents);
    let columns = span(pos.0, extents.0);
    let rows = span(pos.1, extents.1);
    assert(columns * rows == if columns == 1 {
        rows
    } else if columns == 2 {
        2 * rows
    } else {
        3 * rows
    }) by (nonlinear_arith)
        requires
            1 <= columns <= 3,
    ;
}

/// What `filter_map` keeps of a member of the sequence is a member of the
/// result.
proof fn lemma_filter_map_keeps<A, B>(s: Seq<A>, f: spec_fn(A) -> Option<B>, item: A, image: B)
    requires
        s.contains(item),
        f(item) == Some(image),
    ensures
        s.filter_map(f).contains(image),
    decreases s.len(),
{
    let kept = s.filter_map(f);
    if s.last() == item {
        assert(kept.last() == image);
    } else {
        let i = choose|i: int| 0 <= i < s.len() && s[i] == item;
        assert(s.drop_last()[i] == item);
        lemma_filter_map_keeps(s.drop_last(), f, item, image);
        let j = choose|j: int|
            0 <= j < s.drop_last().filter_map(f).len() && s.drop_last().filter_map(f)[j] == image;
        assert(kept[j] == image);
    }
}

/// Where no two members have the same image, `filter_map` of a sequence
/// without duplicates has no duplicates.
proof fn lemma_filter_map_distinct<A, B>(s: Seq<A>, f: spec_fn(A) -> Option<B>)
    requires
        s.no_duplicates(),
        forall|a: A, b: A| f(a) is Some && #[trigger] f(a) == #[trigger] f(b) ==> a == b,
    ensures
        s.filter_map(f).no_duplicates(),
    decreases s.len(),
{
    if s.len() > 0 {
        let rest = s.drop_last();
        lemma_filter_map_distinct(rest, f);
        if let Some(image) = f(s.last()) {
            if rest.filter_map(f).contains(image) {
                rest.lemma_filter_map_contains(f, image);
                let twin = choose|t: A| #[trigger] rest.contains(t) && f(t) == Some(image);
                let i = choose|i: int| 0 <= i < rest.len() && rest[i] == twin;
                assert(s[i] == s[s.len() - 1]);
            }
        }
    }
}

/// `filter_map` gives no more than it was given.
proof fn lemma_filter_map_len<A, B>(s: Seq<A>, f: spec_fn(A) -> Option<B>)
    ensures
        s.filter_map(f).len() <= s.len(),
    decreases s.len(),
{
    if s.len() > 0 {
        lemma_filter_map_len(s.drop_last(), f);
    }
}

/// Dropping the gaps from the images of a sequence gives what `filter_map`
/// gives on the sequence itself.
proof fn lemma_filter_map_images(
    steps: Seq<(int, int)>,
    reach: spec_fn((int, int)) -> Option<Coord>,
    slots: Seq<Option<Coord>>,
)
    requires
        slots.len() == steps.len(),
        forall|k: int| 0 <= k < steps.len() ==> slots[k] == reach(#[trigger] steps[k]),
    ensures
        occupied(slots) == steps.filter_map(reach),
    decreases steps.len(),
{
    if steps.len() > 0 {
        lemma_filter_map_images(steps.drop_last(), reach, slots.drop_last());
    }
}

/// The positions of a run of slots are those of its first slot followed by
/// those of the rest.
proof fn lemma_occupied_front(slots: Seq<Option<Coord>>)
    requires
        slots.len() > 0,
    ensures
        occupied(slots) == (match slots[0] {
            Some(pos) => seq![pos] + occupied(slots.drop_first()),
            None => occupied(slots.drop_first()),
        }),
    decreases slots.len(),
{
    if slots.len() == 1 {
        assert(slots.drop_first() =~= slots.drop_last());
    } else {
        lemma_occupied_front(slots.drop_last());
        assert(slots.drop_last().drop_first() =~= slots.drop_first().drop_last());
    }
}

} // verus!
