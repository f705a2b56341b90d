//! A set of cells of one board, stored as one flag per cell.

use vstd::prelude::*;
use crate::grid::{in_grid, Coord, Grid, Position, MAX_GRID_SIZE};

verus! {

/// A row of `side` flags, all of them clear.
fn blank_row(side: usize) -> (row: Vec<bool>)
    ensures
        row.len() == side,
        forall|i: int| 0 <= i < side ==> !row[i],
{
    let mut row: Vec<bool> = Vec::new();
    while row.len() < side
        invariant
            row.len() <= side,
            forall|i: int| 0 <= i < row.len() ==> !row[i],
        decreases side - row.len(),
    {
        row.push(false);
    }
    row
}

/// `side` rows of `side` flags, all of them clear.
fn blank_rows(side: usize) -> (rows: Vec<Vec<bool>>)
    ensures
        rows.len() == side,
        forall|r: int| 0 <= r < side ==> (#[trigger] rows[r]).len() == side,
        forall|r: int, c: int| 0 <= r < side && 0 <= c < side ==> !rows[r][c],
{
    let mut rows: Vec<Vec<bool>> = Vec::new();
    while rows.len() < side
        invariant
            rows.len() <= side,
            forall|r: int| 0 <= r < rows.len() ==> (#[trigger] rows[r]).len() == side,
            forall|r: int, c: int| 0 <= r < rows.len() && 0 <= c < side ==> !rows[r][c],
        decreases side - rows.len(),
    {
        let row = blank_row(side);
        rows.push(row);
    }
    rows
}

/// Writes `value` to the flag in row `r`, column `c`, and leaves the others.
fn set_flag(rows: &mut Vec<Vec<bool>>, r: usize, c: usize, value: bool)
    requires
        r < old(rows).len(),
        c < old(rows)[r as int].len(),
    ensures
        final(rows).len() == old(rows).len(),
        forall|i: int| 0 <= i < old(rows).len() && i != r ==> final(rows)[i] == old(rows)[i],
        final(rows)[r as int]@ == old(rows)[r as int]@.update(c as int, value),
    no_unwind
{
    rows[r][c] = value;
}

/// `cells` with the membership of `c` turned: without `c` if it was in,
/// with `c` if it was out.
pub open spec fn toggled(cells: Set<Coord>, c: Coord) -> Set<Coord> {
    if cells.contains(c) {
        cells.remove(c)
    } else {
        cells.insert(c)
    }
}

/// Whether `a` comes before `b` where cells are listed row after row from
/// the lowest `y`, each row from the lowest `x` up.
pub open spec fn row_major_before(a: Coord, b: Coord) -> bool {
    a.1 < b.1 || (a.1 == b.1 && a.0 < b.0)
}

/// A set of cells of one board.
pub struct CellSet {
    grid: Grid,
    rows: Vec<Vec<bool>>,
}

impl View for CellSet {
    type V = Set<Coord>;

    /// The cells that the set holds.
    closed spec fn view(&self) -> Set<Coord> {
        Set::new(
            |c: Coord|
                in_grid(self.grid@, c) && self.rows[c.1 + self.grid@][c.0 + self.grid@],
        )
    }
}

impl CellSet {
    #[verifier::type_invariant]
    spec fn well_formed(&self) -> bool {
        &&& 0 <= self.grid@ <= MAX_GRID_SIZE
        &&& self.rows.len() == 2 * self.grid@
        &&& forall|r: int|
            0 <= r < self.rows.len() ==> (#[trigger] self.rows[r]).len() == 2 * self.grid@
    }

    /// The board whose cells the set holds.
    pub closed spec fn spec_grid(&self) -> Grid {
        self.grid
    }

    /// A set never holds a coordinate that is no cell of its board.
    pub proof fn lemma_within_grid(&self)
        ensures
            forall|c: Coord| self@.contains(c) ==> in_grid(self.grid()@, c),
    {
    }

    /// The empty set of cells of `grid`.
    pub fn new(grid: Grid) -> (cells: CellSet)
        ensures
            cells.grid() == grid,
            cells@ == Set::<Coord>::empty(),
    {
        let rows = blank_rows(grid.side());
        let cells = CellSet { grid, rows };
        assert(cells@ =~= Set::<Coord>::empty());
        cells
    }

    #[verifier::when_used_as_spec(spec_grid)]
    pub fn grid(&self) -> (grid: Grid)
        ensures
            grid == self.grid(),
    {
        self.grid
    }

    /// The row and column of the flag of `p`, if `p` is a cell of the board.
    fn flag_of(&self, p: Position) -> (at: Option<(usize, usize)>)
        ensures
            at is Some <==> in_grid(self.grid@, p@),
            at matches Some((r, c)) ==> r == p.y + self.grid@ && c == p.x + self.grid@,
        no_unwind
    {
        if self.grid.contains(p) {
            let n: isize = self.grid.half_extent();
            Some(((p.y + n) as usize, (p.x + n) as usize))
        } else {
            None
        }
    }

    /// Whether the set holds `p`.
    pub fn contains(&self, p: Position) -> (held: bool)
        ensures
            held == self@.contains(p@),
        no_unwind
    {
        proof {
            use_type_invariant(self);
        }
        match self.flag_of(p) {
            Some((r, c)) => self.rows[r][c],
            None => false,
        }
    }

    /// Writes the membership of `p`, if `p` is a cell of the board.
    fn put(&mut self, p: Position, member: bool)
        ensures
            final(self).grid() == old(self).grid(),
            in_grid(old(self).grid()@, p@) ==> final(self)@ == (if member {
                old(self)@.insert(p@)
            } else {
                old(self)@.remove(p@)
            }),
            !in_grid(old(self).grid()@, p@) ==> final(self)@ == old(self)@,
        no_unwind
    {
        proof {
            use_type_invariant(&*self);
        }
        match self.flag_of(p) {
            Some((r, c)) => {
                set_flag(&mut self.rows, r, c, member);
                proof {
                    if member {
                        assert(self@ =~= old(self)@.insert(p@));
                    } else {
                        assert(self@ =~= old(self)@.remove(p@));
                    }
                }
            },
            None => {},
        }
    }

    /// Adds `p` to the set, if `p` is a cell of the board. Returns whether it is.
    pub fn insert(&mut self, p: Position) -> (inside: bool)
        ensures
            final(self).grid() == old(self).grid(),
            inside == in_grid(old(self).grid()@, p@),
            final(self)@ == (if inside {
                old(self)@.insert(p@)
            } else {
                old(self)@
            }),
        no_unwind
    {
        self.put(p, true);
        self.grid.contains(p)
    }

    /// Takes `p` out of the set. Returns whether `p` is a cell of the board.
    pub fn remove(&mut self, p: Position) -> (inside: bool)
        ensures
            final(self).grid() == old(self).grid(),
            inside == in_grid(old(self).grid()@, p@),
            final(self)@ == old(self)@.remove(p@),
        no_unwind
    {
        proof {
            self.lemma_within_grid();
        }
        self.put(p, false);
        proof {
            if !in_grid(old(self).grid()@, p@) {
                assert(old(self)@ =~= old(self)@.remove(p@));
            }
        }
        self.grid.contains(p)
    }

    /// Turns the membership of `p`, if `p` is a cell of the board. Returns
    /// whether it is.
    pub fn toggle(&mut self, p: Position) -> (inside: bool)
        ensures
            final(self).grid() == old(self).grid(),
            inside == in_grid(old(self).grid()@, p@),
            final(self)@ == (if inside {
                toggled(old(self)@, p@)
            } else {
                old(self)@
            }),
        no_unwind
    {
        let member = self.contains(p);
        self.put(p, !member);
        self.grid.contains(p)
    }

    /// The cells of the set, each once, row after row from the lowest `y`,
    /// each row from the lowest `x` up.
    pub fn alive_positions(&self) -> (alive: Vec<Position>)
        ensures
            forall|i: int| 0 <= i < alive.len() ==> self@.contains((#[trigger] alive[i])@),
            forall|c: Coord|
                self@.contains(c) ==> exists|i: int|
                    0 <= i < alive.len() && (#[trigger] alive[i])@ == c,
            forall|i: int, j: int|
                0 <= i < j < alive.len() ==> row_major_before(
                    (#[trigger] alive[i])@,
                    (#[trigger] alive[j])@,
                ),
    {
        let n: isize = self.grid.half_extent();
        let mut alive: Vec<Position> = Vec::new();
        let mut y: isize = -n;
        while y < n
            invariant
                n == self.grid@,
                0 <= n <= MAX_GRID_SIZE,
                -n <= y <= n,
                forall|i: int|
                    0 <= i < alive.len() ==> self@.contains((#[trigger] alive[i])@) && alive[i].y
                        < y,
                forall|c: Coord|
                    self@.contains(c) && c.1 < y ==> exists|i: int|
                        0 <= i < alive.len() && (#[trigger] alive[i])@ == c,
                forall|i: int, j: int|
                    0 <= i < j < alive.len() ==> row_major_before(
                        (#[trigger] alive[i])@,
                        (#[trigger] alive[j])@,
                    ),
            decreases n - y,
        {
            let mut x: isize = -n;
            while x < n
                invariant
                    n == self.grid@,
                    0 <= n <= MAX_GRID_SIZE,
                    -n <= y < n,
                    -n <= x <= n,
                    forall|i: int|
                        0 <= i < alive.len() ==> self@.contains((#[trigger] alive[i])@)
                            && row_major_before(alive[i]@, (x as int, y as int)),
                    forall|c: Coord|
                        self@.contains(c) && row_major_before(c, (x as int, y as int))
                            ==> exists|i: int| 0 <= i < alive.len() && (#[trigger] alive[i])@ == c,
                    forall|i: int, j: int|
                        0 <= i < j < alive.len() ==> row_major_before(
                            (#[trigger] alive[i])@,
                            (#[trigger] alive[j])@,
                        ),
                decreases n - x,
            {
                let cell = Position { x, y };
                if self.contains(cell) {
                    let ghost before = alive@;
                    alive.push(cell);
                    proof {
                        assert forall|c: Coord|
                            self@.contains(c) && row_major_before(
                                c,
                                (x + 1, y as int),
                            ) implies exists|i: int|
                            0 <= i < alive.len() && (#[trigger] alive[i])@ == c by {
                            if c == cell@ {
                                assert(alive[before.len() as int]@ == c);
                            } else {
                                let i = choose|i: int|
                                    0 <= i < before.len() && (#[trigger] before[i])@ == c;
                                assert(alive[i]@ == c);
                            }
                        }
                    }
                }
                x = x + 1;
            }
            proof {
                self.lemma_within_grid();
            }
            y = y + 1;
        }
        proof {
            self.lemma_within_grid();
        }
        alive
    }

    /// Empties the set.
    pub fn clear(&mut self)
        ensures
            final(self).grid() == old(self).grid(),
            final(self)@ == Set::<Coord>::empty(),
    {
        let grid = self.grid;
        *self = CellSet::new(grid);
    }
}

impl Clone for CellSet {
    fn clone(&self) -> (copy: CellSet)
        ensures
            copy.grid() == self.grid(),
            copy@ == self@,
    {
        proof {
            use_type_invariant(self);
        }
        let rows = self.rows.clone();
        let copy = CellSet { grid: self.grid, rows };
        assert(copy@ =~= self@);
        copy
    }
}

} // verus!
