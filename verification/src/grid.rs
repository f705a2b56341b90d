//! The board's geometry: cell coordinates, the bounded square of cells, and
//! the mapping between cells and world space.

use vstd::prelude::*;

verus! {

/// A cell coordinate `(x, y)` as the contracts see it.
pub type Coord = (int, int);

/// Half-extent of the board that the front end shows: 20 by 20 cells.
pub const GRID_SIZE: isize = 10;

/// Distance in world units between the origins of two adjacent cells.
pub const CELL_PADDING: isize = 15;

/// Largest half-extent a [`Grid`] can have. With it the number of cells
/// fits `usize`, and every cell origin fits `isize`, on 32-bit targets too.
pub const MAX_GRID_SIZE: isize = 32767;

/// The coordinate of one cell.
#[derive(Clone, Copy, Debug, PartialEq, Eq, Hash, Structural)]
pub struct Position {
    pub x: isize,
    pub y: isize,
}

impl View for Position {
    type V = Coord;

    open spec fn view(&self) -> Coord {
        (self.x as int, self.y as int)
    }
}

/// A point of world space, in whole world units.
#[derive(Clone, Copy, Debug, PartialEq, Eq, Hash, Structural)]
pub struct WorldPoint {
    pub x: isize,
    pub y: isize,
}

impl View for WorldPoint {
    type V = (int, int);

    open spec fn view(&self) -> (int, int) {
        (self.x as int, self.y as int)
    }
}

/// Whether `c` is a cell of the board of half-extent `n`: both of its
/// coordinates lie in `[-n, n)`.
pub open spec fn in_grid(n: int, c: Coord) -> bool {
    -n <= c.0 < n && -n <= c.1 < n
}

/// Whether every coordinate of `cells` is a cell of the board of half-extent `n`.
pub open spec fn within_grid(n: int, cells: Set<Coord>) -> bool {
    forall|c: Coord| cells.contains(c) ==> in_grid(n, c)
}

/// The cell that holds the world point `p`: each axis divided by
/// [`CELL_PADDING`] and rounded down.
pub open spec fn cell_of(p: (int, int)) -> Coord {
    (p.0 / (CELL_PADDING as int), p.1 / (CELL_PADDING as int))
}

/// The world point at which the cell `c` has its origin.
pub open spec fn origin_of(c: Coord) -> (int, int) {
    (c.0 * (CELL_PADDING as int), c.1 * (CELL_PADDING as int))
}

/// The division rounds down: the origin of the cell that holds `p` is the
/// last origin at or below `p` on each axis, for negative coordinates too.
pub proof fn lemma_cell_of_rounds_down(p: (int, int))
    ensures
        origin_of(cell_of(p)).0 <= p.0 < origin_of(cell_of(p)).0 + CELL_PADDING,
        origin_of(cell_of(p)).1 <= p.1 < origin_of(cell_of(p)).1 + CELL_PADDING,
{
}

/// Every world point from the origin of the cell `c` up to, but not
/// including, the origins of the next cells belongs to `c`. So a point
/// on the border between two cells belongs to exactly one of them.
pub proof fn lemma_cell_of_its_own_points(c: Coord, dx: int, dy: int)
    requires
        0 <= dx < CELL_PADDING,
        0 <= dy < CELL_PADDING,
    ensures
        cell_of((origin_of(c).0 + dx, origin_of(c).1 + dy)) == c,
{
}

/// The cell that holds `point`. A point on the border between two cells
/// belongs to the cell whose origin it is: the division rounds down, for
/// negative coordinates too.
pub fn cell_at(point: WorldPoint) -> (cell: Position)
    ensures
        cell@ == cell_of(point@),
{
    let x: isize = point.x.checked_div_euclid(CELL_PADDING).unwrap();
    let y: isize = point.y.checked_div_euclid(CELL_PADDING).unwrap();
    Position { x, y }
}

/// The square board of half-extent `n`: the cells `(x, y)` with `x` and `y`
/// in `[-n, n)`. It is fixed once made.
#[derive(Clone, Copy, Debug, PartialEq, Eq, Structural)]
pub struct Grid {
    half_extent: isize,
}

impl View for Grid {
    type V = int;

    /// The half-extent.
    closed spec fn view(&self) -> int {
        self.half_extent as int
    }
}

impl Grid {
    #[verifier::type_invariant]
    spec fn bounded(&self) -> bool {
        0 <= self.half_extent <= MAX_GRID_SIZE
    }

    /// The board of half-extent `size`, if `size` lies in `0..=MAX_GRID_SIZE`.
    pub fn new(size: isize) -> (grid: Option<Grid>)
        ensures
            grid is Some <==> 0 <= size <= MAX_GRID_SIZE,
            grid is Some ==> grid->0@ == size,
    {
        if 0 <= size && size <= MAX_GRID_SIZE {
            Some(Grid { half_extent: size })
        } else {
            None
        }
    }

    pub fn half_extent(&self) -> (size: isize)
        ensures
            size == self@,
            0 <= size <= MAX_GRID_SIZE,
        no_unwind
    {
        proof {
            use_type_invariant(self);
        }
        self.half_extent
    }

    /// The number of cells along one side.
    pub fn side(&self) -> (side: usize)
        ensures
            side == 2 * self@,
            side <= 2 * MAX_GRID_SIZE,
    {
        proof {
            use_type_invariant(self);
        }
        (self.half_extent as usize) * 2
    }

    /// Whether `p` is a cell of this board.
    pub fn contains(&self, p: Position) -> (inside: bool)
        ensures
            inside == in_grid(self@, p@),
        no_unwind
    {
        let n: isize = self.half_extent();
        -n <= p.x && p.x < n && -n <= p.y && p.y < n
    }
}

/// A cell of a board together with the world point of its origin.
#[derive(Clone, Copy, Debug, PartialEq, Eq, Structural)]
pub struct CellPlacement {
    pub position: Position,
    pub origin: WorldPoint,
}

/// The place that [`build_grid`] gives to the cell `c`.
pub open spec fn placement_of(c: Coord) -> (Coord, (int, int)) {
    (c, origin_of(c))
}

/// The index at which [`build_grid`] lists the cell `c` of the board of
/// half-extent `n`: column after column, each from the lowest `y` up.
pub open spec fn listing_index(n: int, c: Coord) -> int {
    (c.0 + n) * (2 * n) + (c.1 + n)
}

proof fn lemma_listing_index(n: int, c: Coord)
    requires
        0 <= n,
        in_grid(n, c),
    ensures
        (c.0 + n) * (2 * n) <= listing_index(n, c) < (c.0 + n + 1) * (2 * n),
        0 <= listing_index(n, c) < (2 * n) * (2 * n),
{
    assert((c.0 + n + 1) * (2 * n) == (c.0 + n) * (2 * n) + 2 * n) by (nonlinear_arith);
    assert(0 <= (c.0 + n) * (2 * n)) by (nonlinear_arith)
        requires
            0 <= c.0 + n,
            0 <= n,
    ;
    assert((c.0 + n + 1) * (2 * n) <= (2 * n) * (2 * n)) by (nonlinear_arith)
        requires
            c.0 + n + 1 <= 2 * n,
            0 <= n,
    ;
}

proof fn lemma_columns_ordered(n: int, x1: int, x2: int)
    requires
        0 <= n,
        x1 <= x2,
    ensures
        (x1 + n) * (2 * n) <= (x2 + n) * (2 * n),
{
    assert((x1 + n) * (2 * n) <= (x2 + n) * (2 * n)) by (nonlinear_arith)
        requires
            0 <= n,
            x1 <= x2,
    ;
}

/// Every cell of `grid` with the world point of its origin, each cell once:
/// column after column from `x = -n`, each column from `y = -n` up.
pub fn build_grid(grid: &Grid) -> (cells: Vec<CellPlacement>)
    ensures
        cells.len() == (2 * grid@) * (2 * grid@),
        forall|c: Coord|
            in_grid(grid@, c) ==> {
                let placed = #[trigger] cells[listing_index(grid@, c)];
                placed.position@ == c && placed.origin@ == origin_of(c)
            },
{
    let n: isize = grid.half_extent();
    let mut cells: Vec<CellPlacement> = Vec::new();
    let mut cell_x: isize = -n;
    assert((cell_x + n) * (2 * n) == 0) by (nonlinear_arith)
        requires
            cell_x + n == 0,
    ;
    while cell_x < n
        invariant
            0 <= n <= MAX_GRID_SIZE,
            n == grid@,
            -n <= cell_x <= n,
            cells.len() == (cell_x + n) * (2 * n),
            forall|c: Coord|
                in_grid(n as int, c) && c.0 < cell_x ==> {
                    let placed = #[trigger] cells[listing_index(n as int, c)];
                    placed.position@ == c && placed.origin@ == origin_of(c)
                },
        decreases n - cell_x,
    {
        let mut cell_y: isize = -n;
        while cell_y < n
            invariant
                0 <= n <= MAX_GRID_SIZE,
                n == grid@,
                -n <= cell_x < n,
                -n <= cell_y <= n,
                cells.len() == (cell_x + n) * (2 * n) + (cell_y + n),
                forall|c: Coord|
                    in_grid(n as int, c) && (c.0 < cell_x || (c.0 == cell_x && c.1 < cell_y)) ==> {
                        let placed = #[trigger] cells[listing_index(n as int, c)];
                        placed.position@ == c && placed.origin@ == origin_of(c)
                    },
            decreases n - cell_y,
        {
            let position = Position { x: cell_x, y: cell_y };
            let origin = WorldPoint { x: cell_x * CELL_PADDING, y: cell_y * CELL_PADDING };
            let ghost before = cells@;
            cells.push(CellPlacement { position, origin });
            proof {
                assert forall|c: Coord|
                    in_grid(n as int, c) && (c.0 < cell_x || (c.0 == cell_x && c.1 < cell_y + 1)) implies {
                        let placed = #[trigger] cells[listing_index(n as int, c)];
                        placed.position@ == c && placed.origin@ == origin_of(c)
                    } by {
                    lemma_listing_index(n as int, c);
                    if c.0 < cell_x {
                        lemma_columns_ordered(n as int, c.0 + 1, cell_x as int);
                        assert(cells[listing_index(n as int, c)] == before[listing_index(n as int, c)]);
                    } else if c.1 < cell_y {
                        assert(cells[listing_index(n as int, c)] == before[listing_index(n as int, c)]);
                    } else {
                        assert(listing_index(n as int, c) == before.len());
                    }
                }
            }
            cell_y = cell_y + 1;
        }
        proof {
            assert((cell_x + 1 + n) * (2 * n) == (cell_x + n) * (2 * n) + 2 * n) by (nonlinear_arith);
        }
        cell_x = cell_x + 1;
    }
    proof {
        assert((n + n) * (2 * n) == (2 * n) * (2 * n)) by (nonlinear_arith);
    }
    cells
}

} // verus!
