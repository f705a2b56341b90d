//! The rule of the automaton: a cell is born with exactly three live
//! neighbours and survives with two or three.

use vstd::prelude::*;
use crate::cells::CellSet;
use crate::grid::{in_grid, within_grid, Coord, Position};

verus! {

/// 1 if `alive` holds the cell `(x, y)`, else 0.
pub open spec fn alive_at(alive: Set<Coord>, x: int, y: int) -> nat {
    if alive.contains((x, y)) {
        1
    } else {
        0
    }
}

/// How many of the eight cells around `c` are in `alive`. A neighbour beyond
/// the border of the board is in no set of its cells, and so counts as dead:
/// the board does not wrap around.
pub open spec fn live_neighbours(alive: Set<Coord>, c: Coord) -> nat {
    alive_at(alive, c.0 - 1, c.1 - 1) + alive_at(alive, c.0, c.1 - 1) + alive_at(
        alive,
        c.0 + 1,
        c.1 - 1,
    ) + alive_at(alive, c.0 - 1, c.1) + alive_at(alive, c.0 + 1, c.1) + alive_at(
        alive,
        c.0 - 1,
        c.1 + 1,
    ) + alive_at(alive, c.0, c.1 + 1) + alive_at(alive, c.0 + 1, c.1 + 1)
}

/// Whether a cell is alive after a step, given whether it is alive before
/// it and how many live neighbours it has.
pub open spec fn lives_on(alive: bool, neighbours: nat) -> bool {
    if alive {
        neighbours == 2 || neighbours == 3
    } else {
        neighbours == 3
    }
}

/// Whether the cell `c` is alive one step after `alive`.
pub open spec fn alive_next(alive: Set<Coord>, c: Coord) -> bool {
    lives_on(alive.contains(c), live_neighbours(alive, c))
}

/// The cells of the board of half-extent `n` that are alive one step after
/// `alive`. Every cell is judged by `alive` as it was before the step.
pub open spec fn next_generation(n: int, alive: Set<Coord>) -> Set<Coord> {
    Set::new(|c: Coord| in_grid(n, c) && alive_next(alive, c))
}

/// What the offset `(dx, dy)` adds to the count of live neighbours of `c`.
spec fn tally(alive: Set<Coord>, c: Coord, dx: int, dy: int) -> nat {
    if dx == 0 && dy == 0 {
        0
    } else {
        alive_at(alive, c.0 + dx, c.1 + dy)
    }
}

/// The tally of the offsets `(dx, dy)` with `-1 <= dx < dx_end`.
spec fn row_tally(alive: Set<Coord>, c: Coord, dy: int, dx_end: int) -> nat
    decreases dx_end + 1,
{
    if dx_end <= -1 {
        0
    } else {
        row_tally(alive, c, dy, dx_end - 1) + tally(alive, c, dx_end - 1, dy)
    }
}

/// The tally of the offsets `(dx, dy)` with `-1 <= dx <= 1` and `-1 <= dy < dy_end`.
spec fn rows_tally(alive: Set<Coord>, c: Coord, dy_end: int) -> nat
    decreases dy_end + 1,
{
    if dy_end <= -1 {
        0
    } else {
        rows_tally(alive, c, dy_end - 1) + row_tally(alive, c, dy_end - 1, 2)
    }
}

proof fn lemma_row_tally(alive: Set<Coord>, c: Coord, dy: int)
    ensures
        row_tally(alive, c, dy, 2) == tally(alive, c, -1, dy) + tally(alive, c, 0, dy) + tally(
            alive,
            c,
            1,
            dy,
        ),
{
    reveal_with_fuel(row_tally, 4);
}

proof fn lemma_rows_tally(alive: Set<Coord>, c: Coord)
    ensures
        rows_tally(alive, c, 2) == live_neighbours(alive, c),
{
    reveal_with_fuel(rows_tally, 4);
    lemma_row_tally(alive, c, -1);
    lemma_row_tally(alive, c, 0);
    lemma_row_tally(alive, c, 1);
}

/// The rule for one cell.
pub fn next_state(alive: bool, neighbours: u8) -> (next: bool)
    ensures
        next == lives_on(alive, neighbours as nat),
{
    if alive {
        !(neighbours < 2 || neighbours > 3)
    } else {
        neighbours == 3
    }
}

/// Counts the live neighbours of `p` in `cells`. `p` may be any position, a
/// cell of the board or not.
pub fn count_neighbours(cells: &CellSet, p: Position) -> (count: u8)
    ensures
        count == live_neighbours(cells@, p@),
        count <= 8,
{
    let n: isize = cells.grid().half_extent();
    proof {
        cells.lemma_within_grid();
    }
    if p.x < -n - 1 || p.x > n || p.y < -n - 1 || p.y > n {
        return 0;
    }
    let mut count: u8 = 0;
    let mut dy: isize = -1;
    while dy <= 1
        invariant
            -1 <= dy <= 2,
            -n - 1 <= p.x <= n,
            -n - 1 <= p.y <= n,
            0 <= n <= crate::grid::MAX_GRID_SIZE,
            count == rows_tally(cells@, p@, dy as int),
            count <= 3 * (dy + 1),
        decreases 2 - dy,
    {
        let mut dx: isize = -1;
        while dx <= 1
            invariant
                -1 <= dy <= 1,
                -1 <= dx <= 2,
                -n - 1 <= p.x <= n,
                -n - 1 <= p.y <= n,
                0 <= n <= crate::grid::MAX_GRID_SIZE,
                count == rows_tally(cells@, p@, dy as int) + row_tally(
                    cells@,
                    p@,
                    dy as int,
                    dx as int,
                ),
                count <= 3 * (dy + 1) + (dx + 1),
            decreases 2 - dx,
        {
            if !(dx == 0 && dy == 0) {
                let neighbour = Position { x: p.x + dx, y: p.y + dy };
                if cells.contains(neighbour) {
                    count = count + 1;
                }
            }
            dx = dx + 1;
        }
        dy = dy + 1;
    }
    proof {
        lemma_rows_tally(cells@, p@);
    }
    count
}

/// One step of the automaton: the cells of the board of `alive` that are
/// alive after it. The result is a function of the board and of the set
/// `alive` alone, and `alive` itself is left as it was.
pub fn automaton_step(alive: &CellSet) -> (next: CellSet)
    ensures
        next.grid() == alive.grid(),
        next@ == next_generation(alive.grid()@, alive@),
{
    let grid = alive.grid();
    let n: isize = grid.half_extent();
    let mut next = CellSet::new(grid);
    let mut y: isize = -n;
    while y < n
        invariant
            next.grid() == grid,
            grid == alive.grid(),
            n == grid@,
            0 <= n <= crate::grid::MAX_GRID_SIZE,
            -n <= y <= n,
            forall|c: Coord|
                #[trigger] next@.contains(c) <==> in_grid(n as int, c) && c.1 < y && alive_next(
                    alive@,
                    c,
                ),
        decreases n - y,
    {
        let mut x: isize = -n;
        while x < n
            invariant
                next.grid() == grid,
                grid == alive.grid(),
                n == grid@,
                0 <= n <= crate::grid::MAX_GRID_SIZE,
                -n <= y < n,
                -n <= x <= n,
                forall|c: Coord|
                    #[trigger] next@.contains(c) <==> in_grid(n as int, c) && (c.1 < y || (c.1
                        == y && c.0 < x)) && alive_next(alive@, c),
            decreases n - x,
        {
            let cell = Position { x, y };
            let neighbours: u8 = count_neighbours(alive, cell);
            if next_state(alive.contains(cell), neighbours) {
                next.insert(cell);
            }
            x = x + 1;
        }
        y = y + 1;
    }
    assert(next@ =~= next_generation(alive.grid()@, alive@));
    next
}

/// A step is a function of the board and of the set of live cells: two
/// steps from equal sets on boards of one size give equal sets, whatever
/// else differs between the values they were taken from.
pub proof fn lemma_step_is_deterministic(
    first: CellSet,
    second: CellSet,
    first_next: CellSet,
    second_next: CellSet,
)
    requires
        first.grid()@ == second.grid()@,
        first@ == second@,
        first_next@ == next_generation(first.grid()@, first@),
        second_next@ == next_generation(second.grid()@, second@),
    ensures
        first_next@ == second_next@,
{
}

/// The rule, case by case, for a cell `c` of the board: a dead cell with
/// exactly three live neighbours is born, a live cell with two or three
/// stays alive, and every other cell is dead after the step.
pub proof fn lemma_rule(n: int, alive: Set<Coord>, c: Coord)
    requires
        in_grid(n, c),
    ensures
        !alive.contains(c) && live_neighbours(alive, c) == 3 ==> next_generation(n, alive).contains(
            c,
        ),
        alive.contains(c) && (live_neighbours(alive, c) == 2 || live_neighbours(alive, c) == 3)
            ==> next_generation(n, alive).contains(c),
        alive.contains(c) && (live_neighbours(alive, c) < 2 || live_neighbours(alive, c) > 3)
            ==> !next_generation(n, alive).contains(c),
        !alive.contains(c) && live_neighbours(alive, c) != 3 ==> !next_generation(
            n,
            alive,
        ).contains(c),
{
}

/// No step brings a coordinate to life that is no cell of the board,
/// whatever set it starts from.
pub proof fn lemma_next_generation_within_grid(n: int, alive: Set<Coord>)
    ensures
        within_grid(n, next_generation(n, alive)),
{
}

/// Nothing is born on an empty board.
pub proof fn lemma_empty_stays_empty(n: int)
    ensures
        next_generation(n, Set::<Coord>::empty()) == Set::<Coord>::empty(),
{
    assert(next_generation(n, Set::<Coord>::empty()) =~= Set::<Coord>::empty());
}

} // verus!
