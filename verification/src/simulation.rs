//! The controller: a pause switch, the tick that advances the board by one
//! generation, and the click that edits one cell.

use vstd::prelude::*;
use crate::automaton::{automaton_step, next_generation};
use crate::cells::{toggled, CellSet};
use crate::grid::{cell_at, cell_of, in_grid, within_grid, Coord, Grid, Position, WorldPoint};

verus! {

/// What a [`Simulation`] is to the contracts.
pub struct SimulationState {
    /// Half-extent of the board.
    pub half_extent: int,
    /// The cells that are alive.
    pub alive: Set<Coord>,
    /// The cells that a step in progress has found alive for the next
    /// generation. A tick of a running game fills it, commits it and
    /// leaves it empty.
    pub next_alive: Set<Coord>,
    /// Whether ticks are skipped.
    pub paused: bool,
}

/// The state in which a simulation starts: paused, with no cell alive.
pub open spec fn initial_state(n: int) -> SimulationState {
    SimulationState {
        half_extent: n,
        alive: Set::empty(),
        next_alive: Set::empty(),
        paused: true,
    }
}

/// `s` after the pause switch was flipped once.
pub open spec fn pause_toggled(s: SimulationState) -> SimulationState {
    SimulationState { paused: !s.paused, ..s }
}

/// `s` after the next generation was computed from the live cells.
pub open spec fn simulated(s: SimulationState) -> SimulationState {
    SimulationState { next_alive: next_generation(s.half_extent, s.alive), ..s }
}

/// `s` after the computed generation replaced the live cells.
pub open spec fn committed(s: SimulationState) -> SimulationState {
    SimulationState { alive: s.next_alive, ..s }
}

/// `s` after the computed generation was discarded.
pub open spec fn cleared(s: SimulationState) -> SimulationState {
    SimulationState { next_alive: Set::empty(), ..s }
}

/// `s` after one tick: unchanged while paused, else one generation on.
pub open spec fn ticked(s: SimulationState) -> SimulationState {
    if s.paused {
        s
    } else {
        cleared(committed(simulated(s)))
    }
}

/// `s` after a click on the coordinate `c`: the cell `c` turned if it is a
/// cell of the board, else nothing.
pub open spec fn cell_clicked(s: SimulationState, c: Coord) -> SimulationState {
    if in_grid(s.half_extent, c) {
        SimulationState { alive: toggled(s.alive, c), ..s }
    } else {
        s
    }
}

/// `s` after a pointer event: a primary click with the cursor over the
/// world point `p` is a click on the cell that holds `p`; any other event
/// changes nothing.
pub open spec fn clicked(
    s: SimulationState,
    primary_click: bool,
    cursor: Option<(int, int)>,
) -> SimulationState {
    match cursor {
        Some(p) if primary_click => cell_clicked(s, cell_of(p)),
        _ => s,
    }
}

/// `s` after the pause switch was flipped `k` times.
pub open spec fn pause_toggled_times(s: SimulationState, k: nat) -> SimulationState
    decreases k,
{
    if k == 0 {
        s
    } else {
        pause_toggled(pause_toggled_times(s, (k - 1) as nat))
    }
}

/// `s` after `k` ticks.
pub open spec fn ticked_times(s: SimulationState, k: nat) -> SimulationState
    decreases k,
{
    if k == 0 {
        s
    } else {
        ticked(ticked_times(s, (k - 1) as nat))
    }
}

/// Whether both cell sets of `s` hold cells of its board only.
pub open spec fn cells_within_grid(s: SimulationState) -> bool {
    within_grid(s.half_extent, s.alive) && within_grid(s.half_extent, s.next_alive)
}

/// No event brings a coordinate into either cell set that is no cell of
/// the board: not a flip of the pause switch, not a tick or one of its
/// three phases, not a pointer event.
pub proof fn lemma_events_keep_cells_within_grid(
    s: SimulationState,
    primary_click: bool,
    cursor: Option<(int, int)>,
)
    requires
        cells_within_grid(s),
    ensures
        cells_within_grid(pause_toggled(s)),
        cells_within_grid(simulated(s)),
        cells_within_grid(committed(s)),
        cells_within_grid(cleared(s)),
        cells_within_grid(ticked(s)),
        cells_within_grid(clicked(s, primary_click, cursor)),
{
}

/// Flipping the pause switch an even number of times gives back the state
/// it started from: the same switch position, and so the same behaviour
/// on the next tick, and the same cells.
pub proof fn lemma_even_pause_toggles_restore(s: SimulationState, k: nat)
    ensures
        pause_toggled_times(s, 2 * k) == s,
        ticked(pause_toggled_times(s, 2 * k)) == ticked(s),
    decreases k,
{
    if k > 0 {
        lemma_even_pause_toggles_restore(s, (k - 1) as nat);
        let j = (2 * k - 1) as nat;
        assert(pause_toggled_times(s, j) == pause_toggled(
            pause_toggled_times(s, (2 * (k - 1)) as nat),
        ));
        assert(pause_toggled_times(s, 2 * k) == pause_toggled(pause_toggled_times(s, j)));
    }
}

/// Flipping the pause switch, however often, changes no cell.
pub proof fn lemma_pause_toggles_keep_cells(s: SimulationState, k: nat)
    ensures
        pause_toggled_times(s, k).half_extent == s.half_extent,
        pause_toggled_times(s, k).alive == s.alive,
        pause_toggled_times(s, k).next_alive == s.next_alive,
    decreases k,
{
    if k > 0 {
        lemma_pause_toggles_keep_cells(s, (k - 1) as nat);
    }
}

/// While the game is paused, ticks change nothing, however many there are.
pub proof fn lemma_paused_ticks_change_nothing(s: SimulationState, k: nat)
    requires
        s.paused,
    ensures
        ticked_times(s, k) == s,
    decreases k,
{
    if k > 0 {
        lemma_paused_ticks_change_nothing(s, (k - 1) as nat);
    }
}

/// While the game is running, a tick is exactly one step of the automaton,
/// committed: the live cells are the next generation of the cells that
/// were alive, nothing is left in the scratch set, and the game goes on
/// running.
pub proof fn lemma_running_tick_is_one_step(s: SimulationState)
    requires
        !s.paused,
    ensures
        ticked(s) == (SimulationState {
            half_extent: s.half_extent,
            alive: next_generation(s.half_extent, s.alive),
            next_alive: Set::empty(),
            paused: false,
        }),
{
}

/// A click on a cell of the board turns that cell and touches nothing
/// else: every other coordinate keeps its membership, and the scratch set
/// and the pause switch stay as they were.
pub proof fn lemma_click_turns_one_cell(s: SimulationState, c: Coord, other: Coord)
    requires
        in_grid(s.half_extent, c),
        other != c,
    ensures
        cell_clicked(s, c).alive.contains(c) == !s.alive.contains(c),
        cell_clicked(s, c).alive.contains(other) == s.alive.contains(other),
        cell_clicked(s, c).half_extent == s.half_extent,
        cell_clicked(s, c).next_alive == s.next_alive,
        cell_clicked(s, c).paused == s.paused,
{
}

/// Two clicks on the same coordinate with nothing in between give back
/// the state before the first.
pub proof fn lemma_click_twice_restores(s: SimulationState, c: Coord)
    ensures
        cell_clicked(cell_clicked(s, c), c) == s,
{
    assert(toggled(toggled(s.alive, c), c) =~= s.alive);
}

/// The same pointer event twice with nothing in between gives back the
/// state before the first.
pub proof fn lemma_same_event_twice_restores(
    s: SimulationState,
    primary_click: bool,
    cursor: Option<(int, int)>,
)
    ensures
        clicked(clicked(s, primary_click, cursor), primary_click, cursor) == s,
{
    match cursor {
        Some(p) if primary_click => {
            lemma_click_twice_restores(s, cell_of(p));
        },
        _ => {},
    }
}

/// The cells of the sample pattern: a column three cells wide from
/// `y = 2` to `y = 9`, with holes at `(3, 3)` and `(3, 8)`.
pub open spec fn sample_pattern() -> Set<Coord> {
    Set::new(|c: Coord| 2 <= c.0 <= 4 && 2 <= c.1 <= 9 && !(c.0 == 3 && (c.1 == 3 || c.1 == 8)))
}

/// `s` after the cells of the sample pattern that the board has were
/// brought to life.
pub open spec fn sample_assigned(s: SimulationState) -> SimulationState {
    SimulationState {
        alive: s.alive.union(sample_pattern().filter(|c: Coord| in_grid(s.half_extent, c))),
        ..s
    }
}

/// The sample pattern, row by row from `y = 0`, each row from `x = 0`.
fn sample_array() -> (rows: [[u8; 10]; 10])
    ensures
        forall|x: int, y: int|
            0 <= x < 10 && 0 <= y < 10 ==> ((#[trigger] rows[y][x]) == 1 <==> sample_pattern().contains(
                (x, y),
            )),
{
    [
        [0, 0, 0, 0, 0, 0, 0, 0, 0, 0],
        [0, 0, 0, 0, 0, 0, 0, 0, 0, 0],
        [0, 0, 1, 1, 1, 0, 0, 0, 0, 0],
        [0, 0, 1, 0, 1, 0, 0, 0, 0, 0],
        [0, 0, 1, 1, 1, 0, 0, 0, 0, 0],
        [0, 0, 1, 1, 1, 0, 0, 0, 0, 0],
        [0, 0, 1, 1, 1, 0, 0, 0, 0, 0],
        [0, 0, 1, 1, 1, 0, 0, 0, 0, 0],
        [0, 0, 1, 0, 1, 0, 0, 0, 0, 0],
        [0, 0, 1, 1, 1, 0, 0, 0, 0, 0],
    ]
}

/// A game on one board, with its pause switch.
pub struct Simulation {
    alive: CellSet,
    next_alive: CellSet,
    paused: bool,
}

impl View for Simulation {
    type V = SimulationState;

    closed spec fn view(&self) -> SimulationState {
        SimulationState {
            half_extent: self.alive.grid()@,
            alive: self.alive@,
            next_alive: self.next_alive@,
            paused: self.paused,
        }
    }
}

impl Simulation {
    #[verifier::type_invariant]
    spec fn same_board(&self) -> bool {
        self.alive.grid() == self.next_alive.grid()
    }

    /// The board of the game.
    pub closed spec fn spec_grid(&self) -> Grid {
        self.alive.grid()
    }

    /// In a game whose two sets are of one board, neither holds a
    /// coordinate that is no cell of it.
    proof fn lemma_cells_within_grid(&self)
        requires
            self.same_board(),
        ensures
            cells_within_grid(self@),
    {
        self.alive.lemma_within_grid();
        self.next_alive.lemma_within_grid();
    }

    /// A paused game on `grid` with no cell alive.
    pub fn new(grid: Grid) -> (sim: Simulation)
        ensures
            sim.grid() == grid,
            sim@ == initial_state(grid@),
            cells_within_grid(sim@),
    {
        let sim = Simulation {
            alive: CellSet::new(grid),
            next_alive: CellSet::new(grid),
            paused: true,
        };
        proof {
            sim.lemma_cells_within_grid();
        }
        sim
    }

    #[verifier::when_used_as_spec(spec_grid)]
    pub fn grid(&self) -> (grid: Grid)
        ensures
            grid == self.grid(),
            grid@ == self@.half_extent,
    {
        self.alive.grid()
    }

    /// Whether ticks are skipped.
    pub fn paused(&self) -> (paused: bool)
        ensures
            paused == self@.paused,
    {
        self.paused
    }

    /// Whether the cell `p` is alive. A position that is no cell of the
    /// board is never alive.
    pub fn is_alive(&self, p: Position) -> (alive: bool)
        ensures
            alive == self@.alive.contains(p@),
            alive ==> in_grid(self@.half_extent, p@),
    {
        proof {
            self.alive.lemma_within_grid();
        }
        self.alive.contains(p)
    }

    /// The live cells, each once, row after row from the lowest `y`, each
    /// row from the lowest `x` up.
    pub fn alive_positions(&self) -> (alive: Vec<Position>)
        ensures
            forall|i: int| 0 <= i < alive.len() ==> self@.alive.contains((#[trigger] alive[i])@),
            forall|c: Coord|
                self@.alive.contains(c) ==> exists|i: int|
                    0 <= i < alive.len() && (#[trigger] alive[i])@ == c,
            forall|i: int, j: int|
                0 <= i < j < alive.len() ==> crate::cells::row_major_before(
                    (#[trigger] alive[i])@,
                    (#[trigger] alive[j])@,
                ),
    {
        self.alive.alive_positions()
    }

    /// Flips the pause switch if the pause key went down this frame.
    pub fn toggle_pause(&mut self, just_pressed: bool)
        ensures
            final(self).grid() == old(self).grid(),
            cells_within_grid(final(self)@),
            final(self)@ == (if just_pressed {
                pause_toggled(old(self)@)
            } else {
                old(self)@
            }),
    {
        proof {
            use_type_invariant(&*self);
        }
        if just_pressed {
            self.paused = !self.paused;
        }
        proof {
            self.lemma_cells_within_grid();
        }
    }

    /// Computes the next generation from the live cells. The live cells
    /// stay as they are until [`Simulation::apply_next_state`].
    pub fn simulate(&mut self)
        ensures
            final(self).grid() == old(self).grid(),
            cells_within_grid(final(self)@),
            final(self)@ == simulated(old(self)@),
    {
        proof {
            use_type_invariant(&*self);
        }
        self.next_alive = automaton_step(&self.alive);
        proof {
            self.lemma_cells_within_grid();
        }
    }

    /// Replaces the live cells by the computed generation, all at once.
    pub fn apply_next_state(&mut self)
        ensures
            final(self).grid() == old(self).grid(),
            cells_within_grid(final(self)@),
            final(self)@ == committed(old(self)@),
    {
        proof {
            use_type_invariant(&*self);
        }
        self.alive = self.next_alive.clone();
        proof {
            self.lemma_cells_within_grid();
        }
    }

    /// Discards the computed generation.
    pub fn clear_next_state(&mut self)
        ensures
            final(self).grid() == old(self).grid(),
            cells_within_grid(final(self)@),
            final(self)@ == cleared(old(self)@),
    {
        proof {
            use_type_invariant(&*self);
        }
        self.next_alive = CellSet::new(self.alive.grid());
        proof {
            self.lemma_cells_within_grid();
        }
    }

    /// One tick of the fixed-rate clock. While paused it does nothing.
    /// Otherwise it computes the next generation, makes it the live cells
    /// and discards the scratch copy.
    pub fn tick(&mut self)
        ensures
            final(self).grid() == old(self).grid(),
            cells_within_grid(final(self)@),
            final(self)@ == ticked(old(self)@),
    {
        if !self.paused {
            self.simulate();
            self.apply_next_state();
            self.clear_next_state();
        } else {
            proof {
                use_type_invariant(&*self);
                self.lemma_cells_within_grid();
            }
        }
    }

    /// Brings the cells of the sample pattern to life, as far as the board
    /// has them. Cells that are alive stay alive.
    pub fn assign_sample_lives(&mut self)
        ensures
            final(self).grid() == old(self).grid(),
            cells_within_grid(final(self)@),
            final(self)@ == sample_assigned(old(self)@),
    {
        proof {
            use_type_invariant(&*self);
        }
        let sample = sample_array();
        let ghost n = self.alive.grid()@;
        let mut y: usize = 0;
        while y < 10
            invariant
                0 <= y <= 10,
                self.same_board(),
                self.alive.grid() == old(self).alive.grid(),
                n == self.alive.grid()@,
                self.next_alive == old(self).next_alive,
                self.paused == old(self).paused,
                forall|x: int, y: int|
                    0 <= x < 10 && 0 <= y < 10 ==> ((#[trigger] sample[y][x]) == 1
                        <==> sample_pattern().contains((x, y))),
                forall|c: Coord|
                    #[trigger] self.alive@.contains(c) <==> old(self).alive@.contains(c) || (
                    sample_pattern().contains(c) && in_grid(n, c) && c.1 < y),
            decreases 10 - y,
        {
            let mut x: usize = 0;
            while x < 10
                invariant
                    0 <= y < 10,
                    0 <= x <= 10,
                    self.same_board(),
                    self.alive.grid() == old(self).alive.grid(),
                    n == self.alive.grid()@,
                    self.next_alive == old(self).next_alive,
                    self.paused == old(self).paused,
                    forall|x: int, y: int|
                        0 <= x < 10 && 0 <= y < 10 ==> ((#[trigger] sample[y][x]) == 1
                            <==> sample_pattern().contains((x, y))),
                    forall|c: Coord|
                        #[trigger] self.alive@.contains(c) <==> old(self).alive@.contains(c) || (
                        sample_pattern().contains(c) && in_grid(n, c) && (c.1 < y || (c.1 == y
                            && c.0 < x))),
                decreases 10 - x,
            {
                if sample[y][x] == 1 {
                    self.alive.insert(Position { x: x as isize, y: y as isize });
                }
                x = x + 1;
            }
            y = y + 1;
        }
        proof {
            assert(self.alive@ =~= sample_assigned(old(self)@).alive);
            self.lemma_cells_within_grid();
        }
    }

    /// A pointer event. On a primary click with the cursor over a world
    /// point, the cell that holds the point is turned, if the board has such
    /// a cell. It works the same whether the game is paused or running.
    pub fn handle_cell_click(&mut self, primary_click: bool, cursor: Option<WorldPoint>)
        ensures
            final(self).grid() == old(self).grid(),
            cells_within_grid(final(self)@),
            final(self)@ == clicked(
                old(self)@,
                primary_click,
                match cursor {
                    Some(p) => Some(p@),
                    None => None,
                },
            ),
    {
        proof {
            use_type_invariant(&*self);
        }
        if primary_click {
            if let Some(point) = cursor {
                let cell = cell_at(point);
                self.alive.toggle(cell);
            }
        }
        proof {
            self.lemma_cells_within_grid();
        }
    }
}

} // verus!
