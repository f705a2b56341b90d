use game_of_life::{Grid, Position, Simulation, WorldPoint, GRID_SIZE};

fn pos(x: isize, y: isize) -> Position {
    Position { x, y }
}

fn at(x: isize, y: isize) -> Option<WorldPoint> {
    Some(WorldPoint { x, y })
}

/// The world point in the middle of the cell `(x, y)`.
fn middle_of(x: isize, y: isize) -> Option<WorldPoint> {
    at(x * 15 + 7, y * 15 + 7)
}

fn game() -> Simulation {
    Simulation::new(Grid::new(GRID_SIZE).unwrap())
}

fn game_with(cells: &[(isize, isize)]) -> Simulation {
    let mut sim = game();
    for &(x, y) in cells {
        sim.handle_cell_click(true, middle_of(x, y));
    }
    sim
}

fn alive(sim: &Simulation) -> Vec<(isize, isize)> {
    sim.alive_positions().iter().map(|p| (p.x, p.y)).collect()
}

#[test]
fn starts_paused_and_empty() {
    let sim = game();
    assert!(sim.paused());
    assert_eq!(alive(&sim), vec![]);
    assert_eq!(sim.grid().half_extent(), 10);
}

#[test]
fn click_brings_a_dead_cell_to_life() {
    let mut sim = game();
    assert!(!sim.is_alive(pos(5, 5)));
    sim.handle_cell_click(true, at(75, 75));
    assert!(sim.is_alive(pos(5, 5)));
    assert_eq!(alive(&sim), vec![(5, 5)]);
    assert!(sim.paused());
}

#[test]
fn click_touches_no_other_cell() {
    let mut sim = game_with(&[(4, 5), (6, 5), (5, 4), (-10, -10), (9, 9)]);
    sim.handle_cell_click(true, at(80, 80));
    assert_eq!(alive(&sim), vec![(-10, -10), (5, 4), (4, 5), (5, 5), (6, 5), (9, 9)]);
}

#[test]
fn click_kills_a_live_cell() {
    let mut sim = game_with(&[(5, 5), (0, 0)]);
    sim.handle_cell_click(true, at(89, 89));
    assert!(!sim.is_alive(pos(5, 5)));
    assert_eq!(alive(&sim), vec![(0, 0)]);
}

#[test]
fn two_clicks_undo_each_other() {
    let mut sim = game_with(&[(1, 1), (-3, 2)]);
    let before = alive(&sim);
    sim.handle_cell_click(true, middle_of(-3, 2));
    sim.handle_cell_click(true, middle_of(-3, 2));
    assert_eq!(alive(&sim), before);
    sim.handle_cell_click(true, middle_of(7, -7));
    sim.handle_cell_click(true, middle_of(7, -7));
    assert_eq!(alive(&sim), before);
    sim.handle_cell_click(true, middle_of(30, 30));
    sim.handle_cell_click(true, middle_of(30, 30));
    assert_eq!(alive(&sim), before);
}

#[test]
fn click_on_a_border_belongs_to_the_upper_cell() {
    let mut sim = game();
    sim.handle_cell_click(true, at(15, 30));
    assert_eq!(alive(&sim), vec![(1, 2)]);
    sim.handle_cell_click(true, at(14, 29));
    assert_eq!(alive(&sim), vec![(0, 1), (1, 2)]);
    sim.handle_cell_click(true, at(-15, -1));
    assert_eq!(alive(&sim), vec![(-1, -1), (0, 1), (1, 2)]);
}

#[test]
fn click_outside_the_board_is_ignored() {
    let mut sim = game_with(&[(9, 9)]);
    sim.handle_cell_click(true, at(150, 0));
    sim.handle_cell_click(true, at(0, 150));
    sim.handle_cell_click(true, at(-151, 0));
    sim.handle_cell_click(true, at(0, -151));
    sim.handle_cell_click(true, at(isize::MAX, isize::MIN));
    assert_eq!(alive(&sim), vec![(9, 9)]);
    sim.handle_cell_click(true, at(149, 149));
    assert_eq!(alive(&sim), vec![]);
    sim.handle_cell_click(true, at(-150, -150));
    assert_eq!(alive(&sim), vec![(-10, -10)]);
}

#[test]
fn click_without_a_cursor_is_ignored() {
    let mut sim = game_with(&[(0, 0)]);
    sim.handle_cell_click(true, None);
    assert_eq!(alive(&sim), vec![(0, 0)]);
}

#[test]
fn other_events_are_ignored() {
    let mut sim = game_with(&[(0, 0)]);
    sim.handle_cell_click(false, at(0, 0));
    sim.handle_cell_click(false, at(75, 75));
    sim.handle_cell_click(false, None);
    assert_eq!(alive(&sim), vec![(0, 0)]);
}

#[test]
fn click_works_while_running() {
    let mut sim = game();
    sim.toggle_pause(true);
    assert!(!sim.paused());
    sim.handle_cell_click(true, at(75, 75));
    assert_eq!(alive(&sim), vec![(5, 5)]);
    assert!(!sim.paused());
}

#[test]
fn pause_key_flips_the_switch() {
    let mut sim = game();
    sim.toggle_pause(true);
    assert!(!sim.paused());
    sim.toggle_pause(true);
    assert!(sim.paused());
}

#[test]
fn no_key_no_flip() {
    let mut sim = game();
    sim.toggle_pause(false);
    assert!(sim.paused());
    sim.toggle_pause(true);
    sim.toggle_pause(false);
    sim.toggle_pause(false);
    assert!(!sim.paused());
}

#[test]
fn even_number_of_flips_changes_nothing() {
    let mut sim = game_with(&[(0, 0), (1, 0), (2, 0)]);
    for _ in 0..6 {
        sim.toggle_pause(true);
    }
    assert!(sim.paused());
    assert_eq!(alive(&sim), vec![(0, 0), (1, 0), (2, 0)]);
    sim.tick();
    assert_eq!(alive(&sim), vec![(0, 0), (1, 0), (2, 0)]);

    sim.toggle_pause(true);
    for _ in 0..4 {
        sim.toggle_pause(true);
    }
    assert!(!sim.paused());
    assert_eq!(alive(&sim), vec![(0, 0), (1, 0), (2, 0)]);
    sim.tick();
    assert_eq!(alive(&sim), vec![(1, -1), (1, 0), (1, 1)]);
}

#[test]
fn paused_ticks_freeze_the_board() {
    let mut sim = game_with(&[(0, 0), (1, 0), (2, 0)]);
    for _ in 0..25 {
        sim.tick();
        assert_eq!(alive(&sim), vec![(0, 0), (1, 0), (2, 0)]);
        assert!(sim.paused());
    }
}

#[test]
fn running_tick_is_one_step() {
    let mut sim = game_with(&[(0, 0), (1, 0), (2, 0)]);
    for _ in 0..5 {
        sim.tick();
    }
    sim.toggle_pause(true);
    sim.tick();
    assert_eq!(alive(&sim), vec![(1, -1), (1, 0), (1, 1)]);
    assert!(!sim.paused());
    sim.tick();
    assert_eq!(alive(&sim), vec![(0, 0), (1, 0), (2, 0)]);
    sim.toggle_pause(true);
    sim.tick();
    assert_eq!(alive(&sim), vec![(0, 0), (1, 0), (2, 0)]);
}

#[test]
fn running_tick_keeps_a_block() {
    let mut sim = game_with(&[(0, 0), (1, 0), (0, 1), (1, 1)]);
    sim.toggle_pause(true);
    sim.tick();
    assert_eq!(alive(&sim), vec![(0, 0), (1, 0), (0, 1), (1, 1)]);
}

#[test]
fn running_tick_on_an_empty_board() {
    let mut sim = game();
    sim.toggle_pause(true);
    sim.tick();
    assert_eq!(alive(&sim), vec![]);
}

#[test]
fn simulate_alone_changes_no_live_cell() {
    let mut sim = game_with(&[(0, 0), (1, 0), (2, 0)]);
    sim.simulate();
    assert_eq!(alive(&sim), vec![(0, 0), (1, 0), (2, 0)]);
    sim.simulate();
    assert_eq!(alive(&sim), vec![(0, 0), (1, 0), (2, 0)]);
}

#[test]
fn apply_commits_what_simulate_computed() {
    let mut sim = game_with(&[(0, 0), (1, 0), (2, 0)]);
    sim.simulate();
    sim.apply_next_state();
    assert_eq!(alive(&sim), vec![(1, -1), (1, 0), (1, 1)]);
    sim.apply_next_state();
    assert_eq!(alive(&sim), vec![(1, -1), (1, 0), (1, 1)]);
}

#[test]
fn apply_after_clear_commits_nothing() {
    let mut sim = game_with(&[(0, 0), (1, 0), (2, 0)]);
    sim.simulate();
    sim.clear_next_state();
    assert_eq!(alive(&sim), vec![(0, 0), (1, 0), (2, 0)]);
    sim.apply_next_state();
    assert_eq!(alive(&sim), vec![]);
}

#[test]
fn simulate_starts_from_scratch() {
    // What an earlier, uncommitted step computed does not leak into the next.
    let mut sim = game_with(&[(0, 0), (1, 0), (2, 0)]);
    sim.simulate();
    sim.handle_cell_click(true, middle_of(0, 0));
    sim.handle_cell_click(true, middle_of(1, 0));
    sim.handle_cell_click(true, middle_of(2, 0));
    sim.simulate();
    sim.apply_next_state();
    assert_eq!(alive(&sim), vec![]);
}

#[test]
fn the_phases_work_while_paused() {
    // The switch gates the tick, not its phases.
    let mut sim = game_with(&[(0, 0), (1, 0), (2, 0)]);
    assert!(sim.paused());
    sim.simulate();
    sim.apply_next_state();
    sim.clear_next_state();
    assert_eq!(alive(&sim), vec![(1, -1), (1, 0), (1, 1)]);
}

#[test]
fn nothing_lives_outside_the_board() {
    let mut sim = game_with(&[(-10, 8), (-10, 9), (-9, 9), (9, -10), (8, -10), (9, -9)]);
    sim.toggle_pause(true);
    for _ in 0..4 {
        sim.tick();
        for p in sim.alive_positions() {
            assert!(sim.grid().contains(p));
            assert!(sim.is_alive(p));
        }
        assert!(!sim.is_alive(pos(-11, 9)));
        assert!(!sim.is_alive(pos(-10, 10)));
        assert!(!sim.is_alive(pos(10, -10)));
    }
}

#[test]
fn edits_between_ticks_are_seen_by_the_next_tick() {
    let mut sim = game_with(&[(0, 0), (1, 0)]);
    sim.toggle_pause(true);
    sim.handle_cell_click(true, middle_of(2, 0));
    sim.tick();
    assert_eq!(alive(&sim), vec![(1, -1), (1, 0), (1, 1)]);
}

const SAMPLE: [(isize, isize); 22] = [
    (2, 2), (3, 2), (4, 2),
    (2, 3), (4, 3),
    (2, 4), (3, 4), (4, 4),
    (2, 5), (3, 5), (4, 5),
    (2, 6), (3, 6), (4, 6),
    (2, 7), (3, 7), (4, 7),
    (2, 8), (4, 8),
    (2, 9), (3, 9), (4, 9),
];

#[test]
fn sample_pattern_on_the_default_board() {
    let mut sim = game();
    sim.assign_sample_lives();
    assert_eq!(alive(&sim), SAMPLE.to_vec());
    assert!(sim.paused());
    assert!(!sim.is_alive(pos(3, 3)));
    assert!(!sim.is_alive(pos(3, 8)));
}

#[test]
fn sample_pattern_keeps_live_cells() {
    let mut sim = game_with(&[(-5, -5), (3, 3), (2, 2)]);
    sim.assign_sample_lives();
    let mut expected = vec![(-5, -5)];
    for &c in SAMPLE.iter() {
        expected.push(c);
        if c == (2, 3) {
            expected.push((3, 3));
        }
    }
    assert_eq!(alive(&sim), expected);
    sim.assign_sample_lives();
    assert_eq!(alive(&sim), expected);
}

#[test]
fn sample_pattern_on_a_small_board() {
    let mut sim = Simulation::new(Grid::new(4).unwrap());
    sim.assign_sample_lives();
    assert_eq!(alive(&sim), vec![(2, 2), (3, 2), (2, 3)]);
    let mut tiny = Simulation::new(Grid::new(2).unwrap());
    tiny.assign_sample_lives();
    assert_eq!(alive(&tiny), vec![]);
}
