use gridflow::cell::{conditional, move_cell, shift, Cell, Dir};
use gridflow::engine::{effect_for, RunStatus, Sim};
use gridflow::grid::{pos_of_chars, Grid};
use gridflow::value::{Value, SCALE};

fn units(n: u64) -> Value {
    Value::from_units(n, false)
}

fn grid_of(lines: Vec<Vec<char>>, w: usize, h: usize) -> Grid {
    Grid::new(w, h, &lines)
}

fn sim_with(grid: Grid, cells: Vec<Cell>, cap: u64) -> Sim {
    Sim { grid, cells, outputs: Vec::new(), cap, counter: 0, used: 0 }
}

#[test]
fn grid_lookup_and_void_default() {
    let g = grid_of(vec![vec!['>', 'o']], 3, 2);
    assert_eq!(g.symbol_at(0, 0), '>');
    assert_eq!(g.symbol_at(1, 0), 'o');
    // uncovered cells default to the void symbol
    assert_eq!(g.symbol_at(2, 0), '.');
    assert_eq!(g.symbol_at(0, 1), '.');
    // out of bounds reads the void symbol instead of erroring
    assert_eq!(g.symbol_at(17, 0), '.');
    assert_eq!(g.symbol_at(0, 99), '.');
}

#[test]
fn positions_are_row_major() {
    let rows = vec![vec!['i', 'x'], vec!['x', 'i'], vec!['i', 'x']];
    let ps = pos_of_chars(&rows, 'i');
    assert_eq!(ps, vec![(0, 0), (1, 1), (0, 2)]);
    assert_eq!(pos_of_chars(&rows, 'z'), Vec::<(usize, usize)>::new());
}

#[test]
fn seeding_places_tokens_on_input_cells() {
    let g = grid_of(vec![vec!['i', ' ', 'i']], 3, 1);
    let seeds = vec![units(1), units(2)];
    let sim = Sim::new(g, &seeds, 10);
    assert_eq!(sim.cells.len(), 2);
    assert_eq!(sim.cells[0].pos, (0, 0));
    assert_eq!(sim.cells[0].val, units(1));
    assert!(matches!(sim.cells[0].dir, Dir::Down));
    assert_eq!(sim.cells[1].pos, (2, 0));
    assert_eq!(sim.cells[1].val, units(2));
    assert_eq!(sim.counter, 0);
}

#[test]
fn scenario_route_right_and_emit() {
    // a token seeded with 5 standing on `>`: tick one turns it right
    // and moves it onto `o`; tick two emits 5 and removes it; the
    // run ends when the token set empties
    let g = grid_of(vec![vec!['>', 'o']], 2, 1);
    let mut sim = sim_with(g, vec![Cell::new((0, 0), units(5), Dir::Down)], 100);
    let ins: Vec<Value> = Vec::new();
    let r = sim.run(&ins, 50);
    assert_eq!(r.status, RunStatus::Halted);
    assert_eq!(sim.outputs, vec![units(5)]);
    assert_eq!(sim.cells.len(), 0);
    assert_eq!(sim.counter, 2);
    assert_eq!(r.ticks, 2);
}

#[test]
fn scenario_equal_merge_picks_right_or_down_mover() {
    // two tokens of value 3 arriving on the same cell at once: the
    // right- or down-moving one receives, the values add to 6, and
    // exactly one token survives
    let g = grid_of(vec![vec![' ', ' '], vec![' ', ' ']], 2, 2);
    let mover_right = Cell::new((0, 1), units(3), Dir::Right);
    let mover_down = Cell::new((1, 0), units(3), Dir::Down);
    let mut sim = sim_with(g, vec![mover_right, mover_down], 100);
    let ins: Vec<Value> = Vec::new();
    // tick one: both move onto (1, 1)
    sim.step(&ins);
    assert_eq!(sim.cells.len(), 2);
    assert_eq!(sim.cells[0].pos, (1, 1));
    assert_eq!(sim.cells[1].pos, (1, 1));
    // tick two: they merge; the right-mover (listed first) receives
    sim.step(&ins);
    assert_eq!(sim.cells.len(), 1);
    assert_eq!(sim.cells[0].val, units(6));
    assert!(matches!(sim.cells[0].dir, Dir::Right));
    assert_eq!(sim.outputs.len(), 0);
}

#[test]
fn unequal_merge_greater_absorbs() {
    // merge is conservative: the survivor's value is the sum of both
    let g = grid_of(vec![vec![' ']], 1, 1);
    let a = Cell::new((0, 0), units(5), Dir::Neutral);
    let b = Cell::new((0, 0), units(3), Dir::Neutral);
    let mut sim = sim_with(g, vec![b, a], 100);
    let ins: Vec<Value> = Vec::new();
    sim.step(&ins);
    assert_eq!(sim.cells.len(), 1);
    assert_eq!(sim.cells[0].val, units(8));
}

#[test]
fn token_on_void_is_removed() {
    let g = grid_of(vec![vec!['.']], 1, 1);
    let mut sim = sim_with(g, vec![Cell::new((0, 0), units(9), Dir::Right)], 100);
    let ins: Vec<Value> = Vec::new();
    sim.step(&ins);
    assert_eq!(sim.cells.len(), 0);
    assert_eq!(sim.outputs.len(), 0);
    assert!(sim.is_halted());
}

#[test]
fn token_off_grid_is_removed() {
    // a token that moved off the grid reads the void symbol and is
    // gone by the next tick, never to appear again
    let g = grid_of(vec![vec![' ', ' ']], 2, 1);
    let mut sim = sim_with(g, vec![Cell::new((1, 0), units(1), Dir::Right)], 100);
    let ins: Vec<Value> = Vec::new();
    sim.step(&ins);
    assert_eq!(sim.cells.len(), 1);
    assert_eq!(sim.cells[0].pos, (2, 0));
    sim.step(&ins);
    assert_eq!(sim.cells.len(), 0);
}

#[test]
fn outputs_come_in_token_order() {
    let g = grid_of(vec![vec!['o', 'o']], 2, 1);
    let first = Cell::new((0, 0), units(1), Dir::Neutral);
    let second = Cell::new((1, 0), units(2), Dir::Neutral);
    let mut sim = sim_with(g, vec![first, second], 100);
    let ins: Vec<Value> = Vec::new();
    sim.step(&ins);
    assert_eq!(sim.outputs, vec![units(1), units(2)]);
    assert_eq!(sim.cells.len(), 0);
}

#[test]
fn cap_zero_never_increments_counter() {
    // a spinning loop under a cap of zero keeps running and the
    // counter never moves
    let g = grid_of(vec![vec!['>', 'v'], vec!['^', '<']], 2, 2);
    let mut sim = sim_with(g, vec![Cell::new((0, 0), units(1), Dir::Right)], 0);
    let ins: Vec<Value> = Vec::new();
    let r = sim.run(&ins, 7);
    assert_eq!(r.status, RunStatus::Budget);
    assert_eq!(r.ticks, 7);
    assert_eq!(sim.counter, 0);
    assert_eq!(sim.cells.len(), 1);
    assert!(!sim.is_halted());
}

#[test]
fn cap_zero_run_ends_by_token_exhaustion() {
    let g = grid_of(vec![vec!['>', 'o']], 2, 1);
    let mut sim = sim_with(g, vec![Cell::new((0, 0), units(5), Dir::Down)], 0);
    let ins: Vec<Value> = Vec::new();
    let r = sim.run(&ins, 50);
    assert_eq!(r.status, RunStatus::Halted);
    assert_eq!(sim.counter, 0);
    assert_eq!(sim.cells.len(), 0);
    assert_eq!(sim.outputs, vec![units(5)]);
}

#[test]
fn nonzero_cap_truncates_spinning_loop() {
    let g = grid_of(vec![vec!['>', 'v'], vec!['^', '<']], 2, 2);
    let mut sim = sim_with(g, vec![Cell::new((0, 0), units(1), Dir::Right)], 5);
    let ins: Vec<Value> = Vec::new();
    let r = sim.run(&ins, 100);
    assert_eq!(r.status, RunStatus::Halted);
    assert_eq!(sim.counter, 5);
    assert_eq!(r.ticks, 5);
    assert_eq!(sim.cells.len(), 1);
    assert!(sim.is_halted());
}

#[test]
fn poll_waits_for_input_then_resumes() {
    let g = grid_of(vec![vec!['?', 'o']], 2, 1);
    let mut sim = sim_with(g, vec![Cell::new((0, 0), units(0), Dir::Right)], 100);
    let mut ins: Vec<Value> = Vec::new();
    let r = sim.run(&ins, 50);
    assert_eq!(r.status, RunStatus::NeedInput);
    assert_eq!(r.at, Some((0, 0)));
    assert_eq!(sim.cells.len(), 1);
    assert_eq!(sim.counter, 0);
    ins.push(units(7));
    let r2 = sim.run(&ins, 50);
    assert_eq!(r2.status, RunStatus::Halted);
    assert_eq!(sim.outputs, vec![units(7)]);
    assert_eq!(sim.used, 1);
}

#[test]
fn parity_instruction_routes_by_value() {
    for d in [Dir::Up, Dir::Down, Dir::Left, Dir::Right, Dir::Neutral] {
        let even = effect_for('e', Cell::new((0, 0), units(4), d), None);
        assert!(matches!(even.cell.dir, Dir::Right));
        let odd = effect_for('e', Cell::new((0, 0), units(3), d), None);
        assert!(matches!(odd.cell.dir, Dir::Left));
        let frac = effect_for(
            'e',
            Cell::new((0, 0), Value::from_parts(false, 2 * SCALE + SCALE / 2), d),
            None,
        );
        assert!(matches!(frac.cell.dir, Dir::Left));
    }
}

#[test]
fn arrows_and_bounce_set_direction() {
    let c = Cell::new((1, 1), units(1), Dir::Down);
    assert!(matches!(effect_for('>', c, None).cell.dir, Dir::Right));
    assert!(matches!(effect_for('<', c, None).cell.dir, Dir::Left));
    assert!(matches!(effect_for('^', c, None).cell.dir, Dir::Up));
    assert!(matches!(effect_for('v', c, None).cell.dir, Dir::Down));
    let up = Cell::new((1, 1), units(1), Dir::Up);
    let right = Cell::new((1, 1), units(1), Dir::Right);
    assert!(matches!(effect_for('\\', up, None).cell.dir, Dir::Left));
    assert!(matches!(effect_for('\\', c, None).cell.dir, Dir::Right));
    assert!(matches!(effect_for('\\', right, None).cell.dir, Dir::Down));
}

#[test]
fn negate_instruction_on_zero_and_nonzero() {
    let z = effect_for('!', Cell::new((0, 0), Value::zero(), Dir::Right), None);
    assert_eq!(z.cell.val, units(1));
    let n = effect_for('!', Cell::new((0, 0), units(5), Dir::Right), None);
    assert_eq!(n.cell.val, Value::from_units(5, true));
    let twice = effect_for('!', Cell::new((0, 0), n.cell.val, Dir::Right), None);
    assert_eq!(twice.cell.val, units(5));
}

#[test]
fn conditional_turns_follow_axis_rule() {
    // vertical movers: right when the condition holds, else left
    let mut c = Cell::new((0, 0), units(1), Dir::Down);
    conditional(&mut c, true);
    assert!(matches!(c.dir, Dir::Right));
    let mut c = Cell::new((0, 0), units(1), Dir::Up);
    conditional(&mut c, false);
    assert!(matches!(c.dir, Dir::Left));
    // horizontal movers: down when the condition holds, else up
    let mut c = Cell::new((0, 0), units(1), Dir::Left);
    conditional(&mut c, true);
    assert!(matches!(c.dir, Dir::Down));
    let mut c = Cell::new((0, 0), units(1), Dir::Right);
    conditional(&mut c, false);
    assert!(matches!(c.dir, Dir::Up));
    // a neutral token is unaffected
    let mut c = Cell::new((0, 0), units(1), Dir::Neutral);
    conditional(&mut c, true);
    assert!(matches!(c.dir, Dir::Neutral));
}

#[test]
fn underscore_and_z_instructions() {
    let neg = effect_for('_', Cell::new((0, 0), Value::from_units(2, true), Dir::Down), None);
    assert!(matches!(neg.cell.dir, Dir::Right));
    let pos = effect_for('_', Cell::new((0, 0), units(2), Dir::Down), None);
    assert!(matches!(pos.cell.dir, Dir::Left));
    let zero = effect_for('z', Cell::new((0, 0), Value::zero(), Dir::Right), None);
    assert!(matches!(zero.cell.dir, Dir::Down));
    let nonzero = effect_for('z', Cell::new((0, 0), units(2), Dir::Right), None);
    assert!(matches!(nonzero.cell.dir, Dir::Up));
}

#[test]
fn spawners_require_matching_axis() {
    let vertical = Cell::new((2, 2), units(4), Dir::Down);
    let horizontal = Cell::new((2, 2), units(4), Dir::Right);
    let p = effect_for('p', vertical, None);
    let sp = p.spawn.expect("vertical mover on p spawns");
    assert_eq!(sp.pos, (2, 2));
    assert_eq!(sp.val, units(4));
    assert!(matches!(sp.dir, Dir::Right));
    assert!(effect_for('p', horizontal, None).spawn.is_none());
    let q = effect_for('q', vertical, None).spawn.expect("vertical mover on q spawns");
    assert!(matches!(q.dir, Dir::Left));
    let w = effect_for('w', horizontal, None).spawn.expect("horizontal mover on w spawns");
    assert!(matches!(w.dir, Dir::Down));
    assert!(effect_for('w', vertical, None).spawn.is_none());
    let m = effect_for('m', horizontal, None).spawn.expect("horizontal mover on m spawns");
    assert!(matches!(m.dir, Dir::Up));
}

#[test]
fn pipe_splits_vertical_movers_and_passes_horizontal_through() {
    // a down-mover on `|` turns left and spawns a right-moving twin;
    // the twin does not move on its birth tick
    let g = grid_of(vec![vec![' ', '|', ' ']], 3, 1);
    let mut sim = sim_with(g, vec![Cell::new((1, 0), units(2), Dir::Down)], 100);
    let ins: Vec<Value> = Vec::new();
    sim.step(&ins);
    assert_eq!(sim.cells.len(), 2);
    assert_eq!(sim.cells[0].pos, (0, 0));
    assert!(matches!(sim.cells[0].dir, Dir::Left));
    assert_eq!(sim.cells[1].pos, (1, 0));
    assert!(matches!(sim.cells[1].dir, Dir::Right));
    // a right-mover is nudged one step further and then moves: it
    // crosses the splitter in a single tick
    let g2 = grid_of(vec![vec!['|', ' ', 'o']], 3, 1);
    let mut sim2 = sim_with(g2, vec![Cell::new((0, 0), units(2), Dir::Right)], 100);
    sim2.step(&ins);
    assert_eq!(sim2.cells.len(), 1);
    assert_eq!(sim2.cells[0].pos, (2, 0));
}

#[test]
fn equals_splits_horizontal_movers() {
    let g = grid_of(vec![vec![' '], vec!['='], vec![' ']], 1, 3);
    let mut sim = sim_with(g, vec![Cell::new((0, 1), units(2), Dir::Right)], 100);
    let ins: Vec<Value> = Vec::new();
    sim.step(&ins);
    assert_eq!(sim.cells.len(), 2);
    assert_eq!(sim.cells[0].pos, (0, 0));
    assert!(matches!(sim.cells[0].dir, Dir::Up));
    assert_eq!(sim.cells[1].pos, (0, 1));
    assert!(matches!(sim.cells[1].dir, Dir::Down));
}

#[test]
fn slow_instruction_freezes_for_one_visit() {
    let g = grid_of(vec![vec!['s', ' ', ' ']], 3, 1);
    let mut sim = sim_with(g, vec![Cell::new((0, 0), units(1), Dir::Right)], 100);
    let ins: Vec<Value> = Vec::new();
    sim.step(&ins);
    // frozen: it did not move
    assert_eq!(sim.cells[0].pos, (0, 0));
    assert!(sim.cells[0].frozen);
    sim.step(&ins);
    // unfrozen on the second visit: it moves on
    assert_eq!(sim.cells[0].pos, (1, 0));
    assert!(!sim.cells[0].frozen);
}

#[test]
fn arithmetic_instructions_change_values() {
    let c = Cell::new((0, 0), units(6), Dir::Right);
    assert_eq!(effect_for('+', c, None).cell.val, units(7));
    assert_eq!(effect_for('-', c, None).cell.val, units(5));
    assert_eq!(effect_for('*', c, None).cell.val, units(12));
    assert_eq!(effect_for('/', c, None).cell.val, units(3));
    assert_eq!(effect_for('n', c, None).cell.val, units(1));
    assert_eq!(effect_for('c', c, None).cell.val, units(6));
    assert_eq!(effect_for('f', c, None).cell.val, units(6));
    assert_eq!(effect_for('%', c, None).cell.val, Value::zero());
}

#[test]
fn unknown_symbols_pass_tokens_through() {
    let c = Cell::new((0, 0), units(6), Dir::Right);
    let r = effect_for('x', c, None);
    assert_eq!(r.cell.pos, (0, 0));
    assert_eq!(r.cell.val, units(6));
    assert!(matches!(r.cell.dir, Dir::Right));
    assert!(r.spawn.is_none());
    assert!(r.output.is_none());
    // the input symbol itself has no effect either
    let i = effect_for('i', c, None);
    assert_eq!(i.cell.val, units(6));
}

#[test]
fn movement_helpers() {
    let mut c = Cell::new((3, 4), units(1), Dir::Right);
    move_cell(&mut c, (7, 8));
    assert_eq!(c.pos, (7, 8));
    shift(&mut c, (1, 0));
    assert_eq!(c.pos, (8, 8));
    shift(&mut c, (0, -1));
    assert_eq!(c.pos, (8, 7));
    let mut edge = Cell::new((0, 0), units(1), Dir::Left);
    shift(&mut edge, (-1, 0));
    assert_eq!(edge.pos, (usize::MAX, 0));
    let d = Dir::Up.delta();
    assert_eq!(d, (0, -1));
    assert_eq!(Dir::Neutral.delta(), (0, 0));
}

#[test]
fn frame_shows_token_digits_over_symbols() {
    let g = grid_of(vec![vec!['>', 'o']], 2, 1);
    let mut sim = sim_with(g, vec![Cell::new((0, 0), units(12), Dir::Down)], 100);
    assert_eq!(sim.frame(), vec![vec!['2', 'o']]);
    assert_eq!(sim.occupant_at(0, 0), Some(units(12)));
    assert_eq!(sim.occupant_at(1, 0), None);
    let ins: Vec<Value> = Vec::new();
    sim.step(&ins);
    assert_eq!(sim.frame(), vec![vec!['>', '2']]);
}

#[test]
fn frame_shows_last_token_on_a_shared_cell() {
    let g = grid_of(vec![vec![' ']], 1, 1);
    let a = Cell::new((0, 0), units(3), Dir::Neutral);
    let b = Cell::new((0, 0), units(7), Dir::Neutral);
    let sim = sim_with(g, vec![a, b], 100);
    assert_eq!(sim.frame(), vec![vec!['7']]);
}
