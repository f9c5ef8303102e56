use conway::action::{Action, do_action};
use conway::cell::Cell;
use conway::colony::Colony;
use conway::input::{handle_input, InputEvent, PointerButton};
use conway::liveset::LiveSet;
use conway::run::{apply_all, run_tick, tick};

fn cells_of(coords: &[(i64, i64)]) -> Vec<Cell> {
    coords.iter().map(|&(x, y)| Cell { x, y }).collect()
}

fn colony_of(coords: &[(i64, i64)], paused: bool) -> Colony {
    Colony { grid: LiveSet::from_cells(&cells_of(coords)), is_paused: paused }
}

fn same_cells(grid: &LiveSet, coords: &[(i64, i64)]) -> bool {
    grid.set_eq(&LiveSet::from_cells(&cells_of(coords)))
}

#[test]
fn decoder_key_table() {
    assert_eq!(handle_input(InputEvent::Key('q')), Some(Action::Quit));
    assert_eq!(handle_input(InputEvent::Key('p')), Some(Action::Pause));
    assert_eq!(handle_input(InputEvent::Key('c')), Some(Action::Continue));
    assert_eq!(handle_input(InputEvent::Key('r')), Some(Action::Restart));
    assert_eq!(handle_input(InputEvent::Key('s')), Some(Action::Step));
}

#[test]
fn decoder_only_q_quits_and_unrecognized_keys_are_ignored() {
    for ch in ['a', 'b', 'x', 'z', 'Q', ' ', '1', '\n'] {
        let decoded = handle_input(InputEvent::Key(ch));
        assert_ne!(decoded, Some(Action::Quit));
        assert_eq!(decoded, None);
    }
    assert_ne!(handle_input(InputEvent::Key('p')), Some(Action::Quit));
    assert_ne!(handle_input(InputEvent::Key('c')), Some(Action::Quit));
    assert_ne!(handle_input(InputEvent::Key('r')), Some(Action::Quit));
    assert_ne!(handle_input(InputEvent::Key('s')), Some(Action::Quit));
}

#[test]
fn decoder_pointer_table() {
    let at = Cell { x: 4, y: 9 };
    assert_eq!(
        handle_input(InputEvent::PointerPress(PointerButton::Primary, at)),
        Some(Action::Put(at))
    );
    assert_eq!(
        handle_input(InputEvent::PointerPress(PointerButton::Secondary, at)),
        Some(Action::Remove(at))
    );
    assert_eq!(handle_input(InputEvent::PointerPress(PointerButton::Other, at)), None);
    assert_eq!(handle_input(InputEvent::PointerHold(at)), Some(Action::Put(at)));
    assert_eq!(handle_input(InputEvent::Other), None);
}

#[test]
fn put_is_idempotent() {
    let p = Cell { x: 2, y: 3 };
    let once = do_action(Action::Put(p), Colony::new()).unwrap();
    let twice = do_action(Action::Put(p), do_action(Action::Put(p), Colony::new()).unwrap())
        .unwrap();
    assert!(once.grid.set_eq(&twice.grid));
    assert!(same_cells(&once.grid, &[(2, 3)]));
}

#[test]
fn remove_of_absent_cell_is_a_no_op() {
    let before = colony_of(&[(1, 1), (2, 2)], false);
    let after = do_action(Action::Remove(Cell { x: 9, y: 9 }), before).unwrap();
    assert!(same_cells(&after.grid, &[(1, 1), (2, 2)]));
    assert!(!after.is_paused);
}

#[test]
fn remove_of_live_cell_removes_it() {
    let before = colony_of(&[(1, 1), (2, 2)], true);
    let after = do_action(Action::Remove(Cell { x: 2, y: 2 }), before).unwrap();
    assert!(same_cells(&after.grid, &[(1, 1)]));
}

#[test]
fn restart_empties_and_preserves_paused() {
    let a = do_action(Action::Restart, colony_of(&[(1, 1)], true)).unwrap();
    assert!(a.grid.is_empty());
    assert!(a.is_paused);
    let b = do_action(Action::Restart, colony_of(&[(1, 1)], false)).unwrap();
    assert!(b.grid.is_empty());
    assert!(!b.is_paused);
}

#[test]
fn step_advances_once_and_forces_pause() {
    let seed = &[(1, 0), (1, 1), (1, 2)];
    let from_running = do_action(Action::Step, colony_of(seed, false)).unwrap();
    assert!(from_running.is_paused);
    assert!(same_cells(&from_running.grid, &[(0, 1), (1, 1), (2, 1)]));
    let from_paused = do_action(Action::Step, colony_of(seed, true)).unwrap();
    assert!(from_paused.is_paused);
    assert!(same_cells(&from_paused.grid, &[(0, 1), (1, 1), (2, 1)]));
}

#[test]
fn pause_and_continue_only_touch_the_flag() {
    let paused = do_action(Action::Pause, colony_of(&[(1, 1)], false)).unwrap();
    assert!(paused.is_paused);
    assert!(same_cells(&paused.grid, &[(1, 1)]));
    let running = do_action(Action::Continue, colony_of(&[(1, 1)], true)).unwrap();
    assert!(!running.is_paused);
    assert!(same_cells(&running.grid, &[(1, 1)]));
}

#[test]
fn quit_terminates() {
    assert!(do_action(Action::Quit, Colony::new()).is_none());
}

#[test]
fn quit_in_the_queue_stops_and_skips_the_rest() {
    let actions = vec![
        Action::Put(Cell { x: 0, y: 0 }),
        Action::Quit,
        Action::Put(Cell { x: 1, y: 1 }),
    ];
    assert!(apply_all(&actions, Colony::new()).is_none());
}

#[test]
fn apply_all_applies_in_arrival_order() {
    let p = Cell { x: 0, y: 0 };
    let actions = vec![Action::Put(p), Action::Remove(p), Action::Put(p), Action::Pause];
    let out = apply_all(&actions, Colony::new()).unwrap();
    assert!(same_cells(&out.grid, &[(0, 0)]));
    assert!(out.is_paused);
}

#[test]
fn tick_advances_only_when_running() {
    let seed = &[(1, 0), (1, 1), (1, 2)];
    let stayed = tick(colony_of(seed, true));
    assert!(same_cells(&stayed.grid, seed));
    let advanced = tick(colony_of(seed, false));
    assert!(same_cells(&advanced.grid, &[(0, 1), (1, 1), (2, 1)]));
}

#[test]
fn continue_then_two_ticks_walks_the_blinker_cycle() {
    // end to end: start paused with the blinker seed; a Continue action and
    // the tick advance to the rotated phase, the next plain tick comes back
    let seed = &[(1, 0), (1, 1), (1, 2)];
    let start = colony_of(seed, true);
    let after_first = run_tick(&vec![Action::Continue], start).unwrap();
    assert!(!after_first.is_paused);
    assert!(same_cells(&after_first.grid, &[(0, 1), (1, 1), (2, 1)]));
    let after_second = run_tick(&Vec::new(), after_first).unwrap();
    assert!(!after_second.is_paused);
    assert!(same_cells(&after_second.grid, seed));
}
