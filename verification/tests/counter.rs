use tui_demos::{Command, Counter, InputEvent, Key, KeyPhase, PointerAction, TerminalError};

fn press(code: Key) -> InputEvent {
    InputEvent::Key { code, phase: KeyPhase::Press }
}

#[test]
fn fresh_counter_stands_at_zero() {
    let counter = Counter::new();
    assert_eq!(counter.value(), 0);
    assert!(!counter.exit());
    assert_eq!(counter.ticks(), 0);
    let other = Counter::default();
    assert_eq!(other.value(), 0);
    assert!(!other.exit());
}

#[test]
fn scenario_minus_plus_plus_plus_minus() {
    let mut counter = Counter::new();
    counter.handle_events(press(Key::Char('-')));
    assert_eq!(counter.value(), 0);
    counter.handle_events(press(Key::Char('+')));
    counter.handle_events(press(Key::Char('+')));
    counter.handle_events(press(Key::Char('+')));
    assert_eq!(counter.value(), 3);
    counter.handle_events(press(Key::Char('-')));
    assert_eq!(counter.value(), 2);
    assert!(!counter.exit());
}

#[test]
fn decrement_at_zero_stays_at_zero() {
    let mut counter = Counter::new();
    counter.decrement();
    assert_eq!(counter.value(), 0);
    counter.decrement();
    counter.decrement();
    assert_eq!(counter.value(), 0);
}

#[test]
fn increment_stops_at_the_upper_bound() {
    let mut counter = Counter::new();
    for _ in 0..255 {
        counter.increment();
    }
    assert_eq!(counter.value(), 255);
    counter.increment();
    assert_eq!(counter.value(), 255);
    counter.decrement();
    assert_eq!(counter.value(), 254);
}

#[test]
fn counter_never_leaves_its_bounds() {
    let mut counter = Counter::new();
    let mut expected: i32 = 0;
    for round in 0..1000u32 {
        let command = if round % 7 < 3 || round % 11 == 0 {
            Command::Decrement
        } else {
            Command::Increment
        };
        counter.apply(command);
        expected = match command {
            Command::Increment => (expected + 1).min(255),
            Command::Decrement => (expected - 1).max(0),
            Command::Quit => expected,
        };
        assert_eq!(i32::from(counter.value()), expected);
    }
}

#[test]
fn arrows_and_signs_move_the_counter() {
    let mut counter = Counter::new();
    counter.handle_key_event(Key::Left);
    assert_eq!(counter.value(), 1);
    counter.handle_key_event(Key::Char('+'));
    assert_eq!(counter.value(), 2);
    counter.handle_key_event(Key::Right);
    assert_eq!(counter.value(), 1);
    counter.handle_key_event(Key::Char('-'));
    assert_eq!(counter.value(), 0);
}

#[test]
fn keys_stand_for_commands() {
    assert_eq!(Counter::command_for(Key::Char('q')), Some(Command::Quit));
    assert_eq!(Counter::command_for(Key::Left), Some(Command::Increment));
    assert_eq!(Counter::command_for(Key::Char('+')), Some(Command::Increment));
    assert_eq!(Counter::command_for(Key::Right), Some(Command::Decrement));
    assert_eq!(Counter::command_for(Key::Char('-')), Some(Command::Decrement));
    assert_eq!(Counter::command_for(Key::Char('Q')), None);
    assert_eq!(Counter::command_for(Key::Char('n')), None);
    assert_eq!(Counter::command_for(Key::Other), None);
}

#[test]
fn q_sets_the_exit_flag_and_keeps_the_number() {
    let mut counter = Counter::new();
    counter.increment();
    counter.increment();
    counter.handle_events(press(Key::Char('q')));
    assert!(counter.exit());
    assert_eq!(counter.value(), 2);
    counter.handle_events(press(Key::Char('+')));
    assert!(counter.exit());
    assert_eq!(counter.value(), 3);
}

#[test]
fn quit_command_sets_the_exit_flag() {
    let mut counter = Counter::new();
    counter.apply(Command::Quit);
    assert!(counter.exit());
    assert_eq!(counter.value(), 0);
}

#[test]
fn other_input_changes_nothing() {
    let mut counter = Counter::new();
    counter.increment();
    counter.handle_events(press(Key::Other));
    counter.handle_events(press(Key::Char('x')));
    counter.handle_events(InputEvent::Key { code: Key::Char('+'), phase: KeyPhase::Release });
    counter.handle_events(InputEvent::Key { code: Key::Left, phase: KeyPhase::Repeat });
    counter.handle_events(InputEvent::Pointer { action: PointerAction::Moved });
    counter.handle_events(InputEvent::Other);
    assert_eq!(counter.value(), 1);
    assert!(!counter.exit());
    assert_eq!(counter.ticks(), 0);
}

#[test]
fn tick_counts_frames() {
    let mut counter = Counter::new();
    counter.tick();
    counter.tick();
    assert_eq!(counter.ticks(), 2);
    assert_eq!(counter.value(), 0);
}

#[test]
fn counter_run_stops_at_q() {
    let mut counter = Counter::new();
    let feed = vec![
        Ok(press(Key::Char('+'))),
        Ok(press(Key::Left)),
        Ok(press(Key::Char('-'))),
        Ok(press(Key::Char('q'))),
        Ok(press(Key::Char('+'))),
    ];
    assert_eq!(counter.run(&feed), Ok(4));
    assert_eq!(counter.value(), 1);
    assert!(counter.exit());
    assert_eq!(counter.ticks(), 4);
}

#[test]
fn counter_run_uses_up_a_feed_without_q() {
    let mut counter = Counter::new();
    let feed = vec![Ok(press(Key::Char('-'))), Ok(press(Key::Char('+')))];
    assert_eq!(counter.run(&feed), Ok(2));
    assert_eq!(counter.value(), 1);
    assert!(!counter.exit());
    let nothing = Vec::new();
    assert_eq!(counter.run(&nothing), Ok(0));
    assert_eq!(counter.ticks(), 2);
}

#[test]
fn counter_run_hands_on_a_failure() {
    let mut counter = Counter::new();
    let feed = vec![Ok(press(Key::Left)), Err(TerminalError::Draw), Ok(press(Key::Left))];
    assert_eq!(counter.run(&feed), Err(TerminalError::Draw));
    assert_eq!(counter.value(), 1);
    assert_eq!(counter.ticks(), 2);

    let mut other = Counter::new();
    let feed = vec![Err(TerminalError::Read)];
    assert_eq!(other.run(&feed), Err(TerminalError::Read));
    assert_eq!(other.value(), 0);
}

#[test]
fn counter_run_does_nothing_once_over() {
    let mut counter = Counter::new();
    counter.apply(Command::Quit);
    let feed = vec![Ok(press(Key::Left)), Err(TerminalError::Read)];
    assert_eq!(counter.run(&feed), Ok(0));
    assert_eq!(counter.value(), 0);
    assert_eq!(counter.ticks(), 0);
}
