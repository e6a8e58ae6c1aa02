use keyscan::consumer::{handling, report_due, write_again, Handling};
use keyscan::debounce::Debouncer;
use keyscan::demux_matrix::DemuxMatrix;
use keyscan::encoder::Encoder;
use keyscan::event::{InputEvent, PinError, PinLevel};
use keyscan::layout::{
    custom_action, CustomActions, BOOTLOADER_KEY, ENCODER_LEFT, ENCODER_RIGHT,
};
use keyscan::scheduler::{Command, Completion, Phase, Scheduler};

const L: PinLevel = PinLevel::Low;
const H: PinLevel = PinLevel::High;

fn scheduler(threshold: u16) -> Scheduler<2, 2> {
    Scheduler::new(
        DemuxMatrix::new(2),
        Debouncer::new(threshold),
        Encoder::new(L, L, ENCODER_LEFT, ENCODER_RIGHT),
        1000,
    )
}

/// Runs one tick in which no line fails. Returns every command given.
fn tick(
    s: &mut Scheduler<2, 2>,
    readings: [[PinLevel; 2]; 2],
    phases: (PinLevel, PinLevel),
) -> Vec<Command> {
    let mut given = vec![s.step(Completion::TimerFired)];
    given.push(s.step(Completion::Done));
    given.push(s.step(Completion::Done));
    for column in readings {
        given.push(s.step(Completion::Rows(Ok(column))));
    }
    given.push(s.step(Completion::Phases(Ok(phases))));
    given.push(s.step(Completion::Done));
    given.push(s.step(Completion::Done));
    given
}

fn forwarded(given: &[Command]) -> Vec<InputEvent> {
    for command in given {
        if let Command::Forward { events, .. } = command {
            return events.clone();
        }
    }
    panic!("no events were forwarded");
}

#[test]
fn new_scheduler_is_between_ticks() {
    let s = scheduler(3);
    assert_eq!(s.phase(), Phase::Idle);
    assert_eq!(s.period_us(), 1000);
}

#[test]
fn tick_gives_its_commands_in_order() {
    let mut s = scheduler(3);
    let given = tick(&mut s, [[H, H], [H, H]], (L, L));
    assert_eq!(
        given,
        vec![
            Command::RearmTimer { period_us: 1000 },
            Command::FeedWatchdog,
            Command::Address { column: 0, levels: [L, L, L, L] },
            Command::Address { column: 1, levels: [H, L, L, L] },
            Command::SampleEncoder,
            Command::Forward { events: vec![], scan_fault: None, encoder_fault: None },
            Command::TickConsumer,
            Command::Wait,
        ]
    );
    assert_eq!(s.phase(), Phase::Idle);
}

#[test]
fn phases_follow_the_commands() {
    let mut s = scheduler(3);
    s.step(Completion::TimerFired);
    assert_eq!(s.phase(), Phase::Rearming);
    s.step(Completion::Done);
    assert_eq!(s.phase(), Phase::Feeding);
    s.step(Completion::Done);
    assert_eq!(s.phase(), Phase::Scanning);
    s.step(Completion::Rows(Ok([H, H])));
    assert_eq!(s.phase(), Phase::Scanning);
    s.step(Completion::Rows(Ok([H, H])));
    assert_eq!(s.phase(), Phase::Sampling);
    s.step(Completion::Phases(Ok((L, L))));
    assert_eq!(s.phase(), Phase::Forwarding);
    s.step(Completion::Done);
    assert_eq!(s.phase(), Phase::Ticking);
    s.step(Completion::Done);
    assert_eq!(s.phase(), Phase::Idle);
}

#[test]
fn timer_period_is_the_configured_one() {
    let mut s: Scheduler<2, 2> = Scheduler::new(
        DemuxMatrix::new(2),
        Debouncer::new(1),
        Encoder::new(L, L, ENCODER_LEFT, ENCODER_RIGHT),
        250,
    );
    assert_eq!(s.step(Completion::TimerFired), Command::RearmTimer { period_us: 250 });
}

#[test]
fn debounced_press_is_forwarded_on_the_third_tick() {
    let mut s = scheduler(3);
    // Key at row 1, column 0 held: its sense line reads low in column 0.
    let held = [[H, L], [H, H]];
    assert_eq!(forwarded(&tick(&mut s, held, (L, L))), vec![]);
    assert_eq!(forwarded(&tick(&mut s, held, (L, L))), vec![]);
    assert_eq!(forwarded(&tick(&mut s, held, (L, L))), vec![InputEvent::Press(1, 0)]);
    assert_eq!(forwarded(&tick(&mut s, held, (L, L))), vec![]);
    assert!(s.debouncer().is_pressed(1, 0));
}

#[test]
fn matrix_events_come_before_encoder_events() {
    let mut s = scheduler(1);
    let all = [[L, L], [L, L]];
    assert_eq!(
        forwarded(&tick(&mut s, all, (L, H))),
        vec![
            InputEvent::Press(0, 0),
            InputEvent::Press(0, 1),
            InputEvent::Press(1, 0),
            InputEvent::Press(1, 1),
            InputEvent::Press(4, 14),
            InputEvent::Release(4, 14),
        ]
    );
    assert_eq!(s.encoder().pulses(), 1);
}

#[test]
fn encoder_step_is_forwarded_as_a_tap() {
    let mut s = scheduler(3);
    let none = [[H, H], [H, H]];
    assert_eq!(
        forwarded(&tick(&mut s, none, (H, L))),
        vec![InputEvent::Press(3, 14), InputEvent::Release(3, 14)]
    );
    assert_eq!(forwarded(&tick(&mut s, none, (H, L))), vec![]);
}

#[test]
fn pin_error_during_scan_leaves_the_tick_alive() {
    let mut s = scheduler(1);
    let fault = PinError { pin: 20 };
    // The timer is re-armed and the watchdog fed before anything is read.
    assert_eq!(s.step(Completion::TimerFired), Command::RearmTimer { period_us: 1000 });
    assert_eq!(s.step(Completion::Done), Command::FeedWatchdog);
    assert_eq!(
        s.step(Completion::Done),
        Command::Address { column: 0, levels: [L, L, L, L] }
    );
    // Column 0 shows two keys down, then column 1 fails.
    assert_eq!(
        s.step(Completion::Rows(Ok([L, L]))),
        Command::Address { column: 1, levels: [H, L, L, L] }
    );
    assert_eq!(s.step(Completion::Rows(Err(fault))), Command::SampleEncoder);
    // No matrix event, although the threshold is one reading; the error is
    // handed on.
    assert_eq!(
        s.step(Completion::Phases(Ok((L, L)))),
        Command::Forward { events: vec![], scan_fault: Some(fault), encoder_fault: None }
    );
    assert_eq!(s.step(Completion::Done), Command::TickConsumer);
    assert_eq!(s.step(Completion::Done), Command::Wait);
    assert_eq!(s.phase(), Phase::Idle);
    // The filter has not seen the partial grid.
    assert!(!s.debouncer().is_pressed(0, 0));
    assert!(!s.debouncer().is_pressed(1, 0));
}

#[test]
fn tick_after_a_pin_error_scans_again() {
    let mut s = scheduler(1);
    s.step(Completion::TimerFired);
    s.step(Completion::Done);
    s.step(Completion::Done);
    s.step(Completion::Rows(Err(PinError { pin: 4 })));
    s.step(Completion::Phases(Ok((L, L))));
    s.step(Completion::Done);
    s.step(Completion::Done);
    let given = tick(&mut s, [[L, H], [H, H]], (L, L));
    assert_eq!(
        given[5],
        Command::Forward {
            events: vec![InputEvent::Press(0, 0)],
            scan_fault: None,
            encoder_fault: None
        }
    );
}

#[test]
fn encoder_error_is_handed_on_with_the_matrix_events() {
    let mut s = scheduler(1);
    let fault = PinError { pin: 8 };
    s.step(Completion::TimerFired);
    s.step(Completion::Done);
    s.step(Completion::Done);
    s.step(Completion::Rows(Ok([H, H])));
    s.step(Completion::Rows(Ok([H, L])));
    assert_eq!(
        s.step(Completion::Phases(Err(fault))),
        Command::Forward {
            events: vec![InputEvent::Press(1, 1)],
            scan_fault: None,
            encoder_fault: Some(fault)
        }
    );
}

#[test]
fn completion_that_is_not_awaited_changes_nothing() {
    let mut s = scheduler(1);
    assert_eq!(s.step(Completion::Done), Command::Wait);
    assert_eq!(s.step(Completion::Rows(Ok([L, L]))), Command::Wait);
    assert_eq!(s.step(Completion::Phases(Ok((H, H)))), Command::Wait);
    assert_eq!(s.phase(), Phase::Idle);
    assert_eq!(s.encoder().pulses(), 0);
    s.step(Completion::TimerFired);
    assert_eq!(s.step(Completion::Rows(Ok([L, L]))), Command::Wait);
    assert_eq!(s.step(Completion::Phases(Ok((H, H)))), Command::Wait);
    assert_eq!(s.phase(), Phase::Rearming);
    s.step(Completion::Done);
    s.step(Completion::Done);
    assert_eq!(s.step(Completion::Done), Command::Wait);
    assert_eq!(s.step(Completion::Phases(Ok((H, H)))), Command::Wait);
    assert_eq!(s.phase(), Phase::Scanning);
}

#[test]
fn timer_interrupt_starts_a_tick_from_any_phase() {
    let mut s = scheduler(1);
    s.step(Completion::TimerFired);
    s.step(Completion::Done);
    s.step(Completion::Done);
    s.step(Completion::Rows(Ok([L, L])));
    // The tick is cut short by the next interrupt.
    assert_eq!(s.step(Completion::TimerFired), Command::RearmTimer { period_us: 1000 });
    assert_eq!(s.phase(), Phase::Rearming);
    assert_eq!(s.step(Completion::Done), Command::FeedWatchdog);
    assert_eq!(
        s.step(Completion::Done),
        Command::Address { column: 0, levels: [L, L, L, L] }
    );
    s.step(Completion::Rows(Ok([H, H])));
    s.step(Completion::Rows(Ok([H, H])));
    assert_eq!(
        s.step(Completion::Phases(Ok((L, L)))),
        Command::Forward { events: vec![], scan_fault: None, encoder_fault: None }
    );
}

#[test]
fn matrix_without_wired_columns_goes_straight_to_the_encoder() {
    let mut s: Scheduler<2, 2> = Scheduler::new(
        DemuxMatrix::new(0),
        Debouncer::new(1),
        Encoder::new(L, L, ENCODER_LEFT, ENCODER_RIGHT),
        1000,
    );
    s.step(Completion::TimerFired);
    s.step(Completion::Done);
    assert_eq!(s.step(Completion::Done), Command::SampleEncoder);
}

#[test]
fn encoder_keys_are_the_reserved_ones() {
    assert_eq!(ENCODER_LEFT, (3, 14));
    assert_eq!(ENCODER_RIGHT, (4, 14));
}

#[test]
fn bootloader_key_press_calls_for_the_bootloader() {
    assert_eq!(BOOTLOADER_KEY, (2, 0));
    assert_eq!(custom_action(InputEvent::Press(2, 0)), Some(CustomActions::Bootloader));
    assert_eq!(custom_action(InputEvent::Release(2, 0)), None);
    assert_eq!(custom_action(InputEvent::Press(0, 2)), None);
    assert_eq!(custom_action(InputEvent::Press(2, 1)), None);
    assert_eq!(custom_action(InputEvent::Press(3, 14)), None);
}

#[test]
fn queue_item_is_fed_or_ticks() {
    assert_eq!(
        handling(Some(InputEvent::Press(1, 2))),
        Handling::Feed(InputEvent::Press(1, 2))
    );
    assert_eq!(handling(None), Handling::Tick);
}

#[test]
fn report_goes_out_when_changed_and_configured() {
    assert!(report_due(true, true));
    assert!(!report_due(true, false));
    assert!(!report_due(false, true));
    assert!(!report_due(false, false));
}

#[test]
fn write_is_repeated_while_nothing_was_taken() {
    assert!(write_again(Ok(0)));
    assert!(!write_again(Ok(8)));
    assert!(!write_again(Err(())));
}
