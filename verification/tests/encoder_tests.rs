use keyscan::encoder::{decode, Direction, Encoder, DEFAULT_RESOLUTION, QUADRATURE_LUT};
use keyscan::event::{InputEvent, PinError, PinLevel};
use keyscan::layout::{ENCODER_LEFT, ENCODER_RIGHT};

const L: PinLevel = PinLevel::Low;
const H: PinLevel = PinLevel::High;

/// Readings (A, B) of one full turn of the Gray-code cycle, starting after
/// the rest position (Low, Low): each is one step forward.
const FORWARD: [(PinLevel, PinLevel); 4] = [(L, H), (H, H), (H, L), (L, L)];

/// The same cycle walked backward.
const BACKWARD: [(PinLevel, PinLevel); 4] = [(H, L), (H, H), (L, H), (L, L)];

fn at_rest() -> Encoder {
    Encoder::new(L, L, ENCODER_LEFT, ENCODER_RIGHT)
}

#[test]
fn from_i8_maps_codes_to_directions() {
    assert_eq!(Direction::from_i8(1), Direction::Left);
    assert_eq!(Direction::from_i8(-1), Direction::Right);
    assert_eq!(Direction::from_i8(0), Direction::Still);
    assert_eq!(Direction::from_i8(5), Direction::Still);
    assert_eq!(Direction::from_i8(-128), Direction::Still);
    assert_eq!(Direction::from_i8(127), Direction::Still);
}

#[test]
fn decode_follows_the_table() {
    let expected: [i8; 16] = [0, -1, 1, 0, 1, 0, 0, -1, -1, 0, 0, 1, 0, 1, -1, 0];
    assert_eq!(QUADRATURE_LUT, expected);
    for window in 0u8..16 {
        assert_eq!(decode(window), expected[window as usize], "window {}", window);
    }
}

#[test]
fn decode_reads_the_low_four_bits_only() {
    for window in 0u8..=255 {
        assert_eq!(decode(window), decode(window & 0x0F), "window {}", window);
    }
}

#[test]
fn decode_gives_the_same_step_every_time() {
    for window in 0u8..16 {
        let first = decode(window);
        for _ in 0..4 {
            assert_eq!(decode(window), first);
        }
    }
}

#[test]
fn new_starts_at_zero_with_four_steps_to_the_detent() {
    let e = at_rest();
    assert_eq!(e.value(), 0);
    assert_eq!(e.pulses(), 0);
    assert_eq!(e.resolution(), 4);
}

#[test]
fn default_resolution_is_four_steps() {
    assert_eq!(DEFAULT_RESOLUTION, 4);
    assert_eq!(at_rest().resolution(), DEFAULT_RESOLUTION);
}

#[test]
fn resolution_sets_the_steps_to_the_detent() {
    let mut e = Encoder::with_resolution(L, L, ENCODER_LEFT, ENCODER_RIGHT, 2);
    assert_eq!(e.resolution(), 2);
    assert_eq!(e.read_direction(Ok((L, H))), Ok(Direction::Right));
    assert_eq!((e.pulses(), e.value()), (1, 0));
    assert_eq!(e.read_direction(Ok((H, H))), Ok(Direction::Right));
    assert_eq!((e.pulses(), e.value()), (2, 1));

    let mut e = Encoder::with_resolution(L, L, ENCODER_LEFT, ENCODER_RIGHT, 1);
    assert_eq!(e.read_direction(Ok((H, L))), Ok(Direction::Left));
    assert_eq!((e.pulses(), e.value()), (-1, 255));

    let mut e = Encoder::with_resolution(L, L, ENCODER_LEFT, ENCODER_RIGHT, i8::MAX);
    for i in 0..127usize {
        let (a, b) = FORWARD[i % 4];
        e.read_direction(Ok((a, b))).unwrap();
        assert_eq!(e.value(), if i == 126 { 1 } else { 0 });
    }
}

#[test]
fn clockwise_cycle_reports_four_rights_and_one_detent() {
    let mut e = at_rest();
    for (i, (a, b)) in FORWARD.iter().enumerate() {
        assert_eq!(e.read_direction(Ok((*a, *b))), Ok(Direction::Right), "step {}", i);
        if i < 3 {
            assert_eq!(e.value(), 0, "no detent before the fourth step");
        }
    }
    assert_eq!(e.pulses(), 4);
    assert_eq!(e.value(), 1);
}

#[test]
fn counter_clockwise_cycle_reports_four_lefts_and_counts_down() {
    let mut e = at_rest();
    for (a, b) in BACKWARD.iter() {
        assert_eq!(e.read_direction(Ok((*a, *b))), Ok(Direction::Left));
    }
    assert_eq!(e.pulses(), -4);
    assert_eq!(e.value(), 255);
}

#[test]
fn unchanged_reading_is_still() {
    let mut e = at_rest();
    assert_eq!(e.read_direction(Ok((L, L))), Ok(Direction::Still));
    assert_eq!(e.pulses(), 0);
    assert_eq!(e.value(), 0);
}

#[test]
fn skipped_position_is_still() {
    let mut e = at_rest();
    // From (Low, Low) straight to (High, High): two positions at once.
    assert_eq!(e.read_direction(Ok((H, H))), Ok(Direction::Still));
    assert_eq!(e.pulses(), 0);
}

#[test]
fn first_reading_seeds_the_window() {
    // Seeded at (High, High), the reading (High, Low) is one step forward.
    let mut e = Encoder::new(H, H, ENCODER_LEFT, ENCODER_RIGHT);
    assert_eq!(e.read_direction(Ok((H, L))), Ok(Direction::Right));
    // Seeded at (Low, Low), the same reading is one step backward.
    let mut e = at_rest();
    assert_eq!(e.read_direction(Ok((H, L))), Ok(Direction::Left));
}

#[test]
fn init_state_replaces_the_window() {
    let mut e = at_rest();
    e.init_state(H, H);
    assert_eq!(e.read_direction(Ok((H, L))), Ok(Direction::Right));
    assert_eq!(e.pulses(), 1);
}

#[test]
fn accumulator_is_not_reduced_by_a_detent() {
    let mut e = at_rest();
    for (a, b) in FORWARD.iter() {
        e.read_direction(Ok((*a, *b))).unwrap();
    }
    assert_eq!((e.pulses(), e.value()), (4, 1));
    // The accumulator stays at the resolution, so every further reading
    // counts a detent, a still one too.
    assert_eq!(e.read_direction(Ok((L, L))), Ok(Direction::Still));
    assert_eq!((e.pulses(), e.value()), (4, 2));
    assert_eq!(e.read_direction(Ok((L, H))), Ok(Direction::Right));
    assert_eq!((e.pulses(), e.value()), (5, 3));
    // One step back leaves it at the resolution: still counting.
    assert_eq!(e.read_direction(Ok((L, L))), Ok(Direction::Left));
    assert_eq!((e.pulses(), e.value()), (4, 4));
    // Below the resolution the counter rests.
    assert_eq!(e.read_direction(Ok((H, L))), Ok(Direction::Left));
    assert_eq!((e.pulses(), e.value()), (3, 4));
}

#[test]
fn accumulator_wraps_as_a_signed_byte() {
    let mut e = at_rest();
    for i in 0..127usize {
        let (a, b) = FORWARD[i % 4];
        assert_eq!(e.read_direction(Ok((a, b))), Ok(Direction::Right));
    }
    assert_eq!(e.pulses(), 127);
    // 124 readings from the fourth on have each counted a detent.
    assert_eq!(e.value(), 124);
    let (a, b) = FORWARD[127 % 4];
    assert_eq!(e.read_direction(Ok((a, b))), Ok(Direction::Right));
    assert_eq!(e.pulses(), -128);
    assert_eq!(e.value(), 123);
}

#[test]
fn detent_counter_wraps_as_an_unsigned_byte() {
    let mut e = at_rest();
    for (a, b) in FORWARD.iter() {
        e.read_direction(Ok((*a, *b))).unwrap();
    }
    assert_eq!(e.value(), 1);
    for _ in 0..254 {
        e.read_direction(Ok((L, L))).unwrap();
    }
    assert_eq!(e.value(), 255);
    e.read_direction(Ok((L, L))).unwrap();
    assert_eq!(e.value(), 0);
}

#[test]
fn direction_does_not_depend_on_history() {
    // Two encoders with different pasts, brought to the same reading.
    let mut fresh = at_rest();
    let mut worn = at_rest();
    for i in 0..37usize {
        let (a, b) = FORWARD[i % 4];
        worn.read_direction(Ok((a, b))).unwrap();
    }
    for pair in [(L, L), (L, H), (H, H), (H, L)] {
        for next in [(L, L), (L, H), (H, H), (H, L)] {
            fresh.read_direction(Ok(pair)).unwrap();
            worn.read_direction(Ok(pair)).unwrap();
            assert_eq!(fresh.read_direction(Ok(next)), worn.read_direction(Ok(next)));
        }
    }
}

#[test]
fn read_events_taps_the_key_of_the_direction() {
    let mut e = at_rest();
    assert_eq!(
        e.read_events(Ok((L, H))),
        Ok(Some([InputEvent::Press(4, 14), InputEvent::Release(4, 14)]))
    );
    assert_eq!(
        e.read_events(Ok((L, L))),
        Ok(Some([InputEvent::Press(3, 14), InputEvent::Release(3, 14)]))
    );
    assert_eq!(e.read_events(Ok((L, L))), Ok(None));
}

#[test]
fn read_events_reports_every_step_not_only_detents() {
    let mut e = Encoder::new(L, L, (7, 1), (7, 2));
    let mut taps = 0;
    for (a, b) in FORWARD.iter() {
        if let Ok(Some(pair)) = e.read_events(Ok((*a, *b))) {
            assert_eq!(pair, [InputEvent::Press(7, 2), InputEvent::Release(7, 2)]);
            taps += 1;
        }
    }
    assert_eq!(taps, 4);
    assert_eq!(e.value(), 1);
}

#[test]
fn failed_sample_is_surfaced() {
    let mut e = at_rest();
    let fault = PinError { pin: 8 };
    assert_eq!(e.read_direction(Err(fault)), Err(fault));
    assert_eq!(e.read_events(Err(fault)), Err(fault));
    assert_eq!(e.pulses(), 0);
    assert_eq!(e.value(), 0);
}

#[test]
fn failed_sample_clears_the_latest_reading() {
    let mut e = Encoder::new(H, H, ENCODER_LEFT, ENCODER_RIGHT);
    assert_eq!(e.read_direction(Err(PinError { pin: 9 })), Err(PinError { pin: 9 }));
    // The window now ends in an empty slot: (Low, High) is one step forward
    // from there, which it would not be from (High, High).
    assert_eq!(e.read_direction(Ok((L, H))), Ok(Direction::Right));
}
