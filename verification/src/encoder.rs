//! Quadrature decoding of a rotary encoder.
//!
//! The two phase inputs are read by the caller. Each sample is combined with
//! the previous one into a four-bit window, and the window is classified as
//! one step in either sense of rotation or as no step.

use vstd::prelude::*;
use crate::event::{InputEvent, PinError, PinLevel};

verus! {

/// Sense of rotation of one sample.
#[derive(Clone, Copy, Debug, PartialEq, Eq, Structural)]
pub enum Direction {
    Left,
    Still,
    Right,
}

impl Direction {
    /// The direction with the signed code `value`. The code is the sense of
    /// rotation as an angle: to the left, which is counter-clockwise, is `1`,
    /// to the right is `-1`, and every other value is `Still`.
    pub open spec fn of_code(value: int) -> Direction {
        if value == 1 {
            Direction::Left
        } else if value == -1 {
            Direction::Right
        } else {
            Direction::Still
        }
    }

    /// Direction of a signed step of the encoder. The transition table
    /// counts clockwise steps as positive, so the code of a step is its
    /// negative: a step of `1` turns right, a step of `-1` turns left.
    pub open spec fn of_step(step: int) -> Direction {
        Direction::of_code(-step)
    }

    /// The direction with the signed code `value`.
    pub fn from_i8(value: i8) -> (d: Direction)
        ensures
            d == Direction::of_code(value as int),
    {
        match value {
            1 => Direction::Left,
            0 => Direction::Still,
            -1 => Direction::Right,
            _ => Direction::Still,
        }
    }
}

/// The two-bit phase reading: input A is bit 0, input B is bit 1.
pub open spec fn phase_of(a: PinLevel, b: PinLevel) -> nat {
    (if a == PinLevel::High { 1nat } else { 0nat }) + (if b == PinLevel::High { 2nat } else { 0nat })
}

/// Position of a phase reading on the Gray-code cycle, which visits the
/// readings `0, 2, 3, 1` in this order and then starts over.
pub open spec fn gray_rank(phase: nat) -> int {
    if phase == 0 {
        0
    } else if phase == 2 {
        1
    } else if phase == 3 {
        2
    } else {
        3
    }
}

/// Signed step between two successive phase readings: `1` for one position
/// forward on the Gray-code cycle, `-1` for one position backward, `0` when
/// the reading did not move or skipped a position.
pub open spec fn step_between(prev: nat, cur: nat) -> int {
    let d = (gray_rank(cur) - gray_rank(prev)) % 4;
    if d == 1 {
        1
    } else if d == 3 {
        -1
    } else {
        0
    }
}

/// Transition table, indexed by the four-bit window.
pub const QUADRATURE_LUT: [i8; 16] = [0, -1, 1, 0, 1, 0, 0, -1, -1, 0, 0, 1, 0, 1, -1, 0];

/// Looks a four-bit window up in the transition table. The upper two bits of
/// the window are the previous phase reading, the lower two the current one.
pub fn decode(window: u8) -> (step: i8)
    ensures
        step == step_between((window as nat / 4) % 4, window as nat % 4),
{
    let w: u8 = window & 0xF;
    assert(w < 16 && w as nat == window as nat % 16) by (bit_vector)
        requires
            w == window & 0xF,
    ;
    let step: i8 = QUADRATURE_LUT[w as usize];
    step
}

/// `x` reduced into the range of a signed byte, as two's complement
/// arithmetic does. Defined for `x` at most one byte range outside.
pub open spec fn wrap_i8(x: int) -> int {
    if x > 127 {
        x - 256
    } else if x < -128 {
        x + 256
    } else {
        x
    }
}

/// `x` reduced into the range of an unsigned byte. Defined for `x` at most
/// one byte range outside.
pub open spec fn wrap_u8(x: int) -> int {
    if x > 255 {
        x - 256
    } else if x < 0 {
        x + 256
    } else {
        x
    }
}

/// What a caller can observe of an [`Encoder`].
///
/// Of the rolling window only the latest phase reading is kept: older
/// readings never influence a result.
pub struct EncoderModel {
    /// Coordinate reported for a step to the left.
    pub left_event: (u8, u8),
    /// Coordinate reported for a step to the right.
    pub right_event: (u8, u8),
    /// Latest phase reading, `0..=3`; `0` after a failed sample.
    pub phase: nat,
    /// Net signed steps since start, wrapping as a signed byte.
    pub pulses: int,
    /// Steps per detent.
    pub resolution: int,
    /// Detent counter, wrapping as an unsigned byte.
    pub value: int,
}

impl EncoderModel {
    /// Every field is in its range, and a detent takes at least one step.
    pub open spec fn wf(self) -> bool {
        &&& self.phase < 4
        &&& -128 <= self.pulses <= 127
        &&& 1 <= self.resolution <= 127
        &&& 0 <= self.value <= 255
    }

    /// The encoder right after construction from a first reading.
    pub open spec fn initial(
        a: PinLevel,
        b: PinLevel,
        left_event: (u8, u8),
        right_event: (u8, u8),
        resolution: int,
    ) -> EncoderModel {
        EncoderModel {
            left_event,
            right_event,
            phase: phase_of(a, b),
            pulses: 0,
            resolution,
            value: 0,
        }
    }

    /// Signed step that a reading of `a` and `b` makes from the latest
    /// reading.
    pub open spec fn step(self, a: PinLevel, b: PinLevel) -> int {
        step_between(self.phase, phase_of(a, b))
    }

    /// The encoder after one sample.
    ///
    /// A reading moves the pulse accumulator by its step. While the
    /// accumulator is at or beyond `resolution`, in either sense, every
    /// reading moves the detent counter by one in that sense: the accumulator
    /// is never reduced when a detent is counted. A failed sample clears the
    /// latest reading and changes nothing else.
    pub open spec fn sampled(self, sample: Result<(PinLevel, PinLevel), PinError>) -> EncoderModel {
        match sample {
            Err(_) => EncoderModel { phase: 0, ..self },
            Ok((a, b)) => {
                let pulses = wrap_i8(self.pulses + self.step(a, b));
                let raised = if pulses >= self.resolution {
                    wrap_u8(self.value + 1)
                } else {
                    self.value
                };
                let value = if pulses <= -self.resolution {
                    wrap_u8(raised - 1)
                } else {
                    raised
                };
                EncoderModel { phase: phase_of(a, b), pulses, value, ..self }
            },
        }
    }

    /// Direction reported for one sample: the sense of its step alone,
    /// whether or not a detent was completed.
    pub open spec fn direction(self, sample: Result<(PinLevel, PinLevel), PinError>) -> Result<
        Direction,
        PinError,
    > {
        match sample {
            Err(e) => Err(e),
            Ok((a, b)) => Ok(Direction::of_step(self.step(a, b))),
        }
    }

    /// Events reported for one sample: a press followed by a release of the
    /// coordinate of the direction, nothing for `Still`.
    pub open spec fn events(self, sample: Result<(PinLevel, PinLevel), PinError>) -> Result<
        Seq<InputEvent>,
        PinError,
    > {
        match self.direction(sample) {
            Err(e) => Err(e),
            Ok(Direction::Still) => Ok(Seq::empty()),
            Ok(Direction::Left) => Ok(tap(self.left_event)),
            Ok(Direction::Right) => Ok(tap(self.right_event)),
        }
    }
}

/// A press of the key at `at` followed by its release.
pub open spec fn tap(at: (u8, u8)) -> Seq<InputEvent> {
    seq![InputEvent::Press(at.0, at.1), InputEvent::Release(at.0, at.1)]
}

/// Decoder state of one rotary encoder.
pub struct Encoder {
    left_event: (u8, u8),
    right_event: (u8, u8),
    value: u8,
    state: u8,
    pulses: i8,
    resolution: i8,
}

impl View for Encoder {
    type V = EncoderModel;

    closed spec fn view(&self) -> EncoderModel {
        EncoderModel {
            left_event: self.left_event,
            right_event: self.right_event,
            phase: (self.state % 4) as nat,
            pulses: self.pulses as int,
            resolution: self.resolution as int,
            value: self.value as int,
        }
    }
}

/// The phase reading as the two low bits of a byte.
fn phase_bits(a: PinLevel, b: PinLevel) -> (bits: u8)
    ensures
        bits == phase_of(a, b),
{
    let low: u8 = match a {
        PinLevel::High => 1,
        PinLevel::Low => 0,
    };
    let high: u8 = match b {
        PinLevel::High => 2,
        PinLevel::Low => 0,
    };
    assert(low | high == low + high) by (bit_vector)
        requires
            low == 0 || low == 1,
            high == 0 || high == 2,
    ;
    low | high
}

/// Steps per detent of an encoder made by [`Encoder::new`].
pub const DEFAULT_RESOLUTION: i8 = 4;

impl Encoder {
    /// Holds of every encoder.
    #[verifier::type_invariant]
    pub open spec fn inv(self) -> bool {
        self@.wf()
    }

    /// An encoder whose first reading is `a` and `b`, with four steps to the
    /// detent. `left_event` and `right_event` are the coordinates reported
    /// for the two directions.
    pub fn new(a: PinLevel, b: PinLevel, left_event: (u8, u8), right_event: (u8, u8)) -> (e: Self)
        ensures
            e@ == EncoderModel::initial(a, b, left_event, right_event, DEFAULT_RESOLUTION as int),
            e@.wf(),
    {
        Encoder::with_resolution(a, b, left_event, right_event, DEFAULT_RESOLUTION)
    }

    /// An encoder whose first reading is `a` and `b`, with `resolution` steps
    /// to the detent.
    pub fn with_resolution(
        a: PinLevel,
        b: PinLevel,
        left_event: (u8, u8),
        right_event: (u8, u8),
        resolution: i8,
    ) -> (e: Self)
        requires
            resolution >= 1,
        ensures
            e@ == EncoderModel::initial(a, b, left_event, right_event, resolution as int),
            e@.wf(),
    {
        let mut s = Encoder { left_event, right_event, value: 0, state: 0, pulses: 0, resolution };
        s.init_state(a, b);
        s
    }

    /// Replaces the rolling window by the reading `a` and `b`.
    pub fn init_state(&mut self, a: PinLevel, b: PinLevel)
        ensures
            final(self)@ == (EncoderModel { phase: phase_of(a, b), ..old(self)@ }),
            final(self)@.wf(),
    {
        proof {
            use_type_invariant(&*self);
        }
        self.state = phase_bits(a, b);
    }

    /// The detent counter.
    pub fn value(&self) -> (v: u8)
        ensures
            v == self@.value,
    {
        self.value
    }

    /// The pulse accumulator.
    pub fn pulses(&self) -> (p: i8)
        ensures
            p == self@.pulses,
    {
        self.pulses
    }

    /// Steps per detent.
    pub fn resolution(&self) -> (r: i8)
        ensures
            r == self@.resolution,
    {
        self.resolution
    }

    /// Takes one sample into the window and classifies it.
    pub fn read_direction(&mut self, sample: Result<(PinLevel, PinLevel), PinError>) -> (r: Result<
        Direction,
        PinError,
    >)
        ensures
            final(self)@.wf(),
            final(self)@ == old(self)@.sampled(sample),
            r == old(self)@.direction(sample),
    {
        proof {
            use_type_invariant(&*self);
        }
        let before: u8 = self.state;
        self.state = self.state << 2;
        match sample {
            Err(e) => {
                assert((before << 2) % 4 == 0) by (bit_vector);
                Err(e)
            },
            Ok((a, b)) => {
                let bits: u8 = phase_bits(a, b);
                self.state = self.state | bits;
                let window: u8 = self.state;
                assert(window % 4 == bits && (window / 4) % 4 == before % 4) by (bit_vector)
                    requires
                        window == (before << 2) | bits,
                        bits < 4,
                ;
                let step: i8 = decode(window);
                self.pulses = self.pulses.wrapping_add(step);
                if self.pulses >= self.resolution {
                    self.value = self.value.wrapping_add(1);
                }
                if self.pulses <= -self.resolution {
                    self.value = self.value.wrapping_sub(1);
                }
                Ok(Direction::from_i8(-step))
            },
        }
    }

    /// Takes one sample and reports it as key events: a press and a release
    /// of the coordinate of its direction, or nothing when it is `Still`.
    pub fn read_events(&mut self, sample: Result<(PinLevel, PinLevel), PinError>) -> (r: Result<
        Option<[InputEvent; 2]>,
        PinError,
    >)
        ensures
            final(self)@.wf(),
            final(self)@ == old(self)@.sampled(sample),
            match old(self)@.events(sample) {
                Err(e) => r == Err::<Option<[InputEvent; 2]>, PinError>(e),
                Ok(events) => match r {
                    Ok(None) => events.len() == 0,
                    Ok(Some(pair)) => events == pair@,
                    Err(_) => false,
                },
            },
    {
        match self.read_direction(sample) {
            Ok(Direction::Left) => Ok(
                Some(
                    [
                        InputEvent::Press(self.left_event.0, self.left_event.1),
                        InputEvent::Release(self.left_event.0, self.left_event.1),
                    ],
                ),
            ),
            Ok(Direction::Right) => Ok(
                Some(
                    [
                        InputEvent::Press(self.right_event.0, self.right_event.1),
                        InputEvent::Release(self.right_event.0, self.right_event.1),
                    ],
                ),
            ),
            Ok(Direction::Still) => Ok(None),
            Err(e) => Err(e),
        }
    }
}

/// The classification of a sample is a function of the window alone: two
/// encoders that agree on the latest reading classify the next reading
/// alike, whatever their accumulators, their counters and the samples that
/// came before.
pub proof fn lemma_direction_ignores_history(
    x: EncoderModel,
    y: EncoderModel,
    sample: Result<(PinLevel, PinLevel), PinError>,
)
    requires
        x.phase == y.phase,
    ensures
        x.direction(sample) == y.direction(sample),
        x.sampled(sample).phase == y.sampled(sample).phase,
{
}

/// After any reading, the classification of the next one depends on the two
/// readings and on nothing else.
pub proof fn lemma_direction_of_two_readings(
    x: EncoderModel,
    y: EncoderModel,
    first: (PinLevel, PinLevel),
    second: (PinLevel, PinLevel),
)
    ensures
        x.sampled(Ok(first)).direction(Ok(second)) == y.sampled(Ok(first)).direction(Ok(second)),
        x.sampled(Ok(first)).direction(Ok(second)) == Ok::<Direction, PinError>(
            Direction::of_step(
                step_between(phase_of(first.0, first.1), phase_of(second.0, second.1)),
            ),
        ),
{
}

/// One turn of the Gray-code cycle from a rested accumulator: four readings
/// that each step forward are each reported as `Right`, and the fourth of
/// them, not one before it, counts one detent of four steps.
pub proof fn lemma_forward_turn_counts_one_detent(
    x: EncoderModel,
    readings: Seq<(PinLevel, PinLevel)>,
)
    requires
        x.wf(),
        x.pulses == 0,
        x.resolution == 4,
        readings.len() == 4,
        x.step(readings[0].0, readings[0].1) == 1,
        x.sampled(Ok(readings[0])).step(readings[1].0, readings[1].1) == 1,
        x.sampled(Ok(readings[0])).sampled(Ok(readings[1])).step(readings[2].0, readings[2].1) == 1,
        x.sampled(Ok(readings[0])).sampled(Ok(readings[1])).sampled(Ok(readings[2])).step(
            readings[3].0,
            readings[3].1,
        ) == 1,
    ensures
        ({
            let x1 = x.sampled(Ok(readings[0]));
            let x2 = x1.sampled(Ok(readings[1]));
            let x3 = x2.sampled(Ok(readings[2]));
            let x4 = x3.sampled(Ok(readings[3]));
            &&& x.direction(Ok(readings[0])) == Ok::<Direction, PinError>(Direction::Right)
            &&& x1.direction(Ok(readings[1])) == Ok::<Direction, PinError>(Direction::Right)
            &&& x2.direction(Ok(readings[2])) == Ok::<Direction, PinError>(Direction::Right)
            &&& x3.direction(Ok(readings[3])) == Ok::<Direction, PinError>(Direction::Right)
            &&& x1.value == x.value && x2.value == x.value && x3.value == x.value
            &&& x4.value == wrap_u8(x.value + 1)
            &&& x4.pulses == 4
        }),
{
}

/// A step and the step back cancel: the table has no bias towards either
/// sense of rotation.
pub proof fn lemma_step_antisymmetric(prev: nat, cur: nat)
    requires
        prev < 4,
        cur < 4,
    ensures
        step_between(prev, cur) == -step_between(cur, prev),
{
}

} // verus!
