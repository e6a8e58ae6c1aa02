//! The periodic tick that sequences timer, watchdog, scanner, debounce
//! filter and encoder.
//!
//! The scheduler never touches a peripheral. It is driven by completions,
//! the timer interrupt being one of them, and answers each with the next
//! command for the caller to carry out. Within a tick the timer is re-armed
//! first and the watchdog is fed second, whatever happens afterwards; only
//! then are the matrix and the encoder read.

use vstd::prelude::*;
use crate::debounce::{DebounceModel, Debouncer};
use crate::demux_matrix::{
    lemma_scan_advance,
    lemma_scan_start,
    scan_reached,
    scanned_grid,
    select_levels,
    DemuxMatrix,
    ScanAction,
    ScanEvent,
    ScanInput,
    ScanModel,
    ScanOutput,
    SELECT_LINES,
};
use crate::encoder::{Encoder, EncoderModel};
use crate::event::{InputEvent, PinError, PinLevel};

verus! {

/// Where the scheduler stands within a tick. Each phase but `Idle` awaits the
/// completion of the command that led to it.
#[derive(Clone, Copy, Debug, PartialEq, Eq, Structural)]
pub enum Phase {
    /// Between ticks.
    Idle,
    /// The timer is being re-armed.
    Rearming,
    /// The watchdog is being fed.
    Feeding,
    /// A column of the matrix is being sampled.
    Scanning,
    /// The encoder is being sampled.
    Sampling,
    /// The events of the tick are being handed to the consumer.
    Forwarding,
    /// The consumer is running its own tick.
    Ticking,
}

/// What the caller reports to the scheduler.
#[derive(Clone, Copy, Debug, PartialEq, Eq)]
pub enum Completion<const RS: usize> {
    /// The timer interrupt was raised.
    TimerFired,
    /// The command last given, which has no result, was carried out.
    Done,
    /// Outcome of `Address`: the levels of the sense lines, or the failure
    /// of a select or sense line.
    Rows(Result<[PinLevel; RS], PinError>),
    /// Outcome of `SampleEncoder`: the levels of phase inputs A and B, or
    /// the failure of one of them.
    Phases(Result<(PinLevel, PinLevel), PinError>),
}

/// What the scheduler asks of the caller.
#[derive(Debug, PartialEq, Eq)]
pub enum Command {
    /// Nothing to do until the timer interrupt is raised.
    Wait,
    /// Acknowledge the timer interrupt and schedule the next one
    /// `period_us` microseconds from now.
    RearmTimer { period_us: u32 },
    /// Feed the watchdog.
    FeedWatchdog,
    /// Drive select line `i` to `levels[i]`, wait for the lines to settle
    /// and read every sense line.
    Address { column: usize, levels: [PinLevel; SELECT_LINES] },
    /// Read both phase inputs of the encoder.
    SampleEncoder,
    /// Hand `events` to the consumer, in this order. `scan_fault` and
    /// `encoder_fault` are the failures that kept the matrix, or the encoder,
    /// from contributing to them.
    Forward { events: Vec<InputEvent>, scan_fault: Option<PinError>, encoder_fault: Option<PinError> },
    /// Let the consumer run its tick and transmit its report.
    TickConsumer,
}

/// [`Completion`] over sequences.
pub enum Input {
    TimerFired,
    Done,
    Rows(Result<Seq<PinLevel>, PinError>),
    Phases(Result<(PinLevel, PinLevel), PinError>),
}

/// [`Command`] over sequences.
pub enum Output {
    Wait,
    RearmTimer { period_us: u32 },
    FeedWatchdog,
    Address { column: nat, levels: Seq<PinLevel> },
    SampleEncoder,
    Forward { events: Seq<InputEvent>, scan_fault: Option<PinError>, encoder_fault: Option<PinError> },
    TickConsumer,
}

impl<const RS: usize> View for Completion<RS> {
    type V = Input;

    open spec fn view(&self) -> Input {
        match *self {
            Completion::TimerFired => Input::TimerFired,
            Completion::Done => Input::Done,
            Completion::Rows(Ok(levels)) => Input::Rows(Ok(levels@)),
            Completion::Rows(Err(e)) => Input::Rows(Err(e)),
            Completion::Phases(sample) => Input::Phases(sample),
        }
    }
}

impl View for Command {
    type V = Output;

    open spec fn view(&self) -> Output {
        match *self {
            Command::Wait => Output::Wait,
            Command::RearmTimer { period_us } => Output::RearmTimer { period_us },
            Command::FeedWatchdog => Output::FeedWatchdog,
            Command::Address { column, levels } => Output::Address {
                column: column as nat,
                levels: levels@,
            },
            Command::SampleEncoder => Output::SampleEncoder,
            Command::Forward { events, scan_fault, encoder_fault } => Output::Forward {
                events: events@,
                scan_fault,
                encoder_fault,
            },
            Command::TickConsumer => Output::TickConsumer,
        }
    }
}

/// What a caller can observe of a [`Scheduler`].
pub struct SchedulerModel {
    /// The scanner.
    pub matrix: ScanModel,
    /// The debounce filter.
    pub debouncer: DebounceModel,
    /// The encoder.
    pub encoder: EncoderModel,
    /// Period of the timer, in microseconds.
    pub period_us: u32,
    /// Where the scheduler stands within a tick.
    pub phase: Phase,
    /// Events gathered so far in the current tick.
    pub events: Seq<InputEvent>,
    /// The failure that ended the scan of the current tick, if one did.
    pub scan_fault: Option<PinError>,
}

impl SchedulerModel {
    /// The components are well formed, and the scanner and the debounce
    /// filter work on grids of one size.
    pub open spec fn wf(self) -> bool {
        &&& self.matrix.wf()
        &&& self.debouncer.wf()
        &&& self.encoder.wf()
        &&& self.matrix.rows == self.debouncer.rows
        &&& self.matrix.cols == self.debouncer.cols
    }

    /// A scheduler between ticks.
    pub open spec fn initial(
        matrix: ScanModel,
        debouncer: DebounceModel,
        encoder: EncoderModel,
        period_us: u32,
    ) -> SchedulerModel {
        SchedulerModel {
            matrix,
            debouncer,
            encoder,
            period_us,
            phase: Phase::Idle,
            events: Seq::empty(),
            scan_fault: None,
        }
    }

    /// Goes on after the scanner, now `matrix`, has asked for `asked`.
    ///
    /// While the scanner addresses a column the scheduler passes the request
    /// on. A finished scan is debounced and its events open the events of the
    /// tick. A failed scan gives no events and leaves the debounce filter as
    /// it was; the failure is kept for the consumer. Either way the encoder
    /// is sampled next.
    pub open spec fn scanned(self, matrix: ScanModel, asked: ScanOutput) -> (SchedulerModel, Output) {
        match asked {
            ScanOutput::Address { column, levels } => (
                SchedulerModel { matrix, phase: Phase::Scanning, ..self },
                Output::Address { column, levels },
            ),
            ScanOutput::Done(Ok(grid)) => (
                SchedulerModel {
                    matrix,
                    debouncer: self.debouncer.next(grid),
                    events: self.debouncer.events(grid),
                    phase: Phase::Sampling,
                    ..self
                },
                Output::SampleEncoder,
            ),
            ScanOutput::Done(Err(e)) => (
                SchedulerModel { matrix, scan_fault: Some(e), phase: Phase::Sampling, ..self },
                Output::SampleEncoder,
            ),
            ScanOutput::Idle => (
                SchedulerModel { matrix, phase: Phase::Sampling, ..self },
                Output::SampleEncoder,
            ),
        }
    }

    /// The scheduler after one completion, and the command it gives next.
    ///
    /// The timer interrupt starts a tick from any phase, abandoning a tick
    /// that was under way. Every other completion is taken only in the phase
    /// that awaits it, and otherwise changes nothing and is answered by
    /// `Wait`.
    pub open spec fn step(self, input: Input) -> (SchedulerModel, Output) {
        match (input, self.phase) {
            (Input::TimerFired, _) => (
                SchedulerModel {
                    phase: Phase::Rearming,
                    events: Seq::empty(),
                    scan_fault: None,
                    ..self
                },
                Output::RearmTimer { period_us: self.period_us },
            ),
            (Input::Done, Phase::Rearming) => (
                SchedulerModel { phase: Phase::Feeding, ..self },
                Output::FeedWatchdog,
            ),
            (Input::Done, Phase::Feeding) => {
                let (matrix, asked) = self.matrix.step(ScanInput::Start);
                self.scanned(matrix, asked)
            },
            (Input::Rows(Ok(levels)), Phase::Scanning) => {
                let (matrix, asked) = self.matrix.step(ScanInput::Sampled(levels));
                self.scanned(matrix, asked)
            },
            (Input::Rows(Err(e)), Phase::Scanning) => {
                let (matrix, asked) = self.matrix.step(ScanInput::Fault(e));
                self.scanned(matrix, asked)
            },
            (Input::Phases(sample), Phase::Sampling) => (
                SchedulerModel {
                    encoder: self.encoder.sampled(sample),
                    events: Seq::empty(),
                    phase: Phase::Forwarding,
                    ..self
                },
                Output::Forward {
                    events: self.events + encoder_events(self.encoder, sample),
                    scan_fault: self.scan_fault,
                    encoder_fault: match sample {
                        Ok(_) => None,
                        Err(e) => Some(e),
                    },
                },
            ),
            (Input::Done, Phase::Forwarding) => (
                SchedulerModel { phase: Phase::Ticking, ..self },
                Output::TickConsumer,
            ),
            (Input::Done, Phase::Ticking) => (SchedulerModel { phase: Phase::Idle, ..self }, Output::Wait),
            _ => (self, Output::Wait),
        }
    }

    /// The scheduler after the completions `inputs`, first to last, and the
    /// commands it gave, one for each.
    pub open spec fn run(self, inputs: Seq<Input>) -> (SchedulerModel, Seq<Output>)
        decreases inputs.len(),
    {
        if inputs.len() == 0 {
            (self, Seq::empty())
        } else {
            let (reached, given) = self.run(inputs.drop_last());
            let (next, command) = reached.step(inputs.last());
            (next, given.push(command))
        }
    }
}

/// The completions of a tick up to the readings of the first `upto`
/// columns, no line having failed.
pub open spec fn scan_inputs(readings: Seq<Seq<PinLevel>>, upto: nat) -> Seq<Input> {
    seq![Input::TimerFired, Input::Done, Input::Done] + Seq::new(
        upto,
        |c: int| Input::Rows(Ok(readings[c])),
    )
}

/// The completions of a whole tick in which no line of the matrix fails:
/// the timer interrupt, the timer re-armed, the watchdog fed, the readings
/// of the wired columns in turn, the sample of the encoder, the events handed
/// over, and the tick of the consumer done.
pub open spec fn tick_inputs(
    readings: Seq<Seq<PinLevel>>,
    sample: Result<(PinLevel, PinLevel), PinError>,
) -> Seq<Input> {
    scan_inputs(readings, readings.len()) + seq![Input::Phases(sample), Input::Done, Input::Done]
}

/// The events that one sample of the encoder contributes to a tick.
pub open spec fn encoder_events(
    encoder: EncoderModel,
    sample: Result<(PinLevel, PinLevel), PinError>,
) -> Seq<InputEvent> {
    match encoder.events(sample) {
        Ok(events) => events,
        Err(_) => Seq::empty(),
    }
}

/// The completions of a whole tick in which the matrix fails with `fault`
/// while column `column` is addressed.
pub open spec fn faulted_tick_inputs(
    readings: Seq<Seq<PinLevel>>,
    column: nat,
    fault: PinError,
    sample: Result<(PinLevel, PinLevel), PinError>,
) -> Seq<Input> {
    scan_inputs(readings, column) + seq![
        Input::Rows(Err(fault)),
        Input::Phases(sample),
        Input::Done,
        Input::Done,
    ]
}

/// How far the current tick has secured the device, judged from the
/// commands given so far.
pub enum Guard {
    /// The timer has never been re-armed.
    Unarmed,
    /// The timer was re-armed; the watchdog has not been fed since.
    Armed,
    /// The timer was re-armed and the watchdog was fed after that.
    Fed,
}

/// The guard that the commands `given` leave behind.
pub open spec fn guard_after(given: Seq<Output>) -> Guard
    decreases given.len(),
{
    if given.len() == 0 {
        Guard::Unarmed
    } else {
        let before = guard_after(given.drop_last());
        match given.last() {
            Output::RearmTimer { .. } => Guard::Armed,
            Output::FeedWatchdog => if before is Unarmed {
                Guard::Unarmed
            } else {
                Guard::Fed
            },
            _ => before,
        }
    }
}

/// Whether `command` reads an input or hands events on.
pub open spec fn processes_input(command: Output) -> bool {
    command is Address || command is SampleEncoder || command is Forward || command is TickConsumer
}

/// The tick scheduler of a matrix of `RS` rows and `CS` columns with one
/// encoder.
pub struct Scheduler<const CS: usize, const RS: usize> {
    matrix: DemuxMatrix<CS, RS>,
    debouncer: Debouncer<CS, RS>,
    encoder: Encoder,
    period_us: u32,
    phase: Phase,
    events: Vec<InputEvent>,
    scan_fault: Option<PinError>,
}

impl<const CS: usize, const RS: usize> View for Scheduler<CS, RS> {
    type V = SchedulerModel;

    closed spec fn view(&self) -> SchedulerModel {
        SchedulerModel {
            matrix: self.matrix@,
            debouncer: self.debouncer@,
            encoder: self.encoder@,
            period_us: self.period_us,
            phase: self.phase,
            events: self.events@,
            scan_fault: self.scan_fault,
        }
    }
}

impl<const CS: usize, const RS: usize> Scheduler<CS, RS> {
    /// A scheduler between ticks that owns the three components and re-arms
    /// the timer to `period_us` microseconds.
    pub fn new(
        matrix: DemuxMatrix<CS, RS>,
        debouncer: Debouncer<CS, RS>,
        encoder: Encoder,
        period_us: u32,
    ) -> (s: Self)
        ensures
            s@ == SchedulerModel::initial(matrix@, debouncer@, encoder@, period_us),
            s@.wf(),
    {
        proof {
            use_type_invariant(&matrix);
            use_type_invariant(&debouncer);
            use_type_invariant(&encoder);
            matrix.lemma_dimensions();
            debouncer.lemma_wf();
        }
        Scheduler {
            matrix,
            debouncer,
            encoder,
            period_us,
            phase: Phase::Idle,
            events: Vec::new(),
            scan_fault: None,
        }
    }

    /// Where the scheduler stands within a tick.
    pub fn phase(&self) -> (phase: Phase)
        ensures
            phase == self@.phase,
    {
        self.phase
    }

    /// Period of the timer, in microseconds.
    pub fn period_us(&self) -> (period: u32)
        ensures
            period == self@.period_us,
    {
        self.period_us
    }

    /// The encoder, for its counters.
    pub fn encoder(&self) -> (encoder: &Encoder)
        ensures
            encoder@ == self@.encoder,
    {
        &self.encoder
    }

    /// The debounce filter, for the reported state of a key.
    pub fn debouncer(&self) -> (debouncer: &Debouncer<CS, RS>)
        ensures
            debouncer@ == self@.debouncer,
    {
        &self.debouncer
    }

    /// Goes on after the scanner has asked for `action`.
    fn scanned(&mut self, action: ScanAction<CS, RS>) -> (command: Command)
        ensures
            (final(self)@, command@) == old(self)@.scanned(old(self)@.matrix, action@),
    {
        match action {
            ScanAction::Address { column, levels } => {
                self.phase = Phase::Scanning;
                Command::Address { column, levels }
            },
            ScanAction::Done(Ok(grid)) => {
                self.events = self.debouncer.filter(&grid);
                self.phase = Phase::Sampling;
                Command::SampleEncoder
            },
            ScanAction::Done(Err(e)) => {
                self.scan_fault = Some(e);
                self.phase = Phase::Sampling;
                Command::SampleEncoder
            },
            ScanAction::Idle => {
                self.phase = Phase::Sampling;
                Command::SampleEncoder
            },
        }
    }

    /// Takes one completion and gives the next command.
    pub fn step(&mut self, completion: Completion<RS>) -> (command: Command)
        ensures
            final(self)@.wf(),
            (final(self)@, command@) == old(self)@.step(completion@),
    {
        let ghost before = self@;
        let command = match completion {
            Completion::TimerFired => {
                self.phase = Phase::Rearming;
                self.events = Vec::new();
                self.scan_fault = None;
                Command::RearmTimer { period_us: self.period_us }
            },
            Completion::Done => match self.phase {
                Phase::Rearming => {
                    self.phase = Phase::Feeding;
                    Command::FeedWatchdog
                },
                Phase::Feeding => {
                    let action = self.matrix.get(ScanEvent::Start);
                    self.scanned(action)
                },
                Phase::Forwarding => {
                    self.phase = Phase::Ticking;
                    Command::TickConsumer
                },
                Phase::Ticking => {
                    self.phase = Phase::Idle;
                    Command::Wait
                },
                _ => Command::Wait,
            },
            Completion::Rows(outcome) => match self.phase {
                Phase::Scanning => {
                    let event = match outcome {
                        Ok(levels) => ScanEvent::Sampled(levels),
                        Err(e) => ScanEvent::Fault(e),
                    };
                    let action = self.matrix.get(event);
                    self.scanned(action)
                },
                _ => Command::Wait,
            },
            Completion::Phases(sample) => match self.phase {
                Phase::Sampling => {
                    let mut events: Vec<InputEvent> = Vec::new();
                    core::mem::swap(&mut events, &mut self.events);
                    let mut encoder_fault: Option<PinError> = None;
                    match self.encoder.read_events(sample) {
                        Ok(Some(pair)) => {
                            events.push(pair[0]);
                            events.push(pair[1]);
                            assert(events@ =~= before.events + pair@);
                        },
                        Ok(None) => {},
                        Err(e) => {
                            encoder_fault = Some(e);
                        },
                    }
                    self.phase = Phase::Forwarding;
                    Command::Forward { events, scan_fault: self.scan_fault, encoder_fault }
                },
                _ => Command::Wait,
            },
        };
        proof {
            use_type_invariant(&self.matrix);
            use_type_invariant(&self.debouncer);
            use_type_invariant(&self.encoder);
            self.matrix.lemma_dimensions();
            self.debouncer.lemma_wf();
        }
        command
    }
}


/// The guard that a phase stands for.
spec fn phase_guarded(phase: Phase, guard: Guard) -> bool {
    match phase {
        Phase::Idle => true,
        Phase::Rearming => guard is Armed,
        _ => guard is Fed,
    }
}

/// Running over a prefix of the completions gives a prefix of the commands.
proof fn lemma_run_prefix(s: SchedulerModel, inputs: Seq<Input>, k: int)
    requires
        0 <= k <= inputs.len(),
    ensures
        s.run(inputs).1.len() == inputs.len(),
        s.run(inputs.take(k)).1 == s.run(inputs).1.take(k),
        k < inputs.len() ==> s.run(inputs).1[k] == s.run(inputs.take(k)).0.step(inputs[k]).1,
    decreases inputs.len(),
{
    if inputs.len() > 0 {
        let shorter = inputs.drop_last();
        if k == inputs.len() {
            lemma_run_prefix(s, shorter, k - 1);
            assert(inputs.take(k) =~= inputs);
        } else {
            lemma_run_prefix(s, shorter, k);
            assert(shorter.take(k) =~= inputs.take(k));
        }
    }
}

/// The phase of a scheduler that started between ticks tells how far its
/// commands have secured the device.
proof fn lemma_phase_guarded(s: SchedulerModel, inputs: Seq<Input>)
    requires
        s.phase == Phase::Idle,
    ensures
        phase_guarded(s.run(inputs).0.phase, guard_after(s.run(inputs).1)),
    decreases inputs.len(),
{
    if inputs.len() > 0 {
        lemma_phase_guarded(s, inputs.drop_last());
        let (reached, given) = s.run(inputs.drop_last());
        let (next, command) = reached.step(inputs.last());
        assert(given.push(command).drop_last() =~= given);
    }
}

/// Within a tick the timer is re-armed first and the watchdog is fed
/// second: whatever completions a scheduler that started between ticks is
/// given, each command that reads an input or hands events on comes after a
/// feeding of the watchdog that itself came after the latest re-arming of
/// the timer.
pub proof fn lemma_rearm_and_feed_come_first(s: SchedulerModel, inputs: Seq<Input>, k: int)
    requires
        s.phase == Phase::Idle,
        0 <= k < inputs.len(),
        processes_input(s.run(inputs).1[k]),
    ensures
        guard_after(s.run(inputs).1.take(k)) is Fed,
{
    lemma_run_prefix(s, inputs, k);
    lemma_phase_guarded(s, inputs.take(k));
}

/// The timer interrupt is answered by re-arming the timer, in every phase
/// and whatever the tick before it came to.
pub proof fn lemma_timer_always_rearmed(s: SchedulerModel)
    ensures
        s.step(Input::TimerFired).1 == (Output::RearmTimer { period_us: s.period_us }),
        s.step(Input::TimerFired).0.phase == Phase::Rearming,
{
}


/// One more completion adds one step to a run.
proof fn lemma_run_push(s: SchedulerModel, inputs: Seq<Input>, input: Input)
    ensures
        s.run(inputs.push(input)) == ({
            let (reached, given) = s.run(inputs);
            let (next, command) = reached.step(input);
            (next, given.push(command))
        }),
{
    assert(inputs.push(input).drop_last() =~= inputs);
}

/// Where a tick stands after the readings of the first `upto` columns.
spec fn tick_reached(
    s: SchedulerModel,
    readings: Seq<Seq<PinLevel>>,
    upto: nat,
    reached: SchedulerModel,
    given: Seq<Output>,
) -> bool {
    let n = s.matrix.true_cols;
    let grid = scanned_grid(s.matrix.rows, s.matrix.cols, readings, n);
    &&& given.len() == 3 + upto
    &&& given[0] == (Output::RearmTimer { period_us: s.period_us })
    &&& given[1] == Output::FeedWatchdog
    &&& forall|c: int|
        0 <= c <= upto && c < n ==> #[trigger] given[2 + c] == (Output::Address {
            column: c as nat,
            levels: select_levels(c as nat),
        })
    &&& upto == n ==> given[2 + n as int] == Output::SampleEncoder
    &&& reached.wf()
    &&& reached.encoder == s.encoder
    &&& reached.period_us == s.period_us
    &&& reached.scan_fault is None
    &&& reached.matrix.true_cols == n
    &&& reached.matrix.rows == s.matrix.rows
    &&& reached.matrix.cols == s.matrix.cols
    &&& upto < n ==> {
        &&& reached.phase == Phase::Scanning
        &&& reached.debouncer == s.debouncer
        &&& reached.events == Seq::<InputEvent>::empty()
        &&& scan_reached(
            reached.matrix,
            ScanOutput::Address { column: upto, levels: select_levels(upto) },
            readings,
            upto,
        )
    }
    &&& upto == n ==> {
        &&& reached.phase == Phase::Sampling
        &&& reached.debouncer == s.debouncer.next(grid)
        &&& reached.events == s.debouncer.events(grid)
    }
}

/// A tick stands where `tick_reached` says after the readings of the
/// first `upto` columns.
proof fn lemma_tick_scan(s: SchedulerModel, readings: Seq<Seq<PinLevel>>, upto: nat)
    requires
        s.wf(),
        readings.len() == s.matrix.true_cols,
        forall|c: int| 0 <= c < readings.len() ==> (#[trigger] readings[c]).len() == s.matrix.rows,
        upto <= s.matrix.true_cols,
    ensures
        tick_reached(
            s,
            readings,
            upto,
            s.run(scan_inputs(readings, upto)).0,
            s.run(scan_inputs(readings, upto)).1,
        ),
    decreases upto,
{
    let n = s.matrix.true_cols;
    let grid = scanned_grid(s.matrix.rows, s.matrix.cols, readings, n);
    if upto == 0 {
        let none = Seq::<Input>::empty();
        let fired = none.push(Input::TimerFired);
        let armed = fired.push(Input::Done);
        let fed = armed.push(Input::Done);
        assert(scan_inputs(readings, 0) =~= fed);
        lemma_run_push(s, none, Input::TimerFired);
        lemma_run_push(s, fired, Input::Done);
        lemma_run_push(s, armed, Input::Done);
        lemma_scan_start(s.run(armed).0.matrix, readings);
        crate::debounce::lemma_next_wf(s.debouncer, grid);
    } else {
        let before = scan_inputs(readings, (upto - 1) as nat);
        let column = (upto - 1) as nat;
        lemma_tick_scan(s, readings, column);
        assert(scan_inputs(readings, upto) =~= before.push(Input::Rows(Ok(readings[column as int]))));
        lemma_run_push(s, before, Input::Rows(Ok(readings[column as int])));
        let (reached, given) = s.run(before);
        lemma_scan_advance(
            reached.matrix,
            ScanOutput::Address { column, levels: select_levels(column) },
            readings,
            column,
        );
        crate::debounce::lemma_next_wf(s.debouncer, grid);
    }
}

/// A whole tick: with no failure in the matrix, the scheduler re-arms the
/// timer, feeds the watchdog, addresses the wired columns in ascending
/// order, samples the encoder, hands over the events of the debounced grid
/// followed by those of the encoder, lets the consumer tick and is between
/// ticks again, the debounce filter and the encoder each one reading on.
pub proof fn lemma_tick(
    s: SchedulerModel,
    readings: Seq<Seq<PinLevel>>,
    sample: Result<(PinLevel, PinLevel), PinError>,
)
    requires
        s.wf(),
        readings.len() == s.matrix.true_cols,
        forall|c: int| 0 <= c < readings.len() ==> (#[trigger] readings[c]).len() == s.matrix.rows,
    ensures
        ({
            let n = s.matrix.true_cols as int;
            let grid = scanned_grid(s.matrix.rows, s.matrix.cols, readings, s.matrix.true_cols);
            let (end, given) = s.run(tick_inputs(readings, sample));
            &&& given.len() == n + 6
            &&& given[0] == (Output::RearmTimer { period_us: s.period_us })
            &&& given[1] == Output::FeedWatchdog
            &&& forall|c: int|
                0 <= c < n ==> #[trigger] given[2 + c] == (Output::Address {
                    column: c as nat,
                    levels: select_levels(c as nat),
                })
            &&& given[n + 2] == Output::SampleEncoder
            &&& given[n + 3] == (Output::Forward {
                events: s.debouncer.events(grid) + encoder_events(s.encoder, sample),
                scan_fault: None,
                encoder_fault: match sample {
                    Ok(_) => None,
                    Err(e) => Some(e),
                },
            })
            &&& given[n + 4] == Output::TickConsumer
            &&& given[n + 5] == Output::Wait
            &&& end.wf()
            &&& end.phase == Phase::Idle
            &&& end.debouncer == s.debouncer.next(grid)
            &&& end.encoder == s.encoder.sampled(sample)
        }),
{
    let n = s.matrix.true_cols;
    let scan = scan_inputs(readings, n);
    let sampled = scan.push(Input::Phases(sample));
    let forwarded = sampled.push(Input::Done);
    let ticked = forwarded.push(Input::Done);
    assert(tick_inputs(readings, sample) =~= ticked);
    lemma_tick_scan(s, readings, n);
    lemma_run_push(s, scan, Input::Phases(sample));
    lemma_run_push(s, sampled, Input::Done);
    lemma_run_push(s, forwarded, Input::Done);
}

/// A tick whose scan fails: the timer was re-armed and the watchdog fed
/// before the failure, no column is addressed after it, the debounce filter
/// stays as it was, no matrix event is handed over, the failure is handed
/// over in their place, and the encoder and the consumer have their turn as
/// in any tick.
pub proof fn lemma_tick_with_scan_fault(
    s: SchedulerModel,
    readings: Seq<Seq<PinLevel>>,
    column: nat,
    fault: PinError,
    sample: Result<(PinLevel, PinLevel), PinError>,
)
    requires
        s.wf(),
        readings.len() == s.matrix.true_cols,
        forall|c: int| 0 <= c < readings.len() ==> (#[trigger] readings[c]).len() == s.matrix.rows,
        column < s.matrix.true_cols,
    ensures
        ({
            let k = column as int;
            let (end, given) = s.run(faulted_tick_inputs(readings, column, fault, sample));
            &&& given.len() == k + 7
            &&& given[0] == (Output::RearmTimer { period_us: s.period_us })
            &&& given[1] == Output::FeedWatchdog
            &&& forall|c: int|
                0 <= c <= k ==> #[trigger] given[2 + c] == (Output::Address {
                    column: c as nat,
                    levels: select_levels(c as nat),
                })
            &&& given[k + 3] == Output::SampleEncoder
            &&& given[k + 4] == (Output::Forward {
                events: encoder_events(s.encoder, sample),
                scan_fault: Some(fault),
                encoder_fault: match sample {
                    Ok(_) => None,
                    Err(e) => Some(e),
                },
            })
            &&& given[k + 5] == Output::TickConsumer
            &&& given[k + 6] == Output::Wait
            &&& end.wf()
            &&& end.phase == Phase::Idle
            &&& end.debouncer == s.debouncer
            &&& end.encoder == s.encoder.sampled(sample)
        }),
{
    let scan = scan_inputs(readings, column);
    let failed = scan.push(Input::Rows(Err(fault)));
    let sampled = failed.push(Input::Phases(sample));
    let forwarded = sampled.push(Input::Done);
    let ticked = forwarded.push(Input::Done);
    assert(faulted_tick_inputs(readings, column, fault, sample) =~= ticked);
    lemma_tick_scan(s, readings, column);
    lemma_run_push(s, scan, Input::Rows(Err(fault)));
    lemma_run_push(s, failed, Input::Phases(sample));
    lemma_run_push(s, sampled, Input::Done);
    lemma_run_push(s, forwarded, Input::Done);
    assert(Seq::<InputEvent>::empty() + encoder_events(s.encoder, sample) =~= encoder_events(
        s.encoder,
        sample,
    ));
}

} // verus!
