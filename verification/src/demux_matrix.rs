//! Scanner for a key matrix whose columns are addressed through a
//! demultiplexer.
//!
//! A few select lines carry a column number in binary; the demultiplexer
//! activates that column, and one sense line per row then tells whether the
//! key at that row is making contact. The scanner decides which column to
//! address next and collects the readings; driving and reading the lines is
//! left to the caller.

use vstd::prelude::*;
use crate::event::{PinError, PinLevel};

verus! {

/// Number of select lines.
pub const SELECT_LINES: usize = 4;

/// Number of columns that the select lines can address: two to the power
/// of their number.
pub const ADDRESSABLE: usize = 16;

/// Bit `line` of `column`.
pub open spec fn bit(column: nat, line: nat) -> bool
    decreases line,
{
    if line == 0 {
        column % 2 == 1
    } else {
        bit(column / 2, (line - 1) as nat)
    }
}

/// Level of select line `line` while `column` is addressed: high where the
/// bit of the column number is set.
pub open spec fn select_level(column: nat, line: nat) -> PinLevel {
    if bit(column, line) {
        PinLevel::High
    } else {
        PinLevel::Low
    }
}

/// Levels of all select lines while `column` is addressed.
pub open spec fn select_levels(column: nat) -> Seq<PinLevel> {
    Seq::new(SELECT_LINES as nat, |line: int| select_level(column, line as nat))
}

/// All select lines low.
pub open spec fn rest_levels() -> Seq<PinLevel> {
    Seq::new(SELECT_LINES as nat, |line: int| PinLevel::Low)
}

/// The column number that the demultiplexer reads from the select lines.
pub open spec fn address_of(levels: Seq<PinLevel>) -> nat
    decreases levels.len(),
{
    if levels.len() == 0 {
        0
    } else {
        (if levels[0] == PinLevel::High { 1nat } else { 0nat }) + 2 * address_of(levels.drop_first())
    }
}

/// A grid of `rows` by `cols` cells, none of them active.
pub open spec fn blank_grid(rows: nat, cols: nat) -> Seq<Seq<bool>> {
    Seq::new(rows, |r: int| Seq::new(cols, |c: int| false))
}

/// An activation grid as a sequence of rows.
pub open spec fn grid_view<const CS: usize, const RS: usize>(grid: [[bool; CS]; RS]) -> Seq<Seq<bool>> {
    Seq::new(RS as nat, |r: int| grid[r]@)
}

/// The grid that the readings of the first `upto` columns give: the cell at
/// row `r` and column `c` is active where `c < upto` and `readings[c][r]` is
/// low. `readings[c]` holds the levels of the sense lines while column `c`
/// was addressed.
pub open spec fn scanned_grid(rows: nat, cols: nat, readings: Seq<Seq<PinLevel>>, upto: nat) -> Seq<
    Seq<bool>,
> {
    Seq::new(rows, |r: int| Seq::new(cols, |c: int| c < upto && readings[c][r] == PinLevel::Low))
}

/// What the caller reports to the scanner.
#[derive(Clone, Copy, Debug, PartialEq, Eq)]
pub enum ScanEvent<const RS: usize> {
    /// A new scan cycle is wanted.
    Start,
    /// The select lines were driven as asked, the settle delay has passed,
    /// and these are the levels of the sense lines, one per row.
    Sampled([PinLevel; RS]),
    /// Driving a select line or reading a sense line failed.
    Fault(PinError),
}

/// What the scanner asks of the caller.
#[derive(Clone, Copy, Debug, PartialEq, Eq)]
pub enum ScanAction<const CS: usize, const RS: usize> {
    /// Drive select line `i` to `levels[i]`, wait for the lines to settle,
    /// read every sense line and report the levels, or the failure.
    Address { column: usize, levels: [PinLevel; SELECT_LINES] },
    /// The scan cycle is over: the activation grid, or the failure that ended it.
    Done(Result<[[bool; CS]; RS], PinError>),
    /// No scan cycle is under way; the event was ignored.
    Idle,
}

/// [`ScanEvent`] over sequences.
pub enum ScanInput {
    Start,
    Sampled(Seq<PinLevel>),
    Fault(PinError),
}

/// [`ScanAction`] over sequences.
pub enum ScanOutput {
    Address { column: nat, levels: Seq<PinLevel> },
    Done(Result<Seq<Seq<bool>>, PinError>),
    Idle,
}

impl<const RS: usize> View for ScanEvent<RS> {
    type V = ScanInput;

    open spec fn view(&self) -> ScanInput {
        match *self {
            ScanEvent::Start => ScanInput::Start,
            ScanEvent::Sampled(levels) => ScanInput::Sampled(levels@),
            ScanEvent::Fault(e) => ScanInput::Fault(e),
        }
    }
}

impl<const CS: usize, const RS: usize> View for ScanAction<CS, RS> {
    type V = ScanOutput;

    open spec fn view(&self) -> ScanOutput {
        match *self {
            ScanAction::Address { column, levels } => ScanOutput::Address {
                column: column as nat,
                levels: levels@,
            },
            ScanAction::Done(Ok(grid)) => ScanOutput::Done(Ok(grid_view(grid))),
            ScanAction::Done(Err(e)) => ScanOutput::Done(Err(e)),
            ScanAction::Idle => ScanOutput::Idle,
        }
    }
}

/// What a caller can observe of a [`DemuxMatrix`].
pub struct ScanModel {
    /// Number of sense lines.
    pub rows: nat,
    /// Width of the activation grid.
    pub cols: nat,
    /// Number of columns that are wired, counted from column zero.
    pub true_cols: nat,
    /// Levels that the select lines were last asked to take.
    pub select: Seq<PinLevel>,
    /// The column whose readings are awaited, while a scan cycle is under way.
    pub cursor: Option<nat>,
    /// The grid as far as the current scan cycle has filled it.
    pub keys: Seq<Seq<bool>>,
}

impl ScanModel {
    /// The wired columns fit the grid and the address space, the grid has
    /// its size, and a column that is awaited is a wired one.
    pub open spec fn wf(self) -> bool {
        &&& self.true_cols <= self.cols
        &&& self.true_cols <= ADDRESSABLE
        &&& self.select.len() == SELECT_LINES
        &&& self.keys.len() == self.rows
        &&& forall|r: int| 0 <= r < self.rows ==> (#[trigger] self.keys[r]).len() == self.cols
        &&& self.cursor matches Some(c) ==> c < self.true_cols
    }

    /// A scanner at rest: all select lines low, no scan cycle under way.
    pub open spec fn initial(rows: nat, cols: nat, true_cols: nat) -> ScanModel {
        ScanModel {
            rows,
            cols,
            true_cols,
            select: rest_levels(),
            cursor: None,
            keys: blank_grid(rows, cols),
        }
    }

    /// The scanner with all select lines low.
    pub open spec fn cleared(self) -> ScanModel {
        ScanModel { select: rest_levels(), ..self }
    }

    /// The grid with the readings of `column` taken in: a cell is active
    /// where its sense line reads low.
    pub open spec fn record(self, column: nat, levels: Seq<PinLevel>) -> Seq<Seq<bool>> {
        Seq::new(
            self.rows,
            |r: int| self.keys[r].update(column as int, levels[r] == PinLevel::Low),
        )
    }

    /// Moves on to `column`: addresses it if it is wired, and ends the scan
    /// cycle with the grid otherwise.
    pub open spec fn address(self, column: nat) -> (ScanModel, ScanOutput) {
        if column < self.true_cols {
            (
                ScanModel { select: select_levels(column), cursor: Some(column), ..self },
                ScanOutput::Address { column, levels: select_levels(column) },
            )
        } else {
            (ScanModel { cursor: None, ..self }, ScanOutput::Done(Ok(self.keys)))
        }
    }

    /// The scanner after one event, and what it asks for next.
    ///
    /// `Start` blanks the grid and addresses column zero. Readings are taken
    /// into the column that was addressed, and the next column is addressed.
    /// A failure ends the scan cycle. Readings and failures that arrive while
    /// no scan cycle is under way change nothing.
    pub open spec fn step(self, input: ScanInput) -> (ScanModel, ScanOutput) {
        match input {
            ScanInput::Start => (ScanModel {
                keys: blank_grid(self.rows, self.cols),
                ..self
            }).address(0),
            ScanInput::Sampled(levels) => match self.cursor {
                Some(c) => (ScanModel { keys: self.record(c, levels), ..self }).address(c + 1),
                None => (self, ScanOutput::Idle),
            },
            ScanInput::Fault(e) => match self.cursor {
                Some(_) => (ScanModel { cursor: None, ..self }, ScanOutput::Done(Err(e))),
                None => (self, ScanOutput::Idle),
            },
        }
    }

    /// The scanner after `readings` were reported one by one, and what it
    /// asked for last; `last` where there are no readings.
    pub open spec fn sampled_all(self, last: ScanOutput, readings: Seq<Seq<PinLevel>>) -> (
        ScanModel,
        ScanOutput,
    )
        decreases readings.len(),
    {
        if readings.len() == 0 {
            (self, last)
        } else {
            let (next, asked) = self.step(ScanInput::Sampled(readings[0]));
            next.sampled_all(asked, readings.drop_first())
        }
    }

    /// A whole scan cycle: `Start`, then the readings of the columns in turn.
    pub open spec fn scan(self, readings: Seq<Seq<PinLevel>>) -> (ScanModel, ScanOutput) {
        let (next, asked) = self.step(ScanInput::Start);
        next.sampled_all(asked, readings)
    }
}

/// Scanner state for a matrix of `RS` rows whose grid is `CS` columns wide.
pub struct DemuxMatrix<const CS: usize, const RS: usize> {
    select: [PinLevel; SELECT_LINES],
    true_cols: usize,
    cursor: Option<usize>,
    keys: [[bool; CS]; RS],
}

impl<const CS: usize, const RS: usize> View for DemuxMatrix<CS, RS> {
    type V = ScanModel;

    closed spec fn view(&self) -> ScanModel {
        ScanModel {
            rows: RS as nat,
            cols: CS as nat,
            true_cols: self.true_cols as nat,
            select: self.select@,
            cursor: match self.cursor {
                Some(c) => Some(c as nat),
                None => None,
            },
            keys: grid_view(self.keys),
        }
    }
}

/// Bit `line` of `column`, by shifting and masking.
fn bit_of(column: usize, line: usize) -> (b: bool)
    requires
        column < ADDRESSABLE,
        line < SELECT_LINES,
    ensures
        b == bit(column as nat, line as nat),
{
    let masked: usize = (column >> line) & 1;
    assert(masked == 1 <==> bit(column as nat, line as nat)) by {
        reveal_with_fuel(bit, 4);
        assert(line == 0 ==> (((column >> 0) & 1) == 1 <==> column % 2 == 1)) by (bit_vector);
        assert(line == 1 ==> (((column >> 1) & 1) == 1 <==> (column / 2) % 2 == 1)) by (bit_vector);
        assert(line == 2 ==> (((column >> 2) & 1) == 1 <==> (column / 2 / 2) % 2 == 1)) by (bit_vector);
        assert(line == 3 ==> (((column >> 3) & 1) == 1 <==> (column / 2 / 2 / 2) % 2 == 1)) by (bit_vector);
    }
    masked == 1
}

impl<const CS: usize, const RS: usize> DemuxMatrix<CS, RS> {
    /// Holds of every scanner.
    #[verifier::type_invariant]
    pub open spec fn inv(self) -> bool {
        self@.wf()
    }

    /// The grid of a scanner has the dimensions of its type.
    pub proof fn lemma_dimensions(self)
        ensures
            self@.rows == RS,
            self@.cols == CS,
    {
    }

    /// A scanner at rest for a matrix of which the first `true_cols` columns
    /// are wired.
    pub fn new(true_cols: usize) -> (m: Self)
        requires
            true_cols <= CS,
            true_cols <= ADDRESSABLE,
        ensures
            m@ == ScanModel::initial(RS as nat, CS as nat, true_cols as nat),
            m@.wf(),
    {
        let mut res = DemuxMatrix {
            select: [PinLevel::Low; SELECT_LINES],
            true_cols,
            cursor: None,
            keys: [[false; CS]; RS],
        };
        res.clear();
        assert(res@.keys =~~= blank_grid(RS as nat, CS as nat));
        res
    }

    /// Number of wired columns.
    pub fn true_cols(&self) -> (n: usize)
        ensures
            n == self@.true_cols,
    {
        self.true_cols
    }

    /// Levels that the select lines were last asked to take.
    pub fn select(&self) -> (levels: [PinLevel; SELECT_LINES])
        ensures
            levels@ == self@.select,
    {
        self.select
    }

    /// The column whose readings are awaited, while a scan cycle is under
    /// way.
    pub fn cursor(&self) -> (column: Option<usize>)
        ensures
            match column {
                Some(c) => self@.cursor == Some(c as nat),
                None => self@.cursor is None,
            },
    {
        self.cursor
    }

    /// Takes all select lines low and returns the levels to drive them to.
    pub fn clear(&mut self) -> (levels: [PinLevel; SELECT_LINES])
        ensures
            final(self)@ == old(self)@.cleared(),
            final(self)@.wf(),
            levels@ == rest_levels(),
    {
        proof {
            use_type_invariant(&*self);
        }
        let mut line: usize = 0;
        while line < SELECT_LINES
            invariant
                line <= SELECT_LINES,
                self@.wf(),
                self.true_cols == old(self).true_cols,
                self.cursor == old(self).cursor,
                self.keys == old(self).keys,
                forall|i: int| 0 <= i < line ==> self.select@[i] == PinLevel::Low,
            decreases SELECT_LINES - line,
        {
            self.select[line] = PinLevel::Low;
            line += 1;
        }
        assert(self.select@ =~= rest_levels());
        self.select
    }

    /// Sets the select lines to the number of `column`.
    fn select_column(&mut self, column: usize)
        requires
            column < ADDRESSABLE,
        ensures
            final(self).select@ == select_levels(column as nat),
            final(self).true_cols == old(self).true_cols,
            final(self).cursor == old(self).cursor,
            final(self).keys == old(self).keys,
    {
        proof {
            use_type_invariant(&*self);
        }
        let mut line: usize = 0;
        while line < SELECT_LINES
            invariant
                line <= SELECT_LINES,
                column < ADDRESSABLE,
                self@.wf(),
                self.true_cols == old(self).true_cols,
                self.cursor == old(self).cursor,
                self.keys == old(self).keys,
                forall|i: int| 0 <= i < line ==> self.select@[i] == select_level(column as nat, i as nat),
            decreases SELECT_LINES - line,
        {
            if bit_of(column, line) {
                self.select[line] = PinLevel::High;
            } else {
                self.select[line] = PinLevel::Low;
            }
            line += 1;
        }
    }

    /// Addresses `column` if it is wired, and ends the scan cycle otherwise.
    fn address(&mut self, column: usize) -> (action: ScanAction<CS, RS>)
        ensures
            final(self)@.wf(),
            (final(self)@, action@) == old(self)@.address(column as nat),
    {
        proof {
            use_type_invariant(&*self);
        }
        if column < self.true_cols {
            self.select_column(column);
            self.cursor = Some(column);
            ScanAction::Address { column, levels: self.select }
        } else {
            self.cursor = None;
            ScanAction::Done(Ok(self.keys))
        }
    }

    /// Takes the readings of `column` into the grid.
    fn record(&mut self, column: usize, levels: &[PinLevel; RS])
        requires
            column < CS,
        ensures
            final(self)@ == (ScanModel {
                keys: old(self)@.record(column as nat, levels@),
                ..old(self)@
            }),
            final(self)@.wf(),
    {
        proof {
            use_type_invariant(&*self);
        }
        let mut row: usize = 0;
        while row < RS
            invariant
                row <= RS,
                column < CS,
                self@.wf(),
                self.true_cols == old(self).true_cols,
                self.cursor == old(self).cursor,
                self.select == old(self).select,
                forall|r: int|
                    0 <= r < row ==> (#[trigger] self.keys[r])@ == old(self).keys[r]@.update(
                        column as int,
                        levels[r] == PinLevel::Low,
                    ),
                forall|r: int| row <= r < RS ==> #[trigger] self.keys[r] == old(self).keys[r],
            decreases RS - row,
        {
            let active: bool = match levels[row] {
                PinLevel::Low => true,
                PinLevel::High => false,
            };
            self.keys[row][column] = active;
            row += 1;
        }
        assert(grid_view(self.keys) =~= old(self)@.record(column as nat, levels@));
    }

    /// Advances the scan by one event and says what to do next.
    ///
    /// A scan cycle is the exchange that begins with `Start` and ends with
    /// `Done`: each `Address` in between is answered by `Sampled` or `Fault`.
    /// Only wired columns are ever addressed, in ascending order, and the
    /// select lines stay as they were last driven when the cycle ends.
    pub fn get(&mut self, event: ScanEvent<RS>) -> (action: ScanAction<CS, RS>)
        ensures
            final(self)@.wf(),
            (final(self)@, action@) == old(self)@.step(event@),
            action matches ScanAction::Address { column, levels } ==> column < old(self)@.true_cols
                && address_of(levels@) == column,
    {
        proof {
            use_type_invariant(&*self);
        }
        let action = match event {
            ScanEvent::Start => {
                self.keys = [[false; CS]; RS];
                assert(grid_view(self.keys) =~~= blank_grid(RS as nat, CS as nat));
                self.address(0)
            },
            ScanEvent::Sampled(levels) => match self.cursor {
                Some(column) => {
                    self.record(column, &levels);
                    self.address(column + 1)
                },
                None => ScanAction::Idle,
            },
            ScanEvent::Fault(e) => match self.cursor {
                Some(_) => {
                    self.cursor = None;
                    ScanAction::Done(Err(e))
                },
                None => ScanAction::Idle,
            },
        };
        proof {
            if let ScanAction::Address { column, levels } = action {
                lemma_address_of_select_levels(column as nat);
            }
        }
        action
    }
}

/// Clearing twice is clearing once.
pub proof fn lemma_clear_idempotent(m: ScanModel)
    ensures
        m.cleared().cleared() == m.cleared(),
        m.cleared().select == rest_levels(),
{
}

/// A scan cycle in which no line fails addresses the wired columns in
/// ascending order, each once, and ends with the grid of their readings:
/// columns that are not wired stay inactive.
pub proof fn lemma_scan_cycle(m: ScanModel, readings: Seq<Seq<PinLevel>>)
    requires
        m.wf(),
        readings.len() == m.true_cols,
        forall|c: int| 0 <= c < readings.len() ==> (#[trigger] readings[c]).len() == m.rows,
    ensures
        m.scan(readings).1 == ScanOutput::Done(
            Ok(scanned_grid(m.rows, m.cols, readings, m.true_cols)),
        ),
        m.scan(readings).0.cursor is None,
        m.scan(readings).0.wf(),
        forall|k: nat|
            k < m.true_cols ==> #[trigger] m.scan(readings.take(k as int)).1 == (
            ScanOutput::Address { column: k, levels: select_levels(k) }),
{
    let (next, asked) = m.step(ScanInput::Start);
    lemma_scan_start(m, readings);
    lemma_scan_from(next, asked, readings, 0);
    assert(readings.skip(0) =~= readings);
    assert forall|k: nat| k < m.true_cols implies #[trigger] m.scan(readings.take(k as int)).1 == (
    ScanOutput::Address { column: k, levels: select_levels(k) }) by {
        let part = readings.take(k as int);
        lemma_scan_start(m, part);
        lemma_scan_prefix(next, asked, part, 0);
        assert(part.skip(0) =~= part);
    }
}

/// Whether a scan cycle has taken in the readings of the columns before
/// `column`, all of them without a failure, and now asks for `asked`: for
/// the readings of `column`, or, past the last wired column, for nothing
/// more.
pub open spec fn scan_reached(
    s: ScanModel,
    asked: ScanOutput,
    readings: Seq<Seq<PinLevel>>,
    column: nat,
) -> bool {
    &&& s.wf()
    &&& s.keys == scanned_grid(s.rows, s.cols, readings, column)
    &&& column <= s.true_cols
    &&& column < s.true_cols ==> s.cursor == Some(column) && asked == (ScanOutput::Address {
        column,
        levels: select_levels(column),
    })
    &&& column == s.true_cols ==> s.cursor is None && asked == ScanOutput::Done(Ok(s.keys))
}

/// `Start` opens a scan cycle at column zero.
pub proof fn lemma_scan_start(m: ScanModel, readings: Seq<Seq<PinLevel>>)
    requires
        m.wf(),
    ensures
        ({
            let (next, then) = m.step(ScanInput::Start);
            scan_reached(next, then, readings, 0) && next.true_cols == m.true_cols && next.rows
                == m.rows && next.cols == m.cols
        }),
{
    assert(blank_grid(m.rows, m.cols) =~~= scanned_grid(m.rows, m.cols, readings, 0));
}

/// The readings of a column take a scan cycle on to the next column.
pub proof fn lemma_scan_advance(s: ScanModel, asked: ScanOutput, readings: Seq<Seq<PinLevel>>, column: nat)
    requires
        scan_reached(s, asked, readings, column),
        column < s.true_cols,
        column < readings.len(),
        readings[column as int].len() == s.rows,
    ensures
        ({
            let (next, then) = s.step(ScanInput::Sampled(readings[column as int]));
            scan_reached(next, then, readings, column + 1) && next.true_cols == s.true_cols
                && next.rows == s.rows && next.cols == s.cols
        }),
{
    let taken = s.record(column, readings[column as int]);
    assert(taken =~~= scanned_grid(s.rows, s.cols, readings, column + 1));
}

/// From any column on, the remaining readings end the scan cycle with the
/// grid of all readings.
proof fn lemma_scan_from(s: ScanModel, asked: ScanOutput, readings: Seq<Seq<PinLevel>>, column: nat)
    requires
        scan_reached(s, asked, readings, column),
        readings.len() == s.true_cols,
        forall|c: int| 0 <= c < readings.len() ==> (#[trigger] readings[c]).len() == s.rows,
    ensures
        s.sampled_all(asked, readings.skip(column as int)).1 == ScanOutput::Done(
            Ok(scanned_grid(s.rows, s.cols, readings, s.true_cols)),
        ),
        s.sampled_all(asked, readings.skip(column as int)).0.cursor is None,
        s.sampled_all(asked, readings.skip(column as int)).0.wf(),
    decreases s.true_cols - column,
{
    let rest = readings.skip(column as int);
    if column < s.true_cols {
        assert(rest.drop_first() =~= readings.skip(column + 1 as int));
        lemma_scan_advance(s, asked, readings, column);
        let (next, then) = s.step(ScanInput::Sampled(readings[column as int]));
        lemma_scan_from(next, then, readings, column + 1);
    }
}

/// Readings that stop short of the last wired column leave the scan cycle
/// asking for the column after them.
proof fn lemma_scan_prefix(s: ScanModel, asked: ScanOutput, part: Seq<Seq<PinLevel>>, column: nat)
    requires
        scan_reached(s, asked, part, column),
        column <= part.len() < s.true_cols,
        forall|c: int| 0 <= c < part.len() ==> (#[trigger] part[c]).len() == s.rows,
    ensures
        s.sampled_all(asked, part.skip(column as int)).1 == (ScanOutput::Address {
            column: part.len(),
            levels: select_levels(part.len()),
        }),
    decreases part.len() - column,
{
    let rest = part.skip(column as int);
    if column < part.len() {
        assert(rest.drop_first() =~= part.skip(column + 1 as int));
        lemma_scan_advance(s, asked, part, column);
        let (next, then) = s.step(ScanInput::Sampled(part[column as int]));
        lemma_scan_prefix(next, then, part, column + 1);
    }
}

/// The select lines carry the number of the column that is addressed: the
/// demultiplexer reads back `column` from the levels chosen for it.
pub proof fn lemma_address_of_select_levels(column: nat)
    requires
        column < ADDRESSABLE,
    ensures
        address_of(select_levels(column)) == column,
{
    reveal_with_fuel(bit, 4);
    reveal_with_fuel(address_of, 5);
}

} // verus!
