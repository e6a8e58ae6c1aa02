//! Debounce filter for the activation grid.
//!
//! Every key has its own stability counter. A raw reading that differs from
//! the state last reported for the key advances the counter, a reading that
//! agrees resets it, and the reported state changes, with one event, only when
//! the counter reaches the threshold.

use vstd::prelude::*;
use crate::demux_matrix::grid_view;
use crate::event::InputEvent;

verus! {

/// Largest number of rows, and of columns, whose indices fit the coordinates
/// of an event.
pub const MAX_SIDE: usize = 256;

/// What a caller can observe of a [`Debouncer`].
pub struct DebounceModel {
    /// Number of rows of the grid.
    pub rows: nat,
    /// Number of columns of the grid.
    pub cols: nat,
    /// Number of consecutive differing readings that change the reported
    /// state of a key.
    pub threshold: nat,
    /// State last reported for each key.
    pub reported: Seq<Seq<bool>>,
    /// Number of consecutive readings of each key, up to now, that differ
    /// from its reported state.
    pub counters: Seq<Seq<nat>>,
}

/// Whether `grid` has `rows` rows of `cols` cells.
pub open spec fn grid_shaped(grid: Seq<Seq<bool>>, rows: nat, cols: nat) -> bool {
    &&& grid.len() == rows
    &&& forall|r: int| 0 <= r < rows ==> (#[trigger] grid[r]).len() == cols
}

impl DebounceModel {
    /// The grid has its size, coordinates fit a byte, the threshold is
    /// positive and every counter is below it.
    pub open spec fn wf(self) -> bool {
        &&& self.rows <= MAX_SIDE
        &&& self.cols <= MAX_SIDE
        &&& self.threshold >= 1
        &&& grid_shaped(self.reported, self.rows, self.cols)
        &&& self.counters.len() == self.rows
        &&& forall|r: int| 0 <= r < self.rows ==> (#[trigger] self.counters[r]).len() == self.cols
        &&& forall|r: int, c: int|
            0 <= r < self.rows && 0 <= c < self.cols ==> #[trigger] self.counters[r][c]
                < self.threshold
    }

    /// A filter that reports every key as released and has seen no reading.
    pub open spec fn initial(rows: nat, cols: nat, threshold: nat) -> DebounceModel {
        DebounceModel {
            rows,
            cols,
            threshold,
            reported: Seq::new(rows, |r: int| Seq::new(cols, |c: int| false)),
            counters: Seq::new(rows, |r: int| Seq::new(cols, |c: int| 0nat)),
        }
    }

    /// Whether the reading of `grid` changes the reported state of the key at
    /// `(r, c)`: it differs from the reported state and is the last of
    /// `threshold` consecutive readings that do.
    pub open spec fn flips(self, grid: Seq<Seq<bool>>, r: int, c: int) -> bool {
        grid[r][c] != self.reported[r][c] && self.counters[r][c] + 1 >= self.threshold
    }

    /// Reported state of the key at `(r, c)` after the reading of `grid`.
    pub open spec fn next_reported(self, grid: Seq<Seq<bool>>, r: int, c: int) -> bool {
        if self.flips(grid, r, c) {
            grid[r][c]
        } else {
            self.reported[r][c]
        }
    }

    /// Counter of the key at `(r, c)` after the reading of `grid`.
    pub open spec fn next_counter(self, grid: Seq<Seq<bool>>, r: int, c: int) -> nat {
        if grid[r][c] == self.reported[r][c] || self.flips(grid, r, c) {
            0
        } else {
            self.counters[r][c] + 1
        }
    }

    /// The filter after the reading of `grid`.
    pub open spec fn next(self, grid: Seq<Seq<bool>>) -> DebounceModel {
        DebounceModel {
            reported: Seq::new(
                self.rows,
                |r: int| Seq::new(self.cols, |c: int| self.next_reported(grid, r, c)),
            ),
            counters: Seq::new(
                self.rows,
                |r: int| Seq::new(self.cols, |c: int| self.next_counter(grid, r, c)),
            ),
            ..self
        }
    }

    /// The event, if any, that the reading of `grid` gives for the key at
    /// `(r, c)`: a press where the key is newly active, a release where it is
    /// newly inactive.
    pub open spec fn cell_event(self, grid: Seq<Seq<bool>>, r: int, c: int) -> Option<InputEvent> {
        if self.flips(grid, r, c) {
            Some(InputEvent::transition((r as u8, c as u8), grid[r][c]))
        } else {
            None
        }
    }

    /// Events of the first `upto` keys of row `r`, by ascending column.
    pub open spec fn row_events(self, grid: Seq<Seq<bool>>, r: int, upto: nat) -> Seq<InputEvent>
        decreases upto,
    {
        if upto == 0 {
            Seq::empty()
        } else {
            let before = self.row_events(grid, r, (upto - 1) as nat);
            match self.cell_event(grid, r, upto - 1) {
                Some(e) => before.push(e),
                None => before,
            }
        }
    }

    /// Events of the first `upto` rows, row after row.
    pub open spec fn rows_events(self, grid: Seq<Seq<bool>>, upto: nat) -> Seq<InputEvent>
        decreases upto,
    {
        if upto == 0 {
            Seq::empty()
        } else {
            self.rows_events(grid, (upto - 1) as nat) + self.row_events(grid, upto - 1, self.cols)
        }
    }

    /// Events that the reading of `grid` gives, by ascending row and, within
    /// a row, by ascending column.
    pub open spec fn events(self, grid: Seq<Seq<bool>>) -> Seq<InputEvent> {
        self.rows_events(grid, self.rows)
    }

    /// The filter after the readings of `grids`, first to last.
    pub open spec fn after(self, grids: Seq<Seq<Seq<bool>>>) -> DebounceModel
        decreases grids.len(),
    {
        if grids.len() == 0 {
            self
        } else {
            self.after(grids.drop_last()).next(grids.last())
        }
    }

    /// The event, if any, that reading number `i` of `grids` gives for the
    /// key at `(r, c)`, the filter having started as `self`.
    pub open spec fn event_at(self, grids: Seq<Seq<Seq<bool>>>, i: int, r: int, c: int) -> Option<
        InputEvent,
    > {
        self.after(grids.take(i)).cell_event(grids[i], r, c)
    }
}

/// Whether `a` comes before `b` by row and, within a row, by column.
pub open spec fn coord_before(a: (u8, u8), b: (u8, u8)) -> bool {
    a.0 < b.0 || (a.0 == b.0 && a.1 < b.1)
}

/// Whether every grid of `grids` has `rows` rows of `cols` cells.
pub open spec fn grids_shaped(grids: Seq<Seq<Seq<bool>>>, rows: nat, cols: nat) -> bool {
    forall|i: int| 0 <= i < grids.len() ==> grid_shaped(#[trigger] grids[i], rows, cols)
}

/// Debounce state for a grid of `RS` rows and `CS` columns.
pub struct Debouncer<const CS: usize, const RS: usize> {
    reported: [[bool; CS]; RS],
    counters: [[u16; CS]; RS],
    threshold: u16,
}

impl<const CS: usize, const RS: usize> View for Debouncer<CS, RS> {
    type V = DebounceModel;

    closed spec fn view(&self) -> DebounceModel {
        DebounceModel {
            rows: RS as nat,
            cols: CS as nat,
            threshold: self.threshold as nat,
            reported: grid_view(self.reported),
            counters: Seq::new(
                RS as nat,
                |r: int| Seq::new(CS as nat, |c: int| self.counters[r][c] as nat),
            ),
        }
    }
}

impl<const CS: usize, const RS: usize> Debouncer<CS, RS> {
    /// Holds of every filter.
    #[verifier::type_invariant]
    pub closed spec fn inv(self) -> bool {
        &&& RS <= MAX_SIDE
        &&& CS <= MAX_SIDE
        &&& self.threshold >= 1
        &&& forall|r: int, c: int|
            0 <= r < RS && 0 <= c < CS ==> #[trigger] self.counters[r][c] < self.threshold
    }

    /// A filter that meets its invariant is well formed, and its grid has
    /// the dimensions of its type.
    pub proof fn lemma_wf(self)
        requires
            self.inv(),
        ensures
            self@.wf(),
            self@.rows == RS,
            self@.cols == CS,
    {
    }

    /// A filter that reports every key as released. `threshold` is the
    /// number of consecutive differing readings that change the reported
    /// state of a key.
    pub fn new(threshold: u16) -> (d: Self)
        requires
            threshold >= 1,
            RS <= MAX_SIDE,
            CS <= MAX_SIDE,
        ensures
            d@ == DebounceModel::initial(RS as nat, CS as nat, threshold as nat),
            d@.wf(),
    {
        let d = Debouncer { reported: [[false; CS]; RS], counters: [[0u16; CS]; RS], threshold };
        assert(d@.reported =~~= DebounceModel::initial(RS as nat, CS as nat, threshold as nat).reported);
        assert(d@.counters =~~= DebounceModel::initial(RS as nat, CS as nat, threshold as nat).counters);
        d
    }

    /// Number of consecutive differing readings that change the reported
    /// state of a key.
    pub fn threshold(&self) -> (t: u16)
        ensures
            t == self@.threshold,
    {
        self.threshold
    }

    /// State last reported for the key at `(row, column)`.
    pub fn is_pressed(&self, row: usize, column: usize) -> (pressed: bool)
        requires
            row < RS,
            column < CS,
        ensures
            pressed == self@.reported[row as int][column as int],
    {
        self.reported[row][column]
    }

    /// Takes one activation grid and returns the transitions that became
    /// stable with it.
    pub fn filter(&mut self, grid: &[[bool; CS]; RS]) -> (events: Vec<InputEvent>)
        ensures
            final(self)@.wf(),
            final(self)@ == old(self)@.next(grid_view(*grid)),
            events@ == old(self)@.events(grid_view(*grid)),
            forall|k1: int, k2: int|
                0 <= k1 < k2 < events.len() ==> coord_before(
                    (#[trigger] events[k1]).coord(),
                    (#[trigger] events[k2]).coord(),
                ),
    {
        proof {
            use_type_invariant(&*self);
            self.lemma_wf();
        }
        let ghost before = old(self)@;
        let ghost raw = grid_view(*grid);
        let mut events: Vec<InputEvent> = Vec::new();
        let mut r: usize = 0;
        while r < RS
            invariant
                r <= RS,
                before == old(self)@,
                before.wf(),
                self.inv(),
                raw == grid_view(*grid),
                self.threshold == old(self).threshold,
                events@ == before.rows_events(raw, r as nat),
                forall|i: int, j: int|
                    0 <= i < r && 0 <= j < CS ==> #[trigger] self.reported[i][j]
                        == before.next_reported(raw, i, j),
                forall|i: int, j: int|
                    0 <= i < r && 0 <= j < CS ==> #[trigger] self.counters[i][j]
                        == before.next_counter(raw, i, j),
                forall|i: int| r <= i < RS ==> #[trigger] self.reported[i] == old(self).reported[i],
                forall|i: int| r <= i < RS ==> #[trigger] self.counters[i] == old(self).counters[i],
            decreases RS - r,
        {
            let mut c: usize = 0;
            while c < CS
                invariant
                    r < RS,
                    c <= CS,
                    before == old(self)@,
                    before.wf(),
                    self.inv(),
                    raw == grid_view(*grid),
                    self.threshold == old(self).threshold,
                    events@ == before.rows_events(raw, r as nat) + before.row_events(
                        raw,
                        r as int,
                        c as nat,
                    ),
                    forall|i: int, j: int|
                        0 <= i < r && 0 <= j < CS ==> #[trigger] self.reported[i][j]
                            == before.next_reported(raw, i, j),
                    forall|i: int, j: int|
                        0 <= i < r && 0 <= j < CS ==> #[trigger] self.counters[i][j]
                            == before.next_counter(raw, i, j),
                    forall|j: int|
                        0 <= j < c ==> #[trigger] self.reported[r as int][j]
                            == before.next_reported(raw, r as int, j),
                    forall|j: int|
                        0 <= j < c ==> #[trigger] self.counters[r as int][j]
                            == before.next_counter(raw, r as int, j),
                    forall|j: int|
                        c <= j < CS ==> #[trigger] self.reported[r as int][j] == old(
                            self,
                        ).reported[r as int][j],
                    forall|j: int|
                        c <= j < CS ==> #[trigger] self.counters[r as int][j] == old(
                            self,
                        ).counters[r as int][j],
                    forall|i: int| r < i < RS ==> #[trigger] self.reported[i] == old(self).reported[i],
                    forall|i: int| r < i < RS ==> #[trigger] self.counters[i] == old(self).counters[i],
                decreases CS - c,
            {
                let reading: bool = grid[r][c];
                if reading == self.reported[r][c] {
                    self.counters[r][c] = 0;
                } else {
                    let count: u16 = self.counters[r][c] + 1;
                    if count >= self.threshold {
                        self.reported[r][c] = reading;
                        self.counters[r][c] = 0;
                        let event = if reading {
                            InputEvent::Press(r as u8, c as u8)
                        } else {
                            InputEvent::Release(r as u8, c as u8)
                        };
                        events.push(event);
                    } else {
                        self.counters[r][c] = count;
                    }
                }
                proof {
                    let done = before.row_events(raw, r as int, c as nat);
                    assert(before.row_events(raw, r as int, (c + 1) as nat) == match before.cell_event(
                        raw,
                        r as int,
                        c as int,
                    ) {
                        Some(e) => done.push(e),
                        None => done,
                    });
                    assert(before.rows_events(raw, r as nat) + done.push(
                        InputEvent::transition((r as u8, c as u8), reading),
                    ) =~= (before.rows_events(raw, r as nat) + done).push(
                        InputEvent::transition((r as u8, c as u8), reading),
                    ));
                }
                c += 1;
            }
            r += 1;
        }
        assert(self@.reported =~~= before.next(raw).reported);
        assert(self@.counters =~~= before.next(raw).counters);
        proof {
            self.lemma_wf();
            lemma_events_ordered(before, raw);
        }
        events
    }
}


/// The events of the first `upto` keys of a row are the events of those
/// keys, each once, by ascending column.
proof fn lemma_row_events(m: DebounceModel, grid: Seq<Seq<bool>>, r: int, upto: nat)
    requires
        0 <= r < MAX_SIDE,
        upto <= MAX_SIDE,
    ensures
        forall|k: int|
            0 <= k < m.row_events(grid, r, upto).len() ==> {
                let e = #[trigger] m.row_events(grid, r, upto)[k];
                e.coord().0 == r && e.coord().1 < upto && m.cell_event(grid, r, e.coord().1 as int)
                    == Some(e)
            },
        forall|k1: int, k2: int|
            0 <= k1 < k2 < m.row_events(grid, r, upto).len() ==> (#[trigger] m.row_events(
                grid,
                r,
                upto,
            )[k1]).coord().1 < (#[trigger] m.row_events(grid, r, upto)[k2]).coord().1,
        forall|c: int|
            0 <= c < upto && (#[trigger] m.cell_event(grid, r, c)) is Some ==> m.row_events(
                grid,
                r,
                upto,
            ).contains(m.cell_event(grid, r, c)->Some_0),
    decreases upto,
{
    if upto > 0 {
        let shorter = m.row_events(grid, r, (upto - 1) as nat);
        let all = m.row_events(grid, r, upto);
        lemma_row_events(m, grid, r, (upto - 1) as nat);
        assert forall|c: int| 0 <= c < upto && (#[trigger] m.cell_event(grid, r, c)) is Some implies all.contains(
            m.cell_event(grid, r, c)->Some_0,
        ) by {
            let e = m.cell_event(grid, r, c)->Some_0;
            if c < upto - 1 {
                let k = choose|k: int| 0 <= k < shorter.len() && shorter[k] == e;
                assert(all[k] == e);
            } else {
                assert(all[all.len() - 1] == e);
            }
        }
    }
}

/// The events of a reading are the events of the keys, each once, by
/// ascending row and, within a row, by ascending column: no key has two
/// events in one reading.
pub proof fn lemma_events_ordered(m: DebounceModel, grid: Seq<Seq<bool>>)
    requires
        m.wf(),
    ensures
        forall|k: int|
            0 <= k < m.events(grid).len() ==> {
                let e = #[trigger] m.events(grid)[k];
                e.coord().0 < m.rows && e.coord().1 < m.cols && m.cell_event(
                    grid,
                    e.coord().0 as int,
                    e.coord().1 as int,
                ) == Some(e)
            },
        forall|k1: int, k2: int|
            0 <= k1 < k2 < m.events(grid).len() ==> coord_before(
                (#[trigger] m.events(grid)[k1]).coord(),
                (#[trigger] m.events(grid)[k2]).coord(),
            ),
        forall|r: int, c: int|
            0 <= r < m.rows && 0 <= c < m.cols && (#[trigger] m.cell_event(grid, r, c)) is Some
                ==> m.events(grid).contains(m.cell_event(grid, r, c)->Some_0),
{
    lemma_rows_events(m, grid, m.rows);
}

/// The events of the first `upto` rows are the events of their keys, each
/// once, by ascending row and column.
proof fn lemma_rows_events(m: DebounceModel, grid: Seq<Seq<bool>>, upto: nat)
    requires
        upto <= m.rows <= MAX_SIDE,
        m.cols <= MAX_SIDE,
    ensures
        forall|k: int|
            0 <= k < m.rows_events(grid, upto).len() ==> {
                let e = #[trigger] m.rows_events(grid, upto)[k];
                e.coord().0 < upto && e.coord().1 < m.cols && m.cell_event(
                    grid,
                    e.coord().0 as int,
                    e.coord().1 as int,
                ) == Some(e)
            },
        forall|k1: int, k2: int|
            0 <= k1 < k2 < m.rows_events(grid, upto).len() ==> coord_before(
                (#[trigger] m.rows_events(grid, upto)[k1]).coord(),
                (#[trigger] m.rows_events(grid, upto)[k2]).coord(),
            ),
        forall|r: int, c: int|
            0 <= r < upto && 0 <= c < m.cols && (#[trigger] m.cell_event(grid, r, c)) is Some
                ==> m.rows_events(grid, upto).contains(m.cell_event(grid, r, c)->Some_0),
    decreases upto,
{
    if upto > 0 {
        let above = m.rows_events(grid, (upto - 1) as nat);
        let row = m.row_events(grid, upto - 1, m.cols);
        let all = m.rows_events(grid, upto);
        lemma_rows_events(m, grid, (upto - 1) as nat);
        lemma_row_events(m, grid, upto - 1, m.cols);
        assert forall|r: int, c: int|
            0 <= r < upto && 0 <= c < m.cols && (#[trigger] m.cell_event(grid, r, c)) is Some implies all.contains(
            m.cell_event(grid, r, c)->Some_0,
        ) by {
            let e = m.cell_event(grid, r, c)->Some_0;
            if r < upto - 1 {
                let k = choose|k: int| 0 <= k < above.len() && above[k] == e;
                assert(all[k] == e);
            } else {
                let k = choose|k: int| 0 <= k < row.len() && row[k] == e;
                assert(all[above.len() + k] == e);
            }
        }
    }
}

/// A reading keeps the filter well formed.
pub proof fn lemma_next_wf(m: DebounceModel, grid: Seq<Seq<bool>>)
    requires
        m.wf(),
    ensures
        m.next(grid).wf(),
        m.next(grid).rows == m.rows,
        m.next(grid).cols == m.cols,
        m.next(grid).threshold == m.threshold,
{
}

/// Any number of readings keep the filter well formed.
pub proof fn lemma_after_wf(m: DebounceModel, grids: Seq<Seq<Seq<bool>>>)
    requires
        m.wf(),
    ensures
        m.after(grids).wf(),
        m.after(grids).rows == m.rows,
        m.after(grids).cols == m.cols,
        m.after(grids).threshold == m.threshold,
    decreases grids.len(),
{
    if grids.len() > 0 {
        lemma_after_wf(m, grids.drop_last());
        lemma_next_wf(m.after(grids.drop_last()), grids.last());
    }
}

/// The filter after `i + 1` readings is the filter after `i` readings with
/// reading number `i` taken in.
proof fn lemma_after_take(m: DebounceModel, grids: Seq<Seq<Seq<bool>>>, i: int)
    requires
        0 <= i < grids.len(),
    ensures
        m.after(grids.take(i + 1)) == m.after(grids.take(i)).next(grids[i]),
{
    assert(grids.take(i + 1).drop_last() =~= grids.take(i));
}

/// Stability: a key gives no event, and keeps its reported state, as long as
/// fewer than `threshold` readings in a row have differed from that state.
/// The counter of the key says how many had differed before `grids`, so the
/// readings of `grids`, however they vary, are too few to complete the row.
pub proof fn lemma_short_bounce_is_silent(
    m: DebounceModel,
    grids: Seq<Seq<Seq<bool>>>,
    r: int,
    c: int,
)
    requires
        m.wf(),
        grids_shaped(grids, m.rows, m.cols),
        0 <= r < m.rows,
        0 <= c < m.cols,
        m.counters[r][c] + grids.len() < m.threshold,
    ensures
        forall|i: int| 0 <= i < grids.len() ==> #[trigger] m.event_at(grids, i, r, c) is None,
        m.after(grids).reported[r][c] == m.reported[r][c],
        m.after(grids).counters[r][c] <= m.counters[r][c] + grids.len(),
    decreases grids.len(),
{
    if grids.len() > 0 {
        let shorter = grids.drop_last();
        let last = grids.len() - 1;
        lemma_short_bounce_is_silent(m, shorter, r, c);
        lemma_after_wf(m, shorter);
        assert forall|i: int| 0 <= i < grids.len() implies #[trigger] m.event_at(grids, i, r, c)
            is None by {
            if i < last {
                assert(shorter.take(i) =~= grids.take(i));
                assert(m.event_at(shorter, i, r, c) is None);
            }
        }
    }
}

/// Count and content of the readings that the counter of a key stands for:
/// after `k` readings, the counter of the key at `(r, c)` is at most `k` more
/// than at the start, and each of the latest readings that it counts differs
/// from the reported state.
proof fn lemma_counter_counts(m: DebounceModel, grids: Seq<Seq<Seq<bool>>>, k: int, r: int, c: int)
    requires
        m.wf(),
        grids_shaped(grids, m.rows, m.cols),
        0 <= r < m.rows,
        0 <= c < m.cols,
        0 <= k <= grids.len(),
        m.counters[r][c] == 0,
    ensures
        m.after(grids.take(k)).wf(),
        m.after(grids.take(k)).counters[r][c] <= k,
        forall|j: int|
            k - m.after(grids.take(k)).counters[r][c] <= j < k ==> (#[trigger] grids[j])[r][c]
                != m.after(grids.take(k)).reported[r][c],
    decreases k,
{
    lemma_after_wf(m, grids.take(k));
    if k > 0 {
        lemma_counter_counts(m, grids, k - 1, r, c);
        lemma_after_take(m, grids, k - 1);
    }
}

/// Persistence: where reading number `i` gives an event for a key that was
/// at rest at the start, it is the last of `threshold` consecutive readings
/// of the key that all show its new state.
pub proof fn lemma_event_needs_persistence(
    m: DebounceModel,
    grids: Seq<Seq<Seq<bool>>>,
    i: int,
    r: int,
    c: int,
)
    requires
        m.wf(),
        grids_shaped(grids, m.rows, m.cols),
        0 <= r < m.rows,
        0 <= c < m.cols,
        0 <= i < grids.len(),
        m.counters[r][c] == 0,
        m.event_at(grids, i, r, c) is Some,
    ensures
        i + 1 >= m.threshold,
        forall|j: int|
            0 <= i + 1 - m.threshold <= j <= i ==> (#[trigger] grids[j])[r][c] == grids[i][r][c],
{
    lemma_counter_counts(m, grids, i, r, c);
    lemma_after_wf(m, grids.take(i));
}

/// Reported state of the key at `(r, c)` before reading number `i`.
spec fn reported_before(m: DebounceModel, grids: Seq<Seq<Seq<bool>>>, i: int, r: int, c: int) -> bool {
    m.after(grids.take(i)).reported[r][c]
}

/// The latest release of a key before reading number `upto`, the key having
/// been pressed by reading number `i` and being reported as released before
/// reading number `upto`.
proof fn lemma_find_release(
    m: DebounceModel,
    grids: Seq<Seq<Seq<bool>>>,
    i: int,
    upto: int,
    r: int,
    c: int,
) -> (k: int)
    requires
        m.wf(),
        grids_shaped(grids, m.rows, m.cols),
        0 <= r < m.rows,
        0 <= c < m.cols,
        0 <= i < upto <= grids.len(),
        m.event_at(grids, i, r, c) == Some(InputEvent::Press(r as u8, c as u8)),
        !reported_before(m, grids, upto, r, c),
    ensures
        i < k < upto,
        m.event_at(grids, k, r, c) == Some(InputEvent::Release(r as u8, c as u8)),
    decreases upto,
{
    let last = upto - 1;
    lemma_after_take(m, grids, last);
    lemma_after_wf(m, grids.take(last));
    // `last` is not `i`: a press by reading `last` would leave the key
    // reported as pressed.
    if m.event_at(grids, last, r, c) is Some {
        last
    } else {
        lemma_find_release(m, grids, i, last, r, c)
    }
}

/// No key is pressed twice in a row: between two presses of a key, whatever
/// the readings, there is a release of it.
pub proof fn lemma_press_needs_release(
    m: DebounceModel,
    grids: Seq<Seq<Seq<bool>>>,
    i: int,
    j: int,
    r: int,
    c: int,
)
    requires
        m.wf(),
        grids_shaped(grids, m.rows, m.cols),
        0 <= r < m.rows,
        0 <= c < m.cols,
        0 <= i < j < grids.len(),
        m.event_at(grids, i, r, c) == Some(InputEvent::Press(r as u8, c as u8)),
        m.event_at(grids, j, r, c) == Some(InputEvent::Press(r as u8, c as u8)),
    ensures
        exists|k: int|
            i < k < j && #[trigger] m.event_at(grids, k, r, c) == Some(
                InputEvent::Release(r as u8, c as u8),
            ),
{
    lemma_after_wf(m, grids.take(j));
    let k = lemma_find_release(m, grids, i, j, r, c);
}

} // verus!
