//! Decisions of the event consumer on its way to the host.
//!
//! The consumer owns the key layout and the USB report. What it does with
//! them is its own business; when a report goes out is decided here.

use vstd::prelude::*;
use crate::event::InputEvent;

verus! {

/// What the consumer does with one item of its queue.
#[derive(Clone, Copy, Debug, PartialEq, Eq, Structural)]
pub enum Handling {
    /// Take the event into the layout. No report follows.
    Feed(InputEvent),
    /// Run one tick of the layout and offer its report to the host.
    Tick,
}

/// An event in the queue is fed to the layout; the empty item that closes a
/// scheduler tick makes the layout tick.
pub fn handling(item: Option<InputEvent>) -> (h: Handling)
    ensures
        h == match item {
            Some(event) => Handling::Feed(event),
            None => Handling::Tick,
        },
{
    match item {
        Some(event) => Handling::Feed(event),
        None => Handling::Tick,
    }
}

/// Whether a report is written to the host: only one that differs from the
/// report before it, and only while the device is configured.
pub fn report_due(changed: bool, configured: bool) -> (due: bool)
    ensures
        due == (changed && configured),
{
    changed && configured
}

/// Whether a write to the host is repeated: as long as the endpoint took
/// no byte. A failed write is not repeated.
pub fn write_again(written: Result<usize, ()>) -> (again: bool)
    ensures
        again == (written == Ok::<usize, ()>(0)),
{
    match written {
        Ok(n) => n == 0,
        Err(_) => false,
    }
}

} // verus!
