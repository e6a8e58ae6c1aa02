//! Input acquisition for a keyboard controller: a demultiplexed key matrix
//! scanner, a per-key debounce filter, a quadrature encoder decoder and the
//! scheduler that sequences them inside one timer period.
//!
//! Nothing here touches hardware. Every component is a state machine over
//! plain values: the caller performs the pin, timer and watchdog operations
//! that a component asks for and hands back what it observed.

pub mod consumer;
pub mod debounce;
pub mod demux_matrix;
pub mod encoder;
pub mod event;
pub mod layout;
pub mod scheduler;
