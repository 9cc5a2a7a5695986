//! Driver for four-digit seven-segment displays on the two-wire clock/data
//! bus of the TM1637 family.
//!
//! The driver does not touch hardware itself: every command is turned into
//! the exact sequence of pin changes and delay quanta that has to be played
//! on the clock and data lines, and each such sequence is proved to follow
//! the framing, bit order and timing of the protocol.

pub mod wave;
pub mod display;

pub use wave::Signal;
pub use display::{pin_fault, Error, LedDisplay, QUANTUM_MICROS};
