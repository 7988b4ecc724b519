//! Sources driven by the clock. Instants and durations are in milliseconds.


pub mod interval;
pub mod timer;

pub use crate::time::interval::Interval;
pub use crate::time::timer::Timer;
