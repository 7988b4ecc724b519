//! The values that the inspector keeps.

pub mod errors;
pub mod listener;
pub mod schedule;
pub mod topology;
pub mod uid;
