//! When frames are captured, and which of them are kept.

pub mod capture;
pub mod scheduled;
