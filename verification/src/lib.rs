//! Rates of counters, for a metrics dashboard.
//!
//! A counter is known by a run of absolute readings. A [`RateTracker`] keeps
//! the readings of the recent past in a sliding window, bounded in age and in
//! number, and reads the counter's rate off the oldest and the newest of them;
//! a [`RateRegistry`] keeps one tracker for each key. An [`InitGuard`] lets the
//! setup of the recorders run once, whoever asks for it and however often.
//!
//! The library works on integers. A reading is handed to it as an
//! order-preserving code, which it compares and never computes with, and a
//! time as a number of nanoseconds. The module [`code`] gives the code of a
//! floating-point reading from its bits. A rate comes back as the two readings and
//! the time between them, for the caller to divide in the numbers that it uses.

pub mod code;
pub mod exposition;
pub mod guard;
pub mod laws;
pub mod naming;
pub mod registry;
pub mod sample;
pub mod setup;
pub mod smoothing;
pub mod tracker;

pub use guard::{Admission, GuardState, InitGuard};
pub use registry::{update_rate_tracker, RateRegistry};
pub use sample::{Rate, Sample};
pub use setup::{ConfigError, DashboardInput, Matcher};
pub use tracker::RateTracker;
