//! Core of a benchmarking harness for black-box continuous-optimization
//! algorithms: a catalogue of test problems (a suite), an evaluation protocol
//! with monotone counters and best-value bookkeeping, and an observer whose
//! trigger engine decides, per evaluation, whether the event is logged.

pub mod dec;
pub mod numfmt;
pub mod triggers;
pub mod options;
pub mod observer;
pub mod problem;
pub mod suite;
