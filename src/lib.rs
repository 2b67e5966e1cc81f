//! Configuration drift detection: content fingerprints of a directory's files,
//! a baseline record of them, a comparator that classifies every path, and the
//! rate-limiting policy of the continuous monitor.

pub mod fingerprint;
pub mod compare;
pub mod baseline;
pub mod monitor;
pub mod operations;
