//! Reachability sweeps over IPv4 targets: expanding target notation into
//! addresses, judging the output of the probing utility, repeating attempts,
//! and dispatching probes under a ceiling on concurrency.
//!
//! Running the utility, waiting and printing are left to the caller. The
//! library decides: each module states what it computes over sequences of
//! characters and numbers, and its functions are proved against that.
pub mod classify;
pub mod config;
pub mod format;
pub mod ipv4;
pub mod latency;
pub mod ports;
pub mod probe;
pub mod report;
pub mod scan;
pub mod schedule;
pub mod targets;
pub mod text;
