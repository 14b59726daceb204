//! A streaming log monitor: line classification, a deduplicating ingestion
//! store, rate sampling with burst detection, an adaptive reporting window and
//! statistics snapshots.
use vstd::prelude::*;

pub mod entry;
pub mod laws;
pub mod parser;
pub mod report;
pub mod schedule;
pub mod store;

pub use entry::{Log, LogView, Timestamp, TypeOfLog};
pub use parser::{parse_log, parse_log_with_instant, ParseError};
pub use report::{share, shares, Statistics};
pub use schedule::{next_window, AdaptiveScheduler, Window};
pub use store::{CategoryCounts, LogManager, MessageWeight};

verus! {

/// Command-line options of the monitor.
pub struct Args {
    /// Reserved for more verbose output; it does not change what is computed.
    pub debug: Option<bool>,
}

} // verus!
