//! Log entries and their categories.
use vstd::prelude::*;

verus! {

/// The category of a log line.
#[derive(Clone, Copy, Debug, PartialEq, Eq, Structural, Hash)]
pub enum TypeOfLog {
    Error,
    Info,
    Debug,
    Uncategorized,
}

/// An instant as whole seconds since the Unix epoch (UTC) and the
/// nanoseconds past that second.
#[derive(Clone, Copy, Debug, PartialEq, Eq, Structural, Hash)]
pub struct Timestamp {
    pub secs: i64,
    pub nanos: u32,
}

impl Timestamp {
    /// The instant used when a line's timestamp cannot be read: the Unix epoch.
    pub fn epoch() -> (r: Timestamp)
        ensures
            r == (Timestamp { secs: 0, nanos: 0 }),
    {
        Timestamp { secs: 0, nanos: 0 }
    }
}

/// One classified log line.
#[derive(Debug)]
pub struct Log {
    pub message: String,
    pub log_type: TypeOfLog,
    pub timestamp: Timestamp,
}

/// The mathematical value of a `Log`: its identity triple.
pub struct LogView {
    pub message: Seq<char>,
    pub log_type: TypeOfLog,
    pub timestamp: Timestamp,
}

impl View for Log {
    type V = LogView;

    open spec fn view(&self) -> LogView {
        LogView { message: self.message@, log_type: self.log_type, timestamp: self.timestamp }
    }
}

impl Log {
    pub fn new(message: String, log_type: TypeOfLog, timestamp: Timestamp) -> (r: Log)
        ensures
            r@ == (LogView { message: message@, log_type, timestamp }),
    {
        Log { message, log_type, timestamp }
    }
}

impl Clone for Log {
    fn clone(&self) -> (r: Log)
        ensures
            r@ == self@,
    {
        Log { message: self.message.clone(), log_type: self.log_type, timestamp: self.timestamp }
    }
}

impl PartialEq for Log {
    /// Two entries are the same exactly when message, category and timestamp
    /// all match.
    fn eq(&self, other: &Log) -> (r: bool) {
        self.message == other.message && self.log_type == other.log_type
            && self.timestamp == other.timestamp
    }
}

impl vstd::std_specs::cmp::PartialEqSpecImpl for Log {
    open spec fn obeys_eq_spec() -> bool {
        true
    }

    open spec fn eq_spec(&self, other: &Log) -> bool {
        self@ == other@
    }
}

} // verus!
