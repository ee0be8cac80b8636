//! Record types for process status and log messages. Persisting log records
//! is an external concern; this module pins down the records themselves.

use vstd::prelude::*;
use vstd::string::StringExecFns;

use crate::clock::{now_millis, now_string};
use crate::ids::fresh_uuid;
use crate::steward::ProcessState;

verus! {

/// Mathematical content of a process status record.
pub ghost struct ProcessStatusView {
    pub uuid: u128,
    pub last_update_timestamp: i64,
    pub process_id: Seq<char>,
    pub state: Seq<char>,
}

/// One record per named process: its lifecycle state and when it last
/// changed.
pub struct ProcessStatus {
    pub uuid: u128,
    pub last_update_timestamp: i64,
    pub process_id: String,
    pub state: String,
}

impl View for ProcessStatus {
    type V = ProcessStatusView;

    open spec fn view(&self) -> ProcessStatusView {
        ProcessStatusView {
            uuid: self.uuid,
            last_update_timestamp: self.last_update_timestamp,
            process_id: self.process_id@,
            state: self.state@,
        }
    }
}

impl DeepView for ProcessStatus {
    type V = ProcessStatusView;

    open spec fn deep_view(&self) -> ProcessStatusView {
        self.view()
    }
}

impl Clone for ProcessStatus {
    fn clone(&self) -> (r: Self)
        ensures
            r@ == self@,
    {
        ProcessStatus {
            uuid: self.uuid,
            last_update_timestamp: self.last_update_timestamp,
            process_id: self.process_id.clone(),
            state: self.state.clone(),
        }
    }
}

impl ProcessStatus {
    /// A fresh record for `process_id` in `state`; its identity and
    /// timestamp are generated, so only the other two fields are pinned.
    pub fn new(process_id: String, state: ProcessState) -> (r: Self)
        ensures
            r@.process_id == process_id@,
            r@.state == state.spec_str(),
    {
        ProcessStatus {
            uuid: fresh_uuid(),
            last_update_timestamp: now_millis(),
            process_id,
            state: state.to_string(),
        }
    }
}

/// Severity of a log message.
#[derive(Clone, Copy, Debug, PartialEq, Eq, Hash, Structural)]
pub enum LogSeverity {
    Routine,
    Priority,
    Critical,
}

impl LogSeverity {
    pub open spec fn spec_str(self) -> Seq<char> {
        match self {
            LogSeverity::Routine => "Routine"@,
            LogSeverity::Priority => "Priority"@,
            LogSeverity::Critical => "Critical"@,
        }
    }

    pub fn to_string(&self) -> (r: String)
        ensures
            r@ == self.spec_str(),
    {
        match self {
            LogSeverity::Routine => String::from_str("Routine"),
            LogSeverity::Priority => String::from_str("Priority"),
            LogSeverity::Critical => String::from_str("Critical"),
        }
    }
}

impl Default for LogSeverity {
    fn default() -> (r: Self)
        ensures
            r == LogSeverity::Routine,
    {
        LogSeverity::Routine
    }
}

/// One log message: fire-and-forget payload handed to the log sink.
#[derive(Clone, Debug)]
pub struct Message {
    pub severity: LogSeverity,
    pub origin: String,
    pub content: String,
}

impl Message {
    pub fn new(severity: LogSeverity, origin: String, content: String) -> (r: Self)
        ensures
            r.severity == severity,
            r.origin@ == origin@,
            r.content@ == content@,
    {
        Message { severity, origin, content }
    }
}

/// The flattened shape in which log records are persisted.
#[derive(Clone, Debug)]
pub struct LogSchema {
    pub timestamp: String,
    pub severity: String,
    pub origin: String,
    pub content: String,
}

impl LogSchema {
    /// A persistable record of one message; the timestamp is read from the
    /// clock, so only the payload fields are pinned.
    pub fn new(severity: String, origin: String, content: String) -> (r: Self)
        ensures
            r.severity@ == severity@,
            r.origin@ == origin@,
            r.content@ == content@,
    {
        LogSchema { timestamp: now_string(), severity, origin, content }
    }
}

} // verus!
