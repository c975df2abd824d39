//! The reduced process-event record used by the named-pipe probe's wire
//! format, which carries only a pid, a command line and a timestamp.

use vstd::prelude::*;

verus! {

/// A process start observed on the wire: pid, command line, epoch seconds.
pub struct ProcessEvent {
    pub pid: u32,
    pub command: String,
    pub timestamp: u64,
}

impl ProcessEvent {
    /// A fresh record for `pid` and `command`, stamped with the current time.
    pub fn new(pid: u32, command: String) -> (r: Self)
        ensures
            r.pid == pid,
            r.command@ == command@,
    {
        let timestamp = crate::platform::unix_time_now();
        ProcessEvent { pid, command, timestamp }
    }
}

} // verus!
