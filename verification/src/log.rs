use vstd::prelude::*;
use crate::raftlog::{RaftLog, RaftLogEntry};

verus! {

/// An entry of a server's log.
pub type LogEntry = RaftLogEntry;

/// A server's log.
pub type Log = RaftLog;

} // verus!
