use vstd::prelude::*;
use crate::opts::Opts;
use crate::raftlog::RaftLog;

verus! {

/// Why the logs of a run do not pass the check.
#[derive(Clone, Copy, Debug, PartialEq, Eq, Structural)]
pub enum CheckError {
    /// The first server's log holds fewer than `needed` entries.
    TooShort { len: usize, needed: usize },
    /// The log of `server` is not as long as the first server's.
    LengthMismatch { server: usize },
    /// The log of `server` differs from the first server's at `idx`.
    EntryMismatch { server: usize, idx: usize },
}

/// How many entries the first server's log must hold after a run: one per
/// request of every client, plus the sentinel.
pub open spec fn needed_entries(opts: Opts) -> usize {
    (opts.n_request * opts.n_clients + 1) as usize
}

/// Compares the logs of a run, the first server's first. They pass when the
/// first one holds at least one entry per request of every client (plus the
/// sentinel) and every other log is equal to it. Otherwise the error names
/// the first failure, taking the servers in order.
pub fn check(opts: &Opts, logs: &Vec<RaftLog>) -> (r: Result<(), CheckError>)
    requires
        logs@.len() >= 1,
        i64::MIN <= opts.n_request * opts.n_clients,
        opts.n_request * opts.n_clients + 1 <= i64::MAX,
    ensures
        r.is_ok() <==> {
            &&& logs@[0]@.len() >= needed_entries(*opts)
            &&& forall|s: int| 0 < s < logs@.len() ==> (#[trigger] logs@[s])@ == logs@[0]@
        },
        match r {
            Ok(()) => true,
            Err(CheckError::TooShort { len, needed }) => {
                &&& len == logs@[0]@.len()
                &&& needed == needed_entries(*opts)
                &&& len < needed
            },
            Err(CheckError::LengthMismatch { server }) => {
                &&& logs@[0]@.len() >= needed_entries(*opts)
                &&& first_mismatch(logs@, server as int)
                &&& logs@[server as int]@.len() != logs@[0]@.len()
            },
            Err(CheckError::EntryMismatch { server, idx }) => {
                &&& logs@[0]@.len() >= needed_entries(*opts)
                &&& first_mismatch(logs@, server as int)
                &&& logs@[server as int]@.len() == logs@[0]@.len()
                &&& idx < logs@[0]@.len()
                &&& logs@[server as int]@[idx as int] != logs@[0]@[idx as int]
                &&& forall|j: int| 0 <= j < idx ==> logs@[server as int]@[j] == logs@[0]@[j]
            },
        },
{
    let needed: usize = (opts.n_request * (opts.n_clients as i64) + 1) as usize;
    let log0 = logs[0].get_vec();
    if log0.len() < needed {
        return Err(CheckError::TooShort { len: log0.len(), needed: needed });
    }
    let mut s: usize = 1;
    while s < logs.len()
        invariant
            1 <= s <= logs@.len(),
            log0@ == logs@[0]@,
            log0@.len() >= needed_entries(*opts),
            forall|t: int| 0 < t < s ==> (#[trigger] logs@[t])@ == logs@[0]@,
        decreases logs@.len() - s,
    {
        let log = logs[s].get_vec();
        if log.len() != log0.len() {
            return Err(CheckError::LengthMismatch { server: s });
        }
        let mut j: usize = 0;
        while j < log.len()
            invariant
                1 <= s < logs@.len(),
                j <= log@.len(),
                log@ == logs@[s as int]@,
                log0@ == logs@[0]@,
                log0@.len() >= needed_entries(*opts),
                forall|t: int| 0 < t < s ==> (#[trigger] logs@[t])@ == logs@[0]@,
                log@.len() == log0@.len(),
                forall|k: int| 0 <= k < j ==> log@[k] == log0@[k],
            decreases log@.len() - j,
        {
            if log[j] != log0[j] {
                return Err(CheckError::EntryMismatch { server: s, idx: j });
            }
            j = j + 1;
        }
        assert(log@ =~= log0@);
        s = s + 1;
    }
    Ok(())
}

/// `server` is the first server after the first one whose log differs from
/// the first server's.
pub open spec fn first_mismatch(logs: Seq<RaftLog>, server: int) -> bool {
    &&& 0 < server < logs.len()
    &&& logs[server]@ != logs[0]@
    &&& forall|t: int| 0 < t < server ==> (#[trigger] logs[t])@ == logs[0]@
}

} // verus!
