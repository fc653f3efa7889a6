use vstd::prelude::*;
use crate::raftlog::RaftLogEntry;

verus! {

/// The messages that servers and clients exchange.
#[derive(Debug, Clone, PartialEq, Eq)]
pub enum RPC {
    AppendEntries {
        term: i64,
        prev_log_idx: usize,
        prev_log_term: i64,
        entries: Vec<RaftLogEntry>,
        leader_commit_idx: usize,
    },
    RequestVote {
        term: i64,
        last_log_idx: usize,
        last_log_term: i64,
    },
    AppendEntriesResponse {
        term: i64,
        idx: usize,
        result: bool,
    },
    RequestVoteResponse {
        term: i64,
        vote: bool,
    },
    ClientRequest {
        opid: i64,
    },
    ClientResponse {
        opid: i64,
        success: bool,
    },
    RequestLog {
        start_idx: usize,
    },
    RequestLogResponse {
        end_idx: usize,
        log_len: usize,
        applied_idx: usize,
        entries: Vec<RaftLogEntry>,
    },
}

/// The mathematical content of a message: the same variants, with the
/// entries as a sequence.
pub enum RpcView {
    AppendEntries {
        term: i64,
        prev_log_idx: usize,
        prev_log_term: i64,
        entries: Seq<RaftLogEntry>,
        leader_commit_idx: usize,
    },
    RequestVote {
        term: i64,
        last_log_idx: usize,
        last_log_term: i64,
    },
    AppendEntriesResponse {
        term: i64,
        idx: usize,
        result: bool,
    },
    RequestVoteResponse {
        term: i64,
        vote: bool,
    },
    ClientRequest {
        opid: i64,
    },
    ClientResponse {
        opid: i64,
        success: bool,
    },
    RequestLog {
        start_idx: usize,
    },
    RequestLogResponse {
        end_idx: usize,
        log_len: usize,
        applied_idx: usize,
        entries: Seq<RaftLogEntry>,
    },
}

impl View for RPC {
    type V = RpcView;

    open spec fn view(&self) -> RpcView {
        match self {
            RPC::AppendEntries { term, prev_log_idx, prev_log_term, entries, leader_commit_idx } =>
                RpcView::AppendEntries {
                    term: *term,
                    prev_log_idx: *prev_log_idx,
                    prev_log_term: *prev_log_term,
                    entries: entries@,
                    leader_commit_idx: *leader_commit_idx,
                },
            RPC::RequestVote { term, last_log_idx, last_log_term } =>
                RpcView::RequestVote {
                    term: *term,
                    last_log_idx: *last_log_idx,
                    last_log_term: *last_log_term,
                },
            RPC::AppendEntriesResponse { term, idx, result } =>
                RpcView::AppendEntriesResponse { term: *term, idx: *idx, result: *result },
            RPC::RequestVoteResponse { term, vote } =>
                RpcView::RequestVoteResponse { term: *term, vote: *vote },
            RPC::ClientRequest { opid } => RpcView::ClientRequest { opid: *opid },
            RPC::ClientResponse { opid, success } =>
                RpcView::ClientResponse { opid: *opid, success: *success },
            RPC::RequestLog { start_idx } => RpcView::RequestLog { start_idx: *start_idx },
            RPC::RequestLogResponse { end_idx, log_len, applied_idx, entries } =>
                RpcView::RequestLogResponse {
                    end_idx: *end_idx,
                    log_len: *log_len,
                    applied_idx: *applied_idx,
                    entries: entries@,
                },
        }
    }
}

impl RPC {
    /// A copy of the message with the same content.
    pub fn duplicate(&self) -> (r: RPC)
        ensures
            r@ == self@,
    {
        match self {
            RPC::AppendEntries { term, prev_log_idx, prev_log_term, entries, leader_commit_idx } =>
                RPC::AppendEntries {
                    term: *term,
                    prev_log_idx: *prev_log_idx,
                    prev_log_term: *prev_log_term,
                    entries: copy_entries(entries),
                    leader_commit_idx: *leader_commit_idx,
                },
            RPC::RequestVote { term, last_log_idx, last_log_term } =>
                RPC::RequestVote {
                    term: *term,
                    last_log_idx: *last_log_idx,
                    last_log_term: *last_log_term,
                },
            RPC::AppendEntriesResponse { term, idx, result } =>
                RPC::AppendEntriesResponse { term: *term, idx: *idx, result: *result },
            RPC::RequestVoteResponse { term, vote } =>
                RPC::RequestVoteResponse { term: *term, vote: *vote },
            RPC::ClientRequest { opid } => RPC::ClientRequest { opid: *opid },
            RPC::ClientResponse { opid, success } =>
                RPC::ClientResponse { opid: *opid, success: *success },
            RPC::RequestLog { start_idx } => RPC::RequestLog { start_idx: *start_idx },
            RPC::RequestLogResponse { end_idx, log_len, applied_idx, entries } =>
                RPC::RequestLogResponse {
                    end_idx: *end_idx,
                    log_len: *log_len,
                    applied_idx: *applied_idx,
                    entries: copy_entries(entries),
                },
        }
    }
}

/// An element-by-element copy of a list of entries.
pub fn copy_entries(entries: &Vec<RaftLogEntry>) -> (r: Vec<RaftLogEntry>)
    ensures
        r@ == entries@,
{
    let mut r: Vec<RaftLogEntry> = Vec::new();
    let mut i: usize = 0;
    while i < entries.len()
        invariant
            i <= entries@.len(),
            r@ == entries@.take(i as int),
        decreases entries@.len() - i,
    {
        r.push(entries[i]);
        i = i + 1;
        assert(entries@.take(i as int) == entries@.take((i - 1) as int).push(entries@[i - 1]));
    }
    assert(entries@.take(entries@.len() as int) == entries@);
    r
}

pub fn make_append_entries(
    term: i64,
    prev_log_idx: usize,
    prev_log_term: i64,
    entries: Vec<RaftLogEntry>,
    leader_commit_idx: usize,
) -> (r: RPC)
    ensures
        r@ == (RpcView::AppendEntries {
            term,
            prev_log_idx,
            prev_log_term,
            entries: entries@,
            leader_commit_idx,
        }),
{
    RPC::AppendEntries {
        term: term,
        prev_log_idx: prev_log_idx,
        prev_log_term: prev_log_term,
        entries: entries,
        leader_commit_idx: leader_commit_idx,
    }
}

pub fn make_request_vote(term: i64, last_log_idx: usize, last_log_term: i64) -> (r: RPC)
    ensures
        r@ == (RpcView::RequestVote { term, last_log_idx, last_log_term }),
{
    RPC::RequestVote { term: term, last_log_idx: last_log_idx, last_log_term: last_log_term }
}

pub fn make_append_entries_response(term: i64, idx: usize, result: bool) -> (r: RPC)
    ensures
        r@ == (RpcView::AppendEntriesResponse { term, idx, result }),
{
    RPC::AppendEntriesResponse { term: term, idx: idx, result: result }
}

pub fn make_request_vote_response(term: i64, vote: bool) -> (r: RPC)
    ensures
        r@ == (RpcView::RequestVoteResponse { term, vote }),
{
    RPC::RequestVoteResponse { term: term, vote: vote }
}

pub fn make_client_request(opid: i64) -> (r: RPC)
    ensures
        r@ == (RpcView::ClientRequest { opid }),
{
    RPC::ClientRequest { opid: opid }
}

pub fn make_client_response(opid: i64, success: bool) -> (r: RPC)
    ensures
        r@ == (RpcView::ClientResponse { opid, success }),
{
    RPC::ClientResponse { opid: opid, success: success }
}

pub fn make_request_log(start_idx: usize) -> (r: RPC)
    ensures
        r@ == (RpcView::RequestLog { start_idx }),
{
    RPC::RequestLog { start_idx: start_idx }
}

pub fn make_request_log_response(
    end_idx: usize,
    log_len: usize,
    applied_idx: usize,
    entries: Vec<RaftLogEntry>,
) -> (r: RPC)
    ensures
        r@ == (RpcView::RequestLogResponse { end_idx, log_len, applied_idx, entries: entries@ }),
{
    RPC::RequestLogResponse {
        end_idx: end_idx,
        log_len: log_len,
        applied_idx: applied_idx,
        entries: entries,
    }
}

} // verus!
