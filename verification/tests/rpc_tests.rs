use raft::raftlog::RaftLogEntry;
use raft::rpc::{
    copy_entries, make_append_entries, make_append_entries_response, make_client_request,
    make_client_response, make_request_log, make_request_log_response, make_request_vote,
    make_request_vote_response, RPC,
};

#[test]
fn constructors_fill_every_field() {
    let es = vec![RaftLogEntry::new(1, 2)];
    assert_eq!(
        make_append_entries(3, 4, 2, es.clone(), 1),
        RPC::AppendEntries { term: 3, prev_log_idx: 4, prev_log_term: 2, entries: es.clone(), leader_commit_idx: 1 }
    );
    assert_eq!(make_request_vote(5, 6, 7), RPC::RequestVote { term: 5, last_log_idx: 6, last_log_term: 7 });
    assert_eq!(make_append_entries_response(1, 2, true), RPC::AppendEntriesResponse { term: 1, idx: 2, result: true });
    assert_eq!(make_request_vote_response(8, false), RPC::RequestVoteResponse { term: 8, vote: false });
    assert_eq!(make_client_request(-3), RPC::ClientRequest { opid: -3 });
    assert_eq!(make_client_response(4, true), RPC::ClientResponse { opid: 4, success: true });
    assert_eq!(make_request_log(9), RPC::RequestLog { start_idx: 9 });
    assert_eq!(
        make_request_log_response(3, 10, 2, es.clone()),
        RPC::RequestLogResponse { end_idx: 3, log_len: 10, applied_idx: 2, entries: es }
    );
}

#[test]
fn duplicate_copies_the_content() {
    let es = vec![RaftLogEntry::new(1, 2), RaftLogEntry::new(3, 4)];
    let m = make_append_entries(3, 4, 2, es.clone(), 1);
    assert_eq!(m.duplicate(), m);
    let r = make_request_log_response(3, 10, 2, es.clone());
    assert_eq!(r.duplicate(), r);
    assert_eq!(copy_entries(&es), es);
}
