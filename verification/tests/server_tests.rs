use raft::raftlog::{RaftLog, RaftLogEntry};
use raft::rpc::RPC;
use raft::protocol::{ServerState, CRASH_LENGTH, PING_RATE};
use raft::server::{crash_roll, Server};

fn ids(n: usize) -> Vec<String> {
    (0..n).map(|i| format!("s{}", i)).collect()
}

fn e(opid: i64, term: i64) -> RaftLogEntry {
    RaftLogEntry::new(opid, term)
}

fn follower(name: &str, n: usize) -> Server {
    Server::with_timeout(String::from(name), RaftLog::new(format!("{}.log", name)), ids(n), 500)
}

/// A leader of term 1 among `n` servers, elected by the votes of s1, s2, ...
fn leader(n: usize) -> Server {
    let mut s = follower("s0", n);
    s.become_candidate();
    let mut i = 1;
    while s.state() != ServerState::Leader {
        s.handle_recv_request_vote_response(format!("s{}", i), 1, true);
        i += 1;
    }
    s
}

#[test]
fn new_server_draws_its_timeout_in_range() {
    let mut seen = vec![];
    for _ in 0..40 {
        let s = Server::new(String::from("s0"), RaftLog::new(String::from("x.log")), ids(5));
        assert!(s.elect_timeout() >= 500 && s.elect_timeout() < 1000);
        assert_eq!(s.state(), ServerState::Follower);
        seen.push(s.elect_timeout());
    }
    // forty draws from five hundred values are not all the lower bound
    assert!(seen.iter().any(|&t| t != 500));
}

#[test]
fn with_timeout_starts_as_follower() {
    let s = follower("s0", 5);
    assert_eq!(s.state(), ServerState::Follower);
    assert_eq!(s.curr_term(), 0);
    assert_eq!(s.vote(), "");
    assert_eq!(s.votes_needed(), 3);
    assert_eq!(s.elect_timeout(), 500);
    assert_eq!(s.log().len(), 1);
    assert_eq!(follower("s0", 4).votes_needed(), 3);
    assert_eq!(follower("s0", 3).votes_needed(), 2);
}

#[test]
fn become_candidate_votes_for_itself() {
    let mut s = follower("s0", 5);
    s.become_candidate();
    assert_eq!(s.state(), ServerState::Candidate);
    assert_eq!(s.curr_term(), 1);
    assert_eq!(s.vote(), "s0");
    assert_eq!(s.votes_received(), 1);
    assert_eq!(s.elect_timer(), 0);
}

#[test]
fn become_follower_keeps_the_vote_of_the_term() {
    let mut s = follower("s0", 5);
    s.become_candidate();
    s.become_follower();
    assert_eq!(s.state(), ServerState::Follower);
    assert_eq!(s.vote(), "s0");
    assert_eq!(s.curr_term(), 1);
}

#[test]
fn candidate_wins_with_enough_distinct_votes() {
    let mut s = follower("s0", 5);
    s.become_candidate();
    s.handle_recv_request_vote_response(String::from("s1"), 1, true);
    s.handle_recv_request_vote_response(String::from("s1"), 1, true);
    s.handle_recv_request_vote_response(String::from("s2"), 1, false);
    assert_eq!(s.votes_received(), 2);
    assert_eq!(s.state(), ServerState::Candidate);
    s.handle_recv_request_vote_response(String::from("s2"), 1, true);
    s.handle_recv_request_vote_response(String::from("s3"), 1, true);
    assert_eq!(s.state(), ServerState::Leader);
    assert_eq!(s.log().get_vec(), vec![e(0, 0), e(0, 1)]);
    assert_eq!(s.next_idx_of(&String::from("s1")), Some(2));
    assert_eq!(s.match_idx_of(&String::from("s4")), Some(0));
    assert_eq!(s.next_idx_of(&String::from("s0")), None);
    assert_eq!(s.elect_timer(), -1);
}

#[test]
fn newer_term_in_vote_response_makes_a_follower() {
    let mut s = follower("s0", 5);
    s.become_candidate();
    s.handle_recv_request_vote_response(String::from("s1"), 7, false);
    assert_eq!(s.state(), ServerState::Follower);
    assert_eq!(s.curr_term(), 7);
    assert_eq!(s.vote(), "");
}

#[test]
fn vote_to_non_candidate_is_ignored() {
    let mut s = follower("s0", 5);
    s.handle_recv_request_vote_response(String::from("s1"), 0, true);
    assert_eq!(s.state(), ServerState::Follower);
    assert_eq!(s.votes_received(), 0);
}

#[test]
fn follower_appends_new_entries() {
    let mut s = follower("s1", 5);
    let out = s.handle_recv_append_entries(String::from("s0"), 1, 0, 0, vec![e(0, 1), e(7, 1)], 1);
    assert_eq!(s.log().get_vec(), vec![e(0, 0), e(0, 1), e(7, 1)]);
    assert_eq!(s.commit_idx(), 1);
    assert_eq!(out, vec![(String::from("s0"), RPC::AppendEntriesResponse { term: 0, idx: 2, result: true })]);
}

#[test]
fn follower_cuts_the_log_at_a_conflict() {
    let stored = vec![e(1, 1), e(2, 1), e(3, 1)];
    let mut s = Server::with_timeout(String::from("s1"), RaftLog::from_file(String::from("y.log"), stored), ids(3), 500);
    let out = s.handle_recv_append_entries(String::from("s0"), 2, 1, 1, vec![e(2, 1), e(9, 2)], 10);
    assert_eq!(s.log().get_vec(), vec![e(0, 0), e(1, 1), e(2, 1), e(9, 2)]);
    assert_eq!(s.commit_idx(), 3);
    assert_eq!(out[0].1, RPC::AppendEntriesResponse { term: 0, idx: 3, result: true });
}

#[test]
fn follower_refuses_stale_or_unmatched_entries() {
    let mut s = follower("s1", 5);
    s.become_candidate();
    s.become_candidate();
    // stale term
    let out = s.handle_recv_append_entries(String::from("s0"), 1, 0, 0, vec![e(5, 1)], 0);
    assert_eq!(out[0].1, RPC::AppendEntriesResponse { term: 2, idx: 0, result: false });
    // no entry at prev_log_idx
    let out = s.handle_recv_append_entries(String::from("s0"), 2, 3, 1, vec![e(5, 2)], 0);
    assert_eq!(out[0].1, RPC::AppendEntriesResponse { term: 2, idx: 0, result: false });
    // term mismatch at prev_log_idx
    let out = s.handle_recv_append_entries(String::from("s0"), 2, 0, 1, vec![e(5, 2)], 0);
    assert_eq!(out[0].1, RPC::AppendEntriesResponse { term: 2, idx: 0, result: false });
    assert_eq!(s.log().len(), 1);
    assert_eq!(s.elect_timer(), 0);
}

#[test]
fn resending_append_entries_changes_nothing() {
    let mut s = follower("s1", 5);
    let m = RPC::AppendEntries { term: 1, prev_log_idx: 0, prev_log_term: 0, entries: vec![e(0, 1), e(4, 1)], leader_commit_idx: 2 };
    assert!(s.accepts_message(&String::from("s0"), &m));
    let out1 = s.recv_rpc(String::from("s0"), m.clone());
    let log1 = s.log().get_vec();
    let (t1, c1) = (s.curr_term(), s.commit_idx());
    assert!(s.accepts_message(&String::from("s0"), &m));
    let out2 = s.recv_rpc(String::from("s0"), m);
    assert_eq!(out1, out2);
    assert_eq!(s.log().get_vec(), log1);
    assert_eq!((s.curr_term(), s.commit_idx()), (t1, c1));
    assert_eq!(t1, 1);
}

#[test]
fn append_entries_with_other_operation_is_not_accepted() {
    let stored = vec![e(1, 1)];
    let s = Server::with_timeout(String::from("s1"), RaftLog::from_file(String::from("z.log"), stored), ids(3), 500);
    let m = RPC::AppendEntries { term: 1, prev_log_idx: 0, prev_log_term: 0, entries: vec![e(2, 1)], leader_commit_idx: 0 };
    assert!(!s.accepts_message(&String::from("s0"), &m));
}

#[test]
fn vote_is_granted_once_per_term() {
    let mut s = follower("s1", 5);
    let out = s.handle_recv_request_vote(String::from("s0"), 1, 0, 0);
    assert_eq!(out, vec![(String::from("s0"), RPC::RequestVoteResponse { term: 0, vote: true })]);
    assert_eq!(s.vote(), "s0");
    let out = s.handle_recv_request_vote(String::from("s2"), 1, 5, 5);
    assert_eq!(out[0].1, RPC::RequestVoteResponse { term: 0, vote: false });
    let out = s.handle_recv_request_vote(String::from("s0"), 1, 0, 0);
    assert_eq!(out[0].1, RPC::RequestVoteResponse { term: 0, vote: true });
    assert_eq!(s.vote(), "s0");
}

#[test]
fn vote_is_refused_to_a_stale_log() {
    let stored = vec![e(1, 2)];
    let mut s = Server::with_timeout(String::from("s1"), RaftLog::from_file(String::from("w.log"), stored), ids(3), 500);
    let out = s.handle_recv_request_vote(String::from("s0"), 3, 5, 1);
    assert_eq!(out[0].1, RPC::RequestVoteResponse { term: 0, vote: false });
    let out = s.handle_recv_request_vote(String::from("s2"), 3, 0, 2);
    assert_eq!(out[0].1, RPC::RequestVoteResponse { term: 0, vote: false });
    let out = s.handle_recv_request_vote(String::from("s2"), 3, 1, 2);
    assert_eq!(out[0].1, RPC::RequestVoteResponse { term: 0, vote: true });
}

#[test]
fn request_vote_with_newer_term_resets_the_vote() {
    let mut s = follower("s1", 5);
    s.handle_recv_request_vote(String::from("s0"), 0, 0, 0);
    assert_eq!(s.vote(), "s0");
    let out = s.recv_rpc(String::from("s2"), RPC::RequestVote { term: 4, last_log_idx: 0, last_log_term: 0 });
    assert_eq!(s.curr_term(), 4);
    assert_eq!(s.vote(), "s2");
    assert_eq!(out[0].1, RPC::RequestVoteResponse { term: 4, vote: true });
}

#[test]
fn non_leader_turns_clients_away() {
    let mut s = follower("s1", 5);
    let out = s.handle_recv_client_request(String::from("c0"), 99);
    assert_eq!(out, vec![(String::from("c0"), RPC::ClientResponse { opid: 99, success: false })]);
    assert_eq!(s.log().len(), 1);
}

#[test]
fn leader_logs_a_request_and_answers_once_applied() {
    let mut s = leader(5);
    let out = s.handle_recv_client_request(String::from("c0"), 99);
    assert!(out.is_empty());
    assert_eq!(s.log().get_last(), e(99, 1));
    assert!(s.has_pending_reply(2));
    // the same request again waits for the same entry
    let out = s.handle_recv_client_request(String::from("c1"), 99);
    assert!(out.is_empty());
    assert_eq!(s.log().len(), 3);
    // the peers report the entry; the leader commits and applies it
    for p in 1..5 {
        s.handle_recv_append_entries_response(format!("s{}", p), 1, 2, true);
    }
    s.tick_leader();
    assert_eq!(s.commit_idx(), 2);
    let (recs, out) = s.apply_committed();
    assert_eq!(recs, vec![
        RaftLogEntry { opid: 0, term: 1, applied: true },
        RaftLogEntry { opid: 99, term: 1, applied: true },
    ]);
    assert_eq!(out, vec![(String::from("c1"), RPC::ClientResponse { opid: 99, success: true })]);
    assert_eq!(s.applied_idx(), 2);
    assert!(!s.has_pending_reply(2));
}

#[test]
fn leader_answers_an_applied_request_at_once() {
    let stored = vec![RaftLogEntry { opid: 42, term: 0, applied: true }];
    let mut s = Server::with_timeout(String::from("s0"), RaftLog::from_file(String::from("v.log"), stored), ids(3), 500);
    s.become_candidate();
    s.handle_recv_request_vote_response(String::from("s1"), 1, true);
    s.handle_recv_request_vote_response(String::from("s2"), 1, true);
    assert_eq!(s.state(), ServerState::Leader);
    let out = s.handle_recv_client_request(String::from("c0"), 42);
    assert_eq!(out, vec![(String::from("c0"), RPC::ClientResponse { opid: 42, success: true })]);
}

#[test]
fn append_entries_response_moves_the_indices() {
    let mut s = leader(5);
    let p = String::from("s1");
    s.handle_recv_append_entries_response(p.clone(), 1, 1, true);
    assert_eq!(s.match_idx_of(&p), Some(1));
    assert_eq!(s.next_idx_of(&p), Some(2));
    s.handle_recv_append_entries_response(p.clone(), 1, 5, true);
    assert_eq!(s.match_idx_of(&p), Some(5));
    assert_eq!(s.next_idx_of(&p), Some(6));
    s.handle_recv_append_entries_response(p.clone(), 1, 3, true);
    assert_eq!(s.match_idx_of(&p), Some(5));
    s.handle_recv_append_entries_response(p.clone(), 1, 0, false);
    assert_eq!(s.next_idx_of(&p), Some(5));
    s.handle_recv_append_entries_response(p.clone(), 3, 0, false);
    assert_eq!(s.state(), ServerState::Follower);
    assert_eq!(s.curr_term(), 3);
}

#[test]
fn request_log_sends_at_most_nine_entries() {
    let stored: Vec<RaftLogEntry> = (1..=20).map(|i| e(i, 1)).collect();
    let s = Server::with_timeout(String::from("s0"), RaftLog::from_file(String::from("u.log"), stored), ids(3), 500);
    let out = s.handle_recv_request_log(String::from("c0"), 3);
    match &out[0].1 {
        RPC::RequestLogResponse { end_idx, log_len, applied_idx, entries } => {
            assert_eq!((*end_idx, *log_len, *applied_idx), (12, 21, 0));
            assert_eq!(entries.len(), 9);
            assert_eq!(entries[0], e(3, 1));
        },
        _ => panic!("wrong answer"),
    }
    let out = s.handle_recv_request_log(String::from("c0"), 50);
    assert_eq!(out[0].1, RPC::RequestLogResponse { end_idx: 21, log_len: 21, applied_idx: 0, entries: vec![] });
}

#[test]
fn candidate_asks_the_servers_that_have_not_voted() {
    let mut s = follower("s0", 4);
    s.become_candidate();
    s.handle_recv_request_vote_response(String::from("s2"), 1, true);
    assert_eq!(s.elect_timer() % PING_RATE, 0);
    let out = s.tick_candidate();
    let req = RPC::RequestVote { term: 1, last_log_idx: 0, last_log_term: 0 };
    assert_eq!(out, vec![(String::from("s1"), req.clone()), (String::from("s3"), req)]);
    s.tick_election_timer();
    assert!(s.tick_candidate().is_empty());
}

#[test]
fn leader_sends_entries_and_heartbeats() {
    let mut s = leader(5);
    s.handle_recv_client_request(String::from("c0"), 5);
    s.handle_recv_append_entries_response(String::from("s2"), 1, 2, true);
    // the timer goes from -1 to 0: time to send
    s.tick_election_timer();
    assert!(s.can_tick_leader());
    let out = s.tick_leader();
    assert_eq!(out.len(), 4);
    assert_eq!(out[0], (String::from("s1"), RPC::AppendEntries {
        term: 1, prev_log_idx: 1, prev_log_term: 1, entries: vec![e(5, 1)], leader_commit_idx: 0,
    }));
    assert_eq!(out[1], (String::from("s2"), RPC::AppendEntries {
        term: 1, prev_log_idx: 2, prev_log_term: 1, entries: vec![], leader_commit_idx: 0,
    }));
    // index 2 is on the leader and s2 only: two of five servers
    assert_eq!(s.commit_idx(), 0);
    s.handle_recv_append_entries_response(String::from("s3"), 1, 2, true);
    s.tick_election_timer();
    assert!(s.tick_leader().is_empty());
    // now on three of five
    assert_eq!(s.commit_idx(), 2);
}

#[test]
fn leader_of_three_commits_with_one_peer() {
    let mut s = leader(3);
    assert!(s.can_tick_leader());
    s.handle_recv_client_request(String::from("c0"), 8);
    s.tick_leader();
    assert_eq!(s.commit_idx(), 0);
    s.handle_recv_append_entries_response(String::from("s1"), 1, 2, true);
    assert!(s.can_tick_leader());
    s.tick_leader();
    assert_eq!(s.commit_idx(), 2);
}

#[test]
fn follower_commits_no_further_than_the_last_new_entry() {
    let stored = vec![e(1, 1), e(2, 1), e(3, 1), e(4, 1)];
    let mut s = Server::with_timeout(String::from("s1"), RaftLog::from_file(String::from("r.log"), stored), ids(3), 500);
    s.handle_recv_append_entries(String::from("s0"), 1, 1, 1, vec![e(2, 1)], 4);
    assert_eq!(s.log().len(), 5);
    assert_eq!(s.commit_idx(), 2);
    // a heartbeat's last new entry is the one it follows
    s.handle_recv_append_entries(String::from("s0"), 1, 3, 1, vec![], 4);
    assert_eq!(s.commit_idx(), 3);
}

#[test]
fn election_timer_starts_an_election() {
    let mut s = Server::with_timeout(String::from("s0"), RaftLog::new(String::from("t.log")), ids(3), 3);
    s.tick_election_timer();
    s.tick_election_timer();
    assert_eq!(s.state(), ServerState::Follower);
    assert_eq!(s.elect_timer(), 2);
    s.tick_election_timer();
    assert_eq!(s.state(), ServerState::Candidate);
    assert_eq!(s.curr_term(), 1);
    assert_eq!(s.elect_timer(), 0);
}

#[test]
fn crashed_server_comes_back_as_follower() {
    let mut s = leader(3);
    s.crash();
    assert!(s.is_crashed());
    for _ in 0..CRASH_LENGTH - 1 {
        s.tick_crashed();
    }
    assert!(s.is_crashed());
    assert_eq!(s.state(), ServerState::Leader);
    s.tick_crashed();
    assert!(!s.is_crashed());
    assert_eq!(s.state(), ServerState::Follower);
    assert_eq!(s.crash_timer(), CRASH_LENGTH);
}

#[test]
fn crash_roll_crashes_on_multiples_of_the_frequency() {
    assert!(crash_roll(0));
    assert!(!crash_roll(1));
    assert!(crash_roll(120000));
    assert!(!crash_roll(59999));
}

#[test]
fn server_never_handles_client_answers() {
    let s = follower("s0", 3);
    assert!(!s.accepts_message(&String::from("c0"), &RPC::ClientResponse { opid: 1, success: true }));
    assert!(s.accepts_message(&String::from("c0"), &RPC::ClientRequest { opid: 1 }));
    assert!(!s.accepts_message(&String::from("s1"), &RPC::AppendEntriesResponse { term: 0, idx: 1, result: true }));
}

#[test]
fn tick_role_follows_the_state() {
    let mut s = follower("s0", 3);
    assert!(s.tick_role().is_empty());
    s.become_candidate();
    assert_eq!(s.tick_role().len(), 2);
}

#[test]
fn term_never_goes_back() {
    let mut s = follower("s1", 5);
    s.recv_rpc(String::from("s0"), RPC::RequestVote { term: 6, last_log_idx: 0, last_log_term: 0 });
    assert_eq!(s.curr_term(), 6);
    let msgs = vec![
        RPC::RequestVote { term: 2, last_log_idx: 0, last_log_term: 0 },
        RPC::AppendEntries { term: 3, prev_log_idx: 0, prev_log_term: 0, entries: vec![], leader_commit_idx: 0 },
        RPC::RequestVoteResponse { term: 1, vote: true },
        RPC::ClientRequest { opid: 4 },
        RPC::RequestLog { start_idx: 0 },
    ];
    for m in msgs {
        assert!(s.accepts_message(&String::from("s2"), &m));
        s.recv_rpc(String::from("s2"), m);
        assert_eq!(s.curr_term(), 6);
    }
}

#[test]
fn follower_commit_keeps_up_while_the_log_reaches_it() {
    let mut s = follower("s1", 3);
    s.handle_recv_append_entries(String::from("s0"), 1, 0, 0, vec![e(1, 1), e(2, 1), e(3, 1)], 3);
    assert_eq!(s.commit_idx(), 3);
    s.handle_recv_append_entries(String::from("s0"), 1, 3, 1, vec![e(4, 1)], 9);
    assert_eq!(s.commit_idx(), 4);
}

#[test]
fn follower_commit_follows_a_shorter_log() {
    let mut s = follower("s1", 3);
    s.handle_recv_append_entries(String::from("s0"), 1, 0, 0, vec![e(1, 1), e(2, 1), e(3, 1)], 3);
    assert_eq!(s.commit_idx(), 3);
    // a conflicting entry cuts the log below the commit index
    s.handle_recv_append_entries(String::from("s0"), 2, 0, 0, vec![e(9, 2)], 5);
    assert_eq!(s.log().len(), 2);
    assert_eq!(s.commit_idx(), 1);
}

#[test]
fn leader_log_only_grows() {
    let mut s = leader(5);
    let before = s.log().get_vec();
    let msgs = vec![
        RPC::ClientRequest { opid: 3 },
        RPC::RequestVoteResponse { term: 1, vote: true },
        RPC::AppendEntriesResponse { term: 1, idx: 1, result: true },
        RPC::RequestLog { start_idx: 0 },
        RPC::RequestVote { term: 1, last_log_idx: 9, last_log_term: 1 },
    ];
    for m in msgs {
        assert!(s.accepts_message(&String::from("s1"), &m));
        s.recv_rpc(String::from("s1"), m);
        assert_eq!(s.state(), ServerState::Leader);
        let now = s.log().get_vec();
        assert!(now.len() >= before.len());
        assert_eq!(&now[..before.len()], &before[..]);
    }
    assert_eq!(s.log().len(), 3);
}

#[test]
fn restart_restores_what_was_applied() {
    let mut s = leader(5);
    s.handle_recv_client_request(String::from("c0"), 31);
    s.handle_recv_client_request(String::from("c0"), 32);
    for p in 1..5 {
        s.handle_recv_append_entries_response(format!("s{}", p), 1, 3, true);
    }
    s.tick_leader();
    let (recs, _) = s.apply_committed();
    let rebuilt = RaftLog::from_file(String::from("s0.log"), recs);
    let log = s.log().get_vec();
    assert_eq!(rebuilt.len(), log.len());
    for (j, r) in rebuilt.get_vec().iter().enumerate().skip(1) {
        assert_eq!((r.opid, r.term, r.applied), (log[j].opid, log[j].term, true));
    }
}

#[test]
fn vote_changes_only_with_a_newer_term() {
    let mut s = follower("s1", 5);
    s.recv_rpc(String::from("s0"), RPC::RequestVote { term: 5, last_log_idx: 0, last_log_term: 0 });
    assert_eq!(s.vote(), "s0");
    s.recv_rpc(String::from("s2"), RPC::RequestVote { term: 5, last_log_idx: 0, last_log_term: 0 });
    assert_eq!(s.vote(), "s0");
    s.recv_rpc(String::from("s2"), RPC::RequestVote { term: 6, last_log_idx: 0, last_log_term: 0 });
    assert_eq!(s.vote(), "s2");
    assert_eq!(s.curr_term(), 6);
}

#[test]
fn append_entries_of_the_same_term_keeps_the_vote() {
    let mut s = follower("s1", 5);
    s.recv_rpc(String::from("s0"), RPC::RequestVote { term: 5, last_log_idx: 0, last_log_term: 0 });
    assert_eq!(s.vote(), "s0");
    s.recv_rpc(String::from("s0"), RPC::AppendEntries { term: 5, prev_log_idx: 0, prev_log_term: 0, entries: vec![], leader_commit_idx: 0 });
    assert_eq!(s.vote(), "s0");
    let out = s.recv_rpc(String::from("s2"), RPC::RequestVote { term: 5, last_log_idx: 0, last_log_term: 0 });
    assert_eq!(out[0].1, RPC::RequestVoteResponse { term: 5, vote: false });
    assert_eq!(s.curr_term(), 5);
    // a newer term frees the vote
    s.recv_rpc(String::from("s3"), RPC::AppendEntries { term: 6, prev_log_idx: 0, prev_log_term: 0, entries: vec![], leader_commit_idx: 0 });
    assert_eq!(s.vote(), "");
}

#[test]
fn timeout_starts_an_election_after_the_remaining_ticks() {
    let mut s = Server::with_timeout(String::from("s0"), RaftLog::new(String::from("q.log")), ids(3), 5);
    s.tick_election_timer();
    for _ in 0..3 {
        assert_eq!(s.state(), ServerState::Follower);
        s.tick_election_timer();
    }
    assert_eq!(s.state(), ServerState::Follower);
    s.tick_election_timer();
    assert_eq!(s.state(), ServerState::Candidate);
    assert_eq!(s.curr_term(), 1);
    assert_eq!(s.vote(), "s0");
}

#[test]
fn log_keeps_the_sentinel() {
    let mut s = follower("s1", 3);
    s.handle_recv_append_entries(String::from("s0"), 1, 0, 0, vec![e(5, 1)], 0);
    s.handle_recv_append_entries(String::from("s0"), 2, 0, 0, vec![e(6, 2)], 0);
    assert_eq!(s.log().get(0), Some(RaftLogEntry::new(0, 0)));
    let mut l = RaftLog::new(String::from("p.log"));
    l.append(e(1, 1));
    l.delete_from(1);
    assert_eq!(l.get_vec(), vec![RaftLogEntry::new(0, 0)]);
}

#[test]
fn stepped_down_leader_times_out_among_other_messages() {
    let mut s = Server::with_timeout(String::from("s0"), RaftLog::new(String::from("o.log")), ids(3), 5);
    s.become_candidate();
    s.handle_recv_request_vote_response(String::from("s1"), 1, true);
    assert_eq!(s.state(), ServerState::Leader);
    // a newer term makes it a follower whose timer is still -1
    s.recv_rpc(String::from("s2"), RPC::RequestVote { term: 9, last_log_idx: 0, last_log_term: 0 });
    assert_eq!(s.state(), ServerState::Follower);
    assert_eq!(s.elect_timer(), -1);
    for k in 0..5 {
        s.tick_election_timer();
        s.recv_rpc(String::from("c0"), RPC::ClientRequest { opid: k });
        s.recv_rpc(String::from("c0"), RPC::RequestLog { start_idx: 0 });
        assert_eq!(s.state(), ServerState::Follower);
    }
    s.tick_election_timer();
    assert_eq!(s.state(), ServerState::Candidate);
    assert_eq!(s.curr_term(), 10);
    assert_eq!(s.vote(), "s0");
}

#[test]
fn vote_survives_many_messages_of_the_term() {
    let mut s = follower("s1", 5);
    s.recv_rpc(String::from("s0"), RPC::RequestVote { term: 3, last_log_idx: 0, last_log_term: 0 });
    for _ in 0..3 {
        s.recv_rpc(String::from("s0"), RPC::AppendEntries { term: 3, prev_log_idx: 0, prev_log_term: 0, entries: vec![], leader_commit_idx: 0 });
        s.recv_rpc(String::from("s4"), RPC::RequestVote { term: 3, last_log_idx: 9, last_log_term: 9 });
        s.recv_rpc(String::from("c0"), RPC::ClientRequest { opid: 1 });
    }
    assert_eq!(s.curr_term(), 3);
    assert_eq!(s.vote(), "s0");
}
