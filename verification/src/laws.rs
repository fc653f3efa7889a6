use vstd::prelude::*;
use crate::raftlog::{RaftLogEntry, sentinel, is_first_opid, lacks_opid, first_opid, lemma_first_opid, lemma_no_opid};
use crate::rpc::RpcView;
use crate::peers::{peer_get, bound_values, keys_unique};
use crate::quorum::count_at_least;
use crate::replicate::{merge, merge_consistent, lemma_merge, lemma_merge_noop};
use crate::protocol::{
    ServerView, ServerState, step, see_term, accepts_append, after_append_entries, grants_vote, after_request_vote, after_apply, after_leader_tick, leader_of, highest_commit, can_commit, replicated_on, majority, after_timer_tick, is_peer, lemma_bind_all, after_vote_response, records,
    canvass, vote_request, leader_messages, append_for,
};

verus! {

/// Log matching: when a follower accepts an AppendEntries request, its log
/// keeps every entry up to `prev_log_idx` and then holds the leader's
/// entries, with the leader's terms and operations, at the indices the
/// leader gave them.
pub proof fn law_accepted_entries_match_leader(
    v: ServerView,
    term: i64,
    prev_log_idx: usize,
    prev_log_term: i64,
    entries: Seq<RaftLogEntry>,
    leader_commit_idx: usize,
)
    requires
        accepts_append(v, term, prev_log_idx, prev_log_term),
        merge_consistent(v.log, prev_log_idx + 1, entries),
    ensures
        ({
            let log = after_append_entries(v, term, prev_log_idx, prev_log_term, entries, leader_commit_idx).log;
            &&& log.take(prev_log_idx + 1) == v.log.take(prev_log_idx + 1)
            &&& log.len() >= prev_log_idx + 1 + entries.len()
            &&& forall|k: int| 0 <= k < entries.len() ==> {
                &&& (#[trigger] log[prev_log_idx + 1 + k]).term == entries[k].term
                &&& log[prev_log_idx + 1 + k].opid == entries[k].opid
            }
        }),
{
    lemma_merge(v.log, prev_log_idx + 1, entries);
}

/// Receiving the same AppendEntries request twice leaves the server exactly
/// as receiving it once, and the second answer repeats the first: a leader
/// may resend it freely.
pub proof fn law_append_entries_idempotent(
    v: ServerView,
    from: Seq<char>,
    term: i64,
    prev_log_idx: usize,
    prev_log_term: i64,
    entries: Seq<RaftLogEntry>,
    leader_commit_idx: usize,
)
    requires
        v.log.len() >= 1,
        accepts_append(see_term(v, term, true), term, prev_log_idx, prev_log_term)
            ==> merge_consistent(v.log, prev_log_idx + 1, entries),
    ensures
        ({
            let rpc = RpcView::AppendEntries { term, prev_log_idx, prev_log_term, entries, leader_commit_idx };
            let once = step(v, from, rpc);
            let twice = step(once.0, from, rpc);
            &&& twice.0 == once.0
            &&& twice.1 == once.1
        }),
{
    let rpc = RpcView::AppendEntries { term, prev_log_idx, prev_log_term, entries, leader_commit_idx };
    let v1 = see_term(v, term, true);
    let once = step(v, from, rpc);
    let w = once.0;
    let w1 = see_term(w, term, true);
    assert(w1 == w);
    if accepts_append(v1, term, prev_log_idx, prev_log_term) {
        lemma_merge(v1.log, prev_log_idx + 1, entries);
        let log = w.log;
        assert(log[prev_log_idx as int] == log.take(prev_log_idx + 1)[prev_log_idx as int]);
        assert(v1.log[prev_log_idx as int] == v1.log.take(prev_log_idx + 1)[prev_log_idx as int]);
        assert(accepts_append(w1, term, prev_log_idx, prev_log_term));
        assert forall|k: int| 0 <= k < entries.len() implies #[trigger] log[prev_log_idx + 1 + k].term == entries[k].term by {
            assert(log[prev_log_idx + 1 + k].term == entries[k].term);
        }
        lemma_merge_noop(log, prev_log_idx + 1, entries);
        assert(merge(log, prev_log_idx + 1, entries) == log);
    } else {
        assert(!accepts_append(w1, term, prev_log_idx, prev_log_term));
    }
}

/// A granted vote is recorded: once a server has granted its vote to a
/// candidate with a non-empty name, it refuses any other candidate in the
/// same state.
pub proof fn law_one_vote_per_term(
    v: ServerView,
    a: Seq<char>,
    term_a: i64,
    last_idx_a: usize,
    last_term_a: i64,
    b: Seq<char>,
    term_b: i64,
    last_idx_b: usize,
    last_term_b: i64,
)
    requires
        grants_vote(v, a, term_a, last_idx_a, last_term_a),
        a.len() > 0,
        a != b,
    ensures
        ({
            let w = after_request_vote(v, a, term_a, last_idx_a, last_term_a);
            &&& w.vote == a
            &&& w.curr_term == v.curr_term
            &&& !grants_vote(w, b, term_b, last_idx_b, last_term_b)
        }),
{
}

/// A server's term never goes back, whatever message it handles.
pub proof fn law_term_never_decreases(v: ServerView, from: Seq<char>, rpc: RpcView)
    ensures
        step(v, from, rpc).0.curr_term >= v.curr_term,
{
}

/// Applying the committed entries brings the applied index up to the commit
/// index and never moves it back.
pub proof fn law_apply_catches_up(v: ServerView)
    ensures
        after_apply(v).applied_idx >= v.commit_idx,
        after_apply(v).applied_idx >= v.applied_idx,
        after_apply(v).commit_idx == v.commit_idx,
        after_apply(v).log == v.log,
{
}

/// What `highest_commit` finds: the commit index, or an index past it that
/// may be committed and above which, up to `hi`, none may.
proof fn lemma_highest_commit(v: ServerView, hi: int)
    ensures
        highest_commit(v, hi) >= v.commit_idx,
        highest_commit(v, hi) != v.commit_idx ==> {
            &&& can_commit(v, highest_commit(v, hi))
            &&& highest_commit(v, hi) <= hi
            &&& forall|m: int| highest_commit(v, hi) < m <= hi ==> !can_commit(v, m)
        },
        highest_commit(v, hi) == v.commit_idx ==> forall|m: int| v.commit_idx < m <= hi ==> !can_commit(v, m),
    decreases hi - v.commit_idx,
{
    if hi > v.commit_idx && !can_commit(v, hi) {
        lemma_highest_commit(v, hi - 1);
    }
}

/// The commit rule of a leader's tick: the commit index only moves forward;
/// it moves to `n` only when the entry at `n` is of the current term and a
/// majority of the servers (the leader and the peers whose match index
/// reaches `n`) store it; and `n` is the highest such index.
pub proof fn law_leader_commit(v: ServerView)
    requires
        v.log.len() <= usize::MAX,
    ensures
        after_leader_tick(v).commit_idx >= v.commit_idx,
        after_leader_tick(v).commit_idx != v.commit_idx ==> {
            let n = after_leader_tick(v).commit_idx;
            &&& n < v.log.len()
            &&& v.log[n as int].term == v.curr_term
            &&& 1 + count_at_least(bound_values(v.match_idx), n) >= v.server_ids.len() / 2 + 1
        },
        forall|m: int| after_leader_tick(v).commit_idx < m < v.log.len() ==> !can_commit(v, m),
{
    lemma_highest_commit(v, v.log.len() - 1);
}

/// A new leader expects every other server to need the entries from the end
/// of its new log on and knows of no entry any of them holds; its log ends
/// with a no-op of its term.
pub proof fn law_new_leader_indices(v: ServerView, k: Seq<char>)
    requires
        keys_unique(v.next_idx),
        keys_unique(v.match_idx),
        is_peer(v, k),
    ensures
        peer_get(leader_of(v).next_idx, k) == Some(leader_of(v).log.len() as usize),
        peer_get(leader_of(v).match_idx, k) == Some(0usize),
        leader_of(v).log.last() == RaftLogEntry::fresh(0, v.curr_term),
        leader_of(v).state == ServerState::Leader,
{
    lemma_bind_all(v.next_idx, v.server_ids, v.id, (v.log.len() + 1) as usize);
    lemma_bind_all(v.match_idx, v.server_ids, v.id, 0);
}


/// Truncating a log back to its old length undoes an append.
pub proof fn law_delete_undoes_append(log: Seq<RaftLogEntry>, entry: RaftLogEntry)
    ensures
        log.push(entry).take(log.len() as int) == log,
        log.push(entry)[log.len() as int] == entry,
{
    assert(log.push(entry).take(log.len() as int) =~= log);
}

/// Looking an operation up always has one answer: either no entry carries
/// it, or there is exactly one first entry that does; `idxof` and `contains`
/// report that same entry.
pub proof fn law_lookup_has_one_answer(log: Seq<RaftLogEntry>, opid: i64)
    ensures
        lacks_opid(log, opid) <==> first_opid(log, opid).is_none(),
        forall|i: int| #[trigger] is_first_opid(log, opid, i) <==> first_opid(log, opid) == Some(i),
{
    if lacks_opid(log, opid) {
        lemma_no_opid(log, opid);
    } else {
        let j = choose|j: int| 0 <= j < log.len() && log[j].opid == opid;
        let i = first_index_of(log, opid, j);
        lemma_first_opid(log, opid, i);
    }
    assert forall|i: int| #[trigger] is_first_opid(log, opid, i) <==> first_opid(log, opid) == Some(i) by {
        if is_first_opid(log, opid, i) {
            lemma_first_opid(log, opid, i);
        }
        if first_opid(log, opid) == Some(i) {
            assert(is_first_opid(log, opid, choose|k: int| is_first_opid(log, opid, k)));
        }
    }
}

/// The first entry carrying `opid`, found by walking back from an entry `j`
/// that carries it.
proof fn first_index_of(log: Seq<RaftLogEntry>, opid: i64, j: int) -> (i: int)
    requires
        0 <= j < log.len(),
        log[j].opid == opid,
    ensures
        is_first_opid(log, opid, i),
    decreases j,
{
    if exists|k: int| 0 <= k < j && log[k].opid == opid {
        let k = choose|k: int| 0 <= k < j && log[k].opid == opid;
        first_index_of(log, opid, k)
    } else {
        j
    }
}

/// Every record persisted when entries are applied is marked applied and
/// carries the operation and term of an entry of the log.
pub proof fn law_records_are_applied_entries(log: Seq<RaftLogEntry>, from: int, to: int)
    ensures
        forall|k: int| 0 <= k < records(log, from, to).len() ==> {
            &&& (#[trigger] records(log, from, to)[k]).applied
            &&& exists|j: int| from < j <= to && 0 <= j < log.len()
                && log[j].opid == records(log, from, to)[k].opid && log[j].term == records(log, from, to)[k].term
        },
    decreases to - from,
{
    if to > from {
        law_records_are_applied_entries(log, from, to - 1);
        let r = records(log, from, to);
        let rest = records(log, from, to - 1);
        assert forall|k: int| 0 <= k < r.len() implies {
            &&& (#[trigger] r[k]).applied
            &&& exists|j: int| from < j <= to && 0 <= j < log.len() && log[j].opid == r[k].opid && log[j].term == r[k].term
        } by {
            if k < rest.len() {
                assert(r[k] == rest[k]);
                let j = choose|j: int| from < j <= to - 1 && 0 <= j < log.len()
                    && log[j].opid == rest[k].opid && log[j].term == rest[k].term;
                assert(from < j <= to && 0 <= j < log.len() && log[j].opid == r[k].opid && log[j].term == r[k].term);
            } else {
                assert(k == rest.len());
                assert(0 <= to < log.len());
                assert(r[k] == RaftLogEntry { applied: true, ..log[to] });
                assert(from < to <= to && 0 <= to < log.len() && log[to].opid == r[k].opid && log[to].term == r[k].term);
            }
        }
    }
}

/// Each voter is counted once: a candidate whose list of received votes
/// holds no name twice keeps it so whatever vote it receives.
pub proof fn law_votes_counted_once(v: ServerView, id: Seq<char>, term: i64, vote: bool)
    requires
        v.votes_recved.no_duplicates(),
    ensures
        after_vote_response(v, id, term, vote).votes_recved.no_duplicates(),
{
    if term <= v.curr_term && v.state == ServerState::Candidate && vote && !v.votes_recved.contains(id) {
        let s = v.votes_recved.push(id);
        assert forall|i: int, j: int| 0 <= i < s.len() && 0 <= j < s.len() && i != j implies s[i] != s[j] by {
            if i == s.len() - 1 {
                assert(v.votes_recved[j] == s[j]);
            } else if j == s.len() - 1 {
                assert(v.votes_recved[i] == s[i]);
            }
        }
    }
}

/// A follower's commit index does not move back when it accepts entries
/// that reach its old commit index; whatever it accepts, its commit index
/// stays within the entries the leader sent and its own log.
pub proof fn law_follower_commit_keeps_up(
    v: ServerView,
    term: i64,
    prev_log_idx: usize,
    prev_log_term: i64,
    entries: Seq<RaftLogEntry>,
    leader_commit_idx: usize,
)
    requires
        v.log.len() + entries.len() < usize::MAX,
        accepts_append(v, term, prev_log_idx, prev_log_term),
    ensures
        ({
            let w = after_append_entries(v, term, prev_log_idx, prev_log_term, entries, leader_commit_idx);
            &&& prev_log_idx + entries.len() >= v.commit_idx ==> w.commit_idx >= v.commit_idx
            &&& w.commit_idx != v.commit_idx ==> {
                &&& w.commit_idx <= leader_commit_idx
                &&& w.commit_idx <= prev_log_idx + entries.len()
                &&& w.commit_idx < w.log.len()
            }
        }),
{
    lemma_merge(v.log, prev_log_idx + 1, entries);
}

/// Leader append-only: while a server stays leader, whatever message it
/// handles, its log only grows at the end.
pub proof fn law_leader_only_appends(v: ServerView, from: Seq<char>, rpc: RpcView)
    requires
        v.state == ServerState::Leader,
        step(v, from, rpc).0.state == ServerState::Leader,
    ensures
        step(v, from, rpc).0.log.len() >= v.log.len(),
        step(v, from, rpc).0.log.take(v.log.len() as int) == v.log,
{
    let w = step(v, from, rpc).0;
    assert(w.log.take(v.log.len() as int) =~= v.log);
}

/// A leader's tick leaves its log as it is.
pub proof fn law_leader_tick_keeps_log(v: ServerView)
    ensures
        after_leader_tick(v).log == v.log,
        after_leader_tick(v).state == v.state,
{
}

/// A candidate takes the lead only on a vote that brings the votes it
/// received to the number it needs.
pub proof fn law_leader_has_enough_votes(v: ServerView, id: Seq<char>, term: i64, vote: bool)
    requires
        v.state == ServerState::Candidate,
        after_vote_response(v, id, term, vote).state == ServerState::Leader,
    ensures
        after_vote_response(v, id, term, vote).votes_recved.len() >= v.votes_needed as usize,
        after_vote_response(v, id, term, vote).curr_term == v.curr_term,
{
}

/// The records persisted when the entries after `from` up to `to` (all in
/// the log) are applied are those entries in order, marked applied.
proof fn lemma_records_exact(log: Seq<RaftLogEntry>, from: int, to: int)
    requires
        0 <= from <= to < log.len(),
    ensures
        records(log, from, to).len() == to - from,
        forall|k: int| 0 <= k < to - from ==> #[trigger] records(log, from, to)[k]
            == (RaftLogEntry { applied: true, ..log[from + 1 + k] }),
    decreases to - from,
{
    if to > from {
        lemma_records_exact(log, from, to - 1);
    }
}

/// A restart gives back what was applied: a log rebuilt from the records
/// persisted while applying its entries up to `n` holds, after the sentinel,
/// exactly those entries (marked applied), at their indices.
pub proof fn law_restart_restores_applied_entries(log: Seq<RaftLogEntry>, n: int)
    requires
        0 <= n < log.len(),
        log[0] == sentinel(),
    ensures
        ({
            let rebuilt = seq![sentinel()] + records(log, 0, n);
            &&& rebuilt.len() == n + 1
            &&& rebuilt[0] == log[0]
            &&& forall|j: int| 1 <= j <= n ==> #[trigger] rebuilt[j] == (RaftLogEntry { applied: true, ..log[j] })
        }),
{
    lemma_records_exact(log, 0, n);
    let rebuilt = seq![sentinel()] + records(log, 0, n);
    assert forall|j: int| 1 <= j <= n implies #[trigger] rebuilt[j] == (RaftLogEntry { applied: true, ..log[j] }) by {
        assert(rebuilt[j] == records(log, 0, n)[j - 1]);
    }
}

/// Within one message a server never trades a vote it has cast for a vote
/// for someone else unless its term moves forward.
pub proof fn law_vote_changes_only_with_term(v: ServerView, from: Seq<char>, rpc: RpcView)
    requires
        v.vote.len() > 0,
        step(v, from, rpc).0.vote.len() > 0,
        step(v, from, rpc).0.vote != v.vote,
    ensures
        step(v, from, rpc).0.curr_term > v.curr_term,
{
}

/// One vote per term: a message that leaves a server in its term never
/// changes a vote it has cast (a vote is cleared only by a newer term).
pub proof fn law_vote_kept_within_term(v: ServerView, from: Seq<char>, rpc: RpcView)
    requires
        v.vote.len() > 0,
        step(v, from, rpc).0.curr_term == v.curr_term,
    ensures
        step(v, from, rpc).0.vote == v.vote,
{
}

/// One vote per term, over two messages: after a server has voted for `a`
/// in its term, no message that keeps that term lets a RequestVote of the
/// same term from another candidate `b` win its vote.
pub proof fn law_no_second_vote_in_a_term(
    v: ServerView,
    a: Seq<char>,
    from: Seq<char>,
    rpc: RpcView,
    b: Seq<char>,
    last_idx_b: usize,
    last_term_b: i64,
)
    requires
        v.vote == a,
        a.len() > 0,
        a != b,
        step(v, from, rpc).0.curr_term == v.curr_term,
    ensures
        ({
            let w = step(v, from, rpc).0;
            let r = step(w, b, RpcView::RequestVote { term: v.curr_term, last_log_idx: last_idx_b, last_log_term: last_term_b });
            &&& r.0.vote == a
            &&& r.1 == seq![(b, RpcView::RequestVoteResponse { term: v.curr_term, vote: false })]
        }),
{
}

/// Ticks of the election timer, `k` of them.
pub open spec fn timer_ticks(v: ServerView, k: nat) -> ServerView
    decreases k,
{
    if k == 0 {
        v
    } else {
        timer_ticks(after_timer_tick(v), (k - 1) as nat)
    }
}

/// Election timeout: a server whose timer is below its timeout, and that
/// hears from no leader meanwhile, becomes a candidate of the next term,
/// voting for itself, after `elect_timeout - elect_timer` ticks.
pub proof fn law_timeout_starts_election(v: ServerView)
    requires
        v.elect_timer < v.elect_timeout,
    ensures
        timer_ticks(v, (v.elect_timeout - v.elect_timer) as nat) == (ServerView {
            curr_term: (v.curr_term + 1) as i64,
            vote: v.id,
            votes_recved: seq![v.id],
            elect_timer: 0,
            state: ServerState::Candidate,
            ..v
        }),
    decreases v.elect_timeout - v.elect_timer,
{
    if v.elect_timer + 1 < v.elect_timeout {
        let w = after_timer_tick(v);
        law_timeout_starts_election(w);
        assert(timer_ticks(v, (v.elect_timeout - v.elect_timer) as nat)
            == timer_ticks(w, (w.elect_timeout - w.elect_timer) as nat));
    } else {
        assert(timer_ticks(after_timer_tick(v), 0) == after_timer_tick(v));
    }
}

/// The sentinel stays: a log that starts with it keeps it through appends,
/// truncations that keep index 0, and every message a server handles.
pub proof fn law_log_keeps_sentinel(log: Seq<RaftLogEntry>, entry: RaftLogEntry, i: int, v: ServerView, from: Seq<char>, rpc: RpcView)
    requires
        log.len() >= 1,
        log[0] == sentinel(),
        1 <= i <= log.len(),
        v.log.len() >= 1,
        v.log[0] == sentinel(),
    ensures
        log.push(entry)[0] == sentinel(),
        log.take(i)[0] == sentinel(),
        log.take(i).len() >= 1,
        step(v, from, rpc).0.log.len() >= 1,
        step(v, from, rpc).0.log[0] == sentinel(),
{
    match rpc {
        RpcView::AppendEntries { term, prev_log_idx, prev_log_term, entries, leader_commit_idx } => {
            let v1 = see_term(v, term, true);
            if accepts_append(v1, term, prev_log_idx, prev_log_term) {
                lemma_merge(v1.log, prev_log_idx + 1, entries);
                let m = merge(v1.log, prev_log_idx + 1, entries);
                assert(m[0] == m.take(prev_log_idx + 1)[0]);
                assert(v.log[0] == v.log.take(prev_log_idx + 1)[0]);
            }
        },
        _ => {},
    }
}

/// What happens to a running server: a tick of its election timer, or a
/// message it handles.
pub enum ServerEvent {
    Tick,
    Message { from: Seq<char>, rpc: RpcView },
}

/// The state after one event.
pub open spec fn apply_event(v: ServerView, e: ServerEvent) -> ServerView {
    match e {
        ServerEvent::Tick => after_timer_tick(v),
        ServerEvent::Message { from, rpc } => step(v, from, rpc).0,
    }
}

/// The state after a sequence of events, in order.
pub open spec fn run_events(v: ServerView, evs: Seq<ServerEvent>) -> ServerView
    decreases evs.len(),
{
    if evs.len() == 0 {
        v
    } else {
        apply_event(run_events(v, evs.drop_last()), evs.last())
    }
}

/// The number of ticks among `evs`.
pub open spec fn tick_count(evs: Seq<ServerEvent>) -> nat
    decreases evs.len(),
{
    if evs.len() == 0 {
        0
    } else {
        tick_count(evs.drop_last()) + if evs.last() is Tick { 1nat } else { 0nat }
    }
}

/// An event that leaves the election timer alone unless it is a tick: any
/// message but an AppendEntries (which restarts the timer) and a vote (which
/// may win an election, which sets the timer too).
pub open spec fn quiet(e: ServerEvent) -> bool {
    match e {
        ServerEvent::Tick => true,
        ServerEvent::Message { from, rpc } => !(rpc is AppendEntries) && !(rpc is RequestVoteResponse),
    }
}

/// The tick at index `i` of `evs` starts an election.
pub open spec fn fires_at(v: ServerView, evs: Seq<ServerEvent>, i: int) -> bool {
    let before = run_events(v, evs.take(i));
    &&& 0 <= i < evs.len()
    &&& evs[i] is Tick
    &&& before.elect_timer + 1 >= before.elect_timeout
    &&& run_events(v, evs.take(i + 1)) == (ServerView {
        curr_term: (before.curr_term + 1) as i64,
        vote: before.id,
        votes_recved: seq![before.id],
        elect_timer: 0,
        state: ServerState::Candidate,
        ..before
    })
}

/// A quiet message leaves the election timer and timeout as they are.
proof fn lemma_quiet_message_keeps_timer(v: ServerView, from: Seq<char>, rpc: RpcView)
    requires
        !(rpc is AppendEntries),
        !(rpc is RequestVoteResponse),
    ensures
        step(v, from, rpc).0.elect_timer == v.elect_timer,
        step(v, from, rpc).0.elect_timeout == v.elect_timeout,
{
}

/// Until a tick of `evs` starts an election, the timer has counted every
/// tick and stays below the timeout.
proof fn lemma_timer_counts_ticks(v: ServerView, evs: Seq<ServerEvent>, j: int)
    requires
        v.elect_timer < v.elect_timeout,
        forall|i: int| 0 <= i < evs.len() ==> quiet(#[trigger] evs[i]),
        0 <= j <= evs.len(),
    ensures
        (exists|i: int| 0 <= i < j && fires_at(v, evs, i)) || {
            let s = run_events(v, evs.take(j));
            &&& s.elect_timer == v.elect_timer + tick_count(evs.take(j))
            &&& s.elect_timer < s.elect_timeout
            &&& s.elect_timeout == v.elect_timeout
        },
    decreases j,
{
    if j == 0 {
        assert(evs.take(0) =~= Seq::<ServerEvent>::empty());
    } else {
        lemma_timer_counts_ticks(v, evs, j - 1);
        if !(exists|i: int| 0 <= i < j - 1 && fires_at(v, evs, i)) {
            let pre = evs.take(j - 1);
            let cur = evs.take(j);
            assert(cur.drop_last() =~= pre);
            assert(cur.last() == evs[j - 1]);
            let s = run_events(v, pre);
            assert(quiet(evs[j - 1]));
            match evs[j - 1] {
                ServerEvent::Tick => {
                    if s.elect_timer + 1 >= s.elect_timeout {
                        assert(fires_at(v, evs, j - 1));
                    }
                },
                ServerEvent::Message { from, rpc } => {
                    lemma_quiet_message_keeps_timer(s, from, rpc);
                },
            }
        }
    }
}

/// Election timeout, among other messages: a server whose timer is below
/// its timeout, that handles no AppendEntries and no vote meanwhile, starts
/// an election (a new term, a vote for itself, a candidate) on one of the
/// first `elect_timeout - elect_timer` ticks, whatever else it handles in
/// between.
pub proof fn law_timeout_starts_election_among_messages(v: ServerView, evs: Seq<ServerEvent>)
    requires
        v.elect_timer < v.elect_timeout,
        forall|i: int| 0 <= i < evs.len() ==> quiet(#[trigger] evs[i]),
        tick_count(evs) >= v.elect_timeout - v.elect_timer,
    ensures
        exists|i: int| fires_at(v, evs, i),
{
    lemma_timer_counts_ticks(v, evs, evs.len() as int);
    assert(evs.take(evs.len() as int) =~= evs);
}

/// The state after handling `msgs`, in order.
pub open spec fn run_messages(v: ServerView, msgs: Seq<(Seq<char>, RpcView)>) -> ServerView
    decreases msgs.len(),
{
    if msgs.len() == 0 {
        v
    } else {
        step(run_messages(v, msgs.drop_last()), msgs.last().0, msgs.last().1).0
    }
}

/// One vote per term, over any number of messages: when a server that has
/// voted ends a run of messages in the term it started in, its vote is
/// unchanged.
pub proof fn law_vote_kept_through_messages(v: ServerView, msgs: Seq<(Seq<char>, RpcView)>)
    requires
        v.vote.len() > 0,
        run_messages(v, msgs).curr_term == v.curr_term,
    ensures
        run_messages(v, msgs).vote == v.vote,
    decreases msgs.len(),
{
    if msgs.len() > 0 {
        let w = run_messages(v, msgs.drop_last());
        lemma_term_monotone_messages(v, msgs.drop_last());
        law_term_never_decreases(w, msgs.last().0, msgs.last().1);
        law_vote_kept_through_messages(v, msgs.drop_last());
        law_vote_kept_within_term(w, msgs.last().0, msgs.last().1);
    }
}

proof fn lemma_term_monotone_messages(v: ServerView, msgs: Seq<(Seq<char>, RpcView)>)
    ensures
        run_messages(v, msgs).curr_term >= v.curr_term,
    decreases msgs.len(),
{
    if msgs.len() > 0 {
        lemma_term_monotone_messages(v, msgs.drop_last());
        law_term_never_decreases(run_messages(v, msgs.drop_last()), msgs.last().0, msgs.last().1);
    }
}

/// The calls that change a log.
pub enum LogCall {
    Append(RaftLogEntry),
    Apply(usize),
    DeleteFrom(usize),
}

/// The log after `calls`, in order; `None` when a `delete_from` would reach
/// past the end (which panics).
pub open spec fn run_log_calls(log: Seq<RaftLogEntry>, calls: Seq<LogCall>) -> Option<Seq<RaftLogEntry>>
    decreases calls.len(),
{
    if calls.len() == 0 {
        Some(log)
    } else {
        match run_log_calls(log, calls.drop_last()) {
            None => None,
            Some(l) => match calls.last() {
                LogCall::Append(e) => Some(l.push(e)),
                LogCall::Apply(i) => Some(l),
                LogCall::DeleteFrom(i) => if i <= l.len() { Some(l.take(i as int)) } else { None },
            },
        }
    }
}

/// The sentinel stays through any calls: starting from a new log, appends,
/// applies and truncations that keep index 0 leave the sentinel at index 0,
/// so the log is never empty.
pub proof fn law_new_log_keeps_sentinel(calls: Seq<LogCall>)
    requires
        forall|k: int| 0 <= k < calls.len() ==> (#[trigger] calls[k] matches LogCall::DeleteFrom(i) ==> i >= 1),
        run_log_calls(seq![sentinel()], calls).is_some(),
    ensures
        run_log_calls(seq![sentinel()], calls).unwrap().len() >= 1,
        run_log_calls(seq![sentinel()], calls).unwrap()[0] == sentinel(),
    decreases calls.len(),
{
    if calls.len() > 0 {
        let pre = calls.drop_last();
        assert forall|k: int| 0 <= k < pre.len() implies (#[trigger] pre[k] matches LogCall::DeleteFrom(i) ==> i >= 1) by {
            assert(pre[k] == calls[k]);
        }
        law_new_log_keeps_sentinel(pre);
        let l = run_log_calls(seq![sentinel()], pre).unwrap();
        assert(calls.last() == calls[calls.len() - 1]);
        match calls.last() {
            LogCall::DeleteFrom(i) => {
                assert(l.take(i as int)[0] == l[0]);
            },
            _ => {},
        }
    }
}

/// Rule 1 of a vote: a RequestVote whose term is behind the server's is
/// refused, answered with the server's term, and leaves its vote alone.
pub proof fn law_stale_candidate_refused(v: ServerView, from: Seq<char>, term: i64, last_log_idx: usize, last_log_term: i64)
    requires
        term < v.curr_term,
    ensures
        ({
            let r = step(v, from, RpcView::RequestVote { term, last_log_idx, last_log_term });
            &&& r.1 == seq![(from, RpcView::RequestVoteResponse { term: v.curr_term, vote: false })]
            &&& r.0.vote == v.vote
            &&& r.0.curr_term == v.curr_term
        }),
{
}

/// A vote is granted only to a candidate whose term is not behind the
/// server's, when the server has not voted for anyone else in that term, and
/// whose log ends with a later term, or with the same term at an index at
/// least as high.
pub proof fn law_granted_vote_conditions(v: ServerView, from: Seq<char>, term: i64, last_log_idx: usize, last_log_term: i64)
    requires
        v.log.len() >= 1,
        step(v, from, RpcView::RequestVote { term, last_log_idx, last_log_term }).1
            == seq![(from, RpcView::RequestVoteResponse {
                term: if term > v.curr_term { term } else { v.curr_term },
                vote: true,
            })],
    ensures
        term >= v.curr_term,
        term > v.curr_term || v.vote.len() == 0 || v.vote == from,
        last_log_term > v.log[v.log.len() - 1].term
            || (last_log_term == v.log[v.log.len() - 1].term && last_log_idx >= v.log.len() - 1),
        step(v, from, RpcView::RequestVote { term, last_log_idx, last_log_term }).0.vote == from,
{
    let rpc = RpcView::RequestVote { term, last_log_idx, last_log_term };
    let r = step(v, from, rpc);
    assert(r.1[0] == (from, RpcView::RequestVoteResponse {
        term: if term > v.curr_term { term } else { v.curr_term },
        vote: true,
    }));
}

/// The leader's commit rule, stated over every index: any index past the
/// commit index whose entry is of the current term and which the leader and
/// enough peers (by their match indices) store to make a majority of the
/// servers is committed by the leader's tick.
pub proof fn law_leader_commits_every_majority_index(v: ServerView, n: int)
    requires
        v.log.len() <= usize::MAX,
        v.commit_idx < n < v.log.len(),
        v.log[n].term == v.curr_term,
        1 + count_at_least(bound_values(v.match_idx), n as usize) >= v.server_ids.len() / 2 + 1,
    ensures
        after_leader_tick(v).commit_idx >= n,
{
    assert(can_commit(v, n));
    lemma_highest_commit(v, v.log.len() - 1);
}

/// What the AppendEntries a leader sends to a peer carries: its own term and
/// commit index, an index `p` of its log with the term of its own entry at
/// `p`, and the leader's entries right after `p` (at most eight). When the
/// peer's next index `n` lies in the log, `p` is `n - 1` and at least the
/// entry at `n` is sent; otherwise it is a heartbeat after the leader's last
/// entry.
pub proof fn law_append_message_describes_leader_log(v: ServerView, k: Seq<char>)
    requires
        v.log.len() >= 1,
        v.log.len() + 9 <= usize::MAX,
        peer_get(v.next_idx, k).is_some(),
        peer_get(v.next_idx, k).unwrap() >= 1,
    ensures
        ({
            let n = peer_get(v.next_idx, k).unwrap();
            match append_for(v, k) {
                RpcView::AppendEntries { term, prev_log_idx, prev_log_term, entries, leader_commit_idx } => {
                    let p = prev_log_idx as int;
                    &&& term == v.curr_term
                    &&& leader_commit_idx == v.commit_idx
                    &&& 0 <= p < v.log.len()
                    &&& prev_log_term == v.log[p].term
                    &&& p + 1 + entries.len() <= v.log.len()
                    &&& entries == v.log.subrange(p + 1, p + 1 + entries.len())
                    &&& entries.len() <= 8
                    &&& n < v.log.len() ==> p == n - 1 && entries.len() >= 1
                    &&& n >= v.log.len() ==> p == v.log.len() - 1 && entries.len() == 0
                },
                _ => false,
            }
        }),
{
}

/// A follower whose log agrees with the leader's up to the index a leader's
/// AppendEntries follows, and whose term is not ahead, accepts it.
pub proof fn law_matching_follower_accepts(v: ServerView, k: Seq<char>, f: ServerView, from: Seq<char>)
    requires
        v.log.len() >= 1,
        v.log.len() + 9 <= usize::MAX,
        peer_get(v.next_idx, k).is_some(),
        peer_get(v.next_idx, k).unwrap() >= 1,
        f.curr_term <= v.curr_term,
        ({
            match append_for(v, k) {
                RpcView::AppendEntries { prev_log_idx, .. } =>
                    prev_log_idx < f.log.len() && f.log[prev_log_idx as int] == v.log[prev_log_idx as int],
                _ => true,
            }
        }),
    ensures
        ({
            let r = step(f, from, append_for(v, k));
            &&& r.1.len() == 1
            &&& r.1[0].1 matches RpcView::AppendEntriesResponse { result, .. } && result
        }),
{
    law_append_message_describes_leader_log(v, k);
}

/// Every message a leader's tick sends goes to another server of the cluster
/// and is the AppendEntries meant for that server.
pub proof fn law_leader_messages_go_to_peers(v: ServerView, ids: Seq<Seq<char>>)
    ensures
        forall|i: int| 0 <= i < leader_messages(v, ids).len() ==> {
            let m = #[trigger] leader_messages(v, ids)[i];
            &&& ids.contains(m.0)
            &&& m.0 != v.id
            &&& m.1 == append_for(v, m.0)
        },
    decreases ids.len(),
{
    if ids.len() > 0 {
        law_leader_messages_go_to_peers(v, ids.drop_last());
        let rest = leader_messages(v, ids.drop_last());
        assert forall|i: int| 0 <= i < leader_messages(v, ids).len() implies {
            let m = #[trigger] leader_messages(v, ids)[i];
            &&& ids.contains(m.0)
            &&& m.0 != v.id
            &&& m.1 == append_for(v, m.0)
        } by {
            if i < rest.len() {
                let m = rest[i];
                let j = choose|j: int| 0 <= j < ids.drop_last().len() && ids.drop_last()[j] == m.0;
                assert(ids[j] == m.0);
            } else {
                assert(ids[ids.len() - 1] == ids.last());
            }
        }
    }
}

/// Applying stops at the commit index: the applied index becomes the larger
/// of the commit index and the applied index, and the records persisted are
/// exactly the entries after the applied index up to the commit index, in
/// order, marked applied.
pub proof fn law_apply_stops_at_commit(v: ServerView)
    ensures
        after_apply(v).applied_idx == if v.commit_idx > v.applied_idx { v.commit_idx } else { v.applied_idx },
        v.applied_idx <= v.commit_idx ==> after_apply(v).applied_idx == v.commit_idx,
        v.applied_idx <= v.commit_idx < v.log.len() ==> {
            let recs = records(v.log, v.applied_idx as int, after_apply(v).applied_idx as int);
            &&& recs.len() == v.commit_idx - v.applied_idx
            &&& forall|k: int| 0 <= k < recs.len() ==> #[trigger] recs[k]
                == (RaftLogEntry { applied: true, ..v.log[v.applied_idx + 1 + k] })
        },
{
    if v.applied_idx <= v.commit_idx < v.log.len() {
        lemma_records_exact(v.log, v.applied_idx as int, v.commit_idx as int);
    }
}

/// Every vote request a candidate sends describes the end of its own log:
/// its term, the index of its last entry and that entry's term, and goes to
/// a server of the cluster whose vote it lacks.
pub proof fn law_vote_request_describes_candidate_log(v: ServerView)
    requires
        v.log.len() >= 1,
        v.log.len() <= usize::MAX,
    ensures
        forall|i: int| 0 <= i < canvass(v.server_ids, v.votes_recved, vote_request(v)).len() ==> {
            let m = #[trigger] canvass(v.server_ids, v.votes_recved, vote_request(v))[i];
            &&& v.server_ids.contains(m.0)
            &&& !v.votes_recved.contains(m.0)
            &&& m.1 == (RpcView::RequestVote {
                term: v.curr_term,
                last_log_idx: (v.log.len() - 1) as usize,
                last_log_term: v.log[v.log.len() - 1].term,
            })
        },
{
    lemma_canvass(v.server_ids, v.votes_recved, vote_request(v));
}

/// A server whose log equals the candidate's finds the candidate's vote
/// request up to date, and grants it when it has not voted in a term not
/// behind the candidate's.
pub proof fn law_equal_log_voter_grants(v: ServerView, w: ServerView, from: Seq<char>)
    requires
        v.log.len() >= 1,
        v.log.len() <= usize::MAX,
        w.log == v.log,
        w.curr_term <= v.curr_term,
        w.vote.len() == 0,
    ensures
        step(w, from, vote_request(v)).1
            == seq![(from, RpcView::RequestVoteResponse { term: v.curr_term, vote: true })],
{
}

/// Each message of `canvass` carries `rpc` to a name of `ids` not in `votes`.
proof fn lemma_canvass(ids: Seq<Seq<char>>, votes: Seq<Seq<char>>, rpc: RpcView)
    ensures
        forall|i: int| 0 <= i < canvass(ids, votes, rpc).len() ==> {
            let m = #[trigger] canvass(ids, votes, rpc)[i];
            &&& ids.contains(m.0)
            &&& !votes.contains(m.0)
            &&& m.1 == rpc
        },
    decreases ids.len(),
{
    if ids.len() > 0 {
        lemma_canvass(ids.drop_last(), votes, rpc);
        let rest = canvass(ids.drop_last(), votes, rpc);
        assert forall|i: int| 0 <= i < canvass(ids, votes, rpc).len() implies {
            let m = #[trigger] canvass(ids, votes, rpc)[i];
            &&& ids.contains(m.0)
            &&& !votes.contains(m.0)
            &&& m.1 == rpc
        } by {
            if i < rest.len() {
                let m = rest[i];
                let j = choose|j: int| 0 <= j < ids.drop_last().len() && ids.drop_last()[j] == m.0;
                assert(ids[j] == m.0);
            } else {
                assert(ids[ids.len() - 1] == ids.last());
            }
        }
    }
}
} // verus!
