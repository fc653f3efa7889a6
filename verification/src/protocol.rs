use vstd::prelude::*;
use crate::raftlog::{RaftLogEntry, first_opid};
use crate::rpc::{RPC, RpcView};
use crate::peers::{keys_unique, assoc_insert, peer_get, bound_values, lemma_assoc_insert};
use crate::quorum::count_at_least;
use crate::replicate::{merge, merge_consistent};

verus! {

/// Lower bound of the election timeout, in ticks; the timeout is drawn from
/// `BASE_ELECT_TIMEOUT..2 * BASE_ELECT_TIMEOUT`.
pub const BASE_ELECT_TIMEOUT: i32 = 500i32;

/// A leader or candidate sends its messages every `PING_RATE` ticks.
pub const PING_RATE: i32 = 50i32;

/// A running server crashes on a tick with probability `1 / CRASH_FREQ`.
pub const CRASH_FREQ: u32 = 60000u32;

/// A crashed server stays down for `CRASH_LENGTH` ticks.
pub const CRASH_LENGTH: i32 = 5000i32;

/// The role a server plays.
#[derive(Clone, Copy, Debug, PartialEq, Eq, Structural)]
pub enum ServerState {
    Follower,
    Candidate,
    Leader,
}

/// A message to send: the name of the receiver and the message.
pub type Outgoing = (String, RPC);

/// The content of a list of outgoing messages.
pub open spec fn sent(out: Seq<Outgoing>) -> Seq<(Seq<char>, RpcView)> {
    out.map_values(|m: Outgoing| (m.0@, m.1@))
}

/// The content of the table of pending client replies.
pub open spec fn pending_view(m: Map<usize, (String, RPC)>) -> Map<usize, (Seq<char>, RpcView)> {
    m.map_values(|p: (String, RPC)| (p.0@, p.1@))
}

/// The state of one server, as the protocol sees it.
pub struct ServerView {
    /// The server's name.
    pub id: Seq<char>,
    /// The current term.
    pub curr_term: i64,
    /// Whom the server voted for in the current term (empty: nobody).
    pub vote: Seq<char>,
    /// The local log; index 0 holds the sentinel.
    pub log: Seq<RaftLogEntry>,
    pub state: ServerState,
    /// The index of the highest committed entry.
    pub commit_idx: usize,
    /// The index of the highest applied entry.
    pub applied_idx: usize,
    /// The number of votes that wins an election.
    pub votes_needed: i32,
    /// The names whose votes a candidate received in the current election.
    pub votes_recved: Seq<Seq<char>>,
    /// For each other server, the next log index a leader sends it.
    pub next_idx: Seq<(Seq<char>, usize)>,
    /// For each other server, the highest log index a leader knows it holds.
    pub match_idx: Seq<(Seq<char>, usize)>,
    /// By log index, the client to answer, and the answer, once the entry at
    /// that index is applied.
    pub client_res: Map<usize, (Seq<char>, RpcView)>,
    /// The election timeout and the election timer, in ticks.
    pub elect_timeout: i32,
    pub elect_timer: i32,
    /// Whether the server is down, and for how many ticks it has been.
    pub crashed: bool,
    pub crash_timer: i32,
    /// The names of all servers of the cluster, this one included.
    pub server_ids: Seq<Seq<char>>,
}

/// Whether a log whose last entry has term `last_term` at index `last_idx` is
/// at least as up to date as `log`.
pub open spec fn up_to_date(log: Seq<RaftLogEntry>, last_idx: usize, last_term: i64) -> bool {
    log.last().term < last_term || (log.last().term == last_term && log.len() - 1 <= last_idx)
}

/// Whether `k` names another server of the cluster.
pub open spec fn is_peer(v: ServerView, k: Seq<char>) -> bool {
    v.server_ids.contains(k) && k != v.id
}

/// `s` with every name of `names` other than `skip` bound to `val`, in the
/// order of `names`.
pub open spec fn bind_all(
    s: Seq<(Seq<char>, usize)>,
    names: Seq<Seq<char>>,
    skip: Seq<char>,
    val: usize,
) -> Seq<(Seq<char>, usize)>
    decreases names.len(),
{
    if names.len() == 0 {
        s
    } else {
        let rest = bind_all(s, names.drop_last(), skip, val);
        if names.last() != skip {
            assoc_insert(rest, names.last(), val)
        } else {
            rest
        }
    }
}

/// Binding several names keeps the keys unique and binds exactly the admitted
/// names.
pub proof fn lemma_bind_all(s: Seq<(Seq<char>, usize)>, names: Seq<Seq<char>>, skip: Seq<char>, val: usize)
    requires
        keys_unique(s),
    ensures
        keys_unique(bind_all(s, names, skip, val)),
        forall|k: Seq<char>| #[trigger] peer_get(bind_all(s, names, skip, val), k)
            == if names.contains(k) && k != skip { Some(val) } else { peer_get(s, k) },
    decreases names.len(),
{
    if names.len() > 0 {
        let rest = bind_all(s, names.drop_last(), skip, val);
        lemma_bind_all(s, names.drop_last(), skip, val);
        if names.last() != skip {
            lemma_assoc_insert(rest, names.last(), val);
        }
        assert forall|k: Seq<char>| #[trigger] peer_get(bind_all(s, names, skip, val), k)
            == if names.contains(k) && k != skip { Some(val) } else { peer_get(s, k) } by {
            if names.contains(k) {
                let i = choose|i: int| 0 <= i < names.len() && names[i] == k;
                if i < names.len() - 1 {
                    assert(names.drop_last()[i] == k);
                }
            }
            if names.drop_last().contains(k) {
                let i = choose|i: int| 0 <= i < names.drop_last().len() && names.drop_last()[i] == k;
                assert(names[i] == k);
            }
            if k == names.last() {
                assert(names[names.len() - 1] == k);
            }
        }
    }
}

/// A server that sees term `term`: it adopts the term if it is newer, and
/// steps down when `step_down` holds or the term is newer.
pub open spec fn see_term(v: ServerView, term: i64, step_down: bool) -> ServerView {
    let v1 = if term > v.curr_term { ServerView { curr_term: term, vote: Seq::empty(), ..v } } else { v };
    if step_down || term > v.curr_term {
        ServerView { state: ServerState::Follower, ..v1 }
    } else {
        v1
    }
}

/// Whether an AppendEntries request of term `term` whose entries follow an
/// entry of term `prev_log_term` at `prev_log_idx` is accepted.
pub open spec fn accepts_append(v: ServerView, term: i64, prev_log_idx: usize, prev_log_term: i64) -> bool {
    &&& term >= v.curr_term
    &&& prev_log_idx < v.log.len()
    &&& v.log[prev_log_idx as int].term == prev_log_term
}

/// The state after an AppendEntries request: the election timer restarts;
/// an accepted request merges its entries into the log, and a commit index
/// behind the leader's moves up to the leader's, but not past the index of
/// the last entry the request carried.
pub open spec fn after_append_entries(
    v: ServerView,
    term: i64,
    prev_log_idx: usize,
    prev_log_term: i64,
    entries: Seq<RaftLogEntry>,
    leader_commit_idx: usize,
) -> ServerView {
    if accepts_append(v, term, prev_log_idx, prev_log_term) {
        let log = merge(v.log, prev_log_idx + 1, entries);
        let last_new = (prev_log_idx + entries.len()) as usize;
        ServerView {
            elect_timer: 0,
            log: log,
            commit_idx: if leader_commit_idx > v.commit_idx {
                if leader_commit_idx < last_new { leader_commit_idx } else { last_new }
            } else {
                v.commit_idx
            },
            ..v
        }
    } else {
        ServerView { elect_timer: 0, ..v }
    }
}

/// The answer to an AppendEntries request.
pub open spec fn append_entries_reply(
    v: ServerView,
    id: Seq<char>,
    term: i64,
    prev_log_idx: usize,
    prev_log_term: i64,
    entries: Seq<RaftLogEntry>,
    leader_commit_idx: usize,
) -> Seq<(Seq<char>, RpcView)> {
    let after = after_append_entries(v, term, prev_log_idx, prev_log_term, entries, leader_commit_idx);
    seq![(id, RpcView::AppendEntriesResponse {
        term: v.curr_term,
        idx: (after.log.len() - 1) as usize,
        result: accepts_append(v, term, prev_log_idx, prev_log_term),
    })]
}

/// Whether a candidate `id` of term `term`, whose log ends with an entry of
/// term `last_log_term` at `last_log_idx`, gets the server's vote.
pub open spec fn grants_vote(v: ServerView, id: Seq<char>, term: i64, last_log_idx: usize, last_log_term: i64) -> bool {
    &&& term >= v.curr_term
    &&& (v.vote.len() == 0 || v.vote == id)
    &&& up_to_date(v.log, last_log_idx, last_log_term)
}

/// The state after a RequestVote: a granted vote is recorded.
pub open spec fn after_request_vote(v: ServerView, id: Seq<char>, term: i64, last_log_idx: usize, last_log_term: i64) -> ServerView {
    if grants_vote(v, id, term, last_log_idx, last_log_term) {
        ServerView { vote: id, ..v }
    } else {
        v
    }
}

/// The answer to a RequestVote.
pub open spec fn vote_reply(v: ServerView, id: Seq<char>, term: i64, last_log_idx: usize, last_log_term: i64) -> Seq<(Seq<char>, RpcView)> {
    seq![(id, RpcView::RequestVoteResponse {
        term: v.curr_term,
        vote: grants_vote(v, id, term, last_log_idx, last_log_term),
    })]
}

/// The state after a client request.
pub open spec fn after_client_request(v: ServerView, id: Seq<char>, opid: i64) -> ServerView {
    let yes = (id, RpcView::ClientResponse { opid, success: true });
    if v.state == ServerState::Leader {
        match first_opid(v.log, opid) {
            Some(i) => if v.log[i].applied {
                v
            } else {
                ServerView { client_res: v.client_res.insert(i as usize, yes), ..v }
            },
            None => ServerView {
                log: v.log.push(RaftLogEntry::fresh(opid, v.curr_term)),
                client_res: v.client_res.insert(v.log.len() as usize, yes),
                ..v
            },
        }
    } else {
        v
    }
}

/// What a server answers a client request at once.
pub open spec fn client_reply(v: ServerView, id: Seq<char>, opid: i64) -> Seq<(Seq<char>, RpcView)> {
    if v.state == ServerState::Leader {
        match first_opid(v.log, opid) {
            Some(i) => if v.log[i].applied {
                seq![(id, RpcView::ClientResponse { opid, success: true })]
            } else {
                Seq::empty()
            },
            None => Seq::empty(),
        }
    } else {
        seq![(id, RpcView::ClientResponse { opid, success: false })]
    }
}

/// The state after a vote from `id`.
pub open spec fn after_vote_response(v: ServerView, id: Seq<char>, term: i64, vote: bool) -> ServerView {
    if term > v.curr_term {
        ServerView { curr_term: term, vote: Seq::empty(), state: ServerState::Follower, ..v }
    } else if v.state == ServerState::Candidate {
        let votes = if vote && !v.votes_recved.contains(id) { v.votes_recved.push(id) } else { v.votes_recved };
        let counted = ServerView { votes_recved: votes, ..v };
        if votes.len() >= v.votes_needed as usize {
            leader_of(counted)
        } else {
            counted
        }
    } else {
        v
    }
}

/// The state `become_leader` turns `v` into.
pub open spec fn leader_of(v: ServerView) -> ServerView {
    ServerView {
        log: v.log.push(RaftLogEntry::fresh(0, v.curr_term)),
        elect_timer: -1i32,
        next_idx: bind_all(v.next_idx, v.server_ids, v.id, (v.log.len() + 1) as usize),
        match_idx: bind_all(v.match_idx, v.server_ids, v.id, 0),
        state: ServerState::Leader,
        ..v
    }
}

/// The state after `id` answered an AppendEntries request.
pub open spec fn after_append_response(v: ServerView, id: Seq<char>, term: i64, idx: usize, result: bool) -> ServerView {
    if term > v.curr_term {
        ServerView { curr_term: term, vote: Seq::empty(), state: ServerState::Follower, ..v }
    } else if result {
        let m = peer_get(v.match_idx, id).unwrap();
        let n = peer_get(v.next_idx, id).unwrap();
        ServerView {
            match_idx: assoc_insert(v.match_idx, id, if m > idx { m } else { idx }),
            next_idx: assoc_insert(v.next_idx, id, if n > idx + 1 { n } else { (idx + 1) as usize }),
            ..v
        }
    } else {
        let n = peer_get(v.next_idx, id).unwrap();
        ServerView { next_idx: assoc_insert(v.next_idx, id, (n - 1) as usize), ..v }
    }
}

/// The answer to a request for the log from `start_idx` on.
pub open spec fn request_log_reply(v: ServerView, id: Seq<char>, start_idx: usize) -> Seq<(Seq<char>, RpcView)> {
    let len = v.log.len();
    let start = if start_idx < len { start_idx as int } else { len as int };
    let end = if start + 9 < len { start + 9 } else { len as int };
    seq![(id, RpcView::RequestLogResponse {
        end_idx: end as usize,
        log_len: len as usize,
        applied_idx: v.applied_idx,
        entries: v.log.subrange(start, end),
    })]
}

/// The messages a server handles, and what each needs to be handled
/// without a panic: a client's answer or a log dump is never sent to a
/// server, the entries received must agree with the log where the terms
/// do, and a response about a peer needs that peer's indices.
pub open spec fn step_allowed(v: ServerView, from: Seq<char>, rpc: RpcView) -> bool {
    match rpc {
        RpcView::AppendEntries { term, prev_log_idx, prev_log_term, entries, leader_commit_idx } => {
            &&& v.log.len() + entries.len() < usize::MAX
            &&& accepts_append(see_term(v, term, true), term, prev_log_idx, prev_log_term)
                ==> merge_consistent(v.log, prev_log_idx + 1, entries)
        },
        RpcView::RequestVote { .. } => true,
        RpcView::ClientRequest { .. } => v.log.len() < usize::MAX,
        RpcView::RequestVoteResponse { .. } => v.log.len() < usize::MAX,
        RpcView::AppendEntriesResponse { term, idx, result } => {
            &&& term <= v.curr_term && result ==> {
                &&& peer_get(v.match_idx, from).is_some()
                &&& peer_get(v.next_idx, from).is_some()
                &&& idx < usize::MAX
            }
            &&& term <= v.curr_term && !result ==> {
                &&& peer_get(v.next_idx, from).is_some()
                &&& peer_get(v.next_idx, from).unwrap() >= 1
            }
        },
        RpcView::RequestLog { .. } => v.log.len() + 9 <= usize::MAX,
        RpcView::ClientResponse { .. } => false,
        RpcView::RequestLogResponse { .. } => false,
    }
}

/// The state after handling `rpc` from `from`, and the messages sent in
/// answer.
pub open spec fn step(v: ServerView, from: Seq<char>, rpc: RpcView) -> (ServerView, Seq<(Seq<char>, RpcView)>) {
    match rpc {
        RpcView::AppendEntries { term, prev_log_idx, prev_log_term, entries, leader_commit_idx } => {
            let v1 = see_term(v, term, true);
            (
                after_append_entries(v1, term, prev_log_idx, prev_log_term, entries, leader_commit_idx),
                append_entries_reply(v1, from, term, prev_log_idx, prev_log_term, entries, leader_commit_idx),
            )
        },
        RpcView::RequestVote { term, last_log_idx, last_log_term } => {
            let v1 = see_term(v, term, false);
            (
                after_request_vote(v1, from, term, last_log_idx, last_log_term),
                vote_reply(v1, from, term, last_log_idx, last_log_term),
            )
        },
        RpcView::ClientRequest { opid } => (after_client_request(v, from, opid), client_reply(v, from, opid)),
        RpcView::RequestVoteResponse { term, vote } => (after_vote_response(v, from, term, vote), Seq::empty()),
        RpcView::AppendEntriesResponse { term, idx, result } =>
            (after_append_response(v, from, term, idx, result), Seq::empty()),
        RpcView::RequestLog { start_idx } => (v, request_log_reply(v, from, start_idx)),
        _ => (v, Seq::empty()),
    }
}

/// The vote request a candidate sends.
pub open spec fn vote_request(v: ServerView) -> RpcView {
    RpcView::RequestVote {
        term: v.curr_term,
        last_log_idx: (v.log.len() - 1) as usize,
        last_log_term: v.log.last().term,
    }
}

/// `rpc` addressed to each name of `ids` that is not in `votes`, in order.
pub open spec fn canvass(ids: Seq<Seq<char>>, votes: Seq<Seq<char>>, rpc: RpcView) -> Seq<(Seq<char>, RpcView)>
    decreases ids.len(),
{
    if ids.len() == 0 {
        Seq::empty()
    } else {
        let rest = canvass(ids.drop_last(), votes, rpc);
        if !votes.contains(ids.last()) {
            rest.push((ids.last(), rpc))
        } else {
            rest
        }
    }
}

/// The AppendEntries message a leader in state `v` sends to `k`.
pub open spec fn append_for(v: ServerView, k: Seq<char>) -> RpcView {
    let n = peer_get(v.next_idx, k).unwrap();
    let last = (v.log.len() - 1) as usize;
    if last >= n {
        let prev = (n - 1) as usize;
        let end = if v.log.len() < prev + 9 { v.log.len() as int } else { prev + 9 };
        RpcView::AppendEntries {
            term: v.curr_term,
            prev_log_idx: prev,
            prev_log_term: v.log[prev as int].term,
            entries: v.log.subrange(prev + 1, end),
            leader_commit_idx: v.commit_idx,
        }
    } else {
        RpcView::AppendEntries {
            term: v.curr_term,
            prev_log_idx: last,
            prev_log_term: v.log[last as int].term,
            entries: Seq::empty(),
            leader_commit_idx: v.commit_idx,
        }
    }
}

/// The messages a leader in state `v` sends to the names of `ids` other than
/// its own, in order.
pub open spec fn leader_messages(v: ServerView, ids: Seq<Seq<char>>) -> Seq<(Seq<char>, RpcView)>
    decreases ids.len(),
{
    if ids.len() == 0 {
        Seq::empty()
    } else {
        let rest = leader_messages(v, ids.drop_last());
        if ids.last() != v.id {
            rest.push((ids.last(), append_for(v, ids.last())))
        } else {
            rest
        }
    }
}

/// Every other server has a next index of at least 1, and the log is far
/// enough from the largest index to slice eight entries past any of them.
pub open spec fn peers_reachable(v: ServerView) -> bool {
    &&& forall|k: Seq<char>| #[trigger] is_peer(v, k) ==> {
        &&& peer_get(v.next_idx, k).is_some()
        &&& peer_get(v.next_idx, k).unwrap() >= 1
    }
    &&& v.log.len() + 9 <= usize::MAX
}

/// The number of votes, or of copies of an entry, that make a majority of
/// the cluster's servers.
pub open spec fn majority(v: ServerView) -> int {
    (v.server_ids.len() / 2 + 1) as int
}

/// How many servers are known to store the log up to index `n`: the leader
/// itself and every peer whose match index reaches `n`.
pub open spec fn replicated_on(v: ServerView, n: usize) -> int {
    (1 + count_at_least(bound_values(v.match_idx), n)) as int
}

/// Whether a leader may commit up to index `n`: it is past the commit index,
/// within the log, of the current term, and stored on a majority of servers.
pub open spec fn can_commit(v: ServerView, n: int) -> bool {
    &&& v.commit_idx < n < v.log.len()
    &&& v.log[n].term == v.curr_term
    &&& replicated_on(v, n as usize) >= majority(v)
}

/// The highest index up to `hi` that a leader may commit, or the commit
/// index when there is none.
pub open spec fn highest_commit(v: ServerView, hi: int) -> int
    decreases hi - v.commit_idx,
{
    if hi <= v.commit_idx {
        v.commit_idx as int
    } else if can_commit(v, hi) {
        hi
    } else {
        highest_commit(v, hi - 1)
    }
}

/// What a leader's tick needs to run without a panic: when it sends, the
/// peers it sends to are known.
pub open spec fn leader_tick_allowed(v: ServerView) -> bool {
    v.elect_timer % PING_RATE == 0 ==> peers_reachable(v)
}

/// The state after a leader's tick: the timer restarts when it sends, and
/// the commit index moves to the highest index it may commit.
pub open spec fn after_leader_tick(v: ServerView) -> ServerView {
    let v1 = if v.elect_timer % PING_RATE == 0 { ServerView { elect_timer: 0, ..v } } else { v };
    ServerView { commit_idx: highest_commit(v, v.log.len() - 1) as usize, ..v1 }
}

/// One tick of the election timer: when it reaches the election timeout the
/// server starts an election.
pub open spec fn after_timer_tick(v: ServerView) -> ServerView {
    if v.elect_timer + 1 >= v.elect_timeout {
        ServerView {
            curr_term: (v.curr_term + 1) as i64,
            vote: v.id,
            votes_recved: seq![v.id],
            elect_timer: 0,
            state: ServerState::Candidate,
            ..v
        }
    } else {
        ServerView { elect_timer: (v.elect_timer + 1) as i32, ..v }
    }
}

/// The log indices after `from` up to and including `to`.
pub open spec fn applied_between(from: int, to: int) -> Set<usize> {
    Set::new(|j: usize| from < j <= to)
}

/// The records persisted when the entries after `from` up to and including
/// `to` are applied: each entry that exists, marked as applied.
pub open spec fn records(log: Seq<RaftLogEntry>, from: int, to: int) -> Seq<RaftLogEntry>
    decreases to - from,
{
    if to <= from {
        Seq::empty()
    } else {
        let rest = records(log, from, to - 1);
        if 0 <= to < log.len() {
            rest.push(RaftLogEntry { applied: true, ..log[to] })
        } else {
            rest
        }
    }
}

/// The pending replies for the entries after `from` up to and including
/// `to`, in index order.
pub open spec fn replies(res: Map<usize, (Seq<char>, RpcView)>, from: int, to: int) -> Seq<(Seq<char>, RpcView)>
    decreases to - from,
{
    if to <= from {
        Seq::empty()
    } else {
        let rest = replies(res, from, to - 1);
        if 0 <= to <= usize::MAX && res.contains_key(to as usize) {
            rest.push(res[to as usize])
        } else {
            rest
        }
    }
}

/// The state after the committed entries are applied.
pub open spec fn after_apply(v: ServerView) -> ServerView {
    let target = if v.commit_idx > v.applied_idx { v.commit_idx } else { v.applied_idx };
    ServerView {
        applied_idx: target,
        client_res: if v.state == ServerState::Leader {
            v.client_res.remove_keys(applied_between(v.applied_idx as int, target as int))
        } else {
            v.client_res
        },
        ..v
    }
}

} // verus!
