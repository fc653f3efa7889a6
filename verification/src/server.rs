use vstd::prelude::*;
use std::collections::HashMap;
use crate::raftlog::{RaftLog, RaftLogEntry, is_first_opid, lemma_first_opid, lemma_no_opid};
use crate::rpc::{
    RPC, RpcView, make_append_entries, make_append_entries_response, make_request_vote,
    make_request_vote_response, make_client_response, make_request_log_response,
};
use crate::peers::{PeerMap, keys_unique, peer_get, bound_values};
use crate::random::{random_in_range, random_u32};
use crate::quorum::count_reaching;
use crate::protocol::{
    BASE_ELECT_TIMEOUT, PING_RATE, CRASH_FREQ, CRASH_LENGTH, ServerState, Outgoing, sent,
    pending_view, ServerView, up_to_date, is_peer, bind_all, lemma_bind_all, accepts_append,
    after_append_entries, append_entries_reply, after_request_vote, vote_reply,
    after_client_request, client_reply, after_vote_response, leader_of, after_append_response,
    request_log_reply, step_allowed, step, vote_request, canvass, append_for, leader_messages,
    peers_reachable, highest_commit, can_commit, leader_tick_allowed, after_leader_tick, after_timer_tick,
    applied_between, records, replies, after_apply,
};
use crate::replicate::{merge_consistent, merge_entries, lemma_merge, is_merge_consistent};

verus! {

broadcast use vstd::std_specs::hash::group_hash_axioms;

/// Whether `names` holds `name`.
fn contains_name(names: &Vec<String>, name: &String) -> (r: bool)
    ensures
        r == names@.map_values(|s: String| s@).contains(name@),
{
    let ghost view = names@.map_values(|s: String| s@);
    let mut i: usize = 0;
    while i < names.len()
        invariant
            i <= names@.len(),
            view == names@.map_values(|s: String| s@),
            forall|j: int| 0 <= j < i ==> view[j] != name@,
        decreases names@.len() - i,
    {
        if names[i] == *name {
            assert(view[i as int] == name@);
            return true;
        }
        i = i + 1;
    }
    false
}

/// Whether the number `x` drawn for a tick means a crash.
pub fn crash_roll(x: u32) -> (r: bool)
    ensures
        r == (x % CRASH_FREQ == 0),
{
    x % CRASH_FREQ == 0
}

pub struct Server {
    pub id: String,
    curr_term: i64,
    vote: String,
    log: RaftLog,
    state: ServerState,
    commit_idx: usize,
    applied_idx: usize,
    votes_needed: i32,
    votes_recved: Vec<String>,
    next_idx: PeerMap,
    match_idx: PeerMap,
    client_res: HashMap<usize, (String, RPC)>,
    elect_timeout: i32,
    elect_timer: i32,
    crashed: bool,
    crash_timer: i32,
    server_ids: Vec<String>,
}

impl View for Server {
    type V = ServerView;

    closed spec fn view(&self) -> ServerView {
        ServerView {
            id: self.id@,
            curr_term: self.curr_term,
            vote: self.vote@,
            log: self.log@,
            state: self.state,
            commit_idx: self.commit_idx,
            applied_idx: self.applied_idx,
            votes_needed: self.votes_needed,
            votes_recved: self.votes_recved@.map_values(|s: String| s@),
            next_idx: self.next_idx@,
            match_idx: self.match_idx@,
            client_res: pending_view(self.client_res@),
            elect_timeout: self.elect_timeout,
            elect_timer: self.elect_timer,
            crashed: self.crashed,
            crash_timer: self.crash_timer,
            server_ids: self.server_ids@.map_values(|s: String| s@),
        }
    }
}

impl Server {
    /// The server's invariant: its log always holds at least the sentinel,
    /// and each peer table binds every name at most once.
    pub open spec fn wf(&self) -> bool {
        &&& self@.log.len() >= 1
        &&& keys_unique(self@.next_idx)
        &&& keys_unique(self@.match_idx)
    }

    /// The path of the file the server's log is persisted to.
    pub closed spec fn log_path(&self) -> Seq<char> {
        self.log.spec_path()
    }

    /// A follower in term 0 that has voted for nobody, with the given log,
    /// cluster and election timeout.
    pub fn with_timeout(id: String, log: RaftLog, server_ids: Vec<String>, elect_timeout: i32) -> (s: Server)
        requires
            log@.len() >= 1,
            server_ids@.len() < i32::MAX,
        ensures
            s.wf(),
            s@ == (ServerView {
                id: id@,
                curr_term: 0,
                vote: Seq::empty(),
                log: log@,
                state: ServerState::Follower,
                commit_idx: 0,
                applied_idx: 0,
                votes_needed: (server_ids@.len() / 2 + 1) as i32,
                votes_recved: Seq::empty(),
                next_idx: Seq::empty(),
                match_idx: Seq::empty(),
                client_res: Map::empty(),
                elect_timeout,
                elect_timer: 0,
                crashed: false,
                crash_timer: 0,
                server_ids: server_ids@.map_values(|x: String| x@),
            }),
            s.log_path() == log.spec_path(),
    {
        let n: i32 = server_ids.len() as i32;
        let s = Server {
            id: id,
            curr_term: 0,
            vote: String::new(),
            log: log,
            state: ServerState::Follower,
            commit_idx: 0,
            applied_idx: 0,
            votes_needed: n / 2 + 1,
            votes_recved: Vec::new(),
            next_idx: PeerMap::new(),
            match_idx: PeerMap::new(),
            client_res: HashMap::new(),
            elect_timeout: elect_timeout,
            elect_timer: 0,
            crashed: false,
            crash_timer: 0,
            server_ids: server_ids,
        };
        assert(s@.votes_recved =~= Seq::<Seq<char>>::empty());
        assert(s@.client_res =~= Map::<usize, (Seq<char>, RpcView)>::empty());
        s
    }

    /// A new server whose election timeout is drawn at random from
    /// `BASE_ELECT_TIMEOUT..2 * BASE_ELECT_TIMEOUT`.
    pub fn new(id: String, log: RaftLog, server_ids: Vec<String>) -> (s: Server)
        requires
            log@.len() >= 1,
            server_ids@.len() < i32::MAX,
        ensures
            s.wf(),
            BASE_ELECT_TIMEOUT <= s@.elect_timeout < 2 * BASE_ELECT_TIMEOUT,
            s@ == (ServerView { elect_timeout: s@.elect_timeout, ..Server::with_timeout_spec(id@, log@, server_ids@) }),
    {
        let t: i32 = random_in_range(BASE_ELECT_TIMEOUT, 2 * BASE_ELECT_TIMEOUT);
        Server::with_timeout(id, log, server_ids, t)
    }

    /// The state `with_timeout` builds, with a timeout of 0.
    pub open spec fn with_timeout_spec(id: Seq<char>, log: Seq<RaftLogEntry>, server_ids: Seq<String>) -> ServerView {
        ServerView {
            id: id,
            curr_term: 0,
            vote: Seq::empty(),
            log: log,
            state: ServerState::Follower,
            commit_idx: 0,
            applied_idx: 0,
            votes_needed: (server_ids.len() / 2 + 1) as i32,
            votes_recved: Seq::empty(),
            next_idx: Seq::empty(),
            match_idx: Seq::empty(),
            client_res: Map::empty(),
            elect_timeout: 0,
            elect_timer: 0,
            crashed: false,
            crash_timer: 0,
            server_ids: server_ids.map_values(|x: String| x@),
        }
    }
}

/// Binds every name of `ids` other than `me` to `val`.
fn bind_peers(map: &mut PeerMap, ids: &Vec<String>, me: &String, val: usize)
    requires
        old(map).wf(),
    ensures
        final(map).wf(),
        final(map)@ == bind_all(old(map)@, ids@.map_values(|s: String| s@), me@, val),
{
    let ghost names = ids@.map_values(|s: String| s@);
    let ghost m0 = map@;
    proof {
        lemma_bind_all(m0, names.take(0), me@, val);
        assert(names.take(0) =~= Seq::<Seq<char>>::empty());
    }
    let mut i: usize = 0;
    while i < ids.len()
        invariant
            i <= ids@.len(),
            names == ids@.map_values(|s: String| s@),
            m0 == old(map)@,
            keys_unique(m0),
            map@ == bind_all(m0, names.take(i as int), me@, val),
            map.wf(),
        decreases ids@.len() - i,
    {
        let name = ids[i].clone();
        proof {
            assert(names.take(i + 1).drop_last() =~= names.take(i as int));
            assert(names.take(i + 1).last() == name@);
            lemma_bind_all(m0, names.take(i + 1), me@, val);
        }
        if name != *me {
            map.insert(name, val);
        }
        i = i + 1;
    }
    proof {
        assert(names.take(names.len() as int) =~= names);
    }
}

impl Server {
    /// Moves to the newer term `term`, in which the server has not voted yet.
    fn adopt_term(&mut self, term: i64)
        ensures
            final(self)@ == (ServerView { curr_term: term, vote: Seq::empty(), ..old(self)@ }),
            final(self).log_path() == old(self).log_path(),
    {
        self.curr_term = term;
        self.vote = String::new();
    }

    /// Steps down: the server becomes a follower. Its vote stands, for it
    /// was cast in the term the server is still in.
    pub fn become_follower(&mut self)
        ensures
            final(self)@ == (ServerView { state: ServerState::Follower, ..old(self)@ }),
            final(self).log_path() == old(self).log_path(),
    {
        self.state = ServerState::Follower;
    }

    /// Starts an election: a new term, a vote for itself, and its own vote
    /// as the only one received.
    pub fn become_candidate(&mut self)
        requires
            old(self)@.curr_term < i64::MAX,
        ensures
            final(self)@ == (ServerView {
                curr_term: (old(self)@.curr_term + 1) as i64,
                vote: old(self)@.id,
                votes_recved: seq![old(self)@.id],
                elect_timer: 0,
                state: ServerState::Candidate,
                ..old(self)@
            }),
            final(self).log_path() == old(self).log_path(),
    {
        self.curr_term = self.curr_term + 1;
        self.vote = self.id.clone();
        self.votes_recved = Vec::new();
        self.votes_recved.push(self.id.clone());
        self.elect_timer = 0;
        self.state = ServerState::Candidate;
        assert(self@.votes_recved =~= seq![old(self)@.id]);
    }

    /// Takes the lead: appends a no-op entry of the current term, expects
    /// every other server to need the entries from the end of the log on,
    /// and knows of no entry that any of them holds.
    pub fn become_leader(&mut self)
        requires
            old(self).wf(),
            old(self)@.log.len() < usize::MAX,
        ensures
            final(self).wf(),
            final(self)@ == leader_of(old(self)@),
            final(self).log_path() == old(self).log_path(),
    {
        self.log.append(RaftLogEntry::new(0, self.curr_term));
        let last_log_idx: usize = self.log.len() - 1;
        self.elect_timer = -1;
        bind_peers(&mut self.next_idx, &self.server_ids, &self.id, last_log_idx + 1);
        bind_peers(&mut self.match_idx, &self.server_ids, &self.id, 0);
        self.state = ServerState::Leader;
    }

    /// Answers an AppendEntries request from `id`. The request is accepted
    /// when its term is not behind the server's and the server's log holds an
    /// entry of term `prev_log_term` at `prev_log_idx`; then the entries are
    /// merged into the log after that index, and a commit index behind the
    /// leader's moves up to it, but not past the index of the last entry the
    /// request carried. Either way the election timer
    /// restarts and `id` is told the outcome, the server's term and the index
    /// of its last entry.
    pub fn handle_recv_append_entries(
        &mut self,
        id: String,
        term: i64,
        prev_log_idx: usize,
        prev_log_term: i64,
        entries: Vec<RaftLogEntry>,
        leader_commit_idx: usize,
    ) -> (out: Vec<Outgoing>)
        requires
            old(self).wf(),
            old(self)@.log.len() + entries@.len() < usize::MAX,
            accepts_append(old(self)@, term, prev_log_idx, prev_log_term)
                ==> merge_consistent(old(self)@.log, prev_log_idx + 1, entries@),
        ensures
            final(self).wf(),
            final(self)@ == after_append_entries(old(self)@, term, prev_log_idx, prev_log_term, entries@, leader_commit_idx),
            sent(out@) == append_entries_reply(old(self)@, id@, term, prev_log_idx, prev_log_term, entries@, leader_commit_idx),
            final(self).log_path() == old(self).log_path(),
    {
        self.elect_timer = 0;
        let success = term >= self.curr_term && match self.log.get(prev_log_idx) {
            Some(entry) => entry.term == prev_log_term,
            None => false,
        };
        if success {
            proof { lemma_merge(self.log@, prev_log_idx + 1, entries@); }
            let last_new: usize = prev_log_idx + entries.len();
            merge_entries(&mut self.log, prev_log_idx + 1, &entries);
            if leader_commit_idx > self.commit_idx {
                self.commit_idx = if leader_commit_idx < last_new { leader_commit_idx } else { last_new };
            }
        }
        let response = make_append_entries_response(self.curr_term, self.log.len() - 1, success);
        let mut out: Vec<Outgoing> = Vec::new();
        out.push((id, response));
        assert(sent(out@) =~= seq![(id@, response@)]);
        out
    }

    /// Answers a RequestVote from candidate `id`. The vote is granted when
    /// the candidate's term is not behind the server's, the server has voted
    /// for nobody or for `id` already, and the candidate's log is at least as
    /// up to date as the server's; a granted vote is recorded.
    pub fn handle_recv_request_vote(&mut self, id: String, term: i64, last_log_idx: usize, last_log_term: i64) -> (out: Vec<Outgoing>)
        requires
            old(self).wf(),
        ensures
            final(self).wf(),
            final(self)@ == after_request_vote(old(self)@, id@, term, last_log_idx, last_log_term),
            sent(out@) == vote_reply(old(self)@, id@, term, last_log_idx, last_log_term),
            final(self).log_path() == old(self).log_path(),
    {
        let self_last_log_term: i64 = self.log.get_last().term;
        let self_last_log_idx: usize = self.log.len() - 1;
        let up_to_date = (self_last_log_term < last_log_term) || (self_last_log_term == last_log_term && self_last_log_idx <= last_log_idx);
        let success = (term >= self.curr_term) && (self.vote.as_str().is_empty() || self.vote == id) && up_to_date;
        if success {
            self.vote = id.clone();
        }
        let response = make_request_vote_response(self.curr_term, success);
        let mut out: Vec<Outgoing> = Vec::new();
        out.push((id, response));
        assert(sent(out@) =~= seq![(id@, response@)]);
        out
    }

    /// Handles a request from client `id` for operation `opid`. A leader
    /// answers at once when the operation is already in its log and applied,
    /// remembers to answer when the entry that carries it gets applied when
    /// it is in the log but not yet applied, and otherwise appends a new
    /// entry for it and remembers to answer when that entry is applied. A
    /// server that is not the leader turns the client away.
    pub fn handle_recv_client_request(&mut self, id: String, opid: i64) -> (out: Vec<Outgoing>)
        requires
            old(self).wf(),
            old(self)@.log.len() < usize::MAX,
        ensures
            final(self).wf(),
            final(self)@ == after_client_request(old(self)@, id@, opid),
            sent(out@) == client_reply(old(self)@, id@, opid),
            final(self).log_path() == old(self).log_path(),
    {
        let mut out: Vec<Outgoing> = Vec::new();
        if self.state == ServerState::Leader {
            let response = make_client_response(opid, true);
            let ghost yes = (id@, response@);
            match self.log.contains(opid) {
                Some(true) => {
                    proof {
                        let i = choose|i: int| is_first_opid(self.log@, opid, i) && self.log@[i].applied == true;
                        lemma_first_opid(self.log@, opid, i);
                    }
                    out.push((id, response));
                    assert(sent(out@) =~= seq![yes]);
                },
                Some(false) => {
                    let i: usize = self.log.idxof(opid).unwrap();
                    proof { lemma_first_opid(self.log@, opid, i as int); }
                    self.client_res.insert(i, (id, response));
                    assert(self@.client_res =~= old(self)@.client_res.insert(i, yes));
                },
                None => {
                    proof { lemma_no_opid(self.log@, opid); }
                    self.log.append(RaftLogEntry::new(opid, self.curr_term));
                    let last: usize = self.log.len() - 1;
                    self.client_res.insert(last, (id, response));
                    assert(self@.client_res =~= old(self)@.client_res.insert(last, yes));
                },
            }
        } else {
            let response = make_client_response(opid, false);
            out.push((id, response));
            assert(sent(out@) =~= seq![(id@, response@)]);
        }
        out
    }

    /// Handles a vote from `id`. A newer term makes the server a follower of
    /// that term. A candidate counts a granted vote once per voter and takes
    /// the lead when it has as many votes as it needs; any other server
    /// ignores the vote.
    pub fn handle_recv_request_vote_response(&mut self, id: String, term: i64, vote: bool)
        requires
            old(self).wf(),
            old(self)@.log.len() < usize::MAX,
        ensures
            final(self).wf(),
            final(self)@ == after_vote_response(old(self)@, id@, term, vote),
            final(self).log_path() == old(self).log_path(),
    {
        if term > self.curr_term {
            self.adopt_term(term);
            self.become_follower();
        } else if self.state == ServerState::Candidate {
            if vote && !contains_name(&self.votes_recved, &id) {
                self.votes_recved.push(id);
                assert(self@.votes_recved =~= old(self)@.votes_recved.push(id@));
            }
            if self.votes_recved.len() >= self.votes_needed as usize {
                self.become_leader();
            }
        }
    }

    /// Handles the answer of `id` to an AppendEntries request. A newer term
    /// makes the server a follower of that term. A success raises what the
    /// server knows `id` holds to `idx` and the next index to send it past
    /// `idx`; a failure steps the next index to send back by one.
    pub fn handle_recv_append_entries_response(&mut self, id: String, term: i64, idx: usize, result: bool)
        requires
            old(self).wf(),
            term <= old(self)@.curr_term && result ==> {
                &&& peer_get(old(self)@.match_idx, id@).is_some()
                &&& peer_get(old(self)@.next_idx, id@).is_some()
                &&& idx < usize::MAX
            },
            term <= old(self)@.curr_term && !result ==> {
                &&& peer_get(old(self)@.next_idx, id@).is_some()
                &&& peer_get(old(self)@.next_idx, id@).unwrap() >= 1
            },
        ensures
            final(self).wf(),
            final(self)@ == after_append_response(old(self)@, id@, term, idx, result),
            final(self).log_path() == old(self).log_path(),
    {
        if term > self.curr_term {
            self.adopt_term(term);
            self.become_follower();
        } else if result {
            let m: usize = self.match_idx.get(&id).unwrap();
            let n: usize = self.next_idx.get(&id).unwrap();
            let id2 = id.clone();
            self.match_idx.insert(id, if m > idx { m } else { idx });
            self.next_idx.insert(id2, if n > idx + 1 { n } else { idx + 1 });
        } else {
            let n: usize = self.next_idx.get(&id).unwrap();
            self.next_idx.insert(id, n - 1);
        }
    }

    /// Answers a request from `id` for the log from `start_idx` on: at most
    /// nine entries from there (`start_idx` capped at the log's length), the
    /// index after the last one sent, the log's length and the applied index.
    pub fn handle_recv_request_log(&self, id: String, start_idx: usize) -> (out: Vec<Outgoing>)
        requires
            self@.log.len() + 9 <= usize::MAX,
        ensures
            sent(out@) == request_log_reply(self@, id@, start_idx),
    {
        let len: usize = self.log.len();
        let start: usize = if start_idx < len { start_idx } else { len };
        let end: usize = if start + 9 < len { start + 9 } else { len };
        let entries = self.log.entries_between(start, end);
        let response = make_request_log_response(end, len, self.applied_idx, entries);
        let mut out: Vec<Outgoing> = Vec::new();
        out.push((id, response));
        assert(sent(out@) =~= seq![(id@, response@)]);
        out
    }

    /// Handles one message from `from`: AppendEntries and RequestVote first
    /// bring the server up to a newer term (an AppendEntries, which only a
    /// leader sends, always makes it a follower), then every message goes to
    /// its handler. Returns the messages to send in answer.
    pub fn recv_rpc(&mut self, from: String, rpc: RPC) -> (out: Vec<Outgoing>)
        requires
            old(self).wf(),
            step_allowed(old(self)@, from@, rpc@),
        ensures
            final(self).wf(),
            (final(self)@, sent(out@)) == step(old(self)@, from@, rpc@),
            final(self).log_path() == old(self).log_path(),
    {
        match rpc {
            RPC::AppendEntries { term, prev_log_idx, prev_log_term, entries, leader_commit_idx } => {
                if term > self.curr_term {
                    self.adopt_term(term);
                }
                self.become_follower();
                self.handle_recv_append_entries(from, term, prev_log_idx, prev_log_term, entries, leader_commit_idx)
            },
            RPC::RequestVote { term, last_log_idx, last_log_term } => {
                if term > self.curr_term {
                    self.adopt_term(term);
                    self.become_follower();
                }
                self.handle_recv_request_vote(from, term, last_log_idx, last_log_term)
            },
            RPC::ClientRequest { opid } => {
                self.handle_recv_client_request(from, opid)
            },
            RPC::RequestVoteResponse { term, vote } => {
                self.handle_recv_request_vote_response(from, term, vote);
                let out: Vec<Outgoing> = Vec::new();
                assert(sent(out@) =~= Seq::empty());
                out
            },
            RPC::AppendEntriesResponse { term, idx, result } => {
                self.handle_recv_append_entries_response(from, term, idx, result);
                let out: Vec<Outgoing> = Vec::new();
                assert(sent(out@) =~= Seq::empty());
                out
            },
            RPC::RequestLog { start_idx } => {
                self.handle_recv_request_log(from, start_idx)
            },
            RPC::ClientResponse { .. } => {
                proof { assert(false); }
                Vec::new()
            },
            RPC::RequestLogResponse { .. } => {
                proof { assert(false); }
                Vec::new()
            },
        }
    }

    /// A follower does nothing on its own.
    pub fn tick_follower(&self) {
    }

    /// Every `PING_RATE` ticks a candidate asks each server whose vote it
    /// has not received yet for its vote.
    pub fn tick_candidate(&self) -> (out: Vec<Outgoing>)
        requires
            self.wf(),
        ensures
            sent(out@) == if self@.elect_timer % PING_RATE == 0 {
                canvass(self@.server_ids, self@.votes_recved, vote_request(self@))
            } else {
                Seq::empty()
            },
    {
        let mut out: Vec<Outgoing> = Vec::new();
        if self.elect_timer % PING_RATE == 0 {
            let last_log_idx: usize = self.log.len() - 1;
            let last_log_term: i64 = self.log.get_last().term;
            let request = make_request_vote(self.curr_term, last_log_idx, last_log_term);
            let ghost ids = self@.server_ids;
            let mut i: usize = 0;
            assert(ids.take(0) =~= Seq::<Seq<char>>::empty());
            while i < self.server_ids.len()
                invariant
                    i <= self.server_ids@.len(),
                    ids == self@.server_ids,
                    ids.len() == self.server_ids@.len(),
                    request@ == vote_request(self@),
                    sent(out@) == canvass(ids.take(i as int), self@.votes_recved, request@),
                decreases self.server_ids@.len() - i,
            {
                let name = self.server_ids[i].clone();
                proof {
                    assert(ids.take(i + 1).drop_last() =~= ids.take(i as int));
                    assert(ids.take(i + 1).last() == name@);
                }
                if !contains_name(&self.votes_recved, &name) {
                    let r = request.duplicate();
                    let ghost before = out@;
                    out.push((name, r));
                    assert(sent(out@) =~= sent(before).push((name@, request@)));
                }
                i = i + 1;
            }
            assert(ids.take(ids.len() as int) =~= ids);
        } else {
            assert(sent(out@) =~= Seq::empty());
        }
        out
    }

    /// The AppendEntries message a leader sends to `k`: the entries from the
    /// next index it expects `k` to need on (at most eight of them), or an
    /// empty heartbeat when `k` needs nothing.
    fn append_for(&self, k: &String) -> (r: RPC)
        requires
            self.wf(),
            peer_get(self@.next_idx, k@).is_some(),
            peer_get(self@.next_idx, k@).unwrap() >= 1,
            self@.log.len() + 9 <= usize::MAX,
        ensures
            r@ == append_for(self@, k@),
    {
        let n: usize = self.next_idx.get(k).unwrap();
        let last: usize = self.log.len() - 1;
        if last >= n {
            let prev: usize = n - 1;
            let prev_term: i64 = self.log.get(prev).unwrap().term;
            let end: usize = if self.log.len() < prev + 9 { self.log.len() } else { prev + 9 };
            let entries = self.log.entries_between(prev + 1, end);
            make_append_entries(self.curr_term, prev, prev_term, entries, self.commit_idx)
        } else {
            make_append_entries(self.curr_term, last, self.log.get_last().term, Vec::new(), self.commit_idx)
        }
    }

    /// The AppendEntries messages a leader sends, one to each other server.
    fn heartbeats(&self) -> (out: Vec<Outgoing>)
        requires
            self.wf(),
            peers_reachable(self@),
        ensures
            sent(out@) == leader_messages(self@, self@.server_ids),
    {
        let mut out: Vec<Outgoing> = Vec::new();
        let ghost ids = self@.server_ids;
        let mut i: usize = 0;
        assert(ids.take(0) =~= Seq::<Seq<char>>::empty());
        while i < self.server_ids.len()
            invariant
                self.wf(),
                peers_reachable(self@),
                i <= self.server_ids@.len(),
                ids == self@.server_ids,
                ids.len() == self.server_ids@.len(),
                sent(out@) == leader_messages(self@, ids.take(i as int)),
            decreases self.server_ids@.len() - i,
        {
            let name = self.server_ids[i].clone();
            proof {
                assert(ids.take(i + 1).drop_last() =~= ids.take(i as int));
                assert(ids.take(i + 1).last() == name@);
            }
            if name != self.id {
                proof {
                    assert(ids[i as int] == name@);
                    assert(ids.contains(name@));
                    assert(is_peer(self@, name@));
                }
                let rpc = self.append_for(&name);
                let ghost before = out@;
                out.push((name, rpc));
                assert(sent(out@) =~= sent(before).push((name@, rpc@)));
            }
            i = i + 1;
        }
        assert(ids.take(ids.len() as int) =~= ids);
        out
    }

    /// Every `PING_RATE` ticks a leader sends each other server the entries
    /// it needs (or a heartbeat) and restarts its timer. It moves its commit
    /// index to the highest index past it whose entry is of the current term
    /// and is stored on a majority of the servers, itself included.
    pub fn tick_leader(&mut self) -> (out: Vec<Outgoing>)
        requires
            old(self).wf(),
            leader_tick_allowed(old(self)@),
        ensures
            final(self).wf(),
            final(self)@ == after_leader_tick(old(self)@),
            sent(out@) == if old(self)@.elect_timer % PING_RATE == 0 {
                leader_messages(old(self)@, old(self)@.server_ids)
            } else {
                Seq::empty()
            },
            final(self).log_path() == old(self).log_path(),
    {
        let target: usize = self.highest_committable();
        let mut out: Vec<Outgoing> = Vec::new();
        if self.elect_timer % PING_RATE == 0 {
            out = self.heartbeats();
            self.elect_timer = 0;
        } else {
            assert(sent(out@) =~= Seq::empty());
        }
        self.commit_idx = target;
        out
    }

    /// The highest index the leader may commit (see `highest_commit`).
    fn highest_committable(&self) -> (r: usize)
        requires
            self.wf(),
        ensures
            r as int == highest_commit(self@, self@.log.len() - 1),
    {
        let values = self.match_idx.values();
        let half: usize = self.server_ids.len() / 2;
        let mut n: usize = self.log.len() - 1;
        while n > self.commit_idx
            invariant
                self.wf(),
                n < self@.log.len(),
                values@ == bound_values(self@.match_idx),
                half as int == self@.server_ids.len() / 2,
                highest_commit(self@, self@.log.len() - 1) == highest_commit(self@, n as int),
            decreases n,
        {
            let entry = self.log.get(n).unwrap();
            if entry.term == self.curr_term && count_reaching(&values, n) >= half {
                assert(can_commit(self@, n as int));
                return n;
            }
            n = n - 1;
        }
        self.commit_idx
    }

    /// Applies every committed entry not applied yet, in index order. Returns
    /// the records to persist (each applied entry, marked as applied) and,
    /// on a leader, the replies that were waiting for those entries, which
    /// leave the table of pending replies.
    pub fn apply_committed(&mut self) -> (res: (Vec<RaftLogEntry>, Vec<Outgoing>))
        requires
            old(self).wf(),
        ensures
            final(self).wf(),
            final(self)@ == after_apply(old(self)@),
            res.0@ == records(old(self)@.log, old(self)@.applied_idx as int, final(self)@.applied_idx as int),
            sent(res.1@) == if old(self)@.state == ServerState::Leader {
                replies(old(self)@.client_res, old(self)@.applied_idx as int, final(self)@.applied_idx as int)
            } else {
                Seq::empty()
            },
            final(self).log_path() == old(self).log_path(),
    {
        let mut recs: Vec<RaftLogEntry> = Vec::new();
        let mut out: Vec<Outgoing> = Vec::new();
        let ghost v = old(self)@;
        assert(v.client_res.remove_keys(applied_between(v.applied_idx as int, v.applied_idx as int)) =~= v.client_res);
        assert(sent(out@) =~= Seq::empty());
        while self.commit_idx > self.applied_idx
            invariant
                v == old(self)@,
                self.wf(),
                v.applied_idx <= self.applied_idx,
                self.applied_idx <= if v.commit_idx > v.applied_idx { v.commit_idx } else { v.applied_idx },
                self@ == (ServerView { applied_idx: self@.applied_idx, client_res: self@.client_res, ..v }),
                self@.client_res == if v.state == ServerState::Leader {
                    v.client_res.remove_keys(applied_between(v.applied_idx as int, self@.applied_idx as int))
                } else {
                    v.client_res
                },
                recs@ == records(v.log, v.applied_idx as int, self@.applied_idx as int),
                sent(out@) == if v.state == ServerState::Leader {
                    replies(v.client_res, v.applied_idx as int, self@.applied_idx as int)
                } else {
                    Seq::empty()
                },
                self.log_path() == old(self).log_path(),
            decreases self.commit_idx - self.applied_idx,
        {
            self.applied_idx = self.applied_idx + 1;
            let a: usize = self.applied_idx;
            match self.log.apply(a) {
                Some(rec) => {
                    recs.push(rec);
                },
                None => {},
            }
            if self.state == ServerState::Leader {
                let ghost before = self.client_res@;
                let ghost before_out = out@;
                assert(!applied_between(v.applied_idx as int, a - 1).contains(a));
                assert(pending_view(before).contains_key(a) == v.client_res.contains_key(a));
                assert(v.client_res.contains_key(a) ==> pending_view(before)[a] == v.client_res[a]);
                assert(replies(v.client_res, v.applied_idx as int, a as int) == if v.client_res.contains_key(a) {
                    replies(v.client_res, v.applied_idx as int, a - 1).push(v.client_res[a])
                } else {
                    replies(v.client_res, v.applied_idx as int, a - 1)
                });
                match self.client_res.remove(&a) {
                    Some(reply) => {
                        out.push(reply);
                        assert(sent(out@) =~= sent(before_out).push((reply.0@, reply.1@)));
                    },
                    None => {},
                }
                assert(pending_view(self.client_res@) =~= pending_view(before).remove(a));
                assert(v.client_res.remove_keys(applied_between(v.applied_idx as int, a as int))
                    =~= v.client_res.remove_keys(applied_between(v.applied_idx as int, a - 1)).remove(a));
            }
        }
        (recs, out)
    }

    /// One tick of the election timer: when it reaches the election timeout
    /// the server starts an election.
    pub fn tick_election_timer(&mut self)
        requires
            old(self)@.elect_timer < i32::MAX,
            old(self)@.elect_timer + 1 >= old(self)@.elect_timeout ==> old(self)@.curr_term < i64::MAX,
        ensures
            final(self)@ == after_timer_tick(old(self)@),
            final(self).log_path() == old(self).log_path(),
    {
        self.elect_timer = self.elect_timer + 1;
        if self.elect_timer >= self.elect_timeout {
            self.become_candidate();
        }
    }

    /// Whether the server crashes on this tick, with probability
    /// `1 / CRASH_FREQ`.
    pub fn should_crash(&self) -> bool {
        crash_roll(random_u32())
    }

    /// The server goes down.
    pub fn crash(&mut self)
        ensures
            final(self)@ == (ServerView { crashed: true, crash_timer: 0, ..old(self)@ }),
            final(self).log_path() == old(self).log_path(),
    {
        self.crashed = true;
        self.crash_timer = 0;
    }

    /// One tick of a crashed server: after `CRASH_LENGTH` ticks it comes back
    /// as a follower.
    pub fn tick_crashed(&mut self)
        requires
            old(self)@.crash_timer < i32::MAX,
        ensures
            final(self)@ == if old(self)@.crash_timer + 1 == CRASH_LENGTH {
                ServerView {
                    crash_timer: CRASH_LENGTH,
                    crashed: false,
                    state: ServerState::Follower,
                    ..old(self)@
                }
            } else {
                ServerView { crash_timer: (old(self)@.crash_timer + 1) as i32, ..old(self)@ }
            },
            final(self).log_path() == old(self).log_path(),
    {
        self.crash_timer = self.crash_timer + 1;
        if self.crash_timer == CRASH_LENGTH {
            self.become_follower();
            self.crashed = false;
        }
    }

    /// The work of one tick in the server's current role.
    pub fn tick_role(&mut self) -> (out: Vec<Outgoing>)
        requires
            old(self).wf(),
            old(self)@.state == ServerState::Leader ==> leader_tick_allowed(old(self)@),
        ensures
            final(self).wf(),
            final(self).log_path() == old(self).log_path(),
            match old(self)@.state {
                ServerState::Follower => final(self)@ == old(self)@ && out@.len() == 0,
                ServerState::Candidate => final(self)@ == old(self)@ && sent(out@) == if old(self)@.elect_timer % PING_RATE == 0 {
                    canvass(old(self)@.server_ids, old(self)@.votes_recved, vote_request(old(self)@))
                } else {
                    Seq::empty()
                },
                ServerState::Leader => final(self)@ == after_leader_tick(old(self)@) && sent(out@) == if old(self)@.elect_timer % PING_RATE == 0 {
                    leader_messages(old(self)@, old(self)@.server_ids)
                } else {
                    Seq::empty()
                },
            },
    {
        match self.state {
            ServerState::Follower => {
                self.tick_follower();
                Vec::new()
            },
            ServerState::Candidate => self.tick_candidate(),
            ServerState::Leader => self.tick_leader(),
        }
    }

    /// The server's current state in the protocol.
    pub fn state(&self) -> (s: ServerState)
        ensures
            s == self@.state,
    {
        self.state
    }

    /// Whether the server is down.
    pub fn is_crashed(&self) -> (c: bool)
        ensures
            c == self@.crashed,
    {
        self.crashed
    }

    /// The current term.
    pub fn curr_term(&self) -> (t: i64)
        ensures
            t == self@.curr_term,
    {
        self.curr_term
    }

    /// The index of the highest committed entry.
    pub fn commit_idx(&self) -> (i: usize)
        ensures
            i == self@.commit_idx,
    {
        self.commit_idx
    }

    /// The index of the highest applied entry.
    pub fn applied_idx(&self) -> (i: usize)
        ensures
            i == self@.applied_idx,
    {
        self.applied_idx
    }

    /// The name of the server this one voted for in the current term (empty
    /// when it has not voted).
    pub fn vote(&self) -> (s: String)
        ensures
            s@ == self@.vote,
    {
        self.vote.clone()
    }

    /// The server's log.
    pub fn log(&self) -> (l: &RaftLog)
        ensures
            l@ == self@.log,
            l.spec_path() == self.log_path(),
    {
        &self.log
    }

    /// Whether the server can handle `rpc` from `from` (see `step_allowed`).
    pub fn accepts_message(&self, from: &String, rpc: &RPC) -> (r: bool)
        requires
            self.wf(),
        ensures
            r == step_allowed(self@, from@, rpc@),
    {
        let len: usize = self.log.len();
        match rpc {
            RPC::AppendEntries { term, prev_log_idx, prev_log_term, entries, leader_commit_idx } => {
                if len >= usize::MAX - entries.len() {
                    return false;
                }
                let accepted = *term >= self.curr_term && *prev_log_idx < len
                    && self.log.get(*prev_log_idx).unwrap().term == *prev_log_term;
                if accepted {
                    is_merge_consistent(&self.log, *prev_log_idx + 1, entries)
                } else {
                    true
                }
            },
            RPC::RequestVote { .. } => true,
            RPC::ClientRequest { .. } => len < usize::MAX,
            RPC::RequestVoteResponse { .. } => len < usize::MAX,
            RPC::AppendEntriesResponse { term, idx, result } => {
                if *term > self.curr_term {
                    true
                } else if *result {
                    self.match_idx.get(from).is_some() && self.next_idx.get(from).is_some() && *idx < usize::MAX
                } else {
                    match self.next_idx.get(from) {
                        Some(n) => n >= 1,
                        None => false,
                    }
                }
            },
            RPC::RequestLog { .. } => len <= usize::MAX - 9,
            RPC::ClientResponse { .. } => false,
            RPC::RequestLogResponse { .. } => false,
        }
    }

    /// Whether every other server has a next index of at least 1 and the
    /// log leaves room to slice past any of them (see `peers_reachable`).
    fn peers_ready(&self) -> (r: bool)
        requires
            self.wf(),
        ensures
            r == peers_reachable(self@),
    {
        if self.log.len() > usize::MAX - 9 {
            return false;
        }
        let ghost ids = self@.server_ids;
        let mut i: usize = 0;
        while i < self.server_ids.len()
            invariant
                self.wf(),
                i <= self.server_ids@.len(),
                ids == self@.server_ids,
                ids.len() == self.server_ids@.len(),
                forall|j: int| 0 <= j < i && ids[j] != self@.id ==> {
                    &&& peer_get(self@.next_idx, ids[j]).is_some()
                    &&& peer_get(self@.next_idx, ids[j]).unwrap() >= 1
                },
            decreases self.server_ids@.len() - i,
        {
            let name = &self.server_ids[i];
            if *name != self.id {
                let ok = match self.next_idx.get(name) {
                    Some(n) => n >= 1,
                    None => false,
                };
                if !ok {
                    assert(ids[i as int] == name@);
                    assert(is_peer(self@, name@));
                    return false;
                }
            }
            i = i + 1;
        }
        assert forall|k: Seq<char>| #[trigger] is_peer(self@, k) implies {
            &&& peer_get(self@.next_idx, k).is_some()
            &&& peer_get(self@.next_idx, k).unwrap() >= 1
        } by {
            let j = choose|j: int| 0 <= j < ids.len() && ids[j] == k;
        }
        true
    }

    /// Whether a leader's tick can run (see `leader_tick_allowed`).
    pub fn can_tick_leader(&self) -> (r: bool)
        requires
            self.wf(),
        ensures
            r == leader_tick_allowed(self@),
    {
        self.elect_timer % PING_RATE != 0 || self.peers_ready()
    }

    /// The election timer, in ticks.
    pub fn elect_timer(&self) -> (t: i32)
        ensures
            t == self@.elect_timer,
    {
        self.elect_timer
    }

    /// The crash timer, in ticks.
    pub fn crash_timer(&self) -> (t: i32)
        ensures
            t == self@.crash_timer,
    {
        self.crash_timer
    }

    /// The election timeout, in ticks.
    pub fn elect_timeout(&self) -> (t: i32)
        ensures
            t == self@.elect_timeout,
    {
        self.elect_timeout
    }

    /// The number of votes received in the current election.
    pub fn votes_received(&self) -> (n: usize)
        ensures
            n == self@.votes_recved.len(),
    {
        self.votes_recved.len()
    }

    /// The number of votes needed to win an election.
    pub fn votes_needed(&self) -> (n: i32)
        ensures
            n == self@.votes_needed,
    {
        self.votes_needed
    }

    /// The next index the leader expects to send to `k`.
    pub fn next_idx_of(&self, k: &String) -> (r: Option<usize>)
        requires
            self.wf(),
        ensures
            r == peer_get(self@.next_idx, k@),
    {
        self.next_idx.get(k)
    }

    /// The highest index the leader knows `k` to hold.
    pub fn match_idx_of(&self, k: &String) -> (r: Option<usize>)
        requires
            self.wf(),
        ensures
            r == peer_get(self@.match_idx, k@),
    {
        self.match_idx.get(k)
    }

    /// Whether a reply waits for the entry at `idx` to be applied.
    pub fn has_pending_reply(&self, idx: usize) -> (r: bool)
        ensures
            r == self@.client_res.contains_key(idx),
    {
        self.client_res.contains_key(&idx)
    }
}

} // verus!
