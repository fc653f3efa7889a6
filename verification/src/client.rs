use vstd::prelude::*;
use crate::rpc::{RPC, RpcView, make_client_request};
use crate::random::random_i64;

verus! {

/// The state of a client, as the protocol sees it.
pub struct ClientView {
    pub id: Seq<char>,
    pub n_reqs: i64,
    pub s_ids: Seq<Seq<char>>,
    pub leader_idx: usize,
    pub n: i64,
    pub req_opid: i64,
}

/// A client that sends `n_reqs` requests to the cluster, one after the
/// other, each until a server reports it applied. It sends to the server it
/// takes for the leader and moves on to the next server whenever it is
/// turned away.
pub struct Client {
    pub id: String,
    n_reqs: i64,
    s_ids: Vec<String>,
    leader_idx: usize,
    n: i64,
    req_opid: i64,
}

impl View for Client {
    type V = ClientView;

    closed spec fn view(&self) -> ClientView {
        ClientView {
            id: self.id@,
            n_reqs: self.n_reqs,
            s_ids: self.s_ids@.map_values(|s: String| s@),
            leader_idx: self.leader_idx,
            n: self.n,
            req_opid: self.req_opid,
        }
    }
}

impl Client {
    /// The server the client sends to is one of the cluster's.
    pub open spec fn wf(&self) -> bool {
        &&& self@.s_ids.len() > 0 ==> self@.leader_idx < self@.s_ids.len()
        &&& self@.s_ids.len() == 0 ==> self@.leader_idx == 0
    }

    /// A client that has completed no request yet and starts with the first
    /// server of `s_ids`.
    pub fn new(id: String, n_reqs: i64, s_ids: Vec<String>) -> (c: Client)
        ensures
            c.wf(),
            c@ == (ClientView {
                id: id@,
                n_reqs,
                s_ids: s_ids@.map_values(|s: String| s@),
                leader_idx: 0,
                n: 0,
                req_opid: 0,
            }),
    {
        Client { id: id, n_reqs: n_reqs, s_ids: s_ids, leader_idx: 0, n: 0, req_opid: 0 }
    }

    /// Whether requests remain to be sent.
    pub fn wants_more(&self) -> (r: bool)
        ensures
            r == (self@.n < self@.n_reqs),
    {
        self.n < self.n_reqs
    }

    /// The number of requests completed so far.
    pub fn completed(&self) -> (n: i64)
        ensures
            n == self@.n,
    {
        self.n
    }

    /// Starts the request for operation `opid`: returns the message to send.
    pub fn begin_request(&mut self, opid: i64) -> (r: RPC)
        ensures
            final(self)@ == (ClientView { req_opid: opid, ..old(self)@ }),
            r@ == (RpcView::ClientRequest { opid }),
    {
        self.req_opid = opid;
        make_client_request(opid)
    }

    /// Starts a request for an operation whose number is drawn at random.
    pub fn new_request(&mut self) -> (r: RPC)
        ensures
            final(self)@ == (ClientView { req_opid: final(self)@.req_opid, ..old(self)@ }),
            r@ == (RpcView::ClientRequest { opid: final(self)@.req_opid }),
    {
        let opid: i64 = random_i64();
        self.begin_request(opid)
    }

    /// The name of the server the client takes for the leader.
    pub fn leader_id(&self) -> (s: String)
        requires
            self.wf(),
            self@.s_ids.len() > 0,
        ensures
            s@ == self@.s_ids[self@.leader_idx as int],
    {
        self.s_ids[self.leader_idx].clone()
    }

    /// Handles the answer to the current request. A success for the current
    /// operation completes the request (the result is `true`); anything else
    /// sends the client on to the next server.
    pub fn handle_response(&mut self, rpc: RPC) -> (done: bool)
        requires
            old(self).wf(),
            old(self)@.s_ids.len() > 0,
            old(self)@.n < i64::MAX,
            rpc@ is ClientResponse,
        ensures
            final(self).wf(),
            ({
                let v = old(self)@;
                match rpc@ {
                    RpcView::ClientResponse { opid, success } => if success && opid == v.req_opid {
                        done && final(self)@ == ClientView { n: (v.n + 1) as i64, ..v }
                    } else {
                        !done && final(self)@ == ClientView {
                            leader_idx: ((v.leader_idx + 1) % (v.s_ids.len() as int)) as usize,
                            ..v
                        }
                    },
                    _ => false,
                }
            }),
    {
        match rpc {
            RPC::ClientResponse { opid, success } => {
                if success && opid == self.req_opid {
                    self.n = self.n + 1;
                    true
                } else {
                    let len: usize = self.s_ids.len();
                    self.leader_idx = (self.leader_idx + 1) % len;
                    false
                }
            },
            _ => {
                proof { assert(false); }
                false
            },
        }
    }
}

} // verus!
