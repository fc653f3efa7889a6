use raft::client::Client;
use raft::rpc::RPC;

fn ids() -> Vec<String> {
    vec![String::from("s0"), String::from("s1"), String::from("s2")]
}

#[test]
fn client_starts_with_the_first_server() {
    let c = Client::new(String::from("c0"), 2, ids());
    assert_eq!(c.leader_id(), "s0");
    assert!(c.wants_more());
    assert_eq!(c.completed(), 0);
    assert_eq!(c.id, "c0");
}

#[test]
fn success_for_the_current_request_completes_it() {
    let mut c = Client::new(String::from("c0"), 1, ids());
    assert_eq!(c.begin_request(77), RPC::ClientRequest { opid: 77 });
    assert!(c.handle_response(RPC::ClientResponse { opid: 77, success: true }));
    assert_eq!(c.completed(), 1);
    assert!(!c.wants_more());
    assert_eq!(c.leader_id(), "s0");
}

#[test]
fn refusal_or_other_operation_moves_to_the_next_server() {
    let mut c = Client::new(String::from("c0"), 1, ids());
    c.begin_request(5);
    assert!(!c.handle_response(RPC::ClientResponse { opid: 5, success: false }));
    assert_eq!(c.leader_id(), "s1");
    assert!(!c.handle_response(RPC::ClientResponse { opid: 6, success: true }));
    assert_eq!(c.leader_id(), "s2");
    assert!(!c.handle_response(RPC::ClientResponse { opid: 5, success: false }));
    assert_eq!(c.leader_id(), "s0");
    assert_eq!(c.completed(), 0);
}

#[test]
fn new_request_asks_for_a_fresh_operation() {
    let mut c = Client::new(String::from("c0"), 1, ids());
    match c.new_request() {
        RPC::ClientRequest { opid } => {
            assert!(c.handle_response(RPC::ClientResponse { opid, success: true }));
        },
        _ => panic!("not a client request"),
    }
}
