//! A Raft consensus server, client and log checker, written as verified
//! state machines: every decision the protocol makes is a function from a
//! state and an event to the next state and the messages to send.

pub mod checker;
pub mod client;
pub mod cluster;
pub mod laws;
pub mod log;
pub mod opts;
pub mod raftlog;
pub mod rpc;
pub mod peers;
pub mod protocol;
pub mod quorum;
pub mod random;
pub mod replicate;
pub mod server;
