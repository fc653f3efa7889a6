use raft::checker::{check, CheckError};
use raft::opts::{is_known_mode, Opts};
use raft::raftlog::{RaftLog, RaftLogEntry};

fn opts(n_servers: i32, n_clients: i32, n_request: i64) -> Opts {
    Opts { n_servers, n_clients, n_request, verbosity: 0, isclient: false, mode: String::from("check") }
}

fn log_of(ops: &[(i64, i64)]) -> RaftLog {
    RaftLog::from_file(String::from("l.log"), ops.iter().map(|&(o, t)| RaftLogEntry { opid: o, term: t, applied: true }).collect())
}

#[test]
fn equal_long_logs_pass() {
    let a = [(0, 1), (10, 1), (11, 1), (12, 2)];
    let logs = vec![log_of(&a), log_of(&a), log_of(&a)];
    assert_eq!(check(&opts(3, 1, 3), &logs), Ok(()));
}

#[test]
fn short_first_log_fails() {
    let a = [(10, 1)];
    let logs = vec![log_of(&a)];
    assert_eq!(check(&opts(1, 2, 1), &logs), Err(CheckError::TooShort { len: 2, needed: 3 }));
}

#[test]
fn log_of_other_length_fails() {
    let a = [(10, 1), (11, 1)];
    let logs = vec![log_of(&a), log_of(&a), log_of(&a[..1])];
    assert_eq!(check(&opts(3, 1, 2), &logs), Err(CheckError::LengthMismatch { server: 2 }));
}

#[test]
fn differing_entry_fails() {
    let a = [(10, 1), (11, 1)];
    let b = [(10, 1), (12, 1)];
    let logs = vec![log_of(&a), log_of(&b), log_of(&a)];
    assert_eq!(check(&opts(3, 1, 2), &logs), Err(CheckError::EntryMismatch { server: 1, idx: 2 }));
}

#[test]
fn known_modes() {
    for m in ["local", "dist", "check", "clean"] {
        assert!(is_known_mode(&String::from(m)));
    }
    assert!(!is_known_mode(&String::from("fast")));
}
