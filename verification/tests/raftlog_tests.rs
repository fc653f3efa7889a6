use raft::raftlog::{RaftLog, RaftLogEntry};
use raft::log::{Log, LogEntry};

fn e(opid: i64, term: i64) -> RaftLogEntry {
    RaftLogEntry::new(opid, term)
}

#[test]
fn entry_new_is_not_applied() {
    let x = RaftLogEntry::new(7, 3);
    assert_eq!(x.opid, 7);
    assert_eq!(x.term, 3);
    assert!(!x.applied);
}

#[test]
fn log_entry_alias_builds_the_same_entry() {
    let x = LogEntry::new(5, 2);
    assert_eq!(x, RaftLogEntry { opid: 5, term: 2, applied: false });
    let l = Log::new(String::from("x.log"));
    assert_eq!(l.len(), 1);
}

#[test]
fn new_log_holds_only_the_sentinel() {
    let l = RaftLog::new(String::from("a.log"));
    assert_eq!(l.len(), 1);
    assert_eq!(l.get(0), Some(e(0, 0)));
    assert_eq!(l.get(1), None);
    assert_eq!(l.get_last(), e(0, 0));
}

#[test]
fn from_file_puts_the_sentinel_first() {
    let stored = vec![
        RaftLogEntry { opid: 4, term: 1, applied: true },
        RaftLogEntry { opid: 9, term: 2, applied: true },
    ];
    let l = RaftLog::from_file(String::from("b.log"), stored.clone());
    assert_eq!(l.len(), 3);
    assert_eq!(l.get_vec(), vec![e(0, 0), stored[0], stored[1]]);
}

#[test]
fn append_then_get_reads_what_was_written() {
    let mut l = RaftLog::new(String::from("c.log"));
    l.append(e(11, 1));
    l.append(e(12, 1));
    assert_eq!(l.len(), 3);
    assert_eq!(l.get(1), Some(e(11, 1)));
    assert_eq!(l.get(2), Some(e(12, 1)));
    assert_eq!(l.get_last(), e(12, 1));
}

#[test]
fn delete_from_truncates() {
    let mut l = RaftLog::new(String::from("d.log"));
    l.append(e(1, 1));
    l.append(e(2, 1));
    l.append(e(3, 2));
    l.delete_from(2);
    assert_eq!(l.get_vec(), vec![e(0, 0), e(1, 1)]);
    l.delete_from(2);
    assert_eq!(l.len(), 2);
}

#[test]
fn delete_from_undoes_append() {
    let mut l = RaftLog::new(String::from("d2.log"));
    l.append(e(1, 1));
    let before = l.get_vec();
    let n = l.len();
    l.append(e(2, 2));
    l.delete_from(n);
    assert_eq!(l.get_vec(), before);
}

#[test]
fn apply_marks_the_record_but_not_the_log() {
    let mut l = RaftLog::new(String::from("e.log"));
    l.append(e(5, 1));
    assert_eq!(l.apply(1), Some(RaftLogEntry { opid: 5, term: 1, applied: true }));
    assert_eq!(l.apply(2), None);
    assert_eq!(l.get(1), Some(e(5, 1)));
}

#[test]
fn contains_and_idxof_find_the_first_entry() {
    let stored = vec![
        RaftLogEntry { opid: 8, term: 1, applied: true },
        RaftLogEntry { opid: 9, term: 1, applied: false },
        RaftLogEntry { opid: 8, term: 2, applied: false },
    ];
    let l = RaftLog::from_file(String::from("f.log"), stored);
    assert_eq!(l.idxof(8), Some(1));
    assert_eq!(l.contains(8), Some(true));
    assert_eq!(l.idxof(9), Some(2));
    assert_eq!(l.contains(9), Some(false));
    assert_eq!(l.idxof(0), Some(0));
    assert_eq!(l.idxof(42), None);
    assert_eq!(l.contains(42), None);
}

#[test]
fn entries_between_copies_a_slice() {
    let mut l = RaftLog::new(String::from("g.log"));
    for i in 1..6 {
        l.append(e(i, 1));
    }
    assert_eq!(l.entries_between(2, 4), vec![e(2, 1), e(3, 1)]);
    assert_eq!(l.entries_between(6, 6), vec![]);
}
