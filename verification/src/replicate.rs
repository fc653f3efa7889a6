use vstd::prelude::*;
use crate::raftlog::{RaftLog, RaftLogEntry};

verus! {

/// The log that results from placing `entries` into `log` from index `idx`
/// on: an entry whose term matches the one already at its index is kept, the
/// first one that conflicts cuts the log there, and entries past the end are
/// appended.
pub open spec fn merge(log: Seq<RaftLogEntry>, idx: int, entries: Seq<RaftLogEntry>) -> Seq<RaftLogEntry>
    decreases entries.len(),
{
    if entries.len() == 0 {
        log
    } else if 0 <= idx < log.len() {
        if log[idx].term != entries[0].term {
            merge(log.take(idx).push(entries[0]), idx + 1, entries.drop_first())
        } else {
            merge(log, idx + 1, entries.drop_first())
        }
    } else {
        merge(log.push(entries[0]), idx + 1, entries.drop_first())
    }
}

/// Wherever `merge` keeps an existing entry because the terms agree, the
/// operations agree too.
pub open spec fn merge_consistent(log: Seq<RaftLogEntry>, idx: int, entries: Seq<RaftLogEntry>) -> bool
    decreases entries.len(),
{
    if entries.len() == 0 {
        true
    } else if 0 <= idx < log.len() {
        if log[idx].term != entries[0].term {
            merge_consistent(log.take(idx).push(entries[0]), idx + 1, entries.drop_first())
        } else {
            log[idx].opid == entries[0].opid && merge_consistent(log, idx + 1, entries.drop_first())
        }
    } else {
        merge_consistent(log.push(entries[0]), idx + 1, entries.drop_first())
    }
}

/// What `merge` does to a log: the entries before `idx` stay, the merged
/// entries follow with the terms of `entries`, and the log grows by at most
/// the entries that go past its end.
pub proof fn lemma_merge(log: Seq<RaftLogEntry>, idx: int, entries: Seq<RaftLogEntry>)
    requires
        0 <= idx <= log.len(),
    ensures
        merge(log, idx, entries).len() >= idx + entries.len(),
        merge(log, idx, entries).len() <= if log.len() > idx + entries.len() { log.len() as int } else { idx + entries.len() },
        merge(log, idx, entries).take(idx) == log.take(idx),
        forall|k: int| 0 <= k < entries.len() ==> #[trigger] merge(log, idx, entries)[idx + k].term == entries[k].term,
        merge_consistent(log, idx, entries) ==> forall|k: int| 0 <= k < entries.len()
            ==> #[trigger] merge(log, idx, entries)[idx + k].opid == entries[k].opid,
    decreases entries.len(),
{
    if entries.len() > 0 {
        let rest = entries.drop_first();
        let next = if idx < log.len() {
            if log[idx].term != entries[0].term { log.take(idx).push(entries[0]) } else { log }
        } else {
            log.push(entries[0])
        };
        lemma_merge(next, idx + 1, rest);
        let m = merge(log, idx, entries);
        assert(m == merge(next, idx + 1, rest));
        assert(m.take(idx + 1) == next.take(idx + 1));
        assert(m.take(idx) =~= m.take(idx + 1).take(idx));
        assert(next.take(idx + 1).take(idx) =~= next.take(idx));
        assert(next.take(idx) =~= log.take(idx));
        assert(m[idx] == m.take(idx + 1)[idx]);
        assert forall|k: int| 0 <= k < entries.len() implies #[trigger] m[idx + k].term == entries[k].term by {
            if k > 0 {
                assert(m[idx + 1 + (k - 1)].term == rest[k - 1].term);
            }
        }
        if merge_consistent(log, idx, entries) {
            assert(merge_consistent(next, idx + 1, rest));
            assert forall|k: int| 0 <= k < entries.len() implies #[trigger] m[idx + k].opid == entries[k].opid by {
                if k > 0 {
                    assert(m[idx + 1 + (k - 1)].opid == rest[k - 1].opid);
                }
            }
        }
    }
}

/// On a log that already holds entries with the terms of `entries` from
/// `idx` on, `merge` changes nothing, and it is consistent exactly when the
/// operations agree as well.
pub proof fn lemma_merge_noop(log: Seq<RaftLogEntry>, idx: int, entries: Seq<RaftLogEntry>)
    requires
        0 <= idx,
        idx + entries.len() <= log.len(),
        forall|k: int| 0 <= k < entries.len() ==> #[trigger] log[idx + k].term == entries[k].term,
    ensures
        merge(log, idx, entries) == log,
        merge_consistent(log, idx, entries) <==> forall|k: int| 0 <= k < entries.len()
            ==> #[trigger] log[idx + k].opid == entries[k].opid,
    decreases entries.len(),
{
    if entries.len() > 0 {
        let rest = entries.drop_first();
        assert(log[idx + 0].term == entries[0].term);
        assert forall|k: int| 0 <= k < rest.len() implies #[trigger] log[idx + 1 + k].term == rest[k].term by {
            assert(log[idx + (k + 1)].term == entries[k + 1].term);
        }
        lemma_merge_noop(log, idx + 1, rest);
        if forall|k: int| 0 <= k < entries.len() ==> #[trigger] log[idx + k].opid == entries[k].opid {
            assert(log[idx + 0].opid == entries[0].opid);
            assert forall|k: int| 0 <= k < rest.len() implies #[trigger] log[idx + 1 + k].opid == rest[k].opid by {
                assert(log[idx + (k + 1)].opid == entries[k + 1].opid);
            }
        }
        if merge_consistent(log, idx, entries) {
            assert forall|k: int| 0 <= k < entries.len() implies #[trigger] log[idx + k].opid == entries[k].opid by {
                if k > 0 {
                    assert(log[idx + 1 + (k - 1)].opid == rest[k - 1].opid);
                }
            }
        }
    }
}

/// Places `entries` into `log` from index `start` on, as `merge` says.
pub fn merge_entries(log: &mut RaftLog, start: usize, entries: &Vec<RaftLogEntry>)
    requires
        start <= old(log)@.len(),
        old(log)@.len() + entries@.len() < usize::MAX,
        merge_consistent(old(log)@, start as int, entries@),
    ensures
        final(log)@ == merge(old(log)@, start as int, entries@),
        final(log).spec_path() == old(log).spec_path(),
{
    let ghost orig = log@;
    assert(entries@.skip(0) =~= entries@);
    let mut i: usize = 0;
    while i < entries.len()
        invariant
            i <= entries@.len(),
            start + i <= log@.len(),
            log@.len() <= orig.len() + i,
            orig.len() + entries@.len() < usize::MAX,
            merge(log@, start + i, entries@.skip(i as int)) == merge(orig, start as int, entries@),
            merge_consistent(log@, start + i, entries@.skip(i as int)),
            log.spec_path() == old(log).spec_path(),
        decreases entries@.len() - i,
    {
        let idx: usize = start + i;
        let entry = entries[i];
        let ghost cur = log@;
        let ghost rest = entries@.skip(i as int);
        proof {
            assert(rest[0] == entry);
            assert(rest.drop_first() =~= entries@.skip(i + 1));
        }
        match log.get(idx) {
            Some(existing) => {
                if existing.term != entry.term {
                    log.delete_from(idx);
                    log.append(entry);
                }
            },
            None => {
                log.append(entry);
            },
        }
        i = i + 1;
    }
    proof {
        assert(entries@.skip(entries@.len() as int) =~= Seq::<RaftLogEntry>::empty());
    }
}


/// Entries that all go past the end of the log are always consistent.
pub proof fn lemma_merge_consistent_at_end(log: Seq<RaftLogEntry>, entries: Seq<RaftLogEntry>)
    ensures
        merge_consistent(log, log.len() as int, entries),
    decreases entries.len(),
{
    if entries.len() > 0 {
        lemma_merge_consistent_at_end(log.push(entries[0]), entries.drop_first());
    }
}

/// Whether placing `entries` into `log` from index `start` on would keep
/// existing entries only where their operations agree (`merge_consistent`).
pub fn is_merge_consistent(log: &RaftLog, start: usize, entries: &Vec<RaftLogEntry>) -> (r: bool)
    requires
        start <= log@.len(),
        log@.len() + entries@.len() < usize::MAX,
    ensures
        r == merge_consistent(log@, start as int, entries@),
{
    let ghost orig = log@;
    let len: usize = log.len();
    let mut settled = false;
    let mut i: usize = 0;
    assert(entries@.skip(0) =~= entries@);
    while i < entries.len()
        invariant
            i <= entries@.len(),
            len == orig.len(),
            orig == log@,
            start <= orig.len(),
            orig.len() + entries@.len() < usize::MAX,
            !settled ==> start + i <= orig.len(),
            merge_consistent(orig, start as int, entries@)
                == if settled { true } else { merge_consistent(orig, start + i, entries@.skip(i as int)) },
        decreases entries@.len() - i,
    {
        if !settled {
            let idx: usize = start + i;
            let entry = entries[i];
            let ghost rest = entries@.skip(i as int);
            proof {
                assert(rest[0] == entry);
                assert(rest.drop_first() =~= entries@.skip(i + 1));
            }
            if idx == len {
                proof { lemma_merge_consistent_at_end(orig, rest); }
                settled = true;
            } else {
                let existing = log.get(idx).unwrap();
                if existing.term != entry.term {
                    proof {
                        let cut = orig.take(idx as int).push(entry);
                        lemma_merge_consistent_at_end(cut, rest.drop_first());
                    }
                    settled = true;
                } else if existing.opid != entry.opid {
                    return false;
                }
            }
        }
        i = i + 1;
    }
    if !settled {
        assert(entries@.skip(entries@.len() as int) =~= Seq::<RaftLogEntry>::empty());
    }
    true
}

} // verus!
