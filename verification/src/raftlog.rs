use vstd::prelude::*;

verus! {

/// One entry of a replicated log: the client operation it carries, the term
/// in which a leader created it, and whether it has been applied.
#[derive(Debug, Clone, Copy, PartialEq, Eq, Structural)]
pub struct RaftLogEntry {
    pub opid: i64,
    pub term: i64,
    pub applied: bool,
}

impl RaftLogEntry {
    /// A fresh, not yet applied entry.
    pub open spec fn fresh(opid: i64, term: i64) -> RaftLogEntry {
        RaftLogEntry { opid, term, applied: false }
    }

    pub fn new(opid: i64, term: i64) -> (e: RaftLogEntry)
        ensures
            e == RaftLogEntry::fresh(opid, term),
    {
        RaftLogEntry { opid: opid, term: term, applied: false }
    }
}

/// The entry every log starts with: index 0 holds a no-op of term 0, so the
/// first real entry sits at index 1.
pub open spec fn sentinel() -> RaftLogEntry {
    RaftLogEntry::fresh(0, 0)
}

/// `i` is the first index of `log` whose entry carries `opid`.
pub open spec fn is_first_opid(log: Seq<RaftLogEntry>, opid: i64, i: int) -> bool {
    &&& 0 <= i < log.len()
    &&& log[i].opid == opid
    &&& forall|j: int| 0 <= j < i ==> log[j].opid != opid
}

/// The index of the first entry of `log` that carries `opid`, if any.
pub open spec fn first_opid(log: Seq<RaftLogEntry>, opid: i64) -> Option<int> {
    if exists|i: int| is_first_opid(log, opid, i) {
        Some(choose|i: int| is_first_opid(log, opid, i))
    } else {
        None
    }
}

/// There is only one first index.
pub proof fn lemma_first_opid(log: Seq<RaftLogEntry>, opid: i64, i: int)
    requires
        is_first_opid(log, opid, i),
    ensures
        first_opid(log, opid) == Some(i),
{
    let j = choose|j: int| is_first_opid(log, opid, j);
    assert(is_first_opid(log, opid, j));
    if j < i {
        assert(log[j].opid != opid);
    } else if i < j {
        assert(log[i].opid != opid);
    }
}

/// Without an entry that carries `opid` there is no first one.
pub proof fn lemma_no_opid(log: Seq<RaftLogEntry>, opid: i64)
    requires
        lacks_opid(log, opid),
    ensures
        first_opid(log, opid).is_none(),
{
    if exists|i: int| is_first_opid(log, opid, i) {
        let j = choose|j: int| is_first_opid(log, opid, j);
        assert(log[j].opid != opid);
    }
}

/// No entry of `log` carries `opid`.
pub open spec fn lacks_opid(log: Seq<RaftLogEntry>, opid: i64) -> bool {
    forall|j: int| 0 <= j < log.len() ==> log[j].opid != opid
}

/// The in-memory replicated log of one server, together with the path of the
/// file it is persisted to.
pub struct RaftLog {
    entries: Vec<RaftLogEntry>,
    path: String,
}

impl View for RaftLog {
    type V = Seq<RaftLogEntry>;

    closed spec fn view(&self) -> Seq<RaftLogEntry> {
        self.entries@
    }
}

impl RaftLog {
    /// The path of the file the log is persisted to.
    pub closed spec fn spec_path(&self) -> Seq<char> {
        self.path@
    }

    /// A log that holds only the sentinel entry.
    pub fn new(path: String) -> (log: RaftLog)
        ensures
            log@ == seq![sentinel()],
            log.spec_path() == path@,
    {
        let mut entries: Vec<RaftLogEntry> = Vec::new();
        entries.push(RaftLogEntry::new(0, 0));
        RaftLog { entries: entries, path: path }
    }

    /// The log persisted at `path`: the sentinel followed by the entries
    /// stored in that file, in the order they were stored.
    pub fn from_file(path: String, stored: Vec<RaftLogEntry>) -> (log: RaftLog)
        ensures
            log@ == seq![sentinel()] + stored@,
            log.spec_path() == path@,
    {
        let mut entries: Vec<RaftLogEntry> = Vec::new();
        entries.push(RaftLogEntry::new(0, 0));
        let mut i: usize = 0;
        while i < stored.len()
            invariant
                i <= stored.len(),
                entries@ == seq![sentinel()] + stored@.take(i as int),
            decreases stored.len() - i,
        {
            entries.push(stored[i]);
            i = i + 1;
            assert(stored@.take(i as int) == stored@.take((i - 1) as int).push(stored@[i - 1]));
        }
        assert(stored@.take(stored.len() as int) == stored@);
        RaftLog { entries: entries, path: path }
    }

    /// Appends `entry` at the end of the log.
    pub fn append(&mut self, entry: RaftLogEntry)
        ensures
            final(self)@ == old(self)@.push(entry),
            final(self).spec_path() == old(self).spec_path(),
    {
        self.entries.push(entry);
    }

    /// The record to persist when the entry at `idx` is applied: that entry
    /// marked as applied, or nothing when `idx` is past the end of the log.
    /// The in-memory log itself is left as it is.
    pub fn apply(&self, idx: usize) -> (rec: Option<RaftLogEntry>)
        ensures
            idx < self@.len() ==> rec == Some(RaftLogEntry { applied: true, ..self@[idx as int] }),
            idx >= self@.len() ==> rec.is_none(),
    {
        if idx < self.entries.len() {
            let mut entry = self.entries[idx];
            entry.applied = true;
            Some(entry)
        } else {
            None
        }
    }

    /// The entry at `idx`, if there is one.
    pub fn get(&self, idx: usize) -> (r: Option<RaftLogEntry>)
        ensures
            idx < self@.len() ==> r == Some(self@[idx as int]),
            idx >= self@.len() ==> r.is_none(),
    {
        if idx < self.entries.len() {
            Some(self.entries[idx])
        } else {
            None
        }
    }

    /// A copy of all entries.
    pub fn get_vec(&self) -> (v: Vec<RaftLogEntry>)
        ensures
            v@ == self@,
    {
        self.entries.clone()
    }

    /// The last entry.
    pub fn get_last(&self) -> (e: RaftLogEntry)
        requires
            self@.len() > 0,
        ensures
            e == self@.last(),
    {
        self.entries[self.entries.len() - 1]
    }

    /// The number of entries, the sentinel included.
    pub fn len(&self) -> (n: usize)
        ensures
            n == self@.len(),
    {
        self.entries.len()
    }

    /// Removes the entry at `idx` and every entry after it.
    pub fn delete_from(&mut self, idx: usize)
        requires
            idx <= old(self)@.len(),
        ensures
            final(self)@ == old(self)@.take(idx as int),
            final(self).spec_path() == old(self).spec_path(),
    {
        self.entries.truncate(idx);
    }

    /// Whether the first entry that carries `opid` has been applied, or
    /// nothing when no entry carries it.
    pub fn contains(&self, opid: i64) -> (r: Option<bool>)
        ensures
            match r {
                Some(applied) => exists|i: int| is_first_opid(self@, opid, i) && self@[i].applied == applied,
                None => lacks_opid(self@, opid),
            },
    {
        match self.idxof(opid) {
            Some(i) => Some(self.entries[i].applied),
            None => None,
        }
    }

    /// The index of the first entry that carries `opid`.
    pub fn idxof(&self, opid: i64) -> (r: Option<usize>)
        ensures
            match r {
                Some(i) => is_first_opid(self@, opid, i as int),
                None => lacks_opid(self@, opid),
            },
    {
        let mut i: usize = 0;
        while i < self.entries.len()
            invariant
                i <= self@.len(),
                forall|j: int| 0 <= j < i ==> self@[j].opid != opid,
            decreases self@.len() - i,
        {
            if self.entries[i].opid == opid {
                return Some(i);
            }
            i = i + 1;
        }
        None
    }

    /// A copy of the entries from index `from` up to, not including, `to`.
    pub fn entries_between(&self, from: usize, to: usize) -> (v: Vec<RaftLogEntry>)
        requires
            from <= to <= self@.len(),
        ensures
            v@ == self@.subrange(from as int, to as int),
    {
        let mut v: Vec<RaftLogEntry> = Vec::new();
        let mut i: usize = from;
        while i < to
            invariant
                from <= i <= to <= self@.len(),
                v@ == self@.subrange(from as int, i as int),
            decreases to - i,
        {
            v.push(self.entries[i]);
            i = i + 1;
            assert(self@.subrange(from as int, i as int) =~= self@.subrange(from as int, (i - 1) as int).push(self@[i - 1]));
        }
        v
    }
}

} // verus!
