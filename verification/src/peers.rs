use vstd::prelude::*;

verus! {

/// Whether the association list `s` binds `k`.
pub open spec fn binds(s: Seq<(Seq<char>, usize)>, k: Seq<char>) -> bool {
    exists|i: int| 0 <= i < s.len() && (#[trigger] s[i]).0 == k
}

/// The position of the binding of `k` in `s` (meaningful when `binds(s, k)`).
pub open spec fn position(s: Seq<(Seq<char>, usize)>, k: Seq<char>) -> int {
    choose|i: int| 0 <= i < s.len() && (#[trigger] s[i]).0 == k
}

/// No key is bound twice.
pub open spec fn keys_unique(s: Seq<(Seq<char>, usize)>) -> bool {
    forall|i: int, j: int| 0 <= i < j < s.len() ==> (#[trigger] s[i]).0 != (#[trigger] s[j]).0
}

/// The value bound to `k`, if any.
pub open spec fn peer_get(s: Seq<(Seq<char>, usize)>, k: Seq<char>) -> Option<usize> {
    if binds(s, k) {
        Some(s[position(s, k)].1)
    } else {
        None
    }
}

/// `s` with `k` bound to `v`: an existing binding is updated in place, a new
/// one goes at the end.
pub open spec fn assoc_insert(s: Seq<(Seq<char>, usize)>, k: Seq<char>, v: usize) -> Seq<(Seq<char>, usize)> {
    if binds(s, k) {
        s.update(position(s, k), (k, v))
    } else {
        s.push((k, v))
    }
}

/// The bound values, in the order of the bindings.
pub open spec fn bound_values(s: Seq<(Seq<char>, usize)>) -> Seq<usize> {
    s.map_values(|p: (Seq<char>, usize)| p.1)
}

/// Updating a list with unique keys keeps its keys unique and changes the
/// value of exactly one key.
pub proof fn lemma_assoc_insert(s: Seq<(Seq<char>, usize)>, k: Seq<char>, v: usize)
    requires
        keys_unique(s),
    ensures
        keys_unique(assoc_insert(s, k, v)),
        forall|k2: Seq<char>| #[trigger] peer_get(assoc_insert(s, k, v), k2)
            == if k2 == k { Some(v) } else { peer_get(s, k2) },
{
    let t = assoc_insert(s, k, v);
    if binds(s, k) {
        let p = position(s, k);
        assert forall|k2: Seq<char>| #[trigger] peer_get(t, k2)
            == if k2 == k { Some(v) } else { peer_get(s, k2) } by {
            if k2 == k {
                assert(t[p].0 == k2);
                assert(binds(t, k2));
                let q = position(t, k2);
                assert(q == p);
            } else if binds(s, k2) {
                let q = position(s, k2);
                assert(t[q].0 == k2);
                assert(binds(t, k2));
                assert(position(t, k2) == q);
            } else {
                if binds(t, k2) {
                    let q = position(t, k2);
                    assert(s[q].0 == k2);
                }
            }
        }
    } else {
        assert forall|k2: Seq<char>| #[trigger] peer_get(t, k2)
            == if k2 == k { Some(v) } else { peer_get(s, k2) } by {
            if k2 == k {
                assert(t[s.len() as int].0 == k2);
                assert(binds(t, k2));
                assert(position(t, k2) == s.len());
            } else if binds(s, k2) {
                let q = position(s, k2);
                assert(t[q].0 == k2);
                assert(binds(t, k2));
                assert(position(t, k2) == q);
            } else {
                if binds(t, k2) {
                    let q = position(t, k2);
                    assert(s[q].0 == k2);
                }
            }
        }
    }
}

/// A small map from server names to log indices, kept as a list of
/// bindings in the order they were made.
pub struct PeerMap {
    pairs: Vec<(String, usize)>,
}

impl View for PeerMap {
    type V = Seq<(Seq<char>, usize)>;

    closed spec fn view(&self) -> Seq<(Seq<char>, usize)> {
        self.pairs@.map_values(|p: (String, usize)| (p.0@, p.1))
    }
}

impl PeerMap {
    pub open spec fn wf(&self) -> bool {
        keys_unique(self@)
    }

    pub fn new() -> (m: PeerMap)
        ensures
            m@ == Seq::<(Seq<char>, usize)>::empty(),
            m.wf(),
    {
        let m = PeerMap { pairs: Vec::new() };
        assert(m@ =~= Seq::<(Seq<char>, usize)>::empty());
        m
    }

    /// The value bound to `k`.
    pub fn get(&self, k: &String) -> (r: Option<usize>)
        requires
            self.wf(),
        ensures
            r == peer_get(self@, k@),
    {
        let mut i: usize = 0;
        while i < self.pairs.len()
            invariant
                i <= self.pairs@.len(),
                self@.len() == self.pairs@.len(),
                keys_unique(self@),
                forall|j: int| 0 <= j < i ==> self@[j].0 != k@,
            decreases self.pairs@.len() - i,
        {
            if self.pairs[i].0 == *k {
                assert(self@[i as int].0 == k@);
                assert(binds(self@, k@));
                assert(position(self@, k@) == i);
                return Some(self.pairs[i].1);
            }
            i = i + 1;
        }
        None
    }

    /// Binds `k` to `v`.
    pub fn insert(&mut self, k: String, v: usize)
        requires
            old(self).wf(),
        ensures
            final(self).wf(),
            final(self)@ == assoc_insert(old(self)@, k@, v),
    {
        proof { lemma_assoc_insert(self@, k@, v); }
        let ghost s = self@;
        let mut i: usize = 0;
        while i < self.pairs.len()
            invariant
                i <= self.pairs@.len(),
                self@ == s,
                s == old(self)@,
                s.len() == self.pairs@.len(),
                keys_unique(s),
                keys_unique(assoc_insert(s, k@, v)),
                forall|j: int| 0 <= j < i ==> s[j].0 != k@,
            decreases self.pairs@.len() - i,
        {
            if self.pairs[i].0 == k {
                assert(s[i as int].0 == k@);
                assert(binds(s, k@));
                assert(position(s, k@) == i);
                self.pairs.set(i, (k, v));
                assert(self@ =~= assoc_insert(s, k@, v));
                return;
            }
            i = i + 1;
        }
        self.pairs.push((k, v));
        assert(self@ =~= assoc_insert(s, k@, v));
    }

    /// The bound values, in the order of the bindings.
    pub fn values(&self) -> (r: Vec<usize>)
        ensures
            r@ == bound_values(self@),
    {
        let mut r: Vec<usize> = Vec::new();
        let mut i: usize = 0;
        while i < self.pairs.len()
            invariant
                i <= self.pairs@.len(),
                self@.len() == self.pairs@.len(),
                r@ == bound_values(self@).take(i as int),
            decreases self.pairs@.len() - i,
        {
            r.push(self.pairs[i].1);
            i = i + 1;
            assert(bound_values(self@).take(i as int) =~= bound_values(self@).take((i - 1) as int).push(self.pairs@[i - 1].1));
        }
        assert(bound_values(self@).take(self@.len() as int) =~= bound_values(self@));
        r
    }
}

} // verus!
