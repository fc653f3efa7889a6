use vstd::prelude::*;

verus! {

/// How many elements of `s` are at least `n`.
pub open spec fn count_at_least(s: Seq<usize>, n: usize) -> nat
    decreases s.len(),
{
    if s.len() == 0 {
        0
    } else {
        count_at_least(s.drop_last(), n) + if s.last() >= n { 1nat } else { 0nat }
    }
}

/// The count never exceeds the length.
pub proof fn lemma_count_bounded(s: Seq<usize>, n: usize)
    ensures
        count_at_least(s, n) <= s.len(),
    decreases s.len(),
{
    if s.len() > 0 {
        lemma_count_bounded(s.drop_last(), n);
    }
}

/// How many of `values` are at least `n`.
pub fn count_reaching(values: &Vec<usize>, n: usize) -> (c: usize)
    ensures
        c == count_at_least(values@, n),
{
    let mut c: usize = 0;
    let mut i: usize = 0;
    assert(values@.take(0) =~= Seq::<usize>::empty());
    while i < values.len()
        invariant
            i <= values@.len(),
            c == count_at_least(values@.take(i as int), n),
            c <= i,
        decreases values@.len() - i,
    {
        assert(values@.take(i + 1).drop_last() =~= values@.take(i as int));
        if values[i] >= n {
            c = c + 1;
        }
        i = i + 1;
    }
    assert(values@.take(values@.len() as int) =~= values@);
    c
}

} // verus!
