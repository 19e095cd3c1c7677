//! Counting.

use vstd::prelude::*;

verus! {

/// How many of these hold.
pub open spec fn trues(v: Seq<bool>) -> nat
    decreases v.len(),
{
    if v.len() == 0 {
        0
    } else if v.last() {
        trues(v.drop_last()) + 1
    } else {
        trues(v.drop_last())
    }
}

/// How many of these hold.
pub fn count_true(v: &Vec<bool>) -> (n: usize)
    ensures
        n as nat == trues(v@),
        n <= v@.len(),
{
    let mut n: usize = 0;
    let mut i: usize = 0;
    while i < v.len()
        invariant
            i <= v@.len(),
            n <= i,
            n as nat == trues(v@.take(i as int)),
        decreases v@.len() - i,
    {
        assert(v@.take(i + 1).drop_last() =~= v@.take(i as int));
        if v[i] {
            n = n + 1;
        }
        i = i + 1;
    }
    assert(v@.take(i as int) =~= v@);
    n
}

/// As many are counted as hold: each one that does is one more.
pub proof fn law_each_that_holds_counts_once(v: Seq<bool>, b: bool)
    ensures
        trues(Seq::empty()) == 0,
        trues(v.push(b)) == trues(v) + (if b {
            1nat
        } else {
            0
        }),
{
    assert(v.push(b).drop_last() =~= v);
}

} // verus!
