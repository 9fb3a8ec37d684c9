//! Counting set flags in a sequence of booleans, used to bound the selection
//! loops that mark items as they are taken.

use vstd::prelude::*;

verus! {

/// How many flags of `s` are set.
pub open spec fn count_set(s: Seq<bool>) -> nat
    decreases s.len(),
{
    if s.len() == 0 {
        0
    } else {
        count_set(s.drop_last()) + if s.last() {
            1nat
        } else {
            0nat
        }
    }
}

pub proof fn lemma_count_set_none(s: Seq<bool>)
    requires
        forall|k: int| 0 <= k < s.len() ==> !s[k],
    ensures
        count_set(s) == 0,
    decreases s.len(),
{
    if s.len() > 0 {
        lemma_count_set_none(s.drop_last());
    }
}

pub proof fn lemma_count_set_bounded(s: Seq<bool>)
    ensures
        count_set(s) <= s.len(),
    decreases s.len(),
{
    if s.len() > 0 {
        lemma_count_set_bounded(s.drop_last());
    }
}

pub proof fn lemma_count_set_update(s: Seq<bool>, j: int)
    requires
        0 <= j < s.len(),
        !s[j],
    ensures
        count_set(s.update(j, true)) == count_set(s) + 1,
    decreases s.len(),
{
    let t = s.update(j, true);
    if j == s.len() - 1 {
        assert(t.drop_last() =~= s.drop_last());
    } else {
        assert(t.drop_last() =~= s.drop_last().update(j, true));
        lemma_count_set_update(s.drop_last(), j);
    }
}

/// When fewer flags are set than there are, some flag is clear.
pub proof fn lemma_count_set_some_clear(s: Seq<bool>)
    requires
        count_set(s) < s.len(),
    ensures
        exists|k: int| 0 <= k < s.len() && !s[k],
    decreases s.len(),
{
    if s.last() {
        lemma_count_set_some_clear(s.drop_last());
        let k = choose|k: int| 0 <= k < s.drop_last().len() && !s.drop_last()[k];
        assert(!s[k]);
    } else {
        assert(!s[s.len() - 1]);
    }
}

} // verus!
