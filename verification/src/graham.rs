//! Benjamin Graham defensive-investor checks: the pass/fail criterion record
//! and how an assessment scores them. The checks themselves compare amounts
//! and are evaluated outside the library.

use vstd::prelude::*;

verus! {

/// Fewest years of net income the earnings-stability check needs.
pub const MIN_STABILITY_YEARS: usize = 3;

/// One pass/fail check with a human-readable detail.
#[derive(Debug, Clone, PartialEq, Eq)]
pub struct Criterion {
    pub name: String,
    pub passed: bool,
    pub detail: String,
}

/// How many of the criteria passed.
pub open spec fn passed_count(cs: Seq<Criterion>) -> nat
    decreases cs.len(),
{
    if cs.len() == 0 {
        0
    } else {
        passed_count(cs.drop_last()) + if cs.last().passed {
            1nat
        } else {
            0nat
        }
    }
}

proof fn lemma_passed_count_bounded(cs: Seq<Criterion>)
    ensures
        passed_count(cs) <= cs.len(),
    decreases cs.len(),
{
    if cs.len() > 0 {
        lemma_passed_count_bounded(cs.drop_last());
    }
}

/// A company passes the defensive screen only when every criterion passed.
proof fn lemma_all_passed(cs: Seq<Criterion>)
    ensures
        passed_count(cs) == cs.len() <==> forall|i: int| 0 <= i < cs.len() ==> #[trigger] cs[i].passed,
    decreases cs.len(),
{
    if cs.len() > 0 {
        lemma_all_passed(cs.drop_last());
        lemma_passed_count_bounded(cs.drop_last());
        assert forall|i: int| 0 <= i < cs.len() - 1 implies #[trigger] cs.drop_last()[i] == cs[i] by {}
        if passed_count(cs) == cs.len() {
            assert forall|i: int| 0 <= i < cs.len() implies #[trigger] cs[i].passed by {
                if i < cs.len() - 1 {
                    assert(cs.drop_last()[i] == cs[i]);
                }
            }
        }
        if forall|i: int| 0 <= i < cs.len() ==> #[trigger] cs[i].passed {
            assert(cs.last().passed);
            assert forall|i: int| 0 <= i < cs.drop_last().len() implies #[trigger] cs.drop_last()[i].passed by {
                assert(cs.drop_last()[i] == cs[i]);
            }
        }
    }
}

/// The score counts exactly the criteria that passed.
pub proof fn score_counts_passed_criteria(cs: Seq<Criterion>)
    ensures
        passed_count(cs) == cs.filter(|c: Criterion| c.passed).len(),
    decreases cs.len(),
{
    reveal(Seq::filter);
    if cs.len() > 0 {
        score_counts_passed_criteria(cs.drop_last());
    }
}

/// An assessment's score (criteria passed) and whether it passes the
/// defensive screen (every criterion passed).
pub fn score(criteria: &Vec<Criterion>) -> (r: (u32, bool))
    requires
        criteria@.len() <= u32::MAX,
    ensures
        r.0 == passed_count(criteria@),
        r.0 == criteria@.filter(|c: Criterion| c.passed).len(),
        r.1 == (forall|i: int| 0 <= i < criteria@.len() ==> #[trigger] criteria@[i].passed),
{
    let mut n: u32 = 0;
    let mut i: usize = 0;
    while i < criteria.len()
        invariant
            i <= criteria@.len() <= u32::MAX,
            n == passed_count(criteria@.subrange(0, i as int)),
        decreases criteria.len() - i,
    {
        assert(criteria@.subrange(0, i + 1).drop_last() =~= criteria@.subrange(0, i as int));
        proof {
            lemma_passed_count_bounded(criteria@.subrange(0, i as int));
        }
        if criteria[i].passed {
            n = n + 1;
        }
        i = i + 1;
    }
    assert(criteria@.subrange(0, criteria@.len() as int) =~= criteria@);
    proof {
        lemma_all_passed(criteria@);
        score_counts_passed_criteria(criteria@);
    }
    (n, n as usize == criteria.len())
}

} // verus!
