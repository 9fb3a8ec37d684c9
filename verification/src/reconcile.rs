//! Cross-source reconciliation: group one company's facts from several sources
//! by their natural key and pick the canonical fact of each group, preferring
//! SEC EDGAR. Comparing the other sources' values against the canonical one
//! (a floating-point relative difference) is done by the caller on the groups
//! returned here.

use vstd::prelude::*;

use crate::domain::{
    period_token, period_type_round_trip, statement_kind_round_trip, statement_token,
    PeriodType, StatementKind,
};
use crate::flags::{count_set, lemma_count_set_bounded, lemma_count_set_none, lemma_count_set_update};
use crate::text::{
    lemma_seq_lt_asymmetric, lemma_seq_lt_irreflexive, lemma_seq_lt_total,
    lemma_seq_lt_transitive, seq_lt, str_eq, str_lt,
};

verus! {

/// The canonical source whose value wins when present.
pub const CANONICAL_SOURCE: &'static str = "edgar";

/// What reconciliation reads of one financial fact: its natural key and the
/// source that reported it. `period_end` counts days since 1970-01-01.
#[derive(Debug, Clone)]
pub struct FactKey {
    pub statement: StatementKind,
    pub line_item: String,
    pub period_type: PeriodType,
    pub period_end: i64,
    pub source: String,
}

/// One group of facts sharing a natural key: the indices of its members (in
/// input order) and the index of the canonical fact among them.
#[derive(Debug, Clone, PartialEq, Eq)]
pub struct FactGroup {
    pub canonical: usize,
    pub members: Vec<usize>,
}

/// The natural key a fact is grouped by, in the order groups are listed:
/// statement token, period-type token, line item, period end.
pub open spec fn key_of(f: FactKey) -> (Seq<char>, Seq<char>, Seq<char>, int) {
    (statement_token(f.statement), period_token(f.period_type), f.line_item@, f.period_end as int)
}

/// Lexicographic order on natural keys.
pub open spec fn key_lt(
    a: (Seq<char>, Seq<char>, Seq<char>, int),
    b: (Seq<char>, Seq<char>, Seq<char>, int),
) -> bool {
    ||| seq_lt(a.0, b.0)
    ||| (a.0 == b.0 && seq_lt(a.1, b.1))
    ||| (a.0 == b.0 && a.1 == b.1 && seq_lt(a.2, b.2))
    ||| (a.0 == b.0 && a.1 == b.1 && a.2 == b.2 && a.3 < b.3)
}

proof fn lemma_key_lt_irreflexive(a: (Seq<char>, Seq<char>, Seq<char>, int))
    ensures
        !key_lt(a, a),
{
    lemma_seq_lt_irreflexive(a.0);
    lemma_seq_lt_irreflexive(a.1);
    lemma_seq_lt_irreflexive(a.2);
}

proof fn lemma_key_lt_transitive(
    a: (Seq<char>, Seq<char>, Seq<char>, int),
    b: (Seq<char>, Seq<char>, Seq<char>, int),
    c: (Seq<char>, Seq<char>, Seq<char>, int),
)
    requires
        key_lt(a, b),
        key_lt(b, c),
    ensures
        key_lt(a, c),
{
    if seq_lt(a.0, b.0) && seq_lt(b.0, c.0) {
        lemma_seq_lt_transitive(a.0, b.0, c.0);
    }
    if a.0 == b.0 && b.0 == c.0 && seq_lt(a.1, b.1) && seq_lt(b.1, c.1) {
        lemma_seq_lt_transitive(a.1, b.1, c.1);
    }
    if a.0 == b.0 && b.0 == c.0 && a.1 == b.1 && b.1 == c.1 && seq_lt(a.2, b.2) && seq_lt(
        b.2,
        c.2,
    ) {
        lemma_seq_lt_transitive(a.2, b.2, c.2);
    }
}

proof fn lemma_key_lt_total(
    a: (Seq<char>, Seq<char>, Seq<char>, int),
    b: (Seq<char>, Seq<char>, Seq<char>, int),
)
    ensures
        a == b || key_lt(a, b) || key_lt(b, a),
{
    lemma_seq_lt_total(a.0, b.0);
    lemma_seq_lt_total(a.1, b.1);
    lemma_seq_lt_total(a.2, b.2);
}

/// Two facts have the same key exactly when their fields agree.
proof fn lemma_key_eq(a: FactKey, b: FactKey)
    ensures
        key_of(a) == key_of(b) <==> (a.statement == b.statement && a.period_type == b.period_type
            && a.line_item@ == b.line_item@ && a.period_end == b.period_end),
{
    statement_kind_round_trip(a.statement);
    statement_kind_round_trip(b.statement);
    period_type_round_trip(a.period_type);
    period_type_round_trip(b.period_type);
}

fn key_less(a: &FactKey, b: &FactKey) -> (r: bool)
    ensures
        r == key_lt(key_of(*a), key_of(*b)),
{
    proof {
        lemma_key_eq(*a, *b);
    }
    let (sa, sb) = (a.statement.as_str(), b.statement.as_str());
    if str_lt(sa, sb) {
        return true;
    }
    if !str_eq(sa, sb) {
        return false;
    }
    let (pa, pb) = (a.period_type.as_str(), b.period_type.as_str());
    if str_lt(pa, pb) {
        return true;
    }
    if !str_eq(pa, pb) {
        return false;
    }
    if str_lt(a.line_item.as_str(), b.line_item.as_str()) {
        return true;
    }
    if !str_eq(a.line_item.as_str(), b.line_item.as_str()) {
        return false;
    }
    a.period_end < b.period_end
}

fn key_same(a: &FactKey, b: &FactKey) -> (r: bool)
    ensures
        r == (key_of(*a) == key_of(*b)),
{
    proof {
        lemma_key_eq(*a, *b);
    }
    a.statement == b.statement && a.period_type == b.period_type && str_eq(
        a.line_item.as_str(),
        b.line_item.as_str(),
    ) && a.period_end == b.period_end
}

/// Whether a fact came from the canonical source.
pub open spec fn from_edgar(f: FactKey) -> bool {
    f.source@ == "edgar"@
}

/// Whether position `p` of `members` holds the canonical fact: the first
/// EDGAR fact when the group has one, else the first fact whose source name
/// is smallest.
pub open spec fn canonical_at(facts: Seq<FactKey>, members: Seq<usize>, p: int) -> bool {
    let chosen = facts[members[p] as int].source@;
    if exists|q: int| 0 <= q < members.len() && from_edgar(#[trigger] facts[members[q] as int]) {
        from_edgar(facts[members[p] as int]) && forall|q: int|
            0 <= q < p ==> !from_edgar(#[trigger] facts[members[q] as int])
    } else {
        &&& forall|q: int|
            0 <= q < members.len() ==> !seq_lt((#[trigger] facts[members[q] as int]).source@, chosen)
        &&& forall|q: int| 0 <= q < p ==> (#[trigger] facts[members[q] as int]).source@ != chosen
    }
}

/// The key shared by a group's members.
pub open spec fn group_key(facts: Seq<FactKey>, g: FactGroup) -> (
    Seq<char>,
    Seq<char>,
    Seq<char>,
    int,
) {
    key_of(facts[g.members@[0] as int])
}

/// A well-formed group: non-empty, members strictly increasing, exactly the
/// facts with the group's key, and the canonical fact chosen by the rule.
pub open spec fn group_ok(facts: Seq<FactKey>, g: FactGroup) -> bool {
    &&& g.members@.len() > 0
    &&& forall|i: int, j: int|
        0 <= i < j < g.members@.len() ==> g.members@[i] < g.members@[j]
    &&& forall|i: int| 0 <= i < g.members@.len() ==> g.members@[i] < facts.len()
    &&& forall|k: int|
        0 <= k < facts.len() ==> (g.members@.contains(k as usize) <==> key_of(facts[k])
            == group_key(facts, g))
    &&& exists|p: int|
        0 <= p < g.members@.len() && g.members@[p] == g.canonical && canonical_at(
            facts,
            g.members@,
            p,
        )
}

/// The source name of the member at position `p`.
pub open spec fn best_source(facts: Seq<FactKey>, members: Seq<usize>, p: int) -> Seq<char> {
    facts[members[p] as int].source@
}

/// Choose the canonical member of a non-empty group.
fn pick_canonical(facts: &Vec<FactKey>, members: &Vec<usize>) -> (r: usize)
    requires
        members@.len() > 0,
        forall|i: int| 0 <= i < members@.len() ==> members@[i] < facts@.len(),
    ensures
        exists|p: int|
            0 <= p < members@.len() && members@[p] == r && canonical_at(facts@, members@, p),
{
    let mut p: usize = 0;
    while p < members.len()
        invariant
            p <= members@.len(),
            forall|i: int| 0 <= i < members@.len() ==> members@[i] < facts@.len(),
            forall|q: int| 0 <= q < p ==> !from_edgar(#[trigger] facts@[members@[q] as int]),
        decreases members.len() - p,
    {
        if str_eq(facts[members[p]].source.as_str(), CANONICAL_SOURCE) {
            assert(canonical_at(facts@, members@, p as int));
            return members[p];
        }
        p = p + 1;
    }
    let mut best: usize = 0;
    let mut q: usize = 1;
    proof {
        lemma_seq_lt_irreflexive(best_source(facts@, members@, 0));
    }
    while q < members.len()
        invariant
            1 <= q <= members@.len(),
            best < q,
            forall|i: int| 0 <= i < members@.len() ==> members@[i] < facts@.len(),
            forall|i: int| 0 <= i < members@.len() ==> !from_edgar(#[trigger] facts@[members@[i] as int]),
            forall|i: int| 0 <= i < q ==> !seq_lt((#[trigger] facts@[members@[i] as int]).source@, best_source(facts@, members@, best as int)),
            forall|i: int| 0 <= i < best ==> (#[trigger] facts@[members@[i] as int]).source@ != best_source(facts@, members@, best as int),
        decreases members.len() - q,
    {
        let cand = &facts[members[q]].source;
        let cur = &facts[members[best]].source;
        if str_lt(cand.as_str(), cur.as_str()) {
            let ghost old_best = best;
            proof {
                assert forall|i: int| 0 <= i < q + 1 implies !seq_lt((#[trigger] facts@[members@[i] as int]).source@, best_source(facts@, members@, q as int)) by {
                    let si = facts@[members@[i] as int].source@;
                    if i == q {
                        lemma_seq_lt_irreflexive(si);
                    } else if seq_lt(si, cand@) {
                        lemma_seq_lt_transitive(si, cand@, cur@);
                    }
                }
                assert forall|i: int| 0 <= i < q implies (#[trigger] facts@[members@[i] as int]).source@ != best_source(facts@, members@, q as int) by {
                    let si = facts@[members@[i] as int].source@;
                    if si == cand@ {
                        assert(seq_lt(si, cur@));
                    }
                }
            }
            best = q;
        } else {
            proof {
                lemma_seq_lt_total(cand@, cur@);
            }
        }
        q = q + 1;
    }
    assert(canonical_at(facts@, members@, best as int));
    members[best]
}

/// Every group is well formed and the groups come in strictly increasing key
/// order.
pub open spec fn groups_sorted(facts: Seq<FactKey>, groups: Seq<FactGroup>) -> bool {
    &&& forall|g: int| 0 <= g < groups.len() ==> group_ok(facts, #[trigger] groups[g])
    &&& forall|a: int, b: int|
        0 <= a < b < groups.len() ==> key_lt(
            group_key(facts, #[trigger] groups[a]),
            group_key(facts, #[trigger] groups[b]),
        )
}

/// Whether some group has key `key`.
pub open spec fn has_group(
    facts: Seq<FactKey>,
    groups: Seq<FactGroup>,
    key: (Seq<char>, Seq<char>, Seq<char>, int),
) -> bool {
    exists|g: int| 0 <= g < groups.len() && key == group_key(facts, #[trigger] groups[g])
}

/// The flags mark exactly the facts whose key already has a group.
spec fn marks_grouped(facts: Seq<FactKey>, groups: Seq<FactGroup>, used: Seq<bool>) -> bool {
    &&& used.len() == facts.len()
    &&& forall|k: int|
        0 <= k < facts.len() ==> (#[trigger] used[k] <==> has_group(facts, groups, key_of(facts[k])))
}

/// Every ungrouped fact's key comes after every group's key.
spec fn rest_after(facts: Seq<FactKey>, groups: Seq<FactGroup>, used: Seq<bool>) -> bool {
    forall|k: int, g: int|
        0 <= k < facts.len() && 0 <= g < groups.len() && !used[k] ==> key_lt(
            group_key(facts, #[trigger] groups[g]),
            key_of(#[trigger] facts[k]),
        )
}

proof fn lemma_add_group(
    facts: Seq<FactKey>,
    groups: Seq<FactGroup>,
    group: FactGroup,
    old_used: Seq<bool>,
    used: Seq<bool>,
    bkey: (Seq<char>, Seq<char>, Seq<char>, int),
)
    requires
        groups_sorted(facts, groups),
        marks_grouped(facts, groups, old_used),
        rest_after(facts, groups, old_used),
        group_ok(facts, group),
        group_key(facts, group) == bkey,
        exists|b: int| 0 <= b < facts.len() && !old_used[b] && key_of(facts[b]) == bkey,
        forall|k: int|
            0 <= k < facts.len() && !old_used[k] ==> !key_lt(key_of(#[trigger] facts[k]), bkey),
        used.len() == facts.len(),
        forall|m: int|
            0 <= m < facts.len() ==> (#[trigger] used[m] <==> (old_used[m] || key_of(facts[m])
                == bkey)),
    ensures
        groups_sorted(facts, groups.push(group)),
        marks_grouped(facts, groups.push(group), used),
        rest_after(facts, groups.push(group), used),
{
    let ng = groups.push(group);
    let b = choose|b: int| 0 <= b < facts.len() && !old_used[b] && key_of(facts[b]) == bkey;
    assert forall|g: int| 0 <= g < ng.len() implies group_ok(facts, #[trigger] ng[g]) by {
        if g < groups.len() {
            assert(ng[g] == groups[g]);
        }
    }
    assert forall|x: int, y: int| 0 <= x < y < ng.len() implies key_lt(
        group_key(facts, #[trigger] ng[x]),
        group_key(facts, #[trigger] ng[y]),
    ) by {
        assert(ng[x] == groups[x]);
        if y < groups.len() {
            assert(ng[y] == groups[y]);
        } else {
            assert(ng[y] == group);
            assert(key_lt(group_key(facts, groups[x]), key_of(facts[b])));
        }
    }
    assert forall|k: int| 0 <= k < facts.len() implies (#[trigger] used[k] <==> has_group(
        facts,
        ng,
        key_of(facts[k]),
    )) by {
        let kk = key_of(facts[k]);
        if old_used[k] {
            assert(has_group(facts, groups, kk));
            let g = choose|g: int| 0 <= g < groups.len() && kk == group_key(facts, #[trigger] groups[g]);
            assert(ng[g] == groups[g]);
        } else if kk == bkey {
            assert(ng[groups.len() as int] == group);
        } else {
            assert(!used[k]);
            assert forall|g: int| 0 <= g < ng.len() implies kk != group_key(facts, #[trigger] ng[g]) by {
                if g < groups.len() {
                    assert(ng[g] == groups[g]);
                    assert(key_lt(group_key(facts, groups[g]), kk));
                    lemma_key_lt_irreflexive(kk);
                } else {
                    assert(ng[g] == group);
                }
            }
        }
    }
    assert forall|k: int, g: int|
        0 <= k < facts.len() && 0 <= g < ng.len() && !used[k] implies key_lt(
        group_key(facts, #[trigger] ng[g]),
        key_of(#[trigger] facts[k]),
    ) by {
        assert(!old_used[k]);
        if g < groups.len() {
            assert(ng[g] == groups[g]);
        } else {
            assert(ng[g] == group);
            lemma_key_lt_total(bkey, key_of(facts[k]));
        }
    }
}

/// Collect, in input order, every fact whose key is `bkey`, marking each.
fn gather(
    facts: &Vec<FactKey>,
    used: &mut Vec<bool>,
    taken: &mut usize,
    best: usize,
) -> (members: Vec<usize>)
    requires
        old(used)@.len() == facts@.len(),
        best < facts@.len(),
        *old(taken) == count_set(old(used)@),
        forall|m: int|
            0 <= m < facts@.len() && key_of(#[trigger] facts@[m]) == key_of(facts@[best as int])
                ==> !old(used)@[m],
    ensures
        final(used)@.len() == facts@.len(),
        forall|m: int|
            0 <= m < facts@.len() ==> (#[trigger] final(used)@[m] <==> (old(used)@[m] || key_of(
                facts@[m],
            ) == key_of(facts@[best as int]))),
        *final(taken) == count_set(final(used)@),
        *final(taken) > *old(taken),
        members@.len() > 0,
        forall|a: int, b: int| 0 <= a < b < members@.len() ==> members@[a] < members@[b],
        forall|a: int| 0 <= a < members@.len() ==> members@[a] < facts@.len(),
        forall|m: int|
            0 <= m < facts@.len() ==> (members@.contains(m as usize) <==> key_of(
                #[trigger] facts@[m],
            ) == key_of(facts@[best as int])),
{
    let n: usize = facts.len();
    let ghost bkey = key_of(facts@[best as int]);
    let ghost old_used = used@;
    let ghost old_taken = *taken;
    let mut members: Vec<usize> = Vec::new();
    let mut k: usize = 0;
    while k < n
        invariant
            n == facts@.len(),
            used@.len() == n,
            old_used.len() == n,
            k <= n,
            best < n,
            bkey == key_of(facts@[best as int]),
            forall|m: int| 0 <= m < n && key_of(#[trigger] facts@[m]) == bkey ==> !old_used[m],
            forall|m: int|
                0 <= m < k ==> (#[trigger] used@[m] <==> (old_used[m] || key_of(facts@[m])
                    == bkey)),
            forall|m: int| k <= m < n ==> #[trigger] used@[m] == old_used[m],
            *taken == count_set(used@),
            forall|a: int, b: int| 0 <= a < b < members@.len() ==> members@[a] < members@[b],
            forall|a: int| 0 <= a < members@.len() ==> members@[a] < k,
            forall|m: int|
                0 <= m < k ==> (members@.contains(m as usize) <==> key_of(#[trigger] facts@[m])
                    == bkey),
            k > best ==> members@.len() > 0 && *taken > old_taken,
            *taken >= old_taken,
        decreases n - k,
    {
        let ghost before = members@;
        let ghost used_before = used@;
        if key_same(&facts[k], &facts[best]) {
            proof {
                lemma_count_set_update(used@, k as int);
                lemma_count_set_bounded(used@.update(k as int, true));
            }
            members.push(k);
            used.set(k, true);
            *taken = *taken + 1;
            proof {
                assert forall|m: int| 0 <= m < k + 1 implies (#[trigger] used@[m] <==> (old_used[m]
                    || key_of(facts@[m]) == bkey)) by {
                    if m < k {
                        assert(used@[m] == used_before[m]);
                    }
                }
                assert forall|m: int| k + 1 <= m < n implies #[trigger] used@[m] == old_used[m] by {
                    assert(used@[m] == used_before[m]);
                }
                assert forall|m: int| 0 <= m < k + 1 implies (members@.contains(m as usize) <==> key_of(
                    #[trigger] facts@[m],
                ) == bkey) by {
                    if m < k {
                        if before.contains(m as usize) {
                            let a = choose|a: int| 0 <= a < before.len() && before[a] == m as usize;
                            assert(members@[a] == m as usize);
                        }
                        if members@.contains(m as usize) {
                            let a = choose|a: int| 0 <= a < members@.len() && members@[a] == m as usize;
                            if a < before.len() {
                                assert(before[a] == m as usize);
                            }
                        }
                    } else {
                        assert(members@[before.len() as int] == k);
                    }
                }
            }
        } else {
            proof {
                assert forall|m: int| 0 <= m < k + 1 implies (members@.contains(m as usize) <==> key_of(
                    #[trigger] facts@[m],
                ) == bkey) by {
                    if m == k && members@.contains(m as usize) {
                        let a = choose|a: int| 0 <= a < members@.len() && members@[a] == m as usize;
                    }
                }
                assert(k == best ==> key_of(facts@[k as int]) == bkey);
            }
        }
        k = k + 1;
    }
    members
}

/// Group `facts` by natural key. Groups come in increasing key order; each
/// lists its members in input order and names its canonical fact (the first
/// EDGAR fact, else the first fact with the smallest source name). Every fact
/// belongs to exactly the group of its key.
pub fn group_facts(facts: &Vec<FactKey>) -> (groups: Vec<FactGroup>)
    ensures
        groups_sorted(facts@, groups@),
        forall|k: int|
            0 <= k < facts@.len() ==> has_group(facts@, groups@, key_of(#[trigger] facts@[k])),
{
    let n: usize = facts.len();
    let mut used: Vec<bool> = Vec::new();
    let mut i: usize = 0;
    while i < n
        invariant
            i <= n,
            used@.len() == i,
            forall|k: int| 0 <= k < i ==> !used@[k],
        decreases n - i,
    {
        used.push(false);
        i = i + 1;
    }
    proof {
        lemma_count_set_none(used@);
    }
    let mut groups: Vec<FactGroup> = Vec::new();
    let mut taken: usize = 0;
    loop
        invariant
            n == facts@.len(),
            used@.len() == n,
            taken == count_set(used@),
            groups_sorted(facts@, groups@),
            marks_grouped(facts@, groups@, used@),
            rest_after(facts@, groups@, used@),
        ensures
            groups_sorted(facts@, groups@),
            forall|k: int|
                0 <= k < n ==> has_group(facts@, groups@, key_of(#[trigger] facts@[k])),
        decreases n - taken,
    {
        proof {
            lemma_count_set_bounded(used@);
        }
        // the first fact not yet grouped
        let mut first: usize = 0;
        while first < n && used[first]
            invariant
                first <= n,
                used@.len() == n,
                forall|k: int| 0 <= k < first ==> used@[k],
            decreases n - first,
        {
            first = first + 1;
        }
        if first == n {
            proof {
                assert forall|k: int| 0 <= k < n implies has_group(
                    facts@,
                    groups@,
                    key_of(#[trigger] facts@[k]),
                ) by {
                    assert(used@[k]);
                }
            }
            break;
        }
        // the smallest key among the facts not yet grouped
        let mut best: usize = first;
        let mut j: usize = first + 1;
        proof {
            lemma_key_lt_irreflexive(key_of(facts@[first as int]));
        }
        while j < n
            invariant
                n == facts@.len(),
                used@.len() == n,
                first < j <= n,
                best < j,
                !used@[best as int],
                forall|k: int|
                    0 <= k < j && !used@[k] ==> !key_lt(
                        key_of(#[trigger] facts@[k]),
                        key_of(facts@[best as int]),
                    ),
                forall|k: int| 0 <= k < first ==> used@[k],
            decreases n - j,
        {
            if !used[j] && key_less(&facts[j], &facts[best]) {
                proof {
                    let kj = key_of(facts@[j as int]);
                    let kb = key_of(facts@[best as int]);
                    assert forall|k: int| 0 <= k < j + 1 && !used@[k] implies !key_lt(
                        key_of(#[trigger] facts@[k]),
                        kj,
                    ) by {
                        if k == j {
                            lemma_key_lt_irreflexive(kj);
                        } else if key_lt(key_of(facts@[k]), kj) {
                            lemma_key_lt_transitive(key_of(facts@[k]), kj, kb);
                        }
                    }
                }
                best = j;
            }
            j = j + 1;
        }
        let ghost bkey = key_of(facts@[best as int]);
        let ghost old_used = used@;
        proof {
            assert forall|m: int|
                0 <= m < n && key_of(#[trigger] facts@[m]) == bkey implies !used@[m] by {
                if used@[m] {
                    assert(has_group(facts@, groups@, key_of(facts@[m])));
                    let g = choose|g: int|
                        0 <= g < groups@.len() && bkey == group_key(facts@, #[trigger] groups@[g]);
                    assert(key_lt(group_key(facts@, groups@[g]), key_of(facts@[best as int])));
                    lemma_key_lt_irreflexive(bkey);
                }
            }
        }
        let members = gather(facts, &mut used, &mut taken, best);
        let canonical = pick_canonical(facts, &members);
        let group = FactGroup { canonical, members };
        proof {
            assert(group.members@.contains(best));
            let a = choose|a: int| 0 <= a < group.members@.len() && group.members@[a] == best;
            assert(group_key(facts@, group) == bkey);
            assert(group_ok(facts@, group));
            lemma_add_group(facts@, groups@, group, old_used, used@, bkey);
            lemma_count_set_bounded(used@);
        }
        groups.push(group);
    }
    groups
}

/// Every fact lands in the group of its key, and no two groups share a key,
/// so each natural key yields exactly one canonical fact.
pub proof fn one_canonical_per_key(facts: Seq<FactKey>, groups: Seq<FactGroup>, a: int, b: int)
    requires
        groups_sorted(facts, groups),
        0 <= a < groups.len(),
        0 <= b < groups.len(),
        a != b,
    ensures
        group_key(facts, groups[a]) != group_key(facts, groups[b]),
{
    if a < b {
        lemma_key_lt_irreflexive(group_key(facts, groups[a]));
    } else {
        lemma_key_lt_irreflexive(group_key(facts, groups[b]));
    }
}

/// EDGAR wins: whenever a group holds an EDGAR fact, its canonical fact is
/// from EDGAR.
pub proof fn edgar_wins(facts: Seq<FactKey>, g: FactGroup)
    requires
        group_ok(facts, g),
        exists|q: int| 0 <= q < g.members@.len() && (#[trigger] facts[g.members@[q] as int]).source@ == "edgar"@,
    ensures
        facts[g.canonical as int].source@ == "edgar"@,
{
    let q = choose|q: int| 0 <= q < g.members@.len() && (#[trigger] facts[g.members@[q] as int]).source@ == "edgar"@;
    assert(from_edgar(facts[g.members@[q] as int]));
}

/// Without EDGAR, no member of a group has a source name that sorts before
/// the canonical one.
pub proof fn lowest_source_wins_without_edgar(facts: Seq<FactKey>, g: FactGroup, q: int)
    requires
        group_ok(facts, g),
        forall|i: int| 0 <= i < g.members@.len() ==> !from_edgar(#[trigger] facts[g.members@[i] as int]),
        0 <= q < g.members@.len(),
    ensures
        !seq_lt(facts[g.members@[q] as int].source@, facts[g.canonical as int].source@),
{
}

} // verus!
