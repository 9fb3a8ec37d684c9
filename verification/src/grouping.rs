//! Grouping of facts into periods: one value per (period, line item), the
//! last one given, with periods in increasing order and line items in name
//! order inside each period. Ratio and Graham computations read facts
//! through this grouping.

use vstd::prelude::*;

use crate::text::{
    lemma_seq_lt_irreflexive, lemma_seq_lt_total, lemma_seq_lt_transitive, seq_lt, str_eq, str_lt,
};

verus! {

/// What orders periods: a major then a minor component (a period end and the
/// period type's rank, or a fiscal year and zero).
#[derive(Debug, Clone, Copy, PartialEq, Eq, Structural)]
pub struct PeriodKey {
    pub major: i64,
    pub minor: i64,
}

/// The facts of one period: the indices of the facts that stand for each of
/// its line items, in line-item order.
#[derive(Debug, Clone)]
pub struct ItemGroup {
    pub key: PeriodKey,
    pub members: Vec<usize>,
}

/// Lexicographic order on period keys.
pub open spec fn pair_lt(a: PeriodKey, b: PeriodKey) -> bool {
    a.major < b.major || (a.major == b.major && a.minor < b.minor)
}

/// The (period, line item) a fact belongs to.
pub open spec fn slot_of(keys: Seq<PeriodKey>, items: Seq<String>, i: int) -> (PeriodKey, Seq<char>) {
    (keys[i], items[i]@)
}

/// Order on (period, line item) slots: by period, then by line-item name.
pub open spec fn slot_lt(a: (PeriodKey, Seq<char>), b: (PeriodKey, Seq<char>)) -> bool {
    pair_lt(a.0, b.0) || (a.0 == b.0 && seq_lt(a.1, b.1))
}

proof fn lemma_slot_irreflexive(a: (PeriodKey, Seq<char>))
    ensures
        !slot_lt(a, a),
{
    lemma_seq_lt_irreflexive(a.1);
}

proof fn lemma_slot_transitive(
    a: (PeriodKey, Seq<char>),
    b: (PeriodKey, Seq<char>),
    c: (PeriodKey, Seq<char>),
)
    requires
        slot_lt(a, b),
        slot_lt(b, c),
    ensures
        slot_lt(a, c),
{
    if a.0 == b.0 && b.0 == c.0 {
        lemma_seq_lt_transitive(a.1, b.1, c.1);
    }
}

proof fn lemma_slot_total(a: (PeriodKey, Seq<char>), b: (PeriodKey, Seq<char>))
    ensures
        a == b || slot_lt(a, b) || slot_lt(b, a),
{
    lemma_seq_lt_total(a.1, b.1);
}

/// Fact `i` is the last of the first `n` facts in its slot.
pub open spec fn last_in_slot(keys: Seq<PeriodKey>, items: Seq<String>, n: int, i: int) -> bool {
    &&& 0 <= i < n
    &&& forall|j: int|
        i < j < n ==> #[trigger] slot_of(keys, items, j) != slot_of(keys, items, i)
}

/// Some pick lies in slot `s`.
pub open spec fn slot_picked(
    keys: Seq<PeriodKey>,
    items: Seq<String>,
    picks: Seq<usize>,
    s: (PeriodKey, Seq<char>),
) -> bool {
    exists|k: int| 0 <= k < picks.len() && #[trigger] slot_of(keys, items, picks[k] as int) == s
}

/// `picks` lists, in slot order, the last fact of every slot among the first
/// `n` facts.
pub open spec fn picks_ok(keys: Seq<PeriodKey>, items: Seq<String>, n: int, picks: Seq<usize>) -> bool {
    &&& forall|a: int, b: int|
        0 <= a < b < picks.len() ==> slot_lt(
            slot_of(keys, items, picks[a] as int),
            slot_of(keys, items, picks[b] as int),
        )
    &&& forall|k: int|
        #![trigger picks[k]]
        0 <= k < picks.len() ==> last_in_slot(keys, items, n, picks[k] as int)
    &&& forall|j: int|
        0 <= j < n ==> slot_picked(keys, items, picks, #[trigger] slot_of(keys, items, j))
}

fn slot_less(keys: &Vec<PeriodKey>, items: &Vec<String>, i: usize, j: usize) -> (r: bool)
    requires
        i < keys@.len(),
        j < keys@.len(),
        keys@.len() == items@.len(),
    ensures
        r == slot_lt(slot_of(keys@, items@, i as int), slot_of(keys@, items@, j as int)),
{
    let (a, b) = (keys[i], keys[j]);
    if a.major < b.major || (a.major == b.major && a.minor < b.minor) {
        return true;
    }
    if a.major != b.major || a.minor != b.minor {
        return false;
    }
    str_lt(items[i].as_str(), items[j].as_str())
}

fn slot_same(keys: &Vec<PeriodKey>, items: &Vec<String>, i: usize, j: usize) -> (r: bool)
    requires
        i < keys@.len(),
        j < keys@.len(),
        keys@.len() == items@.len(),
    ensures
        r == (slot_of(keys@, items@, i as int) == slot_of(keys@, items@, j as int)),
{
    let (a, b) = (keys[i], keys[j]);
    a.major == b.major && a.minor == b.minor && str_eq(items[i].as_str(), items[j].as_str())
}

/// A later fact of a picked slot takes that slot's place.
proof fn lemma_picks_replace(
    keys: Seq<PeriodKey>,
    items: Seq<String>,
    n: usize,
    picks: Seq<usize>,
    p: int,
)
    requires
        picks_ok(keys, items, n as int, picks),
        n < keys.len(),
        keys.len() == items.len(),
        0 <= p < picks.len(),
        slot_of(keys, items, picks[p] as int) == slot_of(keys, items, n as int),
    ensures
        picks_ok(keys, items, n + 1, picks.update(p, n)),
{
    let picks2 = picks.update(p, n);
    assert forall|a: int, b: int| 0 <= a < b < picks2.len() implies slot_lt(
        slot_of(keys, items, picks2[a] as int),
        slot_of(keys, items, picks2[b] as int),
    ) by {
        assert(slot_lt(slot_of(keys, items, picks[a] as int), slot_of(keys, items, picks[b] as int)));
    }
    assert forall|k: int| #![trigger picks2[k]] 0 <= k < picks2.len() implies last_in_slot(
        keys,
        items,
        n + 1,
        picks2[k] as int,
    ) by {
        if k != p {
            assert(last_in_slot(keys, items, n as int, picks[k] as int));
            if slot_of(keys, items, n as int) == slot_of(keys, items, picks[k] as int) {
                if k < p {
                    assert(slot_lt(slot_of(keys, items, picks[k] as int), slot_of(keys, items, picks[p] as int)));
                } else {
                    assert(slot_lt(slot_of(keys, items, picks[p] as int), slot_of(keys, items, picks[k] as int)));
                }
                lemma_slot_irreflexive(slot_of(keys, items, n as int));
            }
        }
    }
    assert forall|j: int| 0 <= j < n + 1 implies slot_picked(
        keys,
        items,
        picks2,
        #[trigger] slot_of(keys, items, j),
    ) by {
        if j == n as int {
            assert(slot_of(keys, items, picks2[p] as int) == slot_of(keys, items, j));
        } else {
            assert(slot_picked(keys, items, picks, slot_of(keys, items, j)));
            let k = choose|k: int|
                0 <= k < picks.len() && #[trigger] slot_of(keys, items, picks[k] as int) == slot_of(
                    keys,
                    items,
                    j,
                );
            assert(slot_of(keys, items, picks2[k] as int) == slot_of(keys, items, j));
        }
    }
}

/// The first fact of a new slot goes in at its place in slot order.
proof fn lemma_picks_insert(
    keys: Seq<PeriodKey>,
    items: Seq<String>,
    n: usize,
    picks: Seq<usize>,
    p: int,
)
    requires
        picks_ok(keys, items, n as int, picks),
        n < keys.len(),
        keys.len() == items.len(),
        0 <= p <= picks.len(),
        forall|a: int|
            0 <= a < p ==> slot_lt(
                #[trigger] slot_of(keys, items, picks[a] as int),
                slot_of(keys, items, n as int),
            ),
        p < picks.len() ==> slot_lt(slot_of(keys, items, n as int), slot_of(keys, items, picks[p] as int)),
    ensures
        picks_ok(keys, items, n + 1, picks.insert(p, n)),
{
    let picks2 = picks.insert(p, n);
    let sx = slot_of(keys, items, n as int);
    assert forall|b: int| p <= b < picks.len() implies slot_lt(
        sx,
        #[trigger] slot_of(keys, items, picks[b] as int),
    ) by {
        if b > p {
            assert(slot_lt(slot_of(keys, items, picks[p] as int), slot_of(keys, items, picks[b] as int)));
            lemma_slot_transitive(sx, slot_of(keys, items, picks[p] as int), slot_of(keys, items, picks[b] as int));
        }
    }
    assert forall|k: int| 0 <= k < picks.len() implies #[trigger] slot_of(keys, items, picks[k] as int)
        != sx by {
        lemma_slot_irreflexive(sx);
    }
    assert forall|a: int, b: int| 0 <= a < b < picks2.len() implies slot_lt(
        slot_of(keys, items, picks2[a] as int),
        slot_of(keys, items, picks2[b] as int),
    ) by {
        if b < p {
            assert(slot_lt(slot_of(keys, items, picks[a] as int), slot_of(keys, items, picks[b] as int)));
        } else if b == p {
            assert(slot_lt(slot_of(keys, items, picks[a] as int), sx));
        } else if a < p {
            assert(slot_lt(slot_of(keys, items, picks[a] as int), sx));
            assert(slot_lt(sx, slot_of(keys, items, picks[b - 1] as int)));
            lemma_slot_transitive(slot_of(keys, items, picks[a] as int), sx, slot_of(keys, items, picks[b - 1] as int));
        } else if a == p {
            assert(slot_lt(sx, slot_of(keys, items, picks[b - 1] as int)));
        } else {
            assert(slot_lt(slot_of(keys, items, picks[a - 1] as int), slot_of(keys, items, picks[b - 1] as int)));
        }
    }
    assert forall|k: int| #![trigger picks2[k]] 0 <= k < picks2.len() implies last_in_slot(
        keys,
        items,
        n + 1,
        picks2[k] as int,
    ) by {
        if k != p {
            let k0 = if k < p {
                k
            } else {
                k - 1
            };
            assert(picks2[k] == picks[k0]);
            assert(last_in_slot(keys, items, n as int, picks[k0] as int));
            assert(slot_of(keys, items, picks[k0] as int) != sx);
        }
    }
    assert forall|j: int| 0 <= j < n + 1 implies slot_picked(
        keys,
        items,
        picks2,
        #[trigger] slot_of(keys, items, j),
    ) by {
        if j == n as int {
            assert(slot_of(keys, items, picks2[p] as int) == slot_of(keys, items, j));
        } else {
            assert(slot_picked(keys, items, picks, slot_of(keys, items, j)));
            let k = choose|k: int|
                0 <= k < picks.len() && #[trigger] slot_of(keys, items, picks[k] as int) == slot_of(
                    keys,
                    items,
                    j,
                );
            if k < p {
                assert(slot_of(keys, items, picks2[k] as int) == slot_of(keys, items, j));
            } else {
                assert(slot_of(keys, items, picks2[k + 1] as int) == slot_of(keys, items, j));
            }
        }
    }
}

/// The last fact of every (period, line item) slot, in slot order.
fn slot_picks(keys: &Vec<PeriodKey>, items: &Vec<String>) -> (picks: Vec<usize>)
    requires
        keys@.len() == items@.len(),
    ensures
        picks_ok(keys@, items@, keys@.len() as int, picks@),
        forall|k: int| 0 <= k < picks@.len() ==> #[trigger] picks@[k] < keys@.len(),
{
    let mut picks: Vec<usize> = Vec::new();
    let mut i: usize = 0;
    while i < keys.len()
        invariant
            keys@.len() == items@.len(),
            i <= keys@.len(),
            picks_ok(keys@, items@, i as int, picks@),
        decreases keys.len() - i,
    {
        let mut p: usize = 0;
        while p < picks.len() && slot_less(keys, items, picks[p], i)
            invariant
                keys@.len() == items@.len(),
                i < keys@.len(),
                p <= picks@.len(),
                picks_ok(keys@, items@, i as int, picks@),
                forall|a: int|
                    0 <= a < p ==> slot_lt(
                        #[trigger] slot_of(keys@, items@, picks@[a] as int),
                        slot_of(keys@, items@, i as int),
                    ),
            decreases picks.len() - p,
        {
            p = p + 1;
        }
        if p < picks.len() && slot_same(keys, items, picks[p], i) {
            proof {
                lemma_picks_replace(keys@, items@, i, picks@, p as int);
            }
            picks.set(p, i);
        } else {
            proof {
                if p < picks@.len() {
                    lemma_slot_total(
                        slot_of(keys@, items@, picks@[p as int] as int),
                        slot_of(keys@, items@, i as int),
                    );
                }
                lemma_picks_insert(keys@, items@, i, picks@, p as int);
            }
            picks.insert(p, i);
        }
        i = i + 1;
    }
    picks
}

/// Some member of some group lies in slot `s`.
pub open spec fn slot_grouped(
    keys: Seq<PeriodKey>,
    items: Seq<String>,
    groups: Seq<ItemGroup>,
    s: (PeriodKey, Seq<char>),
) -> bool {
    exists|g: int, m: int|
        0 <= g < groups.len() && 0 <= m < groups[g].members@.len() && #[trigger] slot_of(
            keys,
            items,
            groups[g].members@[m] as int,
        ) == s
}

/// `groups` splits the facts into periods: periods in increasing key order,
/// each listing, in line-item order, the last fact of each of its line items;
/// every fact's (period, line item) is represented.
pub open spec fn grouped(keys: Seq<PeriodKey>, items: Seq<String>, groups: Seq<ItemGroup>) -> bool {
    let n = keys.len() as int;
    &&& forall|g: int, h: int| 0 <= g < h < groups.len() ==> pair_lt(groups[g].key, groups[h].key)
    &&& forall|g: int|
        #![trigger groups[g]]
        0 <= g < groups.len() ==> {
            let ms = groups[g].members@;
            &&& ms.len() > 0
            &&& forall|m: int|
                #![trigger ms[m]]
                0 <= m < ms.len() ==> last_in_slot(keys, items, n, ms[m] as int) && keys[ms[m] as int]
                    == groups[g].key
            &&& forall|a: int, b: int|
                0 <= a < b < ms.len() ==> seq_lt(items[ms[a] as int]@, items[ms[b] as int]@)
        }
    &&& forall|j: int| 0 <= j < n ==> slot_grouped(keys, items, groups, #[trigger] slot_of(keys, items, j))
}

/// A finished period run is a well-formed group: non-empty, its members the
/// picks `start..start + len` (all of that period), in line-item order.
spec fn run_ok(keys: Seq<PeriodKey>, items: Seq<String>, n: int, g: ItemGroup) -> bool {
    let ms = g.members@;
    &&& ms.len() > 0
    &&& forall|m: int|
        #![trigger ms[m]]
        0 <= m < ms.len() ==> last_in_slot(keys, items, n, ms[m] as int) && keys[ms[m] as int] == g.key
    &&& forall|a: int, b: int| 0 <= a < b < ms.len() ==> seq_lt(items[ms[a] as int]@, items[ms[b] as int]@)
}

/// Close the run `closed = picks[start..start + len]` as a group.
proof fn lemma_run_ok(
    keys: Seq<PeriodKey>,
    items: Seq<String>,
    picks: Seq<usize>,
    start: int,
    closed: Seq<usize>,
    key: PeriodKey,
)
    requires
        keys.len() == items.len(),
        picks_ok(keys, items, keys.len() as int, picks),
        forall|k: int| 0 <= k < picks.len() ==> #[trigger] picks[k] < keys.len(),
        closed.len() > 0,
        0 <= start,
        start + closed.len() <= picks.len(),
        forall|m: int| 0 <= m < closed.len() ==> #[trigger] closed[m] == picks[start + m],
        forall|m: int| 0 <= m < closed.len() ==> keys[#[trigger] closed[m] as int] == key,
    ensures
        forall|a: int, b: int|
            0 <= a < b < closed.len() ==> seq_lt(items[closed[a] as int]@, items[closed[b] as int]@),
        forall|m: int|
            #![trigger closed[m]]
            0 <= m < closed.len() ==> last_in_slot(keys, items, keys.len() as int, closed[m] as int)
                && keys[closed[m] as int] == key,
{
    let n = keys.len() as int;
    assert forall|a: int, b: int| 0 <= a < b < closed.len() implies seq_lt(
        items[closed[a] as int]@,
        items[closed[b] as int]@,
    ) by {
        assert(closed[a] == picks[start + a]);
        assert(closed[b] == picks[start + b]);
        assert(slot_lt(
            slot_of(keys, items, picks[start + a] as int),
            slot_of(keys, items, picks[start + b] as int),
        ));
    }
    assert forall|m: int| #![trigger closed[m]] 0 <= m < closed.len() implies last_in_slot(
        keys,
        items,
        n,
        closed[m] as int,
    ) && keys[closed[m] as int] == key by {
        assert(closed[m] == picks[start + m]);
        assert(last_in_slot(keys, items, n, picks[start + m] as int));
    }
}

/// Split slot-ordered picks into runs of one period each.
fn split_periods(keys: &Vec<PeriodKey>, items: &Vec<String>, picks: Vec<usize>) -> (groups: Vec<ItemGroup>)
    requires
        keys@.len() == items@.len(),
        picks_ok(keys@, items@, keys@.len() as int, picks@),
        forall|k: int| 0 <= k < picks@.len() ==> #[trigger] picks@[k] < keys@.len(),
    ensures
        grouped(keys@, items@, groups@),
{
    let ghost n = keys@.len() as int;
    let mut groups: Vec<ItemGroup> = Vec::new();
    let mut current: Vec<usize> = Vec::new();
    // where each closed pick went: (group, position)
    let ghost mut loc: Seq<(int, int)> = Seq::empty();
    let mut t: usize = 0;
    while t < picks.len()
        invariant
            keys@.len() == items@.len(),
            n == keys@.len(),
            t <= picks@.len(),
            picks_ok(keys@, items@, n, picks@),
            forall|k: int| 0 <= k < picks@.len() ==> #[trigger] picks@[k] < keys@.len(),
            current@.len() <= t,
            t > 0 ==> current@.len() > 0,
            t == 0 ==> groups@.len() == 0,
            forall|m: int|
                0 <= m < current@.len() ==> #[trigger] current@[m] == picks@[t - current@.len() + m],
            t > 0 ==> forall|m: int|
                0 <= m < current@.len() ==> keys@[#[trigger] current@[m] as int] == keys@[picks@[t
                    - 1] as int],
            forall|g: int, h: int|
                0 <= g < h < groups@.len() ==> pair_lt(groups@[g].key, groups@[h].key),
            t > 0 ==> forall|g: int|
                0 <= g < groups@.len() ==> pair_lt(#[trigger] groups@[g].key, keys@[picks@[t - 1] as int]),
            forall|g: int|
                #![trigger groups@[g]]
                0 <= g < groups@.len() ==> run_ok(keys@, items@, n, groups@[g]),
            loc.len() == t - current@.len(),
            forall|u: int|
                #![trigger loc[u]]
                0 <= u < loc.len() ==> 0 <= loc[u].0 < groups@.len() && 0 <= loc[u].1
                    < groups@[loc[u].0].members@.len() && groups@[loc[u].0].members@[loc[u].1]
                    == picks@[u],
        decreases picks.len() - t,
    {
        let x = picks[t];
        if current.len() > 0 && keys[current[0]] != keys[x] {
            let key = keys[current[0]];
            let ghost closed = current@;
            let ghost start = t - current@.len();
            proof {
                let prev = picks@[t - 1];
                assert(slot_lt(slot_of(keys@, items@, prev as int), slot_of(keys@, items@, x as int)));
                assert(key == keys@[prev as int]);
                assert(pair_lt(key, keys@[x as int]));
                lemma_run_ok(keys@, items@, picks@, start, closed, key);
            }
            let ghost old_groups = groups@;
            let cur = current;
            groups.push(ItemGroup { key, members: cur });
            current = Vec::new();
            proof {
                let g_new = old_groups.len() as int;
                assert(run_ok(keys@, items@, n, groups@[g_new]));
                assert forall|g: int| #![trigger groups@[g]] 0 <= g < groups@.len() implies run_ok(
                    keys@,
                    items@,
                    n,
                    groups@[g],
                ) by {
                    if g < g_new {
                        assert(groups@[g] == old_groups[g]);
                    }
                }
                let extra = Seq::new(closed.len(), |m: int| (g_new, m));
                assert forall|u: int| #![trigger (loc + extra)[u]] 0 <= u < (loc + extra).len() implies 0
                    <= (loc + extra)[u].0 < groups@.len() && 0 <= (loc + extra)[u].1
                    < groups@[(loc + extra)[u].0].members@.len()
                    && groups@[(loc + extra)[u].0].members@[(loc + extra)[u].1] == picks@[u] by {
                    if u < loc.len() {
                        assert((loc + extra)[u] == loc[u]);
                        assert(groups@[loc[u].0] == old_groups[loc[u].0]);
                    } else {
                        assert((loc + extra)[u] == (g_new, u - start));
                        assert(closed[u - start] == picks@[start + (u - start)]);
                    }
                }
                loc = loc + extra;
            }
        }
        let ghost before = current@;
        current.push(x);
        proof {
            assert forall|m: int| 0 <= m < current@.len() implies #[trigger] current@[m] == picks@[t + 1
                - current@.len() + m] by {
                if m < before.len() {
                    assert(current@[m] == before[m]);
                }
            }
            assert forall|m: int| 0 <= m < current@.len() implies keys@[#[trigger] current@[m] as int]
                == keys@[picks@[t as int] as int] by {
                if m < before.len() {
                    assert(current@[m] == before[m]);
                    assert(keys@[before[m] as int] == keys@[picks@[t - 1] as int]);
                    assert(keys@[before[0] as int] == keys@[picks@[t - 1] as int]);
                }
            }
        }
        t = t + 1;
    }
    if current.len() > 0 {
        let key = keys[current[0]];
        let ghost closed = current@;
        let ghost start = t - current@.len();
        proof {
            lemma_run_ok(keys@, items@, picks@, start, closed, key);
        }
        let ghost old_groups = groups@;
        let cur = current;
        groups.push(ItemGroup { key, members: cur });
        proof {
            let g_new = old_groups.len() as int;
            assert forall|g: int| #![trigger groups@[g]] 0 <= g < groups@.len() implies run_ok(
                keys@,
                items@,
                n,
                groups@[g],
            ) by {
                if g < g_new {
                    assert(groups@[g] == old_groups[g]);
                }
            }
            let extra = Seq::new(closed.len(), |m: int| (g_new, m));
            assert forall|u: int| #![trigger (loc + extra)[u]] 0 <= u < (loc + extra).len() implies 0
                <= (loc + extra)[u].0 < groups@.len() && 0 <= (loc + extra)[u].1
                < groups@[(loc + extra)[u].0].members@.len()
                && groups@[(loc + extra)[u].0].members@[(loc + extra)[u].1] == picks@[u] by {
                if u < loc.len() {
                    assert((loc + extra)[u] == loc[u]);
                    assert(groups@[loc[u].0] == old_groups[loc[u].0]);
                } else {
                    assert((loc + extra)[u] == (g_new, u - start));
                    assert(closed[u - start] == picks@[start + (u - start)]);
                }
            }
            loc = loc + extra;
        }
    }
    proof {
        assert(loc.len() == picks@.len());
        assert forall|j: int| 0 <= j < n implies slot_grouped(
            keys@,
            items@,
            groups@,
            #[trigger] slot_of(keys@, items@, j),
        ) by {
            assert(slot_picked(keys@, items@, picks@, slot_of(keys@, items@, j)));
            let k = choose|k: int|
                0 <= k < picks@.len() && #[trigger] slot_of(keys@, items@, picks@[k] as int)
                    == slot_of(keys@, items@, j);
            let (g, m) = loc[k];
            assert(groups@[g].members@[m] == picks@[k]);
            assert(slot_of(keys@, items@, groups@[g].members@[m] as int) == slot_of(keys@, items@, j));
        }
        assert forall|g: int| #![trigger groups@[g]] 0 <= g < groups@.len() implies {
            let ms = groups@[g].members@;
            &&& ms.len() > 0
            &&& forall|m: int|
                #![trigger ms[m]]
                0 <= m < ms.len() ==> last_in_slot(keys@, items@, n, ms[m] as int) && keys@[ms[m] as int]
                    == groups@[g].key
            &&& forall|a: int, b: int|
                0 <= a < b < ms.len() ==> seq_lt(items@[ms[a] as int]@, items@[ms[b] as int]@)
        } by {
            assert(run_ok(keys@, items@, n, groups@[g]));
        }
    }
    groups
}

/// Group facts by period key, keeping for each (period, line item) the last
/// fact given: periods come out in increasing key order and, inside each,
/// line items in name order, as an ordered map of ordered maps lists them.
pub fn group_items(keys: &Vec<PeriodKey>, items: &Vec<String>) -> (groups: Vec<ItemGroup>)
    requires
        keys@.len() == items@.len(),
    ensures
        grouped(keys@, items@, groups@),
{
    let picks = slot_picks(keys, items);
    split_periods(keys, items, picks)
}

/// Position `i` holds the latest date on or before `day`, and no later
/// position holds that date again (the last of equal maxima, as
/// `Iterator::max_by_key` picks it).
pub open spec fn latest_on_or_before(dates: Seq<i64>, day: i64, i: int) -> bool {
    &&& 0 <= i < dates.len()
    &&& dates[i] <= day
    &&& forall|j: int| 0 <= j < dates.len() && #[trigger] dates[j] <= day ==> dates[j] <= dates[i]
    &&& forall|j: int| i < j < dates.len() && #[trigger] dates[j] <= day ==> dates[j] < dates[i]
}

/// The position of the close to value a period ending on `day` at: the
/// latest date on or before it (the last such when dates repeat); `None`
/// when every date is later.
pub fn price_index_at(dates: &Vec<i64>, day: i64) -> (r: Option<usize>)
    ensures
        match r {
            Some(i) => latest_on_or_before(dates@, day, i as int),
            None => forall|j: int| 0 <= j < dates@.len() ==> #[trigger] dates@[j] > day,
        },
{
    let mut best: Option<usize> = None;
    let mut i: usize = 0;
    while i < dates.len()
        invariant
            i <= dates@.len(),
            match best {
                Some(b) => latest_on_or_before(dates@.subrange(0, i as int), day, b as int),
                None => forall|j: int| 0 <= j < i ==> #[trigger] dates@[j] > day,
            },
        decreases dates.len() - i,
    {
        let ghost pre = dates@.subrange(0, i as int);
        let ghost post = dates@.subrange(0, i + 1);
        assert(forall|j: int| 0 <= j < i ==> pre[j] == #[trigger] post[j]);
        if dates[i] <= day {
            match best {
                Some(b) => {
                    if dates[i] >= dates[b] {
                        best = Some(i);
                    }
                },
                None => {
                    best = Some(i);
                },
            }
        }
        i = i + 1;
    }
    assert(dates@.subrange(0, dates@.len() as int) =~= dates@);
    best
}

} // verus!
