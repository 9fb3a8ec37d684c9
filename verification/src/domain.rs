//! Core domain values: reporting periods, statements, companies and the
//! company-profile merge rule.

use vstd::prelude::*;

use crate::flags::{count_set, lemma_count_set_bounded, lemma_count_set_none, lemma_count_set_some_clear, lemma_count_set_update};
use crate::text::str_eq;

verus! {

/// Reporting period of a financial fact.
#[derive(Debug, Clone, Copy, PartialEq, Eq, PartialOrd, Ord, Hash, Structural)]
pub enum PeriodType {
    Quarterly,
    Annual,
}

/// The canonical lowercase token stored for a period type.
pub open spec fn period_token(p: PeriodType) -> Seq<char> {
    match p {
        PeriodType::Quarterly => "quarterly"@,
        PeriodType::Annual => "annual"@,
    }
}

/// The period type a stored token names, if any.
pub open spec fn period_from_token(s: Seq<char>) -> Option<PeriodType> {
    if s == "quarterly"@ {
        Some(PeriodType::Quarterly)
    } else if s == "annual"@ {
        Some(PeriodType::Annual)
    } else {
        None
    }
}

impl PeriodType {
    /// Canonical lowercase token stored in the database.
    pub fn as_str(&self) -> (r: &'static str)
        ensures
            r@ == period_token(*self),
    {
        match self {
            PeriodType::Quarterly => "quarterly",
            PeriodType::Annual => "annual",
        }
    }

    /// Parse a stored token; `None` if unrecognized.
    pub fn parse(s: &str) -> (r: Option<PeriodType>)
        ensures
            r == period_from_token(s@),
    {
        if str_eq(s, "quarterly") {
            Some(PeriodType::Quarterly)
        } else if str_eq(s, "annual") {
            Some(PeriodType::Annual)
        } else {
            None
        }
    }
}

/// Parsing a period type's own token gives that period type back.
pub proof fn period_type_round_trip(p: PeriodType)
    ensures
        period_from_token(period_token(p)) == Some(p),
{
    reveal_strlit("quarterly");
    reveal_strlit("annual");
    if p == PeriodType::Annual {
        assert("annual"@.len() != "quarterly"@.len());
    }
}

/// Which financial statement a fact belongs to.
#[derive(Debug, Clone, Copy, PartialEq, Eq, Hash, Structural)]
pub enum StatementKind {
    Income,
    Balance,
    CashFlow,
}

/// The canonical lowercase token stored for a statement kind.
pub open spec fn statement_token(k: StatementKind) -> Seq<char> {
    match k {
        StatementKind::Income => "income"@,
        StatementKind::Balance => "balance"@,
        StatementKind::CashFlow => "cashflow"@,
    }
}

/// The statement kind a stored token names, if any.
pub open spec fn statement_from_token(s: Seq<char>) -> Option<StatementKind> {
    if s == "income"@ {
        Some(StatementKind::Income)
    } else if s == "balance"@ {
        Some(StatementKind::Balance)
    } else if s == "cashflow"@ {
        Some(StatementKind::CashFlow)
    } else {
        None
    }
}

impl StatementKind {
    pub fn as_str(&self) -> (r: &'static str)
        ensures
            r@ == statement_token(*self),
    {
        match self {
            StatementKind::Income => "income",
            StatementKind::Balance => "balance",
            StatementKind::CashFlow => "cashflow",
        }
    }

    pub fn parse(s: &str) -> (r: Option<StatementKind>)
        ensures
            r == statement_from_token(s@),
    {
        if str_eq(s, "income") {
            Some(StatementKind::Income)
        } else if str_eq(s, "balance") {
            Some(StatementKind::Balance)
        } else if str_eq(s, "cashflow") {
            Some(StatementKind::CashFlow)
        } else {
            None
        }
    }
}

/// The tokens stored for period types and statement kinds, letter by letter:
/// the database and the ratio queries (`period_type='annual'`) rely on them.
pub proof fn stored_tokens_are_fixed()
    ensures
        period_token(PeriodType::Annual) == seq!['a', 'n', 'n', 'u', 'a', 'l'],
        period_token(PeriodType::Quarterly) == seq!['q', 'u', 'a', 'r', 't', 'e', 'r', 'l', 'y'],
        statement_token(StatementKind::Income) == seq!['i', 'n', 'c', 'o', 'm', 'e'],
        statement_token(StatementKind::Balance) == seq!['b', 'a', 'l', 'a', 'n', 'c', 'e'],
        statement_token(StatementKind::CashFlow) == seq!['c', 'a', 's', 'h', 'f', 'l', 'o', 'w'],
{
    reveal_strlit("annual");
    reveal_strlit("quarterly");
    reveal_strlit("income");
    reveal_strlit("balance");
    reveal_strlit("cashflow");
    assert(period_token(PeriodType::Annual) =~= seq!['a', 'n', 'n', 'u', 'a', 'l']);
    assert(period_token(PeriodType::Quarterly) =~= seq!['q', 'u', 'a', 'r', 't', 'e', 'r', 'l', 'y']);
    assert(statement_token(StatementKind::Income) =~= seq!['i', 'n', 'c', 'o', 'm', 'e']);
    assert(statement_token(StatementKind::Balance) =~= seq!['b', 'a', 'l', 'a', 'n', 'c', 'e']);
    assert(statement_token(StatementKind::CashFlow) =~= seq!['c', 'a', 's', 'h', 'f', 'l', 'o', 'w']);
}

/// Parsing a statement kind's own token gives that statement kind back.
pub proof fn statement_kind_round_trip(k: StatementKind)
    ensures
        statement_from_token(statement_token(k)) == Some(k),
{
    reveal_strlit("income");
    reveal_strlit("balance");
    reveal_strlit("cashflow");
    match k {
        StatementKind::Income => {},
        StatementKind::Balance => {
            assert("balance"@.len() != "income"@.len());
        },
        StatementKind::CashFlow => {
            assert("cashflow"@.len() != "income"@.len());
            assert("cashflow"@.len() != "balance"@.len());
        },
    }
}

/// A single reported financial line-item value from one source. The figure
/// is kept as the decimal text the source wrote (`value`), so no amount is
/// rounded inside the library; `period_end` counts days since 1970-01-01 and
/// `fetched_at` seconds since the Unix epoch.
#[derive(Debug, Clone, PartialEq, Eq)]
pub struct FinancialFact {
    pub company_id: i64,
    pub statement: StatementKind,
    pub line_item: String,
    pub period_type: PeriodType,
    pub period_end: i64,
    pub value: String,
    pub source: String,
    pub fetched_at: i64,
}

/// The abstract value of a financial fact.
pub struct FactView {
    pub company_id: i64,
    pub statement: StatementKind,
    pub line_item: Seq<char>,
    pub period_type: PeriodType,
    pub period_end: i64,
    pub value: Seq<char>,
    pub source: Seq<char>,
    pub fetched_at: i64,
}

impl View for FinancialFact {
    type V = FactView;

    open spec fn view(&self) -> FactView {
        FactView {
            company_id: self.company_id,
            statement: self.statement,
            line_item: self.line_item@,
            period_type: self.period_type,
            period_end: self.period_end,
            value: self.value@,
            source: self.source@,
            fetched_at: self.fetched_at,
        }
    }
}

/// A news headline (title + description only). `published_at` counts
/// seconds since the Unix epoch.
#[derive(Debug, Clone, PartialEq, Eq)]
pub struct NewsItem {
    pub company_id: i64,
    pub title: String,
    pub description: Option<String>,
    pub url: String,
    pub source: String,
    pub published_at: i64,
    pub dedup_hash: String,
}

/// The abstract value of a news item.
pub struct NewsView {
    pub company_id: i64,
    pub title: Seq<char>,
    pub description: Option<Seq<char>>,
    pub url: Seq<char>,
    pub source: Seq<char>,
    pub published_at: i64,
    pub dedup_hash: Seq<char>,
}

impl View for NewsItem {
    type V = NewsView;

    open spec fn view(&self) -> NewsView {
        NewsView {
            company_id: self.company_id,
            title: self.title@,
            description: opt_view(self.description),
            url: self.url@,
            source: self.source@,
            published_at: self.published_at,
            dedup_hash: self.dedup_hash@,
        }
    }
}

/// A single daily price bar from one source. Prices are the decimal text
/// the source wrote; `date` counts days since 1970-01-01. OHLC other than
/// the close is optional (older rows / sources may only have close).
#[derive(Debug, Clone, PartialEq, Eq)]
pub struct PricePoint {
    pub company_id: i64,
    pub date: i64,
    pub open: Option<String>,
    pub high: Option<String>,
    pub low: Option<String>,
    pub close: String,
    pub volume: Option<i64>,
    pub source: String,
}

/// The abstract value of a price bar.
pub struct PriceView {
    pub company_id: i64,
    pub date: i64,
    pub open: Option<Seq<char>>,
    pub high: Option<Seq<char>>,
    pub low: Option<Seq<char>>,
    pub close: Seq<char>,
    pub volume: Option<i64>,
    pub source: Seq<char>,
}

impl View for PricePoint {
    type V = PriceView;

    open spec fn view(&self) -> PriceView {
        PriceView {
            company_id: self.company_id,
            date: self.date,
            open: opt_view(self.open),
            high: opt_view(self.high),
            low: opt_view(self.low),
            close: self.close@,
            volume: self.volume,
            source: self.source@,
        }
    }
}

/// A company before it has a database-assigned id.
#[derive(Debug, Clone, PartialEq, Eq)]
pub struct NewCompany {
    pub cik: String,
    pub ticker: String,
    pub name: String,
    pub exchange: Option<String>,
    pub sector: Option<String>,
    pub industry: Option<String>,
}

/// A persisted company.
#[derive(Debug, Clone, PartialEq, Eq)]
pub struct Company {
    pub id: i64,
    pub cik: String,
    pub ticker: String,
    pub name: String,
    pub exchange: Option<String>,
    pub sector: Option<String>,
    pub industry: Option<String>,
    /// Prose "what it does" (Yahoo assetProfile longBusinessSummary).
    pub description: Option<String>,
    /// Official company website.
    pub website: Option<String>,
    /// Full-time headcount, when a vendor profile reports it.
    pub employees: Option<i64>,
}

/// A partial company-profile enrichment update (from EDGAR + Yahoo). Only the
/// `Some` fields overwrite stored values.
#[derive(Debug, Clone, PartialEq, Eq)]
pub struct CompanyProfile {
    pub sector: Option<String>,
    pub industry: Option<String>,
    pub exchange: Option<String>,
    pub website: Option<String>,
    pub description: Option<String>,
    pub employees: Option<i64>,
}

/// The field-wise abstract value of a profile.
pub struct ProfileView {
    pub sector: Option<Seq<char>>,
    pub industry: Option<Seq<char>>,
    pub exchange: Option<Seq<char>>,
    pub website: Option<Seq<char>>,
    pub description: Option<Seq<char>>,
    pub employees: Option<i64>,
}

/// The character view of an optional string.
pub open spec fn opt_view(o: Option<String>) -> Option<Seq<char>> {
    match o {
        Some(s) => Some(s@),
        None => None,
    }
}

impl View for CompanyProfile {
    type V = ProfileView;

    open spec fn view(&self) -> ProfileView {
        ProfileView {
            sector: opt_view(self.sector),
            industry: opt_view(self.industry),
            exchange: opt_view(self.exchange),
            website: opt_view(self.website),
            description: opt_view(self.description),
            employees: self.employees,
        }
    }
}

/// `later` if present, else `earlier`.
pub open spec fn prefer<T>(earlier: Option<T>, later: Option<T>) -> Option<T> {
    if later is Some {
        later
    } else {
        earlier
    }
}

/// The profile that results from laying `later` over `earlier`.
pub open spec fn overlay_view(earlier: ProfileView, later: ProfileView) -> ProfileView {
    ProfileView {
        sector: prefer(earlier.sector, later.sector),
        industry: prefer(earlier.industry, later.industry),
        exchange: prefer(earlier.exchange, later.exchange),
        website: prefer(earlier.website, later.website),
        description: prefer(earlier.description, later.description),
        employees: prefer(earlier.employees, later.employees),
    }
}

/// The profile with no field set.
pub open spec fn blank_profile() -> ProfileView {
    ProfileView {
        sector: None,
        industry: None,
        exchange: None,
        website: None,
        description: None,
        employees: None,
    }
}

impl Default for CompanyProfile {
    fn default() -> (r: CompanyProfile)
        ensures
            r@ == blank_profile(),
    {
        CompanyProfile {
            sector: None,
            industry: None,
            exchange: None,
            website: None,
            description: None,
            employees: None,
        }
    }
}

impl CompanyProfile {
    /// Merge `other` (a later, higher-priority source) on top of `self`:
    /// each `Some` field in `other` overrides; `None` fields keep `self`'s value.
    pub fn overlay(self, other: CompanyProfile) -> (r: CompanyProfile)
        ensures
            r@ == overlay_view(self@, other@),
    {
        let mut merged = self;
        if other.sector.is_some() {
            merged.sector = other.sector;
        }
        if other.industry.is_some() {
            merged.industry = other.industry;
        }
        if other.exchange.is_some() {
            merged.exchange = other.exchange;
        }
        if other.website.is_some() {
            merged.website = other.website;
        }
        if other.description.is_some() {
            merged.description = other.description;
        }
        if other.employees.is_some() {
            merged.employees = other.employees;
        }
        merged
    }
}

/// Laying a blank profile over `p` keeps `p`, and laying `p` over a blank
/// profile gives `p`.
pub proof fn overlay_blank_is_identity(p: ProfileView)
    ensures
        overlay_view(p, blank_profile()) == p,
        overlay_view(blank_profile(), p) == p,
{
}

/// Overlaying is associative: merging sources one after another gives the same
/// profile however the merges are grouped.
pub proof fn overlay_associative(a: ProfileView, b: ProfileView, c: ProfileView)
    ensures
        overlay_view(overlay_view(a, b), c) == overlay_view(a, overlay_view(b, c)),
{
}

/// Overlaying a profile on itself changes nothing.
pub proof fn overlay_idempotent(a: ProfileView)
    ensures
        overlay_view(a, a) == a,
{
}

/// What market-mover ranking reads of one company's latest daily move: a key
/// ordered like its percentage change (ties and order as `f64::total_cmp`
/// gives them) and its traded volume, if reported.
#[derive(Debug, Clone, Copy, PartialEq, Eq)]
pub struct MoverKey {
    pub change_order: i64,
    pub volume: Option<i64>,
}

/// The rows (as indices into the input) picked for each dashboard bucket.
#[derive(Debug, Clone, PartialEq, Eq)]
pub struct MoverPicks {
    pub gainers: Vec<usize>,
    pub losers: Vec<usize>,
    pub most_active: Vec<usize>,
}

/// Whether row `i` ranks ahead of row `j`: a larger key first when
/// `descending` (else a smaller one), ties kept in input order (a stable sort).
pub open spec fn ranks_before(keys: Seq<i128>, descending: bool, i: int, j: int) -> bool {
    if descending {
        keys[i] > keys[j] || (keys[i] == keys[j] && i < j)
    } else {
        keys[i] < keys[j] || (keys[i] == keys[j] && i < j)
    }
}

/// `picks` is the first `min(limit, n)` rows of the stable sort of `keys`:
/// in ranking order, and ahead of every row left out.
pub open spec fn top_ranked(keys: Seq<i128>, descending: bool, limit: nat, picks: Seq<usize>) -> bool {
    &&& picks.len() == if limit < keys.len() {
        limit
    } else {
        keys.len()
    }
    &&& forall|a: int| 0 <= a < picks.len() ==> picks[a] < keys.len()
    &&& forall|a: int, b: int|
        0 <= a < b < picks.len() ==> ranks_before(keys, descending, picks[a] as int, picks[b] as int)
    &&& forall|x: int, a: int|
        #![trigger picks.contains(x as usize), picks[a]]
        0 <= x < keys.len() && 0 <= a < picks.len() && !picks.contains(x as usize) ==> ranks_before(
            keys,
            descending,
            picks[a] as int,
            x,
        )
}

/// The indices of the top `limit` rows by `keys` (stable, ties in input order).
pub fn top_by(keys: &Vec<i128>, descending: bool, limit: usize) -> (r: Vec<usize>)
    ensures
        top_ranked(keys@, descending, limit as nat, r@),
{
    let n: usize = keys.len();
    let want: usize = if limit < n {
        limit
    } else {
        n
    };
    let mut used: Vec<bool> = Vec::new();
    let mut i: usize = 0;
    while i < n
        invariant
            i <= n,
            used@.len() == i,
            forall|k: int| 0 <= k < i ==> !used@[k],
        decreases n - i,
    {
        used.push(false);
        i = i + 1;
    }
    proof {
        lemma_count_set_none(used@);
    }
    let mut picks: Vec<usize> = Vec::new();
    while picks.len() < want
        invariant
            n == keys@.len(),
            want <= n,
            used@.len() == n,
            picks@.len() <= want,
            count_set(used@) == picks@.len(),
            forall|a: int| 0 <= a < picks@.len() ==> picks@[a] < n,
            forall|k: int| 0 <= k < n ==> (used@[k] <==> picks@.contains(k as usize)),
            forall|a: int, b: int|
                0 <= a < b < picks@.len() ==> ranks_before(
                    keys@,
                    descending,
                    picks@[a] as int,
                    picks@[b] as int,
                ),
            forall|x: int, a: int|
                #![trigger used@[x], picks@[a]]
                0 <= x < n && 0 <= a < picks@.len() && !used@[x] ==> ranks_before(
                    keys@,
                    descending,
                    picks@[a] as int,
                    x,
                ),
        decreases want - picks@.len(),
    {
        proof {
            lemma_count_set_some_clear(used@);
        }
        let mut first: usize = 0;
        while first < n && used[first]
            invariant
                first <= n,
                used@.len() == n,
                exists|k: int| first <= k < n && !used@[k],
                forall|k: int| 0 <= k < first ==> used@[k],
            decreases n - first,
        {
            first = first + 1;
        }
        let mut best: usize = first;
        let mut j: usize = first + 1;
        while j < n
            invariant
                n == keys@.len(),
                used@.len() == n,
                first < n,
                first < j <= n,
                best < j,
                !used@[best as int],
                forall|k: int|
                    0 <= k < j && !used@[k] && k != best ==> ranks_before(
                        keys@,
                        descending,
                        best as int,
                        k,
                    ),
                forall|k: int| 0 <= k < first ==> used@[k],
            decreases n - j,
        {
            if !used[j] {
                let ahead = if descending {
                    keys[j] > keys[best]
                } else {
                    keys[j] < keys[best]
                };
                if ahead {
                    best = j;
                }
            }
            j = j + 1;
        }
        let ghost before = picks@;
        let ghost used_before = used@;
        proof {
            lemma_count_set_update(used@, best as int);
            lemma_count_set_bounded(used@.update(best as int, true));
        }
        picks.push(best);
        used.set(best, true);
        proof {
            assert(picks@[before.len() as int] == best);
            assert forall|k: int| 0 <= k < n implies (used@[k] <==> picks@.contains(k as usize)) by {
                if k == best {
                    assert(picks@[before.len() as int] == k as usize);
                } else {
                    assert(used@[k] == used_before[k]);
                    if before.contains(k as usize) {
                        let a = choose|a: int| 0 <= a < before.len() && before[a] == k as usize;
                        assert(picks@[a] == k as usize);
                    }
                    if picks@.contains(k as usize) {
                        let a = choose|a: int| 0 <= a < picks@.len() && picks@[a] == k as usize;
                        assert(a < before.len());
                        assert(before[a] == k as usize);
                    }
                }
            }
            assert forall|a: int, b: int|
                0 <= a < b < picks@.len() implies ranks_before(
                keys@,
                descending,
                picks@[a] as int,
                picks@[b] as int,
            ) by {
                assert(picks@[a] == before[a]);
                if b < before.len() {
                    assert(picks@[b] == before[b]);
                } else {
                    assert(!used_before[best as int]);
                }
            }
            assert forall|x: int, a: int|
                #![trigger used@[x], picks@[a]]
                0 <= x < n && 0 <= a < picks@.len() && !used@[x] implies ranks_before(
                keys@,
                descending,
                picks@[a] as int,
                x,
            ) by {
                assert(!used_before[x]);
                if a < before.len() {
                    assert(picks@[a] == before[a]);
                } else {
                    assert(x != best);
                }
            }
        }
    }
    proof {
        assert forall|x: int, a: int|
            #![trigger picks@.contains(x as usize), picks@[a]]
            0 <= x < keys@.len() && 0 <= a < picks@.len() && !picks@.contains(x as usize) implies ranks_before(
            keys@,
            descending,
            picks@[a] as int,
            x,
        ) by {
            assert(!used@[x]);
        }
    }
    picks
}

/// Volume as ranked for "most active": a reported volume as itself, a
/// missing one below every reported volume, so that it sorts last.
pub open spec fn volume_key(v: Option<i64>) -> i128 {
    match v {
        Some(x) => x as i128,
        None => (i64::MIN - 1) as i128,
    }
}

/// The change key a row is ranked by.
pub open spec fn change_key(m: MoverKey) -> i128 {
    m.change_order as i128
}

/// Rank day-change rows into gainers (largest change first), losers
/// (smallest change first) and most active (largest volume first, rows
/// without a volume after every row with one), at most `limit` rows each;
/// ties keep input order.
pub fn select_movers(rows: &Vec<MoverKey>, limit: usize) -> (r: MoverPicks)
    ensures
        top_ranked(rows@.map_values(|m: MoverKey| change_key(m)), true, limit as nat, r.gainers@),
        top_ranked(rows@.map_values(|m: MoverKey| change_key(m)), false, limit as nat, r.losers@),
        top_ranked(
            rows@.map_values(|m: MoverKey| volume_key(m.volume)),
            true,
            limit as nat,
            r.most_active@,
        ),
{
    let mut change: Vec<i128> = Vec::new();
    let mut volume: Vec<i128> = Vec::new();
    let mut i: usize = 0;
    while i < rows.len()
        invariant
            i <= rows@.len(),
            change@ == rows@.subrange(0, i as int).map_values(|m: MoverKey| change_key(m)),
            volume@ == rows@.subrange(0, i as int).map_values(|m: MoverKey| volume_key(m.volume)),
        decreases rows.len() - i,
    {
        let row = rows[i];
        change.push(row.change_order as i128);
        let v: i128 = match row.volume {
            Some(x) => x as i128,
            None => i64::MIN as i128 - 1,
        };
        volume.push(v);
        assert(change@ =~= rows@.subrange(0, i + 1).map_values(|m: MoverKey| change_key(m)));
        assert(volume@ =~= rows@.subrange(0, i + 1).map_values(|m: MoverKey| volume_key(m.volume)));
        i = i + 1;
    }
    assert(rows@.subrange(0, rows@.len() as int) =~= rows@);
    MoverPicks {
        gainers: top_by(&change, true, limit),
        losers: top_by(&change, false, limit),
        most_active: top_by(&volume, true, limit),
    }
}

/// Ranking is a stable sort: among rows that tie, the one that came first is
/// picked first.
pub proof fn ties_keep_input_order(
    keys: Seq<i128>,
    descending: bool,
    limit: nat,
    picks: Seq<usize>,
    a: int,
    b: int,
)
    requires
        top_ranked(keys, descending, limit, picks),
        0 <= a < b < picks.len(),
        keys[picks[a] as int] == keys[picks[b] as int],
    ensures
        picks[a] < picks[b],
{
    assert(ranks_before(keys, descending, picks[a] as int, picks[b] as int));
}

/// A bucket never holds more than `limit` rows, and holds them all when the
/// input is short.
pub proof fn bucket_size(keys: Seq<i128>, descending: bool, limit: nat, picks: Seq<usize>)
    requires
        top_ranked(keys, descending, limit, picks),
    ensures
        picks.len() <= limit,
        keys.len() <= limit ==> picks.len() == keys.len(),
{
}

} // verus!
