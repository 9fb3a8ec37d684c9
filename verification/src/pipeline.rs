//! The decisions of the collection pipeline: tallying per-company outcomes,
//! which stored facts stand in for sources that reported nothing, when an
//! incremental price refresh starts, and when a company counts as delisted.
//! Fetching and persisting are done by the caller around these.

use vstd::prelude::*;
use vstd::seq_lib::lemma_seq_contains_after_push;

use crate::collectors::SourceTarget;
use crate::collectors::edgar::CompanyRef;
use crate::domain::{blank_profile, opt_view, overlay_associative, overlay_blank_is_identity, overlay_view, Company, CompanyProfile, NewCompany, ProfileView};
use crate::text::{cat2, chars_of, find_from, first_at, lemma_first_at, occurs_at, replace_char, replaced_char, str_eq, to_uppercase, uppercase_of};

verus! {

/// Aggregate totals from collecting many companies.
#[derive(Debug, Clone, PartialEq, Eq)]
pub struct CollectSummary {
    pub companies: usize,
    pub facts_written: usize,
    pub discrepancies_written: usize,
    pub source_errors: usize,
    /// Companies whose ingest failed (logged and skipped, not fatal).
    pub failed: usize,
}

impl Default for CollectSummary {
    fn default() -> (r: CollectSummary)
        ensures
            r.companies == 0,
            r.facts_written == 0,
            r.discrepancies_written == 0,
            r.source_errors == 0,
            r.failed == 0,
    {
        CollectSummary {
            companies: 0,
            facts_written: 0,
            discrepancies_written: 0,
            source_errors: 0,
            failed: 0,
        }
    }
}

/// Outcome of an ingest run across multiple sources.
#[derive(Debug, Clone, PartialEq, Eq)]
pub struct IngestReport {
    pub facts_written: usize,
    pub discrepancies_written: usize,
    /// `(source name, error message)` for sources that failed; ingest continues.
    pub source_errors: Vec<(String, String)>,
}

/// Progress sink for a bulk collection pass. Implementations must be `Sync`
/// because `company_done` is called from the concurrent collection stream.
pub trait CollectProgress: Sync {
    /// Called once before any company is processed, with the total to process.
    fn start(&self, total: usize);

    /// Called as each company finishes (`done` is 1-based, in completion order).
    fn company_done(&self, done: usize, total: usize, ticker: &str, ok: bool);
}

/// A [`CollectProgress`] that reports nothing (for callers that don't care).
pub struct NoProgress;

impl CollectProgress for NoProgress {
    fn start(&self, _total: usize) {
    }

    fn company_done(&self, _done: usize, _total: usize, _ticker: &str, _ok: bool) {
    }
}

/// Totals over a sequence of per-company write counts (`Err` for a failed
/// company): (companies, facts written, failed).
pub open spec fn count_totals(outcomes: Seq<Result<usize, ()>>) -> (nat, nat, nat)
    decreases outcomes.len(),
{
    if outcomes.len() == 0 {
        (0, 0, 0)
    } else {
        let (c, w, f) = count_totals(outcomes.drop_last());
        match outcomes.last() {
            Ok(n) => (c + 1, w + n as nat, f),
            Err(_) => (c, w, f + 1),
        }
    }
}

proof fn lemma_count_totals_grow(outcomes: Seq<Result<usize, ()>>, i: int)
    requires
        0 <= i <= outcomes.len(),
    ensures
        count_totals(outcomes.subrange(0, i)).0 <= count_totals(outcomes).0,
        count_totals(outcomes.subrange(0, i)).1 <= count_totals(outcomes).1,
        count_totals(outcomes.subrange(0, i)).2 <= count_totals(outcomes).2,
    decreases outcomes.len() - i,
{
    if i < outcomes.len() {
        let s = outcomes.subrange(0, i + 1);
        assert(s.drop_last() =~= outcomes.subrange(0, i));
        lemma_count_totals_grow(outcomes, i + 1);
    } else {
        assert(outcomes.subrange(0, i) =~= outcomes);
    }
}

/// Tally per-company outcomes (`Ok(rows written)` or a failure): successes
/// count as companies and add their rows; failures count as failed. The
/// totals must fit in `usize`.
pub fn summarize(outcomes: &Vec<Result<usize, ()>>) -> (s: CollectSummary)
    requires
        count_totals(outcomes@).1 <= usize::MAX,
    ensures
        s.companies == count_totals(outcomes@).0,
        s.facts_written == count_totals(outcomes@).1,
        s.failed == count_totals(outcomes@).2,
        s.discrepancies_written == 0,
        s.source_errors == 0,
{
    let mut s = CollectSummary::default();
    let mut i: usize = 0;
    while i < outcomes.len()
        invariant
            i <= outcomes@.len(),
            count_totals(outcomes@).1 <= usize::MAX,
            s.companies == count_totals(outcomes@.subrange(0, i as int)).0,
            s.facts_written == count_totals(outcomes@.subrange(0, i as int)).1,
            s.failed == count_totals(outcomes@.subrange(0, i as int)).2,
            s.companies <= i,
            s.failed <= i,
            s.discrepancies_written == 0,
            s.source_errors == 0,
        decreases outcomes.len() - i,
    {
        assert(outcomes@.subrange(0, i + 1).drop_last() =~= outcomes@.subrange(0, i as int));
        proof {
            lemma_count_totals_grow(outcomes@, i + 1);
        }
        match outcomes[i] {
            Ok(written) => {
                s.companies = s.companies + 1;
                s.facts_written = s.facts_written + written;
            },
            Err(_) => {
                s.failed = s.failed + 1;
            },
        }
        i = i + 1;
    }
    assert(outcomes@.subrange(0, outcomes@.len() as int) =~= outcomes@);
    s
}

/// The counts of one company's ingest that a bulk pass adds up: facts
/// written, discrepancies written, failing sources.
pub open spec fn report_counts(r: IngestReport) -> (nat, nat, nat) {
    (r.facts_written as nat, r.discrepancies_written as nat, r.source_errors@.len())
}

/// Totals over per-company ingest outcomes (`Err` for a failed company):
/// companies, facts, discrepancies, source errors, failed.
pub open spec fn ingest_totals(outcomes: Seq<Result<IngestReport, ()>>) -> (nat, nat, nat, nat, nat)
    decreases outcomes.len(),
{
    if outcomes.len() == 0 {
        (0, 0, 0, 0, 0)
    } else {
        let (c, f, d, e, x) = ingest_totals(outcomes.drop_last());
        match outcomes.last() {
            Ok(r) => (
                c + 1,
                f + report_counts(r).0,
                d + report_counts(r).1,
                e + report_counts(r).2,
                x,
            ),
            Err(_) => (c, f, d, e, x + 1),
        }
    }
}

proof fn lemma_ingest_totals_grow(outcomes: Seq<Result<IngestReport, ()>>, i: int)
    requires
        0 <= i <= outcomes.len(),
    ensures
        ingest_totals(outcomes.subrange(0, i)).1 <= ingest_totals(outcomes).1,
        ingest_totals(outcomes.subrange(0, i)).2 <= ingest_totals(outcomes).2,
        ingest_totals(outcomes.subrange(0, i)).3 <= ingest_totals(outcomes).3,
    decreases outcomes.len() - i,
{
    if i < outcomes.len() {
        let s = outcomes.subrange(0, i + 1);
        assert(s.drop_last() =~= outcomes.subrange(0, i));
        lemma_ingest_totals_grow(outcomes, i + 1);
    } else {
        assert(outcomes.subrange(0, i) =~= outcomes);
    }
}

/// Add up a bulk pass: each successful company counts once and contributes
/// its facts, discrepancies and failing sources; each failure counts as
/// failed. The totals must fit in `usize`.
pub fn tally_reports(outcomes: &Vec<Result<IngestReport, ()>>) -> (s: CollectSummary)
    requires
        ingest_totals(outcomes@).1 <= usize::MAX,
        ingest_totals(outcomes@).2 <= usize::MAX,
        ingest_totals(outcomes@).3 <= usize::MAX,
    ensures
        s.companies == ingest_totals(outcomes@).0,
        s.facts_written == ingest_totals(outcomes@).1,
        s.discrepancies_written == ingest_totals(outcomes@).2,
        s.source_errors == ingest_totals(outcomes@).3,
        s.failed == ingest_totals(outcomes@).4,
{
    let mut s = CollectSummary::default();
    let mut i: usize = 0;
    while i < outcomes.len()
        invariant
            i <= outcomes@.len(),
            ingest_totals(outcomes@).1 <= usize::MAX,
            ingest_totals(outcomes@).2 <= usize::MAX,
            ingest_totals(outcomes@).3 <= usize::MAX,
            s.companies == ingest_totals(outcomes@.subrange(0, i as int)).0,
            s.facts_written == ingest_totals(outcomes@.subrange(0, i as int)).1,
            s.discrepancies_written == ingest_totals(outcomes@.subrange(0, i as int)).2,
            s.source_errors == ingest_totals(outcomes@.subrange(0, i as int)).3,
            s.failed == ingest_totals(outcomes@.subrange(0, i as int)).4,
            s.companies <= i,
            s.failed <= i,
        decreases outcomes.len() - i,
    {
        assert(outcomes@.subrange(0, i + 1).drop_last() =~= outcomes@.subrange(0, i as int));
        proof {
            lemma_ingest_totals_grow(outcomes@, i + 1);
        }
        match &outcomes[i] {
            Ok(report) => {
                s.companies = s.companies + 1;
                s.facts_written = s.facts_written + report.facts_written;
                s.discrepancies_written = s.discrepancies_written + report.discrepancies_written;
                s.source_errors = s.source_errors + report.source_errors.len();
            },
            Err(_) => {
                s.failed = s.failed + 1;
            },
        }
        i = i + 1;
    }
    assert(outcomes@.subrange(0, outcomes@.len() as int) =~= outcomes@);
    s
}

/// Every company of a pass is counted exactly once, as collected or failed.
pub proof fn every_company_counted(outcomes: Seq<Result<IngestReport, ()>>)
    ensures
        ingest_totals(outcomes).0 + ingest_totals(outcomes).4 == outcomes.len(),
    decreases outcomes.len(),
{
    if outcomes.len() > 0 {
        every_company_counted(outcomes.drop_last());
    }
}

/// The source target of a company: EDGAR keys on CIK, vendors on ticker.
pub fn target_of(c: &Company) -> (r: SourceTarget)
    ensures
        r.cik@ == c.cik@,
        r.symbol@ == c.ticker@,
{
    SourceTarget { cik: c.cik.clone(), symbol: c.ticker.clone() }
}

/// Whether `name` is among `names` (by characters).
pub open spec fn named_in(names: Seq<String>, name: Seq<char>) -> bool {
    exists|i: int| 0 <= i < names.len() && names[i]@ == name
}

/// The positions, in order, of the stored facts whose source reported nothing
/// this run — those stand in for their source in reconciliation, so an
/// already-canonical value keeps outranking a fresh value from a lesser
/// source.
pub open spec fn stand_ins(fresh_sources: Seq<String>, stored_sources: Seq<String>) -> Seq<usize>
    decreases stored_sources.len(),
{
    if stored_sources.len() == 0 {
        Seq::empty()
    } else {
        let rest = stand_ins(fresh_sources, stored_sources.drop_last());
        if named_in(fresh_sources, stored_sources.last()@) {
            rest
        } else {
            rest.push((stored_sources.len() - 1) as usize)
        }
    }
}

/// The stand-ins are the positions of the stored facts whose source is not
/// among the fresh ones, each once and in increasing order.
pub proof fn stand_ins_are_unreported_positions(fresh_sources: Seq<String>, stored_sources: Seq<String>)
    requires
        stored_sources.len() <= usize::MAX,
    ensures
        forall|k: int|
            0 <= k < stand_ins(fresh_sources, stored_sources).len() ==> #[trigger] stand_ins(
                fresh_sources,
                stored_sources,
            )[k] < stored_sources.len(),
        forall|k: int, m: int|
            0 <= k < m < stand_ins(fresh_sources, stored_sources).len() ==> #[trigger] stand_ins(
                fresh_sources,
                stored_sources,
            )[k] < #[trigger] stand_ins(fresh_sources, stored_sources)[m],
        forall|j: int|
            0 <= j < stored_sources.len() ==> (stand_ins(fresh_sources, stored_sources).contains(j as usize)
                <==> !named_in(fresh_sources, #[trigger] stored_sources[j]@)),
    decreases stored_sources.len(),
{
    if stored_sources.len() > 0 {
        let init = stored_sources.drop_last();
        let n = stored_sources.len() - 1;
        stand_ins_are_unreported_positions(fresh_sources, init);
        let rest = stand_ins(fresh_sources, init);
        let all = stand_ins(fresh_sources, stored_sources);
        assert forall|j: int| 0 <= j < n implies #[trigger] stored_sources[j] == init[j] by {}
        if rest.contains(n as usize) {
            let k = choose|k: int| 0 <= k < rest.len() && rest[k] == n as usize;
            assert(rest[k] < init.len());
        }
        if named_in(fresh_sources, stored_sources.last()@) {
            assert(all == rest);
        } else {
            assert(all == rest.push(n as usize));
            assert forall|j: int| 0 <= j < stored_sources.len() implies (all.contains(j as usize) <==> !named_in(
                fresh_sources,
                #[trigger] stored_sources[j]@,
            )) by {
                lemma_seq_contains_after_push(rest, n as usize, j as usize);
                if j < n {
                    assert(stored_sources[j] == init[j]);
                }
            }
        }
        assert forall|j: int| 0 <= j < stored_sources.len() implies (all.contains(j as usize) <==> !named_in(
            fresh_sources,
            #[trigger] stored_sources[j]@,
        )) by {
            if j < n {
                assert(stored_sources[j] == init[j]);
            }
        }
    }
}

fn is_named_in(names: &Vec<String>, name: &str) -> (r: bool)
    ensures
        r == named_in(names@, name@),
{
    let mut i: usize = 0;
    while i < names.len()
        invariant
            i <= names@.len(),
            forall|j: int| 0 <= j < i ==> names@[j]@ != name@,
        decreases names.len() - i,
    {
        if str_eq(names[i].as_str(), name) {
            return true;
        }
        i = i + 1;
    }
    false
}

/// Which stored facts (by position) to add to this run's fresh facts: those
/// whose source produced nothing fresh.
pub fn stored_stand_ins(fresh_sources: &Vec<String>, stored_sources: &Vec<String>) -> (r: Vec<
    usize,
>)
    ensures
        r@ == stand_ins(fresh_sources@, stored_sources@),
        forall|k: int| 0 <= k < r@.len() ==> #[trigger] r@[k] < stored_sources@.len(),
        forall|k: int, m: int| 0 <= k < m < r@.len() ==> #[trigger] r@[k] < #[trigger] r@[m],
        forall|j: int|
            0 <= j < stored_sources@.len() ==> (r@.contains(j as usize) <==> !named_in(
                fresh_sources@,
                #[trigger] stored_sources@[j]@,
            )),
{
    let mut out: Vec<usize> = Vec::new();
    let mut i: usize = 0;
    while i < stored_sources.len()
        invariant
            i <= stored_sources@.len(),
            out@ == stand_ins(fresh_sources@, stored_sources@.subrange(0, i as int)),
        decreases stored_sources.len() - i,
    {
        assert(stored_sources@.subrange(0, i + 1).drop_last() =~= stored_sources@.subrange(0, i as int));
        if !is_named_in(fresh_sources, stored_sources[i].as_str()) {
            out.push(i);
        }
        i = i + 1;
    }
    assert(stored_sources@.subrange(0, stored_sources@.len() as int) =~= stored_sources@);
    proof {
        stand_ins_are_unreported_positions(fresh_sources@, stored_sources@);
    }
    out
}

/// Days re-fetched before the last stored price, so upstream revisions of
/// recent bars (splits, late corrections) are picked up by the overlap.
pub const PRICE_REFRESH_OVERLAP_DAYS: i64 = 7;

/// Where an incremental price refresh starts (days since 1970-01-01): a week
/// before the last stored bar; with no stored bars, the source's full window.
pub fn refresh_since(last_stored: Option<i64>) -> (r: Option<i64>)
    requires
        last_stored matches Some(d) ==> d >= i64::MIN + PRICE_REFRESH_OVERLAP_DAYS,
    ensures
        match last_stored {
            Some(d) => r == Some((d - PRICE_REFRESH_OVERLAP_DAYS) as i64),
            None => r is None,
        },
{
    match last_stored {
        Some(d) => Some(d - PRICE_REFRESH_OVERLAP_DAYS),
        None => None,
    }
}

/// A company whose last price is older than this (and that EDGAR can no
/// longer find) is treated as delisted.
pub const DELISTED_STALE_DAYS: i64 = 30;

/// The listing status one collect run's signals imply.
pub open spec fn listing_status(
    edgar_missing: bool,
    new_prices: nat,
    latest_price_day: Option<i64>,
    today: i64,
) -> Seq<char> {
    let stale = match latest_price_day {
        None => true,
        Some(d) => today - d > DELISTED_STALE_DAYS,
    };
    if edgar_missing && new_prices == 0 && stale {
        "delisted"@
    } else {
        "active"@
    }
}

/// Decide a company's listing status from one collect run's signals.
///
/// Conservative to avoid false positives from transient outages: only
/// `"delisted"` when EDGAR reports the CIK missing (404) **and** no fresh prices
/// arrived this run **and** the newest stored price (a day number) is stale
/// (or none exists). Otherwise `"active"`, which self-heals a company once
/// data returns.
pub fn delisting_status(
    edgar_missing: bool,
    new_prices: usize,
    latest_price_day: Option<i64>,
    today: i64,
) -> (r: &'static str)
    ensures
        r@ == listing_status(edgar_missing, new_prices as nat, latest_price_day, today),
        r == "delisted" || r == "active",
        (r == "delisted") == (edgar_missing && new_prices == 0 && (latest_price_day is None || today
            - latest_price_day.unwrap() > DELISTED_STALE_DAYS)),
{
    let prices_stale = match latest_price_day {
        None => true,
        Some(d) => (today as i128) - (d as i128) > DELISTED_STALE_DAYS as i128,
    };
    if edgar_missing && new_prices == 0 && prices_stale {
        "delisted"
    } else {
        "active"
    }
}

/// Fresh prices, or a recent stored price, always keep a company active.
pub proof fn fresh_data_keeps_active(
    edgar_missing: bool,
    new_prices: nat,
    latest_price_day: Option<i64>,
    today: i64,
)
    requires
        new_prices > 0 || !edgar_missing || (latest_price_day matches Some(d) && today - d
            <= DELISTED_STALE_DAYS),
    ensures
        listing_status(edgar_missing, new_prices, latest_price_day, today) == "active"@,
{
}

/// Whether one `(source, message)` pair says EDGAR does not know the company.
pub open spec fn edgar_not_found(e: (String, String)) -> bool {
    e.0@ == "edgar"@ && crate::text::occurs_in(e.1@, "404"@)
}

/// Whether any source error is EDGAR reporting the company missing (a 404).
pub fn edgar_reported_missing(errors: &Vec<(String, String)>) -> (r: bool)
    ensures
        r == exists|i: int| 0 <= i < errors@.len() && edgar_not_found(#[trigger] errors@[i]),
{
    let needle = chars_of("404");
    let mut i: usize = 0;
    while i < errors.len()
        invariant
            i <= errors@.len(),
            needle@ == "404"@,
            forall|j: int| 0 <= j < i ==> !edgar_not_found(#[trigger] errors@[j]),
        decreases errors.len() - i,
    {
        let (source, message) = (&errors[i].0, &errors[i].1);
        if str_eq(source.as_str(), "edgar") {
            let text = chars_of(message.as_str());
            let hit = find_from(&text, &needle, 0);
            proof {
                lemma_first_at(text@, needle@, 0);
            }
            if hit.is_some() {
                proof {
                    assert(occurs_at(message@, "404"@, hit.unwrap() as int));
                }
                return true;
            }
        }
        i = i + 1;
    }
    false
}

/// Which sources a collection run uses.
#[derive(Debug, Clone, Copy, PartialEq, Eq)]
pub struct SourcePlan {
    /// FMP facts and prices (needs an FMP key).
    pub fmp: bool,
    /// Finnhub news (needs a Finnhub key).
    pub finnhub: bool,
    /// The HTML scrape fallback (targeted runs only, not the whole universe).
    pub scrape: bool,
}

/// The sources of a run: EDGAR facts, Yahoo prices and Yahoo news always
/// (they need no key); FMP and Finnhub when their keys are configured; the
/// scrape fallback only when not collecting the whole universe.
pub fn source_plan(has_fmp_key: bool, has_finnhub_key: bool, whole_universe: bool) -> (r: SourcePlan)
    ensures
        r.fmp == has_fmp_key,
        r.finnhub == has_finnhub_key,
        r.scrape == !whole_universe,
{
    SourcePlan { fmp: has_fmp_key, finnhub: has_finnhub_key, scrape: !whole_universe }
}

/// Whether the scheduler has nothing to collect: neither the whole universe
/// nor any configured ticker.
pub fn scheduler_idle(collect_all: bool, tickers: &Vec<String>) -> (r: bool)
    ensures
        r == (!collect_all && tickers@.len() == 0),
{
    !collect_all && tickers.len() == 0
}

/// Tickers as a targeted run uses them: upper-cased.
pub fn upper_tickers(tickers: &Vec<String>) -> (r: Vec<String>)
    ensures
        r@.len() == tickers@.len(),
        forall|i: int| 0 <= i < tickers@.len() ==> #[trigger] r@[i]@ == uppercase_of(tickers@[i]@),
{
    let mut out: Vec<String> = Vec::new();
    let mut i: usize = 0;
    while i < tickers.len()
        invariant
            i <= tickers@.len(),
            out@.len() == i,
            forall|j: int| 0 <= j < i ==> #[trigger] out@[j]@ == uppercase_of(tickers@[j]@),
        decreases tickers.len() - i,
    {
        out.push(to_uppercase(tickers[i].as_str()));
        i = i + 1;
    }
    out
}

/// The profile the sources give together: each laid over the ones before
/// it, starting from a blank profile.
pub open spec fn merged_profile(profiles: Seq<ProfileView>) -> ProfileView
    decreases profiles.len(),
{
    if profiles.len() == 0 {
        blank_profile()
    } else {
        overlay_view(merged_profile(profiles.drop_last()), profiles.last())
    }
}

fn copy_opt(o: &Option<String>) -> (r: Option<String>)
    ensures
        opt_view(r) == opt_view(*o),
{
    match o {
        Some(s) => Some(s.clone()),
        None => None,
    }
}

fn copy_profile(p: &CompanyProfile) -> (r: CompanyProfile)
    ensures
        r@ == p@,
{
    CompanyProfile {
        sector: copy_opt(&p.sector),
        industry: copy_opt(&p.industry),
        exchange: copy_opt(&p.exchange),
        website: copy_opt(&p.website),
        description: copy_opt(&p.description),
        employees: p.employees,
    }
}

/// Merging in two batches gives what merging everything at once gives: the
/// second batch's merged profile laid over the first's.
pub proof fn merge_in_batches(a: Seq<ProfileView>, b: Seq<ProfileView>)
    ensures
        merged_profile(a + b) == overlay_view(merged_profile(a), merged_profile(b)),
    decreases b.len(),
{
    if b.len() == 0 {
        assert(a + b =~= a);
        overlay_blank_is_identity(merged_profile(a));
    } else {
        assert((a + b).drop_last() =~= a + b.drop_last());
        assert((a + b).last() == b.last());
        merge_in_batches(a, b.drop_last());
        overlay_associative(merged_profile(a), merged_profile(b.drop_last()), b.last());
    }
}

/// Merge the profiles the sources returned, in source order: a later
/// source's fields win where it has them.
pub fn merge_profiles(profiles: &Vec<CompanyProfile>) -> (r: CompanyProfile)
    ensures
        r@ == merged_profile(profiles@.map_values(|p: CompanyProfile| p@)),
{
    let ghost views = profiles@.map_values(|p: CompanyProfile| p@);
    let mut merged = CompanyProfile::default();
    let mut i: usize = 0;
    while i < profiles.len()
        invariant
            i <= profiles@.len(),
            views == profiles@.map_values(|p: CompanyProfile| p@),
            merged@ == merged_profile(views.subrange(0, i as int)),
        decreases profiles.len() - i,
    {
        let p = copy_profile(&profiles[i]);
        assert(views.subrange(0, i + 1).drop_last() =~= views.subrange(0, i as int));
        merged = merged.overlay(p);
        i = i + 1;
    }
    assert(views.subrange(0, profiles@.len() as int) =~= views);
    merged
}

/// The company rows a ticker directory gives (identity only; exchange,
/// sector and industry come later from enrichment).
pub fn new_companies(refs: &Vec<CompanyRef>) -> (r: Vec<NewCompany>)
    ensures
        r@.len() == refs@.len(),
        forall|i: int|
            0 <= i < refs@.len() ==> {
                let c = #[trigger] r@[i];
                &&& c.cik@ == refs@[i].cik@
                &&& c.ticker@ == refs@[i].ticker@
                &&& c.name@ == refs@[i].name@
                &&& c.exchange is None && c.sector is None && c.industry is None
            },
{
    let mut out: Vec<NewCompany> = Vec::new();
    let mut i: usize = 0;
    while i < refs.len()
        invariant
            i <= refs@.len(),
            out@.len() == i,
            forall|j: int|
                0 <= j < i ==> {
                    let c = #[trigger] out@[j];
                    &&& c.cik@ == refs@[j].cik@
                    &&& c.ticker@ == refs@[j].ticker@
                    &&& c.name@ == refs@[j].name@
                    &&& c.exchange is None && c.sector is None && c.industry is None
                },
        decreases refs.len() - i,
    {
        let r = &refs[i];
        out.push(
            NewCompany {
                cik: r.cik.clone(),
                ticker: r.ticker.clone(),
                name: r.name.clone(),
                exchange: None,
                sector: None,
                industry: None,
            },
        );
        i = i + 1;
    }
    out
}

/// How many of the enrichment outcomes succeeded.
pub open spec fn succeeded(outcomes: Seq<bool>) -> nat
    decreases outcomes.len(),
{
    if outcomes.len() == 0 {
        0
    } else {
        succeeded(outcomes.drop_last()) + if outcomes.last() {
            1nat
        } else {
            0nat
        }
    }
}

/// Totals of an enrichment pass: companies enriched and failed.
pub fn tally_enriched(outcomes: &Vec<bool>) -> (s: CollectSummary)
    ensures
        s.companies == succeeded(outcomes@),
        s.failed == outcomes@.len() - succeeded(outcomes@),
        s.facts_written == 0,
        s.discrepancies_written == 0,
        s.source_errors == 0,
{
    let mut s = CollectSummary::default();
    let mut i: usize = 0;
    while i < outcomes.len()
        invariant
            i <= outcomes@.len(),
            s.companies == succeeded(outcomes@.subrange(0, i as int)),
            s.failed == i - succeeded(outcomes@.subrange(0, i as int)),
            s.facts_written == 0,
            s.discrepancies_written == 0,
            s.source_errors == 0,
            succeeded(outcomes@.subrange(0, i as int)) <= i,
        decreases outcomes.len() - i,
    {
        assert(outcomes@.subrange(0, i + 1).drop_last() =~= outcomes@.subrange(0, i as int));
        if outcomes[i] {
            s.companies = s.companies + 1;
        } else {
            s.failed = s.failed + 1;
        }
        i = i + 1;
    }
    assert(outcomes@.subrange(0, outcomes@.len() as int) =~= outcomes@);
    s
}

/// The Parquet file a ticker's prices are exported to: the ticker with `/`
/// made `-` (so share classes like `BRK/B` stay one path component), then
/// `.parquet`.
pub fn parquet_file_name(ticker: &str) -> (r: String)
    ensures
        r@ == replaced_char(ticker@, '/', '-') + ".parquet"@,
{
    let base = replace_char(ticker, '/', '-');
    cat2(base.as_str(), ".parquet")
}

/// Market indices tracked for the dashboard summary, as (Yahoo chart symbol,
/// name). They are collected like equities but hidden from the directory and
/// the movers.
pub fn tracked_indices() -> (r: Vec<(&'static str, &'static str)>)
    ensures
        r@.len() == 3,
        r@[0].0@ == "^GSPC"@ && r@[0].1@ == "S&P 500"@,
        r@[1].0@ == "^IXIC"@ && r@[1].1@ == "Nasdaq Composite"@,
        r@[2].0@ == "^DJI"@ && r@[2].1@ == "Dow Jones Industrial Average"@,
{
    let mut v: Vec<(&'static str, &'static str)> = Vec::new();
    v.push(("^GSPC", "S&P 500"));
    v.push(("^IXIC", "Nasdaq Composite"));
    v.push(("^DJI", "Dow Jones Industrial Average"));
    v
}

} // verus!
