//! Yahoo Finance: the keyless daily-chart URL and the profile endpoint with its
//! cookie + crumb handshake.

use vstd::prelude::*;

use crate::collectors::json::{
    at_index, at_key, employee_count, field, item, json_count, json_nonempty, nonempty, Json,
};
use crate::collectors::{chrono_day, CollectorError};
use crate::domain::{opt_view, CompanyProfile, PricePoint, PriceView, ProfileView};
use crate::text::{cat2, count_tokens, decimal_int, format_i64, owned, to_uppercase, token_count, uppercase_of};

verus! {

/// Source label stamped on Yahoo rows.
pub const SOURCE: &'static str = "yahoo";

/// ~20 years of trading days: how far back a first (non-incremental) chart
/// request reaches.
pub const HISTORY_DAYS: i64 = 7300;

/// Seconds in a day.
pub const SECS_PER_DAY: i64 = 86_400;

/// Collects daily prices from Yahoo Finance's keyless chart API.
pub struct YahooCollector<H> {
    pub http: H,
}

/// The chart request's start epoch: midnight of `since` when given
/// (incremental refresh), else [`HISTORY_DAYS`] before `now`.
pub open spec fn chart_start(now: int, since: Option<i64>) -> int {
    match since {
        Some(day) => day * SECS_PER_DAY,
        None => now - HISTORY_DAYS * SECS_PER_DAY,
    }
}

/// The daily-chart URL for `symbol` between the two epochs.
pub open spec fn chart_url_of(symbol: Seq<char>, period1: int, period2: int) -> Seq<char> {
    "https://query1.finance.yahoo.com/v8/finance/chart/"@ + uppercase_of(symbol)
        + "?interval=1d&period1="@ + decimal_int(period1) + "&period2="@ + decimal_int(period2)
}

impl<H> YahooCollector<H> {
    /// The name this source reports prices under.
    pub fn name(&self) -> (r: &'static str)
        ensures
            r@ == SOURCE@,
    {
        SOURCE
    }

    pub fn new(http: H) -> (r: Self)
        ensures
            r.http == http,
    {
        YahooCollector { http }
    }

    /// Daily-chart URL up to `now` (epoch seconds), starting at midnight of
    /// `since` (days since 1970-01-01) when given, or ~20y back otherwise. Uses
    /// explicit period1/period2 epochs (with `interval=1d`) rather than
    /// `range=max`, which Yahoo downsamples to monthly for long spans.
    pub fn chart_url(symbol: &str, now: i64, since: Option<i64>) -> (r: String)
        requires
            now >= i64::MIN + HISTORY_DAYS * SECS_PER_DAY,
            since matches Some(d) ==> -100_000_000 <= d <= 100_000_000,
        ensures
            r@ == chart_url_of(symbol@, chart_start(now as int, since), now as int),
    {
        let period1: i64 = match since {
            Some(day) => day * SECS_PER_DAY,
            None => now - HISTORY_DAYS * SECS_PER_DAY,
        };
        let mut u = owned("https://query1.finance.yahoo.com/v8/finance/chart/");
        let upper = to_uppercase(symbol);
        u.append(upper.as_str());
        u.append("?interval=1d&period1=");
        let p1 = format_i64(period1);
        u.append(p1.as_str());
        u.append("&period2=");
        let p2 = format_i64(now);
        u.append(p2.as_str());
        u
    }
}

/// Collects company-profile metadata from Yahoo's `quoteSummary?modules=assetProfile`,
/// which requires a cookie + crumb handshake. Keyless. The crumb, once
/// accepted, is cached here for the rest of the run.
pub struct YahooProfileCollector<H> {
    pub http: H,
    pub crumb: Option<String>,
}

/// A usable crumb is exactly one whitespace-free token.
pub open spec fn crumb_acceptable(body: Seq<char>) -> bool {
    token_count(body) == 1
}

impl<H> YahooProfileCollector<H> {
    /// The name this source reports profiles under.
    pub fn name(&self) -> (r: &'static str)
        ensures
            r@ == SOURCE@,
    {
        SOURCE
    }

    pub fn new(http: H) -> (r: Self)
        ensures
            r.http == http,
            r.crumb is None,
    {
        YahooProfileCollector { http, crumb: None }
    }

    pub fn profile_url(symbol: &str, crumb: &str) -> (r: String)
        ensures
            r@ == "https://query1.finance.yahoo.com/v10/finance/quoteSummary/"@ + uppercase_of(
                symbol@,
            ) + "?modules=assetProfile&crumb="@ + crumb@,
    {
        let mut u = owned("https://query1.finance.yahoo.com/v10/finance/quoteSummary/");
        let upper = to_uppercase(symbol);
        u.append(upper.as_str());
        u.append("?modules=assetProfile&crumb=");
        u.append(crumb);
        u
    }

    /// The cached crumb, when a handshake already succeeded this run.
    pub fn cached_crumb(&self) -> (r: Option<String>)
        ensures
            r == self.crumb,
    {
        match &self.crumb {
            Some(c) => Some(c.clone()),
            None => None,
        }
    }

    /// Judge the body of a crumb request. A real crumb is a single
    /// whitespace-free token; anything else (e.g. a "Too Many Requests" page)
    /// is refused and not cached, so garbage is never reused.
    pub fn accept_crumb(&mut self, body: String) -> (r: Result<String, CollectorError>)
        ensures
            crumb_acceptable(body@) ==> (r matches Ok(c) && c == body),
            crumb_acceptable(body@) ==> final(self).crumb == Some(body),
            crumb_acceptable(body@) ==> final(self).http == old(self).http,
            !crumb_acceptable(body@) ==> (r matches Err(CollectorError::Http(m)) && m@ == "bad crumb: "@ + body@),
            !crumb_acceptable(body@) ==> *final(self) == *old(self),
    {
        if count_tokens(body.as_str()) != 1 {
            return Err(CollectorError::Http(cat2("bad crumb: ", body.as_str())));
        }
        self.crumb = Some(body.clone());
        Ok(body)
    }
}

/// The `assetProfile` object of a `quoteSummary` response.
pub open spec fn asset_profile_of(doc: Json) -> Option<Json> {
    at_key(at_index(at_key(at_key(Some(doc), "quoteSummary"@), "result"@), 0), "assetProfile"@)
}

/// The profile Yahoo's `quoteSummary?modules=assetProfile` response gives.
pub open spec fn asset_profile(doc: Json) -> ProfileView {
    let p = asset_profile_of(doc);
    ProfileView {
        sector: json_nonempty(at_key(p, "sector"@)),
        industry: json_nonempty(at_key(p, "industry"@)),
        exchange: None,
        website: json_nonempty(at_key(p, "website"@)),
        description: json_nonempty(at_key(p, "longBusinessSummary"@)),
        employees: json_count(at_key(p, "fullTimeEmployees"@)),
    }
}

/// Parse the `assetProfile` module of a `quoteSummary` response; an empty
/// result gives a blank profile.
pub fn parse_asset_profile(doc: &Json) -> (r: CompanyProfile)
    ensures
        r@ == asset_profile(*doc),
        opt_view(r.sector) == json_nonempty(at_key(asset_profile_of(*doc), "sector"@)),
        opt_view(r.industry) == json_nonempty(at_key(asset_profile_of(*doc), "industry"@)),
        r.exchange is None,
        opt_view(r.website) == json_nonempty(at_key(asset_profile_of(*doc), "website"@)),
        opt_view(r.description) == json_nonempty(at_key(asset_profile_of(*doc), "longBusinessSummary"@)),
        r.employees == json_count(at_key(asset_profile_of(*doc), "fullTimeEmployees"@)),
{
    let p = field(item(field(field(Some(doc), "quoteSummary"), "result"), 0), "assetProfile");
    CompanyProfile {
        sector: nonempty(field(p, "sector")),
        industry: nonempty(field(p, "industry")),
        exchange: None,
        website: nonempty(field(p, "website")),
        description: nonempty(field(p, "longBusinessSummary")),
        employees: employee_count(field(p, "fullTimeEmployees")),
    }
}

/// The day (counted from 1970-01-01) of the UTC instant `secs` seconds after
/// the Unix epoch, as `chrono`'s `DateTime::from_timestamp(secs, 0)` gives
/// it (the floor of `secs / 86400`); `None` beyond the dates `chrono`
/// represents.
pub open spec fn utc_day_of(secs: i64) -> Option<i32> {
    if chrono_day(secs as int / 86400) {
        Some((secs as int / 86400) as i32)
    } else {
        None
    }
}

/// Calls `chrono::DateTime::from_timestamp(secs, 0)` and gives the instant's
/// UTC date as its day count.
#[verifier::external_body]
fn utc_day(secs: i64) -> (r: Option<i32>)
    ensures
        r == utc_day_of(secs),
{
    match chrono::DateTime::from_timestamp(secs, 0) {
        Some(t) => Some(t.date_naive().to_epoch_days()),
        None => None,
    }
}

/// One quote block of a chart result: per-day OHLCV arrays (each may be
/// shorter than the timestamps, or empty when Yahoo omits it). Prices are the
/// decimal text of the response.
#[derive(Debug, Clone, PartialEq, Eq)]
pub struct ChartQuote {
    pub open: Vec<Option<String>>,
    pub high: Vec<Option<String>>,
    pub low: Vec<Option<String>>,
    pub close: Vec<Option<String>>,
    pub volume: Vec<Option<i64>>,
}

/// One result of Yahoo's chart response: the bar timestamps and the quote
/// blocks.
#[derive(Debug, Clone, PartialEq, Eq)]
pub struct ChartResult {
    pub timestamp: Option<Vec<i64>>,
    pub quotes: Vec<ChartQuote>,
}

/// Entry `i` of a per-day price array, when present and not null.
pub open spec fn price_at(v: Seq<Option<String>>, i: int) -> Option<Seq<char>> {
    if 0 <= i < v.len() {
        opt_view(v[i])
    } else {
        None
    }
}

/// Entry `i` of the per-day volume array, when present and not null.
pub open spec fn volume_at(v: Seq<Option<i64>>, i: int) -> Option<i64> {
    if 0 <= i < v.len() {
        v[i]
    } else {
        None
    }
}

/// The bar of day `i`, when it has a close and its timestamp a date.
pub open spec fn bar_at(company_id: i64, ts: Seq<i64>, q: ChartQuote, i: int) -> Seq<PriceView> {
    match price_at(q.close@, i) {
        Some(close) => match utc_day_of(ts[i]) {
            Some(day) => seq![
                PriceView {
                    company_id,
                    date: day as i64,
                    open: price_at(q.open@, i),
                    high: price_at(q.high@, i),
                    low: price_at(q.low@, i),
                    close,
                    volume: volume_at(q.volume@, i),
                    source: "yahoo"@,
                },
            ],
            None => Seq::empty(),
        },
        None => Seq::empty(),
    }
}

/// The bars of the first `n` timestamps.
pub open spec fn bars_upto(company_id: i64, ts: Seq<i64>, q: ChartQuote, n: int) -> Seq<PriceView>
    decreases n,
{
    if n <= 0 {
        Seq::empty()
    } else {
        bars_upto(company_id, ts, q, n - 1) + bar_at(company_id, ts, q, n - 1)
    }
}

/// The bars a chart response gives: those of its first result, read against
/// that result's first quote block; none without a result, timestamps or
/// quote block.
pub open spec fn chart_bars(company_id: i64, results: Option<Seq<ChartResult>>) -> Seq<PriceView> {
    match results {
        Some(rs) => if rs.len() > 0 {
            match rs[0].timestamp {
                Some(ts) => if rs[0].quotes@.len() > 0 {
                    bars_upto(company_id, ts@, rs[0].quotes@[0], ts@.len() as int)
                } else {
                    Seq::empty()
                },
                None => Seq::empty(),
            }
        } else {
            Seq::empty()
        },
        None => Seq::empty(),
    }
}

/// Day `i` of a chart is kept: it has a timestamp, a non-null close, and its
/// timestamp falls on a day `chrono` represents.
pub open spec fn day_kept(ts: Seq<i64>, q: ChartQuote, i: int) -> bool {
    &&& 0 <= i < ts.len()
    &&& i < q.close@.len()
    &&& q.close@[i] is Some
    &&& chrono_day(ts[i] as int / 86400)
}

/// Bar `b` is day `i` of the chart read from its arrays: a kept day, the
/// company, the UTC day of timestamp `i`, entry `i` of the open, high and low
/// arrays each (none where that array is short or the entry null), entry `i`
/// of the close array, entry `i` of the volume array, and the source `yahoo`.
pub open spec fn bar_reads_day(b: PriceView, company_id: i64, ts: Seq<i64>, q: ChartQuote, i: int) -> bool {
    &&& day_kept(ts, q, i)
    &&& b.company_id == company_id
    &&& b.date == ts[i] as int / 86400
    &&& b.open == (if i < q.open@.len() { opt_view(q.open@[i]) } else { None })
    &&& b.high == (if i < q.high@.len() { opt_view(q.high@[i]) } else { None })
    &&& b.low == (if i < q.low@.len() { opt_view(q.low@[i]) } else { None })
    &&& opt_view(q.close@[i]) == Some(b.close)
    &&& b.volume == (if i < q.volume@.len() { q.volume@[i] } else { None })
    &&& b.source == "yahoo"@
}

/// Bar `b` reads some day of the chart (see [`bar_reads_day`]).
pub open spec fn bar_reads_some_day(b: PriceView, company_id: i64, ts: Seq<i64>, q: ChartQuote) -> bool {
    exists|i: int| #[trigger] bar_reads_day(b, company_id, ts, q, i)
}

proof fn lemma_bars_upto_days(company_id: i64, ts: Seq<i64>, q: ChartQuote, n: int)
    requires
        0 <= n <= ts.len(),
    ensures
        forall|k: int|
            0 <= k < bars_upto(company_id, ts, q, n).len() ==> #[trigger] bar_reads_some_day(
                bars_upto(company_id, ts, q, n)[k],
                company_id,
                ts,
                q,
            ),
        forall|i: int|
            0 <= i < n && #[trigger] day_kept(ts, q, i) ==> exists|k: int|
                0 <= k < bars_upto(company_id, ts, q, n).len() && #[trigger] bar_reads_day(
                    bars_upto(company_id, ts, q, n)[k],
                    company_id,
                    ts,
                    q,
                    i,
                ),
    decreases n,
{
    if n > 0 {
        lemma_bars_upto_days(company_id, ts, q, n - 1);
        let prev = bars_upto(company_id, ts, q, n - 1);
        let last = bar_at(company_id, ts, q, n - 1);
        let all = bars_upto(company_id, ts, q, n);
        assert(all == prev + last);
        if day_kept(ts, q, n - 1) {
            assert(last.len() == 1);
            assert(bar_reads_day(last[0], company_id, ts, q, n - 1));
        } else {
            assert(last.len() == 0);
        }
        assert forall|k: int| 0 <= k < all.len() implies #[trigger] bar_reads_some_day(
            all[k],
            company_id,
            ts,
            q,
        ) by {
            if k < prev.len() {
                assert(all[k] == prev[k]);
                assert(bar_reads_some_day(prev[k], company_id, ts, q));
            } else {
                assert(all[k] == last[0]);
                assert(bar_reads_day(all[k], company_id, ts, q, n - 1));
            }
        }
        assert forall|i: int| 0 <= i < n && #[trigger] day_kept(ts, q, i) implies exists|k: int|
            0 <= k < all.len() && #[trigger] bar_reads_day(all[k], company_id, ts, q, i) by {
            if i < n - 1 {
                let k = choose|k: int| 0 <= k < prev.len() && #[trigger] bar_reads_day(prev[k], company_id, ts, q, i);
                assert(all[k] == prev[k]);
            } else {
                assert(all[prev.len() as int] == last[0]);
            }
        }
    }
}

/// The bars read from a chart response are its kept days, each read from
/// its own entries: every bar reads some day `i` of the first result's
/// timestamps against its first quote block (see [`bar_reads_day`]), and
/// every kept day is read by some bar. In particular a bar's low is entry `i`
/// of the low array and its high entry `i` of the high array.
pub proof fn chart_bars_read_their_days(company_id: i64, rs: Seq<ChartResult>)
    requires
        rs.len() > 0,
        rs[0].timestamp is Some,
        rs[0].quotes@.len() > 0,
    ensures
        forall|k: int|
            0 <= k < chart_bars(company_id, Some(rs)).len() ==> #[trigger] bar_reads_some_day(
                chart_bars(company_id, Some(rs))[k],
                company_id,
                rs[0].timestamp.unwrap()@,
                rs[0].quotes@[0],
            ),
        forall|i: int|
            #[trigger] day_kept(rs[0].timestamp.unwrap()@, rs[0].quotes@[0], i) ==> exists|k: int|
                0 <= k < chart_bars(company_id, Some(rs)).len() && #[trigger] bar_reads_day(
                    chart_bars(company_id, Some(rs))[k],
                    company_id,
                    rs[0].timestamp.unwrap()@,
                    rs[0].quotes@[0],
                    i,
                ),
{
    let ts = rs[0].timestamp.unwrap()@;
    let q = rs[0].quotes@[0];
    assert(chart_bars(company_id, Some(rs)) == bars_upto(company_id, ts, q, ts.len() as int));
    lemma_bars_upto_days(company_id, ts, q, ts.len() as int);
}

fn price_entry(v: &Vec<Option<String>>, i: usize) -> (r: Option<String>)
    ensures
        opt_view(r) == price_at(v@, i as int),
{
    if i < v.len() {
        match &v[i] {
            Some(p) => Some(p.clone()),
            None => None,
        }
    } else {
        None
    }
}

/// The abstract values of a run of price bars.
pub open spec fn price_views(v: Seq<PricePoint>) -> Seq<PriceView> {
    v.map_values(|p: PricePoint| p@)
}

/// Parse Yahoo's chart results into price bars. Days with a null close (no
/// trade) are skipped; an error/empty response (no result) yields no bars.
pub fn parse_chart(company_id: i64, results: &Option<Vec<ChartResult>>) -> (r: Vec<PricePoint>)
    ensures
        price_views(r@) == chart_bars(
            company_id,
            match results {
                Some(rs) => Some(rs@),
                None => None,
            },
        ),
{
    let mut points: Vec<PricePoint> = Vec::new();
    let result = match results {
        Some(rs) => {
            if rs.len() == 0 {
                return points;
            }
            &rs[0]
        },
        None => {
            return points;
        },
    };
    let ts = match &result.timestamp {
        Some(ts) => ts,
        None => {
            return points;
        },
    };
    if result.quotes.len() == 0 {
        return points;
    }
    let q = &result.quotes[0];
    let mut i: usize = 0;
    assert(price_views(points@) =~= Seq::<PriceView>::empty());
    while i < ts.len()
        invariant
            i <= ts@.len(),
            price_views(points@) == bars_upto(company_id, ts@, *q, i as int),
        decreases ts.len() - i,
    {
        let ghost before = price_views(points@);
        match price_entry(&q.close, i) {
            Some(close) => match utc_day(ts[i]) {
                Some(day) => {
                    let p = PricePoint {
                        company_id,
                        date: day as i64,
                        open: price_entry(&q.open, i),
                        high: price_entry(&q.high, i),
                        low: price_entry(&q.low, i),
                        close,
                        volume: if i < q.volume.len() {
                            q.volume[i]
                        } else {
                            None
                        },
                        source: owned("yahoo"),
                    };
                    points.push(p);
                    assert(price_views(points@) =~= before + bar_at(company_id, ts@, *q, i as int));
                },
                None => {
                    assert(price_views(points@) =~= before + bar_at(company_id, ts@, *q, i as int));
                },
            },
            None => {
                assert(price_views(points@) =~= before + bar_at(company_id, ts@, *q, i as int));
            },
        }
        i = i + 1;
    }
    points
}

} // verus!
