//! Financial Modeling Prep: prices, ratios, income-statement facts and
//! profiles (the facts let reconciliation cross-check EDGAR).

use vstd::prelude::*;

use crate::collectors::json::{
    at_index, at_key, employee_count, field, item, json_count, json_nonempty, nonempty, Json,
};
use crate::collectors::edgar_facts::fact_views;
use crate::collectors::{fp_period, iso_day, parse_iso_day, period_type_from_fp, CollectorError};
use crate::domain::{opt_view, CompanyProfile, FactView, FinancialFact, PeriodType, PriceView, PricePoint, ProfileView, StatementKind};
use crate::text::{cat2, owned};
use vstd::seq_lib::lemma_concat_associative;
use vstd::seq_lib::lemma_seq_concat_contains_all_elements;

verus! {

/// Root of every FMP endpoint.
pub const BASE: &'static str = "https://financialmodelingprep.com/api/v3";

/// Source label stamped on FMP rows.
pub const SOURCE: &'static str = "fmp";

/// Collects prices, income-statement facts, and ratios from FMP.
pub struct FmpCollector<H> {
    pub http: H,
    pub api_key: String,
}

/// `BASE + path + symbol + query + api_key`, the shape of every FMP URL.
pub open spec fn fmp_url(path: Seq<char>, symbol: Seq<char>, query: Seq<char>, key: Seq<char>) -> Seq<
    char,
> {
    "https://financialmodelingprep.com/api/v3"@ + path + symbol + query + key
}

fn build(path: &str, symbol: &str, query: &str, key: &str) -> (r: String)
    ensures
        r@ == fmp_url(path@, symbol@, query@, key@),
{
    let mut u = owned("https://financialmodelingprep.com/api/v3");
    u.append(path);
    u.append(symbol);
    u.append(query);
    u.append(key);
    u
}

impl<H> FmpCollector<H> {
    /// The name this source reports facts, prices and profiles under.
    pub fn name(&self) -> (r: &'static str)
        ensures
            r@ == SOURCE@,
    {
        SOURCE
    }

    pub fn new(http: H, api_key: String) -> (r: Self)
        ensures
            r.http == http,
            r.api_key == api_key,
    {
        FmpCollector { http, api_key }
    }

    pub fn prices_url(symbol: &str, api_key: &str) -> (r: String)
        ensures
            r@ == fmp_url("/historical-price-full/"@, symbol@, "?apikey="@, api_key@),
    {
        build("/historical-price-full/", symbol, "?apikey=", api_key)
    }

    pub fn income_url(symbol: &str, api_key: &str) -> (r: String)
        ensures
            r@ == fmp_url("/income-statement/"@, symbol@, "?period=quarter&apikey="@, api_key@),
    {
        build("/income-statement/", symbol, "?period=quarter&apikey=", api_key)
    }

    pub fn ratios_url(symbol: &str, api_key: &str) -> (r: String)
        ensures
            r@ == fmp_url("/ratios/"@, symbol@, "?apikey="@, api_key@),
    {
        build("/ratios/", symbol, "?apikey=", api_key)
    }

    pub fn profile_url(symbol: &str, api_key: &str) -> (r: String)
        ensures
            r@ == fmp_url("/profile/"@, symbol@, "?apikey="@, api_key@),
    {
        build("/profile/", symbol, "?apikey=", api_key)
    }
}

/// The profile FMP's `/profile/{symbol}` response gives: the fields of its
/// first element, each `None` when missing or empty.
pub open spec fn fmp_profile(doc: Json) -> ProfileView {
    let p = at_index(Some(doc), 0);
    ProfileView {
        sector: json_nonempty(at_key(p, "sector"@)),
        industry: json_nonempty(at_key(p, "industry"@)),
        exchange: json_nonempty(at_key(p, "exchangeShortName"@)),
        website: json_nonempty(at_key(p, "website"@)),
        description: json_nonempty(at_key(p, "description"@)),
        employees: json_count(at_key(p, "fullTimeEmployees"@)),
    }
}

/// Parse FMP's `/profile/{symbol}` response (a one-element array). Missing or
/// empty fields become `None`; an empty array yields a blank profile.
pub fn parse_profile(doc: &Json) -> (r: CompanyProfile)
    ensures
        r@ == fmp_profile(*doc),
        opt_view(r.sector) == json_nonempty(at_key(at_index(Some(*doc), 0), "sector"@)),
        opt_view(r.industry) == json_nonempty(at_key(at_index(Some(*doc), 0), "industry"@)),
        opt_view(r.exchange) == json_nonempty(at_key(at_index(Some(*doc), 0), "exchangeShortName"@)),
        opt_view(r.website) == json_nonempty(at_key(at_index(Some(*doc), 0), "website"@)),
        opt_view(r.description) == json_nonempty(at_key(at_index(Some(*doc), 0), "description"@)),
        r.employees == json_count(at_key(at_index(Some(*doc), 0), "fullTimeEmployees"@)),
{
    let p = item(Some(doc), 0);
    CompanyProfile {
        sector: nonempty(field(p, "sector")),
        industry: nonempty(field(p, "industry")),
        exchange: nonempty(field(p, "exchangeShortName")),
        website: nonempty(field(p, "website")),
        description: nonempty(field(p, "description")),
        employees: employee_count(field(p, "fullTimeEmployees")),
    }
}

/// One quarter of FMP's income statement: its period end (days since
/// 1970-01-01), fiscal period token, and the figures it reports, each as the
/// decimal text of the response.
#[derive(Debug, Clone, PartialEq, Eq)]
pub struct IncomeRow {
    pub date: i64,
    pub period: String,
    pub revenue: Option<String>,
    pub net_income: Option<String>,
    pub gross_profit: Option<String>,
    pub operating_income: Option<String>,
    pub eps: Option<String>,
    pub cost_of_revenue: Option<String>,
    pub ebitda: Option<String>,
}

/// The fact a present figure gives, as a run of zero or one facts.
pub open spec fn income_fact(
    company_id: i64,
    now: i64,
    pt: PeriodType,
    date: i64,
    item: Seq<char>,
    v: Option<Seq<char>>,
) -> Seq<FactView> {
    match v {
        Some(value) => seq![
            FactView {
                company_id,
                statement: StatementKind::Income,
                line_item: item,
                period_type: pt,
                period_end: date,
                value,
                source: "fmp"@,
                fetched_at: now,
            },
        ],
        None => Seq::empty(),
    }
}

/// The facts one row gives: nothing for an unmodelled fiscal period, else
/// its present figures in the order Revenue, NetIncome, GrossProfit,
/// OperatingIncome, Eps, CostOfRevenue, Ebitda (named as EDGAR's line items,
/// so reconciliation cross-checks them).
pub open spec fn row_facts(company_id: i64, now: i64, r: IncomeRow) -> Seq<FactView> {
    match fp_period(r.period@) {
        Some(pt) => income_fact(company_id, now, pt, r.date, "Revenue"@, opt_view(r.revenue))
            + income_fact(company_id, now, pt, r.date, "NetIncome"@, opt_view(r.net_income))
            + income_fact(company_id, now, pt, r.date, "GrossProfit"@, opt_view(r.gross_profit))
            + income_fact(company_id, now, pt, r.date, "OperatingIncome"@, opt_view(r.operating_income))
            + income_fact(company_id, now, pt, r.date, "Eps"@, opt_view(r.eps))
            + income_fact(company_id, now, pt, r.date, "CostOfRevenue"@, opt_view(r.cost_of_revenue))
            + income_fact(company_id, now, pt, r.date, "Ebitda"@, opt_view(r.ebitda)),
        None => Seq::empty(),
    }
}

/// The facts a run of rows gives, row by row.
pub open spec fn income_facts(company_id: i64, now: i64, rows: Seq<IncomeRow>) -> Seq<FactView>
    decreases rows.len(),
{
    if rows.len() == 0 {
        Seq::empty()
    } else {
        income_facts(company_id, now, rows.drop_last()) + row_facts(company_id, now, rows.last())
    }
}

/// Fact `v` reports one figure that `row` holds: the row's fiscal period is
/// modelled and gives `v`'s period type; `v` is an income-statement fact of
/// the company from `fmp`, stamped with the run time, for the row's period
/// end, with a line item named as EDGAR's and the figure's text: `Revenue`
/// with the revenue, `NetIncome` with the net income, `GrossProfit` with the
/// gross profit, `OperatingIncome` with the operating income, `Eps` with the
/// EPS, `CostOfRevenue` with the cost of revenue, or `Ebitda` with the EBITDA.
pub open spec fn reports_income_value(v: FactView, company_id: i64, now: i64, row: IncomeRow) -> bool {
    &&& fp_period(row.period@) is Some
    &&& v.period_type == fp_period(row.period@).unwrap()
    &&& v.company_id == company_id
    &&& v.statement == StatementKind::Income
    &&& v.period_end == row.date
    &&& v.source == "fmp"@
    &&& v.fetched_at == now
    &&& {
        ||| (v.line_item == "Revenue"@ && (row.revenue matches Some(t) && v.value == t@))
        ||| (v.line_item == "NetIncome"@ && (row.net_income matches Some(t) && v.value == t@))
        ||| (v.line_item == "GrossProfit"@ && (row.gross_profit matches Some(t) && v.value == t@))
        ||| (v.line_item == "OperatingIncome"@ && (row.operating_income matches Some(t) && v.value == t@))
        ||| (v.line_item == "Eps"@ && (row.eps matches Some(t) && v.value == t@))
        ||| (v.line_item == "CostOfRevenue"@ && (row.cost_of_revenue matches Some(t) && v.value == t@))
        ||| (v.line_item == "Ebitda"@ && (row.ebitda matches Some(t) && v.value == t@))
    }
}

proof fn lemma_income_fact_contains(
    company_id: i64,
    now: i64,
    pt: PeriodType,
    date: i64,
    item: Seq<char>,
    x: Option<Seq<char>>,
    v: FactView,
)
    ensures
        income_fact(company_id, now, pt, date, item, x).contains(v) <==> (x matches Some(t) && v == (FactView {
            company_id,
            statement: StatementKind::Income,
            line_item: item,
            period_type: pt,
            period_end: date,
            value: t,
            source: "fmp"@,
            fetched_at: now,
        })),
{
    let s = income_fact(company_id, now, pt, date, item, x);
    if x is Some {
        if s.contains(v) {
            let i = choose|i: int| 0 <= i < s.len() && s[i] == v;
            assert(i == 0);
        }
        if v == s[0] {
            assert(s[0] == v);
        }
    }
}

proof fn lemma_row_facts_contains(company_id: i64, now: i64, row: IncomeRow, v: FactView)
    ensures
        row_facts(company_id, now, row).contains(v) <==> reports_income_value(v, company_id, now, row),
{
    if let Some(pt) = fp_period(row.period@) {
        let a = income_fact(company_id, now, pt, row.date, "Revenue"@, opt_view(row.revenue));
        let b = income_fact(company_id, now, pt, row.date, "NetIncome"@, opt_view(row.net_income));
        let c = income_fact(company_id, now, pt, row.date, "GrossProfit"@, opt_view(row.gross_profit));
        let d = income_fact(company_id, now, pt, row.date, "OperatingIncome"@, opt_view(row.operating_income));
        let e = income_fact(company_id, now, pt, row.date, "Eps"@, opt_view(row.eps));
        let g = income_fact(company_id, now, pt, row.date, "CostOfRevenue"@, opt_view(row.cost_of_revenue));
        let h = income_fact(company_id, now, pt, row.date, "Ebitda"@, opt_view(row.ebitda));
        lemma_seq_concat_contains_all_elements(a, b, v);
        lemma_seq_concat_contains_all_elements(a + b, c, v);
        lemma_seq_concat_contains_all_elements(a + b + c, d, v);
        lemma_seq_concat_contains_all_elements(a + b + c + d, e, v);
        lemma_seq_concat_contains_all_elements(a + b + c + d + e, g, v);
        lemma_seq_concat_contains_all_elements(a + b + c + d + e + g, h, v);
        lemma_income_fact_contains(company_id, now, pt, row.date, "Revenue"@, opt_view(row.revenue), v);
        lemma_income_fact_contains(company_id, now, pt, row.date, "NetIncome"@, opt_view(row.net_income), v);
        lemma_income_fact_contains(company_id, now, pt, row.date, "GrossProfit"@, opt_view(row.gross_profit), v);
        lemma_income_fact_contains(company_id, now, pt, row.date, "OperatingIncome"@, opt_view(row.operating_income), v);
        lemma_income_fact_contains(company_id, now, pt, row.date, "Eps"@, opt_view(row.eps), v);
        lemma_income_fact_contains(company_id, now, pt, row.date, "CostOfRevenue"@, opt_view(row.cost_of_revenue), v);
        lemma_income_fact_contains(company_id, now, pt, row.date, "Ebitda"@, opt_view(row.ebitda), v);
    }
}

/// The facts read from FMP income rows are exactly the figures the rows
/// hold: a fact is among them if and only if it reports a figure of some row
/// under that figure's own line item (see [`reports_income_value`]). So a
/// row of an unmodelled fiscal period gives nothing, an absent figure gives
/// no fact, and each present figure comes out under its name.
pub proof fn income_facts_report_row_figures(company_id: i64, now: i64, rows: Seq<IncomeRow>, v: FactView)
    ensures
        income_facts(company_id, now, rows).contains(v) <==> exists|k: int|
            0 <= k < rows.len() && reports_income_value(v, company_id, now, #[trigger] rows[k]),
    decreases rows.len(),
{
    if rows.len() > 0 {
        let init = rows.drop_last();
        income_facts_report_row_figures(company_id, now, init, v);
        lemma_seq_concat_contains_all_elements(
            income_facts(company_id, now, init),
            row_facts(company_id, now, rows.last()),
            v,
        );
        lemma_row_facts_contains(company_id, now, rows.last(), v);
        if exists|k: int| 0 <= k < rows.len() && reports_income_value(v, company_id, now, #[trigger] rows[k]) {
            let k = choose|k: int| 0 <= k < rows.len() && reports_income_value(v, company_id, now, #[trigger] rows[k]);
            if k < rows.len() - 1 {
                assert(init[k] == rows[k]);
            }
        }
        if exists|k: int| 0 <= k < init.len() && reports_income_value(v, company_id, now, #[trigger] init[k]) {
            let k = choose|k: int| 0 <= k < init.len() && reports_income_value(v, company_id, now, #[trigger] init[k]);
            assert(rows[k] == init[k]);
        }
    }
}

fn push_figure(
    out: &mut Vec<FinancialFact>,
    company_id: i64,
    now: i64,
    pt: PeriodType,
    date: i64,
    item: &str,
    v: &Option<String>,
)
    ensures
        fact_views(final(out)@) == fact_views(old(out)@) + income_fact(
            company_id,
            now,
            pt,
            date,
            item@,
            opt_view(*v),
        ),
{
    match v {
        Some(value) => {
            let ghost before = fact_views(out@);
            let f = FinancialFact {
                company_id,
                statement: StatementKind::Income,
                line_item: owned(item),
                period_type: pt,
                period_end: date,
                value: value.clone(),
                source: owned("fmp"),
                fetched_at: now,
            };
            out.push(f);
            assert(fact_views(out@) =~= before + seq![f@]);
        },
        None => {
            assert(fact_views(out@) =~= fact_views(out@) + Seq::<FactView>::empty());
        },
    }
}

fn push_row(out: &mut Vec<FinancialFact>, company_id: i64, now: i64, r: &IncomeRow)
    ensures
        fact_views(final(out)@) == fact_views(old(out)@) + row_facts(company_id, now, *r),
{
    let ghost start = fact_views(out@);
    match period_type_from_fp(r.period.as_str()) {
        Some(pt) => {
            let ghost d = r.date;
            push_figure(out, company_id, now, pt, r.date, "Revenue", &r.revenue);
            let ghost s1 = fact_views(out@);
            push_figure(out, company_id, now, pt, r.date, "NetIncome", &r.net_income);
            let ghost s2 = fact_views(out@);
            push_figure(out, company_id, now, pt, r.date, "GrossProfit", &r.gross_profit);
            let ghost s3 = fact_views(out@);
            push_figure(out, company_id, now, pt, r.date, "OperatingIncome", &r.operating_income);
            let ghost s4 = fact_views(out@);
            push_figure(out, company_id, now, pt, r.date, "Eps", &r.eps);
            let ghost s5 = fact_views(out@);
            push_figure(out, company_id, now, pt, r.date, "CostOfRevenue", &r.cost_of_revenue);
            let ghost s6 = fact_views(out@);
            push_figure(out, company_id, now, pt, r.date, "Ebitda", &r.ebitda);
            let ghost a = income_fact(company_id, now, pt, d, "Revenue"@, opt_view(r.revenue));
            let ghost b = income_fact(company_id, now, pt, d, "NetIncome"@, opt_view(r.net_income));
            let ghost c = income_fact(company_id, now, pt, d, "GrossProfit"@, opt_view(r.gross_profit));
            let ghost e = income_fact(company_id, now, pt, d, "OperatingIncome"@, opt_view(r.operating_income));
            let ghost f = income_fact(company_id, now, pt, d, "Eps"@, opt_view(r.eps));
            let ghost g = income_fact(company_id, now, pt, d, "CostOfRevenue"@, opt_view(r.cost_of_revenue));
            let ghost h = income_fact(company_id, now, pt, d, "Ebitda"@, opt_view(r.ebitda));
            assert(row_facts(company_id, now, *r) == a + b + c + e + f + g + h);
            proof {
                lemma_concat_associative(start, a + b + c + e + f + g, h);
                lemma_concat_associative(start, a + b + c + e + f, g);
                lemma_concat_associative(start, a + b + c + e, f);
                lemma_concat_associative(start, a + b + c, e);
                lemma_concat_associative(start, a + b, c);
                lemma_concat_associative(start, a, b);
            }
        },
        None => {
            assert(fact_views(out@) =~= start + row_facts(company_id, now, *r));
        },
    }
}

/// Turn FMP income-statement rows into facts. Rows of an unmodelled fiscal
/// period are skipped; absent figures give no fact.
pub fn parse_income(company_id: i64, rows: &Vec<IncomeRow>, now: i64) -> (r: Vec<FinancialFact>)
    ensures
        fact_views(r@) == income_facts(company_id, now, rows@),
        forall|v: FactView|
            #[trigger] fact_views(r@).contains(v) <==> exists|k: int|
                0 <= k < rows@.len() && reports_income_value(v, company_id, now, #[trigger] rows@[k]),
{
    let mut facts: Vec<FinancialFact> = Vec::new();
    let mut i: usize = 0;
    assert(fact_views(facts@) =~= Seq::<FactView>::empty());
    while i < rows.len()
        invariant
            i <= rows@.len(),
            fact_views(facts@) == income_facts(company_id, now, rows@.subrange(0, i as int)),
        decreases rows.len() - i,
    {
        let r = &rows[i];
        assert(rows@.subrange(0, i + 1).drop_last() =~= rows@.subrange(0, i as int));
        push_row(&mut facts, company_id, now, r);
        i = i + 1;
    }
    assert(rows@.subrange(0, rows@.len() as int) =~= rows@);
    proof {
        assert forall|v: FactView| #[trigger] fact_views(facts@).contains(v) <==> exists|k: int|
            0 <= k < rows@.len() && reports_income_value(v, company_id, now, #[trigger] rows@[k]) by {
            income_facts_report_row_figures(company_id, now, rows@, v);
        }
    }
    facts
}


/// Read a date of an FMP response (`YYYY-MM-DD`) as a day count since
/// 1970-01-01; a date that does not read is a parse error.
pub fn parse_fmp_date(text: &str) -> (r: Result<i64, CollectorError>)
    ensures
        match iso_day(text@) {
            Some(d) => r matches Ok(x) && x == d as i64,
            None => r is Err,
        },
{
    match parse_iso_day(text) {
        Some(d) => Ok(d as i64),
        None => Err(CollectorError::Parse(cat2("invalid date: ", text))),
    }
}

fn copy_text(v: &Option<String>) -> (r: Option<String>)
    ensures
        opt_view(r) == opt_view(*v),
{
    match v {
        Some(t) => Some(t.clone()),
        None => None,
    }
}

/// One bar of FMP's daily price history: its day (since 1970-01-01), the
/// open, high and low when reported, the close, each as the decimal text of
/// the response, and the volume when reported.
#[derive(Debug, Clone, PartialEq, Eq)]
pub struct PriceRow {
    pub date: i64,
    pub open: Option<String>,
    pub high: Option<String>,
    pub low: Option<String>,
    pub close: String,
    pub volume: Option<i64>,
}

/// The bar an FMP price row gives, stamped with the company and source.
pub open spec fn fmp_price(company_id: i64, r: PriceRow) -> PriceView {
    PriceView {
        company_id,
        date: r.date,
        open: opt_view(r.open),
        high: opt_view(r.high),
        low: opt_view(r.low),
        close: r.close@,
        volume: r.volume,
        source: "fmp"@,
    }
}

/// Turn FMP's price history into bars, one per row, in row order.
pub fn parse_prices(company_id: i64, rows: &Vec<PriceRow>) -> (r: Vec<PricePoint>)
    ensures
        r@.len() == rows@.len(),
        forall|i: int| 0 <= i < rows@.len() ==> #[trigger] r@[i]@ == fmp_price(company_id, rows@[i]),
        forall|i: int|
            0 <= i < rows@.len() ==> {
                &&& (#[trigger] r@[i]).company_id == company_id
                &&& r@[i].date == rows@[i].date
                &&& opt_view(r@[i].open) == opt_view(rows@[i].open)
                &&& opt_view(r@[i].high) == opt_view(rows@[i].high)
                &&& opt_view(r@[i].low) == opt_view(rows@[i].low)
                &&& r@[i].close@ == rows@[i].close@
                &&& r@[i].volume == rows@[i].volume
                &&& r@[i].source@ == "fmp"@
            },
{
    let mut out: Vec<PricePoint> = Vec::new();
    let mut i: usize = 0;
    while i < rows.len()
        invariant
            i <= rows@.len(),
            out@.len() == i,
            forall|j: int| 0 <= j < i ==> #[trigger] out@[j]@ == fmp_price(company_id, rows@[j]),
        decreases rows.len() - i,
    {
        let row = &rows[i];
        let p = PricePoint {
            company_id,
            date: row.date,
            open: copy_text(&row.open),
            high: copy_text(&row.high),
            low: copy_text(&row.low),
            close: row.close.clone(),
            volume: row.volume,
            source: owned(SOURCE),
        };
        out.push(p);
        i = i + 1;
    }
    proof {
        assert forall|i: int| 0 <= i < rows@.len() implies {
            &&& (#[trigger] out@[i]).company_id == company_id
            &&& out@[i].date == rows@[i].date
            &&& opt_view(out@[i].open) == opt_view(rows@[i].open)
            &&& opt_view(out@[i].high) == opt_view(rows@[i].high)
            &&& opt_view(out@[i].low) == opt_view(rows@[i].low)
            &&& out@[i].close@ == rows@[i].close@
            &&& out@[i].volume == rows@[i].volume
            &&& out@[i].source@ == "fmp"@
        } by {
            assert(out@[i]@ == fmp_price(company_id, rows@[i]));
        }
    }
    out
}

/// One year of FMP's ratio series: its period end (days since 1970-01-01)
/// and the P/E, return on equity and net profit margin when reported, each as
/// the decimal text of the response.
#[derive(Debug, Clone, PartialEq, Eq)]
pub struct RatioRow {
    pub date: i64,
    pub pe: Option<String>,
    pub roe: Option<String>,
    pub net_profit_margin: Option<String>,
}

/// A vendor-reported ratio: the value is the decimal text of the response.
#[derive(Debug, Clone, PartialEq, Eq)]
pub struct RatioFact {
    pub company_id: i64,
    pub period_end: i64,
    pub period_type: PeriodType,
    pub metric: String,
    pub value: String,
    pub computed_at: i64,
}

/// The abstract value of a reported ratio.
pub struct RatioView {
    pub company_id: i64,
    pub period_end: i64,
    pub period_type: PeriodType,
    pub metric: Seq<char>,
    pub value: Seq<char>,
    pub computed_at: i64,
}

impl View for RatioFact {
    type V = RatioView;

    open spec fn view(&self) -> RatioView {
        RatioView {
            company_id: self.company_id,
            period_end: self.period_end,
            period_type: self.period_type,
            metric: self.metric@,
            value: self.value@,
            computed_at: self.computed_at,
        }
    }
}

/// The views of a run of reported ratios.
pub open spec fn ratio_views(v: Seq<RatioFact>) -> Seq<RatioView> {
    v.map_values(|f: RatioFact| f@)
}

/// The annual ratio a present value gives, as a run of zero or one ratios.
pub open spec fn ratio_fact(company_id: i64, now: i64, date: i64, metric: Seq<char>, v: Option<Seq<char>>) -> Seq<
    RatioView,
> {
    match v {
        Some(value) => seq![
            RatioView { company_id, period_end: date, period_type: PeriodType::Annual, metric, value, computed_at: now },
        ],
        None => Seq::empty(),
    }
}

/// The ratios one row gives: its present values, in the order `pe`, `roe`,
/// `netProfitMargin`.
pub open spec fn row_ratios(company_id: i64, now: i64, r: RatioRow) -> Seq<RatioView> {
    ratio_fact(company_id, now, r.date, "pe"@, opt_view(r.pe)) + ratio_fact(
        company_id,
        now,
        r.date,
        "roe"@,
        opt_view(r.roe),
    ) + ratio_fact(company_id, now, r.date, "netProfitMargin"@, opt_view(r.net_profit_margin))
}

/// The ratios a run of rows gives, row by row.
pub open spec fn fmp_ratios(company_id: i64, now: i64, rows: Seq<RatioRow>) -> Seq<RatioView>
    decreases rows.len(),
{
    if rows.len() == 0 {
        Seq::empty()
    } else {
        fmp_ratios(company_id, now, rows.drop_last()) + row_ratios(company_id, now, rows.last())
    }
}

/// Ratio `v` reports one value that `row` holds: the company, the row's date
/// as an annual period end, the run time, and either the metric `pe` with the
/// row's P/E text, `roe` with its return on equity text, or `netProfitMargin`
/// with its net profit margin text.
pub open spec fn reports_row_value(v: RatioView, company_id: i64, now: i64, row: RatioRow) -> bool {
    &&& v.company_id == company_id
    &&& v.period_end == row.date
    &&& v.period_type == PeriodType::Annual
    &&& v.computed_at == now
    &&& {
        ||| (v.metric == "pe"@ && (row.pe matches Some(t) && v.value == t@))
        ||| (v.metric == "roe"@ && (row.roe matches Some(t) && v.value == t@))
        ||| (v.metric == "netProfitMargin"@ && (row.net_profit_margin matches Some(t) && v.value == t@))
    }
}

proof fn lemma_ratio_fact_contains(
    company_id: i64,
    now: i64,
    date: i64,
    metric: Seq<char>,
    x: Option<Seq<char>>,
    v: RatioView,
)
    ensures
        ratio_fact(company_id, now, date, metric, x).contains(v) <==> (x matches Some(t) && v == (RatioView {
            company_id,
            period_end: date,
            period_type: PeriodType::Annual,
            metric,
            value: t,
            computed_at: now,
        })),
{
    let s = ratio_fact(company_id, now, date, metric, x);
    if x is Some {
        if s.contains(v) {
            let i = choose|i: int| 0 <= i < s.len() && s[i] == v;
            assert(i == 0);
        }
        if v == s[0] {
            assert(s[0] == v);
        }
    }
}

proof fn lemma_row_ratios_contains(company_id: i64, now: i64, row: RatioRow, v: RatioView)
    ensures
        row_ratios(company_id, now, row).contains(v) <==> reports_row_value(v, company_id, now, row),
{
    let a = ratio_fact(company_id, now, row.date, "pe"@, opt_view(row.pe));
    let b = ratio_fact(company_id, now, row.date, "roe"@, opt_view(row.roe));
    let c = ratio_fact(company_id, now, row.date, "netProfitMargin"@, opt_view(row.net_profit_margin));
    lemma_seq_concat_contains_all_elements(a, b, v);
    lemma_seq_concat_contains_all_elements(a + b, c, v);
    lemma_ratio_fact_contains(company_id, now, row.date, "pe"@, opt_view(row.pe), v);
    lemma_ratio_fact_contains(company_id, now, row.date, "roe"@, opt_view(row.roe), v);
    lemma_ratio_fact_contains(company_id, now, row.date, "netProfitMargin"@, opt_view(row.net_profit_margin), v);
}

/// The ratios read from FMP rows are exactly the values the rows hold: a
/// ratio is among them if and only if it reports a value of some row, under
/// that value's own metric name (see [`reports_row_value`]). So each row's
/// present P/E, return on equity and net profit margin each come out once
/// under their name, and an absent value gives no ratio.
pub proof fn ratios_report_row_values(company_id: i64, now: i64, rows: Seq<RatioRow>, v: RatioView)
    ensures
        fmp_ratios(company_id, now, rows).contains(v) <==> exists|k: int|
            0 <= k < rows.len() && reports_row_value(v, company_id, now, #[trigger] rows[k]),
    decreases rows.len(),
{
    if rows.len() > 0 {
        let init = rows.drop_last();
        ratios_report_row_values(company_id, now, init, v);
        lemma_seq_concat_contains_all_elements(
            fmp_ratios(company_id, now, init),
            row_ratios(company_id, now, rows.last()),
            v,
        );
        lemma_row_ratios_contains(company_id, now, rows.last(), v);
        if exists|k: int| 0 <= k < rows.len() && reports_row_value(v, company_id, now, #[trigger] rows[k]) {
            let k = choose|k: int| 0 <= k < rows.len() && reports_row_value(v, company_id, now, #[trigger] rows[k]);
            if k < rows.len() - 1 {
                assert(init[k] == rows[k]);
            }
        }
        if exists|k: int| 0 <= k < init.len() && reports_row_value(v, company_id, now, #[trigger] init[k]) {
            let k = choose|k: int| 0 <= k < init.len() && reports_row_value(v, company_id, now, #[trigger] init[k]);
            assert(rows[k] == init[k]);
        }
    }
}

fn push_ratio(out: &mut Vec<RatioFact>, company_id: i64, now: i64, date: i64, metric: &str, v: &Option<String>)
    ensures
        ratio_views(final(out)@) == ratio_views(old(out)@) + ratio_fact(company_id, now, date, metric@, opt_view(*v)),
{
    match v {
        Some(value) => {
            let ghost before = ratio_views(out@);
            let f = RatioFact {
                company_id,
                period_end: date,
                period_type: PeriodType::Annual,
                metric: owned(metric),
                value: value.clone(),
                computed_at: now,
            };
            out.push(f);
            assert(ratio_views(out@) =~= before + seq![f@]);
        },
        None => {
            assert(ratio_views(out@) =~= ratio_views(out@) + Seq::<RatioView>::empty());
        },
    }
}

/// Turn FMP's annual ratio rows into reported ratios: per row its P/E,
/// return on equity and net profit margin, each only when present.
pub fn parse_ratios(company_id: i64, rows: &Vec<RatioRow>, now: i64) -> (r: Vec<RatioFact>)
    ensures
        ratio_views(r@) == fmp_ratios(company_id, now, rows@),
        forall|v: RatioView|
            #[trigger] ratio_views(r@).contains(v) <==> exists|k: int|
                0 <= k < rows@.len() && reports_row_value(v, company_id, now, #[trigger] rows@[k]),
{
    let mut out: Vec<RatioFact> = Vec::new();
    let mut i: usize = 0;
    assert(ratio_views(out@) =~= Seq::<RatioView>::empty());
    while i < rows.len()
        invariant
            i <= rows@.len(),
            ratio_views(out@) == fmp_ratios(company_id, now, rows@.subrange(0, i as int)),
        decreases rows.len() - i,
    {
        let row = &rows[i];
        assert(rows@.subrange(0, i + 1).drop_last() =~= rows@.subrange(0, i as int));
        let ghost start = ratio_views(out@);
        push_ratio(&mut out, company_id, now, row.date, "pe", &row.pe);
        push_ratio(&mut out, company_id, now, row.date, "roe", &row.roe);
        push_ratio(&mut out, company_id, now, row.date, "netProfitMargin", &row.net_profit_margin);
        proof {
            let a = ratio_fact(company_id, now, row.date, "pe"@, opt_view(row.pe));
            let b = ratio_fact(company_id, now, row.date, "roe"@, opt_view(row.roe));
            let c = ratio_fact(company_id, now, row.date, "netProfitMargin"@, opt_view(row.net_profit_margin));
            lemma_concat_associative(start, a + b, c);
            lemma_concat_associative(start, a, b);
        }
        i = i + 1;
    }
    assert(rows@.subrange(0, rows@.len() as int) =~= rows@);
    proof {
        assert forall|v: RatioView| #[trigger] ratio_views(out@).contains(v) <==> exists|k: int|
            0 <= k < rows@.len() && reports_row_value(v, company_id, now, #[trigger] rows@[k]) by {
            ratios_report_row_values(company_id, now, rows@, v);
        }
    }
    out
}

} // verus!
