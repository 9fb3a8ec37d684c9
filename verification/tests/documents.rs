//! Decoders run on whole source documents: an EDGAR companyfacts document,
//! SEC's ticker directory and submissions, Form 4 filings, FMP income and
//! profile responses, an RSS feed, Finnhub rows, a financials page and Yahoo
//! chart and asset-profile responses.

use chrono::{NaiveDate, TimeZone, Utc};
use serde_json::Value;
use stonkscollect::collectors::edgar::{parse_company_tickers, parse_submissions_profile};
use stonkscollect::collectors::edgar_facts::parse_companyfacts;
use stonkscollect::collectors::edgar_ownership::{parse_form4, parse_form4_filings};
use stonkscollect::collectors::fmp::{parse_fmp_date, parse_income, parse_prices, parse_profile, parse_ratios, IncomeRow, PriceRow, RatioRow};
use stonkscollect::collectors::CollectorError;
use stonkscollect::collectors::json::{Json, Member};
use stonkscollect::collectors::news::{dedup_hash, parse_finnhub, parse_rss, FinnhubRow};
use stonkscollect::collectors::scrape::{parse_financials, SOURCE as SCRAPE_SOURCE};
use stonkscollect::collectors::yahoo::{parse_asset_profile, parse_chart, ChartQuote, ChartResult};
use stonkscollect::domain::{FinancialFact, PeriodType, StatementKind};

fn json_of(v: &Value) -> Json {
    match v {
        Value::Null => Json::Null,
        Value::Bool(b) => Json::Bool(*b),
        Value::Number(n) => Json::Number(n.to_string()),
        Value::String(s) => Json::Str(s.clone()),
        Value::Array(a) => Json::Array(a.iter().map(json_of).collect()),
        Value::Object(o) => Json::Object(o.iter().map(|(k, v)| Member { key: k.clone(), value: json_of(v) }).collect()),
    }
}

fn document(text: &str) -> Json {
    json_of(&serde_json::from_str::<Value>(text).unwrap())
}

fn epoch_day(y: i32, m: u32, d: u32) -> i64 {
    NaiveDate::from_ymd_opt(y, m, d).unwrap().to_epoch_days() as i64
}

/// 2024-01-01T00:00:00Z.
fn fixed_now() -> i64 {
    Utc.with_ymd_and_hms(2024, 1, 1, 0, 0, 0).unwrap().timestamp()
}

fn figure(text: &str) -> f64 {
    text.parse().unwrap()
}

const COMPANYFACTS: &str = r#"{"cik":320193,"entityName":"Apple Inc.","facts":{
 "us-gaap":{
  "RevenueFromContractWithCustomerExcludingAssessedTax":{"units":{"USD":[
   {"end":"2022-09-24","val":394328000000,"fy":2022,"fp":"FY","form":"10-K","filed":"2022-10-28"},
   {"end":"2023-07-01","val":81797000000,"fy":2023,"fp":"Q3","form":"10-Q","filed":"2023-08-04"},
   {"end":"2023-09-30","val":383000000000,"fy":2023,"fp":"FY","form":"10-K","filed":"2023-11-03"},
   {"end":"2023-09-30","val":383285000000,"fy":2023,"fp":"FY","form":"10-K/A","filed":"2024-02-01"},
   {"end":"2023-12-31","val":999,"fy":2023,"fp":"CY","form":"8-K","filed":"2024-01-05"}]}},
  "NetCashProvidedByUsedInOperatingActivities":{"units":{"USD":[
   {"end":"2023-09-30","val":110543000000,"fy":2023,"fp":"FY","form":"10-K","filed":"2023-11-03"}]}},
  "NetCashProvidedByUsedInInvestingActivities":{"units":{"pure":[
   {"end":"2023-09-30","val":3705000000,"fy":2023,"fp":"FY","form":"10-K","filed":"2023-11-03"}]}},
  "Liabilities":{"units":{"USD":[
   {"end":"2023-09-30","val":290437000000,"fy":2023,"fp":"FY","form":"10-K","filed":"2023-11-03"},
   {"val":1,"fy":2023,"fp":"FY","form":"10-K","filed":"2023-11-03"},
   {"end":"2023-09-30","fy":2023,"fp":"FY","form":"10-K","filed":"2023-11-03"},
   {"end":"2023-09-30","val":"lots","fy":2023,"fp":"FY","form":"10-K","filed":"2023-11-03"},
   {"end":"2023-09-30","val":2,"fy":2023,"form":"10-K","filed":"2023-11-03"},
   {"end":"30/09/2023","val":3,"fy":2023,"fp":"FY","form":"10-K","filed":"2023-11-03"}]}},
  "EarningsPerShareDiluted":{"units":{"USD/shares":[
   {"end":"2023-09-30","val":6.13,"fy":2023,"fp":"FY","form":"10-K","filed":"2023-11-03"}]}},
  "WeightedAverageNumberOfDilutedSharesOutstanding":{"units":{"shares":[
   {"end":"2023-09-30","val":15812547000,"fy":2023,"fp":"FY","form":"10-K","filed":"2023-11-03"}]}},
  "AssetsCurrent":{"units":{"USD":[
   {"end":"2023-09-30","val":143566000000,"fy":2023,"fp":"FY","form":"10-K","filed":"2023-11-03"}]}},
  "LiabilitiesCurrent":{"units":{"USD":[
   {"end":"2023-09-30","val":145308000000,"fy":2023,"fp":"FY","form":"10-K","filed":"2023-11-03"}]}},
  "CommonStockDividendsPerShareDeclared":{"units":{"USD/shares":[
   {"end":"2023-09-30","val":0.94,"fy":2023,"fp":"FY","form":"10-K","filed":"2023-11-03"}]}},
  "DepreciationDepletionAndAmortization":{"units":{"USD":[
   {"end":"2023-09-30","val":11519000000,"fy":2023,"fp":"FY","form":"10-K","filed":"2023-11-03"}]}},
  "ResearchAndDevelopmentExpense":{"units":{"USD":[
   {"end":"2023-09-30","val":29915000000,"fy":2023,"fp":"FY","form":"10-K","filed":"2023-11-03"}]}},
  "AccountsPayableCurrent":{"units":{"USD":[
   {"end":"2023-09-30","val":62611000000,"fy":2023,"fp":"FY","form":"10-K","filed":"2023-11-03"}]}},
  "Goodwill":{"units":{"USD":[
   {"end":"2023-09-30","val":0,"fy":2023,"fp":"FY","form":"10-K","filed":"2023-11-03"}]}},
  "InventoryNet":{"units":{"USD":[
   {"end":"2023-09-30","val":6331000000,"fy":2023,"fp":"FY","form":"10-K","filed":"2023-11-03"}]}},
  "RetainedEarningsAccumulatedDeficit":{"units":{"USD":[
   {"end":"2023-09-30","val":-214966000000,"fy":2023,"fp":"FY","form":"10-K","filed":"2023-11-03"}]}},
  "CommonStockSharesOutstanding":{"units":{"shares":[
   {"end":"2023-09-30","val":15552752000,"fy":2023,"fp":"FY","form":"10-K","filed":"2023-11-03"}]}},
  "UnmappedConcept":{"units":{"USD":[
   {"end":"2023-09-30","val":12345,"fy":2023,"fp":"FY","form":"10-K","filed":"2023-11-03"}]}}
 }}}"#;

fn fact_for<'a>(facts: &'a [FinancialFact], item: &str, pt: PeriodType, end: i64) -> &'a FinancialFact {
    facts
        .iter()
        .find(|f| f.line_item == item && f.period_type == pt && f.period_end == end)
        .expect("fact present")
}

#[test]
fn parse_company_tickers_pads_cik_and_skips_incomplete() {
    let tickers = document(
        r#"{"0":{"cik_str":320193,"ticker":"AAPL","title":"Apple Inc."},
            "1":{"cik_str":789019,"ticker":"MSFT","title":"MICROSOFT CORP"},
            "2":{"cik_str":1000001,"ticker":"NONAME"},
            "3":{"cik_str":1000002,"title":"No Ticker Corp"},
            "4":{"ticker":"NOCIK","title":"No Cik Corp"}}"#,
    );
    let refs = parse_company_tickers(&tickers);
    // AAPL, MSFT, NONAME(no title) kept; missing-ticker + missing-cik skipped.
    assert_eq!(refs.len(), 3);
    let aapl = refs.iter().find(|r| r.ticker == "AAPL").unwrap();
    assert_eq!(aapl.cik, "0000320193");
    assert_eq!(aapl.name, "Apple Inc.");
    let noname = refs.iter().find(|r| r.ticker == "NONAME").unwrap();
    assert_eq!(noname.name, "");
    assert_eq!(aapl.clone(), *aapl);
}

#[test]
fn parse_maps_concepts_and_periods() {
    let facts = parse_companyfacts(7, &document(COMPANYFACTS), fixed_now());
    let rev_fy = fact_for(&facts, "Revenue", PeriodType::Annual, epoch_day(2022, 9, 24));
    assert_eq!(rev_fy.statement, StatementKind::Income);
    assert_eq!(rev_fy.company_id, 7);
    assert_eq!(rev_fy.source, "edgar");
    assert_eq!(rev_fy.fetched_at, fixed_now());
    let q3 = fact_for(&facts, "Revenue", PeriodType::Quarterly, epoch_day(2023, 7, 1));
    assert_eq!(figure(&q3.value), 81797000000.0);
    let ocf = fact_for(&facts, "OperatingCashFlow", PeriodType::Annual, epoch_day(2023, 9, 30));
    assert_eq!(ocf.statement, StatementKind::CashFlow);
}

#[test]
fn parse_captures_graham_inputs_including_per_share_units() {
    let facts = parse_companyfacts(7, &document(COMPANYFACTS), fixed_now());
    let fy23 = epoch_day(2023, 9, 30);
    let v = |item: &str| figure(&fact_for(&facts, item, PeriodType::Annual, fy23).value);
    // EPS lives under a "USD/shares" unit; the parser falls back past USD.
    assert_eq!(v("Eps"), 6.13);
    assert_eq!(v("SharesOutstanding"), 15812547000.0);
    assert_eq!(v("CurrentAssets"), 143566000000.0);
    assert_eq!(v("CurrentLiabilities"), 145308000000.0);
    assert_eq!(v("DividendPerShare"), 0.94);
    assert_eq!(v("DepreciationAmortization"), 11519000000.0);
    assert_eq!(v("ResearchAndDevelopment"), 29915000000.0);
    assert_eq!(v("AccountsPayable"), 62611000000.0);
    assert_eq!(v("Goodwill"), 0.0);
    assert_eq!(v("Inventories"), 6331000000.0);
    assert_eq!(v("RetainedEarnings"), -214966000000.0);
    assert_eq!(v("SharesOutstandingBalance"), 15552752000.0);
}

#[test]
fn parse_keeps_latest_restatement() {
    let facts = parse_companyfacts(7, &document(COMPANYFACTS), fixed_now());
    let rev_2023 = fact_for(&facts, "Revenue", PeriodType::Annual, epoch_day(2023, 9, 30));
    // 10-K/A (383285...) supersedes the original 10-K (383000...).
    assert_eq!(figure(&rev_2023.value), 383285000000.0);
}

#[test]
fn parse_skips_unknown_period_and_unmapped_concepts() {
    let facts = parse_companyfacts(7, &document(COMPANYFACTS), fixed_now());
    // The CY 8-K entry and the UnmappedConcept must not appear.
    assert!(facts.iter().all(|f| figure(&f.value) != 999.0));
    assert!(facts.iter().all(|f| f.line_item != "UnmappedConcept"));
}

#[test]
fn parse_handles_non_usd_unit_and_skips_malformed_entries() {
    let facts = parse_companyfacts(7, &document(COMPANYFACTS), fixed_now());
    // Investing CF lives under a non-USD unit key ("pure").
    let inv = fact_for(&facts, "InvestingCashFlow", PeriodType::Annual, epoch_day(2023, 9, 30));
    assert_eq!(figure(&inv.value), 3705000000.0);
    // Only the single well-formed Liabilities row survives the edge entries.
    let liabs: Vec<_> = facts.iter().filter(|f| f.line_item == "TotalLiabilities").collect();
    assert_eq!(liabs.len(), 1);
    assert_eq!(figure(&liabs[0].value), 290437000000.0);
}

#[test]
fn parse_submissions_profile_maps_industry_and_exchange() {
    let submissions = document(
        r#"{"cik":"109563","name":"Vulcan Materials CO","sic":"3270",
            "sicDescription":"Concrete, Gypsum & Plaster Products",
            "tickers":["VMC"],"exchanges":["NYSE"],"website":"","description":""}"#,
    );
    let p = parse_submissions_profile(&submissions);
    assert_eq!(p.industry.as_deref(), Some("Concrete, Gypsum & Plaster Products"));
    assert_eq!(p.exchange.as_deref(), Some("NYSE"));
    assert_eq!(p.sector, None);
    assert_eq!(p.website, None); // empty string -> None
    assert_eq!(p.description, None);
}

#[test]
fn parse_form4_filings_keeps_only_form_4() {
    let submissions = document(
        r#"{"cik":"320193","filings":{"recent":{
            "accessionNumber":["0000320193-24-000010","0000320193-23-000106","0000320193-24-000011"],
            "form":["4","10-K","4"],
            "primaryDocument":["xslF345X05/wf-form4_001.xml","aapl-20230930.htm","wf-form4_002.xml"]}}}"#,
    );
    let f = parse_form4_filings(&submissions);
    assert_eq!(f.len(), 2); // the 10-K is skipped
    assert_eq!(f[0].0, "0000320193-24-000010");
    assert_eq!(f[0].1, "xslF345X05/wf-form4_001.xml");
    assert_eq!(f[1].1, "wf-form4_002.xml");
}

const FORM4_SINGLE: &str = "<ownershipDocument>\
    <periodOfReport>2024-02-01</periodOfReport>\
    <reportingOwner><reportingOwnerId><rptOwnerCik>0001214156</rptOwnerCik>\
    <rptOwnerName>Cook Timothy D</rptOwnerName></reportingOwnerId></reportingOwner>\
    <nonDerivativeTable>\
    <nonDerivativeTransaction><postTransactionAmounts><sharesOwnedFollowingTransaction>\
    <value>3280000</value></sharesOwnedFollowingTransaction></postTransactionAmounts></nonDerivativeTransaction>\
    <nonDerivativeTransaction><postTransactionAmounts><sharesOwnedFollowingTransaction>\
    <value>3250000</value></sharesOwnedFollowingTransaction></postTransactionAmounts></nonDerivativeTransaction>\
    </nonDerivativeTable></ownershipDocument>";

const FORM4_JOINT: &str = "<ownershipDocument>\
    <periodOfReport>2024-02-15</periodOfReport>\
    <reportingOwner><reportingOwnerId><rptOwnerName>Williams Jeffrey E</rptOwnerName></reportingOwnerId></reportingOwner>\
    <reportingOwner><reportingOwnerId><rptOwnerName>Maestri Luca</rptOwnerName></reportingOwnerId></reportingOwner>\
    <nonDerivativeTable><nonDerivativeTransaction><postTransactionAmounts><sharesOwnedFollowingTransaction>\
    <value>500000</value></sharesOwnedFollowingTransaction></postTransactionAmounts></nonDerivativeTransaction>\
    </nonDerivativeTable></ownershipDocument>";

#[test]
fn parse_form4_reads_owner_latest_shares_and_period() {
    let f = parse_form4(FORM4_SINGLE).unwrap();
    assert_eq!(f.owners, vec!["Cook Timothy D".to_string()]);
    assert_eq!(figure(&f.shares), 3_250_000.0); // last post-transaction amount, not 3_280_000
    assert_eq!(f.as_of as i64, epoch_day(2024, 2, 1));
}

#[test]
fn parse_form4_handles_multiple_owners() {
    let f = parse_form4(FORM4_JOINT).unwrap();
    assert_eq!(f.owners, vec!["Williams Jeffrey E".to_string(), "Maestri Luca".to_string()]);
    assert_eq!(figure(&f.shares), 500_000.0);
}

/// The FMP income rows: FY 2023 with every figure, Q3 2023 revenue, FY 2022
/// net income, and a trailing-twelve-months row.
fn fmp_income_rows() -> Vec<IncomeRow> {
    let row = |date: i64, period: &str| IncomeRow {
        date,
        period: period.into(),
        revenue: None,
        net_income: None,
        gross_profit: None,
        operating_income: None,
        eps: None,
        cost_of_revenue: None,
        ebitda: None,
    };
    let s = |t: &str| Some(t.to_string());
    vec![
        IncomeRow {
            revenue: s("383285000000"),
            net_income: s("96995000000"),
            gross_profit: s("169148000000"),
            operating_income: s("114301000000"),
            eps: s("6.13"),
            cost_of_revenue: s("214137000000"),
            ebitda: s("125820000000"),
            ..row(epoch_day(2023, 9, 30), "FY")
        },
        IncomeRow { revenue: s("81797000000"), ..row(epoch_day(2023, 7, 1), "Q3") },
        IncomeRow { net_income: s("99803000000"), ..row(epoch_day(2022, 9, 24), "FY") },
        IncomeRow { revenue: s("1"), net_income: s("2"), ..row(epoch_day(2023, 9, 30), "TTM") },
    ]
}

#[test]
fn parse_income_maps_present_fields_and_skips_unknown_period() {
    let facts = parse_income(7, &fmp_income_rows(), fixed_now());
    // FY 2023 (7 items) + Q3 revenue + 2022 FY netIncome = 9; TTM row skipped.
    assert_eq!(facts.len(), 9);
    assert!(facts.iter().all(|f| f.statement == StatementKind::Income && f.source == "fmp"));
    let q3_rev = facts
        .iter()
        .find(|f| f.period_type == PeriodType::Quarterly && f.line_item == "Revenue")
        .unwrap();
    assert_eq!(figure(&q3_rev.value), 81797000000.0);
    // TTM row (value 1/2) excluded
    assert!(facts.iter().all(|f| figure(&f.value) != 1.0 && figure(&f.value) != 2.0));
}

#[test]
fn parse_income_maps_extended_line_items() {
    let facts = parse_income(7, &fmp_income_rows(), fixed_now());
    let fy23 = epoch_day(2023, 9, 30);
    let fy = |item: &str| {
        let f = facts
            .iter()
            .find(|f| f.line_item == item && f.period_type == PeriodType::Annual && f.period_end == fy23)
            .unwrap_or_else(|| panic!("{item} missing"));
        figure(&f.value)
    };
    assert_eq!(fy("GrossProfit"), 169148000000.0);
    assert_eq!(fy("OperatingIncome"), 114301000000.0);
    assert_eq!(fy("Eps"), 6.13);
    assert_eq!(fy("CostOfRevenue"), 214137000000.0);
    assert_eq!(fy("Ebitda"), 125820000000.0);
}

#[test]
fn parse_profile_maps_fields_including_string_employees() {
    let profile = document(
        r#"[{"symbol":"AAPL","companyName":"Apple Inc.","sector":"Technology",
            "industry":"Consumer Electronics","exchangeShortName":"NASDAQ",
            "website":"https://www.apple.com",
            "description":"Apple Inc. designs, manufactures, and markets smartphones.",
            "fullTimeEmployees":"164000"}]"#,
    );
    let p = parse_profile(&profile);
    assert_eq!(p.sector.as_deref(), Some("Technology"));
    assert_eq!(p.industry.as_deref(), Some("Consumer Electronics"));
    assert_eq!(p.exchange.as_deref(), Some("NASDAQ"));
    assert_eq!(p.website.as_deref(), Some("https://www.apple.com"));
    assert!(p.description.unwrap().starts_with("Apple Inc."));
    // FMP reports fullTimeEmployees as a string
    assert_eq!(p.employees, Some(164000));
}

#[test]
fn parse_rss_maps_items_and_skips_titleless() {
    let rss = r#"<?xml version="1.0" encoding="UTF-8"?>
<rss version="2.0"><channel><title>Markets</title><link>https://example.com</link><description>News</description>
<item><title>Apple reaches record high</title><link>https://example.com/a</link>
<description>Shares climbed after strong results.</description>
<pubDate>Tue, 02 Jan 2024 12:00:00 +0000</pubDate></item>
<item><link>https://example.com/untitled</link><description>No title here.</description></item>
<item><title>Minimal item</title></item>
</channel></rss>"#;
    let items = parse_rss(7, rss, "reuters", fixed_now()).unwrap();
    assert_eq!(items.len(), 2);
    let first = &items[0];
    assert_eq!(first.title, "Apple reaches record high");
    assert_eq!(first.description, Some("Shares climbed after strong results.".into()));
    assert_eq!(first.url, "https://example.com/a");
    assert_eq!(first.source, "reuters");
    assert_eq!(first.company_id, 7);
    assert_eq!(first.published_at, Utc.with_ymd_and_hms(2024, 1, 2, 12, 0, 0).unwrap().timestamp());
    assert_eq!(first.dedup_hash, dedup_hash("Apple reaches record high"));
    // minimal item: no description, no link, no date -> falls back to `now`
    let minimal = &items[1];
    assert_eq!(minimal.title, "Minimal item");
    assert_eq!(minimal.description, None);
    assert_eq!(minimal.url, "");
    assert_eq!(minimal.published_at, fixed_now());
}

#[test]
fn parse_finnhub_maps_items() {
    let rows = vec![
        FinnhubRow {
            datetime: Utc.with_ymd_and_hms(2024, 1, 2, 12, 0, 0).unwrap().timestamp(),
            headline: "Apple hits new high".into(),
            summary: "Strong quarter.".into(),
            source: "Reuters".into(),
            url: "https://example.com/1".into(),
        },
        FinnhubRow {
            datetime: Utc.with_ymd_and_hms(2024, 1, 3, 9, 30, 0).unwrap().timestamp(),
            headline: "Analysts weigh in".into(),
            summary: "".into(),
            source: "CNBC".into(),
            url: "https://example.com/2".into(),
        },
    ];
    let items = parse_finnhub(7, rows, fixed_now());
    assert_eq!(items.len(), 2);
    assert_eq!(items[0].title, "Apple hits new high");
    assert_eq!(items[0].description, Some("Strong quarter.".into()));
    assert_eq!(items[0].source, "Reuters");
    assert_eq!(items[0].published_at, Utc.with_ymd_and_hms(2024, 1, 2, 12, 0, 0).unwrap().timestamp());
    // empty summary becomes None
    assert_eq!(items[1].description, None);
    assert_eq!(items[1].dedup_hash, dedup_hash("Analysts weigh in"));
}

#[test]
fn parse_extracts_mapped_rows_and_skips_the_rest() {
    let html = r#"<html><body><table class="financials">
<tr><th>Metric</th><th>Value</th></tr>
<tr data-year="2023"><td class="metric">Revenue</td><td class="value">383,285</td></tr>
<tr data-year="2023"><td class="metric">Net Income</td><td class="value">96,995</td></tr>
<tr data-year="2022"><td class="metric">Revenue</td><td class="value">394,328</td></tr>
<tr data-year="2023"><td class="metric">Gross Profit</td><td class="value">169,148</td></tr>
<tr data-year="abcd"><td class="metric">Revenue</td><td class="value">5</td></tr>
<tr><td class="metric">Revenue</td><td class="value">5</td></tr>
</table></body></html>"#;
    let figures = parse_financials(html);
    // valid: Revenue 2023, Net Income 2023, Revenue 2022 = 3
    assert_eq!(figures.len(), 3);
    let rev23 = figures
        .iter()
        .find(|f| f.line_item == "Revenue" && f.period_end == epoch_day(2023, 12, 31))
        .unwrap();
    assert_eq!(figure(&rev23.millions) * 1_000_000.0, 383_285.0 * 1_000_000.0);
    assert_eq!(rev23.statement, StatementKind::Income);
    assert_eq!(SCRAPE_SOURCE, "scrape");
    // unmapped/malformed rows excluded
    assert!(figures.iter().all(|f| f.line_item != "Gross Profit"));
    assert!(figures.iter().all(|f| figure(&f.millions) != 5.0));
}

/// A chart result as the application decodes Yahoo's response.
fn chart_of(timestamps: Vec<i64>, quote: ChartQuote) -> Option<Vec<ChartResult>> {
    Some(vec![ChartResult { timestamp: Some(timestamps), quotes: vec![quote] }])
}

fn cells(v: &[Option<&str>]) -> Vec<Option<String>> {
    v.iter().map(|x| x.map(String::from)).collect()
}

#[test]
fn parses_ohlcv_and_skips_null_days() {
    let t0 = Utc.with_ymd_and_hms(2024, 1, 2, 14, 30, 0).unwrap().timestamp();
    let results = chart_of(
        vec![t0, t0 + 86_400, t0 + 2 * 86_400],
        ChartQuote {
            open: cells(&[Some("223"), Some("224.5"), None]),
            high: cells(&[Some("225.5"), Some("226"), None]),
            low: cells(&[Some("222.1"), Some("223.9"), None]),
            close: cells(&[Some("224.8"), Some("225.3"), None]),
            volume: vec![Some(1_200_000), Some(900_000), None],
        },
    );
    let p = parse_chart(3, &results);
    assert_eq!(p.len(), 2); // 3rd day is all-null -> skipped
    assert_eq!(p[0].date, epoch_day(2024, 1, 2));
    assert_eq!(p[0].open.as_deref().map(figure), Some(223.0));
    assert_eq!(figure(&p[0].close), 224.8);
    assert_eq!(p[0].volume, Some(1_200_000));
    assert_eq!(p[0].source, "yahoo");
    assert_eq!(p[0].company_id, 3);
}

#[test]
fn parses_when_some_ohlcv_arrays_are_missing() {
    // A quote that omits `open` and `volume` entirely.
    let t0 = Utc.with_ymd_and_hms(2024, 1, 2, 14, 30, 0).unwrap().timestamp();
    let results = chart_of(
        vec![t0, t0 + 86_400],
        ChartQuote {
            open: vec![],
            high: cells(&[Some("225.5"), Some("226")]),
            low: cells(&[Some("222.1"), Some("223.9")]),
            close: cells(&[Some("224.8"), Some("225.3")]),
            volume: vec![],
        },
    );
    let p = parse_chart(1, &results);
    assert_eq!(p.len(), 2); // rows kept (close present)
    assert_eq!(figure(&p[0].close), 224.8);
    assert_eq!(p[0].open, None); // missing array -> None
    assert_eq!(p[0].volume, None);
    assert_eq!(p[0].high.as_deref().map(figure), Some(225.5));
}

#[test]
fn parse_asset_profile_maps_fields() {
    let profile = document(
        r#"{"quoteSummary":{"result":[{"assetProfile":{
            "address1":"1200 Urban Center Drive","city":"Birmingham","state":"AL",
            "website":"https://www.vulcanmaterials.com","industry":"Building Materials",
            "sector":"Basic Materials","fullTimeEmployees":10961,
            "longBusinessSummary":"Vulcan Materials Company produces and supplies construction aggregates."}}],
            "error":null}}"#,
    );
    let p = parse_asset_profile(&profile);
    assert_eq!(p.sector.as_deref(), Some("Basic Materials"));
    assert_eq!(p.industry.as_deref(), Some("Building Materials"));
    assert_eq!(p.website.as_deref(), Some("https://www.vulcanmaterials.com"));
    assert!(p.description.unwrap().starts_with("Vulcan Materials Company produces"));
    assert_eq!(p.exchange, None);
    assert_eq!(p.employees, Some(10961));
}

#[test]
fn parse_prices_maps_rows_with_optional_volume() {
    let s = |t: &str| Some(t.to_string());
    let rows = vec![
        PriceRow {
            date: parse_fmp_date("2024-01-03").unwrap(),
            open: s("184.0"),
            high: s("185.9"),
            low: s("183.4"),
            close: "184.25".into(),
            volume: Some(58414460),
        },
        PriceRow { date: parse_fmp_date("2024-01-02").unwrap(), open: None, high: None, low: None, close: "185.64".into(), volume: None },
    ];
    let prices = parse_prices(7, &rows);
    assert_eq!(prices.len(), 2);
    assert_eq!(prices[0].date, epoch_day(2024, 1, 3));
    assert_eq!(prices[0].volume, Some(58414460));
    assert_eq!(prices[0].open.as_deref().map(figure), Some(184.0));
    assert_eq!(prices[0].high.as_deref().map(figure), Some(185.9));
    assert_eq!(prices[1].volume, None);
    assert_eq!(prices[1].open, None); // close-only row
    assert_eq!(prices[0].source, "fmp");
    assert_eq!(prices[0].company_id, 7);
}

#[test]
fn parse_ratios_emits_present_metrics_only() {
    let s = |t: &str| Some(t.to_string());
    let rows = vec![
        RatioRow { date: epoch_day(2023, 9, 30), pe: s("28.5"), roe: s("1.56"), net_profit_margin: s("0.253") },
        RatioRow { date: epoch_day(2022, 9, 24), pe: None, roe: s("1.75"), net_profit_margin: s("0.253") },
    ];
    let ratios = parse_ratios(7, &rows, fixed_now());
    // row1: pe, roe, npm (3) + row2: roe, npm (2) = 5
    assert_eq!(ratios.len(), 5);
    let pe = ratios.iter().find(|r| r.metric == "pe").unwrap();
    assert_eq!(figure(&pe.value), 28.5);
    assert_eq!(pe.computed_at, fixed_now());
    // only one pe (row2 has none)
    assert_eq!(ratios.iter().filter(|r| r.metric == "pe").count(), 1);
    assert!(ratios.iter().all(|r| r.period_type == PeriodType::Annual));
}

#[test]
fn fmp_dates_read_as_days_and_bad_dates_are_parse_errors() {
    assert_eq!(parse_fmp_date("2023-09-30").unwrap(), epoch_day(2023, 9, 30));
    assert!(matches!(parse_fmp_date("09/30/2023"), Err(CollectorError::Parse(_))));
}
