use chrono::{NaiveDate, TimeZone, Utc};
use serde_json::Value;
use stonkscollect::collectors::edgar::parse_company_tickers;
use stonkscollect::collectors::edgar::parse_submissions_profile;
use stonkscollect::collectors::edgar_facts::parse_companyfacts;
use stonkscollect::collectors::edgar_ownership::{parse_form4, parse_form4_filings};
use stonkscollect::collectors::fmp::{parse_income, parse_profile, IncomeRow};
use stonkscollect::collectors::json::{Json, Member};
use stonkscollect::collectors::news::{dedup_hash, parse_finnhub, parse_rss, FinnhubRow};
use stonkscollect::collectors::scrape::parse_financials;
use stonkscollect::collectors::yahoo::{parse_asset_profile, parse_chart, ChartQuote, ChartResult, YahooCollector};
use stonkscollect::collectors::CollectorError;
use stonkscollect::domain::{CompanyProfile, PeriodType, StatementKind};

/// Decode JSON text the way the application does before handing a document
/// to the library.
fn to_json(v: &Value) -> Json {
    match v {
        Value::Null => Json::Null,
        Value::Bool(b) => Json::Bool(*b),
        Value::Number(n) => Json::Number(n.to_string()),
        Value::String(s) => Json::Str(s.clone()),
        Value::Array(a) => Json::Array(a.iter().map(to_json).collect()),
        Value::Object(o) => Json::Object(
            o.iter().map(|(k, v)| Member { key: k.clone(), value: to_json(v) }).collect(),
        ),
    }
}

fn json(text: &str) -> Json {
    to_json(&serde_json::from_str::<Value>(text).unwrap())
}

fn day(y: i32, m: u32, d: u32) -> i64 {
    NaiveDate::from_ymd_opt(y, m, d).unwrap().to_epoch_days() as i64
}

/// A transport stand-in: URL builders never touch it.
struct NoHttp;

#[test]
fn parse_company_tickers_non_object_is_empty() {
    assert!(parse_company_tickers(&json("[]")).is_empty());
}

#[test]
fn parse_company_tickers_pads_uppercases_and_skips_incomplete() {
    let doc = json(
        r#"{"0":{"cik_str":320193,"ticker":"aapl","title":"Apple Inc."},
            "1":{"cik_str":789019,"ticker":"MSFT","title":"Microsoft"},
            "2":{"ticker":"NOCIK","title":"x"},
            "3":{"cik_str":5,"title":"no ticker"},
            "4":{"cik_str":7,"ticker":"NONAME"}}"#,
    );
    let refs = parse_company_tickers(&doc);
    assert_eq!(refs.len(), 3);
    assert_eq!(refs[0].cik, "0000320193");
    assert_eq!(refs[0].ticker, "AAPL");
    assert_eq!(refs[0].name, "Apple Inc.");
    assert_eq!(refs[2].ticker, "NONAME");
    assert_eq!(refs[2].cik, "0000000007");
    assert_eq!(refs[2].name, "");
}

#[test]
fn parse_submissions_profile_maps_first_exchange_and_drops_blanks() {
    let doc = json(
        r#"{"sicDescription":"Concrete, Gypsum & Plaster Products","exchanges":["NYSE","CHX"],
            "website":"","description":""}"#,
    );
    let p = parse_submissions_profile(&doc);
    assert_eq!(p.industry.as_deref(), Some("Concrete, Gypsum & Plaster Products"));
    assert_eq!(p.exchange.as_deref(), Some("NYSE"));
    assert_eq!(p.sector, None);
    assert_eq!(p.website, None);
    assert_eq!(p.description, None);
}

#[test]
fn parse_keeps_latest_filed_regardless_of_array_order() {
    let doc = json(
        r#"{"facts":{"us-gaap":{"NetIncomeLoss":{"units":{"USD":[
            {"end":"2023-12-31","val":999,"fp":"FY","form":"10-K/A","filed":"2024-03-01"},
            {"end":"2023-12-31","val":100,"fp":"FY","form":"10-K","filed":"2024-01-15"}
        ]}}}}}"#,
    );
    let facts = parse_companyfacts(7, &doc, 0);
    assert_eq!(facts.len(), 1);
    assert_eq!(facts[0].value.parse::<f64>().unwrap(), 999.0);
}

#[test]
fn parse_empty_facts_yields_no_rows() {
    assert!(parse_companyfacts(7, &json("{}"), 0).is_empty());
}

#[test]
fn companyfacts_maps_units_periods_and_orders_by_key() {
    let doc = json(
        r#"{"facts":{"us-gaap":{
            "Revenues":{"units":{"USD":[
                {"end":"2023-09-30","val":383285000000,"fp":"FY","filed":"2023-11-03"},
                {"end":"2023-07-01","val":81797000000,"fp":"Q3","filed":"2023-08-04"},
                {"end":"2023-12-31","val":5,"fp":"CY","filed":"2024-01-01"},
                {"end":"not a date","val":6,"fp":"FY","filed":"2024-01-01"},
                {"end":"2023-09-30","fp":"FY","filed":"2024-01-01"}
            ]}},
            "EarningsPerShareDiluted":{"units":{"USD/shares":[
                {"end":"2023-09-30","val":6.13,"fp":"FY","filed":"2023-11-03"}
            ]}},
            "UnmappedConcept":{"units":{"USD":[
                {"end":"2023-09-30","val":1,"fp":"FY","filed":"2023-11-03"}
            ]}}
        }}}"#,
    );
    let facts = parse_companyfacts(7, &doc, 1_700_000_000);
    assert_eq!(facts.len(), 3);
    // ordered by line item, then period type, then period end
    assert_eq!(facts[0].line_item, "Eps");
    assert_eq!(facts[0].value, "6.13");
    assert_eq!(facts[1].line_item, "Revenue");
    assert_eq!(facts[1].period_type, PeriodType::Annual);
    assert_eq!(facts[1].period_end, day(2023, 9, 30));
    assert_eq!(facts[1].value.parse::<f64>().unwrap(), 383285000000.0);
    assert_eq!(facts[2].period_type, PeriodType::Quarterly);
    assert_eq!(facts[2].period_end, day(2023, 7, 1));
    assert!(facts.iter().all(|f| f.source == "edgar" && f.company_id == 7));
    assert!(facts.iter().all(|f| f.fetched_at == 1_700_000_000));
    assert_eq!(facts[1].statement, StatementKind::Income);
}

#[test]
fn companyfacts_equal_filing_dates_keep_the_later_entry() {
    let doc = json(
        r#"{"facts":{"us-gaap":{"Assets":{"units":{"USD":[
            {"end":"2023-12-31","val":1,"fp":"FY","filed":"2024-02-01"},
            {"end":"2023-12-31","val":2,"fp":"FY","filed":"2024-02-01"},
            {"end":"2023-12-31","val":3,"fp":"FY","filed":"2024-01-01"}
        ]}}}}}"#,
    );
    let facts = parse_companyfacts(1, &doc, 0);
    assert_eq!(facts.len(), 1);
    assert_eq!(facts[0].value, "2");
    assert_eq!(facts[0].statement, StatementKind::Balance);
}

#[test]
fn parse_profile_empty_array_is_blank() {
    assert_eq!(parse_profile(&json("[]")), CompanyProfile::default());
}

#[test]
fn parse_profile_reads_first_element_and_string_employees() {
    let p = parse_profile(&json(
        r#"[{"sector":"Technology","industry":"Consumer Electronics","exchangeShortName":"NASDAQ",
            "website":"https://www.apple.com","description":"Apple Inc. designs","fullTimeEmployees":" 164000 "}]"#,
    ));
    assert_eq!(p.sector.as_deref(), Some("Technology"));
    assert_eq!(p.exchange.as_deref(), Some("NASDAQ"));
    assert_eq!(p.employees, Some(164000));
    assert!(p.description.unwrap().starts_with("Apple Inc."));
}

#[test]
fn parse_asset_profile_empty_result_is_blank() {
    let p = parse_asset_profile(&json(r#"{"quoteSummary":{"result":[],"error":"x"}}"#));
    assert_eq!(p, CompanyProfile::default());
}

#[test]
fn parse_asset_profile_reads_numeric_employees() {
    let p = parse_asset_profile(&json(
        r#"{"quoteSummary":{"result":[{"assetProfile":{"sector":"Basic Materials",
            "industry":"Building Materials","website":"https://www.vulcanmaterials.com",
            "longBusinessSummary":"Vulcan Materials Company produces","fullTimeEmployees":10961}}]}}"#,
    ));
    assert_eq!(p.sector.as_deref(), Some("Basic Materials"));
    assert_eq!(p.exchange, None);
    assert_eq!(p.employees, Some(10961));
    assert!(p.description.unwrap().starts_with("Vulcan Materials Company produces"));
}

#[test]
fn parse_form4_filings_tolerates_missing_arrays_and_bad_json() {
    assert!(parse_form4_filings(&json("{}")).is_empty());
    assert!(serde_json::from_str::<Value>("not json").is_err());
}

#[test]
fn parse_form4_filings_keeps_form_4_with_both_strings() {
    let doc = json(
        r#"{"filings":{"recent":{
            "form":["4","10-K","4","4"],
            "accessionNumber":["0000320193-24-000010","x","0000320193-24-000011"],
            "primaryDocument":["xslF345X05/wf-form4_001.xml","y","wf-form4_002.xml","z"]}}}"#,
    );
    let f = parse_form4_filings(&doc);
    assert_eq!(f.len(), 2);
    assert_eq!(f[0].0, "0000320193-24-000010");
    assert_eq!(f[0].1, "xslF345X05/wf-form4_001.xml");
    assert_eq!(f[1].1, "wf-form4_002.xml");
}

#[test]
fn parse_form4_returns_none_when_incomplete() {
    assert!(parse_form4("<ownershipDocument></ownershipDocument>").is_none());
    assert!(parse_form4("<rptOwnerName>X</rptOwnerName><periodOfReport>2024-01-01</periodOfReport>").is_none());
    assert!(parse_form4(
        "<rptOwnerName>X</rptOwnerName><periodOfReport>nope</periodOfReport>\
         <sharesOwnedFollowingTransaction><value>1</value></sharesOwnedFollowingTransaction>"
    )
    .is_none());
}

#[test]
fn parse_form4_reads_owners_last_shares_and_period() {
    let xml = "<rptOwnerName> Williams Jeffrey E </rptOwnerName><rptOwnerName>Maestri Luca</rptOwnerName>\
               <periodOfReport> 2024-02-01 </periodOfReport>\
               <sharesOwnedFollowingTransaction><value>3280000</value></sharesOwnedFollowingTransaction>\
               <sharesOwnedFollowingTransaction><value> 3250000 </value></sharesOwnedFollowingTransaction>";
    let f = parse_form4(xml).unwrap();
    assert_eq!(f.owners, vec!["Williams Jeffrey E".to_string(), "Maestri Luca".to_string()]);
    assert_eq!(f.shares.parse::<f64>().unwrap(), 3_250_000.0);
    assert_eq!(f.as_of as i64, day(2024, 2, 1));
}

#[test]
fn parse_income_fans_out_present_figures_and_skips_unknown_periods() {
    let row = |date: i64, period: &str, revenue: Option<&str>, net: Option<&str>| IncomeRow {
        date,
        period: period.into(),
        revenue: revenue.map(String::from),
        net_income: net.map(String::from),
        gross_profit: None,
        operating_income: None,
        eps: None,
        cost_of_revenue: None,
        ebitda: None,
    };
    let rows = vec![
        row(day(2023, 9, 30), "FY", Some("383285000000"), Some("96995000000")),
        row(day(2023, 7, 1), "Q3", Some("81797000000"), None),
        row(day(2023, 6, 1), "TTM", Some("1"), Some("2")),
    ];
    let facts = parse_income(7, &rows, 0);
    assert_eq!(facts.len(), 3);
    assert_eq!(facts[0].line_item, "Revenue");
    assert_eq!(facts[1].line_item, "NetIncome");
    assert_eq!(facts[2].period_type, PeriodType::Quarterly);
    assert_eq!(facts[2].value.parse::<f64>().unwrap(), 81797000000.0);
    assert!(facts.iter().all(|f| f.statement == StatementKind::Income && f.source == "fmp"));
}

#[test]
fn parse_rss_invalid_errors() {
    assert!(matches!(parse_rss(7, "<not-rss", "x", 0).unwrap_err(), CollectorError::Parse(_)));
}

#[test]
fn parse_rss_maps_items_skips_titleless_and_dates_missing_ones_now() {
    let xml = r#"<?xml version="1.0"?><rss version="2.0"><channel><title>t</title><link>l</link><description>d</description>
        <item><title>Apple reaches record high</title><link>https://example.com/a</link>
              <description>Shares climbed after strong results.</description>
              <pubDate>Tue, 02 Jan 2024 12:00:00 GMT</pubDate></item>
        <item><description>no title</description></item>
        <item><title>Minimal item</title></item>
        </channel></rss>"#;
    let now = 1_717_200_000;
    let items = parse_rss(7, xml, "reuters", now).unwrap();
    assert_eq!(items.len(), 2);
    assert_eq!(items[0].title, "Apple reaches record high");
    assert_eq!(items[0].description.as_deref(), Some("Shares climbed after strong results."));
    assert_eq!(items[0].url, "https://example.com/a");
    assert_eq!(items[0].source, "reuters");
    assert_eq!(items[0].published_at, Utc.with_ymd_and_hms(2024, 1, 2, 12, 0, 0).unwrap().timestamp());
    assert_eq!(items[0].dedup_hash, dedup_hash("Apple reaches record high"));
    assert_eq!(items[1].description, None);
    assert_eq!(items[1].url, "");
    assert_eq!(items[1].published_at, now);
}

#[test]
fn parse_finnhub_maps_rows_and_blank_summaries() {
    let rows = vec![
        FinnhubRow {
            datetime: 1_704_196_800,
            headline: "Apple hits new high".into(),
            summary: "Strong quarter.".into(),
            source: "Reuters".into(),
            url: "https://u/1".into(),
        },
        FinnhubRow {
            datetime: i64::MAX,
            headline: "Analysts weigh in".into(),
            summary: "".into(),
            source: "CNBC".into(),
            url: "https://u/2".into(),
        },
    ];
    let items = parse_finnhub(7, rows, 42);
    assert_eq!(items.len(), 2);
    assert_eq!(items[0].published_at, Utc.with_ymd_and_hms(2024, 1, 2, 12, 0, 0).unwrap().timestamp());
    assert_eq!(items[0].description.as_deref(), Some("Strong quarter."));
    assert_eq!(items[1].description, None);
    assert_eq!(items[1].published_at, 42); // beyond representable instants -> now
    assert_eq!(items[1].dedup_hash, dedup_hash("Analysts weigh in"));
}

#[test]
fn parse_empty_html_yields_nothing() {
    assert!(parse_financials("<html></html>").is_empty());
}

#[test]
fn parse_financials_reads_mapped_dated_rows() {
    let html = r#"<table class="financials">
        <tr data-year="2023"><td class="metric"> Revenue </td><td class="value">383,285</td></tr>
        <tr data-year="2023"><td class="metric">Net Income</td><td class="value">96 995</td></tr>
        <tr data-year="2022"><td class="metric">Gross Profit</td><td class="value">1</td></tr>
        <tr><td class="metric">Revenue</td><td class="value">5</td></tr>
        <tr data-year="20x2"><td class="metric">Revenue</td><td class="value">5</td></tr>
        <tr data-year="2022"><td class="metric">Total Assets</td></tr>
    </table>"#;
    let figures = parse_financials(html);
    assert_eq!(figures.len(), 2);
    assert_eq!(figures[0].line_item, "Revenue");
    assert_eq!(figures[0].statement, StatementKind::Income);
    assert_eq!(figures[0].period_end, day(2023, 12, 31));
    assert_eq!(figures[0].millions, "383285");
    assert_eq!(figures[1].line_item, "NetIncome");
    assert_eq!(figures[1].millions, "96995");
}

#[test]
fn missing_result_yields_nothing() {
    // {"chart":{"result":null,"error":"x"}}
    assert!(parse_chart(1, &None).is_empty());
}

#[test]
fn missing_timestamps_yields_nothing() {
    // {"chart":{"result":[{"indicators":{"quote":[{"open":[],...}]}}]}}
    let results = Some(vec![ChartResult {
        timestamp: None,
        quotes: vec![ChartQuote { open: vec![], high: vec![], low: vec![], close: vec![], volume: vec![] }],
    }]);
    assert!(parse_chart(1, &results).is_empty());
}

#[test]
fn parse_chart_skips_null_closes_and_reads_short_arrays() {
    let ts = Utc.with_ymd_and_hms(2024, 1, 2, 14, 30, 0).unwrap().timestamp();
    let results = Some(vec![ChartResult {
        timestamp: Some(vec![ts, ts + 86_400, ts + 2 * 86_400]),
        quotes: vec![ChartQuote {
            open: vec![Some("223".into())],
            high: vec![Some("225.5".into()), Some("226".into())],
            low: vec![],
            close: vec![Some("224.8".into()), Some("225".into()), None],
            volume: vec![Some(1_200_000)],
        }],
    }]);
    let p = parse_chart(3, &results);
    assert_eq!(p.len(), 2);
    assert_eq!(p[0].date, day(2024, 1, 2));
    assert_eq!(p[0].open.as_deref(), Some("223"));
    assert_eq!(p[0].close, "224.8");
    assert_eq!(p[0].volume, Some(1_200_000));
    assert_eq!(p[0].source, "yahoo");
    assert_eq!(p[1].open, None);
    assert_eq!(p[1].high.as_deref(), Some("226"));
    assert_eq!(p[1].volume, None);
}

#[test]
fn chart_url_uppercases_symbol_and_spans_20y() {
    let now = Utc.with_ymd_and_hms(2026, 1, 1, 0, 0, 0).unwrap().timestamp();
    let url = YahooCollector::<NoHttp>::chart_url("vmc", now, None);
    assert!(url.starts_with("https://query1.finance.yahoo.com/v8/finance/chart/VMC?interval=1d&period1="));
    assert!(url.contains(&format!("period2={}", now)));
    let p1: i64 = url.split("period1=").nth(1).unwrap().split('&').next().unwrap().parse().unwrap();
    assert!(now - p1 >= 19 * 365 * 86_400);
}

#[test]
fn chart_url_starts_at_since_when_given() {
    let now = Utc.with_ymd_and_hms(2024, 3, 1, 12, 0, 0).unwrap().timestamp();
    let since = NaiveDate::from_ymd_opt(2024, 2, 1).unwrap();
    let url = YahooCollector::<NoHttp>::chart_url("aapl", now, Some(since.to_epoch_days() as i64));
    let midnight = since.and_hms_opt(0, 0, 0).unwrap().and_utc().timestamp();
    assert!(url.contains(&format!("period1={midnight}")), "{url}");
    assert!(url.contains(&format!("period2={}", now)));
}

#[test]
fn financials_years_stop_at_the_calendar_limits() {
    let html = r#"<table class="financials">
        <tr data-year="262142"><td class="metric">Revenue</td><td class="value">1</td></tr>
        <tr data-year="262143"><td class="metric">Revenue</td><td class="value">2</td></tr>
        <tr data-year="-262143"><td class="metric">Revenue</td><td class="value">3</td></tr>
        <tr data-year="-262144"><td class="metric">Revenue</td><td class="value">4</td></tr>
        <tr data-year="1969"><td class="metric">Revenue</td><td class="value">5</td></tr>
    </table>"#;
    let figures = parse_financials(html);
    assert_eq!(figures.len(), 3);
    assert_eq!(figures[0].period_end, 95_026_236);
    assert_eq!(figures[0].millions, "1");
    assert_eq!(figures[1].period_end, day(-262143, 12, 31));
    assert_eq!(figures[1].millions, "3");
    assert_eq!(figures[2].period_end, -1);
}

#[test]
fn chart_days_stop_at_the_calendar_limits() {
    let first = -96_465_292i64 * 86_400;
    let last = 95_026_237i64 * 86_400 - 1;
    let results = Some(vec![ChartResult {
        timestamp: Some(vec![first - 1, first, -1, last, last + 1]),
        quotes: vec![ChartQuote {
            open: vec![],
            high: vec![],
            low: vec![],
            close: vec![Some("1".into()), Some("2".into()), Some("3".into()), Some("4".into()), Some("5".into())],
            volume: vec![],
        }],
    }]);
    let p = parse_chart(3, &results);
    assert_eq!(p.len(), 3);
    assert_eq!((p[0].date, p[0].close.as_str()), (-96_465_292, "2"));
    assert_eq!((p[1].date, p[1].close.as_str()), (-1, "3"));
    assert_eq!((p[2].date, p[2].close.as_str()), (95_026_236, "4"));
    assert_eq!(day(-262143, 1, 1), -96_465_292);
}

#[test]
fn finnhub_times_beyond_the_calendar_fall_back_to_now() {
    let first = -96_465_292i64 * 86_400;
    let last = 95_026_237i64 * 86_400 - 1;
    let row = |datetime: i64| FinnhubRow {
        datetime,
        headline: "h".into(),
        summary: "".into(),
        source: "s".into(),
        url: "u".into(),
    };
    let items = parse_finnhub(1, vec![row(first - 1), row(first), row(last), row(last + 1)], 42);
    let times: Vec<i64> = items.iter().map(|i| i.published_at).collect();
    assert_eq!(times, vec![42, first, last, 42]);
}
