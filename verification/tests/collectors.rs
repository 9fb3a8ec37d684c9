use stonkscollect::collectors::edgar::EdgarCollector;
use stonkscollect::collectors::edgar_ownership::OwnershipCollector;
use stonkscollect::collectors::fmp::FmpCollector;
use stonkscollect::collectors::news::{dedup_hash, FinnhubCollector};
use stonkscollect::collectors::scrape::ScrapeCollector;
use stonkscollect::collectors::yahoo::{YahooCollector, YahooProfileCollector};
use stonkscollect::collectors::CollectorError;

/// A transport stand-in: URL builders never touch it.
struct FakeHttp;

#[test]
fn companyfacts_url_zero_pads_cik() {
    assert_eq!(
        EdgarCollector::<FakeHttp>::companyfacts_url("320193"),
        "https://data.sec.gov/api/xbrl/companyfacts/CIK0000320193.json"
    );
}

#[test]
fn edgar_submissions_url_zero_pads_cik() {
    assert_eq!(
        EdgarCollector::<FakeHttp>::submissions_url("109563"),
        "https://data.sec.gov/submissions/CIK0000109563.json"
    );
}

#[test]
fn collector_error_display_covers_variants() {
    assert!(CollectorError::Http("x".into()).to_string().contains("http"));
    assert!(CollectorError::Parse("y".into()).to_string().contains("parse"));
}

#[test]
fn edgar_ownership_submissions_url_zero_pads_cik() {
    assert_eq!(
        OwnershipCollector::<FakeHttp>::submissions_url("320193"),
        "https://data.sec.gov/submissions/CIK0000320193.json"
    );
}

#[test]
fn filing_url_strips_xsl_wrapper_and_dashes() {
    assert_eq!(
        OwnershipCollector::<FakeHttp>::filing_url("0000320193", "0000320193-24-000010", "xslF345X05/wf-form4_001.xml"),
        "https://www.sec.gov/Archives/edgar/data/320193/000032019324000010/wf-form4_001.xml"
    );
    // a doc with no wrapper segment is used verbatim
    assert_eq!(
        OwnershipCollector::<FakeHttp>::filing_url("320193", "0000320193-24-000011", "wf-form4_002.xml"),
        "https://www.sec.gov/Archives/edgar/data/320193/000032019324000011/wf-form4_002.xml"
    );
}

#[test]
fn url_builders_include_symbol_and_key() {
    assert_eq!(
        FmpCollector::<FakeHttp>::prices_url("AAPL", "KEY"),
        "https://financialmodelingprep.com/api/v3/historical-price-full/AAPL?apikey=KEY"
    );
    assert!(FmpCollector::<FakeHttp>::income_url("AAPL", "KEY").contains("income-statement/AAPL"));
    assert!(FmpCollector::<FakeHttp>::ratios_url("AAPL", "KEY").ends_with("apikey=KEY"));
}

#[test]
fn dedup_hash_normalizes_case_and_whitespace() {
    assert_eq!(dedup_hash("Apple  Hits   HIGH "), dedup_hash("apple hits high"));
    assert_ne!(dedup_hash("Apple up"), dedup_hash("Apple down"));
}

#[test]
fn finnhub_url_includes_symbol_range_and_token() {
    let url = FinnhubCollector::<FakeHttp>::news_url("AAPL", "2024-01-01", "2024-01-31", "KEY");
    assert!(url.contains("symbol=AAPL"));
    assert!(url.contains("from=2024-01-01"));
    assert!(url.contains("to=2024-01-31"));
    assert!(url.ends_with("token=KEY"));
}

#[test]
fn financials_url_includes_symbol() {
    assert!(ScrapeCollector::<FakeHttp>::financials_url("AAPL").contains("AAPL"));
}

#[test]
fn profile_url_uppercases_and_carries_crumb() {
    assert_eq!(
        YahooProfileCollector::<FakeHttp>::profile_url("vmc", "CR1"),
        "https://query1.finance.yahoo.com/v10/finance/quoteSummary/VMC?modules=assetProfile&crumb=CR1"
    );
}

#[test]
fn pipeline_fact_sources_expose_stable_names() {
    assert_eq!(EdgarCollector::new(()).name(), "edgar");
    assert_eq!(FmpCollector::new((), "K".into()).name(), "fmp");
    assert_eq!(ScrapeCollector::new(()).name(), "scrape");
}

#[test]
fn mod_fact_sources_expose_stable_names() {
    assert_eq!(EdgarCollector::new(()).name(), "edgar");
    assert_eq!(FmpCollector::new((), "K".into()).name(), "fmp");
    assert_eq!(ScrapeCollector::new(()).name(), "scrape");
}

#[test]
fn price_profile_and_holder_sources_expose_stable_names() {
    assert_eq!(YahooCollector::new(()).name(), "yahoo");
    assert_eq!(YahooProfileCollector::new(()).name(), "yahoo");
    assert_eq!(OwnershipCollector::new(()).name(), "edgar-form4");
}
