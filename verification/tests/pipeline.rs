use stonkscollect::collectors::edgar::CompanyRef;
use stonkscollect::domain::CompanyProfile;
use stonkscollect::pipeline::{
    delisting_status, edgar_reported_missing, merge_profiles, new_companies, parquet_file_name, refresh_since,
    scheduler_idle, source_plan, stored_stand_ins, summarize, tally_enriched, tally_reports, tracked_indices,
    upper_tickers, IngestReport,
};

fn day(y: i32, m: u32, d: u32) -> i64 {
    chrono::NaiveDate::from_ymd_opt(y, m, d).unwrap().to_epoch_days() as i64
}

#[test]
fn delisted_only_when_missing_no_new_and_stale() {
    let today = day(2024, 6, 1);
    let old = Some(day(2024, 1, 1));
    let recent = Some(day(2024, 5, 28));
    assert_eq!(delisting_status(true, 0, None, today), "delisted");
    assert_eq!(delisting_status(true, 0, old, today), "delisted");
    assert_eq!(delisting_status(true, 3, old, today), "active");
    assert_eq!(delisting_status(false, 0, old, today), "active");
    assert_eq!(delisting_status(true, 0, recent, today), "active");
}

#[test]
fn delisting_needs_more_than_thirty_stale_days() {
    let today = day(2024, 6, 1);
    assert_eq!(delisting_status(true, 0, Some(today - 30), today), "active");
    assert_eq!(delisting_status(true, 0, Some(today - 31), today), "delisted");
}

#[test]
fn summarize_counts_companies_items_and_failures() {
    let s = summarize(&vec![Ok(3), Err(()), Ok(0), Ok(4)]);
    assert_eq!(s.companies, 3);
    assert_eq!(s.facts_written, 7);
    assert_eq!(s.failed, 1);
    assert_eq!(s.discrepancies_written, 0);
}

#[test]
fn tally_reports_adds_up_ingest_reports() {
    let r = |f: usize, d: usize, e: usize| IngestReport {
        facts_written: f,
        discrepancies_written: d,
        source_errors: (0..e).map(|i| (format!("s{i}"), "down".to_string())).collect(),
    };
    let s = tally_reports(&vec![Ok(r(10, 1, 0)), Err(()), Ok(r(5, 0, 2))]);
    assert_eq!(s.companies, 2);
    assert_eq!(s.facts_written, 15);
    assert_eq!(s.discrepancies_written, 1);
    assert_eq!(s.source_errors, 2);
    assert_eq!(s.failed, 1);
}

#[test]
fn tally_enriched_counts_successes_and_failures() {
    let s = tally_enriched(&vec![true, false, true]);
    assert_eq!(s.companies, 2);
    assert_eq!(s.failed, 1);
}

#[test]
fn stored_facts_stand_in_only_for_silent_sources() {
    let fresh = vec!["edgar".to_string()];
    let stored = vec!["edgar".to_string(), "fmp".to_string(), "scrape".to_string(), "edgar".to_string()];
    assert_eq!(stored_stand_ins(&fresh, &stored), vec![1, 2]);
    assert_eq!(stored_stand_ins(&Vec::new(), &stored), vec![0, 1, 2, 3]);
}

#[test]
fn refresh_starts_a_week_before_the_last_bar() {
    assert_eq!(refresh_since(Some(day(2024, 3, 8))), Some(day(2024, 3, 1)));
    assert_eq!(refresh_since(None), None);
}

#[test]
fn edgar_not_found_is_detected_among_source_errors() {
    let errs = vec![
        ("fmp".to_string(), "http error: status 404 from x".to_string()),
        ("edgar".to_string(), "http error: status 404 from https://data.sec.gov".to_string()),
    ];
    assert!(edgar_reported_missing(&errs));
    assert!(!edgar_reported_missing(&vec![("edgar".to_string(), "http error: status 500".to_string())]));
    assert!(!edgar_reported_missing(&errs[..1].to_vec()));
}

#[test]
fn source_plan_follows_keys_and_scope() {
    let p = source_plan(true, false, false);
    assert!(p.fmp && !p.finnhub && p.scrape);
    let q = source_plan(false, true, true);
    assert!(!q.fmp && q.finnhub && !q.scrape);
    assert!(scheduler_idle(false, &Vec::new()));
    assert!(!scheduler_idle(true, &Vec::new()));
    assert!(!scheduler_idle(false, &vec!["AAPL".to_string()]));
    assert_eq!(upper_tickers(&vec!["aapl".into(), "Brk.b".into()]), vec!["AAPL", "BRK.B"]);
}

#[test]
fn merge_profiles_lets_later_sources_win() {
    let edgar = CompanyProfile { industry: Some("Cement".into()), exchange: Some("NYSE".into()), ..CompanyProfile::default() };
    let yahoo = CompanyProfile {
        industry: Some("Building Materials".into()),
        sector: Some("Basic Materials".into()),
        employees: Some(10961),
        ..CompanyProfile::default()
    };
    let merged = merge_profiles(&vec![edgar, yahoo, CompanyProfile::default()]);
    assert_eq!(merged.industry.as_deref(), Some("Building Materials"));
    assert_eq!(merged.exchange.as_deref(), Some("NYSE"));
    assert_eq!(merged.sector.as_deref(), Some("Basic Materials"));
    assert_eq!(merged.employees, Some(10961));
    assert_eq!(merge_profiles(&Vec::new()), CompanyProfile::default());
}

#[test]
fn bootstrap_rows_carry_identity_only() {
    let refs = vec![CompanyRef { cik: "0000320193".into(), ticker: "AAPL".into(), name: "Apple Inc.".into() }];
    let rows = new_companies(&refs);
    assert_eq!(rows.len(), 1);
    assert_eq!(rows[0].cik, "0000320193");
    assert_eq!(rows[0].ticker, "AAPL");
    assert_eq!(rows[0].name, "Apple Inc.");
    assert_eq!(rows[0].sector, None);
}

#[test]
fn parquet_names_keep_share_classes_in_one_component() {
    assert_eq!(parquet_file_name("BRK/B"), "BRK-B.parquet");
    assert_eq!(parquet_file_name("AAPL"), "AAPL.parquet");
}

#[test]
fn tracked_indices_are_the_three_us_benchmarks() {
    let idx = tracked_indices();
    assert_eq!(idx, vec![("^GSPC", "S&P 500"), ("^IXIC", "Nasdaq Composite"), ("^DJI", "Dow Jones Industrial Average")]);
}
