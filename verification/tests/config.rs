use stonkscollect::config::{is_truthy, parse_tickers};

#[test]
fn tickers_are_split_trimmed_and_blank_free() {
    assert_eq!(parse_tickers("AAPL, msft ,,VMC "), vec!["AAPL", "MSFT", "VMC"]);
    assert!(parse_tickers("").is_empty());
    assert!(parse_tickers(" , ").is_empty());
}

#[test]
fn truthy_flags() {
    assert!(is_truthy("1"));
    assert!(is_truthy("true"));
    assert!(is_truthy(" YES "));
    assert!(!is_truthy("false"));
    assert!(!is_truthy(""));
}

use std::collections::HashMap;
use stonkscollect::config::Config;

fn getter(pairs: &[(&str, &str)]) -> impl Fn(&str) -> Option<String> {
    let map: HashMap<String, String> = pairs.iter().map(|(k, v)| (k.to_string(), v.to_string())).collect();
    move |k| map.get(k).cloned()
}

/// The threshold as the application reads the configured text.
fn threshold(cfg: &Config) -> f64 {
    cfg.reconcile_threshold.as_deref().and_then(|t| t.parse::<f64>().ok()).unwrap_or(0.05)
}

#[test]
fn parses_a_full_configuration() {
    let cfg = Config::parse(getter(&[
        ("DATABASE_URL", "sqlite://x.db"),
        ("PORT", "9000"),
        ("USER_AGENT", "me"),
        ("FMP_API_KEY", "fk"),
        ("FINNHUB_API_KEY", "nk"),
        ("TICKERS", "aapl, msft ,"),
        ("COLLECT_ALL", "TRUE"),
        ("REQUEST_DELAY_MS", "200"),
        ("RECONCILE_THRESHOLD", "0.1"),
    ]));
    assert_eq!(cfg.database_url, "sqlite://x.db");
    assert_eq!(cfg.port, 9000);
    assert_eq!(cfg.user_agent, "me");
    assert_eq!(cfg.fmp_api_key, Some("fk".into()));
    assert_eq!(cfg.finnhub_api_key, Some("nk".into()));
    assert_eq!(cfg.tickers, vec!["AAPL", "MSFT"]);
    assert!(cfg.collect_all);
    assert_eq!(cfg.request_delay_ms, 200);
    assert_eq!(threshold(&cfg), 0.1);
    assert_eq!(cfg.clone(), cfg);
}

#[test]
fn applies_defaults_when_keys_absent() {
    let cfg = Config::parse(|_| None);
    assert_eq!(cfg.database_url, "sqlite:///data/stonks.db");
    assert_eq!(cfg.port, 8080);
    assert!(cfg.user_agent.contains("stonkscollect"));
    assert_eq!(cfg.fmp_api_key, None);
    assert_eq!(cfg.finnhub_api_key, None);
    assert!(cfg.tickers.is_empty());
    assert!(!cfg.collect_all);
    assert_eq!(cfg.request_delay_ms, 150);
    assert_eq!(threshold(&cfg), 0.05);
}

#[test]
fn invalid_numeric_values_fall_back_to_defaults() {
    let cfg = Config::parse(getter(&[
        ("PORT", "nope"),
        ("REQUEST_DELAY_MS", "x"),
        ("COLLECT_ALL", "maybe"),
        ("RECONCILE_THRESHOLD", "x"),
    ]));
    assert_eq!(cfg.port, 8080);
    assert_eq!(cfg.request_delay_ms, 150);
    assert!(!cfg.collect_all);
    assert_eq!(threshold(&cfg), 0.05);
}

#[test]
fn port_out_of_range_falls_back() {
    let cfg = Config::parse(getter(&[("PORT", "70000")]));
    assert_eq!(cfg.port, 8080);
}

#[test]
fn ascii_ticker_lists_parse_to_clean_upper_case_tickers() {
    let tickers = parse_tickers(" brk.b ,,\tmsft\n, , aapl");
    assert_eq!(tickers, vec!["BRK.B", "MSFT", "AAPL"]);
    for t in &tickers {
        assert!(!t.is_empty() && !t.contains(','));
        assert_eq!(t.trim(), t);
        assert_eq!(&t.to_uppercase(), t);
    }
}

#[test]
fn parsing_the_joined_tickers_gives_them_back() {
    let tickers = parse_tickers(" aapl, ,msft ,brk.b,,");
    assert_eq!(parse_tickers(&tickers.join(",")), tickers);
    assert_eq!(parse_tickers(&Vec::<String>::new().join(",")), Vec::<String>::new());
}
