use stonkscollect::domain::{Company, CompanyProfile, PeriodType, StatementKind};

#[test]
fn period_type_round_trips_through_str() {
    for pt in [PeriodType::Quarterly, PeriodType::Annual] {
        assert_eq!(PeriodType::parse(pt.as_str()), Some(pt));
    }
}

#[test]
fn period_type_parse_rejects_unknown() {
    assert_eq!(PeriodType::parse("weekly"), None);
}

#[test]
fn statement_kind_round_trips_through_str() {
    for sk in [
        StatementKind::Income,
        StatementKind::Balance,
        StatementKind::CashFlow,
    ] {
        assert_eq!(StatementKind::parse(sk.as_str()), Some(sk));
    }
}

#[test]
fn statement_kind_parse_rejects_unknown() {
    assert_eq!(StatementKind::parse("equity"), None);
}

#[test]
fn company_is_cloneable_and_comparable() {
    let c = Company {
        id: 1,
        cik: "0000320193".into(),
        ticker: "AAPL".into(),
        name: "Apple Inc.".into(),
        exchange: Some("NASDAQ".into()),
        sector: None,
        industry: None,
        description: None,
        website: None,
        employees: None,
    };
    assert_eq!(c.clone(), c);
    assert!(format!("{c:?}").contains("AAPL"));
}

#[test]
fn company_profile_overlay_lets_later_source_override_and_fill() {
    let edgar = CompanyProfile {
        industry: Some("Cement, Hydraulic".into()),
        exchange: Some("NYSE".into()),
        ..Default::default()
    };
    let yahoo = CompanyProfile {
        sector: Some("Basic Materials".into()),
        industry: Some("Building Materials".into()),
        website: Some("https://x.com".into()),
        description: Some("makes things".into()),
        employees: Some(10961),
        ..Default::default()
    };
    let merged = edgar.overlay(yahoo);
    assert_eq!(merged.industry.as_deref(), Some("Building Materials")); // yahoo overrides
    assert_eq!(merged.exchange.as_deref(), Some("NYSE")); // edgar kept (yahoo None)
    assert_eq!(merged.sector.as_deref(), Some("Basic Materials"));
    assert_eq!(merged.website.as_deref(), Some("https://x.com"));
    assert_eq!(merged.description.as_deref(), Some("makes things"));
    assert_eq!(merged.employees, Some(10961));

    // a later source without a headcount keeps the earlier one
    let kept = merged.overlay(CompanyProfile::default());
    assert_eq!(kept.employees, Some(10961));
}

use stonkscollect::domain::{select_movers, MoverKey};

/// The integer order `f64::total_cmp` sorts a change percentage by.
fn change_order(x: f64) -> i64 {
    let bits = x.to_bits() as i64;
    bits ^ ((((bits >> 63) as u64) >> 1) as i64)
}

fn mover(change_pct: f64, volume: Option<i64>) -> MoverKey {
    MoverKey { change_order: change_order(change_pct), volume }
}

#[test]
fn select_movers_buckets_gainers_losers_and_most_active() {
    // UP2, DOWN, UP9, FLAT
    let tickers = ["UP2", "DOWN", "UP9", "FLAT"];
    let rows = vec![
        mover(0.02, Some(100)),
        mover(-0.05, Some(900)),
        mover(0.09, None),
        mover(0.0, Some(500)),
    ];
    let m = select_movers(&rows, 2);
    let names = |picks: &[usize]| -> Vec<&str> { picks.iter().map(|&i| tickers[i]).collect() };
    assert_eq!(names(&m.gainers), ["UP9", "UP2"]);
    assert_eq!(names(&m.losers), ["DOWN", "FLAT"]);
    assert_eq!(names(&m.most_active), ["DOWN", "FLAT"]);
    assert_eq!(m.clone(), m);
    assert!(format!("{m:?}").contains("gainers"));
}

#[test]
fn select_movers_handles_short_lists() {
    let m = select_movers(&vec![mover(0.01, Some(1))], 10);
    assert_eq!(m.gainers.len(), 1);
    assert_eq!(m.losers.len(), 1);
    assert_eq!(m.most_active.len(), 1);
    let empty = select_movers(&Vec::new(), 10);
    assert!(empty.gainers.is_empty());
}

#[test]
fn select_movers_keeps_input_order_on_ties_and_orders_negative_zero_first() {
    let rows = vec![mover(0.0, Some(5)), mover(-0.0, Some(5)), mover(0.0, Some(5))];
    let m = select_movers(&rows, 3);
    assert_eq!(m.gainers, vec![0, 2, 1]);
    assert_eq!(m.losers, vec![1, 0, 2]);
    assert_eq!(m.most_active, vec![0, 1, 2]);
}

#[test]
fn select_movers_puts_rows_without_volume_last_in_most_active() {
    let rows = vec![mover(0.01, None), mover(0.02, Some(0)), mover(0.03, Some(-7)), mover(0.04, None)];
    assert_eq!(select_movers(&rows, 1).most_active, vec![1]);
    assert_eq!(select_movers(&rows, 4).most_active, vec![1, 2, 0, 3]);
}

#[test]
fn overlay_with_blank_profile_changes_nothing() {
    let p = CompanyProfile {
        sector: Some("Tech".into()),
        industry: None,
        exchange: Some("NYSE".into()),
        website: None,
        description: None,
        employees: Some(3),
    };
    assert_eq!(p.clone().overlay(CompanyProfile::default()), p);
    assert_eq!(CompanyProfile::default().overlay(p.clone()), p);
}
