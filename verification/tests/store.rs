use stonkscollect::store::{companies_sort_expr, screen_sort_expr};

#[test]
fn companies_sort_expr_whitelist() {
    assert_eq!(companies_sort_expr(Some("name"), Some("desc")), "c.name DESC");
    assert_eq!(companies_sort_expr(Some("industry"), Some("asc")), "COALESCE(c.industry,'') ASC");
    assert_eq!(companies_sort_expr(Some("score"), Some("desc")), "COALESCE(g.score,-1) DESC");
    assert_eq!(companies_sort_expr(Some("ticker"), None), "c.ticker ASC");
    assert_eq!(companies_sort_expr(None, None), "c.ticker ASC");
    // unknown token falls back to ticker (SQL injection attempt returns safe fallback)
    assert_eq!(companies_sort_expr(Some("'; DROP TABLE companies; --"), None), "c.ticker ASC");
}

#[test]
fn screen_sort_expr_whitelist() {
    assert_eq!(screen_sort_expr(Some("ticker"), Some("asc")), "c.ticker ASC");
    assert_eq!(screen_sort_expr(Some("graham_number"), Some("desc")), "COALESCE(g.graham_number,-1) DESC");
    assert_eq!(screen_sort_expr(Some("margin_of_safety"), None), "COALESCE(g.margin_of_safety,-1e9) ASC");
    // default (no sort_by): score DESC with ticker tiebreaker
    assert_eq!(screen_sort_expr(None, None), "g.score DESC, c.ticker ASC");
    // unknown sort_by falls back to default score ordering
    assert_eq!(screen_sort_expr(Some("bogus"), Some("desc")), "g.score DESC, c.ticker ASC");
}

use stonkscollect::store::{
    companies_sql, facts_range_sql, like_pattern, prices_range_sql, screen_sql, RatioBound, ScreenBind, ScreenShape,
};

#[test]
fn range_queries_add_only_the_requested_bounds() {
    assert_eq!(
        prices_range_sql(true, false, true),
        "SELECT company_id,date,open,high,low,close,volume,source FROM prices WHERE company_id=? AND date >= ? ORDER BY date LIMIT ?"
    );
    assert_eq!(
        facts_range_sql(false, true, false),
        "SELECT company_id,statement,line_item,period_type,period_end,value,source,fetched_at FROM financial_facts WHERE company_id=? AND period_end <= ? ORDER BY period_end"
    );
}

#[test]
fn like_pattern_escapes_metacharacters_and_wraps() {
    assert_eq!(like_pattern("  app "), "%app%");
    assert_eq!(like_pattern("50%_\\x"), "%50\\%\\_\\\\x%");
}

#[test]
fn companies_queries_search_ticker_or_name() {
    let (count, page) = companies_sql(true, "c.ticker ASC");
    assert_eq!(count, "SELECT COUNT(*) FROM companies c WHERE c.ticker LIKE ? ESCAPE '\\' OR c.name LIKE ? ESCAPE '\\'");
    assert!(page.ends_with(" ORDER BY c.ticker ASC LIMIT ? OFFSET ?"));
    let (count, _) = companies_sql(false, "c.ticker ASC");
    assert_eq!(count, "SELECT COUNT(*) FROM companies c");
}

#[test]
fn screen_sql_binds_in_clause_order() {
    let shape = ScreenShape {
        defensive_only: true,
        net_net_only: false,
        has_sector: true,
        min_pe: false,
        max_pe: true,
        min_roe: true,
        max_de: false,
        min_margin: false,
    };
    let q = screen_sql(shape, "g.score DESC, c.ticker ASC");
    assert_eq!(q.binds, vec![ScreenBind::MinScore, ScreenBind::Sector, ScreenBind::Ratio(RatioBound::MaxPe), ScreenBind::Ratio(RatioBound::MinRoe)]);
    assert!(q.count.starts_with("SELECT COUNT(*) FROM graham_scores g JOIN companies c ON c.id = g.company_id LEFT JOIN"));
    assert!(q.count.contains(") r_pe ON r_pe.company_id=c.id"));
    assert!(q.count.contains(" WHERE g.score >= ? AND g.passes_defensive = 1 AND c.sector = ? AND r_pe.val <= ? AND r_roe.val >= ?"));
    assert!(!q.count.contains("r_debt_to_equity"));
    assert!(q.page.ends_with(" ORDER BY g.score DESC, c.ticker ASC LIMIT ? OFFSET ?"));
    let plain = screen_sql(ScreenShape { defensive_only: false, net_net_only: false, has_sector: false, min_pe: false, max_pe: false, min_roe: false, max_de: false, min_margin: false }, "x");
    assert_eq!(plain.count, "SELECT COUNT(*) FROM graham_scores g JOIN companies c ON c.id = g.company_id WHERE g.score >= ?");
    assert_eq!(plain.binds, vec![ScreenBind::MinScore]);
}
