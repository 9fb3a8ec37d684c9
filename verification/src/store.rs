//! The pure part of persistence: the SQL text of the dynamic queries and the
//! whitelisted ORDER BY clauses. No user input ever reaches the SQL text:
//! values travel as bind parameters, and unknown sort tokens fall back to a
//! default.

use vstd::prelude::*;
use vstd::seq_lib::lemma_concat_associative;

use crate::text::{cat2, cat3, chars_of, owned, push_char, str_eq, string_of, trim, trimmed};

verus! {

/// Whether an optional token is present and equal to `word`.
pub open spec fn is_token(t: Option<&str>, word: Seq<char>) -> bool {
    t matches Some(s) && s@ == word
}

fn token_is(t: Option<&str>, word: &str) -> (r: bool)
    ensures
        r == is_token(t, word@),
{
    match t {
        Some(s) => str_eq(s, word),
        None => false,
    }
}

/// `DESC` when `sort_dir` is exactly `desc`, else `ASC`.
pub open spec fn direction(sort_dir: Option<&str>) -> Seq<char> {
    if is_token(sort_dir, "desc"@) {
        "DESC"@
    } else {
        "ASC"@
    }
}

/// The ORDER BY clause for the company list.
pub open spec fn companies_order(sort_by: Option<&str>, sort_dir: Option<&str>) -> Seq<char> {
    let dir = direction(sort_dir);
    if is_token(sort_by, "name"@) {
        "c.name "@ + dir
    } else if is_token(sort_by, "industry"@) {
        "COALESCE(c.industry,'') "@ + dir
    } else if is_token(sort_by, "score"@) {
        "COALESCE(g.score,-1) "@ + dir
    } else {
        "c.ticker "@ + dir
    }
}

/// The ORDER BY clause for the screener; without a recognised `sort_by` it
/// keeps the score-descending order with a ticker tiebreak.
pub open spec fn screen_order(sort_by: Option<&str>, sort_dir: Option<&str>) -> Seq<char> {
    let dir = direction(sort_dir);
    if is_token(sort_by, "ticker"@) {
        "c.ticker "@ + dir
    } else if is_token(sort_by, "graham_number"@) {
        "COALESCE(g.graham_number,-1) "@ + dir
    } else if is_token(sort_by, "margin_of_safety"@) {
        "COALESCE(g.margin_of_safety,-1e9) "@ + dir
    } else {
        "g.score DESC, c.ticker ASC"@
    }
}

fn dir_of(sort_dir: Option<&str>) -> (r: &'static str)
    ensures
        r@ == direction(sort_dir),
{
    if token_is(sort_dir, "desc") {
        "DESC"
    } else {
        "ASC"
    }
}

/// Map a `sort_by` token + `sort_dir` to a safe (whitelisted) ORDER BY clause for
/// `list_companies`. Tokens are matched literally — no user input reaches the SQL string.
pub fn companies_sort_expr(sort_by: Option<&str>, sort_dir: Option<&str>) -> (r: String)
    ensures
        r@ == companies_order(sort_by, sort_dir),
{
    let dir = dir_of(sort_dir);
    if token_is(sort_by, "name") {
        cat2("c.name ", dir)
    } else if token_is(sort_by, "industry") {
        cat2("COALESCE(c.industry,'') ", dir)
    } else if token_is(sort_by, "score") {
        cat2("COALESCE(g.score,-1) ", dir)
    } else {
        cat2("c.ticker ", dir)
    }
}

/// Map a `sort_by` token + `sort_dir` to a safe (whitelisted) ORDER BY clause for
/// `screen`. Without `sort_by` the order is score descending, then ticker.
pub fn screen_sort_expr(sort_by: Option<&str>, sort_dir: Option<&str>) -> (r: String)
    ensures
        r@ == screen_order(sort_by, sort_dir),
{
    let dir = dir_of(sort_dir);
    if token_is(sort_by, "ticker") {
        cat2("c.ticker ", dir)
    } else if token_is(sort_by, "graham_number") {
        cat2("COALESCE(g.graham_number,-1) ", dir)
    } else if token_is(sort_by, "margin_of_safety") {
        cat2("COALESCE(g.margin_of_safety,-1e9) ", dir)
    } else {
        owned("g.score DESC, c.ticker ASC")
    }
}

/// Whatever the request asks for, the company-list ORDER BY clause is one of
/// the whitelisted columns followed by a fixed direction.
pub proof fn companies_order_is_whitelisted(sort_by: Option<&str>, sort_dir: Option<&str>)
    ensures
        ({
            let o = companies_order(sort_by, sort_dir);
            let d = direction(sort_dir);
            (d == "ASC"@ || d == "DESC"@) && (o == "c.name "@ + d || o
                == "COALESCE(c.industry,'') "@ + d || o == "COALESCE(g.score,-1) "@ + d || o
                == "c.ticker "@ + d)
        }),
{
}

/// Whatever the request asks for, the screener ORDER BY clause is one of the
/// whitelisted columns followed by a fixed direction, or the default order.
pub proof fn screen_order_is_whitelisted(sort_by: Option<&str>, sort_dir: Option<&str>)
    ensures
        ({
            let o = screen_order(sort_by, sort_dir);
            let d = direction(sort_dir);
            (d == "ASC"@ || d == "DESC"@) && (o == "c.ticker "@ + d || o
                == "COALESCE(g.graham_number,-1) "@ + d || o == "COALESCE(g.margin_of_safety,-1e9) "@ + d
                || o == "g.score DESC, c.ticker ASC"@)
        }),
{
}

/// The company columns every company query selects (alias `c`).
pub const SELECT_COMPANY_COLS: &'static str = "c.id,c.cik,c.ticker,c.name,c.exchange,c.sector,c.industry,c.description,c.website,c.employees,c.status";

/// The Graham-score columns the screener and company list select (alias `g`).
pub const SELECT_GRAHAM_COLS: &'static str = "g.company_id,g.score,g.passes_defensive,g.graham_number,g.ncav_per_share,g.margin_of_safety,g.net_net,g.computed_at";

/// `select` narrowed to an optional date range on `col`, ordered by `col`,
/// with an optional row limit; the binds follow in that order (from, to,
/// limit) after the company id.
pub open spec fn range_sql(select: Seq<char>, col: Seq<char>, has_from: bool, has_to: bool, has_limit: bool) -> Seq<char> {
    select + (if has_from {
        " AND "@ + col + " >= ?"@
    } else {
        Seq::empty()
    }) + (if has_to {
        " AND "@ + col + " <= ?"@
    } else {
        Seq::empty()
    }) + " ORDER BY "@ + col + (if has_limit {
        " LIMIT ?"@
    } else {
        Seq::empty()
    })
}

fn range_query(select: &str, col: &str, has_from: bool, has_to: bool, has_limit: bool) -> (r: String)
    ensures
        r@ == range_sql(select@, col@, has_from, has_to, has_limit),
{
    let mut sql = owned(select);
    if has_from {
        sql.append(" AND ");
        sql.append(col);
        sql.append(" >= ?");
    }
    if has_to {
        sql.append(" AND ");
        sql.append(col);
        sql.append(" <= ?");
    }
    sql.append(" ORDER BY ");
    sql.append(col);
    if has_limit {
        sql.append(" LIMIT ?");
    }
    proof {
        let a = if has_from {
            " AND "@ + col@ + " >= ?"@
        } else {
            Seq::empty()
        };
        let b = if has_to {
            " AND "@ + col@ + " <= ?"@
        } else {
            Seq::empty()
        };
        let c = if has_limit {
            " LIMIT ?"@
        } else {
            Seq::empty()
        };
        assert(sql@ =~= select@ + a + b + " ORDER BY "@ + col@ + c);
    }
    sql
}

/// The query for a company's facts in an optional period-end range.
pub fn facts_range_sql(has_from: bool, has_to: bool, has_limit: bool) -> (r: String)
    ensures
        r@ == range_sql(
            "SELECT company_id,statement,line_item,period_type,period_end,value,source,fetched_at FROM financial_facts WHERE company_id=?"@,
            "period_end"@,
            has_from,
            has_to,
            has_limit,
        ),
{
    range_query(
        "SELECT company_id,statement,line_item,period_type,period_end,value,source,fetched_at FROM financial_facts WHERE company_id=?",
        "period_end",
        has_from,
        has_to,
        has_limit,
    )
}

/// The query for a company's daily prices in an optional date range.
pub fn prices_range_sql(has_from: bool, has_to: bool, has_limit: bool) -> (r: String)
    ensures
        r@ == range_sql(
            "SELECT company_id,date,open,high,low,close,volume,source FROM prices WHERE company_id=?"@,
            "date"@,
            has_from,
            has_to,
            has_limit,
        ),
{
    range_query(
        "SELECT company_id,date,open,high,low,close,volume,source FROM prices WHERE company_id=?",
        "date",
        has_from,
        has_to,
        has_limit,
    )
}

/// Whether `c` has a special meaning in a `LIKE` pattern (or escapes one).
pub open spec fn like_special(c: char) -> bool {
    c == '\\' || c == '%' || c == '_'
}

/// `s` with each `LIKE` metacharacter preceded by a backslash.
pub open spec fn like_escaped(s: Seq<char>) -> Seq<char>
    decreases s.len(),
{
    if s.len() == 0 {
        Seq::empty()
    } else {
        like_escaped(s.drop_last()) + if like_special(s.last()) {
            seq!['\\', s.last()]
        } else {
            seq![s.last()]
        }
    }
}

/// The `LIKE` pattern a directory search text gives: the trimmed text with
/// its metacharacters escaped, wrapped in `%` on both sides (a substring
/// match).
pub open spec fn search_pattern(q: Seq<char>) -> Seq<char> {
    seq!['%'] + like_escaped(trimmed(q)) + seq!['%']
}

/// The `LIKE` pattern for a directory search.
pub fn like_pattern(q: &str) -> (r: String)
    ensures
        r@ == search_pattern(q@),
{
    let t = trim(q);
    let cs = chars_of(t);
    let mut out: Vec<char> = Vec::new();
    out.push('%');
    let mut i: usize = 0;
    while i < cs.len()
        invariant
            cs@ == t@,
            i <= cs@.len(),
            out@ == seq!['%'] + like_escaped(cs@.subrange(0, i as int)),
        decreases cs.len() - i,
    {
        let c = cs[i];
        assert(cs@.subrange(0, i + 1).drop_last() =~= cs@.subrange(0, i as int));
        if c == '\\' || c == '%' || c == '_' {
            out.push('\\');
        }
        out.push(c);
        assert(out@ =~= seq!['%'] + like_escaped(cs@.subrange(0, i + 1)));
        i = i + 1;
    }
    assert(cs@.subrange(0, cs@.len() as int) =~= cs@);
    out.push('%');
    string_of(&out)
}

/// The company-list WHERE clause: a ticker-or-name match when searching.
pub open spec fn companies_where(searching: bool) -> Seq<char> {
    if searching {
        " WHERE c.ticker LIKE ? ESCAPE '\\' OR c.name LIKE ? ESCAPE '\\'"@
    } else {
        Seq::empty()
    }
}

fn companies_where_clause(searching: bool) -> (r: &'static str)
    ensures
        r@ == companies_where(searching),
{
    proof {
        reveal_strlit("");
    }
    if searching {
        " WHERE c.ticker LIKE ? ESCAPE '\\' OR c.name LIKE ? ESCAPE '\\'"
    } else {
        ""
    }
}

/// The company list's count query and page query: the page joins each
/// company's Graham score, is ordered by `order_by`, and takes the search
/// pattern twice (when searching), then limit and offset.
pub fn companies_sql(searching: bool, order_by: &str) -> (r: (String, String))
    ensures
        r.0@ == "SELECT COUNT(*) FROM companies c"@ + companies_where(searching),
        r.1@ == "SELECT "@ + SELECT_COMPANY_COLS@ + ", "@ + SELECT_GRAHAM_COLS@
            + " FROM companies c LEFT JOIN graham_scores g ON g.company_id = c.id"@ + companies_where(
            searching,
        ) + " ORDER BY "@ + order_by@ + " LIMIT ? OFFSET ?"@,
{
    let w = companies_where_clause(searching);
    let count = cat2("SELECT COUNT(*) FROM companies c", w);
    let mut page = owned("SELECT ");
    page.append(SELECT_COMPANY_COLS);
    page.append(", ");
    page.append(SELECT_GRAHAM_COLS);
    page.append(" FROM companies c LEFT JOIN graham_scores g ON g.company_id = c.id");
    page.append(w);
    page.append(" ORDER BY ");
    page.append(order_by);
    page.append(" LIMIT ? OFFSET ?");
    (count, page)
}

/// A screener bound on a ratio, bound into the query as a parameter.
#[derive(Debug, Clone, Copy, PartialEq, Eq)]
pub enum RatioBound {
    MinPe,
    MaxPe,
    MinRoe,
    MaxDe,
    MinMargin,
}

/// A parameter of the screener query, in bind order.
#[derive(Debug, Clone, Copy, PartialEq, Eq)]
pub enum ScreenBind {
    MinScore,
    Sector,
    Ratio(RatioBound),
}

/// The join that brings in the latest annual value of `metric` as
/// `r_<metric>.val`.
pub open spec fn ratio_join(metric: Seq<char>) -> Seq<char> {
    let alias = "r_"@ + metric;
    " LEFT JOIN (SELECT r1.company_id, r1.value AS val FROM ratios r1 WHERE r1.metric='"@ + metric
        + "' AND r1.period_type='annual' AND r1.period_end = (SELECT MAX(r2.period_end) FROM ratios r2 WHERE r2.company_id=r1.company_id AND r2.metric='"@
        + metric + "' AND r2.period_type='annual')) "@ + alias + " ON "@ + alias + ".company_id=c.id"@
}

/// The (joins, conditions, binds) after filtering on `metric` between the
/// given bounds; nothing is added without a bound.
pub open spec fn ratio_step(
    acc: (Seq<char>, Seq<char>, Seq<RatioBound>),
    metric: Seq<char>,
    min: Option<RatioBound>,
    max: Option<RatioBound>,
) -> (Seq<char>, Seq<char>, Seq<RatioBound>) {
    if min is None && max is None {
        acc
    } else {
        (
            acc.0 + ratio_join(metric),
            acc.1 + (match min {
                Some(_) => " AND "@ + "r_"@ + metric + ".val >= ?"@,
                None => Seq::empty(),
            }) + (match max {
                Some(_) => " AND "@ + "r_"@ + metric + ".val <= ?"@,
                None => Seq::empty(),
            }),
            acc.2 + (match min {
                Some(b) => seq![b],
                None => Seq::empty(),
            }) + (match max {
                Some(b) => seq![b],
                None => Seq::empty(),
            }),
        )
    }
}

/// Builds the dynamic JOIN + WHERE fragments for ratio-based screener filters.
#[derive(Debug, Clone)]
pub struct ScreenQueryBuilder {
    pub extra_joins: String,
    pub extra_conditions: String,
    pub binds: Vec<RatioBound>,
}

impl ScreenQueryBuilder {
    /// A builder with no ratio filter.
    pub fn new() -> (r: Self)
        ensures
            r.extra_joins@ == Seq::<char>::empty(),
            r.extra_conditions@ == Seq::<char>::empty(),
            r.binds@ == Seq::<RatioBound>::empty(),
    {
        ScreenQueryBuilder { extra_joins: String::new(), extra_conditions: String::new(), binds: Vec::new() }
    }

    /// Add a LEFT JOIN + WHERE condition for the latest annual value of
    /// `metric`. Only adds SQL if at least one bound is given.
    pub fn add_ratio_filter(&mut self, metric: &str, min: Option<RatioBound>, max: Option<RatioBound>)
        ensures
            (final(self).extra_joins@, final(self).extra_conditions@, final(self).binds@) == ratio_step(
                (old(self).extra_joins@, old(self).extra_conditions@, old(self).binds@),
                metric@,
                min,
                max,
            ),
    {
        if min.is_none() && max.is_none() {
            return;
        }
        let ghost j0 = self.extra_joins@;
        let ghost c0 = self.extra_conditions@;
        let ghost b0 = self.binds@;
        let alias = cat2("r_", metric);
        self.extra_joins.append(" LEFT JOIN (SELECT r1.company_id, r1.value AS val FROM ratios r1 WHERE r1.metric='");
        self.extra_joins.append(metric);
        self.extra_joins.append("' AND r1.period_type='annual' AND r1.period_end = (SELECT MAX(r2.period_end) FROM ratios r2 WHERE r2.company_id=r1.company_id AND r2.metric='");
        self.extra_joins.append(metric);
        self.extra_joins.append("' AND r2.period_type='annual')) ");
        self.extra_joins.append(alias.as_str());
        self.extra_joins.append(" ON ");
        self.extra_joins.append(alias.as_str());
        self.extra_joins.append(".company_id=c.id");
        assert(self.extra_joins@ =~= j0 + ratio_join(metric@));
        if let Some(b) = min {
            self.extra_conditions.append(" AND ");
            self.extra_conditions.append(alias.as_str());
            self.extra_conditions.append(".val >= ?");
            self.binds.push(b);
        }
        let ghost c1 = self.extra_conditions@;
        let ghost b1 = self.binds@;
        if let Some(b) = max {
            self.extra_conditions.append(" AND ");
            self.extra_conditions.append(alias.as_str());
            self.extra_conditions.append(".val <= ?");
            self.binds.push(b);
        }
        assert(c1 =~= c0 + (match min {
            Some(_) => " AND "@ + "r_"@ + metric@ + ".val >= ?"@,
            None => Seq::empty(),
        }));
        assert(self.extra_conditions@ =~= c1 + (match max {
            Some(_) => " AND "@ + "r_"@ + metric@ + ".val <= ?"@,
            None => Seq::empty(),
        }));
        assert(b1 =~= b0 + (match min {
            Some(b) => seq![b],
            None => Seq::empty(),
        }));
        assert(self.binds@ =~= b1 + (match max {
            Some(b) => seq![b],
            None => Seq::empty(),
        }));
    }
}

/// Which screener filters a request sets (the bound values themselves are
/// bound as parameters).
#[derive(Debug, Clone, Copy, PartialEq, Eq)]
pub struct ScreenShape {
    pub defensive_only: bool,
    pub net_net_only: bool,
    pub has_sector: bool,
    pub min_pe: bool,
    pub max_pe: bool,
    pub min_roe: bool,
    pub max_de: bool,
    pub min_margin: bool,
}

/// A bound when its filter is set.
pub open spec fn bound_if(set: bool, b: RatioBound) -> Option<RatioBound> {
    if set {
        Some(b)
    } else {
        None
    }
}

/// The ratio joins, conditions and binds of a screener request: P/E between
/// its bounds, ROE above, debt/equity below, net margin above.
pub open spec fn screen_ratio_parts(f: ScreenShape) -> (Seq<char>, Seq<char>, Seq<RatioBound>) {
    let s0 = (Seq::<char>::empty(), Seq::<char>::empty(), Seq::<RatioBound>::empty());
    let s1 = ratio_step(s0, "pe"@, bound_if(f.min_pe, RatioBound::MinPe), bound_if(f.max_pe, RatioBound::MaxPe));
    let s2 = ratio_step(s1, "roe"@, bound_if(f.min_roe, RatioBound::MinRoe), None);
    let s3 = ratio_step(s2, "debt_to_equity"@, None, bound_if(f.max_de, RatioBound::MaxDe));
    ratio_step(s3, "net_margin"@, bound_if(f.min_margin, RatioBound::MinMargin), None)
}

/// The screener's WHERE clause before the ratio conditions.
pub open spec fn screen_where(f: ScreenShape) -> Seq<char> {
    " WHERE g.score >= ?"@ + (if f.defensive_only {
        " AND g.passes_defensive = 1"@
    } else {
        Seq::empty()
    }) + (if f.net_net_only {
        " AND g.net_net = 1"@
    } else {
        Seq::empty()
    }) + (if f.has_sector {
        " AND c.sector = ?"@
    } else {
        Seq::empty()
    })
}

/// The screener's FROM ... WHERE ... text shared by its count and page
/// queries.
pub open spec fn screen_from(f: ScreenShape) -> Seq<char> {
    let parts = screen_ratio_parts(f);
    " FROM graham_scores g JOIN companies c ON c.id = g.company_id"@ + parts.0 + screen_where(f) + parts.1
}

/// The screener's parameters in bind order (limit and offset follow on the
/// page query): the minimum score, the sector when filtered, then the ratio
/// bounds.
pub open spec fn screen_binds(f: ScreenShape) -> Seq<ScreenBind> {
    seq![ScreenBind::MinScore] + (if f.has_sector {
        seq![ScreenBind::Sector]
    } else {
        Seq::empty()
    }) + screen_ratio_parts(f).2.map_values(|x: RatioBound| ScreenBind::Ratio(x))
}

/// The screener's ratio parts spelled out filter by filter: a join for each
/// metric that has a bound, then `r_<metric>.val >= ?` for each lower bound
/// and `<= ?` for each upper bound, and their bounds in the same order.
proof fn lemma_screen_ratio_parts(f: ScreenShape)
    ensures
        screen_ratio_parts(f).0 == (if f.min_pe || f.max_pe { ratio_join("pe"@) } else { Seq::<char>::empty() })
            + (if f.min_roe { ratio_join("roe"@) } else { Seq::<char>::empty() })
            + (if f.max_de { ratio_join("debt_to_equity"@) } else { Seq::<char>::empty() })
            + (if f.min_margin { ratio_join("net_margin"@) } else { Seq::<char>::empty() }),
        screen_ratio_parts(f).1 == (if f.min_pe { " AND r_pe.val >= ?"@ } else { Seq::<char>::empty() })
            + (if f.max_pe { " AND r_pe.val <= ?"@ } else { Seq::<char>::empty() })
            + (if f.min_roe { " AND r_roe.val >= ?"@ } else { Seq::<char>::empty() })
            + (if f.max_de { " AND r_debt_to_equity.val <= ?"@ } else { Seq::<char>::empty() })
            + (if f.min_margin { " AND r_net_margin.val >= ?"@ } else { Seq::<char>::empty() }),
        screen_ratio_parts(f).2 == (if f.min_pe { seq![RatioBound::MinPe] } else { Seq::<RatioBound>::empty() })
            + (if f.max_pe { seq![RatioBound::MaxPe] } else { Seq::<RatioBound>::empty() })
            + (if f.min_roe { seq![RatioBound::MinRoe] } else { Seq::<RatioBound>::empty() })
            + (if f.max_de { seq![RatioBound::MaxDe] } else { Seq::<RatioBound>::empty() })
            + (if f.min_margin { seq![RatioBound::MinMargin] } else { Seq::<RatioBound>::empty() }),
{
    reveal_strlit(" AND ");
    reveal_strlit("r_");
    reveal_strlit(".val >= ?");
    reveal_strlit(".val <= ?");
    reveal_strlit("pe");
    reveal_strlit("roe");
    reveal_strlit("debt_to_equity");
    reveal_strlit("net_margin");
    reveal_strlit(" AND r_pe.val >= ?");
    reveal_strlit(" AND r_pe.val <= ?");
    reveal_strlit(" AND r_roe.val >= ?");
    reveal_strlit(" AND r_debt_to_equity.val <= ?");
    reveal_strlit(" AND r_net_margin.val >= ?");
    assert(" AND "@ + "r_"@ + "pe"@ + ".val >= ?"@ =~= " AND r_pe.val >= ?"@);
    assert(" AND "@ + "r_"@ + "pe"@ + ".val <= ?"@ =~= " AND r_pe.val <= ?"@);
    assert(" AND "@ + "r_"@ + "roe"@ + ".val >= ?"@ =~= " AND r_roe.val >= ?"@);
    assert(" AND "@ + "r_"@ + "debt_to_equity"@ + ".val <= ?"@ =~= " AND r_debt_to_equity.val <= ?"@);
    assert(" AND "@ + "r_"@ + "net_margin"@ + ".val >= ?"@ =~= " AND r_net_margin.val >= ?"@);
    let s0 = (Seq::<char>::empty(), Seq::<char>::empty(), Seq::<RatioBound>::empty());
    let s1 = ratio_step(s0, "pe"@, bound_if(f.min_pe, RatioBound::MinPe), bound_if(f.max_pe, RatioBound::MaxPe));
    let s2 = ratio_step(s1, "roe"@, bound_if(f.min_roe, RatioBound::MinRoe), None);
    let s3 = ratio_step(s2, "debt_to_equity"@, None, bound_if(f.max_de, RatioBound::MaxDe));
    let s4 = ratio_step(s3, "net_margin"@, bound_if(f.min_margin, RatioBound::MinMargin), None);
    assert(s1.0 =~= (if f.min_pe || f.max_pe { ratio_join("pe"@) } else { Seq::<char>::empty() }));
    assert(s1.1 =~= (if f.min_pe { " AND r_pe.val >= ?"@ } else { Seq::<char>::empty() }) + (if f.max_pe { " AND r_pe.val <= ?"@ } else { Seq::<char>::empty() }));
    assert(s1.2 =~= (if f.min_pe { seq![RatioBound::MinPe] } else { Seq::<RatioBound>::empty() }) + (if f.max_pe { seq![RatioBound::MaxPe] } else { Seq::<RatioBound>::empty() }));
    assert(s2.0 =~= s1.0 + (if f.min_roe { ratio_join("roe"@) } else { Seq::<char>::empty() }));
    assert(s2.1 =~= s1.1 + (if f.min_roe { " AND r_roe.val >= ?"@ } else { Seq::<char>::empty() }));
    assert(s2.2 =~= s1.2 + (if f.min_roe { seq![RatioBound::MinRoe] } else { Seq::<RatioBound>::empty() }));
    assert(s3.0 =~= s2.0 + (if f.max_de { ratio_join("debt_to_equity"@) } else { Seq::<char>::empty() }));
    assert(s3.1 =~= s2.1 + (if f.max_de { " AND r_debt_to_equity.val <= ?"@ } else { Seq::<char>::empty() }));
    assert(s3.2 =~= s2.2 + (if f.max_de { seq![RatioBound::MaxDe] } else { Seq::<RatioBound>::empty() }));
    assert(s4.0 =~= s3.0 + (if f.min_margin { ratio_join("net_margin"@) } else { Seq::<char>::empty() }));
    assert(s4.1 =~= s3.1 + (if f.min_margin { " AND r_net_margin.val >= ?"@ } else { Seq::<char>::empty() }));
    assert(s4.2 =~= s3.2 + (if f.min_margin { seq![RatioBound::MinMargin] } else { Seq::<RatioBound>::empty() }));
    assert(s4.0 =~= (if f.min_pe || f.max_pe { ratio_join("pe"@) } else { Seq::<char>::empty() }) + (if f.min_roe { ratio_join("roe"@) } else { Seq::<char>::empty() }) + (if f.max_de { ratio_join("debt_to_equity"@) } else { Seq::<char>::empty() }) + (if f.min_margin { ratio_join("net_margin"@) } else { Seq::<char>::empty() }));
    assert(s4.1 =~= (if f.min_pe { " AND r_pe.val >= ?"@ } else { Seq::<char>::empty() }) + (if f.max_pe { " AND r_pe.val <= ?"@ } else { Seq::<char>::empty() }) + (if f.min_roe { " AND r_roe.val >= ?"@ } else { Seq::<char>::empty() }) + (if f.max_de { " AND r_debt_to_equity.val <= ?"@ } else { Seq::<char>::empty() }) + (if f.min_margin { " AND r_net_margin.val >= ?"@ } else { Seq::<char>::empty() }));
    assert(s4.2 =~= (if f.min_pe { seq![RatioBound::MinPe] } else { Seq::<RatioBound>::empty() }) + (if f.max_pe { seq![RatioBound::MaxPe] } else { Seq::<RatioBound>::empty() }) + (if f.min_roe { seq![RatioBound::MinRoe] } else { Seq::<RatioBound>::empty() }) + (if f.max_de { seq![RatioBound::MaxDe] } else { Seq::<RatioBound>::empty() }) + (if f.min_margin { seq![RatioBound::MinMargin] } else { Seq::<RatioBound>::empty() }));
}

proof fn lemma_bound_binds_concat(a: Seq<RatioBound>, b: Seq<RatioBound>)
    ensures
        (a + b).map_values(|x: RatioBound| ScreenBind::Ratio(x)) == a.map_values(|x: RatioBound| ScreenBind::Ratio(x))
            + b.map_values(|x: RatioBound| ScreenBind::Ratio(x)),
{
    assert((a + b).map_values(|x: RatioBound| ScreenBind::Ratio(x)) =~= a.map_values(|x: RatioBound| ScreenBind::Ratio(x))
        + b.map_values(|x: RatioBound| ScreenBind::Ratio(x)));
}

proof fn lemma_bound_binds(a: Seq<RatioBound>)
    requires
        a.len() <= 1,
    ensures
        a.map_values(|x: RatioBound| ScreenBind::Ratio(x)) == (if a.len() == 1 {
            seq![ScreenBind::Ratio(a[0])]
        } else {
            Seq::<ScreenBind>::empty()
        }),
{
    assert(a.map_values(|x: RatioBound| ScreenBind::Ratio(x)) =~= (if a.len() == 1 {
        seq![ScreenBind::Ratio(a[0])]
    } else {
        Seq::<ScreenBind>::empty()
    }));
}

/// The screener's ratio bounds, bound by bound.
proof fn lemma_screen_binds(f: ScreenShape)
    ensures
        screen_binds(f) == seq![ScreenBind::MinScore] + (if f.has_sector { seq![ScreenBind::Sector] } else { Seq::<ScreenBind>::empty() })
            + (
                (if f.min_pe { seq![ScreenBind::Ratio(RatioBound::MinPe)] } else { Seq::<ScreenBind>::empty() })
                + (if f.max_pe { seq![ScreenBind::Ratio(RatioBound::MaxPe)] } else { Seq::<ScreenBind>::empty() })
                + (if f.min_roe { seq![ScreenBind::Ratio(RatioBound::MinRoe)] } else { Seq::<ScreenBind>::empty() })
                + (if f.max_de { seq![ScreenBind::Ratio(RatioBound::MaxDe)] } else { Seq::<ScreenBind>::empty() })
                + (if f.min_margin { seq![ScreenBind::Ratio(RatioBound::MinMargin)] } else { Seq::<ScreenBind>::empty() })
            ),
{
    lemma_screen_ratio_parts(f);
    let parts = screen_ratio_parts(f);
    let b0 = (if f.min_pe { seq![RatioBound::MinPe] } else { Seq::<RatioBound>::empty() });
    lemma_bound_binds(b0);
    let b1 = (if f.max_pe { seq![RatioBound::MaxPe] } else { Seq::<RatioBound>::empty() });
    lemma_bound_binds(b1);
    let b2 = (if f.min_roe { seq![RatioBound::MinRoe] } else { Seq::<RatioBound>::empty() });
    lemma_bound_binds(b2);
    let b3 = (if f.max_de { seq![RatioBound::MaxDe] } else { Seq::<RatioBound>::empty() });
    lemma_bound_binds(b3);
    let b4 = (if f.min_margin { seq![RatioBound::MinMargin] } else { Seq::<RatioBound>::empty() });
    lemma_bound_binds(b4);
    assert(parts.2 == b0 + b1 + b2 + b3 + b4);
    lemma_bound_binds_concat(b0, b1);
    lemma_bound_binds_concat(b0 + b1, b2);
    lemma_bound_binds_concat(b0 + b1 + b2, b3);
    lemma_bound_binds_concat(b0 + b1 + b2 + b3, b4);
}

/// The screener's count query text and bind order, spelled out filter by filter.
proof fn lemma_screen_text(f: ScreenShape)
    ensures
        "SELECT COUNT(*)"@ + screen_from(f) == "SELECT COUNT(*) FROM graham_scores g"@ + " JOIN companies c ON c.id = g.company_id"@
            + (
                (if f.min_pe || f.max_pe { ratio_join("pe"@) } else { Seq::<char>::empty() })
                + (if f.min_roe { ratio_join("roe"@) } else { Seq::<char>::empty() })
                + (if f.max_de { ratio_join("debt_to_equity"@) } else { Seq::<char>::empty() })
                + (if f.min_margin { ratio_join("net_margin"@) } else { Seq::<char>::empty() })
            )
            + (
                " WHERE g."@ + "score"@ + " >= ?"@
                + (if f.defensive_only { " AND g."@ + "passes_defensive"@ + " = 1"@ } else { Seq::<char>::empty() })
                + (if f.net_net_only { " AND g."@ + "net_net"@ + " = 1"@ } else { Seq::<char>::empty() })
                + (if f.has_sector { " AND c."@ + "sector"@ + " = ?"@ } else { Seq::<char>::empty() })
            )
            + (
                (if f.min_pe { " AND r_pe.val >= ?"@ } else { Seq::<char>::empty() })
                + (if f.max_pe { " AND r_pe.val <= ?"@ } else { Seq::<char>::empty() })
                + (if f.min_roe { " AND r_roe.val >= ?"@ } else { Seq::<char>::empty() })
                + (if f.max_de { " AND r_debt_to_equity.val <= ?"@ } else { Seq::<char>::empty() })
                + (if f.min_margin { " AND r_net_margin.val >= ?"@ } else { Seq::<char>::empty() })
            ),
        screen_binds(f) == seq![ScreenBind::MinScore] + (if f.has_sector { seq![ScreenBind::Sector] } else { Seq::<ScreenBind>::empty() })
            + (
                (if f.min_pe { seq![ScreenBind::Ratio(RatioBound::MinPe)] } else { Seq::<ScreenBind>::empty() })
                + (if f.max_pe { seq![ScreenBind::Ratio(RatioBound::MaxPe)] } else { Seq::<ScreenBind>::empty() })
                + (if f.min_roe { seq![ScreenBind::Ratio(RatioBound::MinRoe)] } else { Seq::<ScreenBind>::empty() })
                + (if f.max_de { seq![ScreenBind::Ratio(RatioBound::MaxDe)] } else { Seq::<ScreenBind>::empty() })
                + (if f.min_margin { seq![ScreenBind::Ratio(RatioBound::MinMargin)] } else { Seq::<ScreenBind>::empty() })
            ),
{
    lemma_screen_ratio_parts(f);
    let parts = screen_ratio_parts(f);
    let head = "SELECT COUNT(*)"@;
    let from = " FROM graham_scores g JOIN companies c ON c.id = g.company_id"@;
    lemma_concat_associative(head, from + parts.0 + screen_where(f), parts.1);
    lemma_concat_associative(head, from + parts.0, screen_where(f));
    lemma_concat_associative(head, from, parts.0);
    reveal_strlit("SELECT COUNT(*)");
    reveal_strlit(" FROM graham_scores g JOIN companies c ON c.id = g.company_id");
    reveal_strlit("SELECT COUNT(*) FROM graham_scores g");
    reveal_strlit(" JOIN companies c ON c.id = g.company_id");
    reveal_strlit(" WHERE g.score >= ?");
    reveal_strlit(" WHERE g.");
    reveal_strlit("score");
    reveal_strlit(" >= ?");
    reveal_strlit(" AND g.passes_defensive = 1");
    reveal_strlit(" AND g.net_net = 1");
    reveal_strlit(" AND g.");
    reveal_strlit("passes_defensive");
    reveal_strlit("net_net");
    reveal_strlit(" = 1");
    reveal_strlit(" AND c.sector = ?");
    reveal_strlit(" AND c.");
    reveal_strlit("sector");
    reveal_strlit(" = ?");
    assert(head + from =~= "SELECT COUNT(*) FROM graham_scores g"@ + " JOIN companies c ON c.id = g.company_id"@);
    assert(" WHERE g.score >= ?"@ =~= " WHERE g."@ + "score"@ + " >= ?"@);
    assert(" AND g.passes_defensive = 1"@ =~= " AND g."@ + "passes_defensive"@ + " = 1"@);
    assert(" AND g.net_net = 1"@ =~= " AND g."@ + "net_net"@ + " = 1"@);
    assert(" AND c.sector = ?"@ =~= " AND c."@ + "sector"@ + " = ?"@);
    lemma_screen_binds(f);
}

/// The screener's count query, page query and parameter order.
#[derive(Debug, Clone)]
pub struct ScreenSql {
    pub count: String,
    pub page: String,
    pub binds: Vec<ScreenBind>,
}

/// Assemble the screener queries for a request of shape `f`, ordered by
/// `order_by` (a whitelisted clause from [`screen_sort_expr`]).
#[verifier::rlimit(50)]
pub fn screen_sql(f: ScreenShape, order_by: &str) -> (r: ScreenSql)
    ensures
        r.count@ == "SELECT COUNT(*)"@ + screen_from(f),
        r.page@ == "SELECT "@ + SELECT_COMPANY_COLS@ + ", "@ + SELECT_GRAHAM_COLS@ + screen_from(f)
            + " ORDER BY "@ + order_by@ + " LIMIT ? OFFSET ?"@,
        r.binds@ == screen_binds(f),
        r.count@ == "SELECT COUNT(*) FROM graham_scores g"@ + " JOIN companies c ON c.id = g.company_id"@
            + (
                (if f.min_pe || f.max_pe { ratio_join("pe"@) } else { Seq::<char>::empty() })
                + (if f.min_roe { ratio_join("roe"@) } else { Seq::<char>::empty() })
                + (if f.max_de { ratio_join("debt_to_equity"@) } else { Seq::<char>::empty() })
                + (if f.min_margin { ratio_join("net_margin"@) } else { Seq::<char>::empty() })
            )
            + (
                " WHERE g."@ + "score"@ + " >= ?"@
                + (if f.defensive_only { " AND g."@ + "passes_defensive"@ + " = 1"@ } else { Seq::<char>::empty() })
                + (if f.net_net_only { " AND g."@ + "net_net"@ + " = 1"@ } else { Seq::<char>::empty() })
                + (if f.has_sector { " AND c."@ + "sector"@ + " = ?"@ } else { Seq::<char>::empty() })
            )
            + (
                (if f.min_pe { " AND r_pe.val >= ?"@ } else { Seq::<char>::empty() })
                + (if f.max_pe { " AND r_pe.val <= ?"@ } else { Seq::<char>::empty() })
                + (if f.min_roe { " AND r_roe.val >= ?"@ } else { Seq::<char>::empty() })
                + (if f.max_de { " AND r_debt_to_equity.val <= ?"@ } else { Seq::<char>::empty() })
                + (if f.min_margin { " AND r_net_margin.val >= ?"@ } else { Seq::<char>::empty() })
            ),
        r.binds@ == seq![ScreenBind::MinScore] + (if f.has_sector { seq![ScreenBind::Sector] } else { Seq::<ScreenBind>::empty() })
            + (
                (if f.min_pe { seq![ScreenBind::Ratio(RatioBound::MinPe)] } else { Seq::<ScreenBind>::empty() })
                + (if f.max_pe { seq![ScreenBind::Ratio(RatioBound::MaxPe)] } else { Seq::<ScreenBind>::empty() })
                + (if f.min_roe { seq![ScreenBind::Ratio(RatioBound::MinRoe)] } else { Seq::<ScreenBind>::empty() })
                + (if f.max_de { seq![ScreenBind::Ratio(RatioBound::MaxDe)] } else { Seq::<ScreenBind>::empty() })
                + (if f.min_margin { seq![ScreenBind::Ratio(RatioBound::MinMargin)] } else { Seq::<ScreenBind>::empty() })
            ),
{
    let mut q = ScreenQueryBuilder::new();
    q.add_ratio_filter(
        "pe",
        if f.min_pe {
            Some(RatioBound::MinPe)
        } else {
            None
        },
        if f.max_pe {
            Some(RatioBound::MaxPe)
        } else {
            None
        },
    );
    q.add_ratio_filter(
        "roe",
        if f.min_roe {
            Some(RatioBound::MinRoe)
        } else {
            None
        },
        None,
    );
    q.add_ratio_filter(
        "debt_to_equity",
        None,
        if f.max_de {
            Some(RatioBound::MaxDe)
        } else {
            None
        },
    );
    q.add_ratio_filter(
        "net_margin",
        if f.min_margin {
            Some(RatioBound::MinMargin)
        } else {
            None
        },
        None,
    );
    assert((q.extra_joins@, q.extra_conditions@, q.binds@) == screen_ratio_parts(f));
    let mut where_clause = owned(" WHERE g.score >= ?");
    if f.defensive_only {
        where_clause.append(" AND g.passes_defensive = 1");
    }
    if f.net_net_only {
        where_clause.append(" AND g.net_net = 1");
    }
    if f.has_sector {
        where_clause.append(" AND c.sector = ?");
    }
    let mut from = owned(" FROM graham_scores g JOIN companies c ON c.id = g.company_id");
    from.append(q.extra_joins.as_str());
    from.append(where_clause.as_str());
    from.append(q.extra_conditions.as_str());
    proof {
        let w = screen_where(f);
        assert(where_clause@ =~= w);
        assert(from@ =~= screen_from(f));
    }
    let count = cat2("SELECT COUNT(*)", from.as_str());
    let mut page = owned("SELECT ");
    page.append(SELECT_COMPANY_COLS);
    page.append(", ");
    page.append(SELECT_GRAHAM_COLS);
    page.append(from.as_str());
    page.append(" ORDER BY ");
    page.append(order_by);
    page.append(" LIMIT ? OFFSET ?");
    let mut binds: Vec<ScreenBind> = Vec::new();
    binds.push(ScreenBind::MinScore);
    if f.has_sector {
        binds.push(ScreenBind::Sector);
    }
    let ghost head = binds@;
    let mut i: usize = 0;
    while i < q.binds.len()
        invariant
            i <= q.binds@.len(),
            binds@ == head + q.binds@.subrange(0, i as int).map_values(|b: RatioBound| ScreenBind::Ratio(b)),
        decreases q.binds.len() - i,
    {
        binds.push(ScreenBind::Ratio(q.binds[i]));
        assert(q.binds@.subrange(0, i + 1).map_values(|b: RatioBound| ScreenBind::Ratio(b)) =~= q.binds@.subrange(
            0,
            i as int,
        ).map_values(|b: RatioBound| ScreenBind::Ratio(b)).push(ScreenBind::Ratio(q.binds@[i as int])));
        i = i + 1;
    }
    assert(q.binds@.subrange(0, q.binds@.len() as int) =~= q.binds@);
    assert(binds@ =~= screen_binds(f));
    proof {
        lemma_screen_text(f);
    }
    ScreenSql { count, page, binds }
}

} // verus!
