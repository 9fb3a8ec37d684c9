//! HTML scrape fallback: the financials-table row vocabulary and page URL.

use vstd::prelude::*;
use vstd::seq_lib::lemma_seq_contains_after_push;

use crate::collectors::{year_start_day, CHRONO_FIRST_YEAR, CHRONO_LAST_YEAR};
use crate::domain::StatementKind;
use crate::domain::opt_view;
use crate::text::{cat3, i32_text, owned, parse_i32, remove_char, str_eq, trim, trimmed, without_char};

verus! {

/// Source label stamped on scraped rows.
pub const SOURCE: &'static str = "scrape";

/// Scrapes a financials page (e.g. stockanalysis.com) as a fallback source.
pub struct ScrapeCollector<H> {
    pub http: H,
}

/// The (statement, normalized line item) a financials-table row label maps to.
pub open spec fn scrape_metric(label: Seq<char>) -> Option<(StatementKind, Seq<char>)> {
    if label == "Revenue"@ {
        Some((StatementKind::Income, "Revenue"@))
    } else if label == "Net Income"@ {
        Some((StatementKind::Income, "NetIncome"@))
    } else if label == "Total Assets"@ {
        Some((StatementKind::Balance, "TotalAssets"@))
    } else if label == "Operating Cash Flow"@ {
        Some((StatementKind::CashFlow, "OperatingCashFlow"@))
    } else {
        None
    }
}

/// Row label -> (statement, normalized line item); `None` when unmapped.
pub fn lookup(metric: &str) -> (r: Option<(StatementKind, &'static str)>)
    ensures
        match r {
            Some((k, item)) => scrape_metric(metric@) == Some((k, item@)),
            None => scrape_metric(metric@) is None,
        },
        metric@ == "Revenue"@ ==> (r is Some && r.unwrap().0 == StatementKind::Income && r.unwrap().1@ == "Revenue"@),
        metric@ == "Net Income"@ ==> (r is Some && r.unwrap().0 == StatementKind::Income && r.unwrap().1@
            == "NetIncome"@),
        metric@ == "Total Assets"@ ==> (r is Some && r.unwrap().0 == StatementKind::Balance && r.unwrap().1@
            == "TotalAssets"@),
        metric@ == "Operating Cash Flow"@ ==> (r is Some && r.unwrap().0 == StatementKind::CashFlow
            && r.unwrap().1@ == "OperatingCashFlow"@),
        (metric@ != "Revenue"@ && metric@ != "Net Income"@ && metric@ != "Total Assets"@ && metric@
            != "Operating Cash Flow"@) ==> r is None,
{
    proof {
        reveal_strlit("Revenue");
        reveal_strlit("Net Income");
        reveal_strlit("Total Assets");
        reveal_strlit("Operating Cash Flow");
        assert("Revenue"@[0] == 'R' && "Net Income"@[0] == 'N' && "Total Assets"@[0] == 'T');
        assert("Operating Cash Flow"@[0] == 'O');
    }
    if str_eq(metric, "Revenue") {
        Some((StatementKind::Income, "Revenue"))
    } else if str_eq(metric, "Net Income") {
        Some((StatementKind::Income, "NetIncome"))
    } else if str_eq(metric, "Total Assets") {
        Some((StatementKind::Balance, "TotalAssets"))
    } else if str_eq(metric, "Operating Cash Flow") {
        Some((StatementKind::CashFlow, "OperatingCashFlow"))
    } else {
        None
    }
}

impl<H> ScrapeCollector<H> {
    /// The name this source reports facts under.
    pub fn name(&self) -> (r: &'static str)
        ensures
            r@ == SOURCE@,
    {
        SOURCE
    }

    pub fn new(http: H) -> (r: Self)
        ensures
            r.http == http,
    {
        ScrapeCollector { http }
    }

    pub fn financials_url(symbol: &str) -> (r: String)
        ensures
            r@ == "https://stockanalysis.com/stocks/"@ + symbol@ + "/financials/"@,
    {
        cat3("https://stockanalysis.com/stocks/", symbol, "/financials/")
    }
}

/// One row of a financials table as `scraper` reads it: the row's
/// `data-year` attribute, and the text of its first `td.metric` and first
/// `td.value` cells.
#[derive(Debug, Clone, PartialEq, Eq)]
pub struct ScrapedRow {
    pub year: Option<String>,
    pub metric: Option<String>,
    pub value: Option<String>,
}

/// The abstract value of a scraped row.
pub open spec fn scraped_row_view(r: ScrapedRow) -> (Option<Seq<char>>, Option<Seq<char>>, Option<Seq<char>>) {
    (opt_view(r.year), opt_view(r.metric), opt_view(r.value))
}

/// The rows `scraper` selects from `html` with the row selector, and for
/// each its `year_attr` attribute and the text of the first cell each cell
/// selector matches in it (document order); `None` when a selector does not
/// parse.
pub uninterp spec fn scraped_rows(
    html: Seq<char>,
    row_sel: Seq<char>,
    year_attr: Seq<char>,
    metric_sel: Seq<char>,
    value_sel: Seq<char>,
) -> Option<Seq<(Option<Seq<char>>, Option<Seq<char>>, Option<Seq<char>>)>>;

/// Calls `scraper::Html::parse_document` and `scraper::Selector::parse`, and
/// copies out, for each row the row selector matches, its `year_attr`
/// attribute and the text of the first cell each cell selector matches in it.
#[verifier::external_body]
fn select_rows(html: &str, row_sel: &str, year_attr: &str, metric_sel: &str, value_sel: &str) -> (r: Option<Vec<ScrapedRow>>)
    ensures
        match r {
            Some(rows) => scraped_rows(html@, row_sel@, year_attr@, metric_sel@, value_sel@) == Some(
                rows@.map_values(|x: ScrapedRow| scraped_row_view(x)),
            ),
            None => scraped_rows(html@, row_sel@, year_attr@, metric_sel@, value_sel@) is None,
        },
{
    let (Ok(rows), Ok(metric), Ok(value)) = (scraper::Selector::parse(row_sel), scraper::Selector::parse(metric_sel), scraper::Selector::parse(value_sel)) else {
        return None;
    };
    let doc = scraper::Html::parse_document(html);
    let mut out = Vec::new();
    for row in doc.select(&rows) {
        let year = row.value().attr(year_attr).map(str::to_string);
        let m = row.select(&metric).next().map(|e| e.text().collect());
        let v = row.select(&value).next().map(|e| e.text().collect());
        out.push(ScrapedRow { year, metric: m, value: v });
    }
    Some(out)
}

/// The day (counted from 1970-01-01) of December 31 of `year`, as `chrono`'s
/// `NaiveDate::from_ymd_opt(year, 12, 31)` gives it; `None` for years beyond
/// the dates `chrono` represents.
pub open spec fn dec31_of(year: i32) -> Option<i32> {
    if CHRONO_FIRST_YEAR <= year <= CHRONO_LAST_YEAR {
        Some((year_start_day(year as int + 1) - 1) as i32)
    } else {
        None
    }
}

/// Calls `chrono::NaiveDate::from_ymd_opt(year, 12, 31)` and gives the date
/// as its day count.
#[verifier::external_body]
fn dec31_day(year: i32) -> (r: Option<i32>)
    ensures
        r == dec31_of(year),
{
    match chrono::NaiveDate::from_ymd_opt(year, 12, 31) {
        Some(d) => Some(d.to_epoch_days()),
        None => None,
    }
}

/// A figure read from a financials row: where it goes, the period end (Dec
/// 31 of the row's year, as a day count), and the cell text with thousands
/// separators (commas and spaces) removed, in millions. Turning that text
/// into an amount is left to the caller, which drops rows whose text is not
/// a number.
#[derive(Debug, Clone, PartialEq, Eq)]
pub struct ScrapedFigure {
    pub statement: StatementKind,
    pub line_item: String,
    pub period_end: i64,
    pub millions: String,
}

/// The abstract value of a scraped figure.
pub open spec fn figure_view(f: ScrapedFigure) -> (StatementKind, Seq<char>, i64, Seq<char>) {
    (f.statement, f.line_item@, f.period_end, f.millions@)
}

/// The figure a row gives: it needs an `i32` year, a mapped (trimmed) metric
/// label and a value cell.
pub open spec fn row_figure(r: (Option<Seq<char>>, Option<Seq<char>>, Option<Seq<char>>)) -> Option<
    (StatementKind, Seq<char>, i64, Seq<char>),
> {
    match r.0 {
        Some(y) => match i32_text(y) {
            Some(year) => match r.1 {
                Some(m) => match scrape_metric(trimmed(m)) {
                    Some((k, item)) => match r.2 {
                        Some(v) => match dec31_of(year) {
                            Some(day) => Some((k, item, day as i64, without_char(without_char(v, ','), ' '))),
                            None => None,
                        },
                        None => None,
                    },
                    None => None,
                },
                None => None,
            },
            None => None,
        },
        None => None,
    }
}

/// The figures a run of rows gives, in row order.
pub open spec fn row_figures(rows: Seq<(Option<Seq<char>>, Option<Seq<char>>, Option<Seq<char>>)>) -> Seq<
    (StatementKind, Seq<char>, i64, Seq<char>),
>
    decreases rows.len(),
{
    if rows.len() == 0 {
        Seq::empty()
    } else {
        let rest = row_figures(rows.drop_last());
        match row_figure(rows.last()) {
            Some(f) => rest.push(f),
            None => rest,
        }
    }
}

/// Figure `f` is read from row `r` (year attribute, metric cell, value
/// cell): the year reads as an `i32` within the years `chrono` represents and
/// `f`'s period end is December 31 of that year; the trimmed metric label is
/// mapped and gives `f`'s statement and line item; and `f`'s text is the
/// value cell with commas and spaces removed.
pub open spec fn figure_reads_row(
    f: (StatementKind, Seq<char>, i64, Seq<char>),
    r: (Option<Seq<char>>, Option<Seq<char>>, Option<Seq<char>>),
) -> bool {
    &&& r.0 is Some && i32_text(r.0.unwrap()) is Some
    &&& CHRONO_FIRST_YEAR <= i32_text(r.0.unwrap()).unwrap() <= CHRONO_LAST_YEAR
    &&& f.2 == year_start_day(i32_text(r.0.unwrap()).unwrap() as int + 1) - 1
    &&& r.1 is Some && scrape_metric(trimmed(r.1.unwrap())) is Some
    &&& f.0 == scrape_metric(trimmed(r.1.unwrap())).unwrap().0
    &&& f.1 == scrape_metric(trimmed(r.1.unwrap())).unwrap().1
    &&& r.2 is Some && f.3 == without_char(without_char(r.2.unwrap(), ','), ' ')
}

/// The figures read from financials rows are exactly those the rows give:
/// a figure is among them if and only if it is read from some row (see
/// [`figure_reads_row`]).
pub proof fn figures_read_rows(
    rows: Seq<(Option<Seq<char>>, Option<Seq<char>>, Option<Seq<char>>)>,
    f: (StatementKind, Seq<char>, i64, Seq<char>),
)
    ensures
        row_figures(rows).contains(f) <==> exists|k: int| 0 <= k < rows.len() && figure_reads_row(f, #[trigger] rows[k]),
    decreases rows.len(),
{
    if rows.len() > 0 {
        let init = rows.drop_last();
        let r = rows.last();
        figures_read_rows(init, f);
        match row_figure(r) {
            Some(x) => {
                lemma_seq_contains_after_push(row_figures(init), x, f);
                assert(figure_reads_row(f, r) <==> f == x);
            },
            None => {
                assert(!figure_reads_row(f, r));
            },
        }
        if exists|k: int| 0 <= k < rows.len() && figure_reads_row(f, #[trigger] rows[k]) {
            let k = choose|k: int| 0 <= k < rows.len() && figure_reads_row(f, #[trigger] rows[k]);
            if k < rows.len() - 1 {
                assert(init[k] == rows[k]);
            }
        }
        if exists|k: int| 0 <= k < init.len() && figure_reads_row(f, #[trigger] init[k]) {
            let k = choose|k: int| 0 <= k < init.len() && figure_reads_row(f, #[trigger] init[k]);
            assert(rows[k] == init[k]);
        }
    }
}

/// The figures of the `table.financials` rows of a page. Rows that are
/// unmapped, undated, or without a value cell are skipped.
pub fn parse_financials(html: &str) -> (r: Vec<ScrapedFigure>)
    ensures
        r@.map_values(|f: ScrapedFigure| figure_view(f)) == match scraped_rows(
            html@,
            "table.financials tr"@,
            "data-year"@,
            "td.metric"@,
            "td.value"@,
        ) {
            Some(rows) => row_figures(rows),
            None => Seq::empty(),
        },
{
    let mut out: Vec<ScrapedFigure> = Vec::new();
    let rows = match select_rows(html, "table.financials tr", "data-year", "td.metric", "td.value") {
        Some(rows) => rows,
        None => return out,
    };
    let ghost views = rows@.map_values(|x: ScrapedRow| scraped_row_view(x));
    let mut i: usize = 0;
    while i < rows.len()
        invariant
            i <= rows@.len(),
            views == rows@.map_values(|x: ScrapedRow| scraped_row_view(x)),
            out@.map_values(|f: ScrapedFigure| figure_view(f)) == row_figures(views.subrange(0, i as int)),
        decreases rows.len() - i,
    {
        let row = &rows[i];
        assert(views.subrange(0, i + 1).drop_last() =~= views.subrange(0, i as int));
        assert(views.subrange(0, i + 1).last() == scraped_row_view(*row));
        let ghost before = out@.map_values(|f: ScrapedFigure| figure_view(f));
        let figure = match (&row.year, &row.metric, &row.value) {
            (Some(y), Some(m), Some(v)) => match parse_i32(y.as_str()) {
                Some(year) => match lookup(trim(m.as_str())) {
                    Some((statement, item)) => match dec31_day(year) {
                        Some(day) => {
                            let no_commas = remove_char(v.as_str(), ',');
                            Some(
                                ScrapedFigure {
                                    statement,
                                    line_item: owned(item),
                                    period_end: day as i64,
                                    millions: remove_char(no_commas.as_str(), ' '),
                                },
                            )
                        },
                        None => None,
                    },
                    None => None,
                },
                None => None,
            },
            _ => None,
        };
        match figure {
            Some(f) => {
                out.push(f);
                assert(out@.map_values(|f: ScrapedFigure| figure_view(f)) =~= before.push(figure_view(f)));
            },
            None => {},
        }
        i = i + 1;
    }
    assert(views.subrange(0, rows@.len() as int) =~= views);
    out
}

} // verus!
