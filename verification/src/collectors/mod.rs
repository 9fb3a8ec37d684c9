//! Source collectors. Each collector turns one external source into domain
//! values. Fetching happens outside the library; here live the URL builders,
//! the decoders of fetched documents, and the shared source vocabulary.

use vstd::prelude::*;

use crate::domain::PeriodType;
use crate::net::Validators;
use crate::text::{cat2, str_eq};

pub mod edgar;
pub mod edgar_facts;
pub mod edgar_ownership;
pub mod fmp;
pub mod json;
pub mod news;
pub mod scrape;
pub mod yahoo;

verus! {

/// `chrono` format string for ISO `YYYY-MM-DD` dates, as emitted by EDGAR and
/// expected by the Finnhub news query.
pub const ISO_DATE: &'static str = "%Y-%m-%d";

/// The day (counted from 1970-01-01) that `text` names when read as an ISO
/// `YYYY-MM-DD` date by `chrono`'s `NaiveDate::parse_from_str`; `None` when
/// that parse fails.
pub uninterp spec fn iso_day(text: Seq<char>) -> Option<i32>;

/// Calls `chrono::NaiveDate::parse_from_str` with [`ISO_DATE`] and gives the
/// parsed date as its day count since 1970-01-01 (`to_epoch_days`).
#[verifier::external_body]
pub(crate) fn parse_iso_day(text: &str) -> (r: Option<i32>)
    ensures
        r == iso_day(text@),
{
    match chrono::NaiveDate::parse_from_str(text, ISO_DATE) {
        Ok(d) => Some(d.to_epoch_days()),
        Err(_) => None,
    }
}

/// The day, counted from 1970-01-01, on which year `y` of the proleptic
/// Gregorian calendar begins.
pub open spec fn year_start_day(y: int) -> int {
    let p = y - 1;
    365 * p + p / 4 - p / 100 + p / 400 - 719162
}

/// The first year `chrono`'s `NaiveDate` represents.
pub const CHRONO_FIRST_YEAR: i32 = -262143;

/// The last year `chrono`'s `NaiveDate` represents.
pub const CHRONO_LAST_YEAR: i32 = 262142;

/// Whether day `d` (counted from 1970-01-01) lies within the years `chrono`
/// represents.
pub open spec fn chrono_day(d: int) -> bool {
    year_start_day(CHRONO_FIRST_YEAR as int) <= d < year_start_day(CHRONO_LAST_YEAR as int + 1)
}

/// Identifies a company across sources: EDGAR keys on CIK, vendors on ticker.
#[derive(Debug, Clone)]
pub struct SourceTarget {
    pub cik: String,
    pub symbol: String,
}

/// Errors produced while collecting from an external source.
#[derive(Debug)]
pub enum CollectorError {
    Http(String),
    Parse(String),
}

/// The message text of a collector error.
pub open spec fn collector_error_text(e: CollectorError) -> Seq<char> {
    match e {
        CollectorError::Http(m) => "http error: "@ + m@,
        CollectorError::Parse(m) => "parse error: "@ + m@,
    }
}

impl CollectorError {
    /// The human-readable message: `http error: …` or `parse error: …`.
    pub fn to_string(&self) -> (r: String)
        ensures
            r@ == collector_error_text(*self),
    {
        match self {
            CollectorError::Http(m) => cat2("http error: ", m.as_str()),
            CollectorError::Parse(m) => cat2("parse error: ", m.as_str()),
        }
    }
}

/// Result of a conditional fetch: a fresh body (with the validators it arrived
/// with) or confirmation that the cached copy is still current.
#[derive(Debug, Clone, PartialEq, Eq)]
pub enum FetchOutcome {
    Modified { body: String, validators: Validators },
    NotModified,
}

/// The period type an XBRL/FMP fiscal-period token names: "FY" is annual,
/// "Q1".."Q4" quarterly, anything else (e.g. "TTM", "CY") unmodelled.
pub open spec fn fp_period(fp: Seq<char>) -> Option<PeriodType> {
    if fp == "FY"@ {
        Some(PeriodType::Annual)
    } else if fp == "Q1"@ || fp == "Q2"@ || fp == "Q3"@ || fp == "Q4"@ {
        Some(PeriodType::Quarterly)
    } else {
        None
    }
}

/// Map an XBRL/FMP fiscal-period token ("FY", "Q1".."Q4") to a [`PeriodType`].
/// Returns `None` for tokens we do not model (e.g. "TTM", "CY").
pub fn period_type_from_fp(fp: &str) -> (r: Option<PeriodType>)
    ensures
        r == fp_period(fp@),
        (r is Some && r.unwrap() == PeriodType::Annual) <==> fp@ == "FY"@,
        (r is Some && r.unwrap() == PeriodType::Quarterly) <==> (fp@ == "Q1"@ || fp@ == "Q2"@ || fp@ == "Q3"@
            || fp@ == "Q4"@),
{
    proof {
        reveal_strlit("FY");
        reveal_strlit("Q1");
        reveal_strlit("Q2");
        reveal_strlit("Q3");
        reveal_strlit("Q4");
        assert("FY"@[0] != "Q1"@[0]);
        assert("FY"@ != "Q1"@ && "FY"@ != "Q2"@ && "FY"@ != "Q3"@ && "FY"@ != "Q4"@);
    }
    if str_eq(fp, "FY") {
        Some(PeriodType::Annual)
    } else if str_eq(fp, "Q1") || str_eq(fp, "Q2") || str_eq(fp, "Q3") || str_eq(fp, "Q4") {
        Some(PeriodType::Quarterly)
    } else {
        None
    }
}

} // verus!
