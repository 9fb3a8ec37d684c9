//! SEC EDGAR companyfacts: the decoder that turns a company's XBRL facts
//! document into normalized financial facts, one per line item, period type
//! and period end, taken from the latest filing that reports it.

use vstd::prelude::*;
use vstd::seq_lib::lemma_seq_contains_after_push;

use crate::collectors::json::{
    as_str, at_key, field, json_field, json_number, json_str, member_index, Json,
};
use crate::collectors::{fp_period, iso_day, parse_iso_day, period_type_from_fp};
use crate::domain::{
    period_token, period_type_round_trip, FactView, FinancialFact, PeriodType, StatementKind,
};
use crate::text::{
    lemma_seq_lt_asymmetric, lemma_seq_lt_irreflexive, lemma_seq_lt_total,
    lemma_seq_lt_transitive, owned, seq_lt, str_eq, str_lt,
};

verus! {

/// How many XBRL concepts the decoder reads.
pub const CONCEPT_COUNT: usize = 38;

/// XBRL us-gaap concept `i` of the decoder's table: the concept's name, the
/// statement it belongs to and the normalized line item it fills.
pub open spec fn concept_at(i: int) -> (Seq<char>, StatementKind, Seq<char>) {
    if i == 0 {
        ("Revenues"@, StatementKind::Income, "Revenue"@)
    } else if i == 1 {
        ("RevenueFromContractWithCustomerExcludingAssessedTax"@, StatementKind::Income, "Revenue"@)
    } else if i == 2 {
        ("NetIncomeLoss"@, StatementKind::Income, "NetIncome"@)
    } else if i == 3 {
        ("Assets"@, StatementKind::Balance, "TotalAssets"@)
    } else if i == 4 {
        ("Liabilities"@, StatementKind::Balance, "TotalLiabilities"@)
    } else if i == 5 {
        ("StockholdersEquity"@, StatementKind::Balance, "StockholdersEquity"@)
    } else if i == 6 {
        ("CashAndCashEquivalentsAtCarryingValue"@, StatementKind::Balance, "CashAndEquivalents"@)
    } else if i == 7 {
        ("NetCashProvidedByUsedInOperatingActivities"@, StatementKind::CashFlow, "OperatingCashFlow"@)
    } else if i == 8 {
        ("NetCashProvidedByUsedInInvestingActivities"@, StatementKind::CashFlow, "InvestingCashFlow"@)
    } else if i == 9 {
        ("NetCashProvidedByUsedInFinancingActivities"@, StatementKind::CashFlow, "FinancingCashFlow"@)
    } else if i == 10 {
        ("AssetsCurrent"@, StatementKind::Balance, "CurrentAssets"@)
    } else if i == 11 {
        ("LiabilitiesCurrent"@, StatementKind::Balance, "CurrentLiabilities"@)
    } else if i == 12 {
        ("LongTermDebtNoncurrent"@, StatementKind::Balance, "LongTermDebt"@)
    } else if i == 13 {
        ("LongTermDebt"@, StatementKind::Balance, "LongTermDebt"@)
    } else if i == 14 {
        ("GrossProfit"@, StatementKind::Income, "GrossProfit"@)
    } else if i == 15 {
        ("OperatingIncomeLoss"@, StatementKind::Income, "OperatingIncome"@)
    } else if i == 16 {
        ("EarningsPerShareDiluted"@, StatementKind::Income, "Eps"@)
    } else if i == 17 {
        ("EarningsPerShareBasic"@, StatementKind::Income, "Eps"@)
    } else if i == 18 {
        ("CommonStockDividendsPerShareDeclared"@, StatementKind::Income, "DividendPerShare"@)
    } else if i == 19 {
        ("PaymentsOfDividendsCommonStock"@, StatementKind::CashFlow, "DividendsPaid"@)
    } else if i == 20 {
        ("WeightedAverageNumberOfDilutedSharesOutstanding"@, StatementKind::Income, "SharesOutstanding"@)
    } else if i == 21 {
        ("PaymentsToAcquirePropertyPlantAndEquipment"@, StatementKind::CashFlow, "CapEx"@)
    } else if i == 22 {
        ("DepreciationDepletionAndAmortization"@, StatementKind::Income, "DepreciationAmortization"@)
    } else if i == 23 {
        ("ResearchAndDevelopmentExpense"@, StatementKind::Income, "ResearchAndDevelopment"@)
    } else if i == 24 {
        ("SellingGeneralAndAdministrativeExpense"@, StatementKind::Income, "SellingGeneralAdmin"@)
    } else if i == 25 {
        ("InterestExpense"@, StatementKind::Income, "InterestExpense"@)
    } else if i == 26 {
        ("InterestAndDebtExpense"@, StatementKind::Income, "InterestExpense"@)
    } else if i == 27 {
        ("IncomeTaxExpenseBenefit"@, StatementKind::Income, "IncomeTaxExpense"@)
    } else if i == 28 {
        ("Goodwill"@, StatementKind::Balance, "Goodwill"@)
    } else if i == 29 {
        ("IntangibleAssetsNetExcludingGoodwill"@, StatementKind::Balance, "IntangibleAssets"@)
    } else if i == 30 {
        ("PropertyPlantAndEquipmentNet"@, StatementKind::Balance, "PropertyPlantEquipment"@)
    } else if i == 31 {
        ("InventoryNet"@, StatementKind::Balance, "Inventories"@)
    } else if i == 32 {
        ("AccountsReceivableNetCurrent"@, StatementKind::Balance, "AccountsReceivable"@)
    } else if i == 33 {
        ("AccountsPayableCurrent"@, StatementKind::Balance, "AccountsPayable"@)
    } else if i == 34 {
        ("ShortTermBorrowings"@, StatementKind::Balance, "ShortTermDebt"@)
    } else if i == 35 {
        ("LongTermDebtCurrent"@, StatementKind::Balance, "ShortTermDebt"@)
    } else if i == 36 {
        ("RetainedEarningsAccumulatedDeficit"@, StatementKind::Balance, "RetainedEarnings"@)
    } else {
        ("CommonStockSharesOutstanding"@, StatementKind::Balance, "SharesOutstandingBalance"@)
    }
}

fn concept(i: usize) -> (r: (&'static str, StatementKind, &'static str))
    requires
        i < CONCEPT_COUNT,
    ensures
        (r.0@, r.1, r.2@) == concept_at(i as int),
{
    match i {
            0 => ("Revenues", StatementKind::Income, "Revenue"),
            1 => ("RevenueFromContractWithCustomerExcludingAssessedTax", StatementKind::Income, "Revenue"),
            2 => ("NetIncomeLoss", StatementKind::Income, "NetIncome"),
            3 => ("Assets", StatementKind::Balance, "TotalAssets"),
            4 => ("Liabilities", StatementKind::Balance, "TotalLiabilities"),
            5 => ("StockholdersEquity", StatementKind::Balance, "StockholdersEquity"),
            6 => ("CashAndCashEquivalentsAtCarryingValue", StatementKind::Balance, "CashAndEquivalents"),
            7 => ("NetCashProvidedByUsedInOperatingActivities", StatementKind::CashFlow, "OperatingCashFlow"),
            8 => ("NetCashProvidedByUsedInInvestingActivities", StatementKind::CashFlow, "InvestingCashFlow"),
            9 => ("NetCashProvidedByUsedInFinancingActivities", StatementKind::CashFlow, "FinancingCashFlow"),
            10 => ("AssetsCurrent", StatementKind::Balance, "CurrentAssets"),
            11 => ("LiabilitiesCurrent", StatementKind::Balance, "CurrentLiabilities"),
            12 => ("LongTermDebtNoncurrent", StatementKind::Balance, "LongTermDebt"),
            13 => ("LongTermDebt", StatementKind::Balance, "LongTermDebt"),
            14 => ("GrossProfit", StatementKind::Income, "GrossProfit"),
            15 => ("OperatingIncomeLoss", StatementKind::Income, "OperatingIncome"),
            16 => ("EarningsPerShareDiluted", StatementKind::Income, "Eps"),
            17 => ("EarningsPerShareBasic", StatementKind::Income, "Eps"),
            18 => ("CommonStockDividendsPerShareDeclared", StatementKind::Income, "DividendPerShare"),
            19 => ("PaymentsOfDividendsCommonStock", StatementKind::CashFlow, "DividendsPaid"),
            20 => ("WeightedAverageNumberOfDilutedSharesOutstanding", StatementKind::Income, "SharesOutstanding"),
            21 => ("PaymentsToAcquirePropertyPlantAndEquipment", StatementKind::CashFlow, "CapEx"),
            22 => ("DepreciationDepletionAndAmortization", StatementKind::Income, "DepreciationAmortization"),
            23 => ("ResearchAndDevelopmentExpense", StatementKind::Income, "ResearchAndDevelopment"),
            24 => ("SellingGeneralAndAdministrativeExpense", StatementKind::Income, "SellingGeneralAdmin"),
            25 => ("InterestExpense", StatementKind::Income, "InterestExpense"),
            26 => ("InterestAndDebtExpense", StatementKind::Income, "InterestExpense"),
            27 => ("IncomeTaxExpenseBenefit", StatementKind::Income, "IncomeTaxExpense"),
            28 => ("Goodwill", StatementKind::Balance, "Goodwill"),
            29 => ("IntangibleAssetsNetExcludingGoodwill", StatementKind::Balance, "IntangibleAssets"),
            30 => ("PropertyPlantAndEquipmentNet", StatementKind::Balance, "PropertyPlantEquipment"),
            31 => ("InventoryNet", StatementKind::Balance, "Inventories"),
            32 => ("AccountsReceivableNetCurrent", StatementKind::Balance, "AccountsReceivable"),
            33 => ("AccountsPayableCurrent", StatementKind::Balance, "AccountsPayable"),
            34 => ("ShortTermBorrowings", StatementKind::Balance, "ShortTermDebt"),
            35 => ("LongTermDebtCurrent", StatementKind::Balance, "ShortTermDebt"),
            36 => ("RetainedEarningsAccumulatedDeficit", StatementKind::Balance, "RetainedEarnings"),
            _ => ("CommonStockSharesOutstanding", StatementKind::Balance, "SharesOutstandingBalance"),
    }
}

/// The concept table, entry by entry: each us-gaap concept the decoder reads
/// and the statement and normalized line item its facts fill. Both revenue
/// concepts fill `Revenue`; both long-term debt concepts (`LongTermDebtNoncurrent`
/// and `LongTermDebt`) fill the balance-sheet `LongTermDebt`; short-term
/// borrowings and the current part of long-term debt fill `ShortTermDebt`.
pub proof fn concept_table()
    ensures
        concept_at(0).0 == "Revenues"@ && concept_at(0).1 == StatementKind::Income && concept_at(0).2 == "Revenue"@,
        concept_at(1).0 == "RevenueFromContractWithCustomerExcludingAssessedTax"@ && concept_at(1).1 == StatementKind::Income && concept_at(1).2 == "Revenue"@,
        concept_at(2).0 == "NetIncomeLoss"@ && concept_at(2).1 == StatementKind::Income && concept_at(2).2 == "NetIncome"@,
        concept_at(3).0 == "Assets"@ && concept_at(3).1 == StatementKind::Balance && concept_at(3).2 == "TotalAssets"@,
        concept_at(4).0 == "Liabilities"@ && concept_at(4).1 == StatementKind::Balance && concept_at(4).2 == "TotalLiabilities"@,
        concept_at(5).0 == "StockholdersEquity"@ && concept_at(5).1 == StatementKind::Balance && concept_at(5).2 == "StockholdersEquity"@,
        concept_at(6).0 == "CashAndCashEquivalentsAtCarryingValue"@ && concept_at(6).1 == StatementKind::Balance && concept_at(6).2 == "CashAndEquivalents"@,
        concept_at(7).0 == "NetCashProvidedByUsedInOperatingActivities"@ && concept_at(7).1 == StatementKind::CashFlow && concept_at(7).2 == "OperatingCashFlow"@,
        concept_at(8).0 == "NetCashProvidedByUsedInInvestingActivities"@ && concept_at(8).1 == StatementKind::CashFlow && concept_at(8).2 == "InvestingCashFlow"@,
        concept_at(9).0 == "NetCashProvidedByUsedInFinancingActivities"@ && concept_at(9).1 == StatementKind::CashFlow && concept_at(9).2 == "FinancingCashFlow"@,
        concept_at(10).0 == "AssetsCurrent"@ && concept_at(10).1 == StatementKind::Balance && concept_at(10).2 == "CurrentAssets"@,
        concept_at(11).0 == "LiabilitiesCurrent"@ && concept_at(11).1 == StatementKind::Balance && concept_at(11).2 == "CurrentLiabilities"@,
        concept_at(12).0 == "LongTermDebtNoncurrent"@ && concept_at(12).1 == StatementKind::Balance && concept_at(12).2 == "LongTermDebt"@,
        concept_at(13).0 == "LongTermDebt"@ && concept_at(13).1 == StatementKind::Balance && concept_at(13).2 == "LongTermDebt"@,
        concept_at(14).0 == "GrossProfit"@ && concept_at(14).1 == StatementKind::Income && concept_at(14).2 == "GrossProfit"@,
        concept_at(15).0 == "OperatingIncomeLoss"@ && concept_at(15).1 == StatementKind::Income && concept_at(15).2 == "OperatingIncome"@,
        concept_at(16).0 == "EarningsPerShareDiluted"@ && concept_at(16).1 == StatementKind::Income && concept_at(16).2 == "Eps"@,
        concept_at(17).0 == "EarningsPerShareBasic"@ && concept_at(17).1 == StatementKind::Income && concept_at(17).2 == "Eps"@,
        concept_at(18).0 == "CommonStockDividendsPerShareDeclared"@ && concept_at(18).1 == StatementKind::Income && concept_at(18).2 == "DividendPerShare"@,
        concept_at(19).0 == "PaymentsOfDividendsCommonStock"@ && concept_at(19).1 == StatementKind::CashFlow && concept_at(19).2 == "DividendsPaid"@,
        concept_at(20).0 == "WeightedAverageNumberOfDilutedSharesOutstanding"@ && concept_at(20).1 == StatementKind::Income && concept_at(20).2 == "SharesOutstanding"@,
        concept_at(21).0 == "PaymentsToAcquirePropertyPlantAndEquipment"@ && concept_at(21).1 == StatementKind::CashFlow && concept_at(21).2 == "CapEx"@,
        concept_at(22).0 == "DepreciationDepletionAndAmortization"@ && concept_at(22).1 == StatementKind::Income && concept_at(22).2 == "DepreciationAmortization"@,
        concept_at(23).0 == "ResearchAndDevelopmentExpense"@ && concept_at(23).1 == StatementKind::Income && concept_at(23).2 == "ResearchAndDevelopment"@,
        concept_at(24).0 == "SellingGeneralAndAdministrativeExpense"@ && concept_at(24).1 == StatementKind::Income && concept_at(24).2 == "SellingGeneralAdmin"@,
        concept_at(25).0 == "InterestExpense"@ && concept_at(25).1 == StatementKind::Income && concept_at(25).2 == "InterestExpense"@,
        concept_at(26).0 == "InterestAndDebtExpense"@ && concept_at(26).1 == StatementKind::Income && concept_at(26).2 == "InterestExpense"@,
        concept_at(27).0 == "IncomeTaxExpenseBenefit"@ && concept_at(27).1 == StatementKind::Income && concept_at(27).2 == "IncomeTaxExpense"@,
        concept_at(28).0 == "Goodwill"@ && concept_at(28).1 == StatementKind::Balance && concept_at(28).2 == "Goodwill"@,
        concept_at(29).0 == "IntangibleAssetsNetExcludingGoodwill"@ && concept_at(29).1 == StatementKind::Balance && concept_at(29).2 == "IntangibleAssets"@,
        concept_at(30).0 == "PropertyPlantAndEquipmentNet"@ && concept_at(30).1 == StatementKind::Balance && concept_at(30).2 == "PropertyPlantEquipment"@,
        concept_at(31).0 == "InventoryNet"@ && concept_at(31).1 == StatementKind::Balance && concept_at(31).2 == "Inventories"@,
        concept_at(32).0 == "AccountsReceivableNetCurrent"@ && concept_at(32).1 == StatementKind::Balance && concept_at(32).2 == "AccountsReceivable"@,
        concept_at(33).0 == "AccountsPayableCurrent"@ && concept_at(33).1 == StatementKind::Balance && concept_at(33).2 == "AccountsPayable"@,
        concept_at(34).0 == "ShortTermBorrowings"@ && concept_at(34).1 == StatementKind::Balance && concept_at(34).2 == "ShortTermDebt"@,
        concept_at(35).0 == "LongTermDebtCurrent"@ && concept_at(35).1 == StatementKind::Balance && concept_at(35).2 == "ShortTermDebt"@,
        concept_at(36).0 == "RetainedEarningsAccumulatedDeficit"@ && concept_at(36).1 == StatementKind::Balance && concept_at(36).2 == "RetainedEarnings"@,
        concept_at(37).0 == "CommonStockSharesOutstanding"@ && concept_at(37).1 == StatementKind::Balance && concept_at(37).2 == "SharesOutstandingBalance"@,
{
}

/// Filing `f` is read from entry `e` of concept `c`: the entry's `fp` is a
/// modelled fiscal period, which is the fact's period type; its `end` is an
/// ISO date, whose day is the period end; its `val` is a number, which is the
/// value; the fact is of the company, from `edgar`, stamped with the run
/// time, on the statement and line item of concept `c`; and the filing date
/// is the entry's `filed` text (empty when missing).
pub open spec fn filing_reads_entry(f: Filing, company_id: i64, now: i64, c: int, e: Json) -> bool {
    &&& json_str(json_field(e, "fp"@)) is Some
    &&& fp_period(json_str(json_field(e, "fp"@)).unwrap()) == Some(f.fact.period_type)
    &&& json_str(json_field(e, "end"@)) is Some
    &&& iso_day(json_str(json_field(e, "end"@)).unwrap()) is Some
    &&& f.fact.period_end == iso_day(json_str(json_field(e, "end"@)).unwrap()).unwrap() as i64
    &&& json_number(json_field(e, "val"@)) == Some(f.fact.value)
    &&& f.fact.company_id == company_id
    &&& f.fact.source == "edgar"@
    &&& f.fact.fetched_at == now
    &&& f.fact.statement == concept_at(c).1
    &&& f.fact.line_item == concept_at(c).2
    &&& f.filed == (if json_str(json_field(e, "filed"@)) is Some {
        json_str(json_field(e, "filed"@)).unwrap()
    } else {
        Seq::empty()
    })
}

/// The facts read from concept `c` are exactly those its entries give: a
/// filing is among them if and only if it is read from one of the entries
/// filed under `facts` / `us-gaap` / the concept's name / `units` (see
/// [`filing_reads_entry`]). So each such fact sits on the statement and line
/// item the table gives for `c`.
pub proof fn concept_facts_read_entries(doc: Json, company_id: i64, now: i64, c: int, f: Filing)
    ensures
        concept_filings(doc, company_id, now, c).contains(f) <==> (unit_entries(doc, c) is Some && exists|k: int|
            0 <= k < unit_entries(doc, c).unwrap().len() && filing_reads_entry(
                f,
                company_id,
                now,
                c,
                #[trigger] unit_entries(doc, c).unwrap()[k],
            )),
{
    match unit_entries(doc, c) {
        Some(es) => lemma_entries_filings_read(company_id, now, c, es, f),
        None => {},
    }
}

proof fn lemma_entries_filings_read(company_id: i64, now: i64, c: int, es: Seq<Json>, f: Filing)
    ensures
        entries_filings(company_id, now, c, es).contains(f) <==> exists|k: int|
            0 <= k < es.len() && filing_reads_entry(f, company_id, now, c, #[trigger] es[k]),
    decreases es.len(),
{
    if es.len() > 0 {
        let init = es.drop_last();
        let e = es.last();
        lemma_entries_filings_read(company_id, now, c, init, f);
        match entry_filing(company_id, now, c, e) {
            Some(x) => {
                lemma_seq_contains_after_push(entries_filings(company_id, now, c, init), x, f);
                assert(filing_reads_entry(f, company_id, now, c, e) <==> f == x);
            },
            None => {
                assert(!filing_reads_entry(f, company_id, now, c, e));
            },
        }
        if exists|k: int| 0 <= k < es.len() && filing_reads_entry(f, company_id, now, c, #[trigger] es[k]) {
            let k = choose|k: int| 0 <= k < es.len() && filing_reads_entry(f, company_id, now, c, #[trigger] es[k]);
            if k < es.len() - 1 {
                assert(init[k] == es[k]);
            }
        }
        if exists|k: int| 0 <= k < init.len() && filing_reads_entry(f, company_id, now, c, #[trigger] init[k]) {
            let k = choose|k: int| 0 <= k < init.len() && filing_reads_entry(f, company_id, now, c, #[trigger] init[k]);
            assert(es[k] == init[k]);
        }
    }
}

/// One companyfacts entry read as a fact, with the filing date it came from.
pub struct Filing {
    pub fact: FactView,
    pub filed: Seq<char>,
}

/// The fact an entry of concept `c` gives: it needs a modelled fiscal period
/// (`fp`), an ISO period end (`end`) and a number (`val`); `filed` defaults to
/// the empty date.
pub open spec fn entry_filing(company_id: i64, now: i64, c: int, e: Json) -> Option<Filing> {
    match json_str(json_field(e, "fp"@)) {
        Some(fp) => match fp_period(fp) {
            Some(pt) => match json_str(json_field(e, "end"@)) {
                Some(end) => match iso_day(end) {
                    Some(day) => match json_number(json_field(e, "val"@)) {
                        Some(v) => Some(
                            Filing {
                                fact: FactView {
                                    company_id,
                                    statement: concept_at(c).1,
                                    line_item: concept_at(c).2,
                                    period_type: pt,
                                    period_end: day as i64,
                                    value: v,
                                    source: "edgar"@,
                                    fetched_at: now,
                                },
                                filed: match json_str(json_field(e, "filed"@)) {
                                    Some(f) => f,
                                    None => Seq::empty(),
                                },
                            },
                        ),
                        None => None,
                    },
                    None => None,
                },
                None => None,
            },
            None => None,
        },
        None => None,
    }
}

/// The entries of concept `c`: its `USD` unit when present, else its first
/// unit, when that is an array.
pub open spec fn unit_entries(doc: Json, c: int) -> Option<Seq<Json>> {
    match at_key(
        at_key(at_key(at_key(Some(doc), "facts"@), "us-gaap"@), concept_at(c).0),
        "units"@,
    ) {
        Some(Json::Object(units)) => {
            let chosen = match member_index(units@, "USD"@) {
                Some(i) => Some(units@[i].value),
                None => if units@.len() > 0 {
                    Some(units@[0].value)
                } else {
                    None
                },
            };
            match chosen {
                Some(Json::Array(es)) => Some(es@),
                _ => None,
            }
        },
        _ => None,
    }
}

/// The facts a run of entries of concept `c` gives, in entry order.
pub open spec fn entries_filings(company_id: i64, now: i64, c: int, es: Seq<Json>) -> Seq<Filing>
    decreases es.len(),
{
    if es.len() == 0 {
        Seq::empty()
    } else {
        let earlier = entries_filings(company_id, now, c, es.drop_last());
        match entry_filing(company_id, now, c, es.last()) {
            Some(f) => earlier.push(f),
            None => earlier,
        }
    }
}

/// The facts concept `c` contributes.
pub open spec fn concept_filings(doc: Json, company_id: i64, now: i64, c: int) -> Seq<Filing> {
    match unit_entries(doc, c) {
        Some(es) => entries_filings(company_id, now, c, es),
        None => Seq::empty(),
    }
}

/// The facts of the first `n` concepts, concept by concept.
pub open spec fn filings_upto(doc: Json, company_id: i64, now: i64, n: int) -> Seq<Filing>
    decreases n,
{
    if n <= 0 {
        Seq::empty()
    } else {
        filings_upto(doc, company_id, now, n - 1) + concept_filings(doc, company_id, now, n - 1)
    }
}

/// Every fact the document reports, before superseded filings are dropped.
pub open spec fn all_filings(doc: Json, company_id: i64, now: i64) -> Seq<Filing> {
    filings_upto(doc, company_id, now, CONCEPT_COUNT as int)
}

/// What identifies a fact among EDGAR's: line item, period type, period end.
pub open spec fn fact_key(f: FactView) -> (Seq<char>, Seq<char>, int) {
    (f.line_item, period_token(f.period_type), f.period_end as int)
}

/// Lexicographic order on fact keys.
pub open spec fn fact_key_lt(a: (Seq<char>, Seq<char>, int), b: (Seq<char>, Seq<char>, int)) -> bool {
    ||| seq_lt(a.0, b.0)
    ||| (a.0 == b.0 && seq_lt(a.1, b.1))
    ||| (a.0 == b.0 && a.1 == b.1 && a.2 < b.2)
}

proof fn lemma_key_irreflexive(a: (Seq<char>, Seq<char>, int))
    ensures
        !fact_key_lt(a, a),
{
    lemma_seq_lt_irreflexive(a.0);
    lemma_seq_lt_irreflexive(a.1);
}

proof fn lemma_key_transitive(
    a: (Seq<char>, Seq<char>, int),
    b: (Seq<char>, Seq<char>, int),
    c: (Seq<char>, Seq<char>, int),
)
    requires
        fact_key_lt(a, b),
        fact_key_lt(b, c),
    ensures
        fact_key_lt(a, c),
{
    if seq_lt(a.0, b.0) && seq_lt(b.0, c.0) {
        lemma_seq_lt_transitive(a.0, b.0, c.0);
    }
    if a.0 == b.0 && b.0 == c.0 && seq_lt(a.1, b.1) && seq_lt(b.1, c.1) {
        lemma_seq_lt_transitive(a.1, b.1, c.1);
    }
}

proof fn lemma_key_total(a: (Seq<char>, Seq<char>, int), b: (Seq<char>, Seq<char>, int))
    ensures
        a == b || fact_key_lt(a, b) || fact_key_lt(b, a),
{
    lemma_seq_lt_total(a.0, b.0);
    lemma_seq_lt_total(a.1, b.1);
}

/// Filing `i` is the one that stands for its key: no filing with the same key
/// has a later date, and every later filing with that key has an earlier one.
pub open spec fn latest_filing(fs: Seq<Filing>, i: int) -> bool {
    &&& 0 <= i < fs.len()
    &&& forall|j: int|
        #![trigger fs[j]]
        0 <= j < fs.len() && fact_key(fs[j].fact) == fact_key(fs[i].fact) ==> !seq_lt(
            fs[i].filed,
            fs[j].filed,
        ) && (i < j ==> seq_lt(fs[j].filed, fs[i].filed))
}

/// Some fact of `out` has key `key`.
pub open spec fn has_key(out: Seq<FactView>, key: (Seq<char>, Seq<char>, int)) -> bool {
    exists|k: int| 0 <= k < out.len() && #[trigger] fact_key(out[k]) == key
}

/// `out` holds, in increasing key order, exactly one fact per key of `fs`:
/// the one its latest filing reports.
pub open spec fn deduped(fs: Seq<Filing>, out: Seq<FactView>) -> bool {
    &&& forall|a: int, b: int|
        0 <= a < b < out.len() ==> fact_key_lt(fact_key(out[a]), fact_key(out[b]))
    &&& forall|k: int|
        #![trigger out[k]]
        0 <= k < out.len() ==> exists|i: int| #![trigger fs[i]] latest_filing(fs, i) && fs[i].fact == out[k]
    &&& forall|i: int| 0 <= i < fs.len() ==> has_key(out, #[trigger] fact_key(fs[i].fact))
}

spec fn kept(fs: Seq<Filing>, out: Seq<FactView>, fd: Seq<Seq<char>>, src: Seq<int>) -> bool {
    &&& out.len() == fd.len()
    &&& out.len() == src.len()
    &&& forall|a: int, b: int|
        0 <= a < b < out.len() ==> fact_key_lt(fact_key(out[a]), fact_key(out[b]))
    &&& forall|k: int|
        #![trigger out[k]]
        0 <= k < out.len() ==> latest_filing(fs, src[k]) && fs[src[k]].fact == out[k]
            && fs[src[k]].filed == fd[k]
    &&& forall|i: int| 0 <= i < fs.len() ==> has_key(out, #[trigger] fact_key(fs[i].fact))
}

proof fn lemma_kept_deduped(fs: Seq<Filing>, out: Seq<FactView>, fd: Seq<Seq<char>>, src: Seq<int>)
    requires
        kept(fs, out, fd, src),
    ensures
        deduped(fs, out),
{
    assert forall|k: int| #![trigger out[k]] 0 <= k < out.len() implies exists|i: int|
        #![trigger fs[i]] latest_filing(fs, i) && fs[i].fact == out[k] by {
        let i = src[k];
        assert(latest_filing(fs, i) && fs[i].fact == out[k]);
    }
    assert(forall|a: int, b: int|
        0 <= a < b < out.len() ==> fact_key_lt(fact_key(out[a]), fact_key(out[b])));
    assert(forall|i: int| 0 <= i < fs.len() ==> has_key(out, #[trigger] fact_key(fs[i].fact)));
}

/// In a strictly sorted run, only position `k` carries the key at `k`.
proof fn lemma_unique_key(out: Seq<FactView>, k: int, m: int)
    requires
        forall|a: int, b: int|
            0 <= a < b < out.len() ==> fact_key_lt(fact_key(out[a]), fact_key(out[b])),
        0 <= k < out.len(),
        0 <= m < out.len(),
        fact_key(out[k]) == fact_key(out[m]),
    ensures
        k == m,
{
    if k < m {
        assert(fact_key_lt(fact_key(out[k]), fact_key(out[m])));
        lemma_key_irreflexive(fact_key(out[k]));
    } else if m < k {
        assert(fact_key_lt(fact_key(out[m]), fact_key(out[k])));
        lemma_key_irreflexive(fact_key(out[k]));
    }
}

/// A filing dated before the kept one for its key changes nothing.
proof fn lemma_kept_skip(
    fs: Seq<Filing>,
    out: Seq<FactView>,
    fd: Seq<Seq<char>>,
    src: Seq<int>,
    p: int,
    x: Filing,
)
    requires
        kept(fs, out, fd, src),
        0 <= p < out.len(),
        fact_key(out[p]) == fact_key(x.fact),
        seq_lt(x.filed, fd[p]),
    ensures
        kept(fs.push(x), out, fd, src),
{
    let fs2 = fs.push(x);
    let n = fs.len() as int;
    lemma_seq_lt_asymmetric(x.filed, fd[p]);
    assert forall|k: int| #![trigger out[k]] 0 <= k < out.len() implies latest_filing(fs2, src[k])
        && fs2[src[k]].fact == out[k] && fs2[src[k]].filed == fd[k] by {
        assert(latest_filing(fs, src[k]));
        assert forall|j: int|
            #![trigger fs2[j]]
            0 <= j < fs2.len() && fact_key(fs2[j].fact) == fact_key(fs2[src[k]].fact) implies !seq_lt(
            fs2[src[k]].filed,
            fs2[j].filed,
        ) && (src[k] < j ==> seq_lt(fs2[j].filed, fs2[src[k]].filed)) by {
            if j == n {
                lemma_unique_key(out, k, p);
            } else {
                assert(fs2[j] == fs[j]);
            }
        }
    }
    assert forall|i: int| #![trigger fs2[i]] 0 <= i < fs2.len() implies has_key(out, fact_key(fs2[i].fact)) by {
        if i == n {
            assert(fact_key(out[p]) == fact_key(fs2[i].fact));
        } else {
            assert(fs2[i] == fs[i]);
        }
    }
}

/// A filing dated no earlier than the kept one for its key takes its place.
proof fn lemma_kept_replace(
    fs: Seq<Filing>,
    out: Seq<FactView>,
    fd: Seq<Seq<char>>,
    src: Seq<int>,
    p: int,
    x: Filing,
)
    requires
        kept(fs, out, fd, src),
        0 <= p < out.len(),
        fact_key(out[p]) == fact_key(x.fact),
        !seq_lt(x.filed, fd[p]),
    ensures
        kept(fs.push(x), out.update(p, x.fact), fd.update(p, x.filed), src.update(p, fs.len() as int)),
{
    let fs2 = fs.push(x);
    let n = fs.len() as int;
    let out2 = out.update(p, x.fact);
    let fd2 = fd.update(p, x.filed);
    let src2 = src.update(p, n);
    assert forall|a: int, b: int| 0 <= a < b < out2.len() implies fact_key_lt(
        fact_key(out2[a]),
        fact_key(out2[b]),
    ) by {
        assert(fact_key_lt(fact_key(out[a]), fact_key(out[b])));
    }
    // the new filing is the latest for its key
    assert(latest_filing(fs, src[p]));
    assert forall|j: int|
        #![trigger fs2[j]]
        0 <= j < fs2.len() && fact_key(fs2[j].fact) == fact_key(fs2[n].fact) implies !seq_lt(
        fs2[n].filed,
        fs2[j].filed,
    ) && (n < j ==> seq_lt(fs2[j].filed, fs2[n].filed)) by {
        if j < n {
            assert(fs2[j] == fs[j]);
            // filed[j] <= fd[p] <= x.filed
            assert(!seq_lt(fd[p], fs[j].filed));
            lemma_seq_lt_total(fd[p], x.filed);
            if seq_lt(x.filed, fs[j].filed) {
                if seq_lt(fd[p], x.filed) {
                    lemma_seq_lt_transitive(fd[p], x.filed, fs[j].filed);
                }
            }
        } else {
            lemma_seq_lt_irreflexive(x.filed);
        }
    }
    assert(latest_filing(fs2, n));
    assert forall|k: int| #![trigger out2[k]] 0 <= k < out2.len() implies latest_filing(
        fs2,
        src2[k],
    ) && fs2[src2[k]].fact == out2[k] && fs2[src2[k]].filed == fd2[k] by {
        if k != p {
            assert(latest_filing(fs, src[k]) && fs[src[k]].fact == out[k]);
            assert forall|j: int|
                #![trigger fs2[j]]
                0 <= j < fs2.len() && fact_key(fs2[j].fact) == fact_key(fs2[src[k]].fact) implies !seq_lt(
                fs2[src[k]].filed,
                fs2[j].filed,
            ) && (src[k] < j ==> seq_lt(fs2[j].filed, fs2[src[k]].filed)) by {
                if j == n {
                    lemma_unique_key(out, k, p);
                } else {
                    assert(fs2[j] == fs[j]);
                }
            }
        }
    }
    assert forall|i: int| #![trigger fs2[i]] 0 <= i < fs2.len() implies has_key(out2, fact_key(fs2[i].fact)) by {
        if i == n {
            assert(fact_key(out2[p]) == fact_key(fs2[i].fact));
        } else {
            assert(fs2[i] == fs[i]);
            assert(has_key(out, fact_key(fs[i].fact)));
            let k = choose|k: int| 0 <= k < out.len() && #[trigger] fact_key(out[k]) == fact_key(fs[i].fact);
            assert(fact_key(out2[k]) == fact_key(fs2[i].fact));
        }
    }
}

/// Keys strictly increasing along `out`.
spec fn key_sorted(out: Seq<FactView>) -> bool {
    forall|a: int, b: int| 0 <= a < b < out.len() ==> fact_key_lt(fact_key(out[a]), fact_key(out[b]))
}

/// Where a key fits into a sorted run: after everything before `p`, before
/// everything from `p` on.
spec fn fits_at(out: Seq<FactView>, p: int, kx: (Seq<char>, Seq<char>, int)) -> bool {
    &&& 0 <= p <= out.len()
    &&& forall|a: int| 0 <= a < p ==> fact_key_lt(#[trigger] fact_key(out[a]), kx)
    &&& forall|b: int| p <= b < out.len() ==> fact_key_lt(kx, #[trigger] fact_key(out[b]))
}

proof fn lemma_fits_at(out: Seq<FactView>, p: int, kx: (Seq<char>, Seq<char>, int))
    requires
        key_sorted(out),
        0 <= p <= out.len(),
        forall|a: int| 0 <= a < p ==> fact_key_lt(#[trigger] fact_key(out[a]), kx),
        p < out.len() ==> fact_key_lt(kx, fact_key(out[p])),
    ensures
        fits_at(out, p, kx),
        forall|k: int| 0 <= k < out.len() ==> #[trigger] fact_key(out[k]) != kx,
{
    assert forall|b: int| p <= b < out.len() implies fact_key_lt(kx, #[trigger] fact_key(out[b])) by {
        if b > p {
            assert(fact_key_lt(fact_key(out[p]), fact_key(out[b])));
            lemma_key_transitive(kx, fact_key(out[p]), fact_key(out[b]));
        }
    }
    assert forall|k: int| 0 <= k < out.len() implies #[trigger] fact_key(out[k]) != kx by {
        lemma_key_irreflexive(kx);
    }
}

proof fn lemma_insert_sorted(out: Seq<FactView>, p: int, v: FactView)
    requires
        key_sorted(out),
        fits_at(out, p, fact_key(v)),
    ensures
        key_sorted(out.insert(p, v)),
{
    let out2 = out.insert(p, v);
    let kx = fact_key(v);
    assert forall|a: int, b: int| 0 <= a < b < out2.len() implies fact_key_lt(
        fact_key(out2[a]),
        fact_key(out2[b]),
    ) by {
        if b < p {
            assert(fact_key_lt(fact_key(out[a]), fact_key(out[b])));
        } else if b == p {
            assert(fact_key_lt(fact_key(out[a]), kx));
        } else if a < p {
            assert(fact_key_lt(fact_key(out[a]), kx));
            assert(fact_key_lt(kx, fact_key(out[b - 1])));
            lemma_key_transitive(fact_key(out[a]), kx, fact_key(out[b - 1]));
        } else if a == p {
            assert(fact_key_lt(kx, fact_key(out[b - 1])));
        } else {
            assert(fact_key_lt(fact_key(out[a - 1]), fact_key(out[b - 1])));
        }
    }
}

/// A filing whose key is not kept yet goes in at its place in key order.
proof fn lemma_kept_insert(
    fs: Seq<Filing>,
    out: Seq<FactView>,
    fd: Seq<Seq<char>>,
    src: Seq<int>,
    p: int,
    x: Filing,
)
    requires
        kept(fs, out, fd, src),
        0 <= p <= out.len(),
        forall|a: int| 0 <= a < p ==> fact_key_lt(#[trigger] fact_key(out[a]), fact_key(x.fact)),
        p < out.len() ==> fact_key_lt(fact_key(x.fact), fact_key(out[p])),
    ensures
        kept(fs.push(x), out.insert(p, x.fact), fd.insert(p, x.filed), src.insert(p, fs.len() as int)),
{
    let fs2 = fs.push(x);
    let n = fs.len() as int;
    let out2 = out.insert(p, x.fact);
    let fd2 = fd.insert(p, x.filed);
    let src2 = src.insert(p, n);
    let kx = fact_key(x.fact);
    assert(key_sorted(out));
    lemma_fits_at(out, p, kx);
    lemma_insert_sorted(out, p, x.fact);
    assert(key_sorted(out2));
    // no earlier filing shares x's key
    assert forall|j: int| 0 <= j < n implies #[trigger] fact_key(fs[j].fact) != kx by {
        assert(has_key(out, fact_key(fs[j].fact)));
        let k = choose|k: int| 0 <= k < out.len() && #[trigger] fact_key(out[k]) == fact_key(fs[j].fact);
        assert(fact_key(out[k]) != kx);
    }
    assert(latest_filing(fs2, n)) by {
        assert forall|j: int|
            #![trigger fs2[j]]
            0 <= j < fs2.len() && fact_key(fs2[j].fact) == fact_key(fs2[n].fact) implies !seq_lt(
            fs2[n].filed,
            fs2[j].filed,
        ) && (n < j ==> seq_lt(fs2[j].filed, fs2[n].filed)) by {
            if j < n {
                assert(fs2[j] == fs[j]);
                assert(fact_key(fs[j].fact) != kx);
            } else {
                lemma_seq_lt_irreflexive(x.filed);
            }
        }
    }
    assert forall|k: int| #![trigger out2[k]] 0 <= k < out2.len() implies latest_filing(
        fs2,
        src2[k],
    ) && fs2[src2[k]].fact == out2[k] && fs2[src2[k]].filed == fd2[k] by {
        if k != p {
            let k0 = if k < p {
                k
            } else {
                k - 1
            };
            lemma_still_latest(fs, out, src, k0, x);
            assert(out2[k] == out[k0] && src2[k] == src[k0] && fd2[k] == fd[k0]);
        }
    }
    assert forall|i: int| #![trigger fs2[i]] 0 <= i < fs2.len() implies has_key(out2, fact_key(fs2[i].fact)) by {
        if i == n {
            assert(fact_key(out2[p]) == fact_key(fs2[i].fact));
        } else {
            assert(fs2[i] == fs[i]);
            assert(has_key(out, fact_key(fs[i].fact)));
            let k = choose|k: int| 0 <= k < out.len() && #[trigger] fact_key(out[k]) == fact_key(fs[i].fact);
            if k < p {
                assert(fact_key(out2[k]) == fact_key(fs2[i].fact));
            } else {
                assert(fact_key(out2[k + 1]) == fact_key(fs2[i].fact));
            }
        }
    }
}

/// A kept fact stays the latest for its key when a filing with another key
/// comes in.
proof fn lemma_still_latest(fs: Seq<Filing>, out: Seq<FactView>, src: Seq<int>, k0: int, x: Filing)
    requires
        0 <= k0 < out.len(),
        latest_filing(fs, src[k0]),
        fs[src[k0]].fact == out[k0],
        fact_key(out[k0]) != fact_key(x.fact),
    ensures
        latest_filing(fs.push(x), src[k0]),
        fs.push(x)[src[k0]] == fs[src[k0]],
{
    let fs2 = fs.push(x);
    let n = fs.len() as int;
    assert forall|j: int|
        #![trigger fs2[j]]
        0 <= j < fs2.len() && fact_key(fs2[j].fact) == fact_key(fs2[src[k0]].fact) implies !seq_lt(
        fs2[src[k0]].filed,
        fs2[j].filed,
    ) && (src[k0] < j ==> seq_lt(fs2[j].filed, fs2[src[k0]].filed)) by {
        if j < n {
            assert(fs2[j] == fs[j]);
        }
    }
}

/// The abstract values of a run of facts.
pub open spec fn fact_views(v: Seq<FinancialFact>) -> Seq<FactView> {
    v.map_values(|f: FinancialFact| f@)
}

/// The character views of a run of strings.
pub open spec fn string_views(v: Seq<String>) -> Seq<Seq<char>> {
    v.map_values(|s: String| s@)
}

fn key_less(a: &FinancialFact, b: &FinancialFact) -> (r: bool)
    ensures
        r == fact_key_lt(fact_key(a@), fact_key(b@)),
{
    if str_lt(a.line_item.as_str(), b.line_item.as_str()) {
        return true;
    }
    if !str_eq(a.line_item.as_str(), b.line_item.as_str()) {
        return false;
    }
    let (pa, pb) = (a.period_type.as_str(), b.period_type.as_str());
    if str_lt(pa, pb) {
        return true;
    }
    if !str_eq(pa, pb) {
        return false;
    }
    a.period_end < b.period_end
}

fn key_same(a: &FinancialFact, b: &FinancialFact) -> (r: bool)
    ensures
        r == (fact_key(a@) == fact_key(b@)),
{
    proof {
        period_type_round_trip(a.period_type);
        period_type_round_trip(b.period_type);
    }
    str_eq(a.line_item.as_str(), b.line_item.as_str()) && a.period_type == b.period_type
        && a.period_end == b.period_end
}

/// The first position whose key is not below `x`'s.
fn find_slot(facts: &Vec<FinancialFact>, x: &FinancialFact) -> (p: usize)
    ensures
        p <= facts@.len(),
        forall|a: int| 0 <= a < p ==> fact_key_lt(#[trigger] fact_key(facts@[a]@), fact_key(x@)),
        p < facts@.len() ==> !fact_key_lt(fact_key(facts@[p as int]@), fact_key(x@)),
{
    let mut p: usize = 0;
    while p < facts.len() && key_less(&facts[p], x)
        invariant
            p <= facts@.len(),
            forall|a: int| 0 <= a < p ==> fact_key_lt(#[trigger] fact_key(facts@[a]@), fact_key(x@)),
        decreases facts.len() - p,
    {
        p = p + 1;
    }
    p
}

/// Keep `fact` (filed on `when`) if no kept fact for its key was filed later.
fn absorb(
    facts: &mut Vec<FinancialFact>,
    filed: &mut Vec<String>,
    fact: FinancialFact,
    when: String,
    Ghost(fs): Ghost<Seq<Filing>>,
    Ghost(src): Ghost<Seq<int>>,
) -> (new_src: Ghost<Seq<int>>)
    requires
        kept(fs, fact_views(old(facts)@), string_views(old(filed)@), src),
    ensures
        kept(
            fs.push(Filing { fact: fact@, filed: when@ }),
            fact_views(final(facts)@),
            string_views(final(filed)@),
            new_src@,
        ),
{
    let ghost x = Filing { fact: fact@, filed: when@ };
    let ghost out = fact_views(facts@);
    let ghost fd = string_views(filed@);
    let p = find_slot(facts, &fact);
    if p < facts.len() && key_same(&facts[p], &fact) {
        if str_lt(when.as_str(), filed[p].as_str()) {
            proof {
                lemma_kept_skip(fs, out, fd, src, p as int, x);
            }
            Ghost(src)
        } else {
            proof {
                lemma_kept_replace(fs, out, fd, src, p as int, x);
            }
            facts.set(p, fact);
            filed.set(p, when);
            assert(fact_views(facts@) =~= out.update(p as int, x.fact));
            assert(string_views(filed@) =~= fd.update(p as int, x.filed));
            Ghost(src.update(p as int, fs.len() as int))
        }
    } else {
        proof {
            if p < out.len() {
                lemma_key_total(fact_key(out[p as int]), fact_key(x.fact));
            }
            lemma_kept_insert(fs, out, fd, src, p as int, x);
        }
        facts.insert(p, fact);
        filed.insert(p, when);
        assert(fact_views(facts@) =~= out.insert(p as int, x.fact));
        assert(string_views(filed@) =~= fd.insert(p as int, x.filed));
        Ghost(src.insert(p as int, fs.len() as int))
    }
}

/// Read one entry of concept `c` as a fact and its filing date.
fn read_entry(company_id: i64, now: i64, c: usize, e: &Json) -> (r: Option<(FinancialFact, String)>)
    requires
        c < CONCEPT_COUNT,
    ensures
        match r {
            Some((f, when)) => entry_filing(company_id, now, c as int, *e) == Some(
                Filing { fact: f@, filed: when@ },
            ),
            None => entry_filing(company_id, now, c as int, *e) is None,
        },
{
    let fp = match as_str(field(Some(e), "fp")) {
        Some(fp) => fp,
        None => return None,
    };
    let period_type = match period_type_from_fp(fp) {
        Some(p) => p,
        None => return None,
    };
    let end = match as_str(field(Some(e), "end")) {
        Some(t) => t,
        None => return None,
    };
    let day = match parse_iso_day(end) {
        Some(d) => d,
        None => return None,
    };
    let value = match field(Some(e), "val") {
        Some(Json::Number(v)) => v.clone(),
        _ => return None,
    };
    let when = match as_str(field(Some(e), "filed")) {
        Some(f) => owned(f),
        None => String::new(),
    };
    let (_name, statement, line_item) = concept(c);
    let fact = FinancialFact {
        company_id,
        statement,
        line_item: owned(line_item),
        period_type,
        period_end: day as i64,
        value,
        source: owned("edgar"),
        fetched_at: now,
    };
    Some((fact, when))
}

/// The entries of concept `c` in `doc`.
fn concept_entries<'a>(doc: &'a Json, c: usize) -> (r: Option<&'a Vec<Json>>)
    requires
        c < CONCEPT_COUNT,
    ensures
        match r {
            Some(es) => unit_entries(*doc, c as int) == Some(es@),
            None => unit_entries(*doc, c as int) is None,
        },
{
    let (name, _statement, _line_item) = concept(c);
    let units = field(field(field(field(Some(doc), "facts"), "us-gaap"), name), "units");
    match units {
        Some(Json::Object(ms)) => {
            let chosen = match field(units, "USD") {
                Some(u) => Some(u),
                None => if ms.len() > 0 {
                    Some(&ms[0].value)
                } else {
                    None
                },
            };
            match chosen {
                Some(Json::Array(es)) => Some(es),
                _ => None,
            }
        },
        _ => None,
    }
}

/// Parse a companyfacts document. Later filings for the same (line item,
/// period type, period end) supersede earlier ones; the facts come out in
/// key order.
pub fn parse_companyfacts(company_id: i64, doc: &Json, now: i64) -> (r: Vec<FinancialFact>)
    ensures
        deduped(all_filings(*doc, company_id, now), fact_views(r@)),
{
    let mut facts: Vec<FinancialFact> = Vec::new();
    let mut filed: Vec<String> = Vec::new();
    let ghost mut fs: Seq<Filing> = Seq::empty();
    let ghost mut src: Seq<int> = Seq::empty();
    assert(fact_views(facts@) =~= Seq::<FactView>::empty());
    assert(string_views(filed@) =~= Seq::<Seq<char>>::empty());
    let mut c: usize = 0;
    while c < CONCEPT_COUNT
        invariant
            c <= CONCEPT_COUNT,
            fs == filings_upto(*doc, company_id, now, c as int),
            kept(fs, fact_views(facts@), string_views(filed@), src),
        decreases CONCEPT_COUNT - c,
    {
        match concept_entries(doc, c) {
            Some(es) => {
                let mut j: usize = 0;
                assert(es@.subrange(0, 0) =~= Seq::<Json>::empty());
                assert(fs =~= filings_upto(*doc, company_id, now, c as int) + entries_filings(
                    company_id,
                    now,
                    c as int,
                    es@.subrange(0, 0),
                ));
                while j < es.len()
                    invariant
                        c < CONCEPT_COUNT,
                        j <= es@.len(),
                        unit_entries(*doc, c as int) == Some(es@),
                        fs == filings_upto(*doc, company_id, now, c as int) + entries_filings(
                            company_id,
                            now,
                            c as int,
                            es@.subrange(0, j as int),
                        ),
                        kept(fs, fact_views(facts@), string_views(filed@), src),
                    decreases es.len() - j,
                {
                    let ghost run = es@.subrange(0, j + 1);
                    assert(run.drop_last() =~= es@.subrange(0, j as int));
                    match read_entry(company_id, now, c, &es[j]) {
                        Some((fact, when)) => {
                            let ghost x = Filing { fact: fact@, filed: when@ };
                            let Ghost(next) = absorb(
                                &mut facts,
                                &mut filed,
                                fact,
                                when,
                                Ghost(fs),
                                Ghost(src),
                            );
                            proof {
                                fs = fs.push(x);
                                src = next;
                            }
                        },
                        None => {},
                    }
                    j = j + 1;
                }
                assert(es@.subrange(0, es@.len() as int) =~= es@);
            },
            None => {
                assert(fs =~= fs + Seq::<Filing>::empty());
            },
        }
        c = c + 1;
    }
    proof {
        lemma_kept_deduped(fs, fact_views(facts@), string_views(filed@), src);
    }
    facts
}

} // verus!
