//! Insider ownership from SEC EDGAR Form 4 filings: the filing URLs and the
//! extraction of reporting owners, report period and resulting share count
//! from a Form 4 XML body.

use vstd::prelude::*;
use vstd::seq_lib::lemma_seq_contains_after_push;

use crate::collectors::edgar::submissions_url_of;
use crate::collectors::json::{as_str, at_key, field, json_str, Json};
use crate::collectors::{iso_day, parse_iso_day};
use crate::text::{all_between, between, cat3, chars_of, find_from, first_at, inner, inner_all, lemma_first_at, occurs_at, owned, pad_zeros, remove_char, str_views, strip_leading, trim, trim_start_char, after_last, trimmed, without_char, last_segment};

verus! {

/// Cap on Form 4 filings fetched per company (EDGAR is rate-limited).
pub const MAX_FORM4: usize = 25;

/// Source label stamped on Form 4 holdings.
pub const FORM4_SOURCE: &'static str = "edgar-form4";

/// Collects insider positions from a company's recent Form 4 filings.
pub struct OwnershipCollector<H> {
    pub http: H,
}

/// The raw-XML URL of one filing: the CIK without leading zeros, the accession
/// number without dashes, and the document name without any styled-view
/// wrapper directory.
pub open spec fn filing_url_of(cik: Seq<char>, accession: Seq<char>, doc: Seq<char>) -> Seq<char> {
    "https://www.sec.gov/Archives/edgar/data/"@ + strip_leading(cik, '0') + "/"@ + without_char(
        accession,
        '-',
    ) + "/"@ + last_segment(doc, '/')
}

impl<H> OwnershipCollector<H> {
    /// The name this source reports holdings under.
    pub fn name(&self) -> (r: &'static str)
        ensures
            r@ == FORM4_SOURCE@,
    {
        FORM4_SOURCE
    }

    pub fn new(http: H) -> (r: Self)
        ensures
            r.http == http,
    {
        OwnershipCollector { http }
    }

    /// The submissions feed URL listing a company's recent filings.
    pub fn submissions_url(cik: &str) -> (r: String)
        ensures
            r@ == submissions_url_of(cik@),
    {
        let padded = pad_zeros(cik, 10);
        cat3("https://data.sec.gov/submissions/CIK", padded.as_str(), ".json")
    }

    /// Raw-XML URL for one filing. Strips EDGAR's human-readable `xslF345X05/`
    /// wrapper (the styled view) to reach the machine-readable document.
    pub fn filing_url(cik: &str, accession: &str, doc: &str) -> (r: String)
        ensures
            r@ == filing_url_of(cik@, accession@, doc@),
    {
        let cik_int = trim_start_char(cik, '0');
        let acc = remove_char(accession, '-');
        let doc_name = after_last(doc, '/');
        let mut u = owned("https://www.sec.gov/Archives/edgar/data/");
        u.append(cik_int);
        u.append("/");
        u.append(acc.as_str());
        u.append("/");
        u.append(doc_name);
        u
    }
}

/// The trimmed, non-empty texts among `raw`, in order.
pub open spec fn kept_names(raw: Seq<Seq<char>>) -> Seq<Seq<char>>
    decreases raw.len(),
{
    if raw.len() == 0 {
        Seq::empty()
    } else {
        let rest = kept_names(raw.drop_last());
        let t = trimmed(raw.last());
        if t.len() > 0 {
            rest.push(t)
        } else {
            rest
        }
    }
}

/// The reporting owners named in a Form 4 body (`<rptOwnerName>` texts,
/// trimmed, blanks dropped), in document order.
pub fn report_owners(xml: &str) -> (r: Vec<String>)
    ensures
        r@.map_values(|s: String| s@) == kept_names(
            all_between(xml@, "<rptOwnerName>"@, "</rptOwnerName>"@, 0),
        ),
{
    proof {
        reveal_strlit("<rptOwnerName>");
    }
    let raw = inner_all(xml, "<rptOwnerName>", "</rptOwnerName>");
    let ghost texts = all_between(xml@, "<rptOwnerName>"@, "</rptOwnerName>"@, 0);
    let mut out: Vec<String> = Vec::new();
    let mut i: usize = 0;
    while i < raw.len()
        invariant
            i <= raw.len(),
            str_views(raw@) == texts,
            out@.map_values(|s: String| s@) == kept_names(texts.subrange(0, i as int)),
        decreases raw.len() - i,
    {
        assert(texts.subrange(0, i + 1).drop_last() =~= texts.subrange(0, i as int));
        let t = trim(raw[i]);
        let ghost before = out@.map_values(|s: String| s@);
        if t.unicode_len() > 0 {
            out.push(owned(t));
            assert(out@.map_values(|s: String| s@) =~= before.push(t@));
        }
        i = i + 1;
    }
    assert(texts.subrange(0, raw.len() as int) =~= texts);
    out
}

/// The trimmed `<periodOfReport>` text of a Form 4 body, if present.
pub fn report_period(xml: &str) -> (r: Option<&str>)
    ensures
        match r {
            Some(t) => between(xml@, "<periodOfReport>"@, "</periodOfReport>"@) matches Some(p)
                && t@ == trimmed(p),
            None => between(xml@, "<periodOfReport>"@, "</periodOfReport>"@) is None,
        },
{
    match inner(xml, "<periodOfReport>", "</periodOfReport>") {
        Some(p) => Some(trim(p)),
        None => None,
    }
}

/// The post-transaction marker whose `<value>` gives an owner's resulting
/// position.
pub open spec fn shares_anchor() -> Seq<char> {
    "<sharesOwnedFollowingTransaction>"@
}

/// The `<value>` texts found after each post-transaction marker from `pos`
/// on, in document order (each looked up in the rest of the document).
pub open spec fn shares_texts(s: Seq<char>, pos: int) -> Seq<Seq<char>>
    decreases s.len() + 1 - pos,
{
    if pos < 0 || pos > s.len() {
        Seq::empty()
    } else {
        match first_at(s, shares_anchor(), pos) {
            None => Seq::empty(),
            Some(a) => {
                let st = a + shares_anchor().len();
                if pos < st <= s.len() {
                    let here = match between(s.subrange(st, s.len() as int), "<value>"@, "</value>"@) {
                        Some(v) => seq![v],
                        None => Seq::empty(),
                    };
                    here + shares_texts(s, st)
                } else {
                    Seq::empty()
                }
            },
        }
    }
}

/// The `<value>` text of the last post-transaction block of a Form 4 body —
/// the owner's most recently reported resulting position.
pub fn last_shares_text(xml: &str) -> (r: Option<&str>)
    ensures
        match r {
            Some(t) => shares_texts(xml@, 0).len() > 0 && t@ == shares_texts(xml@, 0).last(),
            None => shares_texts(xml@, 0).len() == 0,
        },
{
    proof {
        reveal_strlit("<sharesOwnedFollowingTransaction>");
        assert(shares_anchor().len() == 33);
    }
    let cs = chars_of(xml);
    let anchor = chars_of("<sharesOwnedFollowingTransaction>");
    let n: usize = cs.len();
    let mut last: Option<&str> = None;
    let mut pos: usize = 0;
    loop
        invariant
            cs@ == xml@,
            n == cs@.len(),
            anchor@ == shares_anchor(),
            anchor@.len() == 33,
            pos <= n,
            match last {
                Some(t) => {
                    let rest = shares_texts(xml@, pos as int);
                    let all = shares_texts(xml@, 0);
                    all.len() > 0 && (if rest.len() > 0 {
                        all.last() == rest.last()
                    } else {
                        t@ == all.last()
                    })
                },
                None => shares_texts(xml@, 0) == shares_texts(xml@, pos as int),
            },
        ensures
            match last {
                Some(t) => shares_texts(xml@, 0).len() > 0 && t@ == shares_texts(xml@, 0).last(),
                None => shares_texts(xml@, 0).len() == 0,
            },
        decreases n + 1 - pos,
    {
        let a = match find_from(&cs, &anchor, pos) {
            None => {
                assert(shares_texts(xml@, pos as int) =~= Seq::empty());
                break;
            },
            Some(a) => a,
        };
        proof {
            lemma_first_at(cs@, anchor@, pos as int);
            assert(occurs_at(cs@, anchor@, a as int));
        }
        let st: usize = a + anchor.len();
        let rest = xml.substring_char(st, n);
        let found = inner(rest, "<value>", "</value>");
        let ghost here = match between(xml@.subrange(st as int, n as int), "<value>"@, "</value>"@) {
            Some(v) => seq![v],
            None => Seq::<Seq<char>>::empty(),
        };
        assert(shares_texts(xml@, pos as int) == here + shares_texts(xml@, st as int));
        if let Some(v) = found {
            last = Some(v);
        }
        pos = st;
    }
    last
}

/// The `filings.recent` arrays of a submissions document: forms, accession
/// numbers and primary documents, when all three are arrays.
pub open spec fn recent_arrays(doc: Json) -> Option<(Seq<Json>, Seq<Json>, Seq<Json>)> {
    let recent = at_key(at_key(Some(doc), "filings"@), "recent"@);
    match (at_key(recent, "form"@), at_key(recent, "accessionNumber"@), at_key(recent, "primaryDocument"@)) {
        (Some(Json::Array(f)), Some(Json::Array(a)), Some(Json::Array(d))) => Some((f@, a@, d@)),
        _ => None,
    }
}

/// The (accession, primary document) pairs of the first `n` forms that are
/// `"4"` and have both strings at their position.
pub open spec fn form4_pairs(forms: Seq<Json>, accs: Seq<Json>, docs: Seq<Json>, n: int) -> Seq<
    (Seq<char>, Seq<char>),
>
    decreases n,
{
    if n <= 0 {
        Seq::empty()
    } else {
        let rest = form4_pairs(forms, accs, docs, n - 1);
        let i = n - 1;
        if json_str(Some(forms[i])) == Some("4"@) {
            let acc = if i < accs.len() {
                json_str(Some(accs[i]))
            } else {
                None
            };
            let d = if i < docs.len() {
                json_str(Some(docs[i]))
            } else {
                None
            };
            match (acc, d) {
                (Some(a), Some(d)) => rest.push((a, d)),
                _ => rest,
            }
        } else {
            rest
        }
    }
}

/// Pair `p` (accession, primary document) is read from position `i` of the
/// filing arrays: the form there is the string `4`, and both the accession
/// number and the primary document there are strings, which `p` holds.
pub open spec fn pair_reads_filing(p: (Seq<char>, Seq<char>), forms: Seq<Json>, accs: Seq<Json>, docs: Seq<Json>, i: int) -> bool {
    &&& 0 <= i < forms.len()
    &&& forms[i] matches Json::Str(f) && f@ == "4"@
    &&& i < accs.len() && (accs[i] matches Json::Str(a) && a@ == p.0)
    &&& i < docs.len() && (docs[i] matches Json::Str(d) && d@ == p.1)
}

/// The Form 4 filings listed are exactly the positions whose form is `4` and
/// whose accession number and primary document are both strings: a pair is
/// among them if and only if it is read from some such position (see
/// [`pair_reads_filing`]).
pub proof fn form4_pairs_read_filings(forms: Seq<Json>, accs: Seq<Json>, docs: Seq<Json>, n: int, p: (Seq<char>, Seq<char>))
    requires
        0 <= n <= forms.len(),
    ensures
        form4_pairs(forms, accs, docs, n).contains(p) <==> exists|i: int|
            0 <= i < n && #[trigger] pair_reads_filing(p, forms, accs, docs, i),
    decreases n,
{
    if n > 0 {
        form4_pairs_read_filings(forms, accs, docs, n - 1, p);
        let i = n - 1;
        let rest = form4_pairs(forms, accs, docs, n - 1);
        if json_str(Some(forms[i])) == Some("4"@) {
            let acc = if i < accs.len() { json_str(Some(accs[i])) } else { None };
            let d = if i < docs.len() { json_str(Some(docs[i])) } else { None };
            match (acc, d) {
                (Some(a), Some(dd)) => {
                    lemma_seq_contains_after_push(rest, (a, dd), p);
                    assert(pair_reads_filing(p, forms, accs, docs, i) <==> p == (a, dd));
                },
                _ => {
                    assert(!pair_reads_filing(p, forms, accs, docs, i));
                },
            }
        } else {
            assert(!pair_reads_filing(p, forms, accs, docs, i));
        }
    }
}

/// The (accession, primaryDocument) pairs of the `form == "4"` filings in a
/// submissions feed. Missing/garbled arrays yield an empty list (not an error).
pub fn parse_form4_filings(doc: &Json) -> (r: Vec<(String, String)>)
    ensures
        r@.map_values(|p: (String, String)| (p.0@, p.1@)) == match recent_arrays(*doc) {
            Some((f, a, d)) => form4_pairs(f, a, d, f.len() as int),
            None => Seq::empty(),
        },
{
    let recent = field(field(Some(doc), "filings"), "recent");
    let (forms, accs, docs) = match (
        field(recent, "form"),
        field(recent, "accessionNumber"),
        field(recent, "primaryDocument"),
    ) {
        (Some(Json::Array(f)), Some(Json::Array(a)), Some(Json::Array(d))) => (f, a, d),
        _ => {
            return Vec::new();
        },
    };
    let mut out: Vec<(String, String)> = Vec::new();
    let mut i: usize = 0;
    while i < forms.len()
        invariant
            i <= forms@.len(),
            recent_arrays(*doc) == Some((forms@, accs@, docs@)),
            out@.map_values(|p: (String, String)| (p.0@, p.1@)) == form4_pairs(
                forms@,
                accs@,
                docs@,
                i as int,
            ),
        decreases forms.len() - i,
    {
        let is4 = match &forms[i] {
            Json::Str(f) => crate::text::str_eq(f.as_str(), "4"),
            _ => false,
        };
        if is4 {
            let acc = if i < accs.len() {
                as_str(Some(&accs[i]))
            } else {
                None
            };
            let d = if i < docs.len() {
                as_str(Some(&docs[i]))
            } else {
                None
            };
            match (acc, d) {
                (Some(acc), Some(d)) => {
                    let ghost before = out@.map_values(|p: (String, String)| (p.0@, p.1@));
                    out.push((owned(acc), owned(d)));
                    assert(out@.map_values(|p: (String, String)| (p.0@, p.1@)) =~= before.push(
                        (acc@, d@),
                    ));
                },
                _ => {},
            }
        }
        i = i + 1;
    }
    out
}

/// One parsed Form 4: its reporting owners, the text of their resulting share
/// count, and the report period as a day count since 1970-01-01.
#[derive(Debug, Clone, PartialEq, Eq)]
pub struct Form4 {
    pub owners: Vec<String>,
    pub shares: String,
    pub as_of: i32,
}

/// Extract reporting owners, the latest post-transaction share count, and the
/// report date from a Form 4 XML body. `None` if any of those is absent.
pub fn parse_form4(xml: &str) -> (r: Option<Form4>)
    ensures
        match r {
            Some(f) => {
                &&& f.owners@.map_values(|s: String| s@) == kept_names(
                    all_between(xml@, "<rptOwnerName>"@, "</rptOwnerName>"@, 0),
                )
                &&& f.owners@.len() > 0
                &&& between(xml@, "<periodOfReport>"@, "</periodOfReport>"@) matches Some(p)
                    && iso_day(trimmed(p)) == Some(f.as_of)
                &&& shares_texts(xml@, 0).len() > 0 && f.shares@ == trimmed(
                    shares_texts(xml@, 0).last(),
                )
            },
            None => {
                ||| kept_names(all_between(xml@, "<rptOwnerName>"@, "</rptOwnerName>"@, 0)).len()
                    == 0
                ||| !(between(xml@, "<periodOfReport>"@, "</periodOfReport>"@) matches Some(p)
                    && iso_day(trimmed(p)) is Some)
                ||| shares_texts(xml@, 0).len() == 0
            },
        },
{
    let owners = report_owners(xml);
    if owners.len() == 0 {
        assert(owners@.map_values(|s: String| s@).len() == 0);
        return None;
    }
    let as_of = match report_period(xml) {
        Some(p) => match parse_iso_day(p) {
            Some(d) => d,
            None => return None,
        },
        None => return None,
    };
    let shares = match last_shares_text(xml) {
        Some(v) => owned(trim(v)),
        None => return None,
    };
    Some(Form4 { owners, shares, as_of })
}

} // verus!
