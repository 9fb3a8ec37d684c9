//! SEC EDGAR: the canonical fundamentals source.

use vstd::prelude::*;
use vstd::seq_lib::lemma_seq_contains_after_push;

use crate::collectors::json::{
    as_i64, as_str, deref_opt, field, item, json_field, json_i64, json_item, json_nonempty,
    json_str, nonempty, Json, Member,
};
use crate::domain::{opt_view, CompanyProfile, ProfileView};
use crate::text::{
    cat3, decimal_int, format_i64, owned, pad_zeros, to_uppercase, uppercase_of, zero_padded,
};

verus! {

/// A company identity from SEC's ticker directory.
#[derive(Debug, Clone, PartialEq, Eq)]
pub struct CompanyRef {
    pub cik: String,
    pub ticker: String,
    pub name: String,
}

/// Collects canonical fundamentals from SEC EDGAR's companyfacts API.
pub struct EdgarCollector<H> {
    pub http: H,
}

/// The companyfacts URL for a CIK.
pub open spec fn companyfacts_url_of(cik: Seq<char>) -> Seq<char> {
    "https://data.sec.gov/api/xbrl/companyfacts/CIK"@ + zero_padded(cik, 10) + ".json"@
}

/// The submissions (company profile / filings index) URL for a CIK.
pub open spec fn submissions_url_of(cik: Seq<char>) -> Seq<char> {
    "https://data.sec.gov/submissions/CIK"@ + zero_padded(cik, 10) + ".json"@
}

impl<H> EdgarCollector<H> {
    /// The name this source reports facts and profiles under.
    pub fn name(&self) -> (r: &'static str)
        ensures
            r@ == "edgar"@,
    {
        "edgar"
    }

    pub fn new(http: H) -> (r: Self)
        ensures
            r.http == http,
    {
        EdgarCollector { http }
    }

    /// Build the companyfacts URL for a (possibly unpadded) CIK.
    pub fn companyfacts_url(cik: &str) -> (r: String)
        ensures
            r@ == companyfacts_url_of(cik@),
    {
        let padded = pad_zeros(cik, 10);
        cat3("https://data.sec.gov/api/xbrl/companyfacts/CIK", padded.as_str(), ".json")
    }

    /// Build the submissions (company profile) URL for a CIK.
    pub fn submissions_url(cik: &str) -> (r: String)
        ensures
            r@ == submissions_url_of(cik@),
    {
        let padded = pad_zeros(cik, 10);
        cat3("https://data.sec.gov/submissions/CIK", padded.as_str(), ".json")
    }
}

/// The abstract value of a directory entry: CIK, ticker, name.
pub open spec fn company_ref_view(r: CompanyRef) -> (Seq<char>, Seq<char>, Seq<char>) {
    (r.cik@, r.ticker@, r.name@)
}

/// The abstract values of a run of directory entries.
pub open spec fn ref_views(v: Seq<CompanyRef>) -> Seq<(Seq<char>, Seq<char>, Seq<char>)> {
    v.map_values(|c: CompanyRef| company_ref_view(c))
}

/// The field `key` of a member's value.
pub open spec fn entry_field(m: Member, key: Seq<char>) -> Option<Json> {
    json_field(m.value, key)
}

/// The directory entries that SEC's `company_tickers.json` members yield, in
/// member order: entries without an integer `cik_str` or a string `ticker`
/// are skipped; the CIK is zero-padded to ten digits, the ticker upper-cased,
/// and a missing `title` becomes the empty name.
pub open spec fn ticker_refs(members: Seq<Member>) -> Seq<(Seq<char>, Seq<char>, Seq<char>)>
    decreases members.len(),
{
    if members.len() == 0 {
        Seq::empty()
    } else {
        let m = members.last();
        let earlier = ticker_refs(members.drop_last());
        match (json_i64(entry_field(m, "cik_str"@)), json_str(entry_field(m, "ticker"@))) {
            (Some(cik), Some(ticker)) => earlier.push(
                (
                    zero_padded(decimal_int(cik as int), 10),
                    uppercase_of(ticker),
                    match json_str(entry_field(m, "title"@)) {
                        Some(t) => t,
                        None => Seq::empty(),
                    },
                ),
            ),
            _ => earlier,
        }
    }
}

/// Entry `e` (CIK, ticker, name) is read from member `m`: `m` has an
/// integer `cik_str`, whose decimal digits zero-padded to ten are the CIK,
/// and a string `ticker`, which upper-cased is the ticker; the name is its
/// `title` text, or empty when there is none.
pub open spec fn ref_reads_member(e: (Seq<char>, Seq<char>, Seq<char>), m: Member) -> bool {
    &&& json_i64(json_field(m.value, "cik_str"@)) is Some
    &&& json_str(json_field(m.value, "ticker"@)) is Some
    &&& e.0 == zero_padded(decimal_int(json_i64(json_field(m.value, "cik_str"@)).unwrap() as int), 10)
    &&& e.1 == uppercase_of(json_str(json_field(m.value, "ticker"@)).unwrap())
    &&& e.2 == (if json_str(json_field(m.value, "title"@)) is Some {
        json_str(json_field(m.value, "title"@)).unwrap()
    } else {
        Seq::empty()
    })
}

/// The directory entries read from SEC's ticker document are exactly those
/// its members give: an entry is among them if and only if it is read from
/// some member (see [`ref_reads_member`]); a member without an integer CIK
/// or a string ticker gives none.
pub proof fn ticker_refs_read_members(members: Seq<Member>, e: (Seq<char>, Seq<char>, Seq<char>))
    ensures
        ticker_refs(members).contains(e) <==> exists|k: int|
            0 <= k < members.len() && ref_reads_member(e, #[trigger] members[k]),
    decreases members.len(),
{
    if members.len() > 0 {
        let init = members.drop_last();
        let m = members.last();
        ticker_refs_read_members(init, e);
        match (json_i64(entry_field(m, "cik_str"@)), json_str(entry_field(m, "ticker"@))) {
            (Some(cik), Some(ticker)) => {
                let x = (
                    zero_padded(decimal_int(cik as int), 10),
                    uppercase_of(ticker),
                    match json_str(entry_field(m, "title"@)) {
                        Some(t) => t,
                        None => Seq::empty(),
                    },
                );
                lemma_seq_contains_after_push(ticker_refs(init), x, e);
                assert(ticker_refs(members) == ticker_refs(init).push(x));
                assert(ref_reads_member(e, m) <==> e == x);
            },
            _ => {
                assert(!ref_reads_member(e, m));
            },
        }
        if exists|k: int| 0 <= k < members.len() && ref_reads_member(e, #[trigger] members[k]) {
            let k = choose|k: int| 0 <= k < members.len() && ref_reads_member(e, #[trigger] members[k]);
            if k < members.len() - 1 {
                assert(init[k] == members[k]);
            }
        }
        if exists|k: int| 0 <= k < init.len() && ref_reads_member(e, #[trigger] init[k]) {
            let k = choose|k: int| 0 <= k < init.len() && ref_reads_member(e, #[trigger] init[k]);
            assert(members[k] == init[k]);
        }
    }
}

/// Parse SEC's `company_tickers.json` (an object keyed by index). Entries
/// missing a CIK or ticker are skipped; any other document gives no entries.
pub fn parse_company_tickers(doc: &Json) -> (r: Vec<CompanyRef>)
    ensures
        r@.map_values(|c: CompanyRef| company_ref_view(c)) == match doc {
            Json::Object(members) => ticker_refs(members@),
            _ => Seq::empty(),
        },
        forall|e: (Seq<char>, Seq<char>, Seq<char>)|
            #[trigger] ref_views(r@).contains(e) <==> match doc {
                Json::Object(members) => exists|k: int|
                    0 <= k < members@.len() && ref_reads_member(e, #[trigger] members@[k]),
                _ => false,
            },
{
    let mut refs: Vec<CompanyRef> = Vec::new();
    match doc {
        Json::Object(members) => {
            let mut i: usize = 0;
            while i < members.len()
                invariant
                    i <= members@.len(),
                    refs@.map_values(|c: CompanyRef| company_ref_view(c)) == ticker_refs(
                        members@.subrange(0, i as int),
                    ),
                decreases members.len() - i,
            {
                let entry = &members[i].value;
                let ghost prefix = members@.subrange(0, i + 1);
                assert(prefix.drop_last() =~= members@.subrange(0, i as int));
                assert(prefix.last() == members@[i as int]);
                let cik = as_i64(field(Some(entry), "cik_str"));
                let ticker = as_str(field(Some(entry), "ticker"));
                match (cik, ticker) {
                    (Some(cik), Some(ticker)) => {
                        let padded = pad_zeros(format_i64(cik).as_str(), 10);
                        let name = match as_str(field(Some(entry), "title")) {
                            Some(t) => owned(t),
                            None => String::new(),
                        };
                        let r = CompanyRef { cik: padded, ticker: to_uppercase(ticker), name };
                        let ghost before = refs@;
                        refs.push(r);
                        assert(refs@.map_values(|c: CompanyRef| company_ref_view(c))
                            =~= before.map_values(|c: CompanyRef| company_ref_view(c)).push(
                            company_ref_view(r),
                        ));
                    },
                    _ => {},
                }
                i = i + 1;
            }
            assert(members@.subrange(0, members@.len() as int) =~= members@);
        },
        _ => {},
    }
    proof {
        if let Json::Object(members) = doc {
            assert forall|e: (Seq<char>, Seq<char>, Seq<char>)|
                #[trigger] ref_views(refs@).contains(e) <==> exists|k: int|
                    0 <= k < members@.len() && ref_reads_member(e, #[trigger] members@[k]) by {
                ticker_refs_read_members(members@, e);
            }
        }
    }
    refs
}

/// The profile bits EDGAR's submissions document gives: `sicDescription` as
/// industry, the first `exchanges` entry as exchange, and the prose fields
/// when they are non-empty.
pub open spec fn submissions_profile(doc: Json) -> ProfileView {
    ProfileView {
        sector: None,
        industry: json_nonempty(json_field(doc, "sicDescription"@)),
        exchange: json_nonempty(
            match json_field(doc, "exchanges"@) {
                Some(a) => json_item(a, 0),
                None => None,
            },
        ),
        website: json_nonempty(json_field(doc, "website"@)),
        description: json_nonempty(json_field(doc, "description"@)),
        employees: None,
    }
}

/// Parse SEC's `submissions/CIK….json` into the canonical bits of a company
/// profile: `sicDescription` → industry, first `exchanges` entry → exchange.
/// (EDGAR's prose `description`/`website` are usually empty; Yahoo fills those.)
pub fn parse_submissions_profile(doc: &Json) -> (r: CompanyProfile)
    ensures
        r@ == submissions_profile(*doc),
        r.sector is None,
        opt_view(r.industry) == json_nonempty(json_field(*doc, "sicDescription"@)),
        opt_view(r.exchange) == (match json_field(*doc, "exchanges"@) {
            Some(a) => json_nonempty(json_item(a, 0)),
            None => None,
        }),
        opt_view(r.website) == json_nonempty(json_field(*doc, "website"@)),
        opt_view(r.description) == json_nonempty(json_field(*doc, "description"@)),
        r.employees is None,
{
    let exchanges = field(Some(doc), "exchanges");
    CompanyProfile {
        sector: None,
        industry: nonempty(field(Some(doc), "sicDescription")),
        exchange: nonempty(item(exchanges, 0)),
        website: nonempty(field(Some(doc), "website")),
        description: nonempty(field(Some(doc), "description")),
        employees: None,
    }
}

} // verus!
