//! News sources: RSS feeds and Finnhub company news. Headlines are deduplicated
//! by a hash of their normalized text, so the same story from several sources
//! collapses to one row.

use vstd::prelude::*;
use vstd::seq_lib::lemma_seq_contains_after_push;

use crate::collectors::{chrono_day, CollectorError};
use crate::domain::{opt_view, NewsItem, NewsView};
use crate::text::{hex_digits, hex_fixed, lowercase_of, owned, squash_whitespace, squashed, string_of, to_lowercase};

verus! {

/// The 64-bit hash `std`'s `DefaultHasher::new()` gives a string (fixed keys,
/// so the same text hashes alike in every run of a build).
pub uninterp spec fn default_hash_of(s: Seq<char>) -> u64;

/// Hashes `s` with a fresh `std::collections::hash_map::DefaultHasher`.
#[verifier::external_body]
fn default_hash(s: &str) -> (r: u64)
    ensures
        r == default_hash_of(s@),
{
    let mut hasher = std::collections::hash_map::DefaultHasher::new();
    std::hash::Hash::hash(s, &mut hasher);
    std::hash::Hasher::finish(&hasher)
}

/// A headline normalized for dedup: whitespace runs collapsed, lowercased.
pub open spec fn normalized_title(title: Seq<char>) -> Seq<char> {
    lowercase_of(squashed(title))
}

/// The dedup key of a headline: 16 lowercase hex digits of the hash of its
/// normalized text.
pub open spec fn dedup_key(title: Seq<char>) -> Seq<char> {
    hex_fixed(default_hash_of(normalized_title(title)) as nat, 16)
}

/// Normalize a headline for dedup: collapse whitespace, lowercase.
pub fn normalize(title: &str) -> (r: String)
    ensures
        r@ == normalized_title(title@),
{
    let squashed_text = squash_whitespace(title);
    to_lowercase(squashed_text.as_str())
}

/// Stable hex hash of a normalized headline, used to dedup across sources.
pub fn dedup_hash(title: &str) -> (r: String)
    ensures
        r@ == dedup_key(title@),
{
    let n = normalize(title);
    let h = default_hash(n.as_str());
    let digits = hex_digits(h, 16);
    string_of(&digits)
}

/// Headlines that normalize alike get the same dedup hash, whatever their
/// spacing.
pub proof fn same_normal_form_same_hash(a: Seq<char>, b: Seq<char>)
    requires
        normalized_title(a) == normalized_title(b),
    ensures
        dedup_key(a) == dedup_key(b),
{
}

/// Collects headlines from an RSS feed.
pub struct RssCollector<H> {
    pub http: H,
}

impl<H> RssCollector<H> {
    pub fn new(http: H) -> (r: Self)
        ensures
            r.http == http,
    {
        RssCollector { http }
    }
}

/// Collects headlines from the Finnhub company-news API.
pub struct FinnhubCollector<H> {
    pub http: H,
    pub api_key: String,
}

impl<H> FinnhubCollector<H> {
    pub fn new(http: H, api_key: String) -> (r: Self)
        ensures
            r.http == http,
            r.api_key == api_key,
    {
        FinnhubCollector { http, api_key }
    }

    pub fn news_url(symbol: &str, from: &str, to: &str, token: &str) -> (r: String)
        ensures
            r@ == "https://finnhub.io/api/v1/company-news?symbol="@ + symbol@ + "&from="@ + from@
                + "&to="@ + to@ + "&token="@ + token@,
    {
        let mut u = owned("https://finnhub.io/api/v1/company-news?symbol=");
        u.append(symbol);
        u.append("&from=");
        u.append(from);
        u.append("&to=");
        u.append(to);
        u.append("&token=");
        u.append(token);
        u
    }
}

/// Whether `chrono`'s `Utc.timestamp_opt(secs, 0)` names a single instant
/// (it does unless `secs` lies beyond the dates `chrono` represents).
pub open spec fn utc_second_exists(secs: i64) -> bool {
    chrono_day(secs as int / 86400)
}

/// Calls `chrono::Utc.timestamp_opt(secs, 0)` and tells its single-instant
/// outcome apart from the others.
#[verifier::external_body]
fn utc_second_ok(secs: i64) -> (r: bool)
    ensures
        r == utc_second_exists(secs),
{
    match chrono::TimeZone::timestamp_opt(&chrono::Utc, secs, 0) {
        chrono::LocalResult::Single(_) => true,
        _ => false,
    }
}

/// The instant, in seconds since the Unix epoch, that `text` names when read
/// by `chrono`'s `DateTime::parse_from_rfc2822`; `None` when that parse fails.
pub uninterp spec fn rfc2822_instant(text: Seq<char>) -> Option<i64>;

/// Calls `chrono::DateTime::parse_from_rfc2822` and gives the parsed instant
/// as its Unix timestamp.
#[verifier::external_body]
fn parse_rfc2822(text: &str) -> (r: Option<i64>)
    ensures
        r == rfc2822_instant(text@),
{
    match chrono::DateTime::parse_from_rfc2822(text) {
        Ok(d) => Some(d.timestamp()),
        Err(_) => None,
    }
}

/// One `<item>` of a feed: the parts the news decoder reads.
#[derive(Debug, Clone, PartialEq, Eq)]
pub struct FeedItem {
    pub title: Option<String>,
    pub link: Option<String>,
    pub description: Option<String>,
    pub pub_date: Option<String>,
}

/// The abstract value of a feed item: title, link, description, date.
pub open spec fn feed_item_view(i: FeedItem) -> (
    Option<Seq<char>>,
    Option<Seq<char>>,
    Option<Seq<char>>,
    Option<Seq<char>>,
) {
    (opt_view(i.title), opt_view(i.link), opt_view(i.description), opt_view(i.pub_date))
}

/// What `rss::Channel::read_from` reads from `xml`: each item's title, link,
/// description and publication date, in feed order; or its error's text.
pub uninterp spec fn feed_of(xml: Seq<char>) -> Result<
    Seq<(Option<Seq<char>>, Option<Seq<char>>, Option<Seq<char>>, Option<Seq<char>>)>,
    Seq<char>,
>;

/// Calls `rss::Channel::read_from` on the bytes of `xml` and copies out each
/// item's title, link, description and publication date.
#[verifier::external_body]
fn read_feed(xml: &str) -> (r: Result<Vec<FeedItem>, String>)
    ensures
        match r {
            Ok(items) => feed_of(xml@) == Ok::<_, Seq<char>>(
                items@.map_values(|i: FeedItem| feed_item_view(i)),
            ),
            Err(e) => feed_of(xml@) == Err::<
                Seq<(Option<Seq<char>>, Option<Seq<char>>, Option<Seq<char>>, Option<Seq<char>>)>,
                _,
            >(e@),
        },
{
    match rss::Channel::read_from(xml.as_bytes()) {
        Ok(channel) => {
            let mut out = Vec::new();
            for i in channel.items() {
                out.push(FeedItem {
                    title: i.title().map(str::to_string),
                    link: i.link().map(str::to_string),
                    description: i.description().map(str::to_string),
                    pub_date: i.pub_date().map(str::to_string),
                });
            }
            Ok(out)
        },
        Err(e) => Err(e.to_string()),
    }
}

/// The news item a feed item gives, when it has a title: undated items are
/// stamped `now`, a missing link becomes the empty URL.
pub open spec fn feed_news(
    company_id: i64,
    label: Seq<char>,
    now: i64,
    it: (Option<Seq<char>>, Option<Seq<char>>, Option<Seq<char>>, Option<Seq<char>>),
) -> Option<NewsView> {
    match it.0 {
        Some(title) => Some(
            NewsView {
                company_id,
                title,
                description: it.2,
                url: match it.1 {
                    Some(l) => l,
                    None => Seq::empty(),
                },
                source: label,
                published_at: match it.3 {
                    Some(d) => match rfc2822_instant(d) {
                        Some(t) => t,
                        None => now,
                    },
                    None => now,
                },
                dedup_hash: dedup_key(title),
            },
        ),
        None => None,
    }
}

/// The news items a run of feed items gives, in feed order.
pub open spec fn feed_news_all(
    company_id: i64,
    label: Seq<char>,
    now: i64,
    items: Seq<(Option<Seq<char>>, Option<Seq<char>>, Option<Seq<char>>, Option<Seq<char>>)>,
) -> Seq<NewsView>
    decreases items.len(),
{
    if items.len() == 0 {
        Seq::empty()
    } else {
        let rest = feed_news_all(company_id, label, now, items.drop_last());
        match feed_news(company_id, label, now, items.last()) {
            Some(n) => rest.push(n),
            None => rest,
        }
    }
}

/// News item `n` is read from feed item `it` (title, link, description,
/// date): the item has a title, which is `n`'s title and the source of its
/// dedup hash; `n` carries the company, the source label, the item's
/// description, its link (empty when missing), and the instant its date names
/// when that date reads as RFC 2822, else `now`.
pub open spec fn news_reads_item(
    n: NewsView,
    company_id: i64,
    label: Seq<char>,
    now: i64,
    it: (Option<Seq<char>>, Option<Seq<char>>, Option<Seq<char>>, Option<Seq<char>>),
) -> bool {
    &&& it.0 is Some
    &&& n.company_id == company_id
    &&& n.title == it.0.unwrap()
    &&& n.description == it.2
    &&& n.url == (if it.1 is Some { it.1.unwrap() } else { Seq::empty() })
    &&& n.source == label
    &&& n.published_at == (if it.3 is Some && rfc2822_instant(it.3.unwrap()) is Some {
        rfc2822_instant(it.3.unwrap()).unwrap()
    } else {
        now
    })
    &&& n.dedup_hash == dedup_key(it.0.unwrap())
}

/// The news read from a feed is exactly what its titled items give: an item
/// is among the news if and only if it is read from some feed item (see
/// [`news_reads_item`]); an untitled item gives nothing.
pub proof fn feed_news_read_items(
    company_id: i64,
    label: Seq<char>,
    now: i64,
    items: Seq<(Option<Seq<char>>, Option<Seq<char>>, Option<Seq<char>>, Option<Seq<char>>)>,
    n: NewsView,
)
    ensures
        feed_news_all(company_id, label, now, items).contains(n) <==> exists|k: int|
            0 <= k < items.len() && news_reads_item(n, company_id, label, now, #[trigger] items[k]),
    decreases items.len(),
{
    if items.len() > 0 {
        let init = items.drop_last();
        let it = items.last();
        feed_news_read_items(company_id, label, now, init, n);
        match feed_news(company_id, label, now, it) {
            Some(x) => {
                lemma_seq_contains_after_push(feed_news_all(company_id, label, now, init), x, n);
                assert(news_reads_item(n, company_id, label, now, it) <==> n == x);
            },
            None => {
                assert(!news_reads_item(n, company_id, label, now, it));
            },
        }
        if exists|k: int| 0 <= k < items.len() && news_reads_item(n, company_id, label, now, #[trigger] items[k]) {
            let k = choose|k: int| 0 <= k < items.len() && news_reads_item(n, company_id, label, now, #[trigger] items[k]);
            if k < items.len() - 1 {
                assert(init[k] == items[k]);
            }
        }
        if exists|k: int| 0 <= k < init.len() && news_reads_item(n, company_id, label, now, #[trigger] init[k]) {
            let k = choose|k: int| 0 <= k < init.len() && news_reads_item(n, company_id, label, now, #[trigger] init[k]);
            assert(items[k] == init[k]);
        }
    }
}

/// The abstract values of a run of news items.
pub open spec fn news_views(v: Seq<NewsItem>) -> Seq<NewsView> {
    v.map_values(|n: NewsItem| n@)
}

fn clone_opt(o: &Option<String>) -> (r: Option<String>)
    ensures
        opt_view(r) == opt_view(*o),
{
    match o {
        Some(s) => Some(s.clone()),
        None => None,
    }
}

/// Parse an RSS 2.0 feed into news items. Items without a title are skipped;
/// items without a (readable) date fall back to `now`. A feed the `rss` crate
/// cannot read is a parse error carrying its message.
pub fn parse_rss(company_id: i64, xml: &str, source_label: &str, now: i64) -> (r: Result<
    Vec<NewsItem>,
    CollectorError,
>)
    ensures
        match feed_of(xml@) {
            Ok(items) => r matches Ok(v) && news_views(v@) == feed_news_all(
                company_id,
                source_label@,
                now,
                items,
            ),
            Err(msg) => r matches Err(CollectorError::Parse(m)) && m@ == msg,
        },
{
    let items = match read_feed(xml) {
        Ok(items) => items,
        Err(e) => return Err(CollectorError::Parse(e)),
    };
    let ghost views = items@.map_values(|i: FeedItem| feed_item_view(i));
    let mut out: Vec<NewsItem> = Vec::new();
    let mut i: usize = 0;
    while i < items.len()
        invariant
            i <= items@.len(),
            views == items@.map_values(|i: FeedItem| feed_item_view(i)),
            news_views(out@) == feed_news_all(company_id, source_label@, now, views.subrange(0, i as int)),
        decreases items.len() - i,
    {
        let it = &items[i];
        assert(views.subrange(0, i + 1).drop_last() =~= views.subrange(0, i as int));
        assert(views.subrange(0, i + 1).last() == feed_item_view(*it));
        match &it.title {
            Some(title) => {
                let published_at = match &it.pub_date {
                    Some(d) => match parse_rfc2822(d.as_str()) {
                        Some(t) => t,
                        None => now,
                    },
                    None => now,
                };
                let url = match &it.link {
                    Some(l) => l.clone(),
                    None => String::new(),
                };
                let item = NewsItem {
                    company_id,
                    title: title.clone(),
                    description: clone_opt(&it.description),
                    url,
                    source: owned(source_label),
                    published_at,
                    dedup_hash: dedup_hash(title.as_str()),
                };
                let ghost before = news_views(out@);
                out.push(item);
                assert(news_views(out@) =~= before.push(item@));
            },
            None => {},
        }
        i = i + 1;
    }
    assert(views.subrange(0, items@.len() as int) =~= views);
    Ok(out)
}

/// One row of Finnhub's company-news response.
#[derive(Debug, Clone, PartialEq, Eq)]
pub struct FinnhubRow {
    pub datetime: i64,
    pub headline: String,
    pub summary: String,
    pub source: String,
    pub url: String,
}

/// The news item a Finnhub row gives: an unrepresentable timestamp falls back
/// to `now`, an empty summary means no description.
pub open spec fn finnhub_news(company_id: i64, now: i64, r: FinnhubRow) -> NewsView {
    NewsView {
        company_id,
        title: r.headline@,
        description: if r.summary@.len() == 0 {
            None
        } else {
            Some(r.summary@)
        },
        url: r.url@,
        source: r.source@,
        published_at: if utc_second_exists(r.datetime) {
            r.datetime
        } else {
            now
        },
        dedup_hash: dedup_key(r.headline@),
    }
}

/// Turn Finnhub company-news rows into news items, in row order.
pub fn parse_finnhub(company_id: i64, rows: Vec<FinnhubRow>, now: i64) -> (r: Vec<NewsItem>)
    ensures
        r@.len() == rows@.len(),
        forall|i: int| 0 <= i < rows@.len() ==> #[trigger] r@[i]@ == finnhub_news(company_id, now, rows@[i]),
        forall|i: int|
            0 <= i < rows@.len() ==> {
                &&& (#[trigger] r@[i]).company_id == company_id
                &&& r@[i].title@ == rows@[i].headline@
                &&& r@[i].url@ == rows@[i].url@
                &&& r@[i].source@ == rows@[i].source@
                &&& (rows@[i].summary@.len() == 0 ==> r@[i].description is None)
                &&& (rows@[i].summary@.len() > 0 ==> (r@[i].description matches Some(d) && d@ == rows@[i].summary@))
                &&& (utc_second_exists(rows@[i].datetime) ==> r@[i].published_at == rows@[i].datetime)
                &&& (!utc_second_exists(rows@[i].datetime) ==> r@[i].published_at == now)
                &&& r@[i].dedup_hash@ == dedup_key(rows@[i].headline@)
            },
{
    let mut out: Vec<NewsItem> = Vec::new();
    let mut i: usize = 0;
    while i < rows.len()
        invariant
            i <= rows@.len(),
            out@.len() == i,
            forall|j: int| 0 <= j < i ==> #[trigger] out@[j]@ == finnhub_news(company_id, now, rows@[j]),
        decreases rows.len() - i,
    {
        let r = &rows[i];
        let published_at = if utc_second_ok(r.datetime) {
            r.datetime
        } else {
            now
        };
        let description = if r.summary.unicode_len() == 0 {
            None
        } else {
            Some(r.summary.clone())
        };
        out.push(NewsItem {
            company_id,
            title: r.headline.clone(),
            description,
            url: r.url.clone(),
            source: r.source.clone(),
            published_at,
            dedup_hash: dedup_hash(r.headline.as_str()),
        });
        i = i + 1;
    }
    proof {
        assert forall|i: int| 0 <= i < rows@.len() implies {
            &&& (#[trigger] out@[i]).company_id == company_id
            &&& out@[i].title@ == rows@[i].headline@
            &&& out@[i].url@ == rows@[i].url@
            &&& out@[i].source@ == rows@[i].source@
            &&& (rows@[i].summary@.len() == 0 ==> out@[i].description is None)
            &&& (rows@[i].summary@.len() > 0 ==> (out@[i].description matches Some(d) && d@ == rows@[i].summary@))
            &&& (utc_second_exists(rows@[i].datetime) ==> out@[i].published_at == rows@[i].datetime)
            &&& (!utc_second_exists(rows@[i].datetime) ==> out@[i].published_at == now)
            &&& out@[i].dedup_hash@ == dedup_key(rows@[i].headline@)
        } by {
            assert(out@[i]@ == finnhub_news(company_id, now, rows@[i]));
        }
    }
    out
}

} // verus!
