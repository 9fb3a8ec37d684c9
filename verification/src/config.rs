//! Runtime configuration, parsed from a key getter (the environment in
//! production): defaults for missing keys, truthy flags and ticker lists.

use vstd::prelude::*;

use crate::text::{
    ascii_upper, chars_of, is_ascii, is_space, lemma_trimmed, lower_text, ltrim, rtrim, owned, parse_u64, push_char, str_eq,
    to_lowercase, to_uppercase, trim, trimmed, u64_text, upper_text,
};

verus! {

/// Whether a flag value reads as "on": after trimming and lowercasing it is
/// `1`, `true` or `yes`.
pub open spec fn truthy(v: Seq<char>) -> bool {
    let t = lower_text(trimmed(v));
    t == "1"@ || t == "true"@ || t == "yes"@
}

/// Interpret common truthy strings.
pub fn is_truthy(v: &str) -> (r: bool)
    ensures
        r == truthy(v@),
{
    let t = to_lowercase(trim(v));
    str_eq(t.as_str(), "1") || str_eq(t.as_str(), "true") || str_eq(t.as_str(), "yes")
}

/// The pieces of `s` between occurrences of `sep` (what `str::split(sep)`
/// yields: an empty `s` is one empty piece, a trailing `sep` ends with an
/// empty piece).
pub open spec fn split_on(s: Seq<char>, sep: char) -> Seq<Seq<char>>
    decreases s.len(),
{
    if s.len() == 0 {
        seq![Seq::empty()]
    } else {
        let prev = split_on(s.drop_last(), sep);
        if s.last() == sep {
            prev.push(Seq::empty())
        } else {
            prev.update(prev.len() - 1, prev.last().push(s.last()))
        }
    }
}

/// The pieces of `s` between occurrences of `sep`.
pub fn split_char(s: &str, sep: char) -> (r: Vec<String>)
    ensures
        r@.map_values(|p: String| p@) == split_on(s@, sep),
{
    let cs = chars_of(s);
    let mut pieces: Vec<String> = Vec::new();
    let mut cur = String::new();
    let mut i: usize = 0;
    while i < cs.len()
        invariant
            cs@ == s@,
            i <= cs.len(),
            pieces@.map_values(|p: String| p@).push(cur@) == split_on(cs@.subrange(0, i as int), sep),
        decreases cs.len() - i,
    {
        assert(cs@.subrange(0, i + 1).drop_last() =~= cs@.subrange(0, i as int));
        let ghost before = pieces@.map_values(|p: String| p@);
        let ghost cur_before = cur@;
        if cs[i] == sep {
            let done = cur;
            pieces.push(done);
            cur = String::new();
            assert(pieces@.map_values(|p: String| p@) =~= before.push(cur_before));
        } else {
            push_char(&mut cur, cs[i]);
            assert(before.push(cur@) =~= before.push(cur_before).update(
                before.len() as int,
                cur_before.push(cs@[i as int]),
            ));
        }
        i = i + 1;
    }
    assert(cs@.subrange(0, cs.len() as int) =~= cs@);
    pieces.push(cur);
    pieces
}

/// The tickers a comma-separated list names: each piece trimmed and
/// upper-cased, empty ones dropped.
pub open spec fn tickers_of(pieces: Seq<Seq<char>>) -> Seq<Seq<char>>
    decreases pieces.len(),
{
    if pieces.len() == 0 {
        Seq::empty()
    } else {
        let rest = tickers_of(pieces.drop_last());
        let t = upper_text(trimmed(pieces.last()));
        if t.len() > 0 {
            rest.push(t)
        } else {
            rest
        }
    }
}

/// Every piece `split_on` yields is free of the separator, and ASCII when
/// the text is.
proof fn lemma_split_pieces(s: Seq<char>, sep: char)
    ensures
        forall|j: int, i: int|
            0 <= j < split_on(s, sep).len() && 0 <= i < split_on(s, sep)[j].len() ==> (#[trigger] split_on(
                s,
                sep,
            )[j][i]) != sep && (is_ascii(s) ==> split_on(s, sep)[j][i] as u32 <= 127),
        split_on(s, sep).len() > 0,
    decreases s.len(),
{
    if s.len() > 0 {
        let prev = split_on(s.drop_last(), sep);
        lemma_split_pieces(s.drop_last(), sep);
        if is_ascii(s) {
            assert forall|i: int| 0 <= i < s.drop_last().len() implies (#[trigger] s.drop_last()[i]) as u32 <= 127 by {
                assert(s.drop_last()[i] == s[i]);
            }
        }
        let cur = split_on(s, sep);
        assert forall|j: int, i: int| 0 <= j < cur.len() && 0 <= i < cur[j].len() implies (#[trigger] cur[j][i])
            != sep && (is_ascii(s) ==> cur[j][i] as u32 <= 127) by {
            if s.last() == sep {
                if j < prev.len() {
                    assert(cur[j] == prev[j]);
                }
            } else if j < prev.len() - 1 {
                assert(cur[j] == prev[j]);
            } else {
                assert(cur[j] == prev.last().push(s.last()));
                if i < prev.last().len() {
                    assert(cur[j][i] == prev[prev.len() - 1][i]);
                } else {
                    assert(cur[j][i] == s[s.len() - 1]);
                }
            }
        }
    }
}

/// A well-formed ticker: non-empty ASCII without commas or lower-case
/// letters (so raising it to upper case again changes nothing), and neither
/// starting nor ending with whitespace.
pub open spec fn clean_ticker(t: Seq<char>) -> bool {
    &&& t.len() > 0
    &&& is_ascii(t)
    &&& forall|i: int| 0 <= i < t.len() ==> (#[trigger] t[i]) != ',' && !('a' <= t[i] && t[i] <= 'z')
    &&& !is_space(t[0])
    &&& !is_space(t.last())
}

/// An ASCII piece without commas, trimmed and raised to upper case, is a
/// clean ticker when anything is left of it.
proof fn lemma_clean_piece(p: Seq<char>)
    requires
        forall|i: int| 0 <= i < p.len() ==> (#[trigger] p[i]) != ',' && p[i] as u32 <= 127,
    ensures
        is_ascii(trimmed(p)),
        trimmed(p).map_values(|c: char| ascii_upper(c)).len() > 0 ==> clean_ticker(
            trimmed(p).map_values(|c: char| ascii_upper(c)),
        ),
{
    lemma_trimmed(p);
    let t = trimmed(p);
    let a = p.len() - ltrim(p).len();
    assert forall|i: int| 0 <= i < t.len() implies (#[trigger] t[i]) != ',' && t[i] as u32 <= 127 by {
        assert(t[i] == p[a + i]);
    }
    let u = t.map_values(|c: char| ascii_upper(c));
    assert forall|i: int| 0 <= i < u.len() implies (#[trigger] u[i]) != ',' && !('a' <= u[i] && u[i] <= 'z')
        && (is_space(u[i]) == is_space(t[i])) && u[i] as u32 <= 127 by {
        let c = t[i];
        assert(u[i] == ascii_upper(c));
        if 'a' <= c && c <= 'z' {
            assert(u[i] as u32 == c as u32 - 32);
        }
    }
    if u.len() > 0 {
        assert(is_space(u[0]) == is_space(t[0]));
        assert(is_space(u[u.len() - 1]) == is_space(t[t.len() - 1]));
    }
}

/// Every ticker of a list of ASCII, comma-free pieces is clean.
proof fn lemma_tickers_clean(pieces: Seq<Seq<char>>)
    requires
        forall|j: int, q: int|
            0 <= j < pieces.len() && 0 <= q < pieces[j].len() ==> (#[trigger] pieces[j][q]) != ','
                && pieces[j][q] as u32 <= 127,
    ensures
        forall|k: int| 0 <= k < tickers_of(pieces).len() ==> clean_ticker(#[trigger] tickers_of(pieces)[k]),
    decreases pieces.len(),
{
    if pieces.len() > 0 {
        let init = pieces.drop_last();
        assert forall|j: int, q: int| 0 <= j < init.len() && 0 <= q < init[j].len() implies (#[trigger] init[j][q])
            != ',' && init[j][q] as u32 <= 127 by {
            assert(init[j] == pieces[j]);
        }
        lemma_tickers_clean(init);
        let p = pieces.last();
        assert forall|q: int| 0 <= q < p.len() implies (#[trigger] p[q]) != ',' && p[q] as u32 <= 127 by {
            assert(p[q] == pieces[pieces.len() - 1][q]);
        }
        lemma_clean_piece(p);
        let t = upper_text(trimmed(p));
        assert(t == trimmed(p).map_values(|c: char| ascii_upper(c)));
        let rest = tickers_of(init);
        assert forall|k: int| 0 <= k < tickers_of(pieces).len() implies clean_ticker(
            #[trigger] tickers_of(pieces)[k],
        ) by {
            if k < rest.len() {
                assert(tickers_of(pieces)[k] == rest[k]);
            }
        }
    }
}

/// `ts` joined with `sep` between consecutive items (what `[T]::join` gives).
pub open spec fn joined(ts: Seq<Seq<char>>, sep: char) -> Seq<char>
    decreases ts.len(),
{
    if ts.len() == 0 {
        Seq::empty()
    } else if ts.len() == 1 {
        ts[0]
    } else {
        joined(ts.drop_last(), sep).push(sep) + ts.last()
    }
}

proof fn lemma_split_len(s: Seq<char>, sep: char)
    ensures
        split_on(s, sep).len() > 0,
    decreases s.len(),
{
    if s.len() > 0 {
        lemma_split_len(s.drop_last(), sep);
    }
}

/// Appending text without a separator extends the last piece.
proof fn lemma_split_append(x: Seq<char>, y: Seq<char>, sep: char)
    requires
        forall|i: int| 0 <= i < y.len() ==> #[trigger] y[i] != sep,
    ensures
        split_on(x + y, sep) == split_on(x, sep).update(
            split_on(x, sep).len() - 1,
            split_on(x, sep).last() + y,
        ),
    decreases y.len(),
{
    lemma_split_len(x, sep);
    let sx = split_on(x, sep);
    if y.len() == 0 {
        assert(x + y =~= x);
        assert(sx.last() + y =~= sx.last());
        assert(sx.update(sx.len() - 1, sx.last()) =~= sx);
    } else {
        let y0 = y.drop_last();
        assert forall|i: int| 0 <= i < y0.len() implies #[trigger] y0[i] != sep by {
            assert(y0[i] == y[i]);
        }
        lemma_split_append(x, y0, sep);
        assert((x + y).drop_last() =~= x + y0);
        assert((x + y).last() == y.last());
        assert((sx.last() + y0).push(y.last()) =~= sx.last() + y);
        assert(split_on(x + y, sep) =~= sx.update(sx.len() - 1, sx.last() + y));
    }
}

/// Splitting a join of separator-free items gives the items back.
proof fn lemma_split_joined(ts: Seq<Seq<char>>, sep: char)
    requires
        ts.len() > 0,
        forall|j: int, q: int| 0 <= j < ts.len() && 0 <= q < ts[j].len() ==> #[trigger] ts[j][q] != sep,
    ensures
        split_on(joined(ts, sep), sep) == ts,
    decreases ts.len(),
{
    let t = ts.last();
    assert forall|q: int| 0 <= q < t.len() implies #[trigger] t[q] != sep by {
        assert(t[q] == ts[ts.len() - 1][q]);
    }
    if ts.len() == 1 {
        lemma_split_append(Seq::empty(), t, sep);
        assert(Seq::<char>::empty() + t =~= t);
        assert(split_on(Seq::<char>::empty(), sep) == seq![Seq::<char>::empty()]);
        assert(seq![Seq::<char>::empty()].update(0, Seq::<char>::empty() + t) =~= ts);
    } else {
        let init = ts.drop_last();
        assert forall|j: int, q: int| 0 <= j < init.len() && 0 <= q < init[j].len() implies #[trigger] init[j][q]
            != sep by {
            assert(init[j] == ts[j]);
        }
        lemma_split_joined(init, sep);
        let x = joined(init, sep).push(sep);
        assert(x.drop_last() =~= joined(init, sep));
        assert(split_on(x, sep) == init.push(Seq::<char>::empty()));
        lemma_split_append(x, t, sep);
        assert(Seq::<char>::empty() + t =~= t);
        assert(init.push(Seq::<char>::empty()).update(init.len() as int, Seq::<char>::empty() + t) =~= ts);
    }
}

/// A clean ticker is its own ticker: trimming and raising it change nothing.
proof fn lemma_clean_is_fixed(t: Seq<char>)
    requires
        clean_ticker(t),
    ensures
        upper_text(trimmed(t)) == t,
{
    assert(ltrim(t) == t);
    assert(rtrim(t) == t);
    assert(t.map_values(|c: char| ascii_upper(c)) =~= t);
}

/// Clean tickers are their own ticker list.
proof fn lemma_clean_list_fixed(ts: Seq<Seq<char>>)
    requires
        forall|k: int| 0 <= k < ts.len() ==> clean_ticker(#[trigger] ts[k]),
    ensures
        tickers_of(ts) == ts,
    decreases ts.len(),
{
    if ts.len() > 0 {
        lemma_clean_list_fixed(ts.drop_last());
        lemma_clean_is_fixed(ts.last());
        assert(ts.drop_last().push(ts.last()) =~= ts);
    }
}

/// For an ASCII list, the parsed tickers are clean (non-empty ASCII without
/// commas, lower-case letters or surrounding whitespace), and parsing their
/// comma-join gives the same tickers back.
pub proof fn tickers_round_trip(raw: Seq<char>)
    requires
        is_ascii(raw),
    ensures
        forall|k: int|
            0 <= k < tickers_of(split_on(raw, ',')).len() ==> clean_ticker(
                #[trigger] tickers_of(split_on(raw, ','))[k],
            ),
        tickers_of(split_on(joined(tickers_of(split_on(raw, ',')), ','), ',')) == tickers_of(
            split_on(raw, ','),
        ),
{
    lemma_split_pieces(raw, ',');
    let pieces = split_on(raw, ',');
    assert forall|j: int, q: int| 0 <= j < pieces.len() && 0 <= q < pieces[j].len() implies (#[trigger] pieces[j][q])
        != ',' && pieces[j][q] as u32 <= 127 by {
        assert(split_on(raw, ',')[j][q] == pieces[j][q]);
    }
    lemma_tickers_clean(pieces);
    let ts = tickers_of(pieces);
    if ts.len() == 0 {
        assert(joined(ts, ',') == Seq::<char>::empty());
        let e = Seq::<char>::empty();
        let one = seq![e];
        assert(split_on(e, ',') == one);
        assert(one.drop_last() =~= Seq::<Seq<char>>::empty());
        assert(one.last() == e);
        assert(ltrim(e) == e);
        assert(rtrim(e) == e);
        assert(trimmed(e) == e);
        assert(is_ascii(e));
        assert(upper_text(e).len() == 0);
        assert(tickers_of(Seq::<Seq<char>>::empty()) == Seq::<Seq<char>>::empty());
        assert(tickers_of(one) =~= Seq::<Seq<char>>::empty());
    } else {
        assert forall|j: int, q: int| 0 <= j < ts.len() && 0 <= q < ts[j].len() implies #[trigger] ts[j][q] != ',' by {
            assert(clean_ticker(ts[j]));
        }
        lemma_split_joined(ts, ',');
        lemma_clean_list_fixed(ts);
    }
}

/// Split a comma-separated list into trimmed, non-empty, upper-cased tickers.
pub fn parse_tickers(raw: &str) -> (r: Vec<String>)
    ensures
        r@.map_values(|t: String| t@) == tickers_of(split_on(raw@, ',')),
        is_ascii(raw@) ==> forall|k: int| 0 <= k < r@.len() ==> clean_ticker(#[trigger] r@[k]@),
{
    let pieces = split_char(raw, ',');
    let ghost views = pieces@.map_values(|p: String| p@);
    proof {
        lemma_split_pieces(raw@, ',');
    }
    let mut out: Vec<String> = Vec::new();
    let mut i: usize = 0;
    while i < pieces.len()
        invariant
            i <= pieces@.len(),
            views == pieces@.map_values(|p: String| p@),
            views == split_on(raw@, ','),
            forall|j: int, q: int|
                0 <= j < views.len() && 0 <= q < views[j].len() ==> (#[trigger] views[j][q]) != ',' && (
                is_ascii(raw@) ==> views[j][q] as u32 <= 127),
            out@.map_values(|t: String| t@) == tickers_of(views.subrange(0, i as int)),
            is_ascii(raw@) ==> forall|k: int| 0 <= k < out@.len() ==> clean_ticker(#[trigger] out@[k]@),
        decreases pieces.len() - i,
    {
        assert(views.subrange(0, i + 1).drop_last() =~= views.subrange(0, i as int));
        let piece = trim(pieces[i].as_str());
        proof {
            if is_ascii(raw@) {
                assert forall|q: int| 0 <= q < views[i as int].len() implies (#[trigger] views[i as int][q]) != ','
                    && views[i as int][q] as u32 <= 127 by {}
                lemma_clean_piece(views[i as int]);
            }
        }
        let t = to_uppercase(piece);
        let ghost before = out@.map_values(|t: String| t@);
        if t.as_str().unicode_len() > 0 {
            let ghost prev_out = out@;
            let ghost tv = t@;
            out.push(t);
            assert(out@.map_values(|t: String| t@) =~= before.push(tv));
            proof {
                if is_ascii(raw@) {
                    assert forall|k: int| 0 <= k < out@.len() implies clean_ticker(#[trigger] out@[k]@) by {
                        if k < prev_out.len() {
                            assert(out@[k] == prev_out[k]);
                        } else {
                            assert(out@[k]@ == tv);
                        }
                    }
                }
            }
        }
        i = i + 1;
    }
    assert(views.subrange(0, pieces@.len() as int) =~= views);
    out
}

/// Every parsed ticker is non-empty.
pub proof fn parsed_tickers_nonempty(pieces: Seq<Seq<char>>, k: int)
    requires
        0 <= k < tickers_of(pieces).len(),
    ensures
        tickers_of(pieces)[k].len() > 0,
    decreases pieces.len(),
{
    let rest = tickers_of(pieces.drop_last());
    if k < rest.len() {
        parsed_tickers_nonempty(pieces.drop_last(), k);
    }
}

/// Application configuration. The cross-source reconciliation threshold is a
/// fraction, kept here as the text it was configured with; reading it as a
/// number (default 0.05 when absent or unreadable) is left to the caller.
#[derive(Debug, Clone, PartialEq, Eq)]
pub struct Config {
    pub database_url: String,
    pub port: u16,
    pub user_agent: String,
    pub fmp_api_key: Option<String>,
    pub finnhub_api_key: Option<String>,
    /// Tickers to collect (from `TICKERS`, comma-separated).
    pub tickers: Vec<String>,
    /// Collect the entire bootstrapped US universe (ignores `tickers`).
    pub collect_all: bool,
    /// Milliseconds to wait between requests to one host (politeness).
    pub request_delay_ms: u64,
    /// The `RECONCILE_THRESHOLD` text, when set.
    pub reconcile_threshold: Option<String>,
}

/// The port a `PORT` value gives: a decimal `u16`, else 8080.
pub open spec fn port_setting(v: Option<String>) -> u16 {
    match v {
        Some(s) => match u64_text(s@) {
            Some(p) => if p <= u16::MAX {
                p as u16
            } else {
                8080
            },
            None => 8080,
        },
        None => 8080,
    }
}

/// The delay a `REQUEST_DELAY_MS` value gives: a decimal `u64`, else 150.
pub open spec fn delay_setting(v: Option<String>) -> u64 {
    match v {
        Some(s) => match u64_text(s@) {
            Some(d) => d,
            None => 150,
        },
        None => 150,
    }
}

/// A text setting, or its default when missing.
pub open spec fn text_setting(v: Option<String>, default: Seq<char>) -> Seq<char> {
    match v {
        Some(s) => s@,
        None => default,
    }
}

/// Optional text settings compare by characters.
pub open spec fn opt_chars(v: Option<String>) -> Option<Seq<char>> {
    match v {
        Some(s) => Some(s@),
        None => None,
    }
}

fn or_default(v: Option<String>, default: &str) -> (r: String)
    ensures
        r@ == text_setting(v, default@),
{
    match v {
        Some(s) => s,
        None => owned(default),
    }
}

impl Config {
    /// Parse configuration from a key lookup function (e.g. the environment).
    /// Missing keys fall back to defaults; unreadable numbers too.
    pub fn parse<F: Fn(&str) -> Option<String>>(get: F) -> (r: Config)
        requires
            forall|k: &str| #[trigger] get.requires((k,)),
        ensures
            exists|v: Option<String>| get.ensures(("DATABASE_URL",), v)
                && r.database_url@ == text_setting(v, "sqlite:///data/stonks.db"@),
            exists|v: Option<String>| get.ensures(("PORT",), v) && r.port == port_setting(v),
            exists|v: Option<String>| get.ensures(("USER_AGENT",), v)
                && r.user_agent@ == text_setting(v, "stonkscollect (contact@example.com)"@),
            exists|v: Option<String>| get.ensures(("FMP_API_KEY",), v)
                && opt_chars(r.fmp_api_key) == opt_chars(v),
            exists|v: Option<String>| get.ensures(("FINNHUB_API_KEY",), v)
                && opt_chars(r.finnhub_api_key) == opt_chars(v),
            exists|v: Option<String>| get.ensures(("TICKERS",), v)
                && r.tickers@.map_values(|t: String| t@) == match v {
                    Some(s) => tickers_of(split_on(s@, ',')),
                    None => Seq::empty(),
                },
            exists|v: Option<String>| get.ensures(("COLLECT_ALL",), v)
                && r.collect_all == (v matches Some(s) && truthy(s@)),
            exists|v: Option<String>| get.ensures(("REQUEST_DELAY_MS",), v)
                && r.request_delay_ms == delay_setting(v),
            exists|v: Option<String>| get.ensures(("RECONCILE_THRESHOLD",), v)
                && opt_chars(r.reconcile_threshold) == opt_chars(v),
    {
        let database_url = or_default(get("DATABASE_URL"), "sqlite:///data/stonks.db");
        let port_text = get("PORT");
        let port: u16 = match &port_text {
            Some(p) => match parse_u64(p.as_str()) {
                Some(n) => if n <= 65535 {
                    n as u16
                } else {
                    8080
                },
                None => 8080,
            },
            None => 8080,
        };
        let user_agent = or_default(get("USER_AGENT"), "stonkscollect (contact@example.com)");
        let fmp_api_key = get("FMP_API_KEY");
        let finnhub_api_key = get("FINNHUB_API_KEY");
        let tickers_text = get("TICKERS");
        let tickers = match &tickers_text {
            Some(t) => parse_tickers(t.as_str()),
            None => Vec::new(),
        };
        let collect_text = get("COLLECT_ALL");
        let collect_all = match &collect_text {
            Some(v) => is_truthy(v.as_str()),
            None => false,
        };
        let delay_text = get("REQUEST_DELAY_MS");
        let request_delay_ms: u64 = match &delay_text {
            Some(d) => match parse_u64(d.as_str()) {
                Some(n) => n,
                None => 150,
            },
            None => 150,
        };
        let reconcile_threshold = get("RECONCILE_THRESHOLD");
        proof {
            assert(tickers_text matches None ==> tickers@.map_values(|t: String| t@) =~= Seq::<Seq<char>>::empty());
            assert(port == port_setting(port_text));
            assert(request_delay_ms == delay_setting(delay_text));
        }
        Config {
            database_url,
            port,
            user_agent,
            fmp_api_key,
            finnhub_api_key,
            tickers,
            collect_all,
            request_delay_ms,
            reconcile_threshold,
        }
    }
}

} // verus!
