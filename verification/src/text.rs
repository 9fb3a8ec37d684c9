//! Character-level string helpers shared by the URL builders, parsers and
//! normalizers. Strings are reasoned about through their `Seq<char>` views.

use vstd::prelude::*;
use vstd::string::*;

verus! {

/// Unicode lowercase mapping of a character sequence, as `str::to_lowercase`
/// computes it.
pub uninterp spec fn lowercase_of(s: Seq<char>) -> Seq<char>;

/// Unicode uppercase mapping of a character sequence, as `str::to_uppercase`
/// computes it.
pub uninterp spec fn uppercase_of(s: Seq<char>) -> Seq<char>;

/// Calls `String::push`: the character is appended at the end.
#[verifier::external_body]
pub(crate) fn push_char(s: &mut String, c: char)
    ensures
        final(s)@ == old(s)@.push(c),
{
    s.push(c);
}

/// Every character is ASCII.
pub open spec fn is_ascii(s: Seq<char>) -> bool {
    forall|i: int| 0 <= i < s.len() ==> (#[trigger] s[i]) as u32 <= 127
}

/// The ASCII upper-case form of `c`: `a`-`z` become `A`-`Z`, anything else
/// is kept.
pub open spec fn ascii_upper(c: char) -> char {
    if 'a' <= c && c <= 'z' {
        ((c as u32) - 32) as char
    } else {
        c
    }
}

/// The ASCII lower-case form of `c`: `A`-`Z` become `a`-`z`, anything else
/// is kept.
pub open spec fn ascii_lower(c: char) -> char {
    if 'A' <= c && c <= 'Z' {
        ((c as u32) + 32) as char
    } else {
        c
    }
}

/// The lower-case form of `s`: on ASCII text, `A`-`Z` lowered and every
/// other character kept; otherwise the Unicode mapping [`lowercase_of`].
pub open spec fn lower_text(s: Seq<char>) -> Seq<char> {
    if is_ascii(s) {
        s.map_values(|c: char| ascii_lower(c))
    } else {
        lowercase_of(s)
    }
}

/// The upper-case form of `s`: on ASCII text, `a`-`z` raised and every
/// other character kept; otherwise the Unicode mapping [`uppercase_of`].
pub open spec fn upper_text(s: Seq<char>) -> Seq<char> {
    if is_ascii(s) {
        s.map_values(|c: char| ascii_upper(c))
    } else {
        uppercase_of(s)
    }
}

/// Calls `str::to_lowercase`; the result is named by [`lowercase_of`], whose
/// full Unicode case tables are not written out here. On ASCII text the
/// Unicode mapping lowers `A`-`Z` and keeps every other character.
#[verifier::external_body]
pub(crate) fn to_lowercase(s: &str) -> (r: String)
    ensures
        r@ == lowercase_of(s@),
        r@ == lower_text(s@),
{
    s.to_lowercase()
}

/// Calls `str::to_uppercase`; the result is named by [`uppercase_of`]. On
/// ASCII text the Unicode mapping raises `a`-`z` and keeps every other
/// character.
#[verifier::external_body]
pub(crate) fn to_uppercase(s: &str) -> (r: String)
    ensures
        r@ == uppercase_of(s@),
        r@ == upper_text(s@),
{
    s.to_uppercase()
}

/// The characters of `s`, in order.
pub fn chars_of(s: &str) -> (r: Vec<char>)
    ensures
        r@ == s@,
{
    let n = s.unicode_len();
    let mut out: Vec<char> = Vec::new();
    let mut i: usize = 0;
    while i < n
        invariant
            n == s@.len(),
            i <= n,
            out@ == s@.subrange(0, i as int),
        decreases n - i,
    {
        out.push(s.get_char(i));
        i = i + 1;
    }
    assert(out@ =~= s@);
    out
}

/// A `String` holding exactly the characters of `v`.
pub fn string_of(v: &Vec<char>) -> (r: String)
    ensures
        r@ == v@,
{
    let mut out = String::new();
    let mut i: usize = 0;
    while i < v.len()
        invariant
            i <= v.len(),
            out@ == v@.subrange(0, i as int),
        decreases v.len() - i,
    {
        push_char(&mut out, v[i]);
        assert(out@ =~= v@.subrange(0, i + 1));
        i = i + 1;
    }
    assert(out@ =~= v@);
    out
}

/// An owned copy of `s`.
pub fn owned(s: &str) -> (r: String)
    ensures
        r@ == s@,
{
    String::from_str(s)
}

/// Whether two strings hold the same characters.
pub fn str_eq(a: &str, b: &str) -> (r: bool)
    ensures
        r == (a@ == b@),
{
    let n = a.unicode_len();
    let m = b.unicode_len();
    if n != m {
        return false;
    }
    let mut i: usize = 0;
    while i < n
        invariant
            n == a@.len(),
            m == b@.len(),
            n == m,
            i <= n,
            a@.subrange(0, i as int) == b@.subrange(0, i as int),
        decreases n - i,
    {
        if a.get_char(i) != b.get_char(i) {
            assert(a@[i as int] != b@[i as int]);
            return false;
        }
        assert(a@.subrange(0, i + 1) =~= a@.subrange(0, i as int).push(a@[i as int]));
        assert(b@.subrange(0, i + 1) =~= b@.subrange(0, i as int).push(b@[i as int]));
        i = i + 1;
    }
    assert(a@ =~= a@.subrange(0, n as int));
    assert(b@ =~= b@.subrange(0, n as int));
    true
}

/// `s` left-padded with `'0'` up to `width` characters (no padding when it is
/// already at least that long), as the `{:0>width}` format spec pads.
pub open spec fn zero_padded(s: Seq<char>, width: nat) -> Seq<char> {
    if s.len() >= width {
        s
    } else {
        Seq::new((width - s.len()) as nat, |_i: int| '0') + s
    }
}

/// Left-pad `s` with zeros to `width` characters.
pub fn pad_zeros(s: &str, width: usize) -> (r: String)
    ensures
        r@ == zero_padded(s@, width as nat),
{
    let n = s.unicode_len();
    let mut out = String::new();
    if n < width {
        let k: usize = width - n;
        let mut i: usize = 0;
        while i < k
            invariant
                i <= k,
                out@ == Seq::new(i as nat, |_j: int| '0'),
            decreases k - i,
        {
            push_char(&mut out, '0');
            assert(out@ =~= Seq::new((i + 1) as nat, |_j: int| '0'));
            i = i + 1;
        }
    }
    out.append(s);
    assert(out@ =~= zero_padded(s@, width as nat));
    out
}

/// `a` followed by `b`.
pub fn cat2(a: &str, b: &str) -> (r: String)
    ensures
        r@ == a@ + b@,
{
    let mut out = String::from_str(a);
    out.append(b);
    out
}

/// `a`, `b`, `c` in order.
pub fn cat3(a: &str, b: &str, c: &str) -> (r: String)
    ensures
        r@ == a@ + b@ + c@,
{
    let mut out = String::from_str(a);
    out.append(b);
    out.append(c);
    out
}

/// `a`, `b`, `c`, `d` in order.
pub fn cat4(a: &str, b: &str, c: &str, d: &str) -> (r: String)
    ensures
        r@ == a@ + b@ + c@ + d@,
{
    let mut out = String::from_str(a);
    out.append(b);
    out.append(c);
    out.append(d);
    out
}

/// Whether `c` has the Unicode `White_Space` property (what
/// `char::is_whitespace` tests).
pub open spec fn is_space(c: char) -> bool {
    ||| ('\u{9}' <= c && c <= '\u{d}')
    ||| c == ' '
    ||| c == '\u{85}'
    ||| c == '\u{a0}'
    ||| c == '\u{1680}'
    ||| ('\u{2000}' <= c && c <= '\u{200a}')
    ||| c == '\u{2028}'
    ||| c == '\u{2029}'
    ||| c == '\u{202f}'
    ||| c == '\u{205f}'
    ||| c == '\u{3000}'
}

/// Executable form of [`is_space`].
pub fn char_is_space(c: char) -> (r: bool)
    ensures
        r == is_space(c),
{
    ('\u{9}' <= c && c <= '\u{d}') || c == ' ' || c == '\u{85}' || c == '\u{a0}' || c
        == '\u{1680}' || ('\u{2000}' <= c && c <= '\u{200a}') || c == '\u{2028}' || c
        == '\u{2029}' || c == '\u{202f}' || c == '\u{205f}' || c == '\u{3000}'
}

/// Whether `s` contains `needle` starting at character `at`.
pub open spec fn occurs_at(s: Seq<char>, needle: Seq<char>, at: int) -> bool {
    0 <= at && at + needle.len() <= s.len() && s.subrange(at, at + needle.len()) == needle
}

/// Whether `needle` occurs anywhere in `s`.
pub open spec fn occurs_in(s: Seq<char>, needle: Seq<char>) -> bool {
    exists|at: int| occurs_at(s, needle, at)
}

/// Executable [`occurs_at`] on character vectors.
pub fn matches_at(s: &Vec<char>, needle: &Vec<char>, at: usize) -> (r: bool)
    ensures
        r == occurs_at(s@, needle@, at as int),
{
    if at > s.len() || needle.len() > s.len() - at {
        return false;
    }
    let mut k: usize = 0;
    while k < needle.len()
        invariant
            at + needle@.len() <= s@.len(),
            k <= needle.len(),
            forall|j: int| 0 <= j < k ==> s@[at + j] == needle@[j],
        decreases needle.len() - k,
    {
        assert(at + k < s.len());
        if s[at + k] != needle[k] {
            assert(s@.subrange(at as int, at + needle@.len())[k as int] != needle@[k as int]);
            return false;
        }
        k = k + 1;
    }
    assert(s@.subrange(at as int, at + needle@.len()) =~= needle@);
    true
}

/// The first position at or after `from` where `needle` occurs in `s`.
pub open spec fn first_at(s: Seq<char>, needle: Seq<char>, from: int) -> Option<int>
    decreases s.len() + 1 - from,
{
    if from < 0 || from > s.len() {
        None
    } else if occurs_at(s, needle, from) {
        Some(from)
    } else {
        first_at(s, needle, from + 1)
    }
}

/// What [`first_at`] returns is an occurrence at or after `from`, and none
/// comes earlier.
pub proof fn lemma_first_at(s: Seq<char>, needle: Seq<char>, from: int)
    requires
        0 <= from,
    ensures
        match first_at(s, needle, from) {
            Some(p) => from <= p <= s.len() && occurs_at(s, needle, p) && forall|q: int|
                from <= q < p ==> !occurs_at(s, needle, q),
            None => forall|q: int| from <= q ==> !occurs_at(s, needle, q),
        },
    decreases s.len() + 1 - from,
{
    if from > s.len() {
    } else if occurs_at(s, needle, from) {
    } else {
        lemma_first_at(s, needle, from + 1);
    }
}

/// The first position at or after `from` where `needle` occurs in `s`.
pub fn find_from(s: &Vec<char>, needle: &Vec<char>, from: usize) -> (r: Option<usize>)
    ensures
        match r {
            Some(p) => first_at(s@, needle@, from as int) == Some(p as int),
            None => first_at(s@, needle@, from as int) is None,
        },
{
    if from > s.len() {
        return None;
    }
    let mut p: usize = from;
    while p < s.len()
        invariant
            from <= p <= s.len(),
            first_at(s@, needle@, from as int) == first_at(s@, needle@, p as int),
        decreases s.len() - p,
    {
        if matches_at(s, needle, p) {
            return Some(p);
        }
        p = p + 1;
    }
    if matches_at(s, needle, p) {
        return Some(p);
    }
    assert(first_at(s@, needle@, p + 1) is None);
    None
}

/// The characters of `s` in `[from, to)`.
pub fn slice_chars(s: &Vec<char>, from: usize, to: usize) -> (r: Vec<char>)
    requires
        from <= to <= s.len(),
    ensures
        r@ == s@.subrange(from as int, to as int),
{
    let mut out: Vec<char> = Vec::new();
    let mut i: usize = from;
    while i < to
        invariant
            from <= i <= to,
            to <= s.len(),
            out@ == s@.subrange(from as int, i as int),
        decreases to - i,
    {
        out.push(s[i]);
        assert(out@ =~= s@.subrange(from as int, i + 1));
        i = i + 1;
    }
    out
}

/// The lowercase hexadecimal digit for `d` (0..16).
pub open spec fn hex_digit(d: nat) -> char {
    if d < 10 {
        (('0' as u32) + d) as char
    } else {
        (('a' as u32) + (d - 10)) as char
    }
}

/// The last `n` lowercase hexadecimal digits of `v`, most significant first
/// (zero-padded, as `{:0nx}` prints a value below `16^n`).
pub open spec fn hex_fixed(v: nat, n: nat) -> Seq<char>
    decreases n,
{
    if n == 0 {
        Seq::empty()
    } else {
        hex_fixed(v / 16, (n - 1) as nat).push(hex_digit(v % 16))
    }
}

/// `hex_fixed(v, n)` has exactly `n` digits.
pub proof fn lemma_hex_fixed_len(v: nat, n: nat)
    ensures
        hex_fixed(v, n).len() == n,
    decreases n,
{
    if n > 0 {
        lemma_hex_fixed_len(v / 16, (n - 1) as nat);
    }
}

/// A lowercase hexadecimal digit, `0`-`9` or `a`-`f`.
pub open spec fn lower_hex(c: char) -> bool {
    (48 <= c as u32 && c as u32 <= 57) || (97 <= c as u32 && c as u32 <= 102)
}

/// Every digit `hex_fixed` writes is a lowercase hexadecimal digit.
pub proof fn lemma_hex_fixed_digits(v: nat, n: nat)
    ensures
        forall|i: int| 0 <= i < hex_fixed(v, n).len() ==> lower_hex(#[trigger] hex_fixed(v, n)[i]),
    decreases n,
{
    if n > 0 {
        lemma_hex_fixed_digits(v / 16, (n - 1) as nat);
        let d = v % 16;
        assert(lower_hex(hex_digit(d)));
        let prev = hex_fixed(v / 16, (n - 1) as nat);
        assert(hex_fixed(v, n) == prev.push(hex_digit(d)));
        assert forall|i: int| 0 <= i < hex_fixed(v, n).len() implies lower_hex(#[trigger] hex_fixed(v, n)[i]) by {
            if i < prev.len() {
                assert(hex_fixed(v, n)[i] == prev[i]);
            }
        }
    }
}

fn hex_char(d: u64) -> (c: char)
    requires
        d < 16,
    ensures
        c == hex_digit(d as nat),
{
    if d < 10 {
        ((48u64 + d) as u8) as char
    } else {
        ((97u64 + (d - 10)) as u8) as char
    }
}

/// The last `n` hex digits of `v`, most significant first.
pub fn hex_digits(v: u64, n: usize) -> (r: Vec<char>)
    ensures
        r@ == hex_fixed(v as nat, n as nat),
    decreases n,
{
    if n == 0 {
        Vec::new()
    } else {
        let mut r = hex_digits(v / 16, n - 1);
        r.push(hex_char(v % 16));
        r
    }
}

/// The decimal digit character for `d` (0..10).
pub open spec fn dec_digit(d: nat) -> char {
    (('0' as u32) + d) as char
}

/// Decimal digits of `v` without leading zeros (`"0"` for zero).
pub open spec fn decimal_nat(v: nat) -> Seq<char>
    decreases v,
{
    if v < 10 {
        seq![dec_digit(v)]
    } else {
        decimal_nat(v / 10).push(dec_digit(v % 10))
    }
}

/// Decimal text of an integer as `Display` prints it (a leading `-` when
/// negative).
pub open spec fn decimal_int(v: int) -> Seq<char> {
    if v < 0 {
        seq!['-'] + decimal_nat((-v) as nat)
    } else {
        decimal_nat(v as nat)
    }
}

fn decimal_u64(v: u64) -> (r: Vec<char>)
    ensures
        r@ == decimal_nat(v as nat),
    decreases v,
{
    if v < 10 {
        let mut r: Vec<char> = Vec::new();
        r.push(((48u64 + v) as u8) as char);
        r
    } else {
        let mut r = decimal_u64(v / 10);
        r.push(((48u64 + v % 10) as u8) as char);
        r
    }
}

/// Decimal text of `v`.
pub fn format_i64(v: i64) -> (r: String)
    ensures
        r@ == decimal_int(v as int),
{
    if v < 0 {
        let mag: u64 = if v == i64::MIN {
            9_223_372_036_854_775_808u64
        } else {
            (-v) as u64
        };
        let digits = decimal_u64(mag);
        let mut out = String::new();
        push_char(&mut out, '-');
        let rest = string_of(&digits);
        out.append(rest.as_str());
        assert(out@ =~= seq!['-'] + decimal_nat((-v) as nat));
        out
    } else {
        let digits = decimal_u64(v as u64);
        string_of(&digits)
    }
}

/// The text between the first `open` marker and the first `close` marker
/// after it, if both occur.
pub open spec fn between(s: Seq<char>, open: Seq<char>, close: Seq<char>) -> Option<Seq<char>> {
    match first_at(s, open, 0) {
        None => None,
        Some(a) => match first_at(s, close, a + open.len()) {
            None => None,
            Some(e) => Some(s.subrange(a + open.len(), e)),
        },
    }
}

/// Text between the first `open`/`close` pair of `xml`, if present.
pub fn inner<'a>(xml: &'a str, open: &str, close: &str) -> (r: Option<&'a str>)
    ensures
        match r {
            Some(t) => between(xml@, open@, close@) == Some(t@),
            None => between(xml@, open@, close@) is None,
        },
{
    let cs = chars_of(xml);
    let o = chars_of(open);
    let c = chars_of(close);
    let _n: usize = cs.len();
    match find_from(&cs, &o, 0) {
        None => None,
        Some(a) => {
            proof {
                lemma_first_at(cs@, o@, 0);
                assert(occurs_at(cs@, o@, a as int));
            }
            let start: usize = a + o.len();
            match find_from(&cs, &c, start) {
                None => None,
                Some(e) => {
                    proof {
                        lemma_first_at(cs@, c@, start as int);
                    }
                    Some(xml.substring_char(start, e))
                },
            }
        },
    }
}

/// The text of every `open`/`close` pair of `s` from position `pos` on, in
/// document order: each search resumes after the previous closing marker.
pub open spec fn all_between(s: Seq<char>, open: Seq<char>, close: Seq<char>, pos: int) -> Seq<
    Seq<char>,
>
    decreases s.len() + 1 - pos,
{
    if pos < 0 || pos > s.len() || open.len() + close.len() == 0 {
        Seq::empty()
    } else {
        match first_at(s, open, pos) {
            None => Seq::empty(),
            Some(a) => match first_at(s, close, a + open.len()) {
                None => Seq::empty(),
                Some(e) => if pos < e + close.len() <= s.len() {
                    seq![s.subrange(a + open.len(), e)] + all_between(
                        s,
                        open,
                        close,
                        e + close.len(),
                    )
                } else {
                    Seq::empty()
                },
            },
        }
    }
}

/// The character views of a sequence of string slices.
pub open spec fn str_views(v: Seq<&str>) -> Seq<Seq<char>> {
    v.map_values(|t: &str| t@)
}

/// Text of every `open`/`close` tag pair, in document order. Both markers
/// empty would never advance, so at least one must be non-empty.
pub fn inner_all<'a>(xml: &'a str, open: &str, close: &str) -> (r: Vec<&'a str>)
    requires
        open@.len() + close@.len() > 0,
    ensures
        str_views(r@) == all_between(xml@, open@, close@, 0),
{
    let cs = chars_of(xml);
    let o = chars_of(open);
    let c = chars_of(close);
    let mut out: Vec<&'a str> = Vec::new();
    let mut pos: usize = 0;
    while pos <= cs.len()
        invariant
            cs@ == xml@,
            o@ == open@,
            c@ == close@,
            o@.len() + c@.len() > 0,
            str_views(out@) + all_between(cs@, o@, c@, pos as int) == all_between(
                cs@,
                o@,
                c@,
                0,
            ),
        ensures
            str_views(out@) == all_between(cs@, o@, c@, 0),
        decreases cs.len() + 1 - pos,
    {
        let a = match find_from(&cs, &o, pos) {
            None => {
                assert(all_between(cs@, o@, c@, pos as int) =~= Seq::empty());
                assert(str_views(out@) =~= str_views(out@) + Seq::<Seq<char>>::empty());
                break;
            },
            Some(a) => a,
        };
        proof {
            lemma_first_at(cs@, o@, pos as int);
            assert(occurs_at(cs@, o@, a as int));
        }
        let start: usize = a + o.len();
        let e = match find_from(&cs, &c, start) {
            None => {
                assert(all_between(cs@, o@, c@, pos as int) =~= Seq::empty());
                assert(str_views(out@) =~= str_views(out@) + Seq::<Seq<char>>::empty());
                break;
            },
            Some(e) => e,
        };
        proof {
            lemma_first_at(cs@, c@, start as int);
            assert(occurs_at(cs@, c@, e as int));
        }
        let piece = xml.substring_char(start, e);
        let ghost before = str_views(out@);
        out.push(piece);
        let next: usize = e + c.len();
        assert(str_views(out@) =~= before.push(piece@));
        assert(all_between(cs@, o@, c@, pos as int) == seq![piece@] + all_between(
            cs@,
            o@,
            c@,
            next as int,
        ));
        assert(before + (seq![piece@] + all_between(cs@, o@, c@, next as int)) =~= before.push(
            piece@,
        ) + all_between(cs@, o@, c@, next as int));
        pos = next;
    }
    proof {
        if pos > cs.len() {
            assert(all_between(cs@, o@, c@, pos as int) =~= Seq::empty());
            assert(str_views(out@) =~= str_views(out@) + Seq::<Seq<char>>::empty());
        }
    }
    out
}

/// `s` without its leading whitespace.
pub open spec fn ltrim(s: Seq<char>) -> Seq<char>
    decreases s.len(),
{
    if s.len() > 0 && is_space(s[0]) {
        ltrim(s.drop_first())
    } else {
        s
    }
}

/// `s` without its trailing whitespace.
pub open spec fn rtrim(s: Seq<char>) -> Seq<char>
    decreases s.len(),
{
    if s.len() > 0 && is_space(s.last()) {
        rtrim(s.drop_last())
    } else {
        s
    }
}

/// `ltrim(s)` is a suffix of `s` that does not start with whitespace.
pub proof fn lemma_ltrim(s: Seq<char>)
    ensures
        ltrim(s).len() <= s.len(),
        ltrim(s) == s.subrange(s.len() - ltrim(s).len(), s.len() as int),
        ltrim(s).len() > 0 ==> !is_space(ltrim(s)[0]),
    decreases s.len(),
{
    if s.len() > 0 && is_space(s[0]) {
        lemma_ltrim(s.drop_first());
        assert(s.drop_first().subrange(s.drop_first().len() - ltrim(s).len(), s.drop_first().len() as int)
            =~= s.subrange(s.len() - ltrim(s).len(), s.len() as int));
    } else {
        assert(s.subrange(0, s.len() as int) =~= s);
    }
}

/// `rtrim(s)` is a prefix of `s` that does not end with whitespace.
pub proof fn lemma_rtrim(s: Seq<char>)
    ensures
        rtrim(s).len() <= s.len(),
        rtrim(s) == s.subrange(0, rtrim(s).len() as int),
        rtrim(s).len() > 0 ==> !is_space(rtrim(s).last()),
    decreases s.len(),
{
    if s.len() > 0 && is_space(s.last()) {
        lemma_rtrim(s.drop_last());
        assert(s.drop_last().subrange(0, rtrim(s).len() as int) =~= s.subrange(0, rtrim(s).len() as int));
    } else {
        assert(s.subrange(0, s.len() as int) =~= s);
    }
}

/// `trimmed(s)` is a run of `s` that neither starts nor ends with whitespace.
pub proof fn lemma_trimmed(s: Seq<char>)
    ensures
        0 <= s.len() - ltrim(s).len(),
        s.len() - ltrim(s).len() + trimmed(s).len() <= s.len(),
        trimmed(s) == s.subrange(s.len() - ltrim(s).len(), s.len() - ltrim(s).len() + trimmed(s).len()),
        trimmed(s).len() > 0 ==> !is_space(trimmed(s)[0]) && !is_space(trimmed(s).last()),
{
    let l = ltrim(s);
    lemma_ltrim(s);
    lemma_rtrim(l);
    let t = rtrim(l);
    let a = s.len() - l.len();
    assert(t =~= s.subrange(a, a + t.len()));
    if t.len() > 0 {
        assert(t[0] == l[0]);
    }
}

/// `s` without leading or trailing whitespace (what `str::trim` returns).
pub open spec fn trimmed(s: Seq<char>) -> Seq<char> {
    rtrim(ltrim(s))
}

/// `s` with leading and trailing whitespace removed.
pub fn trim<'a>(s: &'a str) -> (r: &'a str)
    ensures
        r@ == trimmed(s@),
{
    let cs = chars_of(s);
    let n: usize = cs.len();
    let mut i: usize = 0;
    assert(cs@.subrange(0, n as int) =~= cs@);
    while i < n && char_is_space(cs[i])
        invariant
            cs@ == s@,
            n == cs@.len(),
            i <= n,
            ltrim(cs@) == ltrim(cs@.subrange(i as int, n as int)),
        decreases n - i,
    {
        assert(cs@.subrange(i as int, n as int).drop_first() =~= cs@.subrange(i + 1, n as int));
        i = i + 1;
    }
    assert(ltrim(cs@.subrange(i as int, n as int)) == cs@.subrange(i as int, n as int));
    let mut j: usize = n;
    while j > i && char_is_space(cs[j - 1])
        invariant
            cs@ == s@,
            n == cs@.len(),
            i <= j <= n,
            rtrim(ltrim(cs@)) == rtrim(cs@.subrange(i as int, j as int)),
        decreases j,
    {
        assert(cs@.subrange(i as int, j as int).drop_last() =~= cs@.subrange(i as int, j - 1));
        j = j - 1;
    }
    assert(rtrim(cs@.subrange(i as int, j as int)) == cs@.subrange(i as int, j as int));
    s.substring_char(i, j)
}

/// `s` without its leading `c` characters (what `trim_start_matches(c)` returns).
pub open spec fn strip_leading(s: Seq<char>, c: char) -> Seq<char>
    decreases s.len(),
{
    if s.len() > 0 && s[0] == c {
        strip_leading(s.drop_first(), c)
    } else {
        s
    }
}

/// `s` with its leading `c` characters removed.
pub fn trim_start_char<'a>(s: &'a str, c: char) -> (r: &'a str)
    ensures
        r@ == strip_leading(s@, c),
{
    let cs = chars_of(s);
    let n: usize = cs.len();
    let mut i: usize = 0;
    assert(cs@.subrange(0, n as int) =~= cs@);
    while i < n && cs[i] == c
        invariant
            cs@ == s@,
            n == cs@.len(),
            i <= n,
            strip_leading(cs@, c) == strip_leading(cs@.subrange(i as int, n as int), c),
        decreases n - i,
    {
        assert(cs@.subrange(i as int, n as int).drop_first() =~= cs@.subrange(i + 1, n as int));
        i = i + 1;
    }
    s.substring_char(i, n)
}

/// `s` with every `from` replaced by `to`.
pub open spec fn replaced_char(s: Seq<char>, from: char, to: char) -> Seq<char> {
    s.map_values(|c: char| if c == from {
        to
    } else {
        c
    })
}

/// `s` with every `from` replaced by `to` (what `replace(from, to)` returns
/// for single characters).
pub fn replace_char(s: &str, from: char, to: char) -> (r: String)
    ensures
        r@ == replaced_char(s@, from, to),
{
    let cs = chars_of(s);
    let mut out: Vec<char> = Vec::new();
    let mut i: usize = 0;
    while i < cs.len()
        invariant
            cs@ == s@,
            i <= cs@.len(),
            out@ == replaced_char(cs@.subrange(0, i as int), from, to),
        decreases cs.len() - i,
    {
        let c = cs[i];
        out.push(if c == from {
            to
        } else {
            c
        });
        assert(replaced_char(cs@.subrange(0, i + 1), from, to) =~= replaced_char(
            cs@.subrange(0, i as int),
            from,
            to,
        ).push(if c == from {
            to
        } else {
            c
        }));
        i = i + 1;
    }
    assert(cs@.subrange(0, cs@.len() as int) =~= cs@);
    string_of(&out)
}

/// `s` with every `c` removed.
pub open spec fn without_char(s: Seq<char>, c: char) -> Seq<char>
    decreases s.len(),
{
    if s.len() == 0 {
        s
    } else if s.last() == c {
        without_char(s.drop_last(), c)
    } else {
        without_char(s.drop_last(), c).push(s.last())
    }
}

/// `s` with every `c` removed (what `replace(c, "")` returns).
pub fn remove_char(s: &str, c: char) -> (r: String)
    ensures
        r@ == without_char(s@, c),
{
    let cs = chars_of(s);
    let mut out = String::new();
    let mut i: usize = 0;
    while i < cs.len()
        invariant
            cs@ == s@,
            i <= cs.len(),
            out@ == without_char(cs@.subrange(0, i as int), c),
        decreases cs.len() - i,
    {
        assert(cs@.subrange(0, i + 1).drop_last() =~= cs@.subrange(0, i as int));
        if cs[i] != c {
            push_char(&mut out, cs[i]);
        }
        i = i + 1;
    }
    assert(cs@.subrange(0, cs.len() as int) =~= cs@);
    out
}

/// The part of `s` after its last `sep` (all of `s` when `sep` is absent):
/// the first item `rsplit(sep)` yields.
pub open spec fn last_segment(s: Seq<char>, sep: char) -> Seq<char>
    decreases s.len(),
{
    if s.len() == 0 {
        s
    } else if s.last() == sep {
        Seq::empty()
    } else {
        last_segment(s.drop_last(), sep).push(s.last())
    }
}

/// The part of `s` after its last `sep`.
pub fn after_last<'a>(s: &'a str, sep: char) -> (r: &'a str)
    ensures
        r@ == last_segment(s@, sep),
{
    let cs = chars_of(s);
    let n: usize = cs.len();
    let mut i: usize = n;
    assert(cs@.subrange(0, n as int) =~= cs@);
    assert(cs@ + cs@.subrange(n as int, n as int) =~= cs@);
    while i > 0 && cs[i - 1] != sep
        invariant
            cs@ == s@,
            n == cs@.len(),
            i <= n,
            last_segment(cs@, sep) == last_segment(cs@.subrange(0, i as int), sep) + cs@.subrange(
                i as int,
                n as int,
            ),
        decreases i,
    {
        assert(cs@.subrange(0, i as int).drop_last() =~= cs@.subrange(0, i - 1));
        assert(cs@.subrange(i - 1, n as int) =~= seq![cs@[i - 1]] + cs@.subrange(i as int, n as int));
        assert(last_segment(cs@.subrange(0, i - 1), sep).push(cs@[i - 1]) + cs@.subrange(
            i as int,
            n as int,
        ) =~= last_segment(cs@.subrange(0, i - 1), sep) + cs@.subrange(i - 1, n as int));
        i = i - 1;
    }
    assert(last_segment(cs@.subrange(0, i as int), sep) =~= Seq::<char>::empty());
    assert(last_segment(cs@, sep) =~= cs@.subrange(i as int, n as int));
    s.substring_char(i, n)
}

/// How many whitespace-separated tokens `s` holds (what
/// `split_whitespace().count()` returns).
pub open spec fn token_count(s: Seq<char>) -> nat
    decreases s.len(),
{
    if s.len() == 0 {
        0
    } else {
        let starts = !is_space(s.last()) && (s.len() == 1 || is_space(s[s.len() - 2]));
        token_count(s.drop_last()) + if starts {
            1nat
        } else {
            0nat
        }
    }
}

/// The number of whitespace-separated tokens in `s`.
pub fn count_tokens(s: &str) -> (r: usize)
    ensures
        r == token_count(s@),
{
    let cs = chars_of(s);
    let mut count: usize = 0;
    let mut i: usize = 0;
    while i < cs.len()
        invariant
            cs@ == s@,
            i <= cs.len(),
            count == token_count(cs@.subrange(0, i as int)),
            count <= i,
        decreases cs.len() - i,
    {
        assert(cs@.subrange(0, i + 1).drop_last() =~= cs@.subrange(0, i as int));
        if !char_is_space(cs[i]) && (i == 0 || char_is_space(cs[i - 1])) {
            count = count + 1;
        }
        i = i + 1;
    }
    assert(cs@.subrange(0, cs.len() as int) =~= cs@);
    count
}

/// Whitespace collapsing, one character at a time: the text so far and
/// whether a separating space is owed before the next word.
pub open spec fn squash_state(s: Seq<char>) -> (Seq<char>, bool)
    decreases s.len(),
{
    if s.len() == 0 {
        (Seq::empty(), false)
    } else {
        let (out, pending) = squash_state(s.drop_last());
        let c = s.last();
        if is_space(c) {
            (out, out.len() > 0)
        } else if pending {
            (out.push(' ').push(c), false)
        } else {
            (out.push(c), false)
        }
    }
}

/// The words of `s` joined by single spaces (what
/// `split_whitespace().collect::<Vec<_>>().join(" ")` returns).
pub open spec fn squashed(s: Seq<char>) -> Seq<char> {
    squash_state(s).0
}

/// Collapse every whitespace run of `s` to one space and drop leading and
/// trailing whitespace.
pub fn squash_whitespace(s: &str) -> (r: String)
    ensures
        r@ == squashed(s@),
{
    let cs = chars_of(s);
    let mut out = String::new();
    let mut pending = false;
    let mut i: usize = 0;
    while i < cs.len()
        invariant
            cs@ == s@,
            i <= cs.len(),
            (out@, pending) == squash_state(cs@.subrange(0, i as int)),
        decreases cs.len() - i,
    {
        assert(cs@.subrange(0, i + 1).drop_last() =~= cs@.subrange(0, i as int));
        let c = cs[i];
        if char_is_space(c) {
            pending = out.as_str().unicode_len() > 0;
        } else {
            if pending {
                push_char(&mut out, ' ');
            }
            push_char(&mut out, c);
            pending = false;
        }
        i = i + 1;
    }
    assert(cs@.subrange(0, cs.len() as int) =~= cs@);
    out
}

/// Lexicographic order on character sequences (by code point, a proper
/// prefix first): the order `str`'s `Ord` gives.
pub open spec fn seq_lt(a: Seq<char>, b: Seq<char>) -> bool
    decreases a.len(),
{
    if a.len() == 0 {
        b.len() > 0
    } else if b.len() == 0 {
        false
    } else if a[0] < b[0] {
        true
    } else if a[0] == b[0] {
        seq_lt(a.drop_first(), b.drop_first())
    } else {
        false
    }
}

/// `seq_lt` is irreflexive.
pub proof fn lemma_seq_lt_irreflexive(a: Seq<char>)
    ensures
        !seq_lt(a, a),
    decreases a.len(),
{
    if a.len() > 0 {
        lemma_seq_lt_irreflexive(a.drop_first());
    }
}

/// `seq_lt` is transitive.
pub proof fn lemma_seq_lt_transitive(a: Seq<char>, b: Seq<char>, c: Seq<char>)
    requires
        seq_lt(a, b),
        seq_lt(b, c),
    ensures
        seq_lt(a, c),
    decreases a.len(),
{
    if a.len() > 0 && b.len() > 0 && c.len() > 0 && a[0] == b[0] && b[0] == c[0] {
        lemma_seq_lt_transitive(a.drop_first(), b.drop_first(), c.drop_first());
    }
}

/// Two different sequences are ordered one way or the other.
pub proof fn lemma_seq_lt_total(a: Seq<char>, b: Seq<char>)
    ensures
        a == b || seq_lt(a, b) || seq_lt(b, a),
    decreases a.len(),
{
    if a.len() > 0 && b.len() > 0 && a[0] == b[0] {
        lemma_seq_lt_total(a.drop_first(), b.drop_first());
        if a.drop_first() == b.drop_first() {
            assert(a =~= seq![a[0]] + a.drop_first());
            assert(b =~= seq![b[0]] + b.drop_first());
        }
    } else if a.len() == 0 && b.len() == 0 {
        assert(a =~= b);
    } else if a.len() > 0 && b.len() > 0 {
        assert(a[0] < b[0] || b[0] < a[0]);
    }
}

/// `seq_lt` is asymmetric.
pub proof fn lemma_seq_lt_asymmetric(a: Seq<char>, b: Seq<char>)
    requires
        seq_lt(a, b),
    ensures
        !seq_lt(b, a),
{
    if seq_lt(b, a) {
        lemma_seq_lt_transitive(a, b, a);
        lemma_seq_lt_irreflexive(a);
    }
}


/// Whether `c` is an ASCII decimal digit.
pub open spec fn is_digit(c: char) -> bool {
    '0' <= c && c <= '9'
}

/// Whether `s` is nothing but ASCII decimal digits.
pub open spec fn all_digits(s: Seq<char>) -> bool {
    forall|i: int| 0 <= i < s.len() ==> is_digit(#[trigger] s[i])
}

/// The value of a run of decimal digits, read left to right.
pub open spec fn digits_value(s: Seq<char>) -> nat
    decreases s.len(),
{
    if s.len() == 0 {
        0
    } else {
        digits_value(s.drop_last()) * 10 + ((s.last() as u32) - ('0' as u32)) as nat
    }
}

/// The integer an optionally signed run of decimal digits denotes (`+` or
/// `-`, then at least one digit), or `None` for any other text.
pub open spec fn int_text(s: Seq<char>) -> Option<int> {
    if s.len() > 0 && (s[0] == '-' || s[0] == '+') {
        let rest = s.drop_first();
        if rest.len() > 0 && all_digits(rest) {
            if s[0] == '-' {
                Some(-digits_value(rest))
            } else {
                Some(digits_value(rest) as int)
            }
        } else {
            None
        }
    } else if s.len() > 0 && all_digits(s) {
        Some(digits_value(s) as int)
    } else {
        None
    }
}

/// What `str::parse::<i64>` gives for `s`: the denoted integer when the text
/// is well formed and the value fits in `i64`.
pub open spec fn i64_text(s: Seq<char>) -> Option<i64> {
    match int_text(s) {
        Some(v) => if i64::MIN <= v && v <= i64::MAX {
            Some(v as i64)
        } else {
            None
        },
        None => None,
    }
}

/// Capping a partial value at `cap` before reading the next digit changes
/// nothing once the result is capped again.
proof fn lemma_capped_step(v: nat, d: nat, cap: nat)
    requires
        d < 10,
    ensures
        (if v < cap { v } else { cap }) * 10 + d >= cap <==> v * 10 + d >= cap,
        v < cap ==> (if v < cap { v } else { cap }) * 10 + d == v * 10 + d,
{
    if v >= cap {
        assert(cap * 10 + d >= cap) by (nonlinear_arith);
        assert(v * 10 + d >= cap) by (nonlinear_arith)
            requires
                v >= cap,
        ;
    }
}

/// Parse `s` as a decimal `i64`, as `str::parse::<i64>` does.
pub fn parse_i64(s: &str) -> (r: Option<i64>)
    ensures
        r == i64_text(s@),
{
    let cs = chars_of(s);
    let n: usize = cs.len();
    if n == 0 {
        return None;
    }
    let negative = cs[0] == '-';
    let start: usize = if cs[0] == '-' || cs[0] == '+' {
        1
    } else {
        0
    };
    if start == n {
        return None;
    }
    let ghost body = cs@.subrange(start as int, n as int);
    // The value read so far, held at most at `cap`, which no `i64` magnitude reaches.
    let cap: u128 = 9_223_372_036_854_775_809u128;
    let mut acc: u128 = 0;
    let mut i: usize = start;
    while i < n
        invariant
            cs@ == s@,
            n == cs@.len(),
            start <= i <= n,
            start < n,
            negative == (cs@[0] == '-'),
            start == 1 <==> (cs@[0] == '-' || cs@[0] == '+'),
            start == 0 || start == 1,
            body == cs@.subrange(start as int, n as int),
            cap == 9_223_372_036_854_775_809u128,
            all_digits(cs@.subrange(start as int, i as int)),
            acc == (if digits_value(cs@.subrange(start as int, i as int)) < cap {
                digits_value(cs@.subrange(start as int, i as int))
            } else {
                cap as nat
            }),
        decreases n - i,
    {
        let c = cs[i];
        if !('0' <= c && c <= '9') {
            assert(!all_digits(body)) by {
                assert(body[i - start] == c);
            }
            if start == 1 {
                assert(s@.drop_first() =~= body);
            } else {
                assert(s@ =~= body);
            }
            return None;
        }
        let d: u128 = ((c as u32) - 48) as u128;
        let ghost prefix = cs@.subrange(start as int, i as int);
        let ghost next = cs@.subrange(start as int, i + 1);
        assert(next.drop_last() =~= prefix);
        assert(next.last() == c);
        proof {
            lemma_capped_step(digits_value(prefix), d as nat, cap as nat);
        }
        let stepped: u128 = acc * 10 + d;
        acc = if stepped < cap {
            stepped
        } else {
            cap
        };
        i = i + 1;
    }
    assert(cs@.subrange(start as int, n as int) =~= body);
    if start == 1 {
        assert(s@.drop_first() =~= body);
    } else {
        assert(s@ =~= body);
    }
    if negative {
        if acc == 9_223_372_036_854_775_808u128 {
            Some(i64::MIN)
        } else if acc < 9_223_372_036_854_775_808u128 {
            Some(-(acc as i64))
        } else {
            None
        }
    } else if acc < 9_223_372_036_854_775_808u128 {
        Some(acc as i64)
    } else {
        None
    }
}

/// What `str::parse::<i32>` gives for `s`.
pub open spec fn i32_text(s: Seq<char>) -> Option<i32> {
    match int_text(s) {
        Some(v) => if i32::MIN <= v && v <= i32::MAX {
            Some(v as i32)
        } else {
            None
        },
        None => None,
    }
}

/// Parse `s` as a decimal `i32`, as `str::parse::<i32>` does.
pub fn parse_i32(s: &str) -> (r: Option<i32>)
    ensures
        r == i32_text(s@),
{
    match parse_i64(s) {
        Some(v) => if i32::MIN as i64 <= v && v <= i32::MAX as i64 {
            Some(v as i32)
        } else {
            None
        },
        None => None,
    }
}

/// What `str::parse::<u64>` gives for `s` (no `-` sign is accepted).
pub open spec fn u64_text(s: Seq<char>) -> Option<u64> {
    if s.len() > 0 && s[0] == '-' {
        None
    } else {
        match int_text(s) {
            Some(v) => if 0 <= v && v <= u64::MAX {
                Some(v as u64)
            } else {
                None
            },
            None => None,
        }
    }
}

/// Parse `s` as a decimal `u64`, as `str::parse::<u64>` does.
pub fn parse_u64(s: &str) -> (r: Option<u64>)
    ensures
        r == u64_text(s@),
{
    let cs = chars_of(s);
    let n: usize = cs.len();
    if n == 0 {
        return None;
    }
    if cs[0] == '-' {
        return None;
    }
    let start: usize = if cs[0] == '+' {
        1
    } else {
        0
    };
    if start == n {
        return None;
    }
    let ghost body = cs@.subrange(start as int, n as int);
    let cap: u128 = 18_446_744_073_709_551_616u128;
    let mut acc: u128 = 0;
    let mut i: usize = start;
    while i < n
        invariant
            cs@ == s@,
            n == cs@.len(),
            start <= i <= n,
            start < n,
            cs@[0] != '-',
            start == 1 <==> cs@[0] == '+',
            start == 0 || start == 1,
            body == cs@.subrange(start as int, n as int),
            cap == 18_446_744_073_709_551_616u128,
            all_digits(cs@.subrange(start as int, i as int)),
            acc == (if digits_value(cs@.subrange(start as int, i as int)) < cap {
                digits_value(cs@.subrange(start as int, i as int))
            } else {
                cap as nat
            }),
        decreases n - i,
    {
        let c = cs[i];
        if !('0' <= c && c <= '9') {
            assert(!all_digits(body)) by {
                assert(body[i - start] == c);
            }
            if start == 1 {
                assert(s@.drop_first() =~= body);
            } else {
                assert(s@ =~= body);
            }
            return None;
        }
        let d: u128 = ((c as u32) - 48) as u128;
        let ghost prefix = cs@.subrange(start as int, i as int);
        let ghost next = cs@.subrange(start as int, i + 1);
        assert(next.drop_last() =~= prefix);
        assert(next.last() == c);
        proof {
            lemma_capped_step(digits_value(prefix), d as nat, cap as nat);
        }
        let stepped: u128 = acc * 10 + d;
        acc = if stepped < cap {
            stepped
        } else {
            cap
        };
        i = i + 1;
    }
    assert(cs@.subrange(start as int, n as int) =~= body);
    if start == 1 {
        assert(s@.drop_first() =~= body);
    } else {
        assert(s@ =~= body);
    }
    if acc < cap {
        Some(acc as u64)
    } else {
        None
    }
}

/// Whether `a` sorts strictly before `b`.
pub fn str_lt(a: &str, b: &str) -> (r: bool)
    ensures
        r == seq_lt(a@, b@),
{
    let n = a.unicode_len();
    let m = b.unicode_len();
    let mut i: usize = 0;
    assert(a@.skip(0) =~= a@);
    assert(b@.skip(0) =~= b@);
    while i < n && i < m
        invariant
            n == a@.len(),
            m == b@.len(),
            i <= n,
            i <= m,
            seq_lt(a@, b@) == seq_lt(a@.skip(i as int), b@.skip(i as int)),
        decreases n - i,
    {
        let x = a.get_char(i);
        let y = b.get_char(i);
        assert(a@.skip(i as int)[0] == x);
        assert(b@.skip(i as int)[0] == y);
        if x < y {
            return true;
        }
        if x != y {
            return false;
        }
        assert(a@.skip(i as int).drop_first() =~= a@.skip(i + 1));
        assert(b@.skip(i as int).drop_first() =~= b@.skip(i + 1));
        i = i + 1;
    }
    i == n && i < m
}

} // verus!
