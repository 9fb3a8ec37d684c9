//! Network resilience primitives: time spans, the retry/backoff policy, the
//! request rate limiter, the failed-login throttle, and the HTTP cache
//! validators replayed as conditional-request headers. Instants are counted
//! in nanoseconds since the Unix epoch.

use vstd::prelude::*;

use crate::text::{parse_u64, str_eq, u64_text};

verus! {

/// Nanoseconds in one second.
pub const NANOS_PER_SEC: u128 = 1_000_000_000;

/// The longest representable span: `u64::MAX` seconds plus 999 999 999 ns
/// (the range of `std::time::Duration`).
pub const SPAN_MAX_NANOS: u128 = 18_446_744_073_709_551_615_999_999_999;

/// A non-negative length of time with nanosecond resolution and the range of
/// `std::time::Duration`.
#[derive(Debug, Clone, Copy, PartialEq, Eq, Structural)]
pub struct Span {
    nanos: u128,
}

impl View for Span {
    type V = nat;

    closed spec fn view(&self) -> nat {
        self.nanos as nat
    }
}

impl Span {
    #[verifier::type_invariant]
    closed spec fn wf(self) -> bool {
        self.nanos <= SPAN_MAX_NANOS
    }

    /// The empty span.
    pub fn zero() -> (r: Span)
        ensures
            r@ == 0,
    {
        Span { nanos: 0 }
    }

    /// A span of `n` nanoseconds.
    pub fn from_nanos(n: u128) -> (r: Span)
        requires
            n <= SPAN_MAX_NANOS,
        ensures
            r@ == n,
    {
        Span { nanos: n }
    }

    /// A span of `ms` milliseconds.
    pub fn from_millis(ms: u64) -> (r: Span)
        ensures
            r@ == ms * 1_000_000,
    {
        assert(ms * 1_000_000 <= SPAN_MAX_NANOS) by (nonlinear_arith)
            requires
                ms <= u64::MAX,
        ;
        Span { nanos: ms as u128 * 1_000_000 }
    }

    /// A span of `s` whole seconds.
    pub fn from_secs(s: u64) -> (r: Span)
        ensures
            r@ == s * NANOS_PER_SEC,
    {
        assert(s * NANOS_PER_SEC <= SPAN_MAX_NANOS) by (nonlinear_arith)
            requires
                s <= u64::MAX,
        ;
        Span { nanos: s as u128 * NANOS_PER_SEC }
    }

    /// Total length in nanoseconds.
    pub fn as_nanos(&self) -> (r: u128)
        ensures
            r == self@,
    {
        self.nanos
    }

    /// Whole seconds of the span.
    pub fn secs(&self) -> (r: u64)
        ensures
            r == self@ / NANOS_PER_SEC as nat,
    {
        proof {
            use_type_invariant(self);
        }
        (self.nanos / NANOS_PER_SEC) as u64
    }

    /// Nanoseconds past the whole seconds.
    pub fn subsec_nanos(&self) -> (r: u32)
        ensures
            r == self@ % NANOS_PER_SEC as nat,
    {
        (self.nanos % NANOS_PER_SEC) as u32
    }

    /// `self * k`, or the longest span when that overflows.
    pub fn saturating_mul(self, k: u32) -> (r: Span)
        ensures
            r@ == if self@ * (k as nat) <= SPAN_MAX_NANOS {
                self@ * (k as nat)
            } else {
                SPAN_MAX_NANOS as nat
            },
    {
        proof {
            use_type_invariant(self);
        }
        assert(self.nanos * k < u128::MAX) by (nonlinear_arith)
            requires
                self.nanos <= SPAN_MAX_NANOS,
                k <= u32::MAX,
        ;
        let p: u128 = self.nanos * (k as u128);
        if p <= SPAN_MAX_NANOS {
            Span { nanos: p }
        } else {
            Span { nanos: SPAN_MAX_NANOS }
        }
    }

    /// The shorter of the two spans.
    pub fn min(self, other: Span) -> (r: Span)
        ensures
            r@ == if self@ <= other@ {
                self@
            } else {
                other@
            },
    {
        if self.nanos <= other.nanos {
            self
        } else {
            other
        }
    }
}

/// 2 raised to `n`.
pub open spec fn pow2(n: nat) -> nat
    decreases n,
{
    if n == 0 {
        1
    } else {
        2 * pow2((n - 1) as nat)
    }
}

proof fn lemma_pow2_grows(a: nat, b: nat)
    requires
        a <= b,
    ensures
        pow2(a) <= pow2(b),
    decreases b,
{
    if a < b {
        lemma_pow2_grows(a, (b - 1) as nat);
    }
}

proof fn lemma_pow2_32()
    ensures
        pow2(31) == 2147483648,
        pow2(32) == 4294967296,
{
    reveal_with_fuel(pow2, 33);
}

/// `2^n`, saturating at `u32::MAX` (what `2u32.saturating_pow(n)` computes).
pub fn saturating_pow2(n: u32) -> (r: u32)
    ensures
        r == if pow2(n as nat) <= u32::MAX {
            pow2(n as nat)
        } else {
            u32::MAX as nat
        },
{
    if n >= 32 {
        proof {
            lemma_pow2_grows(32, n as nat);
            lemma_pow2_32();
        }
        return u32::MAX;
    }
    let mut r: u32 = 1;
    let mut i: u32 = 0;
    proof {
        lemma_pow2_grows(0, 31);
    }
    while i < n
        invariant
            i <= n < 32,
            r == pow2(i as nat),
            pow2(i as nat) <= pow2(31),
        decreases n - i,
    {
        proof {
            lemma_pow2_grows((i + 1) as nat, 31);
            lemma_pow2_32();
        }
        r = r * 2;
        i = i + 1;
    }
    proof {
        lemma_pow2_grows(n as nat, 31);
        lemma_pow2_32();
    }
    r
}

/// Exponential backoff with a cap, honoring `Retry-After` when present.
#[derive(Debug, Clone)]
pub struct RetryPolicy {
    pub max_retries: u32,
    pub base: Span,
    pub max: Span,
}

impl Default for RetryPolicy {
    fn default() -> (r: RetryPolicy)
        ensures
            r.max_retries == 4,
            r.base@ == 250_000_000,
            r.max@ == 10 * NANOS_PER_SEC,
    {
        RetryPolicy { max_retries: 4, base: Span::from_millis(250), max: Span::from_secs(10) }
    }
}

/// The wait before retry number `attempt` (0-based), in nanoseconds.
pub open spec fn backoff_delay(p: RetryPolicy, attempt: nat, retry_after: Option<nat>) -> nat {
    let cap = p.max@;
    match retry_after {
        Some(ra) => if ra <= cap {
            ra
        } else {
            cap
        },
        None => {
            let factor = if pow2(attempt) <= u32::MAX {
                pow2(attempt)
            } else {
                u32::MAX as nat
            };
            let grown = if p.base@ * factor <= SPAN_MAX_NANOS {
                p.base@ * factor
            } else {
                SPAN_MAX_NANOS as nat
            };
            if grown <= cap {
                grown
            } else {
                cap
            }
        },
    }
}

/// Whether a failure is transient: a transport error (no status), 429, or any 5xx.
pub open spec fn transient(status: Option<u16>) -> bool {
    match status {
        None => true,
        Some(s) => s == 429 || (500 <= s && s <= 599),
    }
}

impl RetryPolicy {
    /// How long to wait before the given retry `attempt` (0-based).
    pub fn delay_for(&self, attempt: u32, retry_after: Option<Span>) -> (r: Span)
        ensures
            r@ == backoff_delay(
                *self,
                attempt as nat,
                match retry_after {
                    Some(ra) => Some(ra@),
                    None => None,
                },
            ),
    {
        if let Some(ra) = retry_after {
            return ra.min(self.max);
        }
        let factor = saturating_pow2(attempt);
        self.base.saturating_mul(factor).min(self.max)
    }

    /// Whether to retry: only while attempts remain, and only for transient
    /// failures (transport error = no status, 429, or any 5xx).
    pub fn should_retry(&self, attempt: u32, status: Option<u16>) -> (r: bool)
        ensures
            r == (attempt < self.max_retries && transient(status)),
    {
        if attempt >= self.max_retries {
            return false;
        }
        match status {
            None => true,
            Some(429) => true,
            Some(s) => 500 <= s && s <= 599,
        }
    }
}

/// Backoff never waits longer than the policy's cap.
pub proof fn backoff_is_capped(p: RetryPolicy, attempt: nat, retry_after: Option<nat>)
    ensures
        backoff_delay(p, attempt, retry_after) <= p.max@,
{
}

/// Without a `Retry-After` hint, a later attempt never waits less than an
/// earlier one.
pub proof fn backoff_is_monotone(p: RetryPolicy, a: nat, b: nat)
    requires
        a <= b,
    ensures
        backoff_delay(p, a, None) <= backoff_delay(p, b, None),
{
    lemma_pow2_grows(a, b);
    let fa = if pow2(a) <= u32::MAX {
        pow2(a)
    } else {
        u32::MAX as nat
    };
    let fb = if pow2(b) <= u32::MAX {
        pow2(b)
    } else {
        u32::MAX as nat
    };
    assert(fa <= fb);
    assert(p.base@ * fa <= p.base@ * fb) by (nonlinear_arith)
        requires
            fa <= fb,
    ;
}

/// Once the retry budget is spent, nothing is retried.
pub proof fn no_retry_after_budget(p: RetryPolicy, attempt: u32, status: Option<u16>)
    requires
        attempt >= p.max_retries,
    ensures
        !(attempt < p.max_retries && transient(status)),
{
}

/// HTTP cache validators (RFC 9110): an entity tag and/or `Last-Modified`
/// stamp, replayed as conditional-request headers so an unchanged upstream
/// document answers 304 instead of a full body.
#[derive(Debug, Clone, PartialEq, Eq)]
pub struct Validators {
    pub etag: Option<String>,
    pub last_modified: Option<String>,
}

impl Default for Validators {
    fn default() -> (r: Validators)
        ensures
            r.etag is None,
            r.last_modified is None,
    {
        Validators { etag: None, last_modified: None }
    }
}

/// The (name, value) character views of a header list.
pub open spec fn header_views(h: Seq<(&'static str, String)>) -> Seq<(Seq<char>, Seq<char>)> {
    h.map_values(|p: (&'static str, String)| (p.0@, p.1@))
}

/// The conditional-request headers owed for the given validators.
pub open spec fn conditional_headers(
    etag: Option<String>,
    last_modified: Option<String>,
) -> Seq<(Seq<char>, Seq<char>)> {
    let first = match etag {
        Some(e) => seq![("If-None-Match"@, e@)],
        None => Seq::empty(),
    };
    let second = match last_modified {
        Some(m) => seq![("If-Modified-Since"@, m@)],
        None => Seq::empty(),
    };
    first + second
}

impl Validators {
    /// The conditional-request headers for these validators (only the present
    /// fields; empty validators mean an unconditional request).
    pub fn request_headers(&self) -> (r: Vec<(&'static str, String)>)
        ensures
            header_views(r@) == conditional_headers(self.etag, self.last_modified),
    {
        let mut headers: Vec<(&'static str, String)> = Vec::new();
        if let Some(etag) = &self.etag {
            headers.push(("If-None-Match", etag.clone()));
        }
        if let Some(last_modified) = &self.last_modified {
            headers.push(("If-Modified-Since", last_modified.clone()));
        }
        assert(header_views(headers@) =~= conditional_headers(self.etag, self.last_modified));
        headers
    }
}

/// The earliest instant `chrono`'s `DateTime<Utc>` represents
/// (-262143-01-01T00:00:00), in nanoseconds since the Unix epoch.
pub const EARLIEST_INSTANT_NANOS: i128 = -8_334_601_315_200_000_000_000;

/// The latest instant `chrono`'s `DateTime<Utc>` represents
/// (+262142-12-31T23:59:59.999999999), in nanoseconds since the Unix epoch.
pub const LATEST_INSTANT_NANOS: i128 = 8_210_266_876_799_999_999_999;

/// The longest `chrono::TimeDelta` (`i64::MAX` milliseconds), in nanoseconds:
/// a longer `std` duration does not convert.
pub const LONGEST_DELTA_NANOS: u128 = 9_223_372_036_854_775_807_000_000;

/// The spacing a limiter applies: its minimum interval, or nothing when that
/// interval is too long to convert to a `chrono` delta.
pub open spec fn spacing(min_interval: Span) -> nat {
    if min_interval@ <= LONGEST_DELTA_NANOS {
        min_interval@
    } else {
        0
    }
}

/// Spaces requests at least `min_interval` apart across all callers.
#[derive(Debug)]
pub struct RateLimiter {
    min_interval: Span,
    next_slot: Option<i128>,
}

/// The slot a reservation at `now` gets: the pending slot when it lies in
/// the future, else `now`.
pub open spec fn slot_for(next_slot: Option<i128>, now: i128) -> int {
    match next_slot {
        Some(t) => if t > now {
            t as int
        } else {
            now as int
        },
        None => now as int,
    }
}

impl RateLimiter {
    #[verifier::type_invariant]
    closed spec fn slot_in_range(self) -> bool {
        self.next_slot matches Some(t) ==> EARLIEST_INSTANT_NANOS <= t <= LATEST_INSTANT_NANOS
    }

    /// The next free slot, if any reservation was made.
    pub closed spec fn pending(self) -> Option<i128> {
        self.next_slot
    }

    /// The minimum spacing between requests.
    pub closed spec fn interval(self) -> Span {
        self.min_interval
    }

    /// The minimum spacing between requests.
    pub fn min_interval(&self) -> (r: Span)
        ensures
            r == self.interval(),
    {
        self.min_interval
    }

    /// A limiter with no reservation yet.
    pub fn new(min_interval: Span) -> (r: Self)
        ensures
            r.interval() == min_interval,
            r.pending() is None,
    {
        RateLimiter { min_interval, next_slot: None }
    }

    /// Whether a reservation at `now` stays within the instants `chrono`
    /// represents (a reservation beyond them is refused by `chrono`).
    pub fn reserve_fits(&self, now: i128) -> (r: bool)
        ensures
            r == (EARLIEST_INSTANT_NANOS <= now <= LATEST_INSTANT_NANOS && slot_for(self.pending(), now)
                + spacing(self.interval()) <= LATEST_INSTANT_NANOS),
    {
        proof {
            use_type_invariant(self);
        }
        if now < EARLIEST_INSTANT_NANOS || now > LATEST_INSTANT_NANOS {
            return false;
        }
        let slot: i128 = match self.next_slot {
            Some(t) => if t > now {
                t
            } else {
                now
            },
            None => now,
        };
        let interval = self.min_interval.as_nanos();
        if interval > LONGEST_DELTA_NANOS {
            slot <= LATEST_INSTANT_NANOS
        } else {
            slot + (interval as i128) <= LATEST_INSTANT_NANOS
        }
    }

    /// Reserve the next slot relative to `now`; returns how long to sleep
    /// first. The slot after it is one interval later.
    pub fn reserve(&mut self, now: i128) -> (wait: Span)
        requires
            EARLIEST_INSTANT_NANOS <= now <= LATEST_INSTANT_NANOS,
            slot_for(old(self).pending(), now) + spacing(old(self).interval()) <= LATEST_INSTANT_NANOS,
        ensures
            final(self).interval() == old(self).interval(),
            wait@ == slot_for(old(self).pending(), now) - now,
            final(self).pending() == Some(
                (slot_for(old(self).pending(), now) + spacing(old(self).interval())) as i128,
            ),
    {
        proof {
            use_type_invariant(&*self);
        }
        let slot: i128 = match self.next_slot {
            Some(t) => if t > now {
                t
            } else {
                now
            },
            None => now,
        };
        let interval: u128 = if self.min_interval.as_nanos() <= LONGEST_DELTA_NANOS {
            self.min_interval.as_nanos()
        } else {
            0
        };
        self.next_slot = Some(slot + interval as i128);
        assert(slot - now <= SPAN_MAX_NANOS);
        Span::from_nanos((slot - now) as u128)
    }
}

/// Reservation `wait` at `now` took the limiter from `before` to `after`.
pub open spec fn reserved(before: RateLimiter, now: i128, after: RateLimiter, wait: nat) -> bool {
    &&& after.interval() == before.interval()
    &&& wait == slot_for(before.pending(), now) - now
    &&& after.pending() == Some((slot_for(before.pending(), now) + spacing(before.interval())) as i128)
}

/// Requests go out at least one interval apart: whenever the second of two
/// successive reservations is made, its start (its time plus its wait) is at
/// least the interval after the first one's start.
pub proof fn reservations_are_spaced(
    l0: RateLimiter,
    now1: i128,
    l1: RateLimiter,
    w1: nat,
    now2: i128,
    l2: RateLimiter,
    w2: nat,
)
    requires
        reserved(l0, now1, l1, w1),
        reserved(l1, now2, l2, w2),
        slot_for(l0.pending(), now1) + spacing(l0.interval()) <= LATEST_INSTANT_NANOS,
    ensures
        now2 + w2 >= now1 + w1 + spacing(l0.interval()),
{
}

/// The first reservation on a fresh limiter goes out at once.
pub proof fn first_reservation_is_immediate(l0: RateLimiter, now: i128, l1: RateLimiter, w: nat)
    requires
        l0.pending() is None,
        reserved(l0, now, l1, w),
    ensures
        w == 0,
{
}

/// Default brute-force policy for interactive login: this many failures per
/// key within the window trips the block.
pub const LOGIN_MAX_ATTEMPTS: u32 = 5;

/// The login throttle's default window, in seconds (15 minutes).
pub const LOGIN_WINDOW_SECS: u64 = 900;

/// One key's recent failed-login tally and the start of its current window.
#[derive(Debug, Clone, PartialEq, Eq)]
pub struct Attempt {
    pub key: String,
    pub count: u32,
    pub first: i128,
}

/// The (count, window start) of the first entry for `key`, if any.
pub open spec fn tally_of(entries: Seq<Attempt>, key: Seq<char>) -> Option<(u32, i128)>
    decreases entries.len(),
{
    if entries.len() == 0 {
        None
    } else if entries[0].key@ == key {
        Some((entries[0].count, entries[0].first))
    } else {
        tally_of(entries.drop_first(), key)
    }
}

/// Whether a window opened at `first` still covers `now`.
pub open spec fn within_window(first: i128, now: i128, window: nat) -> bool {
    first <= now && now - first < window
}

/// Whether a login for `key` is permitted: not while `max` failures stand in
/// a window that still covers `now`.
pub open spec fn login_allowed(entries: Seq<Attempt>, max: u32, window: nat, key: Seq<char>, now: i128) -> bool {
    !(tally_of(entries, key) matches Some((count, first)) && count >= max && within_window(
        first,
        now,
        window,
    ))
}

/// The tally a failure at `now` leaves for its key: one more failure in the
/// current window, or a fresh window with one failure when the old one has
/// elapsed (or there was none). The count stops at `u32::MAX`.
pub open spec fn after_failure(prior: Option<(u32, i128)>, now: i128, window: nat) -> (u32, i128) {
    match prior {
        Some((count, first)) => if within_window(first, now, window) {
            (if count < u32::MAX {
                (count + 1) as u32
            } else {
                count
            }, first)
        } else {
            (1, now)
        },
        None => (1, now),
    }
}

/// In-memory failed-login throttle keyed by identity (e.g. email). After
/// `max` failures inside `window` a key is blocked until the window elapses;
/// a successful login clears it. Keyed by email, so a flood against one
/// account only locks that account, never the whole service.
#[derive(Debug)]
pub struct LoginThrottle {
    max: u32,
    window: Span,
    entries: Vec<Attempt>,
}

proof fn lemma_tally_of_index(entries: Seq<Attempt>, key: Seq<char>)
    ensures
        match tally_of(entries, key) {
            Some(t) => exists|i: int|
                0 <= i < entries.len() && entries[i].key@ == key && t == (entries[i].count, entries[i].first)
                    && forall|j: int| 0 <= j < i ==> #[trigger] entries[j].key@ != key,
            None => forall|j: int| 0 <= j < entries.len() ==> #[trigger] entries[j].key@ != key,
        },
    decreases entries.len(),
{
    if entries.len() > 0 {
        lemma_tally_of_index(entries.drop_first(), key);
        if entries[0].key@ != key {
            match tally_of(entries.drop_first(), key) {
                Some(t) => {
                    let i = choose|i: int|
                        0 <= i < entries.drop_first().len() && entries.drop_first()[i].key@ == key && t == (
                            entries.drop_first()[i].count,
                            entries.drop_first()[i].first,
                        ) && forall|j: int| 0 <= j < i ==> #[trigger] entries.drop_first()[j].key@ != key;
                    assert(entries[i + 1] == entries.drop_first()[i]);
                    assert forall|j: int| 0 <= j < i + 1 implies #[trigger] entries[j].key@ != key by {
                        if j > 0 {
                            assert(entries[j] == entries.drop_first()[j - 1]);
                        }
                    }
                },
                None => {
                    assert forall|j: int| 0 <= j < entries.len() implies #[trigger] entries[j].key@ != key by {
                        if j > 0 {
                            assert(entries[j] == entries.drop_first()[j - 1]);
                        }
                    }
                },
            }
        }
    }
}

/// The first entry at or after position `i` decides the tally when none
/// before it has the key.
proof fn lemma_tally_of_first(entries: Seq<Attempt>, key: Seq<char>, i: int)
    requires
        0 <= i < entries.len(),
        entries[i].key@ == key,
        forall|j: int| 0 <= j < i ==> #[trigger] entries[j].key@ != key,
    ensures
        tally_of(entries, key) == Some((entries[i].count, entries[i].first)),
    decreases i,
{
    if i > 0 {
        assert forall|j: int| 0 <= j < i - 1 implies #[trigger] entries.drop_first()[j].key@ != key by {
            assert(entries.drop_first()[j] == entries[j + 1]);
        }
        lemma_tally_of_first(entries.drop_first(), key, i - 1);
    }
}

proof fn lemma_tally_of_none(entries: Seq<Attempt>, key: Seq<char>)
    requires
        forall|j: int| 0 <= j < entries.len() ==> #[trigger] entries[j].key@ != key,
    ensures
        tally_of(entries, key) is None,
    decreases entries.len(),
{
    if entries.len() > 0 {
        assert forall|j: int| 0 <= j < entries.drop_first().len() implies #[trigger] entries.drop_first()[j].key@
            != key by {
            assert(entries.drop_first()[j] == entries[j + 1]);
        }
        lemma_tally_of_none(entries.drop_first(), key);
    }
}

impl LoginThrottle {
    #[verifier::type_invariant]
    closed spec fn starts_in_range(self) -> bool {
        forall|i: int|
            0 <= i < self.entries@.len() ==> EARLIEST_INSTANT_NANOS <= #[trigger] self.entries@[i].first
                <= LATEST_INSTANT_NANOS
    }

    /// The recorded failures, one entry per key.
    pub closed spec fn log(self) -> Seq<Attempt> {
        self.entries@
    }

    /// How many failures within a window block a key.
    pub closed spec fn limit(self) -> u32 {
        self.max
    }

    /// How long a window lasts.
    pub closed spec fn span(self) -> Span {
        self.window
    }

    /// A throttle with no failures recorded.
    pub fn new(max: u32, window: Span) -> (r: Self)
        ensures
            r.limit() == max,
            r.span() == window,
            r.log() == Seq::<Attempt>::empty(),
    {
        LoginThrottle { max, window, entries: Vec::new() }
    }

    fn position(&self, key: &str) -> (r: Option<usize>)
        ensures
            match r {
                Some(i) => i < self.entries@.len() && self.entries@[i as int].key@ == key@ && forall|j: int|
                    0 <= j < i ==> #[trigger] self.entries@[j].key@ != key@,
                None => forall|j: int| 0 <= j < self.entries@.len() ==> #[trigger] self.entries@[j].key@ != key@,
            },
    {
        let mut i: usize = 0;
        while i < self.entries.len()
            invariant
                i <= self.entries@.len(),
                forall|j: int| 0 <= j < i ==> #[trigger] self.entries@[j].key@ != key@,
            decreases self.entries.len() - i,
        {
            if str_eq(self.entries[i].key.as_str(), key) {
                return Some(i);
            }
            i = i + 1;
        }
        None
    }

    /// Whether a login attempt for `key` is currently permitted.
    pub fn allowed(&self, key: &str, now: i128) -> (r: bool)
        requires
            EARLIEST_INSTANT_NANOS <= now <= LATEST_INSTANT_NANOS,
        ensures
            r == login_allowed(self.log(), self.limit(), self.span()@, key@, now),
    {
        proof {
            use_type_invariant(self);
        }
        match self.position(key) {
            Some(i) => {
                proof {
                    lemma_tally_of_first(self.entries@, key@, i as int);
                }
                let a = &self.entries[i];
                let within = a.first <= now && ((now - a.first) as u128) < self.window.as_nanos();
                !(a.count >= self.max && within)
            },
            None => {
                proof {
                    lemma_tally_of_none(self.entries@, key@);
                }
                true
            },
        }
    }

    /// Record a failed attempt for `key`, starting a fresh window if the prior
    /// one has elapsed.
    pub fn record_failure(&mut self, key: &str, now: i128)
        requires
            EARLIEST_INSTANT_NANOS <= now <= LATEST_INSTANT_NANOS,
        ensures
            final(self).limit() == old(self).limit(),
            final(self).span() == old(self).span(),
            tally_of(final(self).log(), key@) == Some(
                after_failure(tally_of(old(self).log(), key@), now, old(self).span()@),
            ),
            forall|k: Seq<char>| k != key@ ==> #[trigger] tally_of(final(self).log(), k) == tally_of(
                old(self).log(),
                k,
            ),
    {
        proof {
            use_type_invariant(&*self);
        }
        let ghost before = self.entries@;
        match self.position(key) {
            Some(i) => {
                proof {
                    lemma_tally_of_first(before, key@, i as int);
                }
                let a = &self.entries[i];
                let within = a.first <= now && ((now - a.first) as u128) < self.window.as_nanos();
                let updated = if within {
                    Attempt {
                        key: a.key.clone(),
                        count: if a.count < u32::MAX {
                            a.count + 1
                        } else {
                            a.count
                        },
                        first: a.first,
                    }
                } else {
                    Attempt { key: a.key.clone(), count: 1, first: now }
                };
                let mut entries: Vec<Attempt> = Vec::new();
                std::mem::swap(&mut entries, &mut self.entries);
                entries.set(i, updated);
                self.entries = entries;
                proof {
                    let after = self.entries@;
                    assert forall|j: int| 0 <= j < i implies #[trigger] after[j].key@ != key@ by {
                        assert(after[j] == before[j]);
                    }
                    lemma_tally_of_first(after, key@, i as int);
                    assert forall|k: Seq<char>| k != key@ implies #[trigger] tally_of(after, k) == tally_of(
                        before,
                        k,
                    ) by {
                        lemma_tally_unchanged_at(before, i as int, updated, k);
                    }
                }
            },
            None => {
                proof {
                    lemma_tally_of_none(before, key@);
                }
                let fresh = Attempt { key: String::from_str(key), count: 1, first: now };
                let mut entries: Vec<Attempt> = Vec::new();
                std::mem::swap(&mut entries, &mut self.entries);
                entries.push(fresh);
                self.entries = entries;
                proof {
                    let after = self.entries@;
                    assert forall|j: int| 0 <= j < before.len() implies #[trigger] after[j].key@ != key@ by {
                        assert(after[j] == before[j]);
                    }
                    lemma_tally_of_first(after, key@, before.len() as int);
                    assert forall|k: Seq<char>| k != key@ implies #[trigger] tally_of(after, k) == tally_of(
                        before,
                        k,
                    ) by {
                        lemma_tally_push(before, fresh, k);
                    }
                }
            },
        }
    }

    /// Clear a key's failure history (call on a successful login).
    pub fn clear(&mut self, key: &str)
        ensures
            final(self).limit() == old(self).limit(),
            final(self).span() == old(self).span(),
            tally_of(final(self).log(), key@) is None,
            forall|k: Seq<char>| k != key@ ==> #[trigger] tally_of(final(self).log(), k) == tally_of(
                old(self).log(),
                k,
            ),
    {
        proof {
            use_type_invariant(&*self);
        }
        let ghost before = self.entries@;
        let mut kept: Vec<Attempt> = Vec::new();
        let mut i: usize = 0;
        while i < self.entries.len()
            invariant
                i <= before.len(),
                self.entries@ == before,
                forall|j: int| 0 <= j < kept@.len() ==> #[trigger] kept@[j].key@ != key@,
                forall|j: int|
                    0 <= j < before.len() ==> EARLIEST_INSTANT_NANOS <= #[trigger] before[j].first
                        <= LATEST_INSTANT_NANOS,
                forall|j: int|
                    0 <= j < kept@.len() ==> EARLIEST_INSTANT_NANOS <= #[trigger] kept@[j].first
                        <= LATEST_INSTANT_NANOS,
                forall|k: Seq<char>| k != key@ ==> #[trigger] tally_of(kept@, k) == tally_of(
                    before.subrange(0, i as int),
                    k,
                ) || (tally_of(kept@, k) is None && tally_of(before.subrange(0, i as int), k) is None),
            decreases self.entries.len() - i,
        {
            let a = &self.entries[i];
            if !str_eq(a.key.as_str(), key) {
                let copy = Attempt { key: a.key.clone(), count: a.count, first: a.first };
                proof {
                    assert forall|k: Seq<char>| k != key@ implies #[trigger] tally_of(kept@.push(copy), k)
                        == tally_of(before.subrange(0, i + 1), k) by {
                        lemma_tally_push(kept@, copy, k);
                        assert(before.subrange(0, i + 1) =~= before.subrange(0, i as int).push(before[i as int]));
                        lemma_tally_push(before.subrange(0, i as int), before[i as int], k);
                    }
                }
                kept.push(copy);
            } else {
                proof {
                    assert forall|k: Seq<char>| k != key@ implies #[trigger] tally_of(kept@, k) == tally_of(
                        before.subrange(0, i + 1),
                        k,
                    ) by {
                        assert(before.subrange(0, i + 1) =~= before.subrange(0, i as int).push(before[i as int]));
                        lemma_tally_push(before.subrange(0, i as int), before[i as int], k);
                    }
                }
            }
            i = i + 1;
        }
        proof {
            assert(before.subrange(0, before.len() as int) =~= before);
            lemma_tally_of_none(kept@, key@);
        }
        self.entries = kept;
    }
}

/// Appending an entry changes no tally that an earlier entry decides, and
/// decides the tally of a key not seen before.
proof fn lemma_tally_push(entries: Seq<Attempt>, a: Attempt, k: Seq<char>)
    ensures
        tally_of(entries.push(a), k) == match tally_of(entries, k) {
            Some(t) => Some(t),
            None => if a.key@ == k {
                Some((a.count, a.first))
            } else {
                None
            },
        },
    decreases entries.len(),
{
    if entries.len() > 0 {
        assert(entries.push(a)[0] == entries[0]);
        assert(entries.push(a).drop_first() =~= entries.drop_first().push(a));
        lemma_tally_push(entries.drop_first(), a, k);
    } else {
        assert(entries.push(a)[0] == a);
        assert(entries.push(a).drop_first() =~= Seq::<Attempt>::empty());
        assert(tally_of(Seq::<Attempt>::empty(), k) is None);
    }
}

/// Replacing the entry at `i` by one with the same key changes no other key's
/// tally.
proof fn lemma_tally_unchanged_at(entries: Seq<Attempt>, i: int, a: Attempt, k: Seq<char>)
    requires
        0 <= i < entries.len(),
        a.key@ == entries[i].key@,
        k != a.key@,
    ensures
        tally_of(entries.update(i, a), k) == tally_of(entries, k),
    decreases entries.len(),
{
    if i > 0 {
        assert(entries.update(i, a).drop_first() =~= entries.drop_first().update(i - 1, a));
        lemma_tally_unchanged_at(entries.drop_first(), i - 1, a, k);
    } else {
        assert(entries.update(i, a).drop_first() =~= entries.drop_first());
    }
}

/// `max` failures recorded for a key, all inside one window that still
/// covers `now`, block it.
pub proof fn failures_within_window_block(
    entries: Seq<Attempt>,
    max: u32,
    window: nat,
    key: Seq<char>,
    now: i128,
)
    requires
        tally_of(entries, key) matches Some((count, first)) && count >= max && within_window(
            first,
            now,
            window,
        ),
    ensures
        !login_allowed(entries, max, window, key, now),
{
}

/// A key without recorded failures is always allowed; clearing a key
/// therefore lets it in again.
pub proof fn cleared_key_is_allowed(entries: Seq<Attempt>, max: u32, window: nat, key: Seq<char>, now: i128)
    requires
        tally_of(entries, key) is None,
    ensures
        login_allowed(entries, max, window, key, now),
{
}

/// Failures against one key never change whether another key may log in.
pub proof fn failures_stay_with_their_key(
    before: Seq<Attempt>,
    after: Seq<Attempt>,
    max: u32,
    window: nat,
    key: Seq<char>,
    other: Seq<char>,
    now: i128,
)
    requires
        other != key,
        forall|k: Seq<char>| k != key ==> #[trigger] tally_of(after, k) == tally_of(before, k),
    ensures
        login_allowed(after, max, window, other, now) == login_allowed(before, max, window, other, now),
{
    assert(tally_of(after, other) == tally_of(before, other));
}

/// Failures within one window count up: a failure inside the window of a
/// key's tally adds one to its count and keeps the window's start.
pub proof fn failures_count_up(count: u32, first: i128, now: i128, window: nat)
    requires
        count < u32::MAX,
        within_window(first, now, window),
    ensures
        after_failure(Some((count, first)), now, window) == ((count + 1) as u32, first),
{
}

/// A failure after the window has elapsed starts a fresh window with one
/// failure.
pub proof fn elapsed_window_restarts(prior: Option<(u32, i128)>, now: i128, window: nat)
    requires
        prior matches Some((count, first)) && !within_window(first, now, window),
    ensures
        after_failure(prior, now, window) == (1u32, now),
{
}

/// The wait a `Retry-After` header value asks for: whole seconds, when the
/// value is a decimal `u64`.
pub open spec fn retry_after_secs(header: Option<Seq<char>>) -> Option<u64> {
    match header {
        Some(h) => u64_text(h),
        None => None,
    }
}

/// The wait a `Retry-After` header value asks for, read as whole seconds.
pub fn retry_after(header: Option<&str>) -> (r: Option<Span>)
    ensures
        match retry_after_secs(
            match header {
                Some(h) => Some(h@),
                None => None,
            },
        ) {
            Some(s) => r matches Some(d) && d@ == s * NANOS_PER_SEC,
            None => r is None,
        },
{
    match header {
        Some(h) => match parse_u64(h) {
            Some(s) => Some(Span::from_secs(s)),
            None => None,
        },
        None => None,
    }
}

/// What a fetch attempt ended in: a success, an HTTP error status (with any
/// `Retry-After` wait), or a transport error.
#[derive(Debug, Clone, Copy, PartialEq, Eq)]
pub enum FetchResult {
    Success,
    Status { code: u16, retry_after: Option<Span> },
    Transport,
}

/// What the fetch loop does next.
#[derive(Debug, Clone, Copy, PartialEq, Eq)]
pub enum RetryStep {
    /// Hand the body back.
    Done,
    /// Sleep `wait`, then make attempt `attempt`.
    Retry { wait: Span, attempt: u32 },
    /// Fail with the last error.
    GiveUp,
}

impl RetryPolicy {
    /// The fetch loop's decision after attempt `attempt` ended in `result`:
    /// retry transient failures while the budget lasts, after the backoff
    /// (or the server's `Retry-After`, capped); give up otherwise.
    pub fn next_step(&self, attempt: u32, result: FetchResult) -> (r: RetryStep)
        ensures
            match result {
                FetchResult::Success => r == RetryStep::Done,
                FetchResult::Status { code, retry_after } => if attempt < self.max_retries && transient(
                    Some(code),
                ) {
                    r matches RetryStep::Retry { wait, attempt: next } && next == attempt + 1 && wait@
                        == backoff_delay(
                        *self,
                        attempt as nat,
                        match retry_after {
                            Some(ra) => Some(ra@),
                            None => None,
                        },
                    )
                } else {
                    r == RetryStep::GiveUp
                },
                FetchResult::Transport => if attempt < self.max_retries {
                    r matches RetryStep::Retry { wait, attempt: next } && next == attempt + 1 && wait@
                        == backoff_delay(*self, attempt as nat, None)
                } else {
                    r == RetryStep::GiveUp
                },
            },
    {
        match result {
            FetchResult::Success => RetryStep::Done,
            FetchResult::Status { code, retry_after } => {
                if self.should_retry(attempt, Some(code)) {
                    RetryStep::Retry { wait: self.delay_for(attempt, retry_after), attempt: attempt + 1 }
                } else {
                    RetryStep::GiveUp
                }
            },
            FetchResult::Transport => {
                if self.should_retry(attempt, None) {
                    RetryStep::Retry { wait: self.delay_for(attempt, None), attempt: attempt + 1 }
                } else {
                    RetryStep::GiveUp
                }
            },
        }
    }
}

} // verus!
