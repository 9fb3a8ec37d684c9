//! Tiered collection cadences: each tier's cron expression, its run label, and
//! its next fire time.

use vstd::prelude::*;

verus! {

/// Collection cadence tiers.
#[derive(Debug, Clone, Copy, PartialEq, Eq, Structural)]
pub enum Tier {
    /// Daily after US market close.
    Price,
    /// Several times per day.
    News,
    /// Weekly (plus event-driven on new filings, handled elsewhere).
    Fundamentals,
}

/// The 6-field cron expression (sec min hour dom mon dow, UTC) of a tier.
pub open spec fn tier_cron(t: Tier) -> Seq<char> {
    match t {
        Tier::Price => "0 0 21 * * *"@,
        Tier::News => "0 0 0,6,12,18 * * *"@,
        Tier::Fundamentals => "0 0 6 * * Mon"@,
    }
}

/// The run label of a tier.
pub open spec fn tier_label(t: Tier) -> Seq<char> {
    match t {
        Tier::Price => "price"@,
        Tier::News => "news"@,
        Tier::Fundamentals => "fundamentals"@,
    }
}

/// The first time (epoch seconds, UTC) strictly after `after` at which the
/// cron expression fires, as the `cron` crate's `Schedule::after` yields it;
/// `None` when the expression does not parse or never fires again.
pub uninterp spec fn cron_next(expr: Seq<char>, after: i64) -> Option<i64>;

/// The last whole second (epoch seconds) `chrono` represents; a schedule
/// cannot be searched from it, as the search starts one second later.
pub const LAST_SECOND: i64 = 8_210_266_876_799;

/// Calls `cron::Schedule::from_str` on `expr`, then `Schedule::after` at the
/// UTC instant `after` (epoch seconds), taking the first fire time. An
/// unparseable expression, or an instant `chrono` cannot represent, gives
/// `None`. The search starts one second after `after` (the crate's
/// `NextAfterQuery::from` adds that second), so a fire time is always later.
#[verifier::external_body]
fn cron_next_after(expr: &str, after: i64) -> (r: Option<i64>)
    requires
        after < LAST_SECOND,
    ensures
        r == cron_next(expr@, after),
        r matches Some(t) ==> t > after,
{
    let schedule = <cron::Schedule as std::str::FromStr>::from_str(expr).ok()?;
    let start = chrono::DateTime::from_timestamp(after, 0)?;
    schedule.after(&start).next().map(|t| t.timestamp())
}

impl Tier {
    /// All tiers, for registering jobs.
    pub fn all() -> (r: [Tier; 3])
        ensures
            r@ == seq![Tier::Price, Tier::News, Tier::Fundamentals],
    {
        [Tier::Price, Tier::News, Tier::Fundamentals]
    }

    /// 6-field cron expression (sec min hour dom mon dow), UTC.
    pub fn cron(self) -> (r: &'static str)
        ensures
            r@ == tier_cron(self),
    {
        match self {
            Tier::Price => "0 0 21 * * *",
            Tier::News => "0 0 0,6,12,18 * * *",
            Tier::Fundamentals => "0 0 6 * * Mon",
        }
    }

    /// Stable label used as the `source`/scope tag in collection runs.
    pub fn label(self) -> (r: &'static str)
        ensures
            r@ == tier_label(self),
    {
        match self {
            Tier::Price => "price",
            Tier::News => "news",
            Tier::Fundamentals => "fundamentals",
        }
    }

    /// Next scheduled fire (epoch seconds) strictly after `now` (epoch
    /// seconds). Fire times fall on whole seconds, so the instant's fraction
    /// of a second never changes the answer.
    pub fn next_after(self, now: i64) -> (r: Option<i64>)
        requires
            now < LAST_SECOND,
        ensures
            r == cron_next(tier_cron(self), now),
            r matches Some(t) ==> t > now,
    {
        cron_next_after(self.cron(), now)
    }
}

/// A tier's next fire time, tagged with the tier.
pub open spec fn tagged(t: Tier, at: Option<i64>) -> Option<(Tier, i64)> {
    match at {
        Some(x) => Some((t, x)),
        None => None,
    }
}

/// The earlier of two tagged fire times; `a` on a tie or when `b` has none.
pub open spec fn earlier(a: Option<(Tier, i64)>, b: Option<(Tier, i64)>) -> Option<(Tier, i64)> {
    match (a, b) {
        (Some(x), Some(y)) => if y.1 < x.1 {
            b
        } else {
            a
        },
        (Some(_), None) => a,
        (None, _) => b,
    }
}

/// The first tier to fire strictly after `now`, with its time: the earliest
/// of the tiers' next fire times, the first in `Tier::all()` order on a tie.
pub open spec fn first_fire(now: i64) -> Option<(Tier, i64)> {
    earlier(
        earlier(
            tagged(Tier::Price, cron_next(tier_cron(Tier::Price), now)),
            tagged(Tier::News, cron_next(tier_cron(Tier::News), now)),
        ),
        tagged(Tier::Fundamentals, cron_next(tier_cron(Tier::Fundamentals), now)),
    )
}

fn pick_earlier(a: Option<(Tier, i64)>, b: Option<(Tier, i64)>) -> (r: Option<(Tier, i64)>)
    ensures
        r == earlier(a, b),
{
    match (a, b) {
        (Some(x), Some(y)) => if y.1 < x.1 {
            b
        } else {
            a
        },
        (Some(_), None) => a,
        (None, _) => b,
    }
}

fn tag(t: Tier, at: Option<i64>) -> (r: Option<(Tier, i64)>)
    ensures
        r == tagged(t, at),
{
    match at {
        Some(x) => Some((t, x)),
        None => None,
    }
}

/// The tier the scheduler runs next and when (epoch seconds): the one whose
/// next fire time after `now` comes first, the first in `Tier::all()` order
/// on a tie; `None` when no tier fires again.
pub fn next_tier(now: i64) -> (r: Option<(Tier, i64)>)
    requires
        now < LAST_SECOND,
    ensures
        r == first_fire(now),
        r matches Some((t, at)) ==> at > now && cron_next(tier_cron(t), now) == Some(at),
        forall|u: Tier|
            (#[trigger] cron_next(tier_cron(u), now)) is Some ==> r is Some && r.unwrap().1 <= cron_next(
                tier_cron(u),
                now,
            ).unwrap(),
{
    let p = tag(Tier::Price, Tier::Price.next_after(now));
    let n = tag(Tier::News, Tier::News.next_after(now));
    let f = tag(Tier::Fundamentals, Tier::Fundamentals.next_after(now));
    let r = pick_earlier(pick_earlier(p, n), f);
    proof {
        assert forall|u: Tier| (#[trigger] cron_next(tier_cron(u), now)) is Some implies r is Some
            && r.unwrap().1 <= cron_next(tier_cron(u), now).unwrap() by {
            match u {
                Tier::Price => {},
                Tier::News => {},
                Tier::Fundamentals => {},
            }
        }
    }
    r
}

/// How a tracked run is recorded once its task ends: status `"ok"` and no
/// error when the task succeeded; status `"error"` and the task's error
/// message when it failed.
pub fn run_record(error: Option<String>) -> (r: (&'static str, Option<String>))
    ensures
        match error {
            None => r.0@ == "ok"@ && r.1 is None,
            Some(m) => r.0@ == "error"@ && r.1 == Some(m),
        },
{
    match error {
        None => ("ok", None),
        Some(m) => ("error", Some(m)),
    }
}

/// Distinct tiers run under distinct labels, so runs of different tiers are
/// never confused.
pub proof fn tier_labels_distinct(a: Tier, b: Tier)
    requires
        a != b,
    ensures
        tier_label(a) != tier_label(b),
{
    reveal_strlit("price");
    reveal_strlit("news");
    reveal_strlit("fundamentals");
    match (a, b) {
        (Tier::Price, Tier::News) | (Tier::News, Tier::Price) => {
            assert(tier_label(a).len() != tier_label(b).len());
        },
        (Tier::Price, Tier::Fundamentals) | (Tier::Fundamentals, Tier::Price) => {
            assert(tier_label(a).len() != tier_label(b).len());
        },
        _ => {
            assert(tier_label(a).len() != tier_label(b).len());
        },
    }
}

} // verus!
