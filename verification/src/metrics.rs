//! Derived metrics of the book: whether it has gone stale.
//!
//! Instants are UTC timestamps held as whole seconds since the Unix epoch
//! and nanoseconds past that second, as chrono gives and takes them; chrono
//! does the parsing of RFC 3339 stamps and the arithmetic on instants.
use crate::types::Risk;
use vstd::prelude::*;

verus! {

// ---------------------------------------------------------------------------
// What chrono computes
// ---------------------------------------------------------------------------

/// Seconds since the Unix epoch of the first instant chrono represents,
/// January 1 of year -262143 (262144 BCE), 00:00:00 UTC.
pub open spec fn min_timestamp() -> int {
    -8_334_601_228_800
}

/// Seconds since the Unix epoch of the last second chrono represents,
/// December 31 of year 262142, 23:59:59 UTC.
pub open spec fn max_timestamp() -> int {
    8_210_266_876_799
}

/// Whether `DateTime::<Utc>::from_timestamp(secs, nanos)` gives an
/// instant: the day of `secs` lies within chrono's date range, and the
/// nanoseconds are below one second, or below two seconds in the last
/// second of a minute (a leap second).
pub open spec fn chrono_timestamp_valid(secs: i64, nanos: u32) -> bool {
    &&& min_timestamp() <= secs <= max_timestamp()
    &&& (nanos < 1_000_000_000 || (nanos < 2_000_000_000 && (secs % 86_400) % 60 == 59))
}

/// The UTC instant, as `(timestamp(), timestamp_subsec_nanos())`, that
/// `DateTime::parse_from_rfc3339` reads from a string, or `None` when the
/// string is not an RFC 3339 date-time.
pub uninterp spec fn rfc3339_utc(s: Seq<char>) -> Option<(i64, u32)>;

/// The correction chrono's `NaiveTime::signed_duration_since` makes for a
/// leap second: a second more when `then` lies in a leap second earlier in
/// its day than `now`'s second of the day, a second less when `now` lies in
/// a leap second earlier in its day than `then`'s.
pub open spec fn leap_adjustment(now: (i64, u32), then: (i64, u32)) -> int {
    let now_sod = now.0 % 86_400;
    let then_sod = then.0 % 86_400;
    if now_sod > then_sod && then.1 >= 1_000_000_000 {
        1
    } else if now_sod < then_sod && now.1 >= 1_000_000_000 {
        -1
    } else {
        0
    }
}

/// The length in nanoseconds of the `TimeDelta` that chrono gives for
/// `now - then` on UTC instants: the days between them, the difference of
/// their seconds of the day with the leap-second correction, and the
/// difference of their nanosecond parts.
pub open spec fn chrono_delta_nanos(now: (i64, u32), then: (i64, u32)) -> int {
    nanos_between(now, then) + leap_adjustment(now, then) * 1_000_000_000
}

/// The length in nanoseconds of a `TimeDelta` read as
/// `(num_seconds(), subsec_nanos())`.
pub open spec fn delta_nanos(d: (i64, i32)) -> int {
    d.0 * 1_000_000_000 + d.1
}

/// The bounds of `TimeDelta::seconds`, which panics outside them.
pub open spec fn time_delta_seconds_in_range(secs: i64) -> bool {
    -(i64::MAX / 1000) <= secs <= i64::MAX / 1000
}

/// Whether `TimeDelta::seconds(secs)` can be formed: a staleness limit
/// outside these bounds makes the staleness check panic.
pub fn time_delta_seconds_supported(secs: i64) -> (r: bool)
    ensures
        r == time_delta_seconds_in_range(secs),
{
    -(i64::MAX / 1000) <= secs && secs <= i64::MAX / 1000
}

/// Nanoseconds since the Unix epoch of an instant outside leap seconds.
pub open spec fn instant_nanos(t: (i64, u32)) -> int {
    t.0 * 1_000_000_000 + t.1
}

/// Nanoseconds from `then` to `now`, for instants outside leap seconds.
pub open spec fn nanos_between(now: (i64, u32), then: (i64, u32)) -> int {
    (now.0 - then.0) * 1_000_000_000 + now.1 - then.1
}

/// Calls `chrono::DateTime::<Utc>::from_timestamp(secs, nanos)` and tells
/// whether it gave an instant. The contract states chrono's rule
/// (`chrono_timestamp_valid`): `from_timestamp` splits `secs` into a day and
/// a second of the day, `NaiveDate::from_num_days_from_ce_opt` accepts days
/// from year -262143 to year 262142, and
/// `NaiveTime::from_num_seconds_from_midnight_opt` accepts nanoseconds below
/// 1e9, or below 2e9 when the second of the day ends a minute.
#[verifier::external_body]
fn chrono_from_timestamp_is_some(secs: i64, nanos: u32) -> (r: bool)
    ensures
        r == chrono_timestamp_valid(secs, nanos),
{
    chrono::DateTime::from_timestamp(secs, nanos).is_some()
}

/// Calls `chrono::DateTime::parse_from_rfc3339(s)`, takes the result to UTC
/// (`with_timezone(&Utc)`) and reads it back as `(timestamp(),
/// timestamp_subsec_nanos())`. The contract names the outcome
/// (`rfc3339_utc`, a function of the string alone) and claims one fact:
/// chrono documents that this pair round-trips through
/// `DateTime::from_timestamp`, so a parsed instant is a valid timestamp.
#[verifier::external_body]
fn chrono_parse_rfc3339(s: &str) -> (r: Option<(i64, u32)>)
    ensures
        r == rfc3339_utc(s@),
        r matches Some(t) ==> chrono_timestamp_valid(t.0, t.1),
{
    match chrono::DateTime::parse_from_rfc3339(s) {
        Ok(d) => {
            let u = d.with_timezone(&chrono::Utc);
            Some((u.timestamp(), u.timestamp_subsec_nanos()))
        },
        Err(_) => None,
    }
}

/// Builds both instants with `chrono::DateTime::from_timestamp` (valid by
/// `requires`, so the `unwrap`s hold), takes their difference
/// (`DateTime - DateTime`, a `TimeDelta`) and reads it back as
/// `(num_seconds(), subsec_nanos())`. The contract states the length of
/// that difference as chrono's source computes it (`chrono_delta_nanos`):
/// `NaiveDate::signed_duration_since` counts whole days,
/// `NaiveTime::signed_duration_since` the seconds of the day with its
/// leap-second correction and the nanosecond parts, and `num_seconds` with
/// `subsec_nanos` split that length without loss.
#[verifier::external_body]
fn chrono_time_delta_call(now_secs: i64, now_nanos: u32, then_secs: i64, then_nanos: u32) -> (r: (
    i64,
    i32,
))
    requires
        chrono_timestamp_valid(now_secs, now_nanos),
        chrono_timestamp_valid(then_secs, then_nanos),
    ensures
        delta_nanos(r) == chrono_delta_nanos((now_secs, now_nanos), (then_secs, then_nanos)),
{
    let now = chrono::DateTime::from_timestamp(now_secs, now_nanos).unwrap();
    let then = chrono::DateTime::from_timestamp(then_secs, then_nanos).unwrap();
    let d = now - then;
    (d.num_seconds(), d.subsec_nanos())
}

// ---------------------------------------------------------------------------
// UTC instants
// ---------------------------------------------------------------------------

/// A UTC instant: seconds since the Unix epoch and nanoseconds past that
/// second (above one second only within a leap second), always one that
/// chrono can represent.
#[derive(Debug, Clone, Copy)]
pub struct UtcInstant {
    secs: i64,
    nanos: u32,
}

impl View for UtcInstant {
    type V = (i64, u32);

    closed spec fn view(&self) -> (i64, u32) {
        (self.secs, self.nanos)
    }
}

impl UtcInstant {
    #[verifier::type_invariant]
    spec fn representable(self) -> bool {
        chrono_timestamp_valid(self.secs, self.nanos)
    }

    /// The instant at `secs` seconds and `nanos` nanoseconds past the Unix
    /// epoch, or `None` when chrono cannot represent it.
    pub fn from_timestamp(secs: i64, nanos: u32) -> (r: Option<UtcInstant>)
        ensures
            r is Some <==> chrono_timestamp_valid(secs, nanos),
            r matches Some(i) ==> i@ == (secs, nanos),
    {
        if chrono_from_timestamp_is_some(secs, nanos) {
            Some(UtcInstant { secs, nanos })
        } else {
            None
        }
    }

    /// The instant an RFC 3339 date-time designates, or `None` when `s` is
    /// not one.
    pub fn parse_rfc3339(s: &str) -> (r: Option<UtcInstant>)
        ensures
            r is Some <==> rfc3339_utc(s@) is Some,
            r matches Some(i) ==> rfc3339_utc(s@) == Some(i@),
    {
        match chrono_parse_rfc3339(s) {
            Some((secs, nanos)) => Some(UtcInstant { secs, nanos }),
            None => None,
        }
    }

    /// Seconds since the Unix epoch.
    pub fn timestamp(&self) -> (r: i64)
        ensures
            r == self@.0,
    {
        self.secs
    }

    /// Nanoseconds past the second.
    pub fn subsec_nanos(&self) -> (r: u32)
        ensures
            r == self@.1,
    {
        self.nanos
    }
}

// ---------------------------------------------------------------------------
// Staleness
// ---------------------------------------------------------------------------

/// More than `limit_secs` seconds have passed from `then` to `now`: the
/// difference chrono gives exceeds `TimeDelta::seconds(limit_secs)`.
pub open spec fn older_than(now: (i64, u32), then: (i64, u32), limit_secs: i64) -> bool {
    chrono_delta_nanos(now, then) > limit_secs * 1_000_000_000
}

/// A stamp makes the book stale when it was read as an instant older than
/// the limit; a stamp that could not be read does not.
pub open spec fn stamp_stale(stamp: Option<(i64, u32)>, now: (i64, u32), limit_secs: i64) -> bool {
    match stamp {
        Some(t) => older_than(now, t, limit_secs),
        None => false,
    }
}

/// The same verdict for instants outside leap seconds: more than
/// `limit_secs` seconds, counted in nanoseconds.
pub open spec fn stamp_stale_plain(
    stamp: Option<(i64, u32)>,
    now: (i64, u32),
    limit_secs: i64,
) -> bool {
    match stamp {
        Some(t) => nanos_between(now, t) > limit_secs * 1_000_000_000,
        None => false,
    }
}

/// The instant, if any, is not within a leap second.
pub open spec fn leap_free(stamp: Option<(i64, u32)>) -> bool {
    match stamp {
        Some(t) => t.1 < 1_000_000_000,
        None => true,
    }
}

/// The view of an optional instant.
pub open spec fn instant_view(i: Option<UtcInstant>) -> Option<(i64, u32)> {
    match i {
        Some(x) => Some(x@),
        None => None,
    }
}

/// The stamps of the book that staleness is judged by.
#[derive(Debug, Clone)]
pub struct BookClock {
    /// As-of timestamp of the book (UTC, RFC 3339).
    pub as_of: String,
    /// Last pricer sheet update (UTC, RFC 3339), if any.
    pub last_pricer_sheet: Option<String>,
    /// The book's risk limits.
    pub risk: Risk,
}

/// Whether more than `limit_secs` seconds separate `then` from `now`.
fn elapsed_exceeds(now: &UtcInstant, then: &UtcInstant, limit_secs: i64) -> (r: bool)
    requires
        time_delta_seconds_in_range(limit_secs),
    ensures
        r == older_than(now@, then@, limit_secs),
        now@.1 < 1_000_000_000 && then@.1 < 1_000_000_000 ==> (r <==> nanos_between(now@, then@)
            > limit_secs * 1_000_000_000),
{
    proof {
        use_type_invariant(now);
        use_type_invariant(then);
    }
    let (secs, nanos) = chrono_time_delta_call(now.secs, now.nanos, then.secs, then.nanos);
    (secs as i128) * 1_000_000_000 + (nanos as i128) > (limit_secs as i128) * 1_000_000_000
}

/// Whether the book is stale at `now`, given its stamps as read: stale when
/// the as-of instant, or the last pricer sheet instant, is older than
/// `stale_after_seconds`. An absent stamp does not make it stale.
pub fn is_stale_at(
    as_of: Option<UtcInstant>,
    last_pricer_sheet: Option<UtcInstant>,
    stale_after_seconds: i64,
    now: &UtcInstant,
) -> (r: bool)
    requires
        time_delta_seconds_in_range(stale_after_seconds),
    ensures
        r == (stamp_stale(instant_view(as_of), now@, stale_after_seconds) || stamp_stale(
            instant_view(last_pricer_sheet),
            now@,
            stale_after_seconds,
        )),
        now@.1 < 1_000_000_000 && leap_free(instant_view(as_of)) && leap_free(
            instant_view(last_pricer_sheet),
        ) ==> (r == (stamp_stale_plain(instant_view(as_of), now@, stale_after_seconds)
            || stamp_stale_plain(instant_view(last_pricer_sheet), now@, stale_after_seconds))),
{
    if let Some(t) = as_of {
        if elapsed_exceeds(now, &t, stale_after_seconds) {
            return true;
        }
    }
    if let Some(t) = last_pricer_sheet {
        if elapsed_exceeds(now, &t, stale_after_seconds) {
            return true;
        }
    }
    false
}

/// The instant of the book's last pricer sheet stamp, when there is one and
/// it reads as an RFC 3339 date-time.
pub open spec fn sheet_instant(book: &BookClock) -> Option<(i64, u32)> {
    match book.last_pricer_sheet {
        Some(s) => rfc3339_utc(s@),
        None => None,
    }
}

/// Outside leap seconds, "older than the limit" is the plain comparison:
/// more than `limit_secs * 10^9` nanoseconds from `then` to `now`; and a
/// stamp that could not be read never makes the book stale.
pub proof fn lemma_older_than_plain(now: (i64, u32), then: (i64, u32), limit_secs: i64)
    ensures
        now.1 < 1_000_000_000 && then.1 < 1_000_000_000 ==> (older_than(now, then, limit_secs)
            <==> (now.0 - then.0) * 1_000_000_000 + now.1 - then.1 > limit_secs
            * 1_000_000_000),
        !stamp_stale(None, now, limit_secs),
        stamp_stale(Some(then), now, limit_secs) == older_than(now, then, limit_secs),
{
}

/// A book whose stamps lie outside leap seconds, once stale, stays stale as
/// time passes: if its as-of or pricer sheet instant is older than the
/// limit at `now1`, one of them is older than the limit at every later
/// `now2` (for the instants `is_stale` and `is_stale_at` judge by, their
/// verdict is this plain one).
pub proof fn lemma_stale_persists(
    as_of: Option<(i64, u32)>,
    sheet: Option<(i64, u32)>,
    now1: (i64, u32),
    now2: (i64, u32),
    limit_secs: i64,
)
    requires
        leap_free(as_of),
        leap_free(sheet),
        now1.1 < 1_000_000_000,
        now2.1 < 1_000_000_000,
        instant_nanos(now1) <= instant_nanos(now2),
        stamp_stale_plain(as_of, now1, limit_secs) || stamp_stale_plain(sheet, now1, limit_secs),
    ensures
        stamp_stale_plain(as_of, now2, limit_secs) || stamp_stale_plain(sheet, now2, limit_secs),
{
}

/// Whether the book is stale at `now`.
///
/// The book is stale when `now - as_of > stale_after_seconds`, or when a
/// last pricer sheet stamp exists and is older than `stale_after_seconds`.
/// A stamp that is not an RFC 3339 date-time is passed over.
pub fn is_stale(book: &BookClock, now: &UtcInstant) -> (r: bool)
    requires
        time_delta_seconds_in_range(book.risk.stale_after_seconds),
    ensures
        r == (stamp_stale(rfc3339_utc(book.as_of@), now@, book.risk.stale_after_seconds)
            || stamp_stale(sheet_instant(book), now@, book.risk.stale_after_seconds)),
        now@.1 < 1_000_000_000 && leap_free(rfc3339_utc(book.as_of@)) && leap_free(
            sheet_instant(book),
        ) ==> (r == (stamp_stale_plain(
            rfc3339_utc(book.as_of@),
            now@,
            book.risk.stale_after_seconds,
        ) || stamp_stale_plain(sheet_instant(book), now@, book.risk.stale_after_seconds))),
{
    let as_of = UtcInstant::parse_rfc3339(book.as_of.as_str());
    let sheet = match &book.last_pricer_sheet {
        Some(s) => UtcInstant::parse_rfc3339(s.as_str()),
        None => None,
    };
    is_stale_at(as_of, sheet, book.risk.stale_after_seconds, now)
}

} // verus!
