//! Instants as the store keeps them (UTC RFC3339 text), the clock, and the
//! local time zone. An instant is held as chrono's `DateTime<Utc>` holds it:
//! whole seconds since the Unix epoch and the nanoseconds past that second.

use vstd::prelude::*;

use chrono::{Datelike, TimeZone, Timelike};

use crate::dates::{checked_add_days, day_number, max_day_number, min_day_number, CalDate};
use crate::store::{hm_label, hm_seq, ymd_label, ymd_seq, ClockTime};

verus! {

/// A moment in time: seconds since 1970-01-01T00:00:00Z and the nanoseconds
/// past that second (at or over 10^9 only inside a leap second).
#[derive(Debug, Clone, Copy, PartialEq, Eq, Structural)]
pub struct Instant {
    pub secs: i64,
    pub nanos: u32,
}

/// 1970-01-01 as a day number (`Datelike::num_days_from_ce`).
pub open spec fn unix_epoch_day() -> int {
    719163
}

/// The day number of the UTC date an instant falls on.
pub open spec fn utc_day(t: Instant) -> int {
    unix_epoch_day() + (t.secs as int) / 86400
}

/// An instant chrono's `DateTime<Utc>` can hold: its date within
/// `NaiveDate`'s range, and a leap second only at the end of a minute.
pub open spec fn representable(t: Instant) -> bool {
    &&& min_day_number() <= utc_day(t) <= max_day_number()
    &&& t.nanos < 2_000_000_000
    &&& t.nanos >= 1_000_000_000 ==> (t.secs as int) % 60 == 59
}

/// Far enough inside that range for its date in any time zone to be in range
/// too (a zone's offset is under a day).
pub open spec fn locally_representable(t: Instant) -> bool {
    &&& representable(t)
    &&& min_day_number() < utc_day(t) < max_day_number()
}

pub open spec fn epoch() -> Instant {
    Instant { secs: 0, nanos: 0 }
}

/// First second of the first day chrono can hold, and the first second past
/// its last day.
pub const FIRST_SECOND: i64 = -8334601228800;

pub const PAST_LAST_SECOND: i64 = 8210266876800;

proof fn lemma_day_bounds(t: Instant)
    ensures
        min_day_number() <= utc_day(t) <==> FIRST_SECOND <= t.secs,
        utc_day(t) <= max_day_number() <==> t.secs < PAST_LAST_SECOND,
        min_day_number() < utc_day(t) <==> FIRST_SECOND + 86400 <= t.secs,
        utc_day(t) < max_day_number() <==> t.secs < PAST_LAST_SECOND - 86400,
{
    assert(min_day_number() == -95746129);
    assert(max_day_number() == 95745399);
    let s = t.secs as int;
    assert(s == 86400 * (s / 86400) + s % 86400 && 0 <= s % 86400 < 86400) by {
        vstd::arithmetic::div_mod::lemma_fundamental_div_mod(s, 86400);
    }
}

/// Whether chrono's `DateTime<Utc>` can hold the instant.
pub fn is_representable(t: Instant) -> (b: bool)
    ensures
        b == representable(t),
{
    proof {
        lemma_day_bounds(t);
    }
    if t.secs < FIRST_SECOND || t.secs >= PAST_LAST_SECOND || t.nanos >= 2_000_000_000 {
        return false;
    }
    if t.nanos < 1_000_000_000 {
        return true;
    }
    let from_first: u64 = (t.secs - FIRST_SECOND) as u64;
    proof {
        let s = t.secs as int;
        assert(FIRST_SECOND as int == 60 * (-138910020480));
        assert((s - FIRST_SECOND) % 60 == s % 60) by {
            vstd::arithmetic::div_mod::lemma_mod_multiples_vanish(138910020480, s, 60);
        }
    }
    from_first % 60 == 59
}

/// Whether the instant's date in any time zone is one chrono can hold.
pub fn is_locally_representable(t: Instant) -> (b: bool)
    ensures
        b == locally_representable(t),
{
    proof {
        lemma_day_bounds(t);
    }
    is_representable(t) && t.secs >= FIRST_SECOND + 86400 && t.secs < PAST_LAST_SECOND - 86400
}

// --- RFC3339 text -----------------------------------------------------------

/// What `DateTime::parse_from_rfc3339` reads from a text: the instant's UTC
/// timestamp and sub-second nanoseconds, or nothing when the text is not RFC3339.
pub uninterp spec fn rfc3339_parts(text: Seq<char>) -> Option<(i64, u32)>;

/// `DateTime::parse_from_rfc3339(text)`, read as `timestamp()` and
/// `timestamp_subsec_nanos()`. The text's year has four digits and its offset
/// is under a day, so the instant lies far inside chrono's range.
#[verifier::external_body]
fn parse_rfc3339(text: &str) -> (r: Option<Instant>)
    ensures
        r == (match rfc3339_parts(text@) {
            Some(p) => Some(Instant { secs: p.0, nanos: p.1 }),
            None => None::<Instant>,
        }),
        r matches Some(t) ==> locally_representable(t),
{
    chrono::DateTime::parse_from_rfc3339(text).ok().map(
        |d| Instant { secs: d.timestamp(), nanos: d.timestamp_subsec_nanos() },
    )
}

/// The instant a stored timestamp names; unreadable text reads as the Unix epoch.
pub open spec fn ts_instant(text: Seq<char>) -> Instant {
    match rfc3339_parts(text) {
        Some(p) => Instant { secs: p.0, nanos: p.1 },
        None => epoch(),
    }
}

proof fn lemma_epoch_representable()
    ensures
        locally_representable(epoch()),
{
    assert(min_day_number() == -95746129);
    assert(max_day_number() == 95745399);
}

/// A stored UTC RFC3339 timestamp; unreadable text reads as the Unix epoch.
pub fn parse_ts(text: &str) -> (t: Instant)
    ensures
        t == ts_instant(text@),
        locally_representable(t),
{
    proof {
        lemma_epoch_representable();
    }
    match parse_rfc3339(text) {
        Some(t) => t,
        None => Instant { secs: 0, nanos: 0 },
    }
}

/// What `to_rfc3339_opts(SecondsFormat::Secs, true)` writes for an instant.
pub uninterp spec fn rfc3339_text(secs: i64, nanos: u32) -> Seq<char>;

/// The instant's UTC date lies in the years 0000 to 9999, which RFC3339
/// writes with four digits.
pub open spec fn four_digit_year(t: Instant) -> bool {
    day_number(0, 1, 1) <= utc_day(t) <= day_number(9999, 12, 31)
}

/// `DateTime::<Utc>::from_timestamp(secs, nanos)` written with
/// `to_rfc3339_opts(SecondsFormat::Secs, true)`: `YYYY-MM-DDTHH:MM:SSZ`, the
/// sub-second part dropped. Such a text for a four-digit year, outside a leap
/// second, reads back as the same whole second.
#[verifier::external_body]
pub fn to_rfc3339(t: Instant) -> (s: String)
    requires
        representable(t),
    ensures
        s@ == rfc3339_text(t.secs, t.nanos),
        four_digit_year(t) && t.nanos < 1_000_000_000 ==> rfc3339_parts(s@) == Some((t.secs, 0u32)),
{
    chrono::DateTime::from_timestamp(t.secs, t.nanos).unwrap().to_rfc3339_opts(
        chrono::SecondsFormat::Secs,
        true,
    )
}

// --- durations --------------------------------------------------------------

/// A number of nanoseconds in whole seconds, truncated toward zero (as
/// `TimeDelta::num_seconds` counts).
pub open spec fn whole_seconds(nanos: int) -> int {
    if nanos >= 0 {
        nanos / 1_000_000_000
    } else {
        -((-nanos) / 1_000_000_000)
    }
}

/// What `(to - from).num_seconds()` gives for two `DateTime<Utc>`s.
pub uninterp spec fn seconds_between_parts(from_secs: i64, from_nanos: u32, to_secs: i64, to_nanos: u32) -> i64;

/// `(to - from).num_seconds()` on the two `DateTime<Utc>`s. Away from leap
/// seconds it is the difference, truncated toward zero.
#[verifier::external_body]
fn seconds_between(from: Instant, to: Instant) -> (r: i64)
    requires
        representable(from),
        representable(to),
    ensures
        r == seconds_between_parts(from.secs, from.nanos, to.secs, to.nanos),
        from.nanos < 1_000_000_000 && to.nanos < 1_000_000_000 ==> r == whole_seconds(
            (to.secs - from.secs) * 1_000_000_000 + to.nanos - from.nanos,
        ),
{
    let a = chrono::DateTime::from_timestamp(from.secs, from.nanos).unwrap();
    let b = chrono::DateTime::from_timestamp(to.secs, to.nanos).unwrap();
    (b - a).num_seconds()
}

/// Seconds from `from` to `to`, never negative.
pub open spec fn elapsed(from: Instant, to: Instant) -> int {
    let d = seconds_between_parts(from.secs, from.nanos, to.secs, to.nanos);
    if d < 0 {
        0
    } else {
        d as int
    }
}

/// Seconds from `from` to `to`, clamped at zero.
pub fn elapsed_secs(from: Instant, to: Instant) -> (r: i64)
    requires
        representable(from),
        representable(to),
    ensures
        r == elapsed(from, to),
{
    let d = seconds_between(from, to);
    if d < 0 {
        0
    } else {
        d
    }
}

// --- the clock --------------------------------------------------------------

/// `Utc::now()`, read as `timestamp()` and `timestamp_subsec_nanos()`.
#[verifier::external_body]
fn clock_now() -> (t: Instant)
    ensures
        representable(t),
{
    let d = chrono::Utc::now();
    Instant { secs: d.timestamp(), nanos: d.timestamp_subsec_nanos() }
}

/// The current instant.
pub fn now() -> (t: Instant)
    ensures
        representable(t),
{
    clock_now()
}

/// Text as the store writes an instant.
pub open spec fn is_stored_instant(s: Seq<char>) -> bool {
    exists|t: Instant| representable(t) && s == rfc3339_text(t.secs, t.nanos)
}

/// The current instant as stored text.
pub fn now_rfc3339() -> (s: String)
    ensures
        is_stored_instant(s@),
{
    let t = clock_now();
    to_rfc3339(t)
}

// --- the local time zone ----------------------------------------------------

/// The seconds since the epoch that wall-clock time `hour:minute` on the day
/// numbered `day` would be, read as UTC.
pub open spec fn wall_seconds(day: int, hour: int, minute: int) -> int {
    (day - unix_epoch_day()) * 86400 + hour * 3600 + minute * 60
}

/// Date `d` and time `c` are what a zone `off` seconds ahead of UTC shows at
/// instant `t`: the instant's second, shifted by the offset, falls within
/// that wall-clock minute. A zone's offset is under a day either way.
pub open spec fn shows_at(t: Instant, d: CalDate, c: ClockTime, off: int) -> bool {
    &&& -86400 < off < 86400
    &&& wall_seconds(d.num(), c.hour as int, c.minute as int) <= t.secs + off
    &&& t.secs + off < wall_seconds(d.num(), c.hour as int, c.minute as int) + 60
}

/// Date `d` and time `c` are the local reading of `t` in some time zone.
pub open spec fn local_reading(t: Instant, d: CalDate, c: ClockTime) -> bool {
    &&& d.wf()
    &&& c.hour < 24
    &&& c.minute < 60
    &&& exists|off: int| #[trigger] shows_at(t, d, c, off)
}

/// `with_timezone(&Local)` of the instant: its local date and wall-clock
/// hour and minute, as the machine's zone shows them — the instant shifted by
/// the zone's offset (under a day), read to the minute.
#[verifier::external_body]
fn local_parts(t: Instant) -> (r: (CalDate, ClockTime))
    requires
        locally_representable(t),
    ensures
        r.0.wf(),
        utc_day(t) - 1 <= r.0.num() <= utc_day(t) + 1,
        r.1.hour < 24,
        r.1.minute < 60,
        local_reading(t, r.0, r.1),
{
    let l = chrono::DateTime::from_timestamp(t.secs, t.nanos).unwrap().with_timezone(&chrono::Local);
    let d = l.date_naive();
    (CalDate { year: d.year(), month: d.month(), day: d.day() }, ClockTime { hour: l.hour(), minute: l.minute() })
}

/// What holds of an instant's local date, whatever the zone.
pub open spec fn local_date_ok(t: Instant, d: CalDate) -> bool {
    d.wf() && utc_day(t) - 1 <= d.num() <= utc_day(t) + 1
}

/// The local calendar date of an instant.
pub fn local_date(t: Instant) -> (d: CalDate)
    requires
        locally_representable(t),
    ensures
        local_date_ok(t, d),
        exists|c: ClockTime| #[trigger] local_reading(t, d, c),
{
    local_parts(t).0
}

/// The local wall-clock time of an instant.
pub fn local_clock(t: Instant) -> (c: ClockTime)
    requires
        locally_representable(t),
    ensures
        c.hour < 24,
        c.minute < 60,
        exists|d: CalDate| #[trigger] local_reading(t, d, c),
{
    local_parts(t).1
}

/// Local `YYYY-MM-DD` of an instant.
pub fn local_ymd(t: Instant) -> (s: String)
    requires
        locally_representable(t),
    ensures
        exists|d: CalDate| local_date_ok(t, d) && s@ == ymd_seq(d),
{
    let d = local_date(t);
    ymd_label(d)
}

/// Local `HH:MM` of an instant.
pub fn local_hm(t: Instant) -> (s: String)
    requires
        locally_representable(t),
    ensures
        exists|h: int, m: int| 0 <= h < 24 && 0 <= m < 60 && s@ == hm_seq(h, m),
{
    let c = local_clock(t);
    hm_label(c.hour, c.minute)
}

/// Minutes since midnight of a wall-clock time.
pub open spec fn clock_minutes(c: ClockTime) -> int {
    c.hour * 60 + c.minute
}

pub fn minutes_of_day(c: ClockTime) -> (r: i64)
    ensures
        r == clock_minutes(c),
{
    c.hour as i64 * 60 + c.minute as i64
}

/// Local minutes since midnight of an instant (for calendar block placement):
/// those of its local wall-clock time, which the machine's zone decides.
pub fn local_minutes(t: Instant) -> (r: i64)
    requires
        locally_representable(t),
    ensures
        exists|c: ClockTime| c.hour < 24 && c.minute < 60 && r == #[trigger] clock_minutes(c),
        0 <= r < 24 * 60,
{
    let c = local_clock(t);
    minutes_of_day(c)
}

/// `Local.from_local_datetime(date.and_hms_opt(hour, minute, 0)).single()`,
/// converted to UTC: the instant a local wall-clock time names, when there is
/// exactly one (none in a skipped hour, or for an hour or minute out of range).
#[verifier::external_body]
pub fn local_hm_to_utc(date: CalDate, hour: u32, minute: u32) -> (r: Option<Instant>)
    requires
        date.wf(),
    ensures
        hour >= 24 || minute >= 60 ==> r is None,
        r matches Some(t) ==> representable(t) && t.nanos == 0 && date.num() - 1 <= utc_day(t)
            <= date.num() + 1,
        wall_outcome(date.num(), hour as int, minute as int, r),
{
    let naive = chrono::NaiveDate::from_ymd_opt(date.year, date.month, date.day).unwrap();
    let local = naive.and_hms_opt(hour, minute, 0).and_then(|n| chrono::Local.from_local_datetime(&n).single());
    local.map(|l| Instant { secs: l.timestamp(), nanos: l.timestamp_subsec_nanos() })
}

/// The instants bounding a local day, from the local midnights at its start
/// and at the start of the next day: a missing start falls back to the Unix
/// epoch, a missing end to the start.
pub open spec fn bounds_from(start: Option<Instant>, next_start: Option<Instant>) -> (Instant, Instant) {
    let s = match start {
        Some(t) => t,
        None => epoch(),
    };
    let e = match next_start {
        Some(t) => t,
        None => s,
    };
    (s, e)
}

/// The stored-text bounds of a day from its two local midnights.
pub fn day_bounds_text(start: Option<Instant>, next_start: Option<Instant>) -> (r: (String, String))
    requires
        start matches Some(t) ==> representable(t),
        next_start matches Some(t) ==> representable(t),
    ensures
        r.0@ == rfc3339_text(bounds_from(start, next_start).0.secs, bounds_from(start, next_start).0.nanos),
        r.1@ == rfc3339_text(bounds_from(start, next_start).1.secs, bounds_from(start, next_start).1.nanos),
{
    proof {
        lemma_epoch_representable();
    }
    let s = match start {
        Some(t) => t,
        None => Instant { secs: 0, nanos: 0 },
    };
    let e = match next_start {
        Some(t) => t,
        None => s,
    };
    (to_rfc3339(s), to_rfc3339(e))
}

/// What the local zone can make of wall-clock time `hour:minute` on the day
/// numbered `day`, whatever the zone: no instant, or one on a whole second
/// that lies less than a day (the zone's offset) from that wall time read as UTC.
pub open spec fn wall_outcome(day: int, hour: int, minute: int, o: Option<Instant>) -> bool {
    o matches Some(t) ==> representable(t) && t.nanos == 0 && -86400 < t.secs - wall_seconds(day, hour, minute) < 86400
}

/// The day after `d`, as a day number; `d` itself on the calendar's last day.
pub open spec fn next_day_num(d: CalDate) -> int {
    if d.num() < max_day_number() {
        d.num() + 1
    } else {
        d.num()
    }
}

/// Half-open UTC bounds `[start, end)` of a local calendar day, as stored
/// strings: the local midnight starting the day (else the Unix epoch), and
/// the one starting the next day (else the start; the next day is the day
/// itself at the end of the calendar). Which instants the midnights are
/// depends on the machine's zone; each lies less than a day from its
/// midnight read as UTC.
pub fn local_day_bounds_utc(date: CalDate) -> (r: (String, String))
    requires
        date.wf(),
    ensures
        exists|s: Option<Instant>, n: Option<Instant>|
            #![trigger wall_outcome(date.num(), 0, 0, s), wall_outcome(next_day_num(date), 0, 0, n)]
            wall_outcome(date.num(), 0, 0, s) && wall_outcome(next_day_num(date), 0, 0, n)
                && r.0@ == rfc3339_text(bounds_from(s, n).0.secs, bounds_from(s, n).0.nanos)
                && r.1@ == rfc3339_text(bounds_from(s, n).1.secs, bounds_from(s, n).1.nanos),
{
    let start = local_hm_to_utc(date, 0, 0);
    let next = match checked_add_days(date, 1) {
        Some(d) => d,
        None => date,
    };
    assert(next.wf() && next.num() == next_day_num(date));
    let next_start = local_hm_to_utc(next, 0, 0);
    let r = day_bounds_text(start, next_start);
    assert(wall_outcome(date.num(), 0, 0, start) && wall_outcome(next_day_num(date), 0, 0, next_start));
    r
}

} // verus!
