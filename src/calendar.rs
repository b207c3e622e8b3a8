//! Instants, calendar days and the day buckets that name them.
//!
//! An instant is a count of seconds since 1970-01-01 00:00 UTC. The calendar
//! date of an instant comes from the `time` crate.
use vstd::prelude::*;
use crate::text::{push_zero_padded, zero_padded};

verus! {

/// Seconds in a day.
pub const SECONDS_PER_DAY: i64 = 86400;

/// The first instant that has a calendar date: -9999-01-01 00:00:00 UTC.
pub const MIN_INSTANT: i64 = -377705116800;

/// The last instant that has a calendar date: 9999-12-31 23:59:59 UTC.
pub const MAX_INSTANT: i64 = 253402300799;

/// Whether an instant has a calendar date.
pub open spec fn in_calendar(t: int) -> bool {
    MIN_INSTANT <= t <= MAX_INSTANT
}

/// The (year, month, day) of the UTC calendar date of an instant, as the
/// `time` crate computes it.
pub uninterp spec fn calendar_date_of(unix_seconds: int) -> (int, int, int);

/// The fields of an instant read on a UTC clock.
#[derive(Clone, Copy, Debug, PartialEq, Eq)]
pub struct CivilTime {
    pub year: i32,
    /// 1 for January to 12 for December.
    pub month: u8,
    pub day: u8,
    /// Days since the last Monday: 0 for Monday to 6 for Sunday.
    pub weekday: u8,
    pub hour: u8,
    pub minute: u8,
}

/// Relies on `time::OffsetDateTime::from_unix_timestamp`, which succeeds
/// exactly for the instants from `MIN_INSTANT` to `MAX_INSTANT` (the crate is
/// built without its `large-dates` feature) and yields a UTC date-time, and
/// on `to_calendar_date`, `weekday`, `hour` and `minute` of that date-time.
#[verifier::external_body]
fn utc_civil_time(unix_seconds: i64) -> (r: Option<CivilTime>)
    ensures
        r is Some <==> in_calendar(unix_seconds as int),
        r is Some ==> (r->0.year as int, r->0.month as int, r->0.day as int) == calendar_date_of(
            unix_seconds as int,
        ),
        r is Some ==> 1 <= r->0.month <= 12 && 1 <= r->0.day <= 31,
        r is Some ==> -9999 <= r->0.year <= 9999,
        r is Some ==> r->0.weekday as int == (unix_seconds as int / 86400 + 3) % 7,
        r is Some ==> r->0.hour as int == (unix_seconds as int % 86400) / 3600,
        r is Some ==> r->0.minute as int == (unix_seconds as int % 3600) / 60,
{
    let t = time::OffsetDateTime::from_unix_timestamp(unix_seconds).ok()?;
    let (year, month, day) = t.to_calendar_date();
    Some(CivilTime {
        year,
        month: month as u8,
        day,
        weekday: t.weekday().number_days_from_monday(),
        hour: t.hour(),
        minute: t.minute(),
    })
}

/// The UTC clock reading of an instant, when it has a calendar date.
pub open spec fn civil_time_matches(t: int, c: CivilTime) -> bool {
    &&& (c.year as int, c.month as int, c.day as int) == calendar_date_of(t)
    &&& 1 <= c.month <= 12 && 1 <= c.day <= 31 && -9999 <= c.year <= 9999
    &&& c.weekday as int == (t / 86400 + 3) % 7
    &&& c.hour as int == (t % 86400) / 3600
    &&& c.minute as int == (t % 3600) / 60
}

/// The clock reading of an instant on a UTC clock, or `None` when the
/// instant has no calendar date.
pub fn civil_time(unix_seconds: i64) -> (r: Option<CivilTime>)
    ensures
        r is Some <==> in_calendar(unix_seconds as int),
        r is Some ==> civil_time_matches(unix_seconds as int, r->0),
{
    utc_civil_time(unix_seconds)
}

/// A year written with at least four characters, sign included, as the
/// format `{:04}` writes it.
pub open spec fn year_text(y: int) -> Seq<char> {
    if y >= 0 {
        zero_padded(y as nat, 4)
    } else {
        seq!['-'] + zero_padded((-y) as nat, 3)
    }
}

/// The day bucket of a date: year, month and day, as `YYYYMMDD`.
pub open spec fn day_bucket_text(y: int, m: int, d: int) -> Seq<char> {
    year_text(y) + zero_padded(m as nat, 2) + zero_padded(d as nat, 2)
}

/// The day bucket of the UTC date of an instant.
pub open spec fn day_bucket_of(t: int) -> Seq<char> {
    let (y, m, d) = calendar_date_of(t);
    day_bucket_text(y, m, d)
}

/// Writes the day bucket of a clock reading's date.
pub fn format_day_bucket(c: &CivilTime) -> (r: String)
    ensures
        r@ == day_bucket_text(c.year as int, c.month as int, c.day as int),
{
    let mut out = String::new();
    if c.year >= 0 {
        push_zero_padded(&mut out, c.year as u64, 4);
    } else {
        out.append("-");
        proof {
            reveal_strlit("-");
        }
        let magnitude: i64 = -(c.year as i64);
        push_zero_padded(&mut out, magnitude as u64, 3);
    }
    push_zero_padded(&mut out, c.month as u64, 2);
    push_zero_padded(&mut out, c.day as u64, 2);
    assert(out@ =~= day_bucket_text(c.year as int, c.month as int, c.day as int));
    out
}

/// The day bucket of the UTC date of an instant, or `None` when the instant
/// has no calendar date.
pub fn day_bucket(unix_seconds: i64) -> (r: Option<String>)
    ensures
        r is Some <==> in_calendar(unix_seconds as int),
        r is Some ==> r->0@ == day_bucket_of(unix_seconds as int),
{
    match utc_civil_time(unix_seconds) {
        Some(c) => Some(format_day_bucket(&c)),
        None => None,
    }
}

/// The instant at which the local day that holds `now` began, on a clock
/// `offset` seconds ahead of UTC.
pub open spec fn local_midnight(now: int, offset: int) -> int {
    let local = now + offset;
    local - local % 86400 - offset
}

/// The start of a fixed look-back window: `days` whole days before `now`.
/// `None` when that instant is out of the range of `i64`.
pub fn lookback_start(now: i64, days: i64) -> (r: Option<i64>)
    ensures
        r is Some <==> i64::MIN <= now - days * 86400 <= i64::MAX,
        r is Some ==> r->0 == now - days * 86400,
{
    let span: i128 = days as i128 * 86400;
    let start: i128 = now as i128 - span;
    if start < i64::MIN as i128 || start > i64::MAX as i128 {
        None
    } else {
        Some(start as i64)
    }
}

/// One local day of an aggregation: the instants from `start` (included) to
/// `end` (excluded), and the bucket the day's judgment is stored under.
#[derive(Debug)]
pub struct DayWindow {
    pub start: i64,
    pub end: i64,
    pub day_bucket: String,
}

/// The end of the window with index `i` of `n`, oldest first: the last one
/// ends at the start of the current local day.
pub open spec fn window_end(now: int, offset: int, n: int, i: int) -> int {
    local_midnight(now, offset) - (n - 1 - i) * 86400
}

/// Whether the `n` windows before `now` can be laid out: each window's end
/// has a calendar date on the local clock.
pub open spec fn windows_in_calendar(now: int, offset: int, n: int) -> bool {
    n <= 0 || (in_calendar(now) && -172800 < offset < 172800 && in_calendar(
        window_end(now, offset, n, 0) + offset,
    ) && in_calendar(window_end(now, offset, n, n - 1) + offset))
}

/// The last `lookback_days` whole local days before the current one, oldest
/// first, on a clock `offset_seconds` ahead of UTC. A window that ends at a
/// local midnight carries the bucket of the local date that begins there.
/// `None` when some window falls outside the calendar.
pub fn lookback_windows(now: i64, offset_seconds: i32, lookback_days: i64) -> (r: Option<
    Vec<DayWindow>,
>)
    ensures
        r is Some <==> windows_in_calendar(now as int, offset_seconds as int, lookback_days as int),
        r is Some ==> r->0@.len() == if lookback_days > 0 {
            lookback_days as int
        } else {
            0
        },
        r is Some ==> forall|i: int|
            0 <= i < r->0@.len() ==> {
                &&& #[trigger] r->0@[i].end == window_end(
                    now as int,
                    offset_seconds as int,
                    lookback_days as int,
                    i,
                )
                &&& r->0@[i].start == r->0@[i].end - 86400
                &&& r->0@[i].day_bucket@ == day_bucket_of(r->0@[i].end + offset_seconds)
            },
{
    let mut out: Vec<DayWindow> = Vec::new();
    if lookback_days <= 0 {
        return Some(out);
    }
    if now < MIN_INSTANT || now > MAX_INSTANT || offset_seconds <= -172800 || offset_seconds
        >= 172800 {
        return None;
    }
    let local: i128 = now as i128 + offset_seconds as i128;
    let shifted: i128 = local + 432_000_000_000;
    let into_day: i128 = shifted % 86400;
    assert(local % 86400 == shifted % 86400) by {
        assert(432_000_000_000int == 5_000_000 * 86400);
        vstd::arithmetic::div_mod::lemma_mod_add_multiples_vanish(local as int, 86400);
        vstd::arithmetic::div_mod::lemma_mod_multiples_vanish(5_000_000, local as int, 86400);
    }
    let midnight: i128 = local - into_day - offset_seconds as i128;
    let first_end: i128 = midnight - (lookback_days as i128 - 1) * 86400;
    if first_end + (offset_seconds as i128) < MIN_INSTANT as i128 || midnight + (
    offset_seconds as i128) > MAX_INSTANT as i128 {
        return None;
    }
    let mut i: i64 = 0;
    while i < lookback_days
        invariant
            0 <= i <= lookback_days,
            midnight == local_midnight(now as int, offset_seconds as int),
            first_end == window_end(now as int, offset_seconds as int, lookback_days as int, 0),
            in_calendar(first_end + offset_seconds),
            in_calendar(midnight + offset_seconds),
            out@.len() == i,
            forall|k: int|
                0 <= k < i ==> {
                    &&& #[trigger] out@[k].end == window_end(
                        now as int,
                        offset_seconds as int,
                        lookback_days as int,
                        k,
                    )
                    &&& out@[k].start == out@[k].end - 86400
                    &&& out@[k].day_bucket@ == day_bucket_of(out@[k].end + offset_seconds)
                },
        decreases lookback_days - i,
    {
        let end: i128 = first_end + (i as i128) * 86400;
        let local_end: i64 = (end + offset_seconds as i128) as i64;
        let bucket = day_bucket(local_end);
        match bucket {
            Some(b) => {
                out.push(DayWindow { start: (end - 86400) as i64, end: end as i64, day_bucket: b });
            },
            None => {
                return None;
            },
        }
        i = i + 1;
    }
    Some(out)
}

} // verus!
