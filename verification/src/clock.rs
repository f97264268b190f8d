//! UTC instants as nanosecond counts, with RFC 3339 parsing and formatting
//! delegated to chrono.
use vstd::prelude::*;

verus! {

/// Nanoseconds in one second.
pub const NANOS_PER_SEC: i128 = 1_000_000_000;

/// Nanoseconds in one UTC hour.
pub const HOUR_NANOS: i128 = 3_600_000_000_000;

/// Nanoseconds in one UTC day.
pub const DAY_NANOS: i128 = 86_400_000_000_000;

/// Seconds of the earliest `DateTime<Utc>` (the first second of year -262143).
pub open spec fn min_utc_secs() -> int {
    -8_334_601_315_200
}

/// Seconds of the latest `DateTime<Utc>` (the last second of year 262142).
pub open spec fn max_utc_secs() -> int {
    8_210_266_876_799
}

/// Whether a whole-second timestamp names a representable UTC date-time.
pub open spec fn in_utc_range(secs: int) -> bool {
    min_utc_secs() <= secs && secs <= max_utc_secs()
}

/// Whether a nanosecond instant lies inside the representable UTC range.
pub open spec fn instant_in_range(ns: int) -> bool {
    min_utc_secs() * 1_000_000_000 <= ns && ns < (max_utc_secs() + 1) * 1_000_000_000
}

/// The instant, in nanoseconds since the Unix epoch, of a timestamp given as
/// whole seconds and sub-second nanoseconds.
pub open spec fn instant_of(parts: (i64, u32)) -> int {
    parts.0 as int * 1_000_000_000 + parts.1 as int
}

/// `x` rounded down to a multiple of `unit`.
pub open spec fn floor_to(x: int, unit: int) -> int
    recommends
        unit > 0,
{
    x - x % unit
}

/// Whole seconds of the start of the UTC hour that holds instant `ns`.
pub open spec fn hour_start_secs(ns: int) -> int {
    floor_to(ns, HOUR_NANOS as int) / 1_000_000_000
}

/// What `DateTime::parse_from_rfc3339` gives for `text`, converted to UTC and
/// taken as (seconds since the epoch, sub-second nanoseconds).
pub uninterp spec fn rfc3339_instant(text: Seq<char>) -> Option<(i64, u32)>;

/// The text that `to_rfc3339_opts(SecondsFormat::Secs, true)` writes for the
/// UTC date-time at whole second `secs`.
pub uninterp spec fn rfc3339_seconds_text(secs: int) -> Seq<char>;

/// The text of `date_naive().to_string()` (`YYYY-MM-DD`) for the UTC date-time
/// at whole second `secs`.
pub uninterp spec fn utc_date_text(secs: int) -> Seq<char>;

/// Calls `chrono::DateTime::parse_from_rfc3339`; the error is rendered as
/// text. Its grammar takes a four-digit year and an offset below 24 hours,
/// so any parsed instant lies between year 0000 and year 9999 give or take a
/// day; a leap second is carried as nanoseconds of 1e9 or more.
#[verifier::external_body]
pub fn parse_rfc3339(text: &str) -> (r: Result<(i64, u32), String>)
    ensures
        r is Ok <==> rfc3339_instant(text@) is Some,
        r matches Ok(p) ==> rfc3339_instant(text@) == Some(p) && -62_300_000_000 <= p.0 && p.0 <= 253_500_000_000
            && p.1 < 2_000_000_000,
{
    match chrono::DateTime::parse_from_rfc3339(text) {
        Ok(t) => Ok((t.timestamp(), t.timestamp_subsec_nanos())),
        Err(error) => Err(error.to_string()),
    }
}

#[verifier::external_type_specification]
#[verifier::external_body]
pub struct ExSystemTime(std::time::SystemTime);

/// Calls `SystemTime::now`; nothing is stated of the clock.
#[verifier::external_body]
fn system_now() -> std::time::SystemTime {
    std::time::SystemTime::now()
}

/// Calls `SystemTime::duration_since(UNIX_EPOCH)` and takes the distance in
/// nanoseconds: `Ok` with how far `t` lies after the epoch, or `Err` with how
/// far it lies before it. It depends on the clock reading `t`, so nothing
/// more is stated of it.
#[verifier::external_body]
fn nanos_from_unix_epoch(t: &std::time::SystemTime) -> Result<u128, u128> {
    match t.duration_since(std::time::UNIX_EPOCH) {
        Ok(d) => Ok(d.as_nanos()),
        Err(e) => Err(e.duration().as_nanos()),
    }
}

/// Nanoseconds since the epoch of the last representable UTC nanosecond,
/// plus one.
const MAX_INSTANT_EXCLUSIVE: u128 = 8_210_266_876_800_000_000_000;

/// Nanoseconds before the epoch of the earliest representable UTC instant.
const MIN_INSTANT_BEFORE_EPOCH: u128 = 8_334_601_315_200_000_000_000;

/// The (seconds, nanoseconds) of an instant `n` nanoseconds after the epoch,
/// the latest representable instant when `n` lies beyond it.
fn split_after_epoch(n: u128) -> (r: (i64, u32))
    ensures
        r.1 < 1_000_000_000,
        instant_in_range(instant_of(r)),
        n < MAX_INSTANT_EXCLUSIVE ==> instant_of(r) == n,
        n >= MAX_INSTANT_EXCLUSIVE ==> instant_of(r) == MAX_INSTANT_EXCLUSIVE - 1,
{
    let m: u128 = if n < MAX_INSTANT_EXCLUSIVE {
        n
    } else {
        MAX_INSTANT_EXCLUSIVE - 1
    };
    let secs: u128 = m / 1_000_000_000;
    let nanos: u128 = m % 1_000_000_000;
    assert(m == secs * 1_000_000_000 + nanos);
    (secs as i64, nanos as u32)
}

/// The (seconds, nanoseconds) of an instant `n` nanoseconds before the
/// epoch, the earliest representable instant when `n` lies beyond it.
fn split_before_epoch(n: u128) -> (r: (i64, u32))
    ensures
        r.1 < 1_000_000_000,
        instant_in_range(instant_of(r)),
        n <= MIN_INSTANT_BEFORE_EPOCH ==> instant_of(r) == -(n as int),
        n > MIN_INSTANT_BEFORE_EPOCH ==> instant_of(r) == -(MIN_INSTANT_BEFORE_EPOCH as int),
{
    let m: u128 = if n <= MIN_INSTANT_BEFORE_EPOCH {
        n
    } else {
        MIN_INSTANT_BEFORE_EPOCH
    };
    let secs: u128 = m / 1_000_000_000;
    let nanos: u128 = m % 1_000_000_000;
    assert(m == secs * 1_000_000_000 + nanos);
    if nanos == 0 {
        (0 - (secs as i64), 0)
    } else {
        (0 - (secs as i64) - 1, (1_000_000_000 - nanos) as u32)
    }
}

/// The current UTC time as (seconds since the epoch, sub-second
/// nanoseconds), read from the system clock as `chrono::Utc::now` reads it.
/// A clock set before 1970 gives the instant before the epoch that it shows;
/// a clock beyond the range of `DateTime<Utc>` gives the nearest end of that
/// range.
pub(crate) fn utc_now() -> (r: (i64, u32))
    ensures
        in_utc_range(r.0 as int),
        r.1 < 1_000_000_000,
        instant_in_range(instant_of(r)),
{
    let t = system_now();
    match nanos_from_unix_epoch(&t) {
        Ok(n) => split_after_epoch(n),
        Err(n) => split_before_epoch(n),
    }
}

/// The current UTC time in nanoseconds since the epoch (`utc_now`).
pub fn current_instant() -> (r: i128)
    ensures
        instant_in_range(r as int),
{
    instant_nanos(utc_now())
}

/// The text of `DateTime::from_timestamp(secs, nanos)` rendered by
/// `to_rfc3339()`.
pub uninterp spec fn rfc3339_text(secs: int, nanos: int) -> Seq<char>;

/// Calls `DateTime::from_timestamp(secs, nanos)` and `to_rfc3339()`: the UTC
/// date-time as RFC 3339 text with a `+00:00` offset and as many fractional
/// digits as the nanoseconds need.
#[verifier::external_body]
pub(crate) fn format_rfc3339(secs: i64, nanos: u32) -> (r: String)
    requires
        in_utc_range(secs as int),
        nanos < 1_000_000_000,
    ensures
        r@ == rfc3339_text(secs as int, nanos as int),
{
    chrono::DateTime::from_timestamp(secs, nanos).unwrap().to_rfc3339()
}

/// Calls `DateTime::from_timestamp(secs, 0)` and
/// `to_rfc3339_opts(SecondsFormat::Secs, true)`: `secs` as
/// `YYYY-MM-DDTHH:MM:SSZ`.
#[verifier::external_body]
pub(crate) fn format_utc_seconds(secs: i64) -> (r: String)
    requires
        in_utc_range(secs as int),
    ensures
        r@ == rfc3339_seconds_text(secs as int),
{
    chrono::DateTime::from_timestamp(secs, 0).unwrap().to_rfc3339_opts(
        chrono::SecondsFormat::Secs,
        true,
    )
}

/// Calls `DateTime::from_timestamp(secs, 0)` and `date_naive().to_string()`:
/// the UTC calendar date of `secs` as `YYYY-MM-DD`.
#[verifier::external_body]
pub(crate) fn format_utc_date(secs: i64) -> (r: String)
    requires
        in_utc_range(secs as int),
    ensures
        r@ == utc_date_text(secs as int),
{
    chrono::DateTime::from_timestamp(secs, 0).unwrap().date_naive().to_string()
}

/// The nanosecond instant of a (seconds, nanoseconds) pair.
pub fn instant_nanos(parts: (i64, u32)) -> (r: i128)
    ensures
        r == instant_of(parts),
{
    parts.0 as i128 * NANOS_PER_SEC + parts.1 as i128
}

/// Dividing `x + k * d` by `d` shifts the quotient by `k` and keeps the remainder.
proof fn lemma_shifted_div_mod(x: int, d: int, k: int)
    requires
        d > 0,
    ensures
        (x + k * d) % d == x % d,
        (x + k * d) / d == x / d + k,
{
    vstd::arithmetic::div_mod::lemma_fundamental_div_mod(x, d);
    vstd::arithmetic::div_mod::lemma_mod_bound(x, d);
    let q = x / d;
    let r = x % d;
    assert(x + k * d == (q + k) * d + r) by (nonlinear_arith)
        requires
            x == d * q + r,
    ;
    vstd::arithmetic::div_mod::lemma_fundamental_div_mod_converse(x + k * d, d, q + k, r);
}

/// Rounds a nanosecond instant down to a multiple of `unit`.
pub fn floor_instant(ns: i128, unit: i128) -> (r: i128)
    requires
        instant_in_range(ns as int),
        unit == NANOS_PER_SEC || unit == HOUR_NANOS || unit == DAY_NANOS,
    ensures
        r == floor_to(ns as int, unit as int),
        r <= ns,
        ns < r + unit,
        r % unit == 0,
{
    // Shift by a whole number of days so the division runs on a non-negative value.
    let k: i128 = if unit == NANOS_PER_SEC {
        10_000_000_000_000
    } else if unit == HOUR_NANOS {
        2_400_000_000
    } else {
        100_000_000
    };
    let shifted: i128 = ns + k * unit;
    let rem: i128 = ((shifted as u128) % (unit as u128)) as i128;
    proof {
        lemma_shifted_div_mod(ns as int, unit as int, k as int);
        vstd::arithmetic::div_mod::lemma_mod_bound(ns as int, unit as int);
        vstd::arithmetic::div_mod::lemma_fundamental_div_mod(ns as int, unit as int);
        let q = ns as int / unit as int;
        assert(ns as int - ns as int % unit as int == q * unit) by (nonlinear_arith)
            requires
                ns as int == unit * q + ns as int % unit as int,
        ;
        vstd::arithmetic::div_mod::lemma_mod_multiples_basic(q, unit as int);
    }
    ns - rem
}

/// The whole second of an instant that is a multiple of one second.
pub fn whole_seconds(ns: i128) -> (r: i64)
    requires
        instant_in_range(ns as int),
        ns % NANOS_PER_SEC == 0,
    ensures
        r == ns as int / 1_000_000_000,
        in_utc_range(r as int),
{
    let k: i128 = 10_000_000_000_000;
    let q: i128 = (((ns + k * NANOS_PER_SEC) as u128) / (NANOS_PER_SEC as u128)) as i128;
    proof {
        lemma_shifted_div_mod(ns as int, 1_000_000_000, k as int);
        vstd::arithmetic::div_mod::lemma_fundamental_div_mod(ns as int, 1_000_000_000);
        let s = ns as int / 1_000_000_000;
        assert(min_utc_secs() <= s && s <= max_utc_secs()) by (nonlinear_arith)
            requires
                ns as int == 1_000_000_000 * s,
                instant_in_range(ns as int),
        ;
    }
    (q - k) as i64
}

/// A floor of an in-range instant to a unit that divides the earliest
/// instant stays in range.
proof fn lemma_floor_in_range(ns: int, unit: int, r: int)
    requires
        instant_in_range(ns),
        unit == 1_000_000_000 || unit == 3_600_000_000_000 || unit == 86_400_000_000_000,
        r <= ns,
        ns < r + unit,
        r % unit == 0,
    ensures
        instant_in_range(r),
{
    let lo = min_utc_secs() * 1_000_000_000;
    assert(lo % unit == 0);
    if r < lo {
        vstd::arithmetic::div_mod::lemma_fundamental_div_mod(r, unit);
        vstd::arithmetic::div_mod::lemma_fundamental_div_mod(lo, unit);
        let a = r / unit;
        let b = lo / unit;
        assert(a < b) by (nonlinear_arith)
            requires
                r == unit * a,
                lo == unit * b,
                r < lo,
                unit > 0,
        ;
        assert(r + unit <= lo) by (nonlinear_arith)
            requires
                r == unit * a,
                lo == unit * b,
                a + 1 <= b,
                unit > 0,
        ;
    }
}

/// Truncates an instant to the start of its UTC hour.
pub fn floor_to_hour(value: i128) -> (r: i128)
    requires
        instant_in_range(value as int),
    ensures
        r == floor_to(value as int, HOUR_NANOS as int),
        instant_in_range(r as int),
        r <= value < r + HOUR_NANOS,
{
    let r = floor_instant(value, HOUR_NANOS);
    proof {
        lemma_floor_in_range(value as int, HOUR_NANOS as int, r as int);
    }
    r
}

/// Truncates an instant to the start of its UTC day.
pub fn floor_to_day(value: i128) -> (r: i128)
    requires
        instant_in_range(value as int),
    ensures
        r == floor_to(value as int, DAY_NANOS as int),
        instant_in_range(r as int),
        r <= value < r + DAY_NANOS,
{
    let r = floor_instant(value, DAY_NANOS);
    proof {
        lemma_floor_in_range(value as int, DAY_NANOS as int, r as int);
    }
    r
}

/// The next UTC hour boundary after an instant; the boundary must itself
/// be representable.
pub fn next_hour_boundary(value: i128) -> (r: i128)
    requires
        instant_in_range(value as int),
        instant_in_range(floor_to(value as int, HOUR_NANOS as int) + HOUR_NANOS),
    ensures
        r == floor_to(value as int, HOUR_NANOS as int) + HOUR_NANOS,
        value < r,
{
    floor_to_hour(value) + HOUR_NANOS
}

/// The next UTC day boundary after an instant; the boundary must itself be
/// representable.
pub fn next_day_boundary(value: i128) -> (r: i128)
    requires
        instant_in_range(value as int),
        instant_in_range(floor_to(value as int, DAY_NANOS as int) + DAY_NANOS),
    ensures
        r == floor_to(value as int, DAY_NANOS as int) + DAY_NANOS,
        value < r,
{
    floor_to_day(value) + DAY_NANOS
}

/// An instant one hour later; it must be representable.
pub fn shift_hour(value: i128) -> (r: i128)
    requires
        instant_in_range(value + HOUR_NANOS),
    ensures
        r == value + HOUR_NANOS,
{
    value + HOUR_NANOS
}

/// An instant one day later; it must be representable.
pub fn shift_day(value: i128) -> (r: i128)
    requires
        instant_in_range(value + DAY_NANOS),
    ensures
        r == value + DAY_NANOS,
{
    value + DAY_NANOS
}

/// An instant as `YYYY-MM-DDTHH:MM:SSZ`, its fraction of a second dropped.
pub fn format_utc(value: i128) -> (r: String)
    requires
        instant_in_range(value as int),
    ensures
        r@ == rfc3339_seconds_text(floor_to(value as int, NANOS_PER_SEC as int) / 1_000_000_000),
{
    let whole = floor_instant(value, NANOS_PER_SEC);
    proof {
        lemma_floor_in_range(value as int, NANOS_PER_SEC as int, whole as int);
    }
    format_utc_seconds(whole_seconds(whole))
}

/// The key of the hour bucket that holds an instant: the hour's start as
/// `YYYY-MM-DDTHH:00:00Z`.
pub fn hour_bucket_key(value: i128) -> (r: String)
    requires
        instant_in_range(value as int),
    ensures
        r@ == rfc3339_seconds_text(hour_start_secs(value as int)),
{
    let start = floor_to_hour(value);
    proof {
        vstd::arithmetic::div_mod::lemma_fundamental_div_mod(start as int, HOUR_NANOS as int);
        let q = start as int / HOUR_NANOS as int;
        assert(start as int == (q * 3600) * 1_000_000_000) by (nonlinear_arith)
            requires
                start as int == 3_600_000_000_000 * q,
        ;
        vstd::arithmetic::div_mod::lemma_mod_multiples_basic(q * 3600, 1_000_000_000);
    }
    format_utc(start)
}

/// The key of the day bucket that holds an instant: its UTC date as
/// `YYYY-MM-DD`.
pub fn day_bucket_key(value: i128) -> (r: String)
    requires
        instant_in_range(value as int),
    ensures
        r@ == utc_date_text(floor_to(value as int, NANOS_PER_SEC as int) / 1_000_000_000),
{
    let whole = floor_instant(value, NANOS_PER_SEC);
    proof {
        lemma_floor_in_range(value as int, NANOS_PER_SEC as int, whole as int);
    }
    format_utc_date(whole_seconds(whole))
}

} // verus!
