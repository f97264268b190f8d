//! Time windows of the traffic tables: the span that a batch of samples
//! touches, a validated query window, and the windows that trend charts and
//! anomaly checks compare.
use vstd::prelude::*;
use crate::clock::{
    DAY_NANOS, HOUR_NANOS, NANOS_PER_SEC, floor_instant, floor_to, format_utc_seconds, in_utc_range,
    parse_rfc3339, rfc3339_instant, rfc3339_seconds_text, utc_now, whole_seconds,
};
use crate::db::DbError;
use crate::record::TrafficSampleInsert;
use crate::text::concat;

verus! {

/// A `[from, to)` span of the traffic tables, as RFC 3339 texts.
#[derive(Debug, Clone, PartialEq, Eq)]
pub struct AggregationWindow {
    pub from: String,
    pub to: String,
}

/// `a` is strictly later than `b`: by whole seconds, then by nanoseconds.
pub open spec fn later(a: (i64, u32), b: (i64, u32)) -> bool {
    a.0 > b.0 || (a.0 == b.0 && a.1 > b.1)
}

/// The whole second that starts the bucket of `unit` nanoseconds holding
/// the second `secs`.
pub open spec fn bucket_start(secs: int, unit: int) -> int {
    floor_to(secs * 1_000_000_000, unit) / 1_000_000_000
}

fn parse_time(value: &str, label: &str) -> (r: Result<(i64, u32), DbError>)
    ensures
        r is Ok <==> rfc3339_instant(value@) is Some,
        r matches Ok(p) ==> rfc3339_instant(value@) == Some(p) && -62_300_000_000 <= p.0 <= 253_500_000_000
            && p.1 < 2_000_000_000 && in_utc_range(p.0 as int),
        r is Err ==> r->Err_0 is InvalidTimeWindow,
{
    match parse_rfc3339(value) {
        Ok(p) => Ok(p),
        Err(error) => {
            let head = concat(label, " 不是有效的 ISO 8601 时间: ");
            Err(DbError::InvalidTimeWindow(concat(head.as_str(), error.as_str())))
        },
    }
}

/// The start, in whole seconds, of the bucket holding second `secs`.
pub fn bucket_start_secs(secs: i64, unit: i128) -> (r: i64)
    requires
        in_utc_range(secs as int),
        unit == HOUR_NANOS || unit == DAY_NANOS,
    ensures
        r == bucket_start(secs as int, unit as int),
        in_utc_range(r as int),
        r <= secs,
        secs - r < unit / 1_000_000_000,
{
    let ns = secs as i128 * NANOS_PER_SEC;
    let floored = floor_instant(ns, unit);
    proof {
        let u = unit as int;
        let f = floored as int;
        let m = crate::clock::min_utc_secs() * 1_000_000_000;
        assert(m % u == 0);
        if f < m {
            assert(m - f >= u) by (nonlinear_arith)
                requires
                    f % u == 0,
                    m % u == 0,
                    f < m,
                    u > 0,
            {
                vstd::arithmetic::div_mod::lemma_fundamental_div_mod(f, u);
                vstd::arithmetic::div_mod::lemma_fundamental_div_mod(m, u);
                assert(f == u * (f / u));
                assert(m == u * (m / u));
                assert(f / u < m / u) by (nonlinear_arith)
                    requires
                        f == u * (f / u),
                        m == u * (m / u),
                        f < m,
                        u > 0,
                ;
                assert(m - f == u * (m / u - f / u)) by (nonlinear_arith)
                    requires
                        f == u * (f / u),
                        m == u * (m / u),
                ;
                assert(u * (m / u - f / u) >= u) by (nonlinear_arith)
                    requires
                        m / u - f / u >= 1,
                        u > 0,
                ;
            }
        }
        assert(floored % 1_000_000_000 == 0) by (nonlinear_arith)
            requires
                floored % unit == 0,
                unit == 3_600_000_000_000 || unit == 86_400_000_000_000,
        {
            if unit == 3_600_000_000_000 {
                vstd::arithmetic::div_mod::lemma_fundamental_div_mod(floored as int, 3_600_000_000_000);
            } else {
                vstd::arithmetic::div_mod::lemma_fundamental_div_mod(floored as int, 86_400_000_000_000);
            }
        }
    }
    whole_seconds(floored)
}

/// A query window from two RFC 3339 texts, both rendered again to whole
/// seconds in UTC; `from` must be earlier than `to`.
pub fn normalize_window(from: &str, to: &str) -> (r: Result<(String, String), DbError>)
    ensures
        rfc3339_instant(from@) is None ==> r is Err && r->Err_0 is InvalidTimeWindow,
        rfc3339_instant(from@) is Some && rfc3339_instant(to@) is None ==> r is Err && r->Err_0 is InvalidTimeWindow,
        rfc3339_instant(from@) matches Some(f) ==> (rfc3339_instant(to@) matches Some(t) ==> {
            &&& !later(t, f) ==> r is Err && r->Err_0 is InvalidTimeWindow
            &&& later(t, f) ==> r is Ok && r->Ok_0.0@ == rfc3339_seconds_text(f.0 as int) && r->Ok_0.1@
                == rfc3339_seconds_text(t.0 as int)
        }),
{
    let f = match parse_time(from, "from") {
        Ok(f) => f,
        Err(e) => return Err(e),
    };
    let t = match parse_time(to, "to") {
        Ok(t) => t,
        Err(e) => return Err(e),
    };
    if !(t.0 > f.0 || (t.0 == f.0 && t.1 > f.1)) {
        return Err(DbError::InvalidTimeWindow(crate::text::owned("from 必须早于 to")));
    }
    Ok((format_utc_seconds(f.0), format_utc_seconds(t.0)))
}

/// The parsed times of the samples, in order, when all parse.
pub open spec fn sample_times(samples: Seq<TrafficSampleInsert>) -> Option<Seq<(i64, u32)>>
    decreases samples.len(),
{
    if samples.len() == 0 {
        Some(Seq::empty())
    } else {
        match (sample_times(samples.drop_last()), rfc3339_instant(samples.last().ts@)) {
            (Some(s), Some(t)) => Some(s.push(t)),
            _ => None,
        }
    }
}

/// The earliest whole second among `times`.
pub open spec fn min_secs(times: Seq<(i64, u32)>) -> int
    decreases times.len(),
{
    if times.len() <= 1 {
        if times.len() == 0 { 0 } else { times[0].0 as int }
    } else {
        let m = min_secs(times.drop_last());
        if (times.last().0 as int) < m { times.last().0 as int } else { m }
    }
}

/// The latest whole second among `times`.
pub open spec fn max_secs(times: Seq<(i64, u32)>) -> int
    decreases times.len(),
{
    if times.len() <= 1 {
        if times.len() == 0 { 0 } else { times[0].0 as int }
    } else {
        let m = max_secs(times.drop_last());
        if (times.last().0 as int) > m { times.last().0 as int } else { m }
    }
}

/// The span of buckets that the samples touch: from the start of the bucket
/// of the earliest sample to the end of the bucket of the latest; none for
/// no samples, an error when a sample time does not parse.
pub fn build_window_for_samples(samples: &Vec<TrafficSampleInsert>, unit: i128) -> (r: Result<Option<AggregationWindow>, DbError>)
    requires
        unit == HOUR_NANOS || unit == DAY_NANOS,
    ensures
        sample_times(samples@) is None ==> r is Err && r->Err_0 is InvalidTimeWindow,
        sample_times(samples@) matches Some(times) ==> {
            &&& times.len() == 0 ==> r == Ok::<Option<AggregationWindow>, DbError>(None)
            &&& times.len() > 0 ==> r is Ok && r->Ok_0 is Some
                && r->Ok_0->0.from@ == rfc3339_seconds_text(bucket_start(min_secs(times), unit as int))
                && r->Ok_0->0.to@ == rfc3339_seconds_text(bucket_start(max_secs(times), unit as int) + unit / 1_000_000_000)
        },
{
    let mut lo: i64 = 0;
    let mut hi: i64 = 0;
    let mut i: usize = 0;
    let ghost mut times: Seq<(i64, u32)> = Seq::empty();
    while i < samples.len()
        invariant
            i <= samples@.len(),
            sample_times(samples@.take(i as int)) == Some(times),
            times.len() == i,
            forall|k: int| 0 <= k < times.len() ==> -62_300_000_000 <= (#[trigger] times[k]).0 <= 253_500_000_000,
            i > 0 ==> lo == min_secs(times) && hi == max_secs(times),
        decreases samples@.len() - i,
    {
        proof {
            assert(samples@.take(i + 1).drop_last() =~= samples@.take(i as int));
            assert(samples@.take(i + 1).last() == samples@[i as int]);
        }
        let t = match parse_time(samples[i].ts.as_str(), "sample.ts") {
            Ok(t) => t,
            Err(e) => {
                proof {
                    lemma_sample_times_prefix_none(samples@, i as int + 1);
                }
                return Err(e);
            },
        };
        if i == 0 {
            lo = t.0;
            hi = t.0;
        } else {
            if t.0 < lo {
                lo = t.0;
            }
            if t.0 > hi {
                hi = t.0;
            }
        }
        proof {
            let old_times = times;
            times = times.push(t);
            assert(times.drop_last() =~= old_times);
        }
        i = i + 1;
    }
    proof {
        assert(samples@.take(samples@.len() as int) =~= samples@);
    }
    if i == 0 {
        return Ok(None);
    }
    proof {
        lemma_min_max_bounds(times);
    }
    let from = bucket_start_secs(lo, unit);
    let to_start = bucket_start_secs(hi, unit);
    let step: i64 = if unit == HOUR_NANOS { 3600 } else { 86400 };
    let to = to_start + step;
    Ok(Some(AggregationWindow { from: format_utc_seconds(from), to: format_utc_seconds(to) }))
}

proof fn lemma_min_max_bounds(times: Seq<(i64, u32)>)
    requires
        forall|k: int| 0 <= k < times.len() ==> -62_300_000_000 <= (#[trigger] times[k]).0 <= 253_500_000_000,
    ensures
        -62_300_000_000 <= min_secs(times) <= 253_500_000_000,
        -62_300_000_000 <= max_secs(times) <= 253_500_000_000,
    decreases times.len(),
{
    if times.len() > 1 {
        assert forall|k: int| 0 <= k < times.drop_last().len() implies -62_300_000_000 <= (#[trigger] times.drop_last()[k]).0
            <= 253_500_000_000 by {
            assert(times.drop_last()[k] == times[k]);
        }
        lemma_min_max_bounds(times.drop_last());
        assert(times.last() == times[times.len() - 1]);
    } else if times.len() == 1 {
        assert(times[0] == times[0]);
    }
}

/// Once a prefix of the samples fails to parse, so do all of them.
proof fn lemma_sample_times_prefix_none(samples: Seq<TrafficSampleInsert>, k: int)
    requires
        0 <= k <= samples.len(),
        sample_times(samples.take(k)) is None,
    ensures
        sample_times(samples) is None,
    decreases samples.len() - k,
{
    if k < samples.len() {
        assert(samples.take(k + 1).drop_last() =~= samples.take(k));
        lemma_sample_times_prefix_none(samples, k + 1);
    } else {
        assert(samples.take(k) =~= samples);
    }
}

/// The hourly buckets that the samples touch.
pub fn build_hourly_window_for_samples(samples: &Vec<TrafficSampleInsert>) -> (r: Result<Option<AggregationWindow>, DbError>)
    ensures
        sample_times(samples@) is None ==> r is Err && r->Err_0 is InvalidTimeWindow,
        sample_times(samples@) matches Some(times) ==> {
            &&& times.len() == 0 ==> r == Ok::<Option<AggregationWindow>, DbError>(None)
            &&& times.len() > 0 ==> r is Ok && r->Ok_0 is Some
                && r->Ok_0->0.from@ == rfc3339_seconds_text(bucket_start(min_secs(times), HOUR_NANOS as int))
                && r->Ok_0->0.to@ == rfc3339_seconds_text(bucket_start(max_secs(times), HOUR_NANOS as int) + 3600)
        },
{
    build_window_for_samples(samples, HOUR_NANOS)
}

/// The daily buckets that the samples touch.
pub fn build_daily_window_for_samples(samples: &Vec<TrafficSampleInsert>) -> (r: Result<Option<AggregationWindow>, DbError>)
    ensures
        sample_times(samples@) is None ==> r is Err && r->Err_0 is InvalidTimeWindow,
        sample_times(samples@) matches Some(times) ==> {
            &&& times.len() == 0 ==> r == Ok::<Option<AggregationWindow>, DbError>(None)
            &&& times.len() > 0 ==> r is Ok && r->Ok_0 is Some
                && r->Ok_0->0.from@ == rfc3339_seconds_text(bucket_start(min_secs(times), DAY_NANOS as int))
                && r->Ok_0->0.to@ == rfc3339_seconds_text(bucket_start(max_secs(times), DAY_NANOS as int) + 86400)
        },
{
    build_window_for_samples(samples, DAY_NANOS)
}

/// How the trend of traffic is bucketed.
#[derive(Debug, Clone, Copy, PartialEq, Eq, Structural)]
pub enum TrafficGranularity {
    Hourly,
    Daily,
}

/// The bucket length of a granularity, in nanoseconds.
pub open spec fn unit_of(granularity: TrafficGranularity) -> int {
    match granularity {
        TrafficGranularity::Hourly => HOUR_NANOS as int,
        TrafficGranularity::Daily => DAY_NANOS as int,
    }
}

/// The trend window at second `now`: it ends at the end of the current
/// bucket and reaches back `days` days; as whole seconds.
pub open spec fn trend_window(now: int, granularity: TrafficGranularity, days: int) -> (int, int) {
    let end = bucket_start(now, unit_of(granularity)) + unit_of(granularity) / 1_000_000_000;
    (end - days * 86400, end)
}

/// The trend window at second `now`, as RFC 3339 texts; none when it would
/// leave the range of representable dates.
pub fn traffic_window_at(now: i64, granularity: TrafficGranularity, days: i32) -> (r: Option<(String, String)>)
    requires
        in_utc_range(now as int),
    ensures
        ({
            let w = trend_window(now as int, granularity, days as int);
            &&& (in_utc_range(w.0) && in_utc_range(w.1)) ==> (r matches Some((a, b)) && a@ == rfc3339_seconds_text(w.0)
                && b@ == rfc3339_seconds_text(w.1))
            &&& !(in_utc_range(w.0) && in_utc_range(w.1)) ==> r is None
        }),
{
    let unit = match granularity {
        TrafficGranularity::Hourly => HOUR_NANOS,
        TrafficGranularity::Daily => DAY_NANOS,
    };
    let step: i64 = match granularity {
        TrafficGranularity::Hourly => 3600,
        TrafficGranularity::Daily => 86400,
    };
    let start_of_bucket = bucket_start_secs(now, unit);
    let end = start_of_bucket + step;
    let start = end - days as i64 * 86400;
    if start < -8_334_601_315_200 || start > 8_210_266_876_799 || end > 8_210_266_876_799 {
        return None;
    }
    Some((format_utc_seconds(start), format_utc_seconds(end)))
}

/// The trend window of the last `days` days, ending at the end of the
/// current bucket; none when the clock reads a time that close to the ends
/// of the representable range.
pub fn build_traffic_window(granularity: TrafficGranularity, days: i32) -> (r: Option<(String, String)>)
    ensures
        exists|now: int| in_utc_range(now) && ({
            let w = trend_window(now, granularity, days as int);
            &&& (in_utc_range(w.0) && in_utc_range(w.1)) ==> (r matches Some((a, b)) && a@ == rfc3339_seconds_text(w.0)
                && b@ == rfc3339_seconds_text(w.1))
            &&& !(in_utc_range(w.0) && in_utc_range(w.1)) ==> r is None
        }),
{
    let now = utc_now();
    traffic_window_at(now.0, granularity, days)
}

/// The two windows that a traffic anomaly check compares at second `now`,
/// as whole seconds: the current one ends at the start of the current hour
/// and spans `hours` hours; the previous one spans the same length before it.
pub open spec fn comparison_windows(now: int, hours: int) -> (int, int, int) {
    let end = bucket_start(now, HOUR_NANOS as int);
    (end - 2 * hours * 3600, end - hours * 3600, end)
}

/// The bounds (previous start, current start, current end) of the windows
/// that a traffic anomaly check compares at second `now`, as RFC 3339 texts;
/// a window of no minutes is refused, and none is given when the windows
/// would leave the range of representable dates.
pub fn comparison_windows_at(now: i64, time_range_minutes: i32) -> (r: Result<Option<(String, String, String)>, DbError>)
    requires
        in_utc_range(now as int),
    ensures
        time_range_minutes <= 0 ==> r is Err && r->Err_0 is InvalidTimeWindow,
        time_range_minutes > 0 ==> r is Ok && ({
            let w = comparison_windows(now as int, crate::alert::bucket_count_of(time_range_minutes as int));
            &&& in_utc_range(w.0) ==> (r matches Ok(Some((a, b, c))) && a@ == rfc3339_seconds_text(w.0)
                && b@ == rfc3339_seconds_text(w.1) && c@ == rfc3339_seconds_text(w.2))
            &&& !in_utc_range(w.0) ==> r->Ok_0 is None
        }),
{
    if time_range_minutes <= 0 {
        return Err(DbError::InvalidTimeWindow(crate::text::owned("time_range_minutes 必须大于 0")));
    }
    let hours = crate::alert::comparison_bucket_count(time_range_minutes);
    let end = bucket_start_secs(now, HOUR_NANOS);
    let current_start = end - hours * 3600;
    let previous_start = current_start - hours * 3600;
    if previous_start < -8_334_601_315_200 {
        return Ok(None);
    }
    Ok(Some((format_utc_seconds(previous_start), format_utc_seconds(current_start), format_utc_seconds(end))))
}

} // verus!
