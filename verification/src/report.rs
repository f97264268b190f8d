//! The periods that daily and weekly reports cover, their day-by-day
//! traffic, and the busiest hour.
use vstd::prelude::*;
use crate::ai::{AiReportError, ReportPeriod, ReportType, ReportDailyTrendPoint};
use crate::clock::{format_utc_date, in_utc_range, utc_date_text, utc_now};
use crate::table::{Keyed, KeyedTable};
use crate::text::{concat, str_trim, text_less, text_lt, trim, lemma_text_order};

verus! {

/// The day number (days since 1970-01-01) that
/// `NaiveDate::parse_from_str(text, "%Y-%m-%d")` reads from `text`.
pub uninterp spec fn ymd_day(text: Seq<char>) -> Option<int>;

/// Calls `NaiveDate::parse_from_str` with `%Y-%m-%d` and counts the days
/// from 1970-01-01; the error is rendered as text. Dates run from year
/// -262143 to 262142.
#[verifier::external_body]
fn parse_ymd(text: &str) -> (r: Result<i64, String>)
    ensures
        r is Ok <==> ymd_day(text@) is Some,
        r matches Ok(d) ==> ymd_day(text@) == Some(d as int) && in_utc_range(d * 86400),
{
    match chrono::NaiveDate::parse_from_str(text, "%Y-%m-%d") {
        Ok(date) => Ok(date.signed_duration_since(chrono::NaiveDate::from_ymd_opt(1970, 1, 1).unwrap()).num_days()),
        Err(error) => Err(error.to_string()),
    }
}

/// The UTC day (days since 1970-01-01) that holds the instant `secs`
/// seconds after the epoch.
pub fn utc_day_of(secs: i64) -> (d: i64)
    ensures
        d * 86400 <= secs < d * 86400 + 86400,
{
    let d = if secs >= 0 { secs / 86400 } else { (secs + 1) / 86400 - 1 };
    assert(d * 86400 <= secs && secs < d * 86400 + 86400);
    d
}

/// The day that a report ends on: the given date, trimmed, or today in UTC.
/// A date that does not read as `YYYY-MM-DD` is refused; no date is always
/// read as today.
pub fn parse_report_date(date: Option<&str>) -> (r: Result<i64, AiReportError>)
    ensures
        date matches Some(d) ==> (ymd_day(trim(d@)) is None ==> r is Err && r->Err_0 is InvalidDate),
        date matches Some(d) ==> (ymd_day(trim(d@)) matches Some(day) ==> r == Ok::<i64, AiReportError>(day as i64)),
        date is None ==> (r matches Ok(day) && exists|secs: int| #[trigger] in_utc_range(secs) && day * 86400 <= secs < day
            * 86400 + 86400),
        r matches Ok(day) ==> in_utc_range(day * 86400),
{
    match date {
        Some(value) => {
            let trimmed = str_trim(value);
            match parse_ymd(trimmed) {
                Ok(day) => Ok(day),
                Err(error) => {
                    let head = concat(trimmed, " (");
                    let head = concat(head.as_str(), error.as_str());
                    Err(AiReportError::InvalidDate(concat(head.as_str(), ")")))
                },
            }
        },
        None => {
            let now = utc_now();
            let day = utc_day_of(now.0);
            assert(in_utc_range(now.0 as int));
            Ok(day)
        },
    }
}

/// The days a report covers and the days it is compared with, as day
/// numbers; the end days are exclusive.
#[derive(Debug, Clone, PartialEq, Eq)]
pub struct ReportWindow {
    pub period: ReportPeriod,
    pub start_day: i64,
    pub end_day_exclusive: i64,
    pub previous_start_day: i64,
    pub previous_end_day_exclusive: i64,
}

/// The text of a day: `YYYY-MM-DD`.
pub open spec fn day_text(day: int) -> Seq<char> {
    utc_date_text(day * 86400)
}

/// A daily report covers its end day and compares it with the day before; a
/// weekly one covers the seven days up to its end day and compares them with
/// the seven before.
pub open spec fn report_days(report_type: ReportType, end: int) -> (int, int, int, int) {
    match report_type {
        ReportType::Daily => (end, end + 1, end - 1, end),
        ReportType::Weekly => (end - 6, end + 1, end - 13, end - 6),
    }
}

/// The window of a report ending on day `end_day`.
pub fn build_report_window(report_type: &ReportType, end_day: i64) -> (r: ReportWindow)
    requires
        in_utc_range((end_day - 13) * 86400),
        in_utc_range((end_day + 1) * 86400),
    ensures
        (r.start_day as int, r.end_day_exclusive as int, r.previous_start_day as int, r.previous_end_day_exclusive as int)
            == report_days(*report_type, end_day as int),
        r.period.start@ == day_text(r.start_day as int),
        r.period.end@ == day_text(end_day as int),
{
    let (start_day, end_day_exclusive, previous_start_day, previous_end_day_exclusive) = match report_type {
        ReportType::Daily => (end_day, end_day + 1, end_day - 1, end_day),
        ReportType::Weekly => (end_day - 6, end_day + 1, end_day - 13, end_day - 6),
    };
    ReportWindow {
        period: ReportPeriod { start: format_utc_date(start_day * 86400), end: format_utc_date(end_day * 86400) },
        start_day,
        end_day_exclusive,
        previous_start_day,
        previous_end_day_exclusive,
    }
}

/// The start of a day as the traffic tables write it.
pub open spec fn day_start_text(day: int) -> Seq<char> {
    day_text(day) + "T00:00:00Z"@
}

/// The start of a day as the traffic tables write it: `YYYY-MM-DDT00:00:00Z`.
pub fn format_utc_day_start(day: i64) -> (r: String)
    requires
        in_utc_range(day * 86400),
    ensures
        r@ == day_start_text(day as int),
{
    concat(format_utc_date(day * 86400).as_str(), "T00:00:00Z")
}

/// Traffic of one day as the daily table holds it; `time` is the start of
/// the day.
#[derive(Debug, PartialEq, Eq)]
pub struct DailyTrafficTotalRow {
    pub time: String,
    pub upload: i64,
    pub download: i64,
    pub conn_count: i64,
}

impl Clone for DailyTrafficTotalRow {
    fn clone(&self) -> (r: Self)
        ensures
            r == *self,
    {
        DailyTrafficTotalRow { time: self.time.clone(), upload: self.upload, download: self.download, conn_count: self.conn_count }
    }
}

impl Keyed for DailyTrafficTotalRow {
    open spec fn key(&self) -> Seq<char> {
        self.time@
    }

    fn key_str(&self) -> (r: &str) {
        self.time.as_str()
    }
}

/// Whether `r` holds one trend point per day of `window`, in order, from the
/// daily rows `points`; a day without a row has zero traffic, and where rows
/// share a day, the last one counts.
pub open spec fn daily_trend_of(r: Seq<ReportDailyTrendPoint>, window: ReportWindow, points: Seq<DailyTrafficTotalRow>) -> bool {
    &&& r.len() == if window.end_day_exclusive > window.start_day { window.end_day_exclusive - window.start_day } else { 0 }
    &&& forall|k: int| 0 <= k < r.len() ==> {
        let day = window.start_day + k;
        let m = crate::table::as_map(points);
        let key = day_start_text(day);
        &&& (#[trigger] r[k]).date@ == day_text(day)
        &&& m.contains_key(key) ==> r[k].upload == m[key].upload && r[k].download == m[key].download
            && r[k].conn_count == m[key].conn_count && r[k].total_traffic == m[key].upload + m[key].download
        &&& !m.contains_key(key) ==> r[k].upload == 0 && r[k].download == 0 && r[k].conn_count == 0
            && r[k].total_traffic == 0
    }
}

/// Whether every row's traffic fits in an `i64`.
pub open spec fn daily_rows_fit(points: Seq<DailyTrafficTotalRow>) -> bool {
    forall|i: int| 0 <= i < points.len() ==> i64::MIN <= (#[trigger] points[i]).upload + points[i].download <= i64::MAX
}

/// One trend point per day of the window, in order; a day without a row has
/// zero traffic. Where rows share a day, the last one counts.
pub fn build_report_daily_trend(window: &ReportWindow, points: Vec<DailyTrafficTotalRow>) -> (r: Vec<ReportDailyTrendPoint>)
    requires
        in_utc_range(window.start_day * 86400),
        in_utc_range(window.end_day_exclusive * 86400),
        forall|i: int| 0 <= i < points@.len() ==> i64::MIN <= (#[trigger] points@[i]).upload + points@[i].download <= i64::MAX,
    ensures
        daily_trend_of(r@, *window, points@),
{
    let ghost pts = points@;
    let mut table: KeyedTable<DailyTrafficTotalRow> = KeyedTable::new();
    let mut i: usize = 0;
    while i < points.len()
        invariant
            i <= points@.len(),
            pts == points@,
            table.wf(),
            table.map() == crate::table::as_map(points@.take(i as int)),
            forall|k: Seq<char>| #[trigger] table.map().contains_key(k) ==> exists|j: int| 0 <= j < i && table.map()[k] == #[trigger] points@[j],
        decreases points@.len() - i,
    {
        proof {
            assert(points@.take(i + 1).drop_last() =~= points@.take(i as int));
            assert(points@.take(i + 1).last() == points@[i as int]);
        }
        table.insert(points[i].clone());
        proof {
            assert forall|k: Seq<char>| #[trigger] table.map().contains_key(k) implies exists|j: int| 0 <= j < i + 1 && table.map()[k] == #[trigger] points@[j] by {
                if k != points@[i as int].key() {
                    let j = choose|j: int| 0 <= j < i && crate::table::as_map(points@.take(i as int))[k] == #[trigger] points@[j];
                } else {
                    assert(table.map()[k] == points@[i as int]);
                }
            }
        }
        i = i + 1;
    }
    proof {
        assert(points@.take(points@.len() as int) =~= points@);
    }
    let mut rows: Vec<ReportDailyTrendPoint> = Vec::new();
    let mut cursor = window.start_day;
    while cursor < window.end_day_exclusive
        invariant
            window.start_day <= cursor || window.end_day_exclusive <= window.start_day,
            cursor <= window.end_day_exclusive || window.end_day_exclusive <= window.start_day,
            window.end_day_exclusive > window.start_day ==> rows@.len() == cursor - window.start_day,
            window.end_day_exclusive <= window.start_day ==> rows@.len() == 0 && cursor == window.start_day,
            in_utc_range(window.start_day * 86400),
            in_utc_range(window.end_day_exclusive * 86400),
            table.wf(),
            table.map() == crate::table::as_map(pts),
            forall|k: Seq<char>| #[trigger] table.map().contains_key(k) ==> exists|j: int| 0 <= j < pts.len() && table.map()[k] == #[trigger] pts[j],
            forall|j: int| 0 <= j < pts.len() ==> i64::MIN <= (#[trigger] pts[j]).upload + pts[j].download <= i64::MAX,
            forall|k: int| 0 <= k < rows@.len() ==> {
                let day = window.start_day + k;
                let m = crate::table::as_map(pts);
                let key = day_start_text(day);
                &&& (#[trigger] rows@[k]).date@ == day_text(day)
                &&& m.contains_key(key) ==> rows@[k].upload == m[key].upload && rows@[k].download == m[key].download
                    && rows@[k].conn_count == m[key].conn_count && rows@[k].total_traffic == m[key].upload + m[key].download
                &&& !m.contains_key(key) ==> rows@[k].upload == 0 && rows@[k].download == 0 && rows@[k].conn_count == 0
                    && rows@[k].total_traffic == 0
            },
        decreases window.end_day_exclusive - cursor,
    {
        let key = format_utc_day_start(cursor);
        let date = format_utc_date(cursor * 86400);
        let row = match table.get(key.as_str()) {
            Some(point) => {
                proof {
                    let j = choose|j: int| 0 <= j < pts.len() && table.map()[key@] == #[trigger] pts[j];
                }
                ReportDailyTrendPoint {
                    date,
                    upload: point.upload,
                    download: point.download,
                    total_traffic: point.upload + point.download,
                    conn_count: point.conn_count,
                }
            },
            None => ReportDailyTrendPoint { date, upload: 0, download: 0, total_traffic: 0, conn_count: 0 },
        };
        rows.push(row);
        cursor = cursor + 1;
    }
    rows
}

/// Traffic of one time bucket as the traffic tables hold it.
#[derive(Debug, Clone, PartialEq, Eq)]
pub struct TrafficBucketRow {
    pub time: String,
    pub upload: i64,
    pub download: i64,
    pub conn_count: i64,
}

/// `a` is busier than `b`: more traffic, then more connections, then the
/// later bucket text.
pub open spec fn busier(a: TrafficBucketRow, b: TrafficBucketRow) -> bool {
    let ta = a.upload + a.download;
    let tb = b.upload + b.download;
    ta > tb || (ta == tb && (a.conn_count > b.conn_count || (a.conn_count == b.conn_count && text_lt(b.time@, a.time@))))
}

/// Whether `r` names the bucket of `points` with the most traffic (then the
/// most connections, then the latest text); none for no buckets.
pub open spec fn peak_of(r: Option<String>, points: Seq<TrafficBucketRow>) -> bool {
    &&& points.len() == 0 ==> r is None
    &&& points.len() > 0 ==> exists|i: int| 0 <= i < points.len() && (r matches Some(t) && t@ == (#[trigger] points[i]).time@)
        && forall|j: int| 0 <= j < points.len() ==> !busier(#[trigger] points[j], points[i])
}

/// Whether every bucket's traffic fits in an `i64`.
pub open spec fn bucket_rows_fit(points: Seq<TrafficBucketRow>) -> bool {
    forall|i: int| 0 <= i < points.len() ==> i64::MIN <= (#[trigger] points[i]).upload + points[i].download <= i64::MAX
}

/// The bucket with the most traffic (then the most connections, then the
/// latest text); none for no buckets.
pub fn peak_hour_label(points: &Vec<TrafficBucketRow>) -> (r: Option<String>)
    requires
        forall|i: int| 0 <= i < points@.len() ==> i64::MIN <= (#[trigger] points@[i]).upload + points@[i].download <= i64::MAX,
    ensures
        peak_of(r, points@),
{
    if points.len() == 0 {
        return None;
    }
    let mut best: usize = 0;
    let mut i: usize = 1;
    proof {
        lemma_busier_order(points@[0], points@[0], points@[0]);
    }
    while i < points.len()
        invariant
            1 <= i <= points@.len(),
            best < i,
            forall|j: int| 0 <= j < points@.len() ==> i64::MIN <= (#[trigger] points@[j]).upload + points@[j].download <= i64::MAX,
            forall|j: int| 0 <= j < i ==> !busier(#[trigger] points@[j], points@[best as int]),
        decreases points@.len() - i,
    {
        let a = &points[i];
        let b = &points[best];
        let ta = a.upload + a.download;
        let tb = b.upload + b.download;
        let a_busier = ta > tb || (ta == tb && (a.conn_count > b.conn_count || (a.conn_count == b.conn_count && text_less(
            b.time.as_str(),
            a.time.as_str(),
        ))));
        if a_busier {
            proof {
                assert forall|j: int| 0 <= j < i + 1 implies !busier(#[trigger] points@[j], points@[i as int]) by {
                    if j < i {
                        lemma_busier_order(points@[j], points@[best as int], points@[i as int]);
                    } else {
                        lemma_busier_order(points@[j], points@[j], points@[j]);
                    }
                }
            }
            best = i;
        } else {
            proof {
                assert(!busier(points@[i as int], points@[best as int]));
            }
        }
        i = i + 1;
    }
    Some(points[best].time.clone())
}

proof fn lemma_busier_order(a: TrafficBucketRow, b: TrafficBucketRow, c: TrafficBucketRow)
    ensures
        !busier(a, a),
        !busier(a, b) && busier(c, b) ==> !busier(a, c),
{
    lemma_text_order(a.time@, b.time@, c.time@);
    lemma_text_order(b.time@, a.time@, c.time@);
    lemma_text_order(c.time@, b.time@, a.time@);
    lemma_text_order(a.time@, c.time@, b.time@);
    lemma_text_order(b.time@, c.time@, a.time@);
    lemma_text_order(c.time@, a.time@, b.time@);
}

/// The queries a report needs beyond the totals: how many domains and rules
/// it ranks, the hourly range it looks for its peak hour in (a daily report
/// only), and whether it needs daily totals for a trend (a weekly one only).
#[derive(Debug)]
pub struct ReportQueries {
    pub top_n: i32,
    pub hourly_range: Option<(String, String)>,
    pub daily_totals: bool,
}

/// What a report of `report_type` over `window` asks the database for.
pub fn plan_report_queries(report_type: &ReportType, window: &ReportWindow) -> (r: ReportQueries)
    requires
        in_utc_range(window.start_day * 86400),
        in_utc_range(window.end_day_exclusive * 86400),
    ensures
        *report_type == ReportType::Daily ==> r.top_n == 5 && !r.daily_totals && (r.hourly_range matches Some((s, e))
            && s@ == day_start_text(window.start_day as int) && e@ == day_start_text(window.end_day_exclusive as int)),
        *report_type == ReportType::Weekly ==> r.top_n == 10 && r.hourly_range is None && r.daily_totals,
{
    let top_n = report_type.max_top_n_count();
    match report_type {
        ReportType::Daily => ReportQueries {
            top_n,
            hourly_range: Some((format_utc_day_start(window.start_day), format_utc_day_start(window.end_day_exclusive))),
            daily_totals: false,
        },
        ReportType::Weekly => ReportQueries { top_n, hourly_range: None, daily_totals: true },
    }
}

/// The parts of a report that depend on its type: a daily report carries its
/// peak hour, from the hourly rows, and no trend; a weekly one carries the
/// trend of its seven days, from the daily rows, and no peak hour. The rows
/// a report type does not use are ignored.
pub fn report_extras(report_type: &ReportType, window: &ReportWindow, hourly: Vec<TrafficBucketRow>, daily: Vec<DailyTrafficTotalRow>) -> (r: (Option<String>, Option<Vec<ReportDailyTrendPoint>>))
    requires
        in_utc_range(window.start_day * 86400),
        in_utc_range(window.end_day_exclusive * 86400),
        *report_type == ReportType::Daily ==> bucket_rows_fit(hourly@),
        *report_type == ReportType::Weekly ==> daily_rows_fit(daily@),
    ensures
        *report_type == ReportType::Daily ==> peak_of(r.0, hourly@) && r.1 is None,
        *report_type == ReportType::Weekly ==> r.0 is None && (r.1 matches Some(t) && daily_trend_of(t@, *window, daily@)),
{
    match report_type {
        ReportType::Daily => (peak_hour_label(&hourly), None),
        ReportType::Weekly => (None, Some(build_report_daily_trend(window, daily))),
    }
}


/// Every report window ends the day after its end day, and is compared with
/// the window of the same length that ends where it starts: one day for a
/// daily report, seven for a weekly one.
pub proof fn lemma_comparison_window_precedes(report_type: ReportType, end: int)
    ensures
        ({
            let (start, end_excl, prev_start, prev_end_excl) = report_days(report_type, end);
            &&& end_excl == end + 1
            &&& prev_end_excl == start
            &&& end_excl - start == prev_end_excl - prev_start
            &&& report_type == ReportType::Daily ==> end_excl - start == 1
            &&& report_type == ReportType::Weekly ==> end_excl - start == 7
        }),
{
}

} // verus!
