use clashmind::ai::{AiReportError, ReportType};
use clashmind::collector::CollectorError;
use clashmind::connect::{
    build_connections_ws_url, disconnect_message_from_close_frame, has_supported_scheme, next_retry_delay_secs,
    normalize_api_address, websocket_scheme,
};
use clashmind::db::DbError;
use clashmind::ingest::{parse_port, RawConnection, RawMetadata};
use clashmind::record::TrafficSampleInsert;
use clashmind::report::{
    plan_report_queries, report_extras, build_report_daily_trend, build_report_window, format_utc_day_start, parse_report_date, peak_hour_label, utc_day_of,
    DailyTrafficTotalRow, TrafficBucketRow,
};
use clashmind::window::{
    build_daily_window_for_samples, build_hourly_window_for_samples, comparison_windows_at, normalize_window,
    traffic_window_at, TrafficGranularity,
};

#[test]
fn build_connections_ws_url_supports_plain_addresses() {
    let result = build_connections_ws_url("127.0.0.1:9090", "secret token");

    assert!(result.is_ok());
    let Ok(url) = result else {
        panic!("expected a valid websocket url");
    };

    assert_eq!(url, "ws://127.0.0.1:9090/connections?token=secret+token");
}

#[test]
fn build_connections_ws_url_converts_https_to_wss() {
    let result = build_connections_ws_url("https://example.com/api", "");

    assert!(result.is_ok());
    let Ok(url) = result else {
        panic!("expected a valid websocket url");
    };

    assert_eq!(url, "wss://example.com/connections");
}

#[test]
fn build_connections_ws_url_rejects_blank_and_foreign_schemes() {
    assert!(matches!(build_connections_ws_url("   ", "x"), Err(CollectorError::InvalidApiAddress(_))));
    assert_eq!(build_connections_ws_url(" ws://h:1/x?y=1 ", " t ").ok().as_deref(), Some("ws://h:1/connections?token=t"));
}

#[test]
fn address_helpers() {
    assert!(has_supported_scheme("wss://a"));
    assert!(!has_supported_scheme("HTTP://a"));
    assert_eq!(normalize_api_address(" 10.0.0.1:9090 ").ok().as_deref(), Some("http://10.0.0.1:9090"));
    assert_eq!(websocket_scheme("https"), Some("wss"));
    assert_eq!(websocket_scheme("ws"), Some("ws"));
    assert_eq!(websocket_scheme("file"), None);
    assert_eq!(next_retry_delay_secs(1), 2);
    assert_eq!(next_retry_delay_secs(16), 30);
    assert_eq!(next_retry_delay_secs(30), 30);
}

#[test]
fn disconnect_message_from_close_frame_skips_expected_close_codes() {
    assert_eq!(disconnect_message_from_close_frame(Some((1000, "normal shutdown"))), None);
    assert_eq!(disconnect_message_from_close_frame(Some((1001, "server going away"))), None);
    assert_eq!(disconnect_message_from_close_frame(Some((1012, "restart"))), None);
}

#[test]
fn disconnect_message_describes_unexpected_closes() {
    assert_eq!(
        disconnect_message_from_close_frame(Some((1011, "internal error"))).as_deref(),
        Some("collector websocket closed: code=1011, reason=internal error")
    );
    assert_eq!(
        disconnect_message_from_close_frame(Some((1006, "  "))).as_deref(),
        Some("collector websocket closed: code=1006")
    );
    assert_eq!(
        disconnect_message_from_close_frame(None).as_deref(),
        Some("collector websocket closed without close frame")
    );
}

fn raw(rule_payload: Option<&str>, chains: Vec<&str>) -> RawConnection {
    RawConnection {
        id: "conn-1".into(),
        metadata: RawMetadata {
            host: "example.com".into(),
            destination_ip: Some("1.1.1.1".into()),
            destination_port: Some(" 443 ".into()),
            source_ip: None,
            source_port: Some("x".into()),
            network: "tcp".into(),
            conn_type: "HTTPS".into(),
        },
        upload: 5,
        download: 7,
        start: "2026-03-30T10:00:00Z".into(),
        chains: chains.into_iter().map(String::from).collect(),
        rule: "MATCH".into(),
        rule_payload: rule_payload.map(String::from),
    }
}

#[test]
fn raw_connection_becomes_a_record() {
    let record = raw(Some(""), vec!["Proxy-A", "Selector"]).into_record("2026-03-30T10:05:00Z").unwrap();
    assert_eq!(record.id, "conn-1");
    assert_eq!(record.dst_port, Some(443));
    assert_eq!(record.src_port, None);
    assert_eq!(record.rule_payload, None);
    assert_eq!(record.proxy_chain, "[\"Proxy-A\",\"Selector\"]");
    assert_eq!(record.last_observed_at.as_deref(), Some("2026-03-30T10:05:00Z"));

    let record = raw(Some("example.com"), vec![]).into_record("t").unwrap();
    assert_eq!(record.rule_payload.as_deref(), Some("example.com"));
    assert_eq!(record.proxy_chain, "[]");
}

#[test]
fn ports_parse_as_i32() {
    assert_eq!(parse_port(Some("+80")), Some(80));
    assert_eq!(parse_port(Some("-1")), Some(-1));
    assert_eq!(parse_port(Some("99999999999")), None);
    assert_eq!(parse_port(Some("")), None);
    assert_eq!(parse_port(None), None);
}

#[test]
fn normalize_window_renders_whole_seconds_and_orders() {
    let (from, to) = normalize_window("2026-03-30T10:00:00.500+08:00", "2026-03-30T03:00:00Z").unwrap();
    assert_eq!(from, "2026-03-30T02:00:00Z");
    assert_eq!(to, "2026-03-30T03:00:00Z");
    assert!(matches!(normalize_window("2026-03-30T03:00:00Z", "2026-03-30T03:00:00Z"), Err(DbError::InvalidTimeWindow(_))));
    assert!(matches!(normalize_window("yesterday", "2026-03-30T03:00:00Z"), Err(DbError::InvalidTimeWindow(_))));
}

fn sample(ts: &str) -> TrafficSampleInsert {
    TrafficSampleInsert { ts: ts.into(), upload: 1, download: 1, conn_count: 1 }
}

#[test]
fn sample_windows_cover_whole_buckets() {
    let samples = vec![sample("2026-03-30T10:15:00Z"), sample("2026-03-30T08:59:59Z"), sample("2026-03-31T00:30:00Z")];
    let hourly = build_hourly_window_for_samples(&samples).unwrap().unwrap();
    assert_eq!(hourly.from, "2026-03-30T08:00:00Z");
    assert_eq!(hourly.to, "2026-03-31T01:00:00Z");
    let daily = build_daily_window_for_samples(&samples).unwrap().unwrap();
    assert_eq!(daily.from, "2026-03-30T00:00:00Z");
    assert_eq!(daily.to, "2026-04-01T00:00:00Z");
    assert_eq!(build_hourly_window_for_samples(&vec![]).unwrap(), None);
    let bad = vec![sample("2026-03-30T10:15:00Z"), sample("nope")];
    assert!(matches!(build_daily_window_for_samples(&bad), Err(DbError::InvalidTimeWindow(_))));
}

#[test]
fn trend_and_comparison_windows() {
    let now = 1_774_865_700;
    let (start, end) = traffic_window_at(now, TrafficGranularity::Hourly, 7).unwrap();
    assert_eq!(end, "2026-03-30T11:00:00Z");
    assert_eq!(start, "2026-03-23T11:00:00Z");
    let (start, end) = traffic_window_at(now, TrafficGranularity::Daily, 1).unwrap();
    assert_eq!(end, "2026-03-31T00:00:00Z");
    assert_eq!(start, "2026-03-30T00:00:00Z");
    let (previous, current, end) = comparison_windows_at(now, 90).unwrap().unwrap();
    assert_eq!(end, "2026-03-30T10:00:00Z");
    assert_eq!(current, "2026-03-30T08:00:00Z");
    assert_eq!(previous, "2026-03-30T06:00:00Z");
    assert!(matches!(comparison_windows_at(now, 0), Err(DbError::InvalidTimeWindow(_))));
}

#[test]
fn weekly_report_window_uses_selected_end_date_as_period_end() {
    let end_date = parse_report_date(Some("2026-04-09"));
    assert!(end_date.is_ok());
    let Ok(end_date) = end_date else {
        panic!("date should be valid");
    };

    let window = build_report_window(&ReportType::Weekly, end_date);

    assert_eq!(window.period.start, "2026-04-03");
    assert_eq!(window.period.end, "2026-04-09");
    assert_eq!(format_utc_day_start(window.start_day), "2026-04-03T00:00:00Z");
    assert_eq!(format_utc_day_start(window.end_day_exclusive), "2026-04-10T00:00:00Z");
    assert_eq!(format_utc_day_start(window.previous_start_day), "2026-03-27T00:00:00Z");
    assert_eq!(format_utc_day_start(window.previous_end_day_exclusive), "2026-04-03T00:00:00Z");
}

#[test]
fn daily_report_window_and_bad_dates() {
    let day = parse_report_date(Some(" 2026-04-09 ")).unwrap();
    let window = build_report_window(&ReportType::Daily, day);
    assert_eq!(window.period.start, "2026-04-09");
    assert_eq!(window.end_day_exclusive - window.start_day, 1);
    assert_eq!(window.start_day - window.previous_start_day, 1);
    assert!(matches!(parse_report_date(Some("2026/04/09")), Err(AiReportError::InvalidDate(_))));
    assert!(parse_report_date(None).is_ok());
}

#[test]
fn daily_trend_fills_missing_days_with_zero() {
    let day = parse_report_date(Some("2026-04-09")).unwrap();
    let window = build_report_window(&ReportType::Weekly, day);
    let points = vec![
        DailyTrafficTotalRow { time: "2026-04-04T00:00:00Z".into(), upload: 1, download: 2, conn_count: 3 },
        DailyTrafficTotalRow { time: "2026-04-09T00:00:00Z".into(), upload: 10, download: 20, conn_count: 30 },
        DailyTrafficTotalRow { time: "2026-04-09T00:00:00Z".into(), upload: 11, download: 21, conn_count: 31 },
    ];
    let trend = build_report_daily_trend(&window, points);
    assert_eq!(trend.len(), 7);
    assert_eq!(trend[0].date, "2026-04-03");
    assert_eq!(trend[0].total_traffic, 0);
    assert_eq!(trend[1].date, "2026-04-04");
    assert_eq!(trend[1].total_traffic, 3);
    assert_eq!(trend[6].upload, 11);
    assert_eq!(trend[6].total_traffic, 32);
}

fn bucket(time: &str, upload: i64, download: i64, conn_count: i64) -> TrafficBucketRow {
    TrafficBucketRow { time: time.into(), upload, download, conn_count }
}

#[test]
fn peak_hour_prefers_traffic_then_connections_then_later_time() {
    assert_eq!(peak_hour_label(&vec![]), None);
    let points = vec![
        bucket("2026-04-09T01:00:00Z", 5, 5, 1),
        bucket("2026-04-09T02:00:00Z", 4, 6, 2),
        bucket("2026-04-09T00:00:00Z", 1, 1, 9),
    ];
    assert_eq!(peak_hour_label(&points).as_deref(), Some("2026-04-09T02:00:00Z"));
    let ties = vec![bucket("2026-04-09T01:00:00Z", 5, 5, 1), bucket("2026-04-09T03:00:00Z", 5, 5, 1)];
    assert_eq!(peak_hour_label(&ties).as_deref(), Some("2026-04-09T03:00:00Z"));
}

#[test]
fn report_parts_depend_on_the_report_type() {
    let daily_window = build_report_window(&ReportType::Daily, 20_542);
    let plan = plan_report_queries(&ReportType::Daily, &daily_window);
    assert_eq!(plan.top_n, 5);
    assert!(!plan.daily_totals);
    assert_eq!(
        plan.hourly_range,
        Some(("2026-03-30T00:00:00Z".to_string(), "2026-03-31T00:00:00Z".to_string()))
    );
    let hourly = vec![
        TrafficBucketRow { time: "2026-03-30T08:00:00Z".to_string(), upload: 1, download: 1, conn_count: 1 },
        TrafficBucketRow { time: "2026-03-30T09:00:00Z".to_string(), upload: 5, download: 5, conn_count: 1 },
    ];
    let (peak, trend) = report_extras(&ReportType::Daily, &daily_window, hourly, Vec::new());
    assert_eq!(peak, Some("2026-03-30T09:00:00Z".to_string()));
    assert!(trend.is_none());

    let weekly_window = build_report_window(&ReportType::Weekly, 20_542);
    let plan = plan_report_queries(&ReportType::Weekly, &weekly_window);
    assert_eq!(plan.top_n, 10);
    assert!(plan.daily_totals);
    assert!(plan.hourly_range.is_none());
    let hourly = vec![TrafficBucketRow { time: "x".to_string(), upload: 9, download: 9, conn_count: 9 }];
    let (peak, trend) = report_extras(&ReportType::Weekly, &weekly_window, hourly, Vec::new());
    assert!(peak.is_none());
    let trend = trend.expect("weekly trend");
    assert_eq!(trend.len(), 7);
    assert_eq!(trend[0].date, "2026-03-24");
    assert_eq!(trend[6].date, "2026-03-30");
    assert!(trend.iter().all(|p| p.total_traffic == 0));
}

#[test]
fn a_missing_report_date_is_today() {
    let today = parse_report_date(None).expect("today");
    let secs = std::time::SystemTime::now()
        .duration_since(std::time::UNIX_EPOCH)
        .expect("clock after 1970")
        .as_secs() as i64;
    assert!(today == secs / 86_400 || today + 1 == secs / 86_400);
    assert_eq!(utc_day_of(0), 0);
    assert_eq!(utc_day_of(86_399), 0);
    assert_eq!(utc_day_of(86_400), 1);
    assert_eq!(utc_day_of(-1), -1);
    assert_eq!(utc_day_of(-86_400), -1);
    assert_eq!(utc_day_of(-86_401), -2);
}
