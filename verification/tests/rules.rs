use std::time::{Duration, Instant};

use clashmind::ai::{
    model_catalog_settings, non_empty_string, validate_provider_request, AiChatRole, AiProviderKind, AiReportError,
    AiSettingsError, ReportType,
};
use clashmind::db::{
    compute_p95_delay, db_size_bytes, normalize_delay_ms, normalize_node_name, retention_modifier,
    validate_minutes, validate_time_range_minutes, DbError, DiagnosisError,
};
use clashmind::geo::{
    default_mihomo_config_dir, expand_command_home, expand_home, is_public_ip, is_recent_gap, retain_recent_ip_api_failures,
    select_online_lookup_candidates_from_failures, GeoIpConfigState, IpAddress, IpApiFailure,
};
use clashmind::proxy::{system_proxy_settings, MihomoEndpoint, SysproxyError};
use clashmind::document::ConfigValue;
use clashmind::sidecar::{
    ai_lifecycle_step, classify_stdout_line, classify_stdout_payload, decide_stdout_action, is_terminal_stream_event, parse_rpc_error, AiAction, AiEvent,
    AiSidecarError, AiSidecarPhase, PendingKind, ResponseBody, StdoutAction, StdoutMessage,
};
use clashmind::stats::{build_geo_stats, GeoTrafficRow, ResolvedCountry};
use clashmind::table::KeyedTable;

#[test]
fn openai_compatible_requires_base_url_but_not_api_key() {
    assert!(validate_provider_request(AiProviderKind::OpenaiCompatible, "llama3", "", "http://127.0.0.1:11434/v1").is_ok());
    assert!(matches!(
        validate_provider_request(AiProviderKind::OpenaiCompatible, "llama3", "", ""),
        Err(AiSettingsError::InvalidSettings(_))
    ));
    assert!(matches!(
        validate_provider_request(AiProviderKind::Openai, "gpt-4o-mini", "", ""),
        Err(AiSettingsError::InvalidSettings(_))
    ));
    assert!(validate_provider_request(AiProviderKind::Claude, "model-a", "key", "").is_ok());
    assert!(validate_provider_request(AiProviderKind::Gemini, "", "key", "").is_err());
}

#[test]
fn provider_defaults_and_roles() {
    assert!(AiProviderKind::Gemini.requires_api_key());
    assert!(!AiProviderKind::OpenaiCompatible.requires_api_key());
    assert!(AiProviderKind::OpenaiCompatible.requires_base_url());
    assert!(!AiProviderKind::Claude.requires_base_url());
    assert_eq!(AiChatRole::User.as_str(), "user");
    assert_eq!(AiChatRole::Assistant.as_str(), "assistant");
    assert_eq!(AiChatRole::System.as_str(), "system");
    assert_eq!(ReportType::Daily.max_top_n_count(), 5);
    assert_eq!(ReportType::Weekly.max_top_n_count(), 10);
}

#[test]
fn model_catalog_settings_drop_empty_values() {
    let settings = model_catalog_settings(AiProviderKind::Openai, "sk-test", "");
    assert_eq!(settings.api_key.as_deref(), Some("sk-test"));
    assert_eq!(settings.base_url, None);
    assert_eq!(non_empty_string(""), None);
    assert_eq!(non_empty_string(" ").as_deref(), Some(" "));
}

#[test]
fn report_error_messages() {
    let error = AiReportError::InvalidDate("2026-13-01".into());
    assert_eq!(error.to_string(), "报告日期无效: 2026-13-01");
    let error = AiReportError::Database(DbError::QueryFailed("x".into()));
    assert_eq!(error.to_string(), "数据库查询失败: x");
}

#[test]
fn retention_modifier_formats_days_and_rejects_negative() {
    assert_eq!(retention_modifier(30).ok().as_deref(), Some("-30 days"));
    assert_eq!(retention_modifier(0).ok().as_deref(), Some("-0 days"));
    assert!(matches!(retention_modifier(-1), Err(DbError::InvalidTimeWindow(_))));
}

#[test]
fn window_validators_accept_positive_values_only() {
    assert_eq!(validate_minutes(15).ok(), Some(15));
    assert!(matches!(validate_minutes(0), Err(DbError::InvalidTimeWindow(_))));
    assert_eq!(validate_time_range_minutes(30).ok(), Some(30));
    assert!(matches!(validate_time_range_minutes(-5), Err(DiagnosisError::InvalidTimeRange(_))));
}

#[test]
fn node_health_inputs_are_normalized() {
    assert_eq!(normalize_node_name("  Proxy-A ").ok().as_deref(), Some("Proxy-A"));
    assert!(matches!(normalize_node_name("   "), Err(DbError::WriteFailed(_))));
    assert_eq!(normalize_delay_ms(Some(120)).ok(), Some(Some(120)));
    assert_eq!(normalize_delay_ms(None).ok(), Some(None));
    assert!(matches!(normalize_delay_ms(Some(-1)), Err(DbError::WriteFailed(_))));
}

#[test]
fn p95_uses_nearest_rank() {
    assert_eq!(compute_p95_delay(&[]), None);
    assert_eq!(compute_p95_delay(&[7]), Some(7));
    let delays: Vec<i32> = (1..=20).collect();
    assert_eq!(compute_p95_delay(&delays), Some(19));
    let delays: Vec<i32> = (1..=100).collect();
    assert_eq!(compute_p95_delay(&delays), Some(95));
    let delays: Vec<i32> = (1..=101).collect();
    assert_eq!(compute_p95_delay(&delays), Some(96));
}

#[test]
fn db_size_multiplies_or_reports_overflow() {
    assert_eq!(db_size_bytes(10, 4096).ok(), Some(40960));
    assert!(matches!(db_size_bytes(i64::MAX, 2), Err(DbError::QueryFailed(_))));
    assert_eq!(DbError::NotLoaded("sqlite:x.db".into()).to_string(), "数据库未加载: sqlite:x.db");
}

fn geo(ip: &str, code: Option<&str>, country: Option<&str>) -> ResolvedCountry {
    ResolvedCountry { ip: ip.into(), country_code: code.map(Into::into), country: country.map(Into::into) }
}

fn row(ip: &str, conn_count: i64, total_traffic: i64) -> GeoTrafficRow {
    GeoTrafficRow { dst_ip: ip.into(), conn_count, total_traffic }
}

#[test]
fn geo_stats_merge_by_country_and_sort_by_traffic() {
    let mut resolved = KeyedTable::new();
    resolved.insert(geo("1.1.1.1", Some("AU"), Some("Australia")));
    resolved.insert(geo("1.0.0.1", Some("AU"), Some("Oz")));
    resolved.insert(geo("8.8.8.8", Some("US"), None));
    resolved.insert(geo("9.9.9.9", None, Some("Nowhere")));
    let rows = vec![
        row("1.1.1.1", 2, 100),
        row("8.8.8.8", 5, 300),
        row("1.0.0.1", 1, 50),
        row("9.9.9.9", 9, 900),
        row("7.7.7.7", 9, 900),
    ];

    let stats = build_geo_stats(&rows, &resolved);

    assert_eq!(stats.len(), 2);
    assert_eq!(stats[0].country_code, "US");
    assert_eq!(stats[0].country, "US");
    assert_eq!(stats[0].total_traffic, 300);
    assert_eq!(stats[1].country_code, "AU");
    assert_eq!(stats[1].country, "Australia");
    assert_eq!(stats[1].conn_count, 3);
    assert_eq!(stats[1].total_traffic, 150);
}

#[test]
fn geo_stats_break_ties_by_connections_then_name() {
    let mut resolved = KeyedTable::new();
    resolved.insert(geo("a", Some("BB"), Some("Beta")));
    resolved.insert(geo("b", Some("AA"), Some("Alpha")));
    resolved.insert(geo("c", Some("CC"), Some("Gamma")));
    let rows = vec![row("a", 1, 10), row("b", 1, 10), row("c", 2, 10)];
    let stats = build_geo_stats(&rows, &resolved);
    let codes: Vec<&str> = stats.iter().map(|s| s.country_code.as_str()).collect();
    assert_eq!(codes, vec!["CC", "AA", "BB"]);
}

#[test]
fn config_dir_state_holds_and_replaces_directory() {
    let mut state = GeoIpConfigState::new(default_mihomo_config_dir());
    assert_eq!(state.config_dir(), "~/.config/mihomo");
    state.set_config_dir("/etc/mihomo".to_string());
    assert_eq!(state.config_dir(), "/etc/mihomo");
}

#[test]
fn expand_home_replaces_leading_tilde_only() {
    assert_eq!(expand_home("~/.config/mihomo", Some("/home/me")), "/home/me/.config/mihomo");
    assert_eq!(expand_home("~", Some("/home/me")), "/home/me");
    assert_eq!(expand_home("/etc/~", Some("/home/me")), "/etc/~");
    assert_eq!(expand_home("~/x", None), "~/x");
}

#[test]
fn public_ip_rules_follow_std_classification() {
    assert!(is_public_ip(&IpAddress::V4(1, 1, 1, 1)));
    assert!(!is_public_ip(&IpAddress::V4(10, 0, 0, 1)));
    assert!(!is_public_ip(&IpAddress::V4(172, 20, 0, 1)));
    assert!(is_public_ip(&IpAddress::V4(172, 32, 0, 1)));
    assert!(!is_public_ip(&IpAddress::V4(192, 168, 1, 1)));
    assert!(!is_public_ip(&IpAddress::V4(127, 0, 0, 1)));
    assert!(!is_public_ip(&IpAddress::V4(169, 254, 1, 1)));
    assert!(!is_public_ip(&IpAddress::V4(255, 255, 255, 255)));
    assert!(!is_public_ip(&IpAddress::V4(203, 0, 113, 7)));
    assert!(!is_public_ip(&IpAddress::V4(0, 0, 0, 0)));
    assert!(!is_public_ip(&IpAddress::V4(224, 0, 0, 1)));
    assert!(is_public_ip(&IpAddress::V6(0x2606, 0x4700, 0, 0, 0, 0, 0, 0x1111)));
    assert!(!is_public_ip(&IpAddress::V6(0, 0, 0, 0, 0, 0, 0, 1)));
    assert!(!is_public_ip(&IpAddress::V6(0xfd00, 0, 0, 0, 0, 0, 0, 1)));
    assert!(!is_public_ip(&IpAddress::V6(0xfe80, 0, 0, 0, 0, 0, 0, 1)));
    assert!(!is_public_ip(&IpAddress::V6(0xff02, 0, 0, 0, 0, 0, 0, 1)));
    assert!(!is_public_ip(&IpAddress::V6(0, 0, 0, 0, 0, 0, 0, 0)));
}

#[test]
fn select_online_lookup_candidates_skips_recent_failures_and_preserves_order() {
    let now = Instant::now();
    let mut failures = KeyedTable::new();
    failures.insert(IpApiFailure { ip: "1.1.1.1".to_string(), failed_at: now });
    failures.insert(IpApiFailure { ip: "8.8.8.8".to_string(), failed_at: now });

    let candidates = select_online_lookup_candidates_from_failures(
        vec![
            ("1.1.1.1".to_string(), IpAddress::V4(1, 1, 1, 1)),
            ("8.8.8.8".to_string(), IpAddress::V4(8, 8, 8, 8)),
            ("9.9.9.9".to_string(), IpAddress::V4(9, 9, 9, 9)),
            ("1.0.0.1".to_string(), IpAddress::V4(1, 0, 0, 1)),
        ],
        &failures,
        2,
    );

    assert_eq!(candidates.len(), 2);
    assert_eq!(candidates[0].0, "9.9.9.9");
    assert_eq!(candidates[1].0, "1.0.0.1");
}

#[test]
fn retain_recent_ip_api_failures_drops_expired_entries() {
    let now = Instant::now();
    let expired_failure = now - Duration::from_secs(15 * 60) - Duration::from_secs(1);
    let mut failures = KeyedTable::new();
    failures.insert(IpApiFailure { ip: "1.1.1.1".to_string(), failed_at: expired_failure });
    failures.insert(IpApiFailure { ip: "8.8.8.8".to_string(), failed_at: now });

    retain_recent_ip_api_failures(&mut failures, &now);

    assert!(!failures.contains_key("1.1.1.1"));
    assert!(failures.contains_key("8.8.8.8"));
    assert!(is_recent_gap(None));
    assert!(!is_recent_gap(Some(900_000_000_000)));
}

#[test]
fn endpoint_builds_urls_and_authorization() {
    let mut endpoint = MihomoEndpoint::new("http://127.0.0.1:9090//", "");
    assert_eq!(endpoint.url("/proxies"), "http://127.0.0.1:9090/proxies");
    assert_eq!(endpoint.authorization(), None);
    endpoint.update_connection("http://host:1/", "s3");
    assert_eq!(endpoint.url("/version"), "http://host:1/version");
    assert_eq!(endpoint.authorization().as_deref(), Some("Bearer s3"));
}

#[test]
fn system_proxy_settings_point_at_local_port_or_clear() {
    let on = system_proxy_settings(true, "127.0.0.1", 7890);
    assert!(on.enable);
    assert_eq!(on.host, "127.0.0.1");
    assert_eq!(on.port, 7890);
    assert_eq!(on.bypass, "localhost,127.0.0.1");
    let off = system_proxy_settings(false, "127.0.0.1", 7890);
    assert!(!off.enable);
    assert_eq!(off.host, "");
    assert_eq!(off.port, 0);
    assert_eq!(off.bypass, "");
    assert_eq!(SysproxyError::GetFailed("denied".into()).to_string(), "获取系统代理失败: denied");
}

#[test]
fn rpc_errors_and_stream_events() {
    let error = parse_rpc_error(None, None);
    assert_eq!(error, AiSidecarError::Rpc { code: -32603, message: "unknown rpc error".into() });
    assert_eq!(error.to_string(), "ai-service RPC 错误(-32603): unknown rpc error");
    assert!(is_terminal_stream_event(Some("done")));
    assert!(is_terminal_stream_event(Some("error")));
    assert!(!is_terminal_stream_event(Some("delta")));
    assert!(!is_terminal_stream_event(None));
}

#[test]
fn stdout_lines_are_routed_by_kind_and_pending_request() {
    let ready = decide_stdout_action(&StdoutMessage::Ready, None);
    assert_eq!(ready, StdoutAction::SignalReady);
    let response = StdoutMessage::Response { id: "7".into(), body: ResponseBody::Result { terminal: false } };
    assert_eq!(decide_stdout_action(&response, None), StdoutAction::UnknownRequest);
    assert_eq!(decide_stdout_action(&response, Some(PendingKind::Unary)), StdoutAction::ReplyResult);
    assert_eq!(
        decide_stdout_action(&response, Some(PendingKind::Stream)),
        StdoutAction::EmitStream { keep_pending: true }
    );
    let done = StdoutMessage::Response { id: "7".into(), body: ResponseBody::Result { terminal: true } };
    assert_eq!(decide_stdout_action(&done, Some(PendingKind::Stream)), StdoutAction::EmitStream { keep_pending: false });
    let missing = StdoutMessage::Response { id: "7".into(), body: ResponseBody::Missing };
    assert_eq!(
        decide_stdout_action(&missing, Some(PendingKind::Unary)),
        StdoutAction::ReplyError(AiSidecarError::InvalidResponse("missing result or error field".into()))
    );
    let failed = StdoutMessage::Response {
        id: "7".into(),
        body: ResponseBody::Error { code: Some(-32000), message: Some("boom".into()) },
    };
    assert_eq!(
        decide_stdout_action(&failed, Some(PendingKind::Stream)),
        StdoutAction::EmitStreamError(AiSidecarError::Rpc { code: -32000, message: "boom".into() })
    );
    assert_eq!(decide_stdout_action(&StdoutMessage::Notification, None), StdoutAction::Forward);
    assert_eq!(decide_stdout_action(&StdoutMessage::Invalid, None), StdoutAction::Ignore);
}

#[test]
fn stdout_reply_errors_carry_the_rpc_code_and_message() {
    let with_details = StdoutMessage::Response {
        id: "7".to_string(),
        body: ResponseBody::Error { code: Some(-32000), message: Some("quota".to_string()) },
    };
    assert_eq!(
        decide_stdout_action(&with_details, Some(PendingKind::Unary)),
        StdoutAction::ReplyError(AiSidecarError::Rpc { code: -32000, message: "quota".to_string() })
    );
    let bare = StdoutMessage::Response { id: "8".to_string(), body: ResponseBody::Error { code: None, message: None } };
    assert_eq!(
        decide_stdout_action(&bare, Some(PendingKind::Stream)),
        StdoutAction::EmitStreamError(AiSidecarError::Rpc { code: -32603, message: "unknown rpc error".to_string() })
    );
    let missing = StdoutMessage::Response { id: "9".to_string(), body: ResponseBody::Missing };
    assert_eq!(
        decide_stdout_action(&missing, Some(PendingKind::Stream)),
        StdoutAction::EmitStreamError(AiSidecarError::InvalidResponse("missing result or error field".to_string()))
    );
}

#[test]
fn assistant_errors_render_every_message() {
    assert_eq!(AiSidecarError::AlreadyRunning.to_string(), "ai-service 已在运行");
    assert_eq!(AiSidecarError::NotRunning.to_string(), "ai-service 未在运行");
    assert_eq!(AiSidecarError::SpawnFailed("x".to_string()).to_string(), "启动 ai-service 失败: x");
    assert_eq!(AiSidecarError::KillFailed("x".to_string()).to_string(), "停止 ai-service 失败: x");
    assert_eq!(AiSidecarError::WriteFailed("x".to_string()).to_string(), "向 ai-service 写入请求失败: x");
    assert_eq!(AiSidecarError::ReadyTimeout.to_string(), "等待 ai-service ready 超时");
    assert_eq!(AiSidecarError::ReadySignalDropped.to_string(), "ai-service 未发送 ready 消息");
    assert_eq!(AiSidecarError::ResponseTimeout.to_string(), "等待 ai-service 响应超时");
    assert_eq!(AiSidecarError::InvalidResponse("x".to_string()).to_string(), "ai-service 返回无效响应: x");
    assert_eq!(
        AiSidecarError::Rpc { code: -32603, message: "boom".to_string() }.to_string(),
        "ai-service RPC 错误(-32603): boom"
    );
    assert_eq!(AiSidecarError::ProcessExited("x".to_string()).to_string(), "ai-service 进程已退出: x");
    assert_eq!(AiSidecarError::RequestCancelled.to_string(), "ai-service 请求已取消");
}

#[test]
fn assistant_process_starts_once_and_waits_for_ready() {
    let (phase, action) = ai_lifecycle_step(AiSidecarPhase::Idle, AiEvent::StartRequested);
    assert_eq!(phase, AiSidecarPhase::Spawning);
    assert!(matches!(action, AiAction::Spawn));
    let (phase, action) = ai_lifecycle_step(phase, AiEvent::Spawned);
    assert_eq!(phase, AiSidecarPhase::AwaitingReady);
    assert!(matches!(action, AiAction::AwaitReady));
    let (again, action) = ai_lifecycle_step(phase, AiEvent::StartRequested);
    assert_eq!(again, AiSidecarPhase::AwaitingReady);
    assert!(matches!(action, AiAction::ReplyStart(Err(AiSidecarError::AlreadyRunning))));
    let (phase, action) = ai_lifecycle_step(phase, AiEvent::Ready);
    assert_eq!(phase, AiSidecarPhase::Running);
    assert!(matches!(action, AiAction::ReplyStart(Ok(()))));
    let (phase, action) = ai_lifecycle_step(AiSidecarPhase::Spawning, AiEvent::SpawnFailed("no binary".to_string()));
    assert_eq!(phase, AiSidecarPhase::Idle);
    assert!(matches!(action, AiAction::ReplyStart(Err(AiSidecarError::SpawnFailed(ref m))) if m == "no binary"));
}

#[test]
fn assistant_process_failures_end_the_start_and_pending_requests() {
    let (phase, action) = ai_lifecycle_step(AiSidecarPhase::AwaitingReady, AiEvent::ReadyTimedOut);
    assert_eq!(phase, AiSidecarPhase::Idle);
    assert!(matches!(action, AiAction::StopAndFailStart(AiSidecarError::ReadyTimeout)));
    let (_, action) = ai_lifecycle_step(AiSidecarPhase::AwaitingReady, AiEvent::ReadySignalDropped);
    assert!(matches!(action, AiAction::StopAndFailStart(AiSidecarError::ReadySignalDropped)));
    let (phase, action) = ai_lifecycle_step(AiSidecarPhase::AwaitingReady, AiEvent::ProcessExited("code=1".to_string()));
    assert_eq!(phase, AiSidecarPhase::Idle);
    match action {
        AiAction::FailPendingAndClear { pending_error, start_error } => {
            assert_eq!(pending_error, AiSidecarError::ProcessExited("code=1".to_string()));
            assert_eq!(start_error, Some(AiSidecarError::ProcessExited("code=1".to_string())));
        }
        _ => panic!("expected the pending requests to fail"),
    }
    let (phase, action) = ai_lifecycle_step(AiSidecarPhase::Running, AiEvent::OutputClosed);
    assert_eq!(phase, AiSidecarPhase::Idle);
    match action {
        AiAction::FailPendingAndClear { pending_error, start_error } => {
            assert_eq!(pending_error, AiSidecarError::ProcessExited("stdout channel closed".to_string()));
            assert_eq!(start_error, None);
        }
        _ => panic!("expected the pending requests to fail"),
    }
    let (phase, action) = ai_lifecycle_step(AiSidecarPhase::Idle, AiEvent::Ready);
    assert_eq!(phase, AiSidecarPhase::Idle);
    assert!(matches!(action, AiAction::Nothing));
}

fn obj(entries: Vec<(&str, ConfigValue)>) -> ConfigValue {
    ConfigValue::Object(entries.into_iter().map(|(k, v)| (k.to_string(), v)).collect())
}

fn txt(s: &str) -> ConfigValue {
    ConfigValue::Text(s.to_string())
}

fn num(s: &str) -> ConfigValue {
    ConfigValue::Number(s.to_string())
}

#[test]
fn stdout_payloads_are_classified_like_the_reader_does() {
    assert_eq!(classify_stdout_payload(None), StdoutMessage::Invalid);
    assert_eq!(classify_stdout_payload(Some(obj(vec![("method", txt("ready"))]))), StdoutMessage::Ready);
    assert_eq!(
        classify_stdout_payload(Some(obj(vec![("method", txt("progress"))]))),
        StdoutMessage::Notification
    );
    assert_eq!(classify_stdout_payload(Some(txt("hello"))), StdoutMessage::Notification);
    assert_eq!(
        classify_stdout_payload(Some(obj(vec![("id", num("12")), ("result", obj(vec![("type", txt("delta"))]))]))),
        StdoutMessage::Response { id: "12".to_string(), body: ResponseBody::Result { terminal: false } }
    );
    assert_eq!(
        classify_stdout_payload(Some(obj(vec![("id", txt("a")), ("result", obj(vec![("type", txt("done"))]))]))),
        StdoutMessage::Response { id: "a".to_string(), body: ResponseBody::Result { terminal: true } }
    );
    assert_eq!(
        classify_stdout_payload(Some(obj(vec![
            ("id", txt("b")),
            ("error", obj(vec![("code", num("-32001")), ("message", txt("limit"))])),
            ("result", txt("ignored")),
        ]))),
        StdoutMessage::Response {
            id: "b".to_string(),
            body: ResponseBody::Error { code: Some(-32001), message: Some("limit".to_string()) }
        }
    );
    assert_eq!(
        classify_stdout_payload(Some(obj(vec![("id", txt("c")), ("error", obj(vec![("code", num("1.5"))]))]))),
        StdoutMessage::Response { id: "c".to_string(), body: ResponseBody::Error { code: None, message: None } }
    );
    assert_eq!(
        classify_stdout_payload(Some(obj(vec![("id", txt("d"))]))),
        StdoutMessage::Response { id: "d".to_string(), body: ResponseBody::Missing }
    );
    assert_eq!(classify_stdout_payload(Some(obj(vec![("id", ConfigValue::Bool(true))]))), StdoutMessage::Notification);
}

#[test]
fn raw_stdout_lines_are_read_as_json_then_classified() {
    assert_eq!(classify_stdout_line(b"not json"), StdoutMessage::Invalid);
    assert_eq!(classify_stdout_line(br#"{"jsonrpc":"2.0","method":"ready"}"#), StdoutMessage::Ready);
    assert_eq!(
        classify_stdout_line(br#"{"id":7,"result":{"type":"error"}}"#),
        StdoutMessage::Response { id: "7".to_string(), body: ResponseBody::Result { terminal: true } }
    );
    assert_eq!(
        classify_stdout_line(br#"{"id":"x","error":{"code":-32602,"message":"bad params"}}"#),
        StdoutMessage::Response {
            id: "x".to_string(),
            body: ResponseBody::Error { code: Some(-32602), message: Some("bad params".to_string()) }
        }
    );
    assert_eq!(classify_stdout_line(br#"{"method":"progress","params":{}}"#), StdoutMessage::Notification);
}

#[test]
fn command_paths_expand_only_a_home_prefix() {
    assert_eq!(expand_command_home("/etc/config.yaml", Some("/home/me")), "/etc/config.yaml");
    assert_eq!(expand_command_home("~user/x", Some("/home/me")), "~user/x");
    assert_eq!(expand_command_home("~/x", None), "~/x");
    assert_eq!(expand_command_home("~", None), "~");
    if std::path::MAIN_SEPARATOR == '/' {
        assert_eq!(expand_command_home("~/.config/mihomo", Some("/home/me")), "/home/me/.config/mihomo");
        assert_eq!(expand_command_home("~/", Some("/home/me")), "/home/me/");
    }
}
