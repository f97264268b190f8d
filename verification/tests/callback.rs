use clashmind::callback::{
    answer_config_from_file, answer_config_request, build_connectivity_summary, ConfigAnswer, ConfigFileOutcome,
    bounded_i32, connectivity_issues, delay_test_answer, extract_selected_groups, is_sensitive_config_key, normalize_config_key,
    parse_callback_method, recent_error_issues, resolve_domain_limit, resolve_window, unknown_callback, CallbackMethod,
    SelectedProxyGroup, REDACTED_VALUE,
};
use clashmind::document::{build_sanitized_config_response, redact_sensitive_config, ConfigValue};
use clashmind::sidecar::AiSidecarError;

fn text(s: &str) -> ConfigValue {
    ConfigValue::Text(s.to_string())
}

fn object(entries: Vec<(&str, ConfigValue)>) -> ConfigValue {
    ConfigValue::Object(entries.into_iter().map(|(k, v)| (k.to_string(), v)).collect())
}

fn field<'a>(value: &'a ConfigValue, key: &str) -> &'a ConfigValue {
    match value {
        ConfigValue::Object(entries) => &entries.iter().find(|(k, _)| k == key).expect("key present").1,
        _ => panic!("not an object"),
    }
}

fn item(value: &ConfigValue, index: usize) -> &ConfigValue {
    match value {
        ConfigValue::List(items) => &items[index],
        _ => panic!("not a list"),
    }
}

fn is_text(value: &ConfigValue, expected: &str) -> bool {
    matches!(value, ConfigValue::Text(t) if t == expected)
}

#[test]
fn redact_sensitive_config_masks_secret_fields_recursively() {
    let config = object(vec![
        ("mixed-port", ConfigValue::Number("7890".to_string())),
        ("secret", text("controller-token")),
        (
            "dns",
            object(vec![
                ("nameserver", ConfigValue::List(vec![text("1.1.1.1")])),
                ("token", text("dns-token")),
            ]),
        ),
        (
            "proxies",
            ConfigValue::List(vec![object(vec![
                ("name", text("vmess-node")),
                ("uuid", text("uuid-secret")),
                ("server", text("example.com")),
            ])]),
        ),
        (
            "tuic-server",
            object(vec![
                (
                    "users",
                    ConfigValue::List(vec![object(vec![
                        ("username", text("alice")),
                        ("password", text("secret-password")),
                    ])]),
                ),
                ("private-key", text("secret-key")),
            ]),
        ),
    ]);

    let redacted = redact_sensitive_config(config);

    assert!(matches!(field(&redacted, "mixed-port"), ConfigValue::Number(n) if n == "7890"));
    assert!(is_text(field(&redacted, "secret"), REDACTED_VALUE));
    assert!(is_text(field(field(&redacted, "dns"), "token"), REDACTED_VALUE));
    assert!(is_text(field(item(field(&redacted, "proxies"), 0), "uuid"), REDACTED_VALUE));
    assert!(is_text(field(field(&redacted, "tuic-server"), "users"), REDACTED_VALUE));
    assert!(is_text(field(field(&redacted, "tuic-server"), "private-key"), REDACTED_VALUE));
}

#[test]
fn redaction_keeps_harmless_values_and_order() {
    let config = object(vec![
        ("name", text("node")),
        ("enabled", ConfigValue::Bool(true)),
        ("extra", ConfigValue::Null),
        ("dns", object(vec![("nameserver", ConfigValue::List(vec![text("1.1.1.1"), text("8.8.8.8")]))])),
    ]);
    let redacted = redact_sensitive_config(config);
    match &redacted {
        ConfigValue::Object(entries) => {
            let keys: Vec<&str> = entries.iter().map(|(k, _)| k.as_str()).collect();
            assert_eq!(keys, vec!["name", "enabled", "extra", "dns"]);
        }
        _ => panic!("not an object"),
    }
    assert!(is_text(field(&redacted, "name"), "node"));
    assert!(matches!(field(&redacted, "enabled"), ConfigValue::Bool(true)));
    assert!(matches!(field(&redacted, "extra"), ConfigValue::Null));
    assert!(is_text(item(field(field(&redacted, "dns"), "nameserver"), 1), "8.8.8.8"));
}

#[test]
fn sanitized_config_response_wraps_redacted_config() {
    let response = build_sanitized_config_response("file", object(vec![("secret", text("s"))]));
    assert!(is_text(field(&response, "source"), "file"));
    assert!(matches!(field(&response, "sanitized"), ConfigValue::Bool(true)));
    assert!(is_text(field(field(&response, "config"), "secret"), REDACTED_VALUE));
}

#[test]
fn sensitive_keys_ignore_case_and_punctuation() {
    assert!(is_sensitive_config_key("private-key"));
    assert!(is_sensitive_config_key("Client_Secret"));
    assert!(is_sensitive_config_key("API-Key"));
    assert!(is_sensitive_config_key("auth-str"));
    assert!(!is_sensitive_config_key("mixed-port"));
    assert!(!is_sensitive_config_key("username"));
    assert!(!is_sensitive_config_key("secrets"));
    assert_eq!(normalize_config_key("Private-Key_2").into_iter().collect::<String>(), "privatekey2");
}

#[test]
fn callback_methods_parse_by_name() {
    assert_eq!(parse_callback_method("get_config"), Some(CallbackMethod::GetConfig));
    assert_eq!(parse_callback_method("run_full_diagnosis"), Some(CallbackMethod::RunFullDiagnosis));
    assert_eq!(parse_callback_method("get_recent_errors"), Some(CallbackMethod::GetRecentErrors));
    assert_eq!(parse_callback_method("Get_Config"), None);
    assert_eq!(parse_callback_method(""), None);
}

#[test]
fn unknown_callback_names_method_and_id() {
    let error = unknown_callback("drop_tables", "cb-7");
    assert_eq!(error, AiSidecarError::InvalidResponse("未知 callback 方法: drop_tables; callbackId=cb-7".to_string()));
}

#[test]
fn bounded_parameters_use_defaults_and_reject_out_of_range() {
    assert_eq!(bounded_i32(None, 7, 1, 365, "days"), Ok(7));
    assert_eq!(bounded_i32(Some(365), 7, 1, 365, "days"), Ok(365));
    assert_eq!(
        bounded_i32(Some(0), 7, 1, 365, "days"),
        Err(AiSidecarError::InvalidResponse("days 超出范围，期望 1..=365，收到 0".to_string()))
    );
    assert_eq!(
        bounded_i32(Some(-3), 30, 5, 1440, "timeRangeMinutes"),
        Err(AiSidecarError::InvalidResponse("timeRangeMinutes 超出范围，期望 5..=1440，收到 -3".to_string()))
    );
}

#[test]
fn windows_follow_each_method() {
    assert_eq!(resolve_window(CallbackMethod::GetStatsOverview, None), Ok(Some(7)));
    assert_eq!(resolve_window(CallbackMethod::GetRuleStats, None), Ok(Some(1)));
    assert_eq!(resolve_window(CallbackMethod::GetRecentErrors, None), Ok(Some(30)));
    assert_eq!(resolve_window(CallbackMethod::DetectAnomalies, Some(60)), Ok(Some(60)));
    assert_eq!(resolve_window(CallbackMethod::GetProxies, Some(9999)), Ok(None));
    assert_eq!(
        resolve_window(CallbackMethod::GetRuleStats, Some(31)),
        Err(AiSidecarError::InvalidResponse("days 超出范围，期望 1..=30，收到 31".to_string()))
    );
    assert_eq!(
        resolve_window(CallbackMethod::GetDiagnosisSummary, Some(4)),
        Err(AiSidecarError::InvalidResponse("timeRangeMinutes 超出范围，期望 5..=1440，收到 4".to_string()))
    );
    assert_eq!(resolve_domain_limit(None), Ok(20));
    assert_eq!(
        resolve_domain_limit(Some(101)),
        Err(AiSidecarError::InvalidResponse("limit 超出范围，期望 1..=100，收到 101".to_string()))
    );
}

#[test]
fn connectivity_issues_list_each_failure_in_order() {
    assert_eq!(connectivity_issues(None, None, true), Vec::<String>::new());
    assert_eq!(
        connectivity_issues(Some("timeout"), Some("refused"), false),
        vec![
            "mihomo version API 不可用: timeout".to_string(),
            "mihomo proxies API 不可用: refused".to_string(),
            "连接采集器当前未运行".to_string(),
        ]
    );
}

#[test]
fn recent_error_issues_report_api_collector_and_idle_state() {
    assert!(recent_error_issues("127.0.0.1:9090", None, true, 3).is_empty());
    let issues = recent_error_issues("127.0.0.1:9090", Some("timeout"), false, 0);
    assert_eq!(issues.len(), 3);
    assert_eq!(issues[0].source, "mihomo_api");
    assert_eq!(issues[0].severity, "error");
    assert_eq!(issues[0].message, "127.0.0.1:9090 连通性检查失败: timeout");
    assert_eq!(issues[1].source, "collector");
    assert_eq!(issues[1].severity, "warning");
    assert_eq!(issues[2].source, "runtime");
    assert_eq!(issues[2].severity, "info");
}

#[test]
fn selected_groups_are_trimmed_filtered_and_sorted() {
    let groups = extract_selected_groups(vec![
        ("Proxy".to_string(), Some("  HK-01 ".to_string())),
        ("Auto".to_string(), Some("JP-02".to_string())),
        ("DIRECT".to_string(), None),
        ("Empty".to_string(), Some("   ".to_string())),
    ]);
    assert_eq!(
        groups,
        vec![
            SelectedProxyGroup { group: "Auto".to_string(), current: "JP-02".to_string() },
            SelectedProxyGroup { group: "Proxy".to_string(), current: "HK-01".to_string() },
        ]
    );
}

fn same_tree(a: &ConfigValue, b: &ConfigValue) -> bool {
    match (a, b) {
        (ConfigValue::Null, ConfigValue::Null) => true,
        (ConfigValue::Bool(x), ConfigValue::Bool(y)) => x == y,
        (ConfigValue::Number(x), ConfigValue::Number(y)) => x == y,
        (ConfigValue::Text(x), ConfigValue::Text(y)) => x == y,
        (ConfigValue::List(xs), ConfigValue::List(ys)) => {
            xs.len() == ys.len() && xs.iter().zip(ys).all(|(x, y)| same_tree(x, y))
        }
        (ConfigValue::Object(xs), ConfigValue::Object(ys)) => {
            xs.len() == ys.len() && xs.iter().zip(ys).all(|(x, y)| x.0 == y.0 && same_tree(&x.1, &y.1))
        }
        _ => false,
    }
}

#[test]
fn redacting_twice_changes_nothing_more() {
    let build = || {
        object(vec![
            ("secret", text("s")),
            ("proxies", ConfigValue::List(vec![object(vec![("uuid", text("u")), ("name", text("n"))])])),
            ("port", ConfigValue::Number("7890".to_string())),
        ])
    };
    let once = redact_sensitive_config(build());
    let twice = redact_sensitive_config(redact_sensitive_config(build()));
    assert!(same_tree(&once, &twice));
}

#[test]
fn config_fallback_errors_name_both_failures() {
    assert_eq!(
        clashmind::callback::config_fallback_error("timeout", "not found", false),
        AiSidecarError::InvalidResponse("读取 Mihomo 运行配置失败: timeout; 同时读取配置文件失败: not found".to_string())
    );
    assert_eq!(
        clashmind::callback::config_fallback_error("timeout", "bad yaml", true),
        AiSidecarError::InvalidResponse("读取 Mihomo 运行配置失败: timeout; 同时解析配置文件失败: bad yaml".to_string())
    );
}

#[test]
fn config_requests_prefer_the_running_configuration() {
    let runtime = object(vec![("secret", text("s3")), ("mode", text("rule"))]);
    match answer_config_request(Ok(runtime)) {
        ConfigAnswer::Ready(Ok(answer)) => {
            assert!(matches!(field(&answer, "source"), ConfigValue::Text(t) if t == "mihomo_runtime"));
            assert!(matches!(field(field(&answer, "config"), "secret"), ConfigValue::Text(t) if t == REDACTED_VALUE));
        }
        _ => panic!("expected the running configuration"),
    }
    match answer_config_request(Err("refused".to_string())) {
        ConfigAnswer::ReadConfigFile { runtime_error } => assert_eq!(runtime_error, "refused"),
        _ => panic!("expected the file to be read"),
    }
}

#[test]
fn config_requests_fall_back_to_the_file_then_fail() {
    let parsed = object(vec![("mode", text("global"))]);
    let answer = answer_config_from_file("refused", ConfigFileOutcome::Parsed(parsed)).expect("file answer");
    assert!(matches!(field(&answer, "source"), ConfigValue::Text(t) if t == "config_file"));
    assert_eq!(
        answer_config_from_file("refused", ConfigFileOutcome::ReadFailed("missing".to_string())).unwrap_err(),
        AiSidecarError::InvalidResponse("读取 Mihomo 运行配置失败: refused; 同时读取配置文件失败: missing".to_string())
    );
    assert_eq!(
        answer_config_from_file("refused", ConfigFileOutcome::ParseFailed("bad yaml".to_string())).unwrap_err(),
        AiSidecarError::InvalidResponse("读取 Mihomo 运行配置失败: refused; 同时解析配置文件失败: bad yaml".to_string())
    );
}

#[test]
fn connectivity_summary_reports_reachability_and_groups() {
    let groups = vec![
        ("Proxy".to_string(), Some(" HK-01 ".to_string())),
        ("DIRECT".to_string(), None),
        ("Auto".to_string(), Some("JP".to_string())),
    ];
    let summary = build_connectivity_summary(
        "127.0.0.1:9090".to_string(),
        Ok(object(vec![("version", text("1.18"))])),
        Ok(Some(groups)),
        true,
        12,
    );
    assert!(summary.reachable);
    assert_eq!(summary.api_address, "127.0.0.1:9090");
    assert_eq!(summary.proxy_count, 3);
    assert_eq!(summary.active_connections, 12);
    assert!(summary.collector_running);
    assert!(summary.version.is_some());
    assert!(summary.issues.is_empty());
    assert_eq!(
        summary.selected_groups,
        vec![
            SelectedProxyGroup { group: "Auto".to_string(), current: "JP".to_string() },
            SelectedProxyGroup { group: "Proxy".to_string(), current: "HK-01".to_string() },
        ]
    );
    let down = build_connectivity_summary("a".to_string(), Err("timeout".to_string()), Ok(None), false, 0);
    assert!(!down.reachable);
    assert_eq!(down.proxy_count, 0);
    assert!(down.version.is_none());
    assert!(down.selected_groups.is_empty());
    assert_eq!(
        down.issues,
        vec!["mihomo version API 不可用: timeout".to_string(), "连接采集器当前未运行".to_string()]
    );
    let no_proxies = build_connectivity_summary("a".to_string(), Ok(text("v")), Err("refused".to_string()), true, 0);
    assert!(!no_proxies.reachable);
    assert_eq!(no_proxies.issues, vec!["mihomo proxies API 不可用: refused".to_string()]);
}

#[test]
fn delay_tests_answer_with_the_test_settings() {
    let answer = delay_test_answer("HK-01".to_string(), 123);
    assert!(matches!(field(&answer, "name"), ConfigValue::Text(t) if t == "HK-01"));
    assert!(matches!(field(&answer, "url"), ConfigValue::Text(t) if t == "http://www.gstatic.com/generate_204"));
    assert!(matches!(field(&answer, "timeout"), ConfigValue::Number(n) if n == "5000"));
    assert!(matches!(field(&answer, "delay"), ConfigValue::Number(n) if n == "123"));
}
