use clashmind::change::{begin_config_write, check_change_base, config_write_step, WriteAction, WriteEvent, WritePhase};
use clashmind::ai::{
    legacy_fallback_base_url, manual_snapshot_description, migrate_legacy_provider_value,
    normalize_line_endings, normalized_path_key, report_top_domains, report_top_rules, restore_backup_description,
    check_chat_request, check_report_model, requested_snapshot_path, validate_snapshot_path, validate_snapshot_path_on,
    validate_stored_snapshot_path, AiReportError, platform_folds_path_case, AiConfigChangeError, LEGACY_DEEPSEEK_BASE_URL,
    LEGACY_OLLAMA_OPENAI_BASE_URL,
};
use clashmind::migration::{get_migrations, MigrationKind};
use clashmind::stats::{DomainStat, RuleStat};
use clashmind::alert::AlertSeverity;
use clashmind::clock::{
    current_instant, day_bucket_key, floor_to_day, floor_to_hour, format_utc, hour_bucket_key, next_day_boundary, next_hour_boundary,
    shift_day, shift_hour,
};
use clashmind::db::{
    check_journal_mode, database_relative_path, DbBootstrapError, DbError, NodeHealthInsert, PreparedNodeHealthInsert,
};
use clashmind::document::{find_key, set_text_entry, ConfigValue};
use clashmind::notification::notification_title;

fn settings(entries: Vec<(&str, ConfigValue)>) -> ConfigValue {
    ConfigValue::Object(entries.into_iter().map(|(k, v)| (k.to_string(), v)).collect())
}

fn text(s: &str) -> ConfigValue {
    ConfigValue::Text(s.to_string())
}

fn get_str<'a>(value: &'a ConfigValue, key: &str) -> Option<&'a str> {
    match value {
        ConfigValue::Object(entries) => entries.iter().find(|(k, _)| k == key).and_then(|(_, v)| match v {
            ConfigValue::Text(t) => Some(t.as_str()),
            _ => None,
        }),
        _ => None,
    }
}

#[test]
fn migrate_legacy_provider_value_maps_deepseek_to_openai_compatible() {
    let mut value = settings(vec![
        ("provider", text("deepseek")),
        ("model", text("deepseek-chat")),
        ("apiKey", text("test-key")),
        ("baseUrl", text("")),
        ("temperature", ConfigValue::Number("0.3".to_string())),
        ("maxTokens", ConfigValue::Number("4096".to_string())),
        ("autoStart", ConfigValue::Bool(false)),
    ]);

    migrate_legacy_provider_value(&mut value);

    assert_eq!(get_str(&value, "provider"), Some("openai_compatible"));
    assert_eq!(get_str(&value, "baseUrl"), Some(LEGACY_DEEPSEEK_BASE_URL));
}

#[test]
fn migration_keeps_a_set_base_url_and_appends_a_missing_one() {
    let mut kept = settings(vec![("provider", text("ollama")), ("baseUrl", text("http://10.0.0.2:11434/v1"))]);
    migrate_legacy_provider_value(&mut kept);
    assert_eq!(get_str(&kept, "provider"), Some("openai_compatible"));
    assert_eq!(get_str(&kept, "baseUrl"), Some("http://10.0.0.2:11434/v1"));

    let mut appended = settings(vec![("provider", text("ollama"))]);
    migrate_legacy_provider_value(&mut appended);
    match &appended {
        ConfigValue::Object(entries) => {
            assert_eq!(entries.len(), 2);
            assert_eq!(entries[1].0, "baseUrl");
        }
        _ => panic!("not an object"),
    }
    assert_eq!(get_str(&appended, "baseUrl"), Some(LEGACY_OLLAMA_OPENAI_BASE_URL));
}

#[test]
fn migration_leaves_current_providers_alone() {
    let mut value = settings(vec![("provider", text("openai")), ("baseUrl", text(""))]);
    migrate_legacy_provider_value(&mut value);
    assert_eq!(get_str(&value, "provider"), Some("openai"));
    assert_eq!(get_str(&value, "baseUrl"), Some(""));

    let mut not_object = ConfigValue::List(vec![text("deepseek")]);
    migrate_legacy_provider_value(&mut not_object);
    assert!(matches!(not_object, ConfigValue::List(ref items) if items.len() == 1));

    assert_eq!(legacy_fallback_base_url("DeepSeek"), None);
}

#[test]
fn object_entries_are_found_and_set_by_first_name() {
    let mut entries = vec![("a".to_string(), text("1")), ("b".to_string(), text("2")), ("a".to_string(), text("3"))];
    assert_eq!(find_key(&entries, "a"), Some(0));
    assert_eq!(find_key(&entries, "c"), None);
    set_text_entry(&mut entries, "a", "x");
    set_text_entry(&mut entries, "c", "y");
    assert_eq!(entries.len(), 4);
    assert!(matches!(&entries[0].1, ConfigValue::Text(t) if t == "x"));
    assert!(matches!(&entries[2].1, ConfigValue::Text(t) if t == "3"));
    assert_eq!(entries[3].0, "c");
}

#[test]
fn rejects_non_sqlite_database_urls() {
    let result = database_relative_path("postgres://example");
    assert!(matches!(result, Err(DbBootstrapError::InvalidDatabaseUrl(_))));
    assert_eq!(
        result.unwrap_err().to_string(),
        "invalid sqlite database url: postgres://example".to_string()
    );
    assert_eq!(database_relative_path("sqlite:clashmind.db"), Ok("clashmind.db".to_string()));
}

#[test]
fn journal_mode_must_be_wal_in_any_case() {
    assert_eq!(check_journal_mode("wal"), Ok(()));
    assert_eq!(check_journal_mode("WAL"), Ok(()));
    let error = check_journal_mode("delete").unwrap_err();
    assert_eq!(error, DbBootstrapError::UnexpectedJournalMode { actual: "delete".to_string() });
    assert_eq!(error.to_string(), "sqlite journal mode is delete, expected wal");
}

#[test]
fn notification_titles_follow_severity() {
    assert_eq!(notification_title(&AlertSeverity::Critical), "严重告警");
    assert_eq!(notification_title(&AlertSeverity::Warning), "异常警告");
    assert_eq!(notification_title(&AlertSeverity::Info), "异常提示");
}

const SEC: i128 = 1_000_000_000;

#[test]
fn utc_helpers_floor_shift_and_format() {
    // 2024-03-10T13:45:30.5Z
    let t: i128 = 1_710_078_330 * SEC + 500_000_000;
    assert_eq!(format_utc(t), "2024-03-10T13:45:30Z");
    assert_eq!(format_utc(floor_to_hour(t)), "2024-03-10T13:00:00Z");
    assert_eq!(format_utc(floor_to_day(t)), "2024-03-10T00:00:00Z");
    assert_eq!(format_utc(next_hour_boundary(t)), "2024-03-10T14:00:00Z");
    assert_eq!(format_utc(next_day_boundary(t)), "2024-03-11T00:00:00Z");
    assert_eq!(format_utc(shift_hour(t)), "2024-03-10T14:45:30Z");
    assert_eq!(format_utc(shift_day(t)), "2024-03-11T13:45:30Z");
    assert_eq!(hour_bucket_key(t), "2024-03-10T13:00:00Z");
    assert_eq!(day_bucket_key(t), "2024-03-10");
    // before the epoch, floors still go down
    let early: i128 = -1;
    assert_eq!(format_utc(early), "1969-12-31T23:59:59Z");
    assert_eq!(day_bucket_key(early), "1969-12-31");
    assert_eq!(format_utc(floor_to_hour(early)), "1969-12-31T23:00:00Z");
}

#[test]
fn migrations_run_in_version_order() {
    let migrations = get_migrations();
    assert_eq!(migrations.len(), 12);
    for (index, migration) in migrations.iter().enumerate() {
        assert_eq!(migration.version, index as i64 + 1);
        assert_eq!(migration.kind, MigrationKind::Up);
    }
    assert_eq!(migrations[0].description, "create_connections_table");
    assert!(migrations[0].sql.contains("CREATE TABLE IF NOT EXISTS connections"));
    assert_eq!(migrations[11].description, "create_ai_conversations_table");
    assert!(migrations[6].sql.contains("ADD COLUMN last_observed_at"));
}

#[test]
fn line_endings_and_path_keys_are_normalized() {
    assert_eq!(normalize_line_endings("a: 1\r\nb: 2\r\n"), "a: 1\nb: 2\n");
    assert_eq!(normalize_line_endings("a\r\r\nb\n"), "a\r\nb\n");
    assert_eq!(normalized_path_key("C:\\Users\\me\\config.yaml", false), "C:/Users/me/config.yaml");
    assert_eq!(normalized_path_key("/etc/mihomo/config.yaml", false), "/etc/mihomo/config.yaml");
    assert_eq!(normalized_path_key("C:\\Users\\Me\\Config.YAML", true), "c:/users/me/config.yaml");
}

#[test]
fn snapshot_descriptions_and_targets() {
    assert_eq!(restore_backup_description(42), "恢复快照前自动备份 #42");
    assert_eq!(manual_snapshot_description(Some("  before upgrade ")), "before upgrade");
    assert_eq!(manual_snapshot_description(Some("   ")), "手动快照");
    assert_eq!(manual_snapshot_description(None), "手动快照");
    assert_eq!(requested_snapshot_path(Some(" ~/m/config.yaml ")), Some("~/m/config.yaml".to_string()));
    assert_eq!(requested_snapshot_path(Some("  ")), None);
    assert_eq!(requested_snapshot_path(None), None);
}

#[test]
fn snapshot_paths_must_match_the_active_file() {
    assert_eq!(validate_snapshot_path(3, None, "/a/config.yaml"), Err(AiConfigChangeError::SnapshotPathMissing(3)));
    assert_eq!(validate_snapshot_path(3, Some("/home/u/a/config.yaml"), "/home/u/a/config.yaml"), Ok(()));
    assert_eq!(validate_snapshot_path(3, Some("C:\\a\\config.yaml"), "C:/a/config.yaml"), Ok(()));
    assert_eq!(
        validate_snapshot_path(5, Some("/b/config.yaml"), "/a/config.yaml"),
        Err(AiConfigChangeError::SnapshotPathMismatch {
            snapshot_id: 5,
            snapshot_path: "/b/config.yaml".to_string(),
            active_path: "/a/config.yaml".to_string(),
        })
    );
}

#[test]
fn snapshot_paths_differing_in_case_match_only_where_case_folds() {
    assert_eq!(validate_snapshot_path_on(7, Some("C:\\Users\\Me\\config.yaml"), "c:/users/me/CONFIG.yaml", true), Ok(()));
    assert_eq!(
        validate_snapshot_path_on(7, Some("/Home/config.yaml"), "/home/config.yaml", false),
        Err(AiConfigChangeError::SnapshotPathMismatch {
            snapshot_id: 7,
            snapshot_path: "/Home/config.yaml".to_string(),
            active_path: "/home/config.yaml".to_string(),
        })
    );
    assert_eq!(platform_folds_path_case(), std::path::MAIN_SEPARATOR == '\\');
}

#[test]
fn report_rankings_add_traffic_and_keep_order() {
    let domains = report_top_domains(&vec![
        DomainStat { domain: "a.com".to_string(), hit_count: 3, upload: 10, download: 90 },
        DomainStat { domain: "b.com".to_string(), hit_count: 1, upload: 5, download: 5 },
    ]);
    assert_eq!(domains.len(), 2);
    assert_eq!(domains[0].domain, "a.com");
    assert_eq!(domains[0].traffic, 100);
    assert_eq!(domains[1].traffic, 10);
    let rules = report_top_rules(&vec![RuleStat { rule: "MATCH".to_string(), hit_count: 7, upload: 1, download: 2 }]);
    assert_eq!(rules.len(), 1);
    assert_eq!(rules[0].rule, "MATCH");
    assert_eq!(rules[0].hit_count, 7);
}

#[test]
fn delays_that_fit_are_kept() {
    assert_eq!(clashmind::proxy::delay_ms_from_u32(120), Some(120));
    assert_eq!(clashmind::proxy::delay_ms_from_u32(2_147_483_647), Some(2_147_483_647));
    assert_eq!(clashmind::proxy::delay_ms_from_u32(2_147_483_648), None);
}

#[test]
fn invalid_callback_carries_its_message() {
    assert_eq!(
        clashmind::callback::invalid_callback("bad".to_string()),
        clashmind::sidecar::AiSidecarError::InvalidResponse("bad".to_string())
    );
}

#[test]
fn migrating_twice_changes_nothing_more() {
    let mut value = settings(vec![("provider", text("deepseek")), ("model", text("deepseek-chat"))]);
    migrate_legacy_provider_value(&mut value);
    let keys_once: Vec<String> = match &value {
        ConfigValue::Object(entries) => entries.iter().map(|(k, _)| k.clone()).collect(),
        _ => panic!("not an object"),
    };
    migrate_legacy_provider_value(&mut value);
    let keys_twice: Vec<String> = match &value {
        ConfigValue::Object(entries) => entries.iter().map(|(k, _)| k.clone()).collect(),
        _ => panic!("not an object"),
    };
    assert_eq!(keys_once, keys_twice);
    assert_eq!(get_str(&value, "provider"), Some("openai_compatible"));
    assert_eq!(get_str(&value, "baseUrl"), Some(LEGACY_DEEPSEEK_BASE_URL));
    assert_eq!(get_str(&value, "model"), Some("deepseek-chat"));
}

#[test]
fn config_change_errors_render_their_messages() {
    assert_eq!(
        AiConfigChangeError::SnapshotPathMissing(7).to_string(),
        "配置快照 #7 缺少原始文件路径，无法安全恢复"
    );
    assert_eq!(
        AiConfigChangeError::SnapshotPathMismatch {
            snapshot_id: 2,
            snapshot_path: "/b".to_string(),
            active_path: "/a".to_string(),
        }
        .to_string(),
        "配置快照 #2 属于 /b，当前活动配置为 /a，拒绝跨配置文件恢复"
    );
    assert_eq!(
        AiConfigChangeError::StaleBase.to_string(),
        "当前运行配置已经发生变化，请重新生成 Diff 后再试"
    );
}

#[test]
fn online_lookup_urls_encode_the_address() {
    assert_eq!(
        clashmind::geo::ip_api_url("1.2.3.4"),
        "http://ip-api.com/json/1.2.3.4?fields=status,country,countryCode,city,lat,lon"
    );
    assert_eq!(
        clashmind::geo::ip_api_url("2001:db8::1"),
        "http://ip-api.com/json/2001%3Adb8%3A%3A1?fields=status,country,countryCode,city,lat,lon"
    );
    assert!(clashmind::geo::ip_api_answer_usable("success", Some("Australia"), None));
    assert!(clashmind::geo::ip_api_answer_usable("success", None, Some("AU")));
    assert!(!clashmind::geo::ip_api_answer_usable("success", None, None));
    assert!(!clashmind::geo::ip_api_answer_usable("fail", Some("Australia"), Some("AU")));
}

#[test]
fn delay_tests_are_checked_before_writing() {
    let ok = PreparedNodeHealthInsert::try_from_insert(&NodeHealthInsert {
        node_name: "  HK-01 ".to_string(),
        delay_ms: Some(120),
        success: true,
    });
    assert_eq!(
        ok,
        Ok(PreparedNodeHealthInsert { node_name: "HK-01".to_string(), delay_ms: Some(120), success: 1 })
    );
    let failed = PreparedNodeHealthInsert::try_from_insert(&NodeHealthInsert {
        node_name: "HK-01".to_string(),
        delay_ms: Some(120),
        success: false,
    });
    assert_eq!(
        failed,
        Ok(PreparedNodeHealthInsert { node_name: "HK-01".to_string(), delay_ms: None, success: 0 })
    );
    assert_eq!(
        PreparedNodeHealthInsert::try_from_insert(&NodeHealthInsert {
            node_name: " ".to_string(),
            delay_ms: Some(-1),
            success: true,
        }),
        Err(DbError::WriteFailed("node_name 不能为空".to_string()))
    );
    assert_eq!(
        PreparedNodeHealthInsert::try_from_insert(&NodeHealthInsert {
            node_name: "a".to_string(),
            delay_ms: Some(-1),
            success: false,
        }),
        Err(DbError::WriteFailed("delay_ms 不能为负数".to_string()))
    );
}

#[test]
fn online_lookups_skip_recent_failures_until_cleared() {
    let mut failures = clashmind::table::KeyedTable::new();
    let now = std::time::Instant::now();
    let addr = |text: &str, last: u8| (text.to_string(), clashmind::geo::IpAddress::V4(1, 1, 1, last));
    clashmind::geo::record_ip_api_failure(&mut failures, "1.1.1.1", now);
    let picked = clashmind::geo::select_online_lookup_candidates(
        &mut failures,
        vec![addr("1.1.1.1", 1), addr("1.1.1.2", 2), addr("1.1.1.3", 3)],
        1,
        &now,
    );
    assert_eq!(picked, vec![addr("1.1.1.2", 2)]);
    assert!(clashmind::geo::select_online_lookup_candidates(&mut failures, vec![addr("1.1.1.2", 2)], 0, &now).is_empty());
    clashmind::geo::clear_ip_api_failure(&mut failures, "1.1.1.1");
    let picked = clashmind::geo::select_online_lookup_candidates(&mut failures, vec![addr("1.1.1.1", 1)], 5, &now);
    assert_eq!(picked, vec![addr("1.1.1.1", 1)]);
    assert!(clashmind::geo::is_recent_ip_api_failure(&now, &now));
}

#[test]
fn config_changes_require_a_current_base() {
    assert_eq!(
        check_change_base(Some("refused".to_string()), Some("bad".to_string()), false),
        Err(AiConfigChangeError::ReadRuntimeFailed("refused".to_string()))
    );
    assert_eq!(
        check_change_base(None, Some("bad yaml".to_string()), true),
        Err(AiConfigChangeError::InvalidOriginalConfig("bad yaml".to_string()))
    );
    assert_eq!(check_change_base(None, None, false), Err(AiConfigChangeError::StaleBase));
    assert_eq!(check_change_base(None, None, true), Ok(()));
}

#[test]
fn config_writes_reload_and_roll_back() {
    let (state, action) = begin_config_write("a: 1\r\nb: 2\r\n", "old: 0\r\n");
    assert!(matches!(action, WriteAction::WriteFile(ref t) if t == "a: 1\nb: 2\n"));
    let (state, action) = config_write_step(state, WriteEvent::Written(Ok(())));
    assert_eq!(state.phase, WritePhase::Reloading);
    assert!(matches!(action, WriteAction::Reload));
    let (done, action) = config_write_step(state, WriteEvent::Reloaded(Ok(())));
    assert_eq!(done.phase, WritePhase::Done);
    assert!(matches!(action, WriteAction::Finish(Ok(()))));

    let (state, _) = begin_config_write("new", "old: 0\r\n");
    let (state, _) = config_write_step(state, WriteEvent::Written(Ok(())));
    let (state, action) = config_write_step(state, WriteEvent::Reloaded(Err("bad config".to_string())));
    assert_eq!(state.phase, WritePhase::RestoringFile);
    assert!(matches!(action, WriteAction::WriteFile(ref t) if t == "old: 0\r\n"));
    let (state, action) = config_write_step(state, WriteEvent::Written(Ok(())));
    assert!(matches!(action, WriteAction::Reload));
    let (_, action) = config_write_step(state, WriteEvent::Reloaded(Ok(())));
    match action {
        WriteAction::Finish(Err(error)) => {
            assert_eq!(error, AiConfigChangeError::ReloadFailedRolledBack("bad config".to_string()))
        }
        _ => panic!("expected a rolled-back failure"),
    }

    let (state, _) = begin_config_write("new", "old");
    let (state, _) = config_write_step(state, WriteEvent::Written(Ok(())));
    let (state, _) = config_write_step(state, WriteEvent::Reloaded(Err("r1".to_string())));
    let (_, action) = config_write_step(state, WriteEvent::Written(Err("disk full".to_string())));
    match action {
        WriteAction::Finish(Err(error)) => assert_eq!(
            error,
            AiConfigChangeError::ReloadFailedRollbackFailed {
                reload_error: "r1".to_string(),
                rollback_error: "disk full".to_string()
            }
        ),
        _ => panic!("expected a failed rollback"),
    }
    let (state, _) = begin_config_write("new", "old");
    let (_, action) = config_write_step(state, WriteEvent::Written(Err("denied".to_string())));
    assert!(matches!(action, WriteAction::Finish(Err(AiConfigChangeError::WriteFailed(ref m))) if m == "denied"));
}

#[test]
fn current_instant_reads_the_system_clock() {
    let before = std::time::SystemTime::now()
        .duration_since(std::time::UNIX_EPOCH)
        .expect("clock after 1970")
        .as_nanos() as i128;
    let now = current_instant();
    let after = std::time::SystemTime::now()
        .duration_since(std::time::UNIX_EPOCH)
        .expect("clock after 1970")
        .as_nanos() as i128;
    assert!(before <= now && now <= after);
    assert!(format_utc(now).ends_with('Z'));
}

#[test]
fn chat_and_report_requests_need_messages_and_a_model() {
    assert_eq!(
        check_chat_request(0, "gpt"),
        Err(clashmind::sidecar::AiSidecarError::InvalidResponse("chat messages must not be empty".to_string()))
    );
    assert_eq!(
        check_chat_request(2, "  "),
        Err(clashmind::sidecar::AiSidecarError::InvalidResponse("chat model must not be empty".to_string()))
    );
    assert_eq!(check_chat_request(1, " gpt "), Ok(()));
    assert!(matches!(check_report_model(" \t"), Err(AiReportError::InvalidParams(ref m)) if m == "report model must not be empty"));
    assert!(check_report_model("gpt").is_ok());
}

#[test]
fn stored_snapshot_paths_are_expanded_before_comparison() {
    assert_eq!(
        validate_stored_snapshot_path(4, None, "/home/me/config.yaml", Some("/home/me"), false),
        Err(AiConfigChangeError::SnapshotPathMissing(4))
    );
    assert_eq!(
        validate_stored_snapshot_path(4, Some("/home/me/config.yaml"), "/home/me/config.yaml", None, false),
        Ok(())
    );
    if std::path::MAIN_SEPARATOR == '/' {
        assert_eq!(
            validate_stored_snapshot_path(4, Some("~/config.yaml"), "/home/me/config.yaml", Some("/home/me"), false),
            Ok(())
        );
    }
    assert!(matches!(
        validate_stored_snapshot_path(4, Some("~/config.yaml"), "/home/me/config.yaml", None, false),
        Err(AiConfigChangeError::SnapshotPathMismatch { .. })
    ));
}
