use std::time::{Duration, Instant};

use clashmind::alert::{AlertIdGenerator, AlertSeverity, AlertType, AnomalyAlert, comparison_bucket_count};
use clashmind::notification::{
    alert_type_key, cooldown_elapsed, filter_notifiable_alerts, is_notifiable_severity, NotificationManager,
    NotificationSettings,
};

fn make_alert(alert_type: AlertType, severity: AlertSeverity) -> AnomalyAlert {
    AnomalyAlert {
        id: format!("alert-{}", alert_type_key(&alert_type)),
        severity,
        alert_type,
        title: "测试告警".to_string(),
        description: "测试描述".to_string(),
        context: serde_json::Value::Object(serde_json::Map::new()),
        detected_at: "2026-04-09T00:00:00Z".to_string(),
    }
}

#[test]
fn default_settings_use_five_minute_interval() {
    let manager = NotificationManager::new();

    assert_eq!(manager.settings(), NotificationSettings::default());
    assert_eq!(manager.cooldown_secs(), 300);
}

#[test]
fn update_settings_clamps_interval_to_sixty_seconds() {
    let mut manager = NotificationManager::new();

    manager.update_settings(NotificationSettings { enabled: true, critical_only: false, scan_interval_secs: 15 });

    assert_eq!(manager.settings().scan_interval_secs, 60);
    assert_eq!(manager.cooldown_secs(), 60);
}

#[test]
fn should_notify_respects_cooldown_window() {
    let mut manager = NotificationManager::new();

    assert!(manager.should_notify("high_timeout_rate"));
    manager.mark_notified("high_timeout_rate");
    assert!(!manager.should_notify("high_timeout_rate"));
}

#[test]
fn should_notify_allows_after_cooldown_expires() {
    let mut manager = NotificationManager::new();
    manager.mark_notified_at("high_timeout_rate", Instant::now() - Duration::from_secs(301));

    assert!(manager.should_notify("high_timeout_rate"));
}

#[test]
fn should_notify_is_off_when_notifications_are_disabled() {
    let mut manager = NotificationManager::new();
    manager.update_settings(NotificationSettings { enabled: false, critical_only: false, scan_interval_secs: 300 });
    assert!(!manager.should_notify("traffic_surge"));
}

#[test]
fn filter_notifiable_alerts_excludes_info_alerts() {
    let manager = NotificationManager::new();
    let alerts = vec![
        make_alert(AlertType::HighTimeoutRate, AlertSeverity::Warning),
        make_alert(AlertType::TrafficSurge, AlertSeverity::Info),
    ];

    let filtered = filter_notifiable_alerts(&manager, &alerts);

    assert_eq!(filtered.len(), 1);
    assert_eq!(filtered[0].alert_type, AlertType::HighTimeoutRate);
}

#[test]
fn filter_notifiable_alerts_respects_critical_only_setting() {
    let mut manager = NotificationManager::new();
    manager.update_settings(NotificationSettings { enabled: true, critical_only: true, scan_interval_secs: 300 });
    let alerts = vec![
        make_alert(AlertType::HighTimeoutRate, AlertSeverity::Warning),
        make_alert(AlertType::DnsFailureCluster, AlertSeverity::Critical),
    ];

    let filtered = filter_notifiable_alerts(&manager, &alerts);

    assert_eq!(filtered.len(), 1);
    assert_eq!(filtered[0].alert_type, AlertType::DnsFailureCluster);
}

#[test]
fn filter_notifiable_alerts_deduplicates_alert_types_per_batch() {
    let manager = NotificationManager::new();
    let alerts = vec![
        make_alert(AlertType::HighTimeoutRate, AlertSeverity::Critical),
        make_alert(AlertType::HighTimeoutRate, AlertSeverity::Critical),
    ];

    let filtered = filter_notifiable_alerts(&manager, &alerts);

    assert_eq!(filtered.len(), 1);
}

#[test]
fn filter_notifiable_alerts_skips_kinds_under_cooldown() {
    let mut manager = NotificationManager::new();
    manager.mark_notified(alert_type_key(&AlertType::TrafficDrop));
    let alerts = vec![
        make_alert(AlertType::TrafficDrop, AlertSeverity::Critical),
        make_alert(AlertType::TrafficSurge, AlertSeverity::Warning),
    ];
    let filtered = filter_notifiable_alerts(&manager, &alerts);
    assert_eq!(filtered.len(), 1);
    assert_eq!(filtered[0].alert_type, AlertType::TrafficSurge);
}

#[test]
fn mark_notified_uses_stable_alert_type_keys() {
    let mut manager = NotificationManager::new();
    let alert_key = alert_type_key(&AlertType::HighMatchFallback);

    manager.mark_notified(alert_key);

    assert!(manager.has_cooldown(alert_key));
}

#[test]
fn alert_type_keys_are_snake_case() {
    assert_eq!(alert_type_key(&AlertType::HighTimeoutRate), "high_timeout_rate");
    assert_eq!(alert_type_key(&AlertType::TrafficSurge), "traffic_surge");
    assert_eq!(alert_type_key(&AlertType::TrafficDrop), "traffic_drop");
    assert_eq!(alert_type_key(&AlertType::HighMatchFallback), "high_match_fallback");
    assert_eq!(alert_type_key(&AlertType::DnsFailureCluster), "dns_failure_cluster");
}

#[test]
fn severity_filter_follows_critical_only() {
    let all = NotificationSettings { enabled: true, critical_only: false, scan_interval_secs: 300 };
    let critical = NotificationSettings { enabled: true, critical_only: true, scan_interval_secs: 300 };
    assert!(is_notifiable_severity(&all, &AlertSeverity::Warning));
    assert!(!is_notifiable_severity(&critical, &AlertSeverity::Warning));
    assert!(is_notifiable_severity(&critical, &AlertSeverity::Critical));
    assert!(!is_notifiable_severity(&all, &AlertSeverity::Info));
}

#[test]
fn normalized_keeps_long_intervals() {
    let settings = NotificationSettings { enabled: false, critical_only: true, scan_interval_secs: 180 }.normalized();
    assert_eq!(settings, NotificationSettings { enabled: false, critical_only: true, scan_interval_secs: 180 });
}

#[test]
fn cooldown_elapsed_compares_whole_seconds() {
    assert!(!cooldown_elapsed(59_999_999_999, 60));
    assert!(cooldown_elapsed(60_000_000_000, 60));
}

#[test]
fn alert_ids_count_up_from_one() {
    let mut generator = AlertIdGenerator::new(1_700_000_000_123);
    assert_eq!(generator.next_id(), "anomaly-1700000000123-1");
    assert_eq!(generator.next_id(), "anomaly-1700000000123-2");
    let mut negative = AlertIdGenerator::new(-5);
    assert_eq!(negative.next_id(), "anomaly--5-1");
}

#[test]
fn comparison_bucket_count_rounds_up_to_whole_hours() {
    assert_eq!(comparison_bucket_count(0), 1);
    assert_eq!(comparison_bucket_count(-30), 1);
    assert_eq!(comparison_bucket_count(60), 1);
    assert_eq!(comparison_bucket_count(61), 2);
    assert_eq!(comparison_bucket_count(1440), 24);
}

#[test]
fn marking_keeps_the_marked_kind_and_drops_cooldowns_over_by_then() {
    let mut manager = NotificationManager::new();
    let now = Instant::now();
    manager.mark_notified_at("traffic_drop", now - Duration::from_secs(400));
    assert!(manager.has_cooldown("traffic_drop"));
    manager.mark_notified_at("traffic_surge", now - Duration::from_secs(10));
    assert!(!manager.has_cooldown("traffic_drop"));
    manager.mark_notified_at("traffic_drop", now - Duration::from_secs(400));
    manager.mark_notified_at("high_timeout_rate", now);
    assert!(manager.has_cooldown("high_timeout_rate"));
    assert!(manager.has_cooldown("traffic_surge"));
    assert!(!manager.has_cooldown("traffic_drop"));
}
