use clashmind::observation::{build_observation_updates, counter_delta, distribute_total, WeightedBucket};
use clashmind::record::ConnectionRecord;

fn sample_record(id: &str, host: &str, upload: i64, download: i64) -> ConnectionRecord {
    ConnectionRecord {
        id: id.to_string(),
        host: host.to_string(),
        dst_ip: Some("1.1.1.1".into()),
        dst_port: Some(443),
        src_ip: Some("192.168.1.2".into()),
        src_port: Some(12345),
        network: "tcp".into(),
        conn_type: "HTTPS".into(),
        rule: "DOMAIN-SUFFIX".into(),
        rule_payload: Some(host.to_string()),
        proxy_chain: "[\"DIRECT\"]".into(),
        upload,
        download,
        start_time: "2026-03-30T10:00:00.000Z".into(),
        last_observed_at: Some("2026-03-30T10:00:00.000Z".into()),
    }
}

#[test]
fn build_observation_updates_use_deltas_for_updated_records() {
    let previous_record = sample_record("same", "example.com", 4, 8);
    let current_record = sample_record("same", "example.com", 10, 12);

    let updates = build_observation_updates(
        &current_record,
        Some(&previous_record),
        "2026-03-30T10:05:00Z",
    );

    assert_eq!(updates.domain_updates.len(), 1);
    assert_eq!(updates.domain_updates[0].hit_count, 0);
    assert_eq!(updates.domain_updates[0].upload, 6);
    assert_eq!(updates.domain_updates[0].download, 4);
    assert_eq!(updates.domain_updates[0].day, "2026-03-30");
    assert_eq!(updates.rule_updates.len(), 1);
    assert_eq!(updates.rule_updates[0].rule, "DOMAIN-SUFFIX");
    assert_eq!(updates.rule_updates[0].hit_count, 0);
    assert_eq!(updates.rule_updates[0].upload, 6);
    assert_eq!(updates.rule_updates[0].download, 4);
    assert_eq!(updates.ip_traffic_updates.len(), 1);
    assert_eq!(updates.ip_traffic_updates[0].dst_ip, "1.1.1.1");
    assert_eq!(updates.ip_traffic_updates[0].day, "2026-03-30");
    assert_eq!(updates.ip_traffic_updates[0].upload, 6);
    assert_eq!(updates.ip_traffic_updates[0].download, 4);
    assert_eq!(updates.traffic_samples.len(), 1);
    assert_eq!(updates.traffic_samples[0].ts, "2026-03-30T10:00:00Z");
    assert_eq!(updates.traffic_samples[0].upload, 6);
    assert_eq!(updates.traffic_samples[0].download, 4);
    assert_eq!(updates.traffic_samples[0].conn_count, 0);
}

#[test]
fn build_observation_updates_split_cross_day_recovery_windows() {
    let mut previous_record = sample_record("same", "example.com", 40, 80);
    let current_record = sample_record("same", "example.com", 55, 95);
    previous_record.last_observed_at = Some("2026-03-30T23:55:00Z".into());

    let updates = build_observation_updates(
        &current_record,
        Some(&previous_record),
        "2026-03-31T00:05:00Z",
    );

    assert_eq!(updates.domain_updates.len(), 2);
    assert_eq!(updates.domain_updates[0].day, "2026-03-30");
    assert_eq!(updates.domain_updates[0].upload, 7);
    assert_eq!(updates.domain_updates[0].download, 7);
    assert_eq!(updates.domain_updates[1].day, "2026-03-31");
    assert_eq!(updates.domain_updates[1].upload, 8);
    assert_eq!(updates.domain_updates[1].download, 8);
    assert_eq!(
        updates
            .domain_updates
            .iter()
            .map(|update| update.upload)
            .sum::<i64>(),
        15
    );
    assert_eq!(
        updates
            .domain_updates
            .iter()
            .map(|update| update.download)
            .sum::<i64>(),
        15
    );
    assert_eq!(updates.rule_updates.len(), 2);
    assert_eq!(updates.rule_updates[0].day, "2026-03-30");
    assert_eq!(updates.rule_updates[1].day, "2026-03-31");
    assert_eq!(updates.ip_traffic_updates.len(), 2);
    assert_eq!(updates.ip_traffic_updates[0].day, "2026-03-30");
    assert_eq!(updates.ip_traffic_updates[1].day, "2026-03-31");
}

#[test]
fn build_observation_updates_split_first_seen_long_lived_connections() {
    let mut current_record = sample_record("same", "example.com", 24, 12);
    current_record.start_time = "2026-03-31T08:30:00Z".into();
    current_record.last_observed_at = Some("2026-03-31T10:30:00Z".into());

    let updates = build_observation_updates(&current_record, None, "2026-03-31T10:30:00Z");

    assert_eq!(updates.traffic_samples.len(), 3);
    assert_eq!(updates.traffic_samples[0].ts, "2026-03-31T08:00:00Z");
    assert_eq!(updates.traffic_samples[0].upload, 6);
    assert_eq!(updates.traffic_samples[0].download, 3);
    assert_eq!(updates.traffic_samples[0].conn_count, 1);
    assert_eq!(updates.traffic_samples[1].ts, "2026-03-31T09:00:00Z");
    assert_eq!(updates.traffic_samples[1].upload, 12);
    assert_eq!(updates.traffic_samples[1].download, 6);
    assert_eq!(updates.traffic_samples[1].conn_count, 0);
    assert_eq!(updates.traffic_samples[2].ts, "2026-03-31T10:00:00Z");
    assert_eq!(updates.traffic_samples[2].upload, 6);
    assert_eq!(updates.traffic_samples[2].download, 3);
    assert_eq!(updates.traffic_samples[2].conn_count, 0);

    assert_eq!(updates.domain_updates.len(), 1);
    assert_eq!(updates.domain_updates[0].day, "2026-03-31");
    assert_eq!(updates.domain_updates[0].hit_count, 1);
    assert_eq!(updates.domain_updates[0].upload, 24);
    assert_eq!(updates.domain_updates[0].download, 12);
    assert_eq!(updates.rule_updates.len(), 1);
    assert_eq!(updates.rule_updates[0].rule, "DOMAIN-SUFFIX");
    assert_eq!(updates.rule_updates[0].hit_count, 1);
    assert_eq!(updates.ip_traffic_updates.len(), 1);
    assert_eq!(updates.ip_traffic_updates[0].dst_ip, "1.1.1.1");
    assert_eq!(updates.ip_traffic_updates[0].day, "2026-03-31");
    assert_eq!(updates.ip_traffic_updates[0].upload, 24);
    assert_eq!(updates.ip_traffic_updates[0].download, 12);
}

#[test]
fn build_observation_updates_normalizes_empty_rule_names() {
    let mut current_record = sample_record("same", "example.com", 12, 6);
    current_record.rule.clear();
    current_record.start_time = "2026-03-31T10:00:00Z".into();

    let updates = build_observation_updates(&current_record, None, "2026-03-31T10:30:00Z");

    assert_eq!(updates.rule_updates.len(), 1);
    assert_eq!(updates.rule_updates[0].rule, "UNKNOWN");
}

#[test]
fn counter_delta_restarts_from_zero_after_reset() {
    assert_eq!(counter_delta(10, 4), 6);
    assert_eq!(counter_delta(3, 7), 3);
    assert_eq!(counter_delta(-2, 7), 0);
}

#[test]
fn distribute_total_keeps_the_whole_total() {
    let buckets = vec![
        WeightedBucket { key: "a".into(), weight_ms: 1 },
        WeightedBucket { key: "b".into(), weight_ms: 2 },
        WeightedBucket { key: "c".into(), weight_ms: 0 },
    ];
    let parts = distribute_total(10, &buckets);
    assert_eq!(parts, vec![2, 5, 3]);
    assert_eq!(parts.iter().sum::<i64>(), 10);
    assert_eq!(distribute_total(-5, &buckets), vec![0, 0, 0]);
}

#[test]
fn observation_spread_over_hours_keeps_every_byte() {
    let mut previous_record = sample_record("long", "example.com", 100, 50);
    previous_record.last_observed_at = Some("2026-03-30T09:20:00Z".into());
    let current_record = sample_record("long", "example.com", 1_100, 2_050);
    let updates = build_observation_updates(&current_record, Some(&previous_record), "2026-03-30T11:40:00Z");
    assert_eq!(updates.traffic_samples.len(), 3);
    assert_eq!(updates.traffic_samples.iter().map(|s| s.upload).sum::<i64>(), 1_000);
    assert_eq!(updates.traffic_samples.iter().map(|s| s.download).sum::<i64>(), 2_000);
    assert_eq!(updates.domain_updates.iter().map(|s| s.upload).sum::<i64>(), 1_000);
    assert_eq!(updates.rule_updates.iter().map(|s| s.download).sum::<i64>(), 2_000);
}

#[test]
fn a_new_connection_is_counted_once_on_its_first_row() {
    let mut record = sample_record("fresh", "example.com", 3_000, 600);
    record.start_time = "2026-03-30T09:20:00Z".into();
    let updates = build_observation_updates(&record, None, "2026-03-30T11:40:00Z");
    assert_eq!(updates.traffic_samples.len(), 3);
    assert_eq!(updates.traffic_samples.iter().map(|s| s.conn_count).sum::<i64>(), 1);
    assert_eq!(updates.traffic_samples[0].conn_count, 1);
    assert_eq!(updates.rule_updates.iter().map(|s| s.hit_count).sum::<i64>(), 1);
    assert_eq!(updates.ip_traffic_updates.iter().map(|s| s.upload).sum::<i64>(), 3_000);
    let unchanged = build_observation_updates(&record, Some(&record), "2026-03-30T11:40:00Z");
    assert!(unchanged.domain_updates.is_empty());
    assert!(unchanged.rule_updates.is_empty());
    assert!(unchanged.ip_traffic_updates.is_empty());
    assert!(unchanged.traffic_samples.is_empty());
}
