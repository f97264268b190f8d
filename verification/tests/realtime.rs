use clashmind::realtime::{build_summary, sort_top_domains, sort_top_rules, RealtimeState, RealtimeSummary, MAX_RECENT_CLOSED};
use clashmind::record::ConnectionRecord;
use clashmind::table::KeyedTable;

fn sample_record(id: &str, host: &str, rule: &str, upload: i64, download: i64) -> ConnectionRecord {
    ConnectionRecord {
        id: id.to_string(),
        host: host.to_string(),
        dst_ip: Some("1.1.1.1".into()),
        dst_port: Some(443),
        src_ip: Some("127.0.0.1".into()),
        src_port: Some(9000),
        network: "tcp".into(),
        conn_type: "HTTPS".into(),
        rule: rule.to_string(),
        rule_payload: Some(host.to_string()),
        proxy_chain: "[\"DIRECT\"]".into(),
        upload,
        download,
        start_time: "2026-03-30T10:00:00.000Z".into(),
        last_observed_at: Some("2026-03-30T10:00:00.000Z".into()),
    }
}

fn empty_summary() -> RealtimeSummary {
    RealtimeSummary::default()
}

#[test]
fn update_snapshot_tracks_changes_and_rebuilds_summary() {
    let mut store = RealtimeState::new();
    store.update_snapshot(vec![
        sample_record("alpha", "a.example", "MATCH", 10, 20),
        sample_record("beta", "b.example", "RULE-SET", 30, 40),
    ]);

    let change = store.update_snapshot(vec![
        sample_record("alpha", "a.example", "MATCH", 15, 25),
        sample_record("gamma", "a.example", "MATCH", 5, 10),
    ]);

    let active = store.active_connections();
    let summary = store.summary().clone();
    let recent_closed = store.recent_closed().clone();

    assert_eq!(active.len(), 2);
    assert_eq!(active[0].id, "alpha");
    assert_eq!(active[1].id, "gamma");
    assert_eq!(summary.active_count, 2);
    assert_eq!(summary.total_upload, 20);
    assert_eq!(summary.total_download, 35);
    assert_eq!(summary.top_domains, vec![("a.example".to_string(), 55)]);
    assert_eq!(summary.top_rules, vec![("MATCH".to_string(), 2)]);
    assert_eq!(recent_closed.len(), 1);
    assert_eq!(recent_closed[0].id, "beta");
    assert_eq!(change.opened, 1);
    assert_eq!(change.updated, 1);
    assert_eq!(change.closed, 1);
}

#[test]
fn mark_closed_removes_active_connections_and_updates_summary() {
    let mut store = RealtimeState::new();
    store.update_snapshot(vec![
        sample_record("alpha", "a.example", "MATCH", 10, 20),
        sample_record("beta", "b.example", "RULE-SET", 30, 40),
    ]);

    store.mark_closed(vec!["alpha".to_string()]);

    let active = store.active_connections();
    let summary = store.summary().clone();
    let recent_closed = store.recent_closed().clone();

    assert_eq!(active.len(), 1);
    assert_eq!(active[0].id, "beta");
    assert_eq!(summary.active_count, 1);
    assert_eq!(summary.total_upload, 30);
    assert_eq!(summary.total_download, 40);
    assert_eq!(recent_closed.len(), 1);
    assert_eq!(recent_closed[0].id, "alpha");
}

#[test]
fn mark_closed_skips_unknown_and_repeated_ids() {
    let mut store = RealtimeState::new();
    store.update_snapshot(vec![sample_record("alpha", "a.example", "MATCH", 1, 1)]);
    store.mark_closed(vec!["nope".to_string(), "alpha".to_string(), "alpha".to_string()]);
    assert_eq!(store.recent_closed().len(), 1);
    assert!(store.active_connections().is_empty());
    assert_eq!(*store.summary(), empty_summary());
}

#[test]
fn recent_closed_uses_fifo_eviction() {
    let mut store = RealtimeState::new();
    let mut initial_snapshot = Vec::with_capacity(MAX_RECENT_CLOSED + 2);
    let mut ids = Vec::with_capacity(MAX_RECENT_CLOSED + 2);

    for index in 0..(MAX_RECENT_CLOSED + 2) {
        let id = format!("conn-{index}");
        initial_snapshot.push(sample_record(&id, "example.com", "MATCH", index as i64, index as i64));
        ids.push(id);
    }

    store.update_snapshot(initial_snapshot);

    for id in ids {
        store.mark_closed(vec![id]);
    }

    let recent_closed = store.recent_closed().clone();

    assert_eq!(recent_closed.len(), MAX_RECENT_CLOSED);
    assert_eq!(recent_closed[0].id, "conn-2");
    assert_eq!(recent_closed[MAX_RECENT_CLOSED - 1].id, "conn-1001");
}

#[test]
fn reset_clears_active_state_and_summary() {
    let mut store = RealtimeState::new();
    store.update_snapshot(vec![sample_record("alpha", "a.example", "MATCH", 10, 20)]);

    store.reset();

    assert!(store.active_connections().is_empty());
    assert_eq!(*store.summary(), empty_summary());
    assert!(store.recent_closed().is_empty());
}

#[test]
fn clear_active_preserves_recent_closed_history() {
    let mut store = RealtimeState::new();
    store.update_snapshot(vec![sample_record("alpha", "a.example", "MATCH", 10, 20)]);
    store.mark_closed(vec!["alpha".to_string()]);

    store.update_snapshot(vec![sample_record("beta", "b.example", "RULE-SET", 30, 40)]);
    store.clear_active();

    assert!(store.active_connections().is_empty());
    assert_eq!(*store.summary(), empty_summary());
    assert_eq!(store.recent_closed().len(), 1);
    assert_eq!(store.recent_closed()[0].id, "alpha");
}

#[test]
fn summary_ranks_top_ten_by_amount_then_name() {
    let mut table = KeyedTable::new();
    for index in 0..12i64 {
        let host = format!("h{:02}.example", index);
        table.insert(sample_record(&format!("c{index}"), &host, &format!("R{}", index % 3), index, 0));
    }
    table.insert(sample_record("tie", "h11b.example", " R0 ", 11, 0));
    table.insert(sample_record("blank", "   ", "", 1000, 0));

    let summary = build_summary(&table);

    assert_eq!(summary.active_count, 14);
    assert_eq!(summary.total_upload, (0..12).sum::<i64>() + 11 + 1000);
    assert_eq!(summary.top_domains.len(), 10);
    assert_eq!(summary.top_domains[0], ("h11.example".to_string(), 11));
    assert_eq!(summary.top_domains[1], ("h11b.example".to_string(), 11));
    assert_eq!(summary.top_domains[2], ("h10.example".to_string(), 10));
    assert_eq!(summary.top_domains[9], ("h03.example".to_string(), 3));
    assert_eq!(
        summary.top_rules,
        vec![("R0".to_string(), 5), ("R1".to_string(), 4), ("R2".to_string(), 4)]
    );
}

#[test]
fn summary_saturates_and_ignores_negative_counters() {
    let mut table = KeyedTable::new();
    table.insert(sample_record("a", "big.example", "MATCH", i64::MAX, -5));
    table.insert(sample_record("b", "big.example", "MATCH", 10, -1));

    let summary = build_summary(&table);

    assert_eq!(summary.total_upload, i64::MAX);
    assert_eq!(summary.total_download, 0);
    assert_eq!(summary.top_domains, vec![("big.example".to_string(), i64::MAX)]);
}

#[test]
fn top_lists_rank_by_amount_then_name_and_keep_ten() {
    let domains: Vec<(String, i64)> = (0..12).map(|i| (format!("host{i:02}"), (i % 4) as i64)).collect();
    let top = sort_top_domains(domains);
    assert_eq!(top.len(), 10);
    assert_eq!(top[0], ("host03".to_string(), 3));
    assert_eq!(top[1], ("host07".to_string(), 3));
    assert_eq!(top[2], ("host11".to_string(), 3));
    assert_eq!(top[3], ("host02".to_string(), 2));
    assert_eq!(top[8], ("host09".to_string(), 1));
    assert_eq!(top[9], ("host00".to_string(), 0));

    let rules = sort_top_rules(vec![("MATCH".to_string(), 2), ("DIRECT".to_string(), 2), ("GEOIP".to_string(), 5)]);
    assert_eq!(
        rules,
        vec![("GEOIP".to_string(), 5), ("DIRECT".to_string(), 2), ("MATCH".to_string(), 2)]
    );
    assert!(sort_top_rules(vec![]).is_empty());
}

#[test]
fn summary_does_not_depend_on_connection_order() {
    let records = vec![
        sample_record("a", "one.example", "R1", 5, 1),
        sample_record("b", "two.example", "R2", 7, 2),
        sample_record("c", "one.example", "R1", 3, 3),
        sample_record("d", "three.example", "R3", 7, 0),
    ];
    let mut forward = KeyedTable::new();
    for record in records.iter().cloned() {
        forward.insert(record);
    }
    let mut backward = KeyedTable::new();
    for record in records.iter().rev().cloned() {
        backward.insert(record);
    }
    assert_eq!(build_summary(&forward), build_summary(&backward));
}
