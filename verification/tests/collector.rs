use std::time::{Duration, Instant};

use clashmind::buffer::BatchBuffer;
use clashmind::pending::{PendingFlushState, PersistOutcome};
use clashmind::collector::{CollectorError, CollectorLifecycle, CollectorShutdown};
use clashmind::disconnect::{build_disconnect_error_logs, classify_error, extract_proxy_node, normalize_optional_text};
use clashmind::record::ConnectionRecord;
use clashmind::snapshot::{collect_active_connection_closes, diff_snapshots, sync_pending_observation_records, ClosedConnectionRecord};
use clashmind::table::KeyedTable;
use clashmind::session::{
    apply_snapshot_step, collector_step, CollectorAction, CollectorEvent, CollectorLoop, LoopPhase,
};

fn buffer_record(id: &str) -> ConnectionRecord {
    ConnectionRecord {
        id: id.to_string(),
        host: "example.com".into(),
        dst_ip: Some("1.1.1.1".into()),
        dst_port: Some(443),
        src_ip: Some("127.0.0.1".into()),
        src_port: Some(50000),
        network: "tcp".into(),
        conn_type: "HTTPS".into(),
        rule: "MATCH".into(),
        rule_payload: Some("example.com".into()),
        proxy_chain: "[\"DIRECT\"]".into(),
        upload: 1,
        download: 2,
        start_time: "2026-03-30T10:00:00.000Z".into(),
        last_observed_at: Some("2026-03-30T10:00:00.000Z".into()),
    }
}

fn sample_record(id: &str, host: &str, upload: i64, download: i64) -> ConnectionRecord {
    ConnectionRecord {
        id: id.to_string(),
        host: host.to_string(),
        dst_ip: Some("1.1.1.1".into()),
        dst_port: Some(443),
        src_ip: Some("192.168.1.2".into()),
        src_port: Some(12345),
        network: "tcp".into(),
        conn_type: "HTTPS".into(),
        rule: "DOMAIN-SUFFIX".into(),
        rule_payload: Some(host.to_string()),
        proxy_chain: "[\"DIRECT\"]".into(),
        upload,
        download,
        start_time: "2026-03-30T10:00:00.000Z".into(),
        last_observed_at: Some("2026-03-30T10:00:00.000Z".into()),
    }
}

fn table_of(records: Vec<ConnectionRecord>) -> KeyedTable<ConnectionRecord> {
    let mut table = KeyedTable::new();
    for record in records {
        table.insert(record);
    }
    table
}

#[test]
fn push_flushes_when_capacity_is_reached() {
    let mut buffer = BatchBuffer::new(2, Duration::from_secs(30).as_nanos());

    assert!(buffer.push(buffer_record("first")).is_none());
    let drained = buffer.push(buffer_record("second"));

    assert!(drained.is_some());
    let Some(drained) = drained else {
        panic!("capacity flush should return buffered records");
    };

    assert_eq!(drained.len(), 2);
    assert_eq!(buffer.len(), 0);
}

#[test]
fn should_flush_only_when_interval_elapsed_and_buffer_has_records() {
    let mut buffer = BatchBuffer::new(4, Duration::from_millis(5).as_nanos());

    assert!(!buffer.should_flush());
    assert!(buffer.push(buffer_record("first")).is_none());
    assert!(!buffer.should_flush());

    let started = std::time::Instant::now();
    while started.elapsed() < Duration::from_millis(8) {}

    assert!(buffer.should_flush());
}

#[test]
fn restore_puts_records_back_into_the_buffer() {
    let mut buffer = BatchBuffer::new(4, Duration::from_secs(30).as_nanos());

    assert!(buffer.push(buffer_record("first")).is_none());
    let drained = buffer.flush();
    buffer.restore(drained);

    assert_eq!(buffer.len(), 1);
    assert!(buffer.contains_connection("first"));
}

#[test]
fn restore_keeps_restored_records_before_newer_ones() {
    let mut buffer = BatchBuffer::new(10, Duration::from_secs(30).as_nanos());
    assert!(buffer.push(buffer_record("old")).is_none());
    let drained = buffer.flush();
    assert!(buffer.push(buffer_record("new")).is_none());
    buffer.restore(drained);

    let all = buffer.flush();
    assert_eq!(all.len(), 2);
    assert_eq!(all[0].id, "old");
    assert_eq!(all[1].id, "new");
    assert_eq!(buffer.len(), 0);
}

#[test]
fn zero_capacity_buffer_flushes_every_record() {
    let mut buffer = BatchBuffer::new(0, Duration::from_secs(30).as_nanos());
    let drained = buffer.push(buffer_record("only"));
    assert_eq!(drained.map(|records| records.len()), Some(1));
    assert!(!buffer.contains_connection("only"));
}

#[test]
fn shutdown_signal_flags_close_active_only_for_app_exit() {
    assert!(!CollectorShutdown::Run.should_stop());
    assert!(!CollectorShutdown::Run.should_close_active());
    assert!(CollectorShutdown::Stop.should_stop());
    assert!(!CollectorShutdown::Stop.should_close_active());
    assert!(CollectorShutdown::StopAndCloseActive.should_stop());
    assert!(CollectorShutdown::StopAndCloseActive.should_close_active());
}

#[test]
fn begin_start_rejects_duplicate_start_attempts() {
    let mut state = CollectorLifecycle::new();

    assert!(state.begin_start().is_ok());
    assert!(matches!(state.begin_start(), Err(CollectorError::AlreadyRunning)));
    assert!(state.abort_start().is_ok());
    assert!(state.begin_start().is_ok());
}

#[test]
fn lifecycle_runs_stops_and_restarts() {
    let mut state = CollectorLifecycle::new();
    assert!(!state.is_running());
    assert!(state.begin_stop().is_err());
    assert!(state.begin_start().is_ok());
    assert!(state.start_runtime().is_ok());
    assert!(state.is_running());
    assert!(state.begin_stop().is_ok());
    assert!(matches!(state.begin_start(), Err(CollectorError::AlreadyRunning)));
    assert!(state.finish(true));
    assert!(!state.is_running());
    assert!(state.begin_start().is_ok());
}

#[test]
fn classify_error_covers_common_disconnect_patterns() {
    assert_eq!(classify_error("i/o timeout"), "timeout");
    assert_eq!(classify_error("lookup api.example: no such host"), "dns");
    assert_eq!(classify_error("tls handshake failure"), "tls");
    assert_eq!(classify_error("connection reset by peer"), "connection");
    assert_eq!(classify_error("unexpected websocket close"), "other");
}

#[test]
fn classify_error_prefers_timeout_over_later_categories_and_ignores_case() {
    assert_eq!(classify_error("DNS lookup TIMED OUT"), "timeout");
    assert_eq!(classify_error("X509: certificate signed by unknown authority"), "tls");
    assert_eq!(classify_error("Broken Pipe"), "connection");
    assert_eq!(classify_error(""), "other");
}

#[test]
fn build_disconnect_error_logs_uses_active_connection_metadata() {
    let mut proxy_record = sample_record("proxy", "api.example", 1, 1);
    proxy_record.rule = "MATCH".into();
    proxy_record.proxy_chain = "[\"Selector\", \"Proxy-A\"]".into();

    let mut direct_record = sample_record("direct", "dns.example", 1, 1);
    direct_record.rule = "RULE-SET".into();
    direct_record.proxy_chain = "[\"DIRECT\"]".into();

    let previous_connections = table_of(vec![proxy_record, direct_record]);

    let logs = build_disconnect_error_logs(&previous_connections, "lookup api.example: no such host");

    assert_eq!(logs.len(), 2);
    assert_eq!(logs[0].category, "dns");
    assert_eq!(logs[0].message, "lookup api.example: no such host");
    assert_eq!(logs[0].proxy_node.as_deref(), Some("DIRECT"));
    assert_eq!(logs[0].host.as_deref(), Some("dns.example"));
    assert_eq!(logs[0].rule.as_deref(), Some("RULE-SET"));
    assert_eq!(logs[1].proxy_node.as_deref(), Some("Proxy-A"));
    assert_eq!(logs[1].host.as_deref(), Some("api.example"));
    assert_eq!(logs[1].rule.as_deref(), Some("MATCH"));
}

#[test]
fn build_disconnect_error_logs_handles_blank_messages_and_no_connections() {
    let empty = table_of(vec![]);
    assert!(build_disconnect_error_logs(&empty, "   ").is_empty());

    let logs = build_disconnect_error_logs(&empty, "  connection refused  ");
    assert_eq!(logs.len(), 1);
    assert_eq!(logs[0].category, "connection");
    assert_eq!(logs[0].message, "connection refused");
    assert_eq!(logs[0].proxy_node, None);
    assert_eq!(logs[0].host, None);
    assert_eq!(logs[0].rule, None);
}

#[test]
fn build_disconnect_error_logs_merges_identical_metadata() {
    let first = sample_record("a", "same.example", 1, 1);
    let second = sample_record("b", "same.example", 2, 2);
    let logs = build_disconnect_error_logs(&table_of(vec![first, second]), "read timeout");
    assert_eq!(logs.len(), 1);
    assert_eq!(logs[0].category, "timeout");
    assert_eq!(logs[0].proxy_node.as_deref(), Some("DIRECT"));
}

#[test]
fn extract_proxy_node_reads_last_chain_entry_or_plain_text() {
    assert_eq!(extract_proxy_node("[\"Selector\", \"Proxy-A\"]").as_deref(), Some("Proxy-A"));
    assert_eq!(extract_proxy_node("[\"Proxy-B\", \"  \"]").as_deref(), Some("Proxy-B"));
    assert_eq!(extract_proxy_node("  plain-node ").as_deref(), Some("plain-node"));
    assert_eq!(extract_proxy_node("[]"), Some("[]".to_string()));
    assert_eq!(extract_proxy_node("   "), None);
}

#[test]
fn normalize_optional_text_trims_and_drops_blank() {
    assert_eq!(normalize_optional_text("  host  ").as_deref(), Some("host"));
    assert_eq!(normalize_optional_text(" \t "), None);
}

#[test]
fn diff_snapshots_detects_opened_updated_and_closed_connections() {
    let previous_connections = table_of(vec![
        sample_record("kept", "old.example", 1, 1),
        sample_record("closed", "closed.example", 2, 2),
    ]);
    let current_connections = table_of(vec![
        sample_record("kept", "old.example", 3, 4),
        sample_record("opened", "new.example", 5, 6),
    ]);

    let diff = diff_snapshots(&previous_connections, &current_connections);

    assert_eq!(diff.opened.len(), 1);
    assert_eq!(diff.updated.len(), 1);
    assert_eq!(diff.closed.len(), 1);
    assert_eq!(diff.opened[0].id, "opened");
    assert_eq!(diff.updated[0].current.id, "kept");
    assert_eq!(diff.closed[0].id, "closed");
}

#[test]
fn diff_snapshots_ignores_unchanged_connections() {
    let previous_connections = table_of(vec![sample_record("same", "a.example", 1, 1)]);
    let mut current = sample_record("same", "a.example", 1, 1);
    current.last_observed_at = Some("2026-03-30T11:00:00Z".into());
    let current_connections = table_of(vec![current]);

    let diff = diff_snapshots(&previous_connections, &current_connections);
    assert!(diff.is_empty());
}

#[test]
fn sync_pending_observation_records_refreshes_unchanged_connections() {
    let previous_record = sample_record("same", "example.com", 4, 8);
    let mut current_record = sample_record("same", "example.com", 4, 8);
    current_record.last_observed_at = Some("2026-03-30T10:30:00Z".into());

    let previous_connections = table_of(vec![previous_record]);
    let current_connections = table_of(vec![current_record.clone()]);
    let mut pending_observation_records = KeyedTable::new();

    sync_pending_observation_records(&previous_connections, &current_connections, &mut pending_observation_records);

    assert_eq!(pending_observation_records.len(), 1);
    let record = pending_observation_records.get("same");
    assert!(record.is_some());
    let Some(record) = record else {
        panic!("unchanged connection should be queued for observation persistence");
    };
    assert_eq!(record.last_observed_at.as_deref(), Some("2026-03-30T10:30:00Z"));
}

#[test]
fn collect_active_connection_closes_drains_previous_connections() {
    let mut previous_connections = table_of(vec![sample_record("still-open", "example.com", 3, 7)]);
    let mut pending_close_updates: KeyedTable<ClosedConnectionRecord> = KeyedTable::new();

    collect_active_connection_closes(&mut previous_connections, &mut pending_close_updates);

    assert!(previous_connections.is_empty());
    assert_eq!(pending_close_updates.len(), 1);
    let close_update = pending_close_updates.get("still-open");
    assert!(close_update.is_some());
    let Some(close_update) = close_update else {
        panic!("active connection should be converted into a close update");
    };

    assert_eq!(close_update.host, "example.com");
    assert!(!close_update.close_time.is_empty());
}

#[test]
fn failed_write_restores_everything_in_order() {
    let mut state = PendingFlushState::new();
    assert!(state.begin_persist(vec![]).is_none());
    assert!(!state.retry_flush);

    state.traffic_samples.push(clashmind::record::TrafficSampleInsert {
        ts: "2026-03-30T10:00:00Z".into(),
        upload: 1,
        download: 2,
        conn_count: 1,
    });
    let batch = state.begin_persist(vec![buffer_record("a")]).expect("something to write");
    assert!(state.traffic_samples.is_empty());
    assert!(state.batch_buffer.push(buffer_record("b")).is_none());
    state.finish_persist(batch, PersistOutcome::BatchFailed);
    assert!(state.retry_flush);
    assert_eq!(state.traffic_samples.len(), 1);
    let buffered = state.batch_buffer.flush();
    assert_eq!(buffered.iter().map(|r| r.id.as_str()).collect::<Vec<_>>(), vec!["a", "b"]);

    let batch = state.begin_persist(buffered).expect("something to write");
    state.finish_persist(batch, PersistOutcome::Written);
    assert!(!state.retry_flush);
    assert_eq!(state.batch_buffer.len(), 0);
}

fn closed(id: &str, close_time: &str) -> ClosedConnectionRecord {
    ClosedConnectionRecord { id: id.to_string(), host: "example.com".into(), close_time: close_time.to_string() }
}

#[test]
fn closes_of_buffered_connections_need_a_flush_first() {
    let mut state = PendingFlushState::new();
    assert!(state.batch_buffer.push(buffer_record("a")).is_none());
    assert!(state.closes_need_flush(&vec![closed("x", "t1"), closed("a", "t1")]));
    assert!(!state.closes_need_flush(&vec![closed("x", "t1")]));
    assert!(!state.closes_need_flush(&vec![]));
}

#[test]
fn deferred_closes_queue_and_flag_a_retry_only_on_failure() {
    let mut state = PendingFlushState::new();
    state.defer_closes(vec![closed("a", "t1")], false);
    assert!(!state.retry_flush);
    assert_eq!(state.close_updates.len(), 1);
    state.defer_closes(vec![closed("a", "t2"), closed("b", "t2")], true);
    assert!(state.retry_flush);
    assert_eq!(state.close_updates.len(), 2);
    assert_eq!(state.close_updates.get("a").map(|c| c.close_time.as_str()), Some("t2"));
}

#[test]
fn collector_errors_render_their_messages() {
    assert_eq!(CollectorError::AlreadyRunning.to_string(), "采集服务已在运行");
    assert_eq!(
        CollectorError::SnapshotParse("eof".to_string()).to_string(),
        "解析连接快照失败: eof"
    );
}

#[test]
fn enqueue_record_queues_statistics_and_buffers_the_record() {
    let mut state = PendingFlushState::new();
    state.observation_records.insert(sample_record("a", "example.com", 1, 1));
    let record = sample_record("a", "example.com", 10, 20);
    let updates = clashmind::observation::build_observation_updates(&record, None, "2026-03-30T10:30:00Z");
    let samples = updates.traffic_samples.len();
    assert!(samples > 0);
    assert!(state.enqueue_record(record, updates).is_none());
    assert_eq!(state.batch_buffer.len(), 1);
    assert_eq!(state.traffic_samples.len(), samples);
    assert_eq!(state.domain_stats.len(), 1);
    assert!(state.observation_records.is_empty());
}

#[test]
fn flush_decisions_follow_the_elapsed_time() {
    let mut buffer = BatchBuffer::new(4, Duration::from_secs(30).as_nanos());
    assert!(!buffer.should_flush_after(60_000_000_000));
    assert!(buffer.flush_due_after(30_000_000_000));
    assert!(!buffer.flush_due_after(29_999_999_999));
    assert!(buffer.push(buffer_record("first")).is_none());
    assert!(!buffer.should_flush_after(1_000));
    assert!(buffer.should_flush_after(30_000_000_000));
}

#[test]
fn zero_interval_timer_is_always_due() {
    let mut buffer = BatchBuffer::new(4, 0);
    assert!(buffer.flush_due());
    assert!(!buffer.should_flush());
    assert!(buffer.push(buffer_record("first")).is_none());
    assert!(buffer.should_flush());
    let state = PendingFlushState::new();
    assert!(!state.should_flush_after(u128::MAX));
    let mut state = PendingFlushState::new();
    state.batch_buffer.push(buffer_record("first"));
    assert!(!state.should_flush_after(29_999_999_999));
    assert!(state.should_flush_after(30_000_000_000));
    state.retry_flush = true;
    assert!(state.should_flush_after(0));
}

#[test]
fn close_times_are_rfc3339_utc_text() {
    let previous_connections = table_of(vec![sample_record("closed", "closed.example", 2, 2)]);
    let current_connections = table_of(vec![]);
    let diff = diff_snapshots(&previous_connections, &current_connections);
    let close_time = &diff.closed[0].close_time;
    assert!(close_time.ends_with("+00:00"));
    assert!(close_time.len() >= 25);
    assert_eq!(&close_time[4..5], "-");
    assert_eq!(&close_time[10..11], "T");
}

#[test]
fn collector_loop_connects_streams_and_backs_off() {
    let pending = PendingFlushState::new();
    let start = CollectorLoop::new();
    assert_eq!(start.phase, LoopPhase::Connecting);
    assert_eq!(start.retry_delay_secs, 1);
    let (waiting, action) = collector_step(start, CollectorEvent::ConnectFailed, &pending);
    assert_eq!(action, CollectorAction::WaitRetry { secs: 1 });
    let (connecting, action) = collector_step(waiting, CollectorEvent::RetryElapsed, &pending);
    assert_eq!(action, CollectorAction::Connect);
    assert_eq!(connecting.retry_delay_secs, 2);
    let (waiting, _) = collector_step(connecting, CollectorEvent::ConnectFailed, &pending);
    let (connecting, _) = collector_step(waiting, CollectorEvent::RetryElapsed, &pending);
    assert_eq!(connecting.retry_delay_secs, 4);
    let (streaming, action) = collector_step(connecting, CollectorEvent::Connected, &pending);
    assert_eq!(streaming, CollectorLoop { phase: LoopPhase::Streaming, retry_delay_secs: 1 });
    assert_eq!(action, CollectorAction::Continue);
    assert_eq!(collector_step(streaming, CollectorEvent::Text, &pending).1, CollectorAction::ApplySnapshot);
    let (waiting, action) = collector_step(streaming, CollectorEvent::StreamEnded, &pending);
    assert_eq!(waiting.phase, LoopPhase::Waiting);
    assert_eq!(action, CollectorAction::DisconnectAndWait { secs: 1 });
    let slow = CollectorLoop { phase: LoopPhase::Waiting, retry_delay_secs: 20 };
    assert_eq!(collector_step(slow, CollectorEvent::RetryElapsed, &pending).0.retry_delay_secs, 30);
}

#[test]
fn collector_loop_stops_only_on_a_stop_signal() {
    let pending = PendingFlushState::new();
    let streaming = CollectorLoop { phase: LoopPhase::Streaming, retry_delay_secs: 1 };
    assert_eq!(
        collector_step(streaming, CollectorEvent::Shutdown(CollectorShutdown::Run), &pending),
        (streaming, CollectorAction::Continue)
    );
    let connecting = CollectorLoop::new();
    assert_eq!(
        collector_step(connecting, CollectorEvent::Shutdown(CollectorShutdown::Run), &pending).1,
        CollectorAction::Connect
    );
    let (stopped, action) = collector_step(streaming, CollectorEvent::Shutdown(CollectorShutdown::Stop), &pending);
    assert_eq!(stopped.phase, LoopPhase::Stopped);
    assert_eq!(action, CollectorAction::Finish { close_active: false });
    let (stopped, action) =
        collector_step(connecting, CollectorEvent::Shutdown(CollectorShutdown::StopAndCloseActive), &pending);
    assert_eq!(stopped.phase, LoopPhase::Stopped);
    assert_eq!(action, CollectorAction::Finish { close_active: true });
    assert_eq!(collector_step(stopped, CollectorEvent::Connected, &pending), (stopped, CollectorAction::Continue));
}

#[test]
fn collector_loop_ticks_flush_when_the_pending_state_is_due() {
    let streaming = CollectorLoop { phase: LoopPhase::Streaming, retry_delay_secs: 1 };
    let mut pending = PendingFlushState::new();
    assert_eq!(
        collector_step(streaming, CollectorEvent::Tick { elapsed_nanos: 60_000_000_000 }, &pending).1,
        CollectorAction::Continue
    );
    pending.batch_buffer.push(buffer_record("first"));
    assert_eq!(
        collector_step(streaming, CollectorEvent::Tick { elapsed_nanos: 1_000_000_000 }, &pending).1,
        CollectorAction::Continue
    );
    assert_eq!(
        collector_step(streaming, CollectorEvent::Tick { elapsed_nanos: 30_000_000_000 }, &pending).1,
        CollectorAction::Flush
    );
}

#[test]
fn apply_snapshot_step_queues_changes_and_reports_closes() {
    let mut previous = table_of(vec![
        sample_record("kept", "old.example", 1, 1),
        sample_record("same", "same.example", 7, 7),
        sample_record("closed", "closed.example", 2, 2),
    ]);
    let current = table_of(vec![
        sample_record("kept", "old.example", 3, 4),
        sample_record("same", "same.example", 7, 7),
        sample_record("opened", "new.example", 5, 6),
    ]);
    let mut state = PendingFlushState::new();
    let step = apply_snapshot_step(&mut previous, current, "2026-03-30T10:00:10Z", &mut state);
    assert_eq!(step.opened_count, 1);
    assert_eq!(step.updated_count, 1);
    assert_eq!(step.queue.len(), 2);
    assert_eq!(step.queue[0].0.id, "opened");
    assert_eq!(step.queue[1].0.id, "kept");
    assert_eq!(step.queue[1].0.upload, 3);
    assert_eq!(step.closed.len(), 1);
    assert_eq!(step.closed[0].id, "closed");
    assert_eq!(previous.len(), 3);
    assert!(previous.get("opened").is_some());
    assert!(previous.get("closed").is_none());
    assert!(state.observation_records.get("same").is_some());
    assert!(state.observation_records.get("kept").is_none());
    assert_eq!(step.queue[0].1.domain_updates.len(), 1);
    assert_eq!(step.queue[0].1.domain_updates[0].upload, 5);
    assert_eq!(step.queue[1].1.domain_updates[0].upload, 2);
}

#[test]
fn flushes_restart_the_timer_at_their_instant() {
    let mut buffer = BatchBuffer::new(4, Duration::from_secs(30).as_nanos());
    buffer.push(buffer_record("first"));
    buffer.flush_at(Instant::now() - Duration::from_secs(60));
    buffer.push(buffer_record("second"));
    assert!(buffer.should_flush());
    buffer.flush_at(Instant::now());
    buffer.push(buffer_record("third"));
    assert!(!buffer.should_flush());
    let mut small = BatchBuffer::new(1, Duration::from_secs(30).as_nanos());
    assert!(small.push_at(buffer_record("a"), Instant::now() - Duration::from_secs(60)).is_some());
    assert!(small.push_at(buffer_record("b"), Instant::now() - Duration::from_secs(60)).is_some());
    assert!(small.flush_due());
    assert!(small.push_at(buffer_record("c"), Instant::now()).is_some());
    assert!(!small.flush_due());
}
