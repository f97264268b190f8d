//! The collector's connection loop as a state machine: from its state and
//! what just happened, the next state and what to do. The caller performs
//! the action (connect, wait, read, write) and reports what came of it.
use vstd::prelude::*;
use crate::collector::CollectorShutdown;
use crate::connect::next_retry_delay_secs;
use crate::clock::{instant_in_range, instant_of, rfc3339_instant};
use crate::observation::{build_observation_updates, observation_rows, ObservationUpdates};
use crate::pending::PendingFlushState;
use crate::record::ConnectionRecord;
use crate::snapshot::{
    closed_records, diff_snapshots, opened_records, sync_pending_observation_records, synced_pending,
    updated_records, ClosedConnectionRecord, SnapshotDiff, UpdatedConnectionRecord,
};
use crate::table::KeyedTable;

verus! {

/// Seconds before the first reconnection attempt, and after a connection
/// was made.
pub const INITIAL_RETRY_DELAY_SECS: u64 = 1;

/// Where the collector's loop stands.
#[derive(Debug, Clone, Copy, PartialEq, Eq, Structural)]
pub enum LoopPhase {
    /// Connecting to the core's connection stream.
    Connecting,
    /// Reading snapshots from the stream.
    Streaming,
    /// Waiting before the next connection attempt.
    Waiting,
    /// The loop has ended.
    Stopped,
}

/// The state of the collector's loop.
#[derive(Debug, Clone, Copy, PartialEq, Eq, Structural)]
pub struct CollectorLoop {
    pub phase: LoopPhase,
    /// Seconds to wait before the next connection attempt; between 1 and 30.
    pub retry_delay_secs: u64,
}

/// What happened to the collector.
#[derive(Debug, Clone, Copy, PartialEq, Eq, Structural)]
pub enum CollectorEvent {
    /// The stop signal changed to this value.
    Shutdown(CollectorShutdown),
    /// The stream was opened.
    Connected,
    /// The stream address could not be built, or the connection failed.
    ConnectFailed,
    /// The flush timer ticked, this many nanoseconds after the last flush.
    Tick { elapsed_nanos: u128 },
    /// A snapshot arrived on the stream.
    Text,
    /// The stream was closed by the core, failed to read, or ended.
    StreamEnded,
    /// The wait before the next attempt is over.
    RetryElapsed,
}

/// What the caller does next.
#[derive(Debug, Clone, Copy, PartialEq, Eq, Structural)]
pub enum CollectorAction {
    /// Nothing; go on waiting for the next event.
    Continue,
    /// Build the stream address and connect.
    Connect,
    /// Wait this many seconds before the next attempt.
    WaitRetry { secs: u64 },
    /// Write everything pending.
    Flush,
    /// Apply the snapshot that arrived.
    ApplySnapshot,
    /// Clear the live view, write everything pending and record the
    /// disconnection, then wait this many seconds.
    DisconnectAndWait { secs: u64 },
    /// Leave the loop: record open connections as closed when
    /// `close_active`, write everything pending, report that the task is
    /// done.
    Finish { close_active: bool },
}

impl CollectorLoop {
    /// The retry delay stays between 1 and 30 seconds.
    pub open spec fn wf(&self) -> bool {
        1 <= self.retry_delay_secs <= 30
    }

    /// A loop that is about to connect for the first time.
    pub fn new() -> (r: Self)
        ensures
            r.wf(),
            r.phase == LoopPhase::Connecting,
            r.retry_delay_secs == INITIAL_RETRY_DELAY_SECS,
    {
        CollectorLoop { phase: LoopPhase::Connecting, retry_delay_secs: INITIAL_RETRY_DELAY_SECS }
    }
}

/// The retry delay after `secs`: doubled, at most 30 seconds.
pub open spec fn doubled_delay(secs: int) -> int {
    if secs * 2 < 30 {
        secs * 2
    } else {
        30
    }
}

/// The next state of the collector's loop and what to do, after `e` in state
/// `s`; `pending` decides whether a tick writes.
pub fn collector_step(s: CollectorLoop, e: CollectorEvent, pending: &PendingFlushState) -> (r: (CollectorLoop, CollectorAction))
    requires
        s.wf(),
    ensures
        r.0.wf(),
        s.phase == LoopPhase::Stopped ==> r == (s, CollectorAction::Continue),
        r.0.phase == LoopPhase::Stopped ==> s.phase == LoopPhase::Stopped || (e matches CollectorEvent::Shutdown(x)
            && !(x is Run)),
        s.phase != LoopPhase::Stopped ==> match e {
            CollectorEvent::Shutdown(x) => if x is Run {
                if s.phase == LoopPhase::Connecting {
                    r == (s, CollectorAction::Connect)
                } else {
                    r == (s, CollectorAction::Continue)
                }
            } else {
                r.0.phase == LoopPhase::Stopped && r.0.retry_delay_secs == s.retry_delay_secs
                    && r.1 == CollectorAction::Finish { close_active: x is StopAndCloseActive }
            },
            CollectorEvent::Connected => if s.phase == LoopPhase::Connecting {
                r.0 == CollectorLoop { phase: LoopPhase::Streaming, retry_delay_secs: INITIAL_RETRY_DELAY_SECS }
                    && r.1 == CollectorAction::Continue
            } else {
                r == (s, CollectorAction::Continue)
            },
            CollectorEvent::ConnectFailed => if s.phase == LoopPhase::Connecting {
                r.0 == CollectorLoop { phase: LoopPhase::Waiting, retry_delay_secs: s.retry_delay_secs }
                    && r.1 == CollectorAction::WaitRetry { secs: s.retry_delay_secs }
            } else {
                r == (s, CollectorAction::Continue)
            },
            CollectorEvent::Tick { elapsed_nanos } => if s.phase == LoopPhase::Streaming {
                r.0 == s && r.1 == if pending.flush_due_after(elapsed_nanos as int) {
                    CollectorAction::Flush
                } else {
                    CollectorAction::Continue
                }
            } else {
                r == (s, CollectorAction::Continue)
            },
            CollectorEvent::Text => if s.phase == LoopPhase::Streaming {
                r == (s, CollectorAction::ApplySnapshot)
            } else {
                r == (s, CollectorAction::Continue)
            },
            CollectorEvent::StreamEnded => if s.phase == LoopPhase::Streaming {
                r.0 == CollectorLoop { phase: LoopPhase::Waiting, retry_delay_secs: s.retry_delay_secs }
                    && r.1 == CollectorAction::DisconnectAndWait { secs: s.retry_delay_secs }
            } else {
                r == (s, CollectorAction::Continue)
            },
            CollectorEvent::RetryElapsed => if s.phase == LoopPhase::Waiting {
                r.0 == CollectorLoop {
                    phase: LoopPhase::Connecting,
                    retry_delay_secs: doubled_delay(s.retry_delay_secs as int) as u64,
                } && r.1 == CollectorAction::Connect
            } else {
                r == (s, CollectorAction::Continue)
            },
        },
{
    if s.phase == LoopPhase::Stopped {
        return (s, CollectorAction::Continue);
    }
    match e {
        CollectorEvent::Shutdown(x) => {
            if x.should_stop() {
                (
                    CollectorLoop { phase: LoopPhase::Stopped, retry_delay_secs: s.retry_delay_secs },
                    CollectorAction::Finish { close_active: x.should_close_active() },
                )
            } else if s.phase == LoopPhase::Connecting {
                (s, CollectorAction::Connect)
            } else {
                (s, CollectorAction::Continue)
            }
        },
        CollectorEvent::Connected => {
            if s.phase == LoopPhase::Connecting {
                (
                    CollectorLoop { phase: LoopPhase::Streaming, retry_delay_secs: INITIAL_RETRY_DELAY_SECS },
                    CollectorAction::Continue,
                )
            } else {
                (s, CollectorAction::Continue)
            }
        },
        CollectorEvent::ConnectFailed => {
            if s.phase == LoopPhase::Connecting {
                (
                    CollectorLoop { phase: LoopPhase::Waiting, retry_delay_secs: s.retry_delay_secs },
                    CollectorAction::WaitRetry { secs: s.retry_delay_secs },
                )
            } else {
                (s, CollectorAction::Continue)
            }
        },
        CollectorEvent::Tick { elapsed_nanos } => {
            if s.phase == LoopPhase::Streaming {
                if pending.should_flush_after(elapsed_nanos) {
                    (s, CollectorAction::Flush)
                } else {
                    (s, CollectorAction::Continue)
                }
            } else {
                (s, CollectorAction::Continue)
            }
        },
        CollectorEvent::Text => {
            if s.phase == LoopPhase::Streaming {
                (s, CollectorAction::ApplySnapshot)
            } else {
                (s, CollectorAction::Continue)
            }
        },
        CollectorEvent::StreamEnded => {
            if s.phase == LoopPhase::Streaming {
                (
                    CollectorLoop { phase: LoopPhase::Waiting, retry_delay_secs: s.retry_delay_secs },
                    CollectorAction::DisconnectAndWait { secs: s.retry_delay_secs },
                )
            } else {
                (s, CollectorAction::Continue)
            }
        },
        CollectorEvent::RetryElapsed => {
            if s.phase == LoopPhase::Waiting {
                (
                    CollectorLoop {
                        phase: LoopPhase::Connecting,
                        retry_delay_secs: next_retry_delay_secs(s.retry_delay_secs),
                    },
                    CollectorAction::Connect,
                )
            } else {
                (s, CollectorAction::Continue)
            }
        },
    }
}

/// Whether `u` is what `build_observation_updates` gives for the connection
/// `cur`, last seen as `prev`, observed at `observed_at`: the window ends at
/// that instant when it parses, and at some representable instant read from
/// the clock otherwise.
pub open spec fn observation_of(u: ObservationUpdates, cur: ConnectionRecord, prev: Option<ConnectionRecord>, observed_at: Seq<char>) -> bool {
    &&& rfc3339_instant(observed_at) matches Some(t) ==> u.rows() == observation_rows(cur, prev, instant_of(t))
    &&& exists|end: int| instant_in_range(end) && u.rows() == observation_rows(cur, prev, end)
}

/// Whether the traffic counters of every connection seen before grew by an
/// amount that fits in an `i64`.
pub open spec fn deltas_fit(previous: Map<Seq<char>, ConnectionRecord>, current: Seq<ConnectionRecord>) -> bool {
    forall|i: int| 0 <= i < current.len() && previous.contains_key((#[trigger] current[i]).id@) ==> {
        &&& current[i].upload - previous[current[i].id@].upload <= i64::MAX
        &&& current[i].download - previous[current[i].id@].download <= i64::MAX
    }
}

/// Each updated pair is a connection of the current snapshot with the record
/// it had in the previous one.
proof fn lemma_updated_member(previous: Map<Seq<char>, ConnectionRecord>, current: Seq<ConnectionRecord>, k: int)
    requires
        0 <= k < updated_records(previous, current).len(),
    ensures
        exists|i: int| 0 <= i < current.len() && #[trigger] current[i] == updated_records(previous, current)[k].0
            && previous.contains_key(current[i].id@) && updated_records(previous, current)[k].1 == previous[current[i].id@],
    decreases current.len(),
{
    let rest = updated_records(previous, current.drop_last());
    if k < rest.len() {
        lemma_updated_member(previous, current.drop_last(), k);
        let i = choose|i: int| 0 <= i < current.drop_last().len() && #[trigger] current.drop_last()[i] == rest[k].0
            && previous.contains_key(current.drop_last()[i].id@) && rest[k].1 == previous[current.drop_last()[i].id@];
        assert(current[i] == current.drop_last()[i]);
    } else {
        let i = current.len() - 1;
        assert(current[i] == current.last());
    }
}

/// What applying a snapshot leaves to the caller: the connections to queue,
/// in order, each with what its observation contributes, and the
/// connections that closed.
#[derive(Debug)]
pub struct SnapshotStep {
    pub queue: Vec<(ConnectionRecord, ObservationUpdates)>,
    pub opened_count: usize,
    pub updated_count: usize,
    pub closed: Vec<ClosedConnectionRecord>,
}

/// Applies the snapshot `current`, observed at `observed_at`, against the
/// connections seen before (`previous`): the pending observation times are
/// brought up to date, `previous` becomes `current`, and the result lists
/// the opened connections and then the updated ones, each with what its
/// observation contributes, and the connections that closed. Each queued
/// connection goes to `PendingFlushState::enqueue_record`, which may hand
/// out a batch to write; then the closed ones are handled
/// (`PendingFlushState::closes_need_flush`, `PendingFlushState::defer_closes`).
pub fn apply_snapshot_step(
    previous: &mut KeyedTable<ConnectionRecord>,
    current: KeyedTable<ConnectionRecord>,
    observed_at: &str,
    state: &mut PendingFlushState,
) -> (r: SnapshotStep)
    requires
        old(previous).wf(),
        current.wf(),
        old(state).wf(),
        deltas_fit(old(previous).map(), current.items()),
    ensures
        final(previous).wf(),
        final(previous).map() == current.map(),
        final(state).wf(),
        final(state).observation_records.map() == synced_pending(
            old(previous).map(),
            current.map(),
            old(state).observation_records.map(),
        ),
        final(state).batch_buffer == old(state).batch_buffer,
        final(state).domain_stats == old(state).domain_stats,
        final(state).rule_stats == old(state).rule_stats,
        final(state).ip_traffic_stats == old(state).ip_traffic_stats,
        final(state).traffic_samples == old(state).traffic_samples,
        final(state).close_updates == old(state).close_updates,
        final(state).retry_flush == old(state).retry_flush,
        ({
            let opened = opened_records(old(previous).map(), current.items());
            let updated = updated_records(old(previous).map(), current.items());
            &&& r.opened_count == opened.len()
            &&& r.updated_count == updated.len()
            &&& r.queue@.len() == opened.len() + updated.len()
            &&& forall|k: int| 0 <= k < opened.len() ==> (#[trigger] r.queue@[k]).0 == opened[k]
                && observation_of(r.queue@[k].1, opened[k], None, observed_at@)
            &&& forall|k: int| 0 <= k < updated.len() ==> (#[trigger] r.queue@[opened.len() + k]).0 == updated[k].0
                && observation_of(r.queue@[opened.len() + k].1, updated[k].0, Some(updated[k].1), observed_at@)
        }),
        r.closed@.map_values(|c: ClosedConnectionRecord| (c.id@, c.host@)) == closed_records(old(previous).items(), current.map()),
        forall|i: int, j: int|
            0 <= i < r.closed@.len() && 0 <= j < r.closed@.len() ==> #[trigger] r.closed@[i].close_time@
                == #[trigger] r.closed@[j].close_time@,
{
    let ghost prev_map = previous.map();
    let ghost cur_items = current.items();
    let diff = diff_snapshots(previous, &current);
    sync_pending_observation_records(previous, &current, &mut state.observation_records);
    let SnapshotDiff { opened, updated, closed } = diff;
    let mut queue: Vec<(ConnectionRecord, ObservationUpdates)> = Vec::new();
    let mut i: usize = 0;
    while i < opened.len()
        invariant
            i <= opened@.len(),
            queue@.len() == i,
            forall|k: int| 0 <= k < i ==> (#[trigger] queue@[k]).0 == opened@[k]
                && observation_of(queue@[k].1, opened@[k], None, observed_at@),
        decreases opened@.len() - i,
    {
        let u = build_observation_updates(&opened[i], None, observed_at);
        queue.push((opened[i].clone(), u));
        i = i + 1;
    }
    let ghost pairs = updated@.map_values(|u: UpdatedConnectionRecord| (u.current, u.previous));
    let mut j: usize = 0;
    while j < updated.len()
        invariant
            j <= updated@.len(),
            queue@.len() == opened@.len() + j,
            pairs == updated@.map_values(|u: UpdatedConnectionRecord| (u.current, u.previous)),
            pairs == updated_records(prev_map, cur_items),
            deltas_fit(prev_map, cur_items),
            forall|k: int| 0 <= k < opened@.len() ==> (#[trigger] queue@[k]).0 == opened@[k]
                && observation_of(queue@[k].1, opened@[k], None, observed_at@),
            forall|k: int| 0 <= k < j ==> (#[trigger] queue@[opened@.len() + k]).0 == updated@[k].current
                && observation_of(queue@[opened@.len() + k].1, updated@[k].current, Some(updated@[k].previous), observed_at@),
        decreases updated@.len() - j,
    {
        proof {
            lemma_updated_member(prev_map, cur_items, j as int);
            assert(pairs[j as int] == (updated@[j as int].current, updated@[j as int].previous));
        }
        let u = build_observation_updates(&updated[j].current, Some(&updated[j].previous), observed_at);
        let ghost before = queue@;
        queue.push((updated[j].current.clone(), u));
        proof {
            assert forall|k: int| 0 <= k < opened@.len() implies (#[trigger] queue@[k]).0 == opened@[k]
                && observation_of(queue@[k].1, opened@[k], None, observed_at@) by {
                assert(queue@[k] == before[k]);
            }
            assert forall|k: int| 0 <= k < j + 1 implies (#[trigger] queue@[opened@.len() + k]).0 == updated@[k].current
                && observation_of(queue@[opened@.len() + k].1, updated@[k].current, Some(updated@[k].previous), observed_at@) by {
                if k < j {
                    assert(queue@[opened@.len() + k] == before[opened@.len() + k]);
                }
            }
        }
        j = j + 1;
    }
    let opened_count = opened.len();
    let updated_count = updated.len();
    *previous = current;
    proof {
        assert forall|k: int| 0 <= k < updated_records(prev_map, cur_items).len() implies (#[trigger] queue@[opened@.len() + k]).0
            == updated_records(prev_map, cur_items)[k].0 && observation_of(
            queue@[opened@.len() + k].1,
            updated_records(prev_map, cur_items)[k].0,
            Some(updated_records(prev_map, cur_items)[k].1),
            observed_at@,
        ) by {
            assert(pairs[k] == (updated@[k].current, updated@[k].previous));
        }
    }
    SnapshotStep { queue, opened_count, updated_count, closed }
}

} // verus!
