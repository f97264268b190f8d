//! Comparing two snapshots of the proxy core's connection list.
use vstd::prelude::*;
use crate::clock::{format_rfc3339, in_utc_range, rfc3339_text, utc_now};
use crate::record::ConnectionRecord;
use crate::table::{as_map, Keyed, KeyedTable};

verus! {

/// The current UTC time as RFC 3339 text, as `Utc::now().to_rfc3339()` gives
/// it; the time is read from the clock.
fn now_rfc3339() -> (r: String)
    ensures
        exists|secs: int, nanos: int| in_utc_range(secs) && 0 <= nanos < 1_000_000_000 && r@ == rfc3339_text(secs, nanos),
{
    let (secs, nanos) = utc_now();
    format_rfc3339(secs, nanos)
}

/// A connection that disappeared from the snapshot, and when that was seen.
#[derive(Debug)]
pub struct ClosedConnectionRecord {
    pub id: String,
    pub host: String,
    pub close_time: String,
}

impl Keyed for ClosedConnectionRecord {
    open spec fn key(&self) -> Seq<char> {
        self.id@
    }

    fn key_str(&self) -> (r: &str) {
        self.id.as_str()
    }
}

impl Clone for ClosedConnectionRecord {
    fn clone(&self) -> (r: Self)
        ensures
            r == *self,
    {
        ClosedConnectionRecord {
            id: self.id.clone(),
            host: self.host.clone(),
            close_time: self.close_time.clone(),
        }
    }
}

/// A connection whose counters or metadata changed between snapshots.
#[derive(Debug)]
pub struct UpdatedConnectionRecord {
    pub current: ConnectionRecord,
    pub previous: ConnectionRecord,
}

/// What changed between two snapshots.
#[derive(Debug)]
pub struct SnapshotDiff {
    pub opened: Vec<ConnectionRecord>,
    pub updated: Vec<UpdatedConnectionRecord>,
    pub closed: Vec<ClosedConnectionRecord>,
}

impl SnapshotDiff {
    /// Whether nothing changed.
    pub fn is_empty(&self) -> (r: bool)
        ensures
            r == (self.opened@.len() == 0 && self.updated@.len() == 0 && self.closed@.len() == 0),
    {
        self.opened.len() == 0 && self.updated.len() == 0 && self.closed.len() == 0
    }
}

/// The current records, in order, whose identifier the previous snapshot
/// lacks.
pub open spec fn opened_records(previous: Map<Seq<char>, ConnectionRecord>, current: Seq<ConnectionRecord>) -> Seq<ConnectionRecord>
    decreases current.len(),
{
    if current.len() == 0 {
        Seq::empty()
    } else {
        let rest = opened_records(previous, current.drop_last());
        if previous.contains_key(current.last().id@) {
            rest
        } else {
            rest.push(current.last())
        }
    }
}

/// The current records, in order, that the previous snapshot holds with a
/// different observation, each paired with its previous reading.
pub open spec fn updated_records(previous: Map<Seq<char>, ConnectionRecord>, current: Seq<ConnectionRecord>) -> Seq<(ConnectionRecord, ConnectionRecord)>
    decreases current.len(),
{
    if current.len() == 0 {
        Seq::empty()
    } else {
        let rest = updated_records(previous, current.drop_last());
        let c = current.last();
        if previous.contains_key(c.id@) && !previous[c.id@].same_observation(c) {
            rest.push((c, previous[c.id@]))
        } else {
            rest
        }
    }
}

/// The previous records, in order, whose identifier the current snapshot
/// lacks, as (identifier, host).
pub open spec fn closed_records(previous: Seq<ConnectionRecord>, current: Map<Seq<char>, ConnectionRecord>) -> Seq<(Seq<char>, Seq<char>)>
    decreases previous.len(),
{
    if previous.len() == 0 {
        Seq::empty()
    } else {
        let rest = closed_records(previous.drop_last(), current);
        let p = previous.last();
        if current.contains_key(p.id@) {
            rest
        } else {
            rest.push((p.id@, p.host@))
        }
    }
}

/// Classifies every connection of two snapshots as opened, updated or
/// closed; closed ones are stamped with one reading of the clock.
pub fn diff_snapshots(
    previous_connections: &KeyedTable<ConnectionRecord>,
    current_connections: &KeyedTable<ConnectionRecord>,
) -> (r: SnapshotDiff)
    requires
        previous_connections.wf(),
        current_connections.wf(),
    ensures
        r.opened@ == opened_records(previous_connections.map(), current_connections.items()),
        r.updated@.map_values(|u: UpdatedConnectionRecord| (u.current, u.previous))
            == updated_records(previous_connections.map(), current_connections.items()),
        r.closed@.map_values(|c: ClosedConnectionRecord| (c.id@, c.host@))
            == closed_records(previous_connections.items(), current_connections.map()),
        forall|i: int, j: int|
            0 <= i < r.closed@.len() && 0 <= j < r.closed@.len() ==> #[trigger] r.closed@[i].close_time@
                == #[trigger] r.closed@[j].close_time@,
{
    let mut opened: Vec<ConnectionRecord> = Vec::new();
    let mut updated: Vec<UpdatedConnectionRecord> = Vec::new();
    let n = current_connections.len();
    let ghost cur = current_connections.items();
    let ghost prev = previous_connections.map();
    let mut i: usize = 0;
    while i < n
        invariant
            i <= n,
            n == cur.len(),
            cur == current_connections.items(),
            prev == previous_connections.map(),
            previous_connections.wf(),
            opened@ == opened_records(prev, cur.take(i as int)),
            updated@.map_values(|u: UpdatedConnectionRecord| (u.current, u.previous))
                == updated_records(prev, cur.take(i as int)),
        decreases n - i,
    {
        let current_record = current_connections.at(i);
        proof {
            assert(cur.take(i + 1).drop_last() =~= cur.take(i as int));
            assert(cur.take(i + 1).last() == cur[i as int]);
        }
        let ghost before = updated@;
        match previous_connections.get(current_record.id.as_str()) {
            Some(previous_record) => {
                if !previous_record.same_as(current_record) {
                    updated.push(
                        UpdatedConnectionRecord {
                            current: current_record.clone(),
                            previous: previous_record.clone(),
                        },
                    );
                    proof {
                        assert(updated@.map_values(|u: UpdatedConnectionRecord| (u.current, u.previous))
                            =~= before.map_values(|u: UpdatedConnectionRecord| (u.current, u.previous)).push(
                            (cur[i as int], prev[cur[i as int].id@]),
                        ));
                    }
                }
            },
            None => {
                opened.push(current_record.clone());
            },
        }
        i = i + 1;
    }
    proof {
        assert(cur.take(n as int) =~= cur);
    }
    let close_time = now_rfc3339();
    let mut closed: Vec<ClosedConnectionRecord> = Vec::new();
    let m = previous_connections.len();
    let ghost prev_items = previous_connections.items();
    let ghost curm = current_connections.map();
    let mut j: usize = 0;
    while j < m
        invariant
            j <= m,
            m == prev_items.len(),
            prev_items == previous_connections.items(),
            curm == current_connections.map(),
            current_connections.wf(),
            closed@.map_values(|c: ClosedConnectionRecord| (c.id@, c.host@))
                == closed_records(prev_items.take(j as int), curm),
            forall|a: int| 0 <= a < closed@.len() ==> #[trigger] closed@[a].close_time@ == close_time@,
        decreases m - j,
    {
        let previous_record = previous_connections.at(j);
        proof {
            assert(prev_items.take(j + 1).drop_last() =~= prev_items.take(j as int));
            assert(prev_items.take(j + 1).last() == prev_items[j as int]);
        }
        let ghost before = closed@;
        if !current_connections.contains_key(previous_record.id.as_str()) {
            closed.push(
                ClosedConnectionRecord {
                    id: previous_record.id.clone(),
                    host: previous_record.host.clone(),
                    close_time: close_time.clone(),
                },
            );
            proof {
                assert(closed@.map_values(|c: ClosedConnectionRecord| (c.id@, c.host@))
                    =~= before.map_values(|c: ClosedConnectionRecord| (c.id@, c.host@)).push(
                    (prev_items[j as int].id@, prev_items[j as int].host@),
                ));
            }
        }
        j = j + 1;
    }
    proof {
        assert(prev_items.take(m as int) =~= prev_items);
    }
    SnapshotDiff { opened, updated, closed }
}


/// The pending observation records after a snapshot: an unchanged
/// connection is queued with its latest reading, a changed, new or closed one
/// is dropped from the queue, and other entries stay.
pub open spec fn synced_pending(
    previous: Map<Seq<char>, ConnectionRecord>,
    current: Map<Seq<char>, ConnectionRecord>,
    pending: Map<Seq<char>, ConnectionRecord>,
) -> Map<Seq<char>, ConnectionRecord> {
    Map::new(
        |k: Seq<char>|
            if current.contains_key(k) {
                previous.contains_key(k) && previous[k].same_observation(current[k])
            } else {
                !previous.contains_key(k) && pending.contains_key(k)
            },
        |k: Seq<char>|
            if current.contains_key(k) {
                current[k]
            } else {
                pending[k]
            },
    )
}

/// Whether one of the first `n` records has identifier `k`.
pub open spec fn key_among(s: Seq<ConnectionRecord>, n: int, k: Seq<char>) -> bool {
    exists|j: int| 0 <= j < n && #[trigger] s[j].id@ == k
}

proof fn lemma_key_among_step(s: Seq<ConnectionRecord>, n: int, k: Seq<char>)
    requires
        0 <= n < s.len(),
    ensures
        key_among(s, n + 1, k) == (key_among(s, n, k) || s[n].id@ == k),
{
    if key_among(s, n + 1, k) && s[n].id@ != k {
        let j = choose|j: int| 0 <= j < n + 1 && #[trigger] s[j].id@ == k;
        assert(0 <= j < n && s[j].id@ == k);
    }
    if key_among(s, n, k) {
        let j = choose|j: int| 0 <= j < n && #[trigger] s[j].id@ == k;
        assert(0 <= j < n + 1 && s[j].id@ == k);
    }
    if s[n].id@ == k {
        assert(0 <= n < n + 1 && s[n].id@ == k);
    }
}

/// Queues unchanged connections for an observation-time update and drops
/// the others from the queue.
pub fn sync_pending_observation_records(
    previous_connections: &KeyedTable<ConnectionRecord>,
    current_connections: &KeyedTable<ConnectionRecord>,
    pending_observation_records: &mut KeyedTable<ConnectionRecord>,
)
    requires
        previous_connections.wf(),
        current_connections.wf(),
        old(pending_observation_records).wf(),
    ensures
        final(pending_observation_records).wf(),
        final(pending_observation_records).map() == synced_pending(
            previous_connections.map(),
            current_connections.map(),
            old(pending_observation_records).map(),
        ),
{
    let ghost old_pending = pending_observation_records.map();
    let ghost prev = previous_connections.map();
    let ghost curm = current_connections.map();
    let ghost cur = current_connections.items();
    let n = current_connections.len();
    let mut i: usize = 0;
    while i < n
        invariant
            i <= n,
            n == cur.len(),
            cur == current_connections.items(),
            curm == current_connections.map(),
            prev == previous_connections.map(),
            previous_connections.wf(),
            current_connections.wf(),
            pending_observation_records.wf(),
            forall|k: Seq<char>|
                #[trigger] key_among(cur, i as int, k) ==> (
                pending_observation_records.map().contains_key(k) == (prev.contains_key(k)
                    && prev[k].same_observation(curm[k])) && (
                pending_observation_records.map().contains_key(k)
                    ==> pending_observation_records.map()[k] == curm[k])),
            forall|k: Seq<char>|
                !#[trigger] key_among(cur, i as int, k) ==> (
                pending_observation_records.map().contains_key(k) == old_pending.contains_key(k)
                    && (pending_observation_records.map().contains_key(k)
                    ==> pending_observation_records.map()[k] == old_pending[k])),
        decreases n - i,
    {
        let current_record = current_connections.at(i);
        proof {
            crate::table::lemma_as_map_value(cur, i as int);
        }
        let ghost k = cur[i as int].id@;
        let ghost before = pending_observation_records.map();
        match previous_connections.get(current_record.id.as_str()) {
            Some(previous_record) => {
                if previous_record.same_as(current_record) {
                    pending_observation_records.insert(current_record.clone());
                } else {
                    let _ = pending_observation_records.remove(current_record.id.as_str());
                }
            },
            None => {
                let _ = pending_observation_records.remove(current_record.id.as_str());
            },
        }
        proof {
            assert forall|k2: Seq<char>| #[trigger] key_among(cur, i + 1, k2) implies (
                pending_observation_records.map().contains_key(k2) == (prev.contains_key(k2)
                    && prev[k2].same_observation(curm[k2])) && (
                pending_observation_records.map().contains_key(k2)
                    ==> pending_observation_records.map()[k2] == curm[k2])) by {
                lemma_key_among_step(cur, i as int, k2);
                if k2 != k {
                    assert(key_among(cur, i as int, k2));
                }
            }
            assert forall|k2: Seq<char>| !#[trigger] key_among(cur, i + 1, k2) implies (
                pending_observation_records.map().contains_key(k2) == old_pending.contains_key(k2)
                    && (pending_observation_records.map().contains_key(k2)
                    ==> pending_observation_records.map()[k2] == old_pending[k2])) by {
                lemma_key_among_step(cur, i as int, k2);
                assert(!key_among(cur, i as int, k2));
            }
        }
        i = i + 1;
    }
    let ghost mid = pending_observation_records.map();
    let ghost prev_items = previous_connections.items();
    let m = previous_connections.len();
    let mut j: usize = 0;
    while j < m
        invariant
            j <= m,
            m == prev_items.len(),
            prev_items == previous_connections.items(),
            curm == current_connections.map(),
            current_connections.wf(),
            pending_observation_records.wf(),
            forall|k: Seq<char>|
                #[trigger] pending_observation_records.map().contains_key(k) == (mid.contains_key(k)
                    && !(!curm.contains_key(k) && key_among(prev_items, j as int, k))),
            forall|k: Seq<char>|
                #[trigger] pending_observation_records.map().contains_key(k)
                    ==> pending_observation_records.map()[k] == mid[k],
        decreases m - j,
    {
        let previous_record = previous_connections.at(j);
        let ghost k = prev_items[j as int].id@;
        if !current_connections.contains_key(previous_record.id.as_str()) {
            let _ = pending_observation_records.remove(previous_record.id.as_str());
        }
        proof {
            assert forall|k2: Seq<char>| #[trigger] pending_observation_records.map().contains_key(k2) == (mid.contains_key(k2)
                && !(!curm.contains_key(k2) && key_among(prev_items, j + 1, k2))) by {
                lemma_key_among_step(prev_items, j as int, k2);
            }
        }
        j = j + 1;
    }
    proof {
        let target = synced_pending(prev, curm, old_pending);
        let fin = pending_observation_records.map();
        assert forall|k: Seq<char>| #[trigger] fin.contains_key(k) == target.contains_key(k) by {
            crate::table::lemma_as_map_domain(cur, k);
            crate::table::lemma_as_map_domain(prev_items, k);
            if key_among(cur, n as int, k) {
                let a = choose|a: int| 0 <= a < n && #[trigger] cur[a].id@ == k;
                assert(cur[a].key() == k);
                assert(curm.contains_key(k));
            } else {
                if curm.contains_key(k) {
                    let a = choose|a: int| 0 <= a < cur.len() && #[trigger] cur[a].key() == k;
                    assert(cur[a].id@ == k);
                }
            }
            if key_among(prev_items, m as int, k) {
                let a = choose|a: int| 0 <= a < m && #[trigger] prev_items[a].id@ == k;
                assert(prev_items[a].key() == k);
                assert(prev.contains_key(k));
            } else if prev.contains_key(k) {
                let a = choose|a: int| 0 <= a < prev_items.len() && #[trigger] prev_items[a].key() == k;
                assert(prev_items[a].id@ == k);
            }
        }
        assert forall|k: Seq<char>| #[trigger] fin.contains_key(k) implies fin[k] == target[k] by {
            crate::table::lemma_as_map_domain(cur, k);
            crate::table::lemma_as_map_domain(prev_items, k);
            assert(target.contains_key(k));
            if curm.contains_key(k) {
                let a = choose|a: int| 0 <= a < cur.len() && #[trigger] cur[a].key() == k;
                assert(cur[a].id@ == k);
                assert(key_among(cur, n as int, k));
                assert(fin[k] == mid[k]);
            } else {
                if key_among(cur, n as int, k) {
                    let a = choose|a: int| 0 <= a < n && #[trigger] cur[a].id@ == k;
                    assert(cur[a].key() == k);
                }
                assert(!key_among(cur, n as int, k));
                assert(fin[k] == mid[k]);
                assert(mid[k] == old_pending[k]);
            }
        }
        assert(fin =~= target);
    }
}

/// Close records for `records`, each stamped `close_time`.
pub open spec fn closes_of(records: Seq<ConnectionRecord>, close_time: String) -> Seq<ClosedConnectionRecord> {
    records.map_values(
        |r: ConnectionRecord| ClosedConnectionRecord { id: r.id, host: r.host, close_time: close_time },
    )
}

/// Puts close updates into the pending set; a later update for the same
/// connection replaces an earlier one.
pub fn restore_close_updates(
    pending_close_updates: &mut KeyedTable<ClosedConnectionRecord>,
    updates: Vec<ClosedConnectionRecord>,
)
    requires
        old(pending_close_updates).wf(),
    ensures
        final(pending_close_updates).wf(),
        final(pending_close_updates).map() == old(pending_close_updates).map().union_prefer_right(
            as_map(updates@),
        ),
{
    let ghost start = pending_close_updates.map();
    let mut i: usize = 0;
    proof {
        assert(updates@.take(0) =~= Seq::<ClosedConnectionRecord>::empty());
        assert(start.union_prefer_right(Map::empty()) =~= start);
    }
    while i < updates.len()
        invariant
            i <= updates@.len(),
            pending_close_updates.wf(),
            pending_close_updates.map() == start.union_prefer_right(as_map(updates@.take(i as int))),
        decreases updates@.len() - i,
    {
        let u = updates[i].clone();
        pending_close_updates.insert(u);
        proof {
            assert(updates@.take(i + 1).drop_last() =~= updates@.take(i as int));
            assert(updates@.take(i + 1).last() == updates@[i as int]);
            assert(pending_close_updates.map() =~= start.union_prefer_right(
                as_map(updates@.take(i + 1)),
            ));
        }
        i = i + 1;
    }
    proof {
        assert(updates@.take(updates@.len() as int) =~= updates@);
    }
}

/// Treats every connection still open as closed now: the open set is emptied
/// and a close update, stamped with one reading of the clock, is queued for
/// each of them.
pub fn collect_active_connection_closes(
    previous_connections: &mut KeyedTable<ConnectionRecord>,
    pending_close_updates: &mut KeyedTable<ClosedConnectionRecord>,
)
    requires
        old(pending_close_updates).wf(),
    ensures
        final(previous_connections).wf(),
        final(previous_connections).items() == Seq::<ConnectionRecord>::empty(),
        final(pending_close_updates).wf(),
        exists|close_time: String|
            final(pending_close_updates).map() == old(pending_close_updates).map().union_prefer_right(
                as_map(#[trigger] closes_of(old(previous_connections).items(), close_time)),
            ),
{
    let close_time = now_rfc3339();
    let records = previous_connections.drain();
    let mut updates: Vec<ClosedConnectionRecord> = Vec::new();
    let mut i: usize = 0;
    while i < records.len()
        invariant
            i <= records@.len(),
            updates@ == closes_of(records@.take(i as int), close_time),
        decreases records@.len() - i,
    {
        let record = &records[i];
        updates.push(
            ClosedConnectionRecord {
                id: record.id.clone(),
                host: record.host.clone(),
                close_time: close_time.clone(),
            },
        );
        proof {
            assert(closes_of(records@.take(i + 1), close_time) =~= closes_of(records@.take(i as int), close_time).push(
                ClosedConnectionRecord { id: records@[i as int].id, host: records@[i as int].host, close_time: close_time },
            ));
        }
        i = i + 1;
    }
    proof {
        assert(records@.take(records@.len() as int) =~= records@);
    }
    restore_close_updates(pending_close_updates, updates);
}


/// Every connection present in both snapshots whose upload or download
/// counter changed is listed as updated, paired with its previous reading.
pub proof fn lemma_moved_connections_are_updated(
    previous: Map<Seq<char>, ConnectionRecord>,
    current: Seq<ConnectionRecord>,
    i: int,
)
    requires
        0 <= i < current.len(),
        previous.contains_key(current[i].id@),
        current[i].upload != previous[current[i].id@].upload || current[i].download
            != previous[current[i].id@].download,
    ensures
        exists|k: int|
            0 <= k < updated_records(previous, current).len() && #[trigger] updated_records(previous, current)[k]
                == (current[i], previous[current[i].id@]),
    decreases current.len(),
{
    let c = current.last();
    if i == current.len() - 1 {
        assert(c == current[i]);
        crate::record::lemma_moved_counters_are_new_observations(previous[c.id@], c);
        let rest = updated_records(previous, current.drop_last());
        assert(updated_records(previous, current) == rest.push((c, previous[c.id@])));
        assert(updated_records(previous, current)[rest.len() as int] == (c, previous[c.id@]));
    } else {
        assert(current.drop_last()[i] == current[i]);
        lemma_moved_connections_are_updated(previous, current.drop_last(), i);
        let rest = updated_records(previous, current.drop_last());
        let k = choose|k: int| 0 <= k < rest.len() && #[trigger] rest[k] == (current[i], previous[current[i].id@]);
        if previous.contains_key(c.id@) && !previous[c.id@].same_observation(c) {
            assert(updated_records(previous, current)[k] == rest[k]);
        } else {
            assert(updated_records(previous, current) == rest);
        }
    }
}

} // verus!
