//! Statistics waiting to be written: rows with the same key are merged by
//! adding their counters, so that batching never loses or double-counts
//! traffic.
use vstd::prelude::*;
use crate::buffer::{holds_id, pushed, BatchBuffer, DEFAULT_BATCH_CAPACITY, DEFAULT_FLUSH_INTERVAL_NANOS};
use crate::observation::ObservationUpdates;
use crate::record::{
    ConnectionRecord, DomainStatsUpdate, IpTrafficStatsUpdate, RuleStatsUpdate, StatRow,
    TrafficSampleInsert,
};
use crate::snapshot::{ClosedConnectionRecord, restore_close_updates};
use crate::table::{as_map, KeyedTable};
use crate::text::text_eq;

verus! {

/// Whether two rows have the same key and bucket.
pub open spec fn same_slot(a: StatRow, b: StatRow) -> bool {
    a.0 == b.0 && a.1 == b.1
}

/// Position of the first row in the slot of `u`, or -1.
pub open spec fn slot_index(table: Seq<StatRow>, u: StatRow) -> int
    decreases table.len(),
{
    if table.len() == 0 {
        -1
    } else if same_slot(table.last(), u) && slot_index(table.drop_last(), u) == -1 {
        table.len() - 1
    } else {
        slot_index(table.drop_last(), u)
    }
}

/// `a` with the counters of `b` added.
pub open spec fn added(a: StatRow, b: StatRow) -> StatRow {
    (a.0, a.1, a.2 + b.2, a.3 + b.3, a.4 + b.4)
}

/// Merging a row into a table: added to the row of its slot, else appended.
pub open spec fn merge_row(table: Seq<StatRow>, u: StatRow) -> Seq<StatRow> {
    let i = slot_index(table, u);
    if i >= 0 {
        table.update(i, added(table[i], u))
    } else {
        table.push(u)
    }
}

/// Merging rows into a table one after another.
pub open spec fn merge_rows(table: Seq<StatRow>, incoming: Seq<StatRow>) -> Seq<StatRow>
    decreases incoming.len(),
{
    if incoming.len() == 0 {
        table
    } else {
        merge_rows(merge_row(table, incoming[0]), incoming.drop_first())
    }
}

/// A counter fits in an `i64`.
pub open spec fn fits(x: int) -> bool {
    i64::MIN <= x && x <= i64::MAX
}

/// Every intermediate counter of `merge_rows(table, incoming)` fits in an
/// `i64`.
pub open spec fn merge_fits(table: Seq<StatRow>, incoming: Seq<StatRow>) -> bool
    decreases incoming.len(),
{
    if incoming.len() == 0 {
        true
    } else {
        let i = slot_index(table, incoming[0]);
        &&& (i >= 0 ==> {
            let s = added(table[i], incoming[0]);
            fits(s.2) && fits(s.3) && fits(s.4)
        })
        &&& merge_fits(merge_row(table, incoming[0]), incoming.drop_first())
    }
}

/// Totals of a table's counters: (hits, upload, download).
pub open spec fn totals(table: Seq<StatRow>) -> (int, int, int)
    decreases table.len(),
{
    if table.len() == 0 {
        (0, 0, 0)
    } else {
        let t = totals(table.drop_last());
        (t.0 + table.last().2, t.1 + table.last().3, t.2 + table.last().4)
    }
}

/// A statistics row that can be merged with another of its slot.
pub trait Mergeable: Sized {
    spec fn row(&self) -> StatRow;

    /// Whether `self` and `other` fall into the same slot.
    fn same_slot_as(&self, other: &Self) -> (r: bool)
        ensures
            r == same_slot(self.row(), other.row()),
    ;

    /// Adds the counters of `other` into `self`.
    fn absorb(&mut self, other: Self)
        requires
            fits(old(self).row().2 + other.row().2),
            fits(old(self).row().3 + other.row().3),
            fits(old(self).row().4 + other.row().4),
        ensures
            final(self).row() == added(old(self).row(), other.row()),
    ;
}

impl Mergeable for DomainStatsUpdate {
    open spec fn row(&self) -> StatRow {
        DomainStatsUpdate::row(*self)
    }

    fn same_slot_as(&self, other: &Self) -> (r: bool) {
        text_eq(self.domain.as_str(), other.domain.as_str()) && text_eq(self.day.as_str(), other.day.as_str())
    }

    fn absorb(&mut self, other: Self) {
        self.hit_count = self.hit_count + other.hit_count;
        self.upload = self.upload + other.upload;
        self.download = self.download + other.download;
    }
}

impl Mergeable for RuleStatsUpdate {
    open spec fn row(&self) -> StatRow {
        RuleStatsUpdate::row(*self)
    }

    fn same_slot_as(&self, other: &Self) -> (r: bool) {
        text_eq(self.rule.as_str(), other.rule.as_str()) && text_eq(self.day.as_str(), other.day.as_str())
    }

    fn absorb(&mut self, other: Self) {
        self.hit_count = self.hit_count + other.hit_count;
        self.upload = self.upload + other.upload;
        self.download = self.download + other.download;
    }
}

impl Mergeable for IpTrafficStatsUpdate {
    open spec fn row(&self) -> StatRow {
        IpTrafficStatsUpdate::row(*self)
    }

    fn same_slot_as(&self, other: &Self) -> (r: bool) {
        text_eq(self.dst_ip.as_str(), other.dst_ip.as_str()) && text_eq(self.day.as_str(), other.day.as_str())
    }

    fn absorb(&mut self, other: Self) {
        self.upload = self.upload + other.upload;
        self.download = self.download + other.download;
    }
}

/// The rows of a table of mergeable updates.
pub open spec fn rows_of<T: Mergeable>(v: Seq<T>) -> Seq<StatRow> {
    v.map_values(|x: T| x.row())
}

proof fn lemma_slot_index_first(table: Seq<StatRow>, u: StatRow)
    ensures
        -1 <= slot_index(table, u) < table.len(),
        slot_index(table, u) >= 0 ==> same_slot(table[slot_index(table, u)], u),
        forall|j: int|
            0 <= j < table.len() && (slot_index(table, u) == -1 || j < slot_index(table, u))
                ==> !same_slot(#[trigger] table[j], u),
    decreases table.len(),
{
    if table.len() > 0 {
        lemma_slot_index_first(table.drop_last(), u);
        assert forall|j: int|
            0 <= j < table.len() && (slot_index(table, u) == -1 || j < slot_index(table, u))
                implies !same_slot(#[trigger] table[j], u) by {
            if j < table.len() - 1 {
                assert(table[j] == table.drop_last()[j]);
            }
        }
    }
}

/// Merges `value` into `table`: added to the entry of its slot, else
/// appended.
pub fn merge_into<T: Mergeable>(table: &mut Vec<T>, value: T)
    requires
        merge_fits(rows_of(old(table)@), seq![value.row()]),
    ensures
        rows_of(final(table)@) == merge_row(rows_of(old(table)@), value.row()),
{
    let ghost rows = rows_of(table@);
    proof {
        lemma_slot_index_first(rows, value.row());
    }
    let mut i: usize = 0;
    while i < table.len()
        invariant
            i <= table@.len(),
            rows == rows_of(table@),
            rows == rows_of(old(table)@),
            merge_fits(rows, seq![value.row()]),
            forall|j: int| 0 <= j < i ==> !same_slot(#[trigger] rows[j], value.row()),
        decreases table@.len() - i,
    {
        if table[i].same_slot_as(&value) {
            proof {
                lemma_slot_index_first(rows, value.row());
                assert(rows[i as int] == table@[i as int].row());
                assert(same_slot(rows[i as int], value.row()));
                assert(slot_index(rows, value.row()) == i as int);
                assert(seq![value.row()][0] == value.row());
            }
            let mut entry = table.remove(i);
            entry.absorb(value);
            table.insert(i, entry);
            proof {
                assert(rows_of(table@) =~= rows.update(i as int, added(rows[i as int], value.row())));
            }
            return;
        }
        i = i + 1;
    }
    proof {
        if slot_index(rows, value.row()) >= 0 {
            assert(!same_slot(rows[slot_index(rows, value.row())], value.row()));
        }
    }
    table.push(value);
    proof {
        assert(rows_of(table@) =~= rows.push(value.row()));
    }
}

proof fn lemma_merge_rows_step(table: Seq<StatRow>, incoming: Seq<StatRow>, i: int)
    requires
        0 <= i < incoming.len(),
    ensures
        merge_rows(table, incoming.take(i + 1)) == merge_row(merge_rows(table, incoming.take(i)), incoming[i]),
        merge_fits(table, incoming.take(i + 1)) == (merge_fits(table, incoming.take(i))
            && merge_fits(merge_rows(table, incoming.take(i)), seq![incoming[i]])),
    decreases i,
{
    if i == 0 {
        let e = Seq::<StatRow>::empty();
        assert(incoming.take(1).drop_first() =~= e);
        assert(incoming.take(0) =~= e);
        assert(seq![incoming[0]].drop_first() =~= e);
        assert(incoming.take(1)[0] == incoming[0]);
        assert(merge_rows(table, e) == table);
        assert(merge_rows(merge_row(table, incoming[0]), e) == merge_row(table, incoming[0]));
        assert(merge_rows(table, incoming.take(1)) == merge_row(table, incoming[0]));
        assert(merge_fits(table, e));
        assert(merge_fits(merge_row(table, incoming[0]), e));
    } else {
        let rest = incoming.drop_first();
        lemma_merge_rows_step(merge_row(table, incoming[0]), rest, i - 1);
        assert(incoming.take(i + 1).drop_first() =~= rest.take(i));
        assert(incoming.take(i).drop_first() =~= rest.take(i - 1));
        assert(incoming.take(i + 1)[0] == incoming[0]);
        assert(incoming.take(i)[0] == incoming[0]);
        assert(rest[i - 1] == incoming[i]);
    }
}

proof fn lemma_merge_fits_prefix(table: Seq<StatRow>, incoming: Seq<StatRow>, i: int)
    requires
        0 <= i <= incoming.len(),
        merge_fits(table, incoming),
    ensures
        merge_fits(table, incoming.take(i)),
        i < incoming.len() ==> merge_fits(merge_rows(table, incoming.take(i)), seq![incoming[i]]),
    decreases incoming.len() - i,
{
    if i == incoming.len() {
        assert(incoming.take(i) =~= incoming);
    } else {
        lemma_merge_fits_prefix(table, incoming, i + 1);
        lemma_merge_rows_step(table, incoming, i);
    }
}

/// Merges every update of `incoming` into `table`, in order.
pub fn merge_all<T: Mergeable>(table: &mut Vec<T>, incoming: Vec<T>)
    requires
        merge_fits(rows_of(old(table)@), rows_of(incoming@)),
    ensures
        rows_of(final(table)@) == merge_rows(rows_of(old(table)@), rows_of(incoming@)),
{
    let ghost start = rows_of(table@);
    let ghost inc = rows_of(incoming@);
    let mut incoming = incoming;
    let mut rest: Vec<T> = Vec::new();
    let n = incoming.len();
    proof {
        assert(inc.take(0) =~= Seq::<StatRow>::empty());
    }
    let mut i: usize = 0;
    while i < n
        invariant
            i <= n,
            n == inc.len(),
            incoming@.len() == n - i,
            forall|j: int| 0 <= j < n - i ==> #[trigger] incoming@[j].row() == inc[i + j],
            merge_fits(start, inc),
            rows_of(table@) == merge_rows(start, inc.take(i as int)),
        decreases n - i,
    {
        let ghost before = incoming@;
        let value = incoming.remove(0);
        proof {
            assert(value.row() == inc[i as int]);
            assert forall|j: int| 0 <= j < n - (i + 1) implies #[trigger] incoming@[j].row() == inc[i + 1 + j] by {
                assert(incoming@[j] == before[j + 1]);
            }
            lemma_merge_fits_prefix(start, inc, i as int);
            lemma_merge_rows_step(start, inc, i as int);
        }
        merge_into(table, value);
        i = i + 1;
    }
    proof {
        assert(inc.take(n as int) =~= inc);
    }
}

/// Merging a row adds its counters to the table's totals.
pub proof fn lemma_merge_row_totals(table: Seq<StatRow>, u: StatRow)
    ensures
        totals(merge_row(table, u)) == (totals(table).0 + u.2, totals(table).1 + u.3, totals(table).2 + u.4),
{
    lemma_slot_index_first(table, u);
    let i = slot_index(table, u);
    if i >= 0 {
        lemma_totals_update(table, i, added(table[i], u));
    } else {
        assert(table.push(u).drop_last() =~= table);
    }
}

proof fn lemma_totals_update(table: Seq<StatRow>, i: int, x: StatRow)
    requires
        0 <= i < table.len(),
    ensures
        totals(table.update(i, x)).0 == totals(table).0 - table[i].2 + x.2,
        totals(table.update(i, x)).1 == totals(table).1 - table[i].3 + x.3,
        totals(table.update(i, x)).2 == totals(table).2 - table[i].4 + x.4,
    decreases table.len(),
{
    if i == table.len() - 1 {
        assert(table.update(i, x).drop_last() =~= table.drop_last());
    } else {
        lemma_totals_update(table.drop_last(), i, x);
        assert(table.update(i, x).drop_last() =~= table.drop_last().update(i, x));
    }
}

/// Merging loses no traffic: the totals of hits, upload and download after
/// merging are the totals before plus those of the merged rows.
pub proof fn lemma_merge_rows_totals(table: Seq<StatRow>, incoming: Seq<StatRow>)
    ensures
        totals(merge_rows(table, incoming)) == (
            totals(table).0 + totals(incoming).0,
            totals(table).1 + totals(incoming).1,
            totals(table).2 + totals(incoming).2,
        ),
    decreases incoming.len(),
{
    if incoming.len() > 0 {
        lemma_merge_row_totals(table, incoming[0]);
        lemma_merge_rows_totals(merge_row(table, incoming[0]), incoming.drop_first());
        lemma_totals_front(incoming);
    }
}

proof fn lemma_totals_front(s: Seq<StatRow>)
    requires
        s.len() > 0,
    ensures
        totals(s) == (
            s[0].2 + totals(s.drop_first()).0,
            s[0].3 + totals(s.drop_first()).1,
            s[0].4 + totals(s.drop_first()).2,
        ),
    decreases s.len(),
{
    if s.len() == 1 {
        assert(s.drop_last() =~= Seq::<StatRow>::empty());
        assert(s.drop_first() =~= Seq::<StatRow>::empty());
    } else {
        lemma_totals_front(s.drop_last());
        assert(s.drop_last().drop_first() =~= s.drop_first().drop_last());
        assert(s.drop_first().last() == s.last());
    }
}


/// No two rows share a slot.
pub open spec fn distinct_slots(t: Seq<StatRow>) -> bool {
    forall|i: int, j: int| 0 <= i < t.len() && 0 <= j < t.len() && i != j ==> !same_slot(#[trigger] t[i], #[trigger] t[j])
}

proof fn lemma_merge_row_distinct(t: Seq<StatRow>, u: StatRow)
    requires
        distinct_slots(t),
    ensures
        distinct_slots(merge_row(t, u)),
{
    lemma_slot_index_first(t, u);
    let m = merge_row(t, u);
    assert forall|i: int, j: int| 0 <= i < m.len() && 0 <= j < m.len() && i != j implies !same_slot(#[trigger] m[i], #[trigger] m[j]) by {
        if slot_index(t, u) < 0 {
            if i == t.len() {
                assert(!same_slot(t[j], u));
            } else if j == t.len() {
                assert(!same_slot(t[i], u));
            }
        }
    }
}

proof fn lemma_merge_rows_distinct(t: Seq<StatRow>, incoming: Seq<StatRow>)
    requires
        distinct_slots(t),
    ensures
        distinct_slots(merge_rows(t, incoming)),
    decreases incoming.len(),
{
    if incoming.len() > 0 {
        lemma_merge_row_distinct(t, incoming[0]);
        lemma_merge_rows_distinct(merge_row(t, incoming[0]), incoming.drop_first());
    }
}

proof fn lemma_merge_rows_fresh(t: Seq<StatRow>, incoming: Seq<StatRow>)
    requires
        distinct_slots(t + incoming),
    ensures
        merge_rows(t, incoming) == t + incoming,
        merge_fits(t, incoming),
    decreases incoming.len(),
{
    if incoming.len() == 0 {
        assert(t + incoming =~= t);
    } else {
        let u = incoming[0];
        lemma_slot_index_first(t, u);
        if slot_index(t, u) >= 0 {
            let k = slot_index(t, u);
            assert((t + incoming)[k] == t[k]);
            assert((t + incoming)[t.len() as int] == u);
        }
        assert(merge_row(t, u) == t.push(u));
        assert(t.push(u) + incoming.drop_first() =~= t + incoming);
        lemma_merge_rows_fresh(t.push(u), incoming.drop_first());
    }
}

/// Restoring drained statistics into an emptied table gives the table back
/// as it was: a failed write loses nothing and duplicates nothing.
pub proof fn lemma_drain_restore_round_trip(rows: Seq<StatRow>)
    requires
        distinct_slots(rows),
    ensures
        merge_fits(Seq::empty(), rows),
        merge_rows(Seq::empty(), rows) == rows,
{
    assert(Seq::<StatRow>::empty() + rows =~= rows);
    lemma_merge_rows_fresh(Seq::empty(), rows);
}

/// Everything that a flush writes, taken out of the pending state.
#[derive(Debug)]
pub struct DrainedState {
    pub domain_updates: Vec<DomainStatsUpdate>,
    pub rule_updates: Vec<RuleStatsUpdate>,
    pub ip_traffic_updates: Vec<IpTrafficStatsUpdate>,
    pub observation_records: Vec<ConnectionRecord>,
    pub traffic_samples: Vec<TrafficSampleInsert>,
    pub close_updates: Vec<ClosedConnectionRecord>,
}

/// Statistics, observation times and close times waiting to be written.
#[derive(Debug)]
pub struct PendingFlushState {
    pub batch_buffer: BatchBuffer,
    pub domain_stats: Vec<DomainStatsUpdate>,
    pub rule_stats: Vec<RuleStatsUpdate>,
    pub ip_traffic_stats: Vec<IpTrafficStatsUpdate>,
    pub observation_records: KeyedTable<ConnectionRecord>,
    pub traffic_samples: Vec<TrafficSampleInsert>,
    pub close_updates: KeyedTable<ClosedConnectionRecord>,
    pub retry_flush: bool,
}

/// Puts drained observation records back into the pending table; a record
/// already pending under the same id is replaced by the drained one.
fn restore_records(table: &mut KeyedTable<ConnectionRecord>, records: Vec<ConnectionRecord>)
    requires
        old(table).wf(),
    ensures
        final(table).wf(),
        final(table).map() == old(table).map().union_prefer_right(as_map(records@)),
{
    let ghost start = table.map();
    let mut i: usize = 0;
    proof {
        assert(records@.take(0) =~= Seq::<ConnectionRecord>::empty());
        assert(start.union_prefer_right(Map::empty()) =~= start);
    }
    while i < records.len()
        invariant
            i <= records@.len(),
            table.wf(),
            table.map() == start.union_prefer_right(as_map(records@.take(i as int))),
        decreases records@.len() - i,
    {
        table.insert(records[i].clone());
        proof {
            assert(records@.take(i + 1).drop_last() =~= records@.take(i as int));
            assert(records@.take(i + 1).last() == records@[i as int]);
            assert(table.map() =~= start.union_prefer_right(as_map(records@.take(i + 1))));
        }
        i = i + 1;
    }
    proof {
        assert(records@.take(records@.len() as int) =~= records@);
    }
}

impl PendingFlushState {
    /// Each statistics table holds one row per slot, and each keyed table one
    /// entry per identifier.
    pub open spec fn wf(&self) -> bool {
        &&& distinct_slots(rows_of(self.domain_stats@))
        &&& distinct_slots(rows_of(self.rule_stats@))
        &&& distinct_slots(rows_of(self.ip_traffic_stats@))
        &&& self.observation_records.wf()
        &&& self.close_updates.wf()
    }

    /// An empty pending state with the default batch size and interval.
    pub fn new() -> (r: Self)
        ensures
            r.wf(),
            r.batch_buffer@ == Seq::<ConnectionRecord>::empty(),
            r.batch_buffer.batch_capacity() == DEFAULT_BATCH_CAPACITY,
            r.batch_buffer.interval_nanos() == DEFAULT_FLUSH_INTERVAL_NANOS,
            r.domain_stats@.len() == 0,
            r.rule_stats@.len() == 0,
            r.ip_traffic_stats@.len() == 0,
            r.observation_records.items().len() == 0,
            r.traffic_samples@.len() == 0,
            r.close_updates.items().len() == 0,
            !r.retry_flush,
    {
        PendingFlushState {
            batch_buffer: BatchBuffer::new(DEFAULT_BATCH_CAPACITY, DEFAULT_FLUSH_INTERVAL_NANOS),
            domain_stats: Vec::new(),
            rule_stats: Vec::new(),
            ip_traffic_stats: Vec::new(),
            observation_records: KeyedTable::new(),
            traffic_samples: Vec::new(),
            close_updates: KeyedTable::new(),
            retry_flush: false,
        }
    }

    /// Whether anything the timer writes is waiting: buffered records,
    /// observation times or close times.
    pub open spec fn timed_work_waiting(&self) -> bool {
        self.batch_buffer@.len() > 0 || self.observation_records.items().len() > 0
            || self.close_updates.items().len() > 0
    }

    /// Whether a timer tick writes after `elapsed_nanos` nanoseconds since the
    /// last flush: a failed write is pending, or the interval passed with
    /// records, observation times or close times waiting.
    pub open spec fn flush_due_after(&self, elapsed_nanos: int) -> bool {
        self.retry_flush || (elapsed_nanos >= self.batch_buffer.interval_nanos() && self.timed_work_waiting())
    }

    /// Whether a timer tick should write after `elapsed_nanos` nanoseconds
    /// since the last flush.
    pub fn should_flush_after(&self, elapsed_nanos: u128) -> (r: bool)
        ensures
            r == self.flush_due_after(elapsed_nanos as int),
    {
        self.retry_flush || (self.batch_buffer.flush_due_after(elapsed_nanos) && (self.batch_buffer.len() > 0
            || !self.observation_records.is_empty() || !self.close_updates.is_empty()))
    }

    /// Whether a timer tick should write now: `should_flush_after` of the
    /// time since the buffer's last flush, read from the clock. Whatever the
    /// clock says, a pending retry always writes, nothing is written with
    /// nothing waiting, and a zero interval writes whatever is waiting.
    pub fn should_flush(&self) -> (r: bool)
        ensures
            self.retry_flush ==> r,
            r ==> self.retry_flush || self.timed_work_waiting(),
            self.batch_buffer.interval_nanos() == 0 && self.timed_work_waiting() ==> r,
    {
        self.should_flush_after(self.batch_buffer.elapsed_since_flush())
    }

    /// Whether nothing but buffered records is waiting.
    pub fn is_all_empty(&self) -> (r: bool)
        ensures
            r == (self.domain_stats@.len() == 0 && self.rule_stats@.len() == 0
                && self.ip_traffic_stats@.len() == 0 && self.observation_records.items().len() == 0
                && self.traffic_samples@.len() == 0 && self.close_updates.items().len() == 0),
    {
        self.domain_stats.len() == 0 && self.rule_stats.len() == 0 && self.ip_traffic_stats.len() == 0
            && self.observation_records.is_empty() && self.traffic_samples.len() == 0
            && self.close_updates.is_empty()
    }

    /// Queues the statistics of one observation of the connection `record_id`;
    /// its pending observation-time update is dropped, as the record itself
    /// will be written.
    pub fn enqueue_updates(&mut self, updates: ObservationUpdates, record_id: &str)
        requires
            old(self).wf(),
            merge_fits(rows_of(old(self).domain_stats@), rows_of(updates.domain_updates@)),
            merge_fits(rows_of(old(self).rule_stats@), rows_of(updates.rule_updates@)),
            merge_fits(rows_of(old(self).ip_traffic_stats@), rows_of(updates.ip_traffic_updates@)),
        ensures
            final(self).wf(),
            final(self).observation_records.map() == old(self).observation_records.map().remove(record_id@),
            rows_of(final(self).domain_stats@) == merge_rows(rows_of(old(self).domain_stats@), rows_of(updates.domain_updates@)),
            rows_of(final(self).rule_stats@) == merge_rows(rows_of(old(self).rule_stats@), rows_of(updates.rule_updates@)),
            rows_of(final(self).ip_traffic_stats@) == merge_rows(rows_of(old(self).ip_traffic_stats@), rows_of(updates.ip_traffic_updates@)),
            final(self).traffic_samples@ == old(self).traffic_samples@ + updates.traffic_samples@,
            final(self).close_updates == old(self).close_updates,
            final(self).batch_buffer == old(self).batch_buffer,
            final(self).retry_flush == old(self).retry_flush,
    {
        let _ = self.observation_records.remove(record_id);
        let ObservationUpdates { domain_updates, rule_updates, ip_traffic_updates, traffic_samples } = updates;
        proof {
            lemma_merge_rows_distinct(rows_of(self.domain_stats@), rows_of(domain_updates@));
            lemma_merge_rows_distinct(rows_of(self.rule_stats@), rows_of(rule_updates@));
            lemma_merge_rows_distinct(rows_of(self.ip_traffic_stats@), rows_of(ip_traffic_updates@));
        }
        merge_all(&mut self.domain_stats, domain_updates);
        merge_all(&mut self.rule_stats, rule_updates);
        merge_all(&mut self.ip_traffic_stats, ip_traffic_updates);
        let mut samples = traffic_samples;
        self.traffic_samples.append(&mut samples);
    }

    /// Takes everything waiting out for one write.
    pub fn drain_all(&mut self) -> (r: DrainedState)
        requires
            old(self).wf(),
        ensures
            final(self).wf(),
            r.domain_updates@ == old(self).domain_stats@,
            r.rule_updates@ == old(self).rule_stats@,
            r.ip_traffic_updates@ == old(self).ip_traffic_stats@,
            r.observation_records@ == old(self).observation_records.items(),
            r.traffic_samples@ == old(self).traffic_samples@,
            r.close_updates@ == old(self).close_updates.items(),
            final(self).domain_stats@.len() == 0,
            final(self).rule_stats@.len() == 0,
            final(self).ip_traffic_stats@.len() == 0,
            final(self).observation_records.items().len() == 0,
            final(self).traffic_samples@.len() == 0,
            final(self).close_updates.items().len() == 0,
            final(self).batch_buffer == old(self).batch_buffer,
            final(self).retry_flush == old(self).retry_flush,
    {
        let mut domain_updates = Vec::new();
        std::mem::swap(&mut domain_updates, &mut self.domain_stats);
        let mut rule_updates = Vec::new();
        std::mem::swap(&mut rule_updates, &mut self.rule_stats);
        let mut ip_traffic_updates = Vec::new();
        std::mem::swap(&mut ip_traffic_updates, &mut self.ip_traffic_stats);
        let mut traffic_samples = Vec::new();
        std::mem::swap(&mut traffic_samples, &mut self.traffic_samples);
        let observation_records = self.observation_records.drain();
        let close_updates = self.close_updates.drain();
        proof {
            assert(rows_of(self.domain_stats@) =~= Seq::<StatRow>::empty());
            assert(rows_of(self.rule_stats@) =~= Seq::<StatRow>::empty());
            assert(rows_of(self.ip_traffic_stats@) =~= Seq::<StatRow>::empty());
        }
        DrainedState {
            domain_updates,
            rule_updates,
            ip_traffic_updates,
            observation_records,
            traffic_samples,
            close_updates,
        }
    }

    /// Puts a drained batch back after a failed write, merging it with what
    /// was queued since.
    pub fn restore_all(&mut self, drained: DrainedState)
        requires
            old(self).wf(),
            merge_fits(rows_of(old(self).domain_stats@), rows_of(drained.domain_updates@)),
            merge_fits(rows_of(old(self).rule_stats@), rows_of(drained.rule_updates@)),
            merge_fits(rows_of(old(self).ip_traffic_stats@), rows_of(drained.ip_traffic_updates@)),
        ensures
            final(self).wf(),
            rows_of(final(self).domain_stats@) == merge_rows(rows_of(old(self).domain_stats@), rows_of(drained.domain_updates@)),
            rows_of(final(self).rule_stats@) == merge_rows(rows_of(old(self).rule_stats@), rows_of(drained.rule_updates@)),
            rows_of(final(self).ip_traffic_stats@) == merge_rows(rows_of(old(self).ip_traffic_stats@), rows_of(drained.ip_traffic_updates@)),
            final(self).observation_records.map() == old(self).observation_records.map().union_prefer_right(
                as_map(drained.observation_records@),
            ),
            final(self).traffic_samples@ == old(self).traffic_samples@ + drained.traffic_samples@,
            final(self).close_updates.map() == old(self).close_updates.map().union_prefer_right(
                as_map(drained.close_updates@),
            ),
            final(self).batch_buffer == old(self).batch_buffer,
            final(self).retry_flush == old(self).retry_flush,
    {
        let DrainedState {
            domain_updates,
            rule_updates,
            ip_traffic_updates,
            observation_records,
            traffic_samples,
            close_updates,
        } = drained;
        proof {
            lemma_merge_rows_distinct(rows_of(self.domain_stats@), rows_of(domain_updates@));
            lemma_merge_rows_distinct(rows_of(self.rule_stats@), rows_of(rule_updates@));
            lemma_merge_rows_distinct(rows_of(self.ip_traffic_stats@), rows_of(ip_traffic_updates@));
        }
        merge_all(&mut self.domain_stats, domain_updates);
        merge_all(&mut self.rule_stats, rule_updates);
        merge_all(&mut self.ip_traffic_stats, ip_traffic_updates);
        restore_records(&mut self.observation_records, observation_records);
        let mut samples = traffic_samples;
        self.traffic_samples.append(&mut samples);
        crate::snapshot::restore_close_updates(&mut self.close_updates, close_updates);
    }
}


/// A write in progress: the buffered records and everything that was
/// pending.
#[derive(Debug)]
pub struct PersistBatch {
    pub records: Vec<ConnectionRecord>,
    pub drained: DrainedState,
}

impl PersistBatch {
    /// The drained statistics hold one row per slot.
    pub open spec fn wf(&self) -> bool {
        &&& distinct_slots(rows_of(self.drained.domain_updates@))
        &&& distinct_slots(rows_of(self.drained.rule_updates@))
        &&& distinct_slots(rows_of(self.drained.ip_traffic_updates@))
    }
}

/// How a write went.
#[derive(Debug, Clone, Copy, PartialEq, Eq, Structural)]
pub enum PersistOutcome {
    /// The database could not be reached; nothing was written.
    PoolUnavailable,
    /// The records and statistics could not be written.
    BatchFailed,
    /// Everything but the close times was written.
    ClosesFailed,
    /// Everything was written.
    Written,
}

impl PendingFlushState {
    /// Nothing is waiting in any table.
    pub open spec fn all_empty(&self) -> bool {
        &&& self.domain_stats@.len() == 0
        &&& self.rule_stats@.len() == 0
        &&& self.ip_traffic_stats@.len() == 0
        &&& self.observation_records.items().len() == 0
        &&& self.traffic_samples@.len() == 0
        &&& self.close_updates.items().len() == 0
    }

    /// Starts writing `records` together with everything pending. With
    /// nothing to write, the retry flag is cleared and no write starts.
    pub fn begin_persist(&mut self, records: Vec<ConnectionRecord>) -> (r: Option<PersistBatch>)
        requires
            old(self).wf(),
        ensures
            final(self).wf(),
            final(self).batch_buffer == old(self).batch_buffer,
            records@.len() == 0 && old(self).all_empty() ==> r is None && !final(self).retry_flush
                && final(self).all_empty(),
            !(records@.len() == 0 && old(self).all_empty()) ==> {
                &&& r is Some
                &&& r->0.wf()
                &&& r->0.records@ == records@
                &&& r->0.drained.domain_updates@ == old(self).domain_stats@
                &&& r->0.drained.rule_updates@ == old(self).rule_stats@
                &&& r->0.drained.ip_traffic_updates@ == old(self).ip_traffic_stats@
                &&& r->0.drained.observation_records@ == old(self).observation_records.items()
                &&& r->0.drained.traffic_samples@ == old(self).traffic_samples@
                &&& r->0.drained.close_updates@ == old(self).close_updates.items()
                &&& final(self).all_empty()
                &&& final(self).retry_flush == old(self).retry_flush
            },
    {
        if records.len() == 0 && self.is_all_empty() {
            self.retry_flush = false;
            return None;
        }
        let drained = self.drain_all();
        Some(PersistBatch { records, drained })
    }

    /// Ends a write. When nothing was written, the records go back in front
    /// of the buffer and the statistics back into their tables; when only the
    /// close times failed, they go back; either way a retry is flagged. A
    /// full write clears the flag.
    pub fn finish_persist(&mut self, batch: PersistBatch, outcome: PersistOutcome)
        requires
            old(self).wf(),
            batch.wf(),
            old(self).domain_stats@.len() == 0,
            old(self).rule_stats@.len() == 0,
            old(self).ip_traffic_stats@.len() == 0,
        ensures
            final(self).wf(),
            final(self).retry_flush == (outcome != PersistOutcome::Written),
            outcome == PersistOutcome::PoolUnavailable || outcome == PersistOutcome::BatchFailed ==> {
                &&& final(self).batch_buffer@ == batch.records@ + old(self).batch_buffer@
                &&& rows_of(final(self).domain_stats@) == rows_of(batch.drained.domain_updates@)
                &&& rows_of(final(self).rule_stats@) == rows_of(batch.drained.rule_updates@)
                &&& rows_of(final(self).ip_traffic_stats@) == rows_of(batch.drained.ip_traffic_updates@)
                &&& final(self).observation_records.map() == old(self).observation_records.map().union_prefer_right(
                    as_map(batch.drained.observation_records@),
                )
                &&& final(self).traffic_samples@ == old(self).traffic_samples@ + batch.drained.traffic_samples@
                &&& final(self).close_updates.map() == old(self).close_updates.map().union_prefer_right(
                    as_map(batch.drained.close_updates@),
                )
            },
            outcome == PersistOutcome::ClosesFailed ==> {
                &&& final(self).batch_buffer == old(self).batch_buffer
                &&& final(self).domain_stats == old(self).domain_stats
                &&& final(self).rule_stats == old(self).rule_stats
                &&& final(self).ip_traffic_stats == old(self).ip_traffic_stats
                &&& final(self).observation_records == old(self).observation_records
                &&& final(self).traffic_samples == old(self).traffic_samples
                &&& final(self).close_updates.map() == old(self).close_updates.map().union_prefer_right(
                    as_map(batch.drained.close_updates@),
                )
            },
            outcome == PersistOutcome::Written ==> {
                &&& final(self).batch_buffer == old(self).batch_buffer
                &&& final(self).domain_stats == old(self).domain_stats
                &&& final(self).rule_stats == old(self).rule_stats
                &&& final(self).ip_traffic_stats == old(self).ip_traffic_stats
                &&& final(self).observation_records == old(self).observation_records
                &&& final(self).traffic_samples == old(self).traffic_samples
                &&& final(self).close_updates == old(self).close_updates
            },
    {
        let PersistBatch { records, drained } = batch;
        match outcome {
            PersistOutcome::PoolUnavailable | PersistOutcome::BatchFailed => {
                proof {
                    assert(rows_of(self.domain_stats@) =~= Seq::<StatRow>::empty());
                    assert(rows_of(self.rule_stats@) =~= Seq::<StatRow>::empty());
                    assert(rows_of(self.ip_traffic_stats@) =~= Seq::<StatRow>::empty());
                    lemma_drain_restore_round_trip(rows_of(drained.domain_updates@));
                    lemma_drain_restore_round_trip(rows_of(drained.rule_updates@));
                    lemma_drain_restore_round_trip(rows_of(drained.ip_traffic_updates@));
                }
                self.batch_buffer.restore(records);
                self.restore_all(drained);
                self.retry_flush = true;
            },
            PersistOutcome::ClosesFailed => {
                let DrainedState { domain_updates: _, rule_updates: _, ip_traffic_updates: _, observation_records: _, traffic_samples: _, close_updates } = drained;
                crate::snapshot::restore_close_updates(&mut self.close_updates, close_updates);
                self.retry_flush = true;
            },
            PersistOutcome::Written => {
                self.retry_flush = false;
            },
        }
    }
}
impl PendingFlushState {
    /// Whether one of the connections that just closed still has its record
    /// in the buffer, so the buffer must be written before their close times.
    pub fn closes_need_flush(&self, closed: &Vec<ClosedConnectionRecord>) -> (r: bool)
        ensures
            r == exists|i: int| 0 <= i < closed@.len() && holds_id(self.batch_buffer@, (#[trigger] closed@[i]).id@),
    {
        let mut i: usize = 0;
        while i < closed.len()
            invariant
                i <= closed@.len(),
                forall|k: int| 0 <= k < i ==> !holds_id(self.batch_buffer@, (#[trigger] closed@[k]).id@),
            decreases closed@.len() - i,
        {
            if self.batch_buffer.contains_connection(closed[i].id.as_str()) {
                return true;
            }
            i = i + 1;
        }
        false
    }

    /// Queues one observed connection: its statistics go to the tables and
    /// the record to the buffer; a full buffer hands back the batch to write.
    pub fn enqueue_record(&mut self, record: ConnectionRecord, updates: ObservationUpdates) -> (r: Option<Vec<ConnectionRecord>>)
        requires
            old(self).wf(),
            merge_fits(rows_of(old(self).domain_stats@), rows_of(updates.domain_updates@)),
            merge_fits(rows_of(old(self).rule_stats@), rows_of(updates.rule_updates@)),
            merge_fits(rows_of(old(self).ip_traffic_stats@), rows_of(updates.ip_traffic_updates@)),
        ensures
            final(self).wf(),
            final(self).observation_records.map() == old(self).observation_records.map().remove(record.id@),
            rows_of(final(self).domain_stats@) == merge_rows(rows_of(old(self).domain_stats@), rows_of(updates.domain_updates@)),
            rows_of(final(self).rule_stats@) == merge_rows(rows_of(old(self).rule_stats@), rows_of(updates.rule_updates@)),
            rows_of(final(self).ip_traffic_stats@) == merge_rows(rows_of(old(self).ip_traffic_stats@), rows_of(updates.ip_traffic_updates@)),
            final(self).traffic_samples@ == old(self).traffic_samples@ + updates.traffic_samples@,
            final(self).close_updates == old(self).close_updates,
            final(self).retry_flush == old(self).retry_flush,
            final(self).batch_buffer.batch_capacity() == old(self).batch_buffer.batch_capacity(),
            ({
                let (batch, rest) = pushed(old(self).batch_buffer@, old(self).batch_buffer.batch_capacity(), record);
                &&& final(self).batch_buffer@ == rest
                &&& match r {
                    Some(v) => batch == Some(v@),
                    None => batch is None,
                }
            }),
    {
        self.enqueue_updates(updates, record.id.as_str());
        self.batch_buffer.push(record)
    }

    /// Queues close times that were not written: a write is already being
    /// retried, or writing them failed (`failed`), which flags a retry.
    pub fn defer_closes(&mut self, closed: Vec<ClosedConnectionRecord>, failed: bool)
        requires
            old(self).wf(),
        ensures
            final(self).wf(),
            final(self).close_updates.map() == old(self).close_updates.map().union_prefer_right(as_map(closed@)),
            final(self).retry_flush == (old(self).retry_flush || failed),
            final(self).batch_buffer == old(self).batch_buffer,
            final(self).domain_stats == old(self).domain_stats,
            final(self).rule_stats == old(self).rule_stats,
            final(self).ip_traffic_stats == old(self).ip_traffic_stats,
            final(self).observation_records == old(self).observation_records,
            final(self).traffic_samples == old(self).traffic_samples,
    {
        restore_close_updates(&mut self.close_updates, closed);
        if failed {
            self.retry_flush = true;
        }
    }
}

/// A write that fails right after everything was drained gives the pending
/// state back as it was: restoring what `drain_all` took out of `before` into
/// the emptied state yields the same statistics rows, the same observation
/// times, samples and close times.
pub proof fn lemma_pending_drain_restore(before: PendingFlushState, emptied: PendingFlushState)
    requires
        before.wf(),
        emptied.all_empty(),
    ensures
        merge_rows(rows_of(emptied.domain_stats@), rows_of(before.domain_stats@)) == rows_of(before.domain_stats@),
        merge_rows(rows_of(emptied.rule_stats@), rows_of(before.rule_stats@)) == rows_of(before.rule_stats@),
        merge_rows(rows_of(emptied.ip_traffic_stats@), rows_of(before.ip_traffic_stats@)) == rows_of(before.ip_traffic_stats@),
        emptied.observation_records.map().union_prefer_right(as_map(before.observation_records.items()))
            == before.observation_records.map(),
        emptied.traffic_samples@ + before.traffic_samples@ == before.traffic_samples@,
        emptied.close_updates.map().union_prefer_right(as_map(before.close_updates.items())) == before.close_updates.map(),
{
    assert(rows_of(emptied.domain_stats@) =~= Seq::<StatRow>::empty());
    assert(rows_of(emptied.rule_stats@) =~= Seq::<StatRow>::empty());
    assert(rows_of(emptied.ip_traffic_stats@) =~= Seq::<StatRow>::empty());
    lemma_drain_restore_round_trip(rows_of(before.domain_stats@));
    lemma_drain_restore_round_trip(rows_of(before.rule_stats@));
    lemma_drain_restore_round_trip(rows_of(before.ip_traffic_stats@));
    assert(emptied.observation_records.map() =~= Map::<Seq<char>, ConnectionRecord>::empty());
    assert(emptied.observation_records.map().union_prefer_right(before.observation_records.map())
        =~= before.observation_records.map());
    assert(emptied.close_updates.map() =~= Map::<Seq<char>, ClosedConnectionRecord>::empty());
    assert(emptied.close_updates.map().union_prefer_right(before.close_updates.map()) =~= before.close_updates.map());
    assert(emptied.traffic_samples@ + before.traffic_samples@ =~= before.traffic_samples@);
}


/// The flush-timer law: without a pending retry, a timer tick writes exactly
/// when at least the buffer's flush interval has passed since its last flush
/// and something is waiting; a pending retry always writes.
pub proof fn lemma_flush_waits_for_interval(s: PendingFlushState, elapsed_nanos: int)
    ensures
        s.retry_flush ==> s.flush_due_after(elapsed_nanos),
        !s.retry_flush ==> (s.flush_due_after(elapsed_nanos) <==> elapsed_nanos >= s.batch_buffer.interval_nanos() && (
        s.batch_buffer@.len() > 0 || s.observation_records.items().len() > 0 || s.close_updates.items().len() > 0)),
        !s.retry_flush && elapsed_nanos < s.batch_buffer.interval_nanos() ==> !s.flush_due_after(elapsed_nanos),
{
}

} // verus!
