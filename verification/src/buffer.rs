//! Buffered connection writes with capacity and time-based flush triggers.
use vstd::prelude::*;
use std::time::Instant;
use crate::record::ConnectionRecord;
use crate::text::text_eq;

verus! {

#[verifier::external_type_specification]
#[verifier::external_body]
pub struct ExInstant(Instant);

/// Calls `Instant::now`; nothing is stated of the clock.
#[verifier::external_body]
pub(crate) fn instant_now() -> Instant {
    Instant::now()
}

/// Calls `Instant::elapsed` and takes the result in nanoseconds; it depends on
/// the clock, so nothing is stated of it.
#[verifier::external_body]
pub(crate) fn nanos_since(since: &Instant) -> u128 {
    since.elapsed().as_nanos()
}

/// Calls `Instant::checked_duration_since` and takes the result in
/// nanoseconds: none when `earlier` is after `later`. Instants are opaque to
/// the library; of the result only this is stated: from an instant to the
/// same instant no time passes.
#[verifier::external_body]
pub(crate) fn nanos_between(earlier: &Instant, later: &Instant) -> (r: Option<u128>)
    ensures
        *earlier == *later ==> r == Some(0u128),
{
    later.checked_duration_since(*earlier).map(|d| d.as_nanos())
}

/// Default number of records that triggers a capacity flush.
pub const DEFAULT_BATCH_CAPACITY: usize = 5_000;

/// Default time between time-based flushes, in nanoseconds: thirty seconds.
pub const DEFAULT_FLUSH_INTERVAL_NANOS: u128 = 30_000_000_000;

/// Buffers connection records until they should be persisted in batch.
#[derive(Debug)]
pub struct BatchBuffer {
    buffer: Vec<ConnectionRecord>,
    capacity: usize,
    flush_interval_nanos: u128,
    last_flush: Instant,
}

/// The buffer after pushing `record` onto `buffer` with `capacity`: a batch to
/// persist when the capacity is reached, and what stays buffered.
pub open spec fn pushed(buffer: Seq<ConnectionRecord>, capacity: nat, record: ConnectionRecord) -> (Option<Seq<ConnectionRecord>>, Seq<ConnectionRecord>) {
    let all = buffer.push(record);
    if all.len() >= capacity {
        (Some(all), Seq::empty())
    } else {
        (None, all)
    }
}

/// A flush hands out everything buffered and leaves the buffer empty.
pub open spec fn flushed(buffer: Seq<ConnectionRecord>) -> (Seq<ConnectionRecord>, Seq<ConnectionRecord>) {
    (buffer, Seq::empty())
}

/// Restoring a batch puts it back in front of whatever was buffered since.
pub open spec fn restored(buffer: Seq<ConnectionRecord>, records: Seq<ConnectionRecord>) -> Seq<ConnectionRecord> {
    records + buffer
}

/// Whether a record with identifier `id` is among `records`.
pub open spec fn holds_id(records: Seq<ConnectionRecord>, id: Seq<char>) -> bool {
    exists|i: int| 0 <= i < records.len() && #[trigger] records[i].id@ == id
}

impl View for BatchBuffer {
    type V = Seq<ConnectionRecord>;

    closed spec fn view(&self) -> Seq<ConnectionRecord> {
        self.buffer@
    }
}

impl BatchBuffer {
    /// The number of records that triggers a flush.
    pub closed spec fn batch_capacity(&self) -> nat {
        self.capacity as nat
    }

    /// The flush interval, in nanoseconds.
    pub closed spec fn interval_nanos(&self) -> nat {
        self.flush_interval_nanos as nat
    }

    /// The instant of the last flush, from which the flush interval runs: the
    /// construction of the buffer, or the latest flush.
    pub closed spec fn last_flush(&self) -> Instant {
        self.last_flush
    }

    /// An empty buffer that flushes every `flush_interval_nanos` nanoseconds;
    /// a capacity of zero is taken as one. The flush timer starts now.
    pub fn new(capacity: usize, flush_interval_nanos: u128) -> (r: Self)
        ensures
            r@ == Seq::<ConnectionRecord>::empty(),
            r.batch_capacity() == if capacity >= 1 {
                capacity as nat
            } else {
                1
            },
            r.interval_nanos() == flush_interval_nanos,
    {
        let normalized_capacity = if capacity >= 1 {
            capacity
        } else {
            1
        };
        BatchBuffer {
            buffer: Vec::new(),
            capacity: normalized_capacity,
            flush_interval_nanos,
            last_flush: instant_now(),
        }
    }

    /// Pushes a record into the buffer at the instant `now` and returns a
    /// drained batch when capacity is reached; that flush restarts the timer
    /// at `now`, and otherwise the timer runs on.
    pub fn push_at(&mut self, record: ConnectionRecord, now: Instant) -> (r: Option<Vec<ConnectionRecord>>)
        ensures
            final(self).batch_capacity() == old(self).batch_capacity(),
            final(self).interval_nanos() == old(self).interval_nanos(),
            r is None ==> final(self).last_flush() == old(self).last_flush(),
            r is Some ==> final(self).last_flush() == now,
            old(self)@.len() < old(self).batch_capacity() ==> final(self)@.len() < final(self).batch_capacity(),
            r matches Some(batch) ==> batch@.len() >= old(self).batch_capacity(),
            ({
                let (batch, rest) = pushed(old(self)@, old(self).batch_capacity(), record);
                &&& final(self)@ == rest
                &&& match r {
                    Some(v) => batch == Some(v@),
                    None => batch is None,
                }
            }),
    {
        self.buffer.push(record);
        if self.buffer.len() >= self.capacity {
            return Some(self.flush_at(now));
        }
        None
    }

    /// Pushes a record into the buffer and returns a drained batch when
    /// capacity is reached: `push_at` the current instant, read from the
    /// clock.
    pub fn push(&mut self, record: ConnectionRecord) -> (r: Option<Vec<ConnectionRecord>>)
        ensures
            final(self).batch_capacity() == old(self).batch_capacity(),
            final(self).interval_nanos() == old(self).interval_nanos(),
            r is None ==> final(self).last_flush() == old(self).last_flush(),
            old(self)@.len() < old(self).batch_capacity() ==> final(self)@.len() < final(self).batch_capacity(),
            r matches Some(batch) ==> batch@.len() >= old(self).batch_capacity(),
            ({
                let (batch, rest) = pushed(old(self)@, old(self).batch_capacity(), record);
                &&& final(self)@ == rest
                &&& match r {
                    Some(v) => batch == Some(v@),
                    None => batch is None,
                }
            }),
    {
        self.push_at(record, instant_now())
    }

    /// Whether a flush is due after `elapsed_nanos` nanoseconds since the last
    /// one, with records buffered.
    pub fn should_flush_after(&self, elapsed_nanos: u128) -> (r: bool)
        ensures
            r == (self@.len() > 0 && elapsed_nanos >= self.interval_nanos()),
    {
        self.buffer.len() > 0 && self.flush_due_after(elapsed_nanos)
    }

    /// Whether the flush interval has passed after `elapsed_nanos`
    /// nanoseconds since the last flush.
    pub fn flush_due_after(&self, elapsed_nanos: u128) -> (r: bool)
        ensures
            r == (elapsed_nanos >= self.interval_nanos()),
    {
        elapsed_nanos >= self.flush_interval_nanos
    }

    /// Nanoseconds since `last_flush()`, read from the clock.
    pub fn elapsed_since_flush(&self) -> u128 {
        nanos_since(&self.last_flush)
    }

    /// Whether the timer-based flush threshold has been reached while records
    /// are buffered: `should_flush_after` of the time since the last flush,
    /// read from the clock. Whatever the clock says, nothing is due with an
    /// empty buffer, and with records buffered a zero interval is always due.
    pub fn should_flush(&self) -> (r: bool)
        ensures
            r ==> self@.len() > 0,
            self@.len() > 0 && self.interval_nanos() == 0 ==> r,
    {
        self.should_flush_after(self.elapsed_since_flush())
    }

    /// Whether the flush interval has passed since the last flush:
    /// `flush_due_after` of the time since `last_flush()`, read from the
    /// clock. Whatever the clock says, a zero interval is always due.
    pub fn flush_due(&self) -> (r: bool)
        ensures
            self.interval_nanos() == 0 ==> r,
    {
        self.flush_due_after(self.elapsed_since_flush())
    }

    /// Drains all buffered records and restarts the flush timer at `now`.
    pub fn flush_at(&mut self, now: Instant) -> (r: Vec<ConnectionRecord>)
        ensures
            (r@, final(self)@) == flushed(old(self)@),
            final(self).batch_capacity() == old(self).batch_capacity(),
            final(self).interval_nanos() == old(self).interval_nanos(),
            final(self).last_flush() == now,
    {
        self.last_flush = now;
        let mut drained = Vec::new();
        std::mem::swap(&mut drained, &mut self.buffer);
        drained
    }

    /// Drains all buffered records and restarts the flush timer:
    /// `flush_at` the current instant, read from the clock.
    pub fn flush(&mut self) -> (r: Vec<ConnectionRecord>)
        ensures
            (r@, final(self)@) == flushed(old(self)@),
            final(self).batch_capacity() == old(self).batch_capacity(),
            final(self).interval_nanos() == old(self).interval_nanos(),
    {
        self.flush_at(instant_now())
    }

    /// Restores a drained batch after a failed persistence attempt; the flush
    /// timer runs on.
    pub fn restore(&mut self, records: Vec<ConnectionRecord>)
        ensures
            final(self)@ == restored(old(self)@, records@),
            final(self).batch_capacity() == old(self).batch_capacity(),
            final(self).interval_nanos() == old(self).interval_nanos(),
            final(self).last_flush() == old(self).last_flush(),
    {
        let mut records = records;
        let mut rest = Vec::new();
        std::mem::swap(&mut rest, &mut self.buffer);
        records.append(&mut rest);
        self.buffer = records;
    }

    /// Whether a record with this identifier is buffered: a scan of the
    /// buffered records, which keeps the answer tied to the buffer's contents
    /// where a separate `String` set of identifiers would carry no contract.
    pub fn contains_connection(&self, id: &str) -> (r: bool)
        ensures
            r == holds_id(self@, id@),
    {
        let mut i: usize = 0;
        while i < self.buffer.len()
            invariant
                i <= self.buffer@.len(),
                forall|j: int| 0 <= j < i ==> self.buffer@[j].id@ != id@,
            decreases self.buffer@.len() - i,
        {
            if text_eq(self.buffer[i].id.as_str(), id) {
                return true;
            }
            i = i + 1;
        }
        false
    }

    /// Number of buffered records.
    pub fn len(&self) -> (r: usize)
        ensures
            r == self@.len(),
    {
        self.buffer.len()
    }
}

/// A batch that a flush hands out and a restore puts back leaves the buffer
/// as it was.
pub proof fn lemma_flush_then_restore(buffer: Seq<ConnectionRecord>)
    ensures
        restored(flushed(buffer).1, flushed(buffer).0) == buffer,
{
    assert(buffer + Seq::<ConnectionRecord>::empty() =~= buffer);
}

/// Pushing never leaves a full buffer behind: what stays buffered is below
/// the capacity whenever it was before.
pub proof fn lemma_push_stays_below_capacity(
    buffer: Seq<ConnectionRecord>,
    capacity: nat,
    record: ConnectionRecord,
)
    requires
        capacity >= 1,
        buffer.len() < capacity,
    ensures
        pushed(buffer, capacity, record).1.len() < capacity,
        pushed(buffer, capacity, record).0 matches Some(batch) ==> batch.len() == capacity,
{
}

/// A push hands out or keeps every record, the new one last.
pub proof fn lemma_push_loses_nothing(
    buffer: Seq<ConnectionRecord>,
    capacity: nat,
    record: ConnectionRecord,
)
    ensures
        ({
            let (batch, rest) = pushed(buffer, capacity, record);
            match batch {
                Some(b) => b + rest == buffer.push(record),
                None => rest == buffer.push(record),
            }
        }),
{
    assert(buffer.push(record) + Seq::<ConnectionRecord>::empty() =~= buffer.push(record));
}

} // verus!
