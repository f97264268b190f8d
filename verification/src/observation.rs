//! Turning a change of a connection's counters into per-hour and per-day
//! statistics: the observed window is cut at UTC hour or day boundaries and
//! the traffic is shared out between the pieces in proportion to their
//! length, with nothing lost or made up.
use vstd::prelude::*;
use crate::clock::{
    floor_instant, floor_to, format_utc_date, format_utc_seconds, instant_in_range, instant_nanos,
    instant_of, min_utc_secs, parse_rfc3339, rfc3339_instant, rfc3339_seconds_text, utc_date_text,
    utc_now, whole_seconds, DAY_NANOS, HOUR_NANOS,
};
use crate::record::{
    ConnectionRecord, DomainStatsUpdate, IpTrafficStatsUpdate, RuleStatsUpdate, StatRow,
    TrafficSampleInsert,
};
use crate::text::{owned, str_trim, trim};

verus! {

/// One piece of an observation window: the bucket it falls into and its
/// length in milliseconds.
#[derive(Debug)]
pub struct WeightedBucket {
    pub key: String,
    pub weight_ms: i64,
}

/// The calendar unit that buckets are cut at.
#[derive(Debug, Clone, Copy, PartialEq, Eq)]
pub enum BucketUnit {
    Hour,
    Day,
}

impl BucketUnit {
    /// Length of the unit in nanoseconds.
    pub open spec fn nanos(self) -> int {
        match self {
            BucketUnit::Hour => HOUR_NANOS as int,
            BucketUnit::Day => DAY_NANOS as int,
        }
    }
}

/// The key of the bucket that starts at instant `floor_ns`.
pub open spec fn bucket_key(unit: BucketUnit, floor_ns: int) -> Seq<char> {
    match unit {
        BucketUnit::Hour => rfc3339_seconds_text(floor_ns / 1_000_000_000),
        BucketUnit::Day => utc_date_text(floor_ns / 1_000_000_000),
    }
}

/// `x`, but at least one.
pub open spec fn at_least_one(x: int) -> int {
    if x >= 1 {
        x
    } else {
        1
    }
}

/// The weight of the piece `[lo, hi)`: whole milliseconds, at least one.
pub open spec fn piece_weight(lo: int, hi: int) -> int {
    at_least_one((hi - lo) / 1_000_000)
}

/// The pieces of `[cursor, end)` cut at multiples of `unit`, starting in the
/// period that begins at `floor`; each piece is (period start, lo, hi).
pub open spec fn pieces(floor: int, cursor: int, end: int, unit: int) -> Seq<(int, int, int)>
    decreases end - cursor,
{
    if cursor >= end || floor + unit <= cursor || unit <= 0 {
        Seq::empty()
    } else {
        let hi = if floor + unit < end {
            floor + unit
        } else {
            end
        };
        seq![(floor, cursor, hi)] + pieces(floor + unit, hi, end, unit)
    }
}

/// The buckets of the window `[start, end)`: one per calendar period it
/// touches, with its key and weight; an empty window gives the one bucket
/// that holds `end`, with weight one.
pub open spec fn bucket_plan(start: int, end: int, unit: BucketUnit) -> Seq<(Seq<char>, int)> {
    let u = unit.nanos();
    if end <= start {
        seq![(bucket_key(unit, floor_to(end, u)), 1int)]
    } else {
        pieces(floor_to(start, u), start, end, u).map_values(
            |p: (int, int, int)| (bucket_key(unit, p.0), piece_weight(p.1, p.2)),
        )
    }
}

/// The abstract content of a list of buckets.
pub open spec fn bucket_rows(b: Seq<WeightedBucket>) -> Seq<(Seq<char>, int)> {
    b.map_values(|x: WeightedBucket| (x.key@, x.weight_ms as int))
}

/// The weights of a list of buckets.
pub open spec fn bucket_weights(b: Seq<WeightedBucket>) -> Seq<int> {
    b.map_values(|x: WeightedBucket| x.weight_ms as int)
}

/// Sum of the weights, each counted as at least one.
pub open spec fn weight_total(ws: Seq<int>) -> int
    decreases ws.len(),
{
    if ws.len() == 0 {
        0
    } else {
        at_least_one(ws[0]) + weight_total(ws.drop_first())
    }
}

/// Sum of a sequence of integers.
pub open spec fn sum(xs: Seq<int>) -> int
    decreases xs.len(),
{
    if xs.len() == 0 {
        0
    } else {
        xs[0] + sum(xs.drop_first())
    }
}

proof fn lemma_weight_total_push(ws: Seq<int>, w: int)
    ensures
        weight_total(ws.push(w)) == weight_total(ws) + at_least_one(w),
    decreases ws.len(),
{
    if ws.len() == 0 {
        assert(ws.push(w).drop_first() =~= Seq::<int>::empty());
        assert(weight_total(Seq::<int>::empty()) == 0);
        assert(ws.push(w)[0] == w);
    } else {
        assert(ws.push(w).drop_first() =~= ws.drop_first().push(w));
        assert(ws.push(w)[0] == ws[0]);
        lemma_weight_total_push(ws.drop_first(), w);
    }
}

proof fn lemma_weight_total_nonneg(ws: Seq<int>)
    ensures
        weight_total(ws) >= ws.len(),
    decreases ws.len(),
{
    if ws.len() > 0 {
        lemma_weight_total_nonneg(ws.drop_first());
    }
}

proof fn lemma_pieces_append(floor: int, cursor: int, end: int, unit: int, hi: int)
    requires
        unit > 0,
        floor <= cursor,
        cursor < end,
        cursor < floor + unit,
        hi == (if floor + unit < end {
            floor + unit
        } else {
            end
        }),
    ensures
        pieces(floor, cursor, end, unit) == seq![(floor, cursor, hi)] + pieces(
            floor + unit,
            hi,
            end,
            unit,
        ),
{
}

/// Cuts `[start, end)` at UTC hour or day boundaries.
pub fn build_weighted_buckets(start: i128, end: i128, unit: BucketUnit) -> (r: Vec<WeightedBucket>)
    requires
        instant_in_range(start as int),
        instant_in_range(end as int),
    ensures
        bucket_rows(r@) == bucket_plan(start as int, end as int, unit),
        r@.len() >= 1,
        forall|i: int| 0 <= i < r@.len() ==> r@[i].weight_ms >= 1,
        weight_total(bucket_weights(r@)) <= 100_000_000_000_000_000,
{
    let u: i128 = match unit {
        BucketUnit::Hour => HOUR_NANOS,
        BucketUnit::Day => DAY_NANOS,
    };
    if end <= start {
        let floor = floor_instant(end, u);
        let key = bucket_key_text(unit, floor);
        let mut r = Vec::new();
        r.push(WeightedBucket { key, weight_ms: 1 });
        proof {
            assert(bucket_rows(r@) =~= bucket_plan(start as int, end as int, unit));
            assert(bucket_weights(r@) =~= seq![1int]);
            assert(seq![1int].drop_first() =~= Seq::<int>::empty());
            assert(weight_total(Seq::<int>::empty()) == 0);
            assert(weight_total(seq![1int]) == 1);
        }
        return r;
    }
    let first_floor = floor_instant(start, u);
    let mut floor = first_floor;
    let mut cursor = start;
    let mut r: Vec<WeightedBucket> = Vec::new();
    let ghost f = |p: (int, int, int)| (bucket_key(unit, p.0), piece_weight(p.1, p.2));
    let ghost done: Seq<(int, int, int)> = Seq::empty();
    let ghost kmil: int = 0;
    proof {
        lemma_floor_at_least_min(start as int, u as int);
    }
    while cursor < end
        invariant
            u == unit.nanos(),
            u == HOUR_NANOS || u == DAY_NANOS,
            instant_in_range(start as int),
            instant_in_range(end as int),
            start < end,
            first_floor == floor_to(start as int, u as int),
            min_utc_secs() * 1_000_000_000 <= first_floor,
            first_floor <= start,
            start <= cursor <= end,
            first_floor <= floor,
            floor % u == 0,
            cursor < end ==> floor <= cursor && cursor < floor + u,
            floor <= cursor + u,
            pieces(first_floor as int, start as int, end as int, u as int) == done + pieces(
                floor as int,
                cursor as int,
                end as int,
                u as int,
            ),
            f == (|p: (int, int, int)| (bucket_key(unit, p.0), piece_weight(p.1, p.2))),
            bucket_rows(r@) == done.map_values(f),
            forall|i: int| 0 <= i < r@.len() ==> r@[i].weight_ms >= 1,
            0 <= kmil <= floor - first_floor,
            weight_total(bucket_weights(r@)) * 1_000_000 <= (cursor - start) + kmil,
        decreases end - cursor,
    {
        let next = floor + u;
        let hi = if next < end {
            next
        } else {
            end
        };
        let span: i128 = hi - cursor;
        let ms: i128 = span / 1_000_000;
        let weight: i64 = if ms >= 1 {
            ms as i64
        } else {
            1
        };
        proof {
            assert(span <= DAY_NANOS);
            assert(instant_in_range(floor as int));
        }
        let key = bucket_key_text(unit, floor);
        let ghost old_rows = bucket_rows(r@);
        let ghost old_weights = bucket_weights(r@);
        r.push(WeightedBucket { key, weight_ms: weight });
        proof {
            lemma_pieces_append(floor as int, cursor as int, end as int, u as int, hi as int);
            let piece = (floor as int, cursor as int, hi as int);
            assert(done.push(piece) + pieces(next as int, hi as int, end as int, u as int) =~= done
                + (seq![piece] + pieces(next as int, hi as int, end as int, u as int)));
            done = done.push(piece);
            assert(f(piece) == (bucket_key(unit, floor as int), piece_weight(cursor as int, hi as int)));
            assert(r@.last().key@ == bucket_key(unit, floor as int));
            assert(r@.last().weight_ms as int == piece_weight(cursor as int, hi as int));
            assert(bucket_rows(r@) =~= old_rows.push(f(piece)));
            assert(done.map_values(f) =~= old_rows.push(f(piece)));
            assert(bucket_weights(r@) =~= old_weights.push(weight as int));
            lemma_weight_total_push(old_weights, weight as int);
            vstd::arithmetic::div_mod::lemma_fundamental_div_mod(span as int, 1_000_000);
            vstd::arithmetic::div_mod::lemma_mod_bound(span as int, 1_000_000);
            assert(weight * 1_000_000 <= span + 1_000_000);
            kmil = kmil + 1_000_000;
            vstd::arithmetic::div_mod::lemma_mod_multiples_basic(1, u as int);
            vstd::arithmetic::div_mod::lemma_add_mod_noop(floor as int, u as int, u as int);
        }
        floor = next;
        cursor = hi;
    }
    proof {
        assert(pieces(floor as int, cursor as int, end as int, u as int) =~= Seq::<(int, int, int)>::empty());
        assert(done + Seq::<(int, int, int)>::empty() =~= done);
        assert(done.len() >= 1) by {
            assert(pieces(first_floor as int, start as int, end as int, u as int).len() >= 1);
        }
    }
    r
}

/// The key of the bucket that starts at instant `floor`.
pub fn bucket_key_text(unit: BucketUnit, floor: i128) -> (r: String)
    requires
        instant_in_range(floor as int),
        floor % (unit.nanos() as i128) == 0,
    ensures
        r@ == bucket_key(unit, floor as int),
{
    proof {
        vstd::arithmetic::div_mod::lemma_fundamental_div_mod(floor as int, unit.nanos());
        let q = floor as int / unit.nanos();
        match unit {
            BucketUnit::Hour => {
                assert(floor as int == (q * 3600) * 1_000_000_000) by (nonlinear_arith)
                    requires floor as int == 3_600_000_000_000 * q;
            }
            BucketUnit::Day => {
                assert(floor as int == (q * 86400) * 1_000_000_000) by (nonlinear_arith)
                    requires floor as int == 86_400_000_000_000 * q;
            }
        }
        vstd::arithmetic::div_mod::lemma_mod_multiples_basic(
            if unit == BucketUnit::Hour { q * 3600 } else { q * 86400 },
            1_000_000_000,
        );
    }
    let secs = whole_seconds(floor);
    match unit {
        BucketUnit::Hour => format_utc_seconds(secs),
        BucketUnit::Day => format_utc_date(secs),
    }
}

proof fn lemma_floor_at_least_min(x: int, unit: int)
    requires
        instant_in_range(x),
        unit == HOUR_NANOS || unit == DAY_NANOS,
    ensures
        min_utc_secs() * 1_000_000_000 <= floor_to(x, unit),
        floor_to(x, unit) <= x,
{
    let m = min_utc_secs() * 1_000_000_000;
    vstd::arithmetic::div_mod::lemma_fundamental_div_mod(x, unit);
    vstd::arithmetic::div_mod::lemma_mod_bound(x, unit);
    let k: int = if unit == HOUR_NANOS { -2_315_167_032 } else { -96_465_293 };
    assert(m == k * unit);
    let q = x / unit;
    assert(k * unit <= x);
    assert(k <= q) by (nonlinear_arith)
        requires
            k * unit <= x,
            x == unit * q + x % unit,
            0 <= x % unit < unit,
            unit > 0,
    ;
    assert(k * unit <= q * unit) by (nonlinear_arith)
        requires
            k <= q,
            unit > 0,
    ;
}


/// `a * b`, clamped to the range of `i64`.
pub open spec fn sat_mul(a: int, b: int) -> int {
    if a * b > i64::MAX {
        i64::MAX as int
    } else if a * b < i64::MIN {
        i64::MIN as int
    } else {
        a * b
    }
}

/// Shares `rest_total` out over `ws` front to back: each piece gets its share
/// of what is left in proportion to its weight among the weights left
/// (`rest_weight`), rounded down, and the last piece gets the remainder.
pub open spec fn split_parts(rest_total: int, rest_weight: int, ws: Seq<int>) -> Seq<int>
    decreases ws.len(),
{
    if ws.len() == 0 {
        Seq::empty()
    } else {
        let w = at_least_one(ws[0]);
        let v = if ws.len() == 1 || rest_weight <= 0 {
            rest_total
        } else {
            sat_mul(rest_total, w) / rest_weight
        };
        seq![v] + split_parts(rest_total - v, rest_weight - w, ws.drop_first())
    }
}

/// How a counter increase `total` is shared out over buckets of weights `ws`;
/// a total that is not positive gives zero to every bucket.
pub open spec fn distribution(total: int, ws: Seq<int>) -> Seq<int> {
    if ws.len() == 0 {
        Seq::empty()
    } else if total <= 0 {
        Seq::new(ws.len(), |i: int| 0int)
    } else {
        split_parts(total, weight_total(ws), ws)
    }
}

proof fn lemma_weight_total_split(ws: Seq<int>, i: int)
    requires
        0 <= i <= ws.len(),
    ensures
        weight_total(ws) == weight_total(ws.take(i)) + weight_total(ws.skip(i)),
    decreases i,
{
    if i == 0 {
        assert(ws.take(0) =~= Seq::<int>::empty());
        assert(ws.skip(0) =~= ws);
    } else {
        lemma_weight_total_split(ws, i - 1);
        assert(ws.take(i) =~= ws.take(i - 1).push(ws[i - 1]));
        lemma_weight_total_push(ws.take(i - 1), ws[i - 1]);
        assert(ws.skip(i - 1).drop_first() =~= ws.skip(i));
    }
}

proof fn lemma_weight_total_skip(ws: Seq<int>, i: int)
    requires
        0 <= i < ws.len(),
    ensures
        weight_total(ws.skip(i)) == at_least_one(ws[i]) + weight_total(ws.skip(i + 1)),
{
    assert(ws.skip(i).drop_first() =~= ws.skip(i + 1));
}

proof fn lemma_split_parts_sum(rest_total: int, rest_weight: int, ws: Seq<int>)
    requires
        ws.len() >= 1,
        rest_total >= 0,
        rest_weight == weight_total(ws),
    ensures
        sum(split_parts(rest_total, rest_weight, ws)) == rest_total,
        split_parts(rest_total, rest_weight, ws).len() == ws.len(),
        forall|i: int|
            0 <= i < ws.len() ==> #[trigger] split_parts(rest_total, rest_weight, ws)[i] >= 0,
    decreases ws.len(),
{
    let w = at_least_one(ws[0]);
    let v = if ws.len() == 1 || rest_weight <= 0 {
        rest_total
    } else {
        sat_mul(rest_total, w) / rest_weight
    };
    lemma_weight_total_nonneg(ws.drop_first());
    lemma_share_bounds(rest_total, w, rest_weight);
    let parts = split_parts(rest_total, rest_weight, ws);
    if ws.len() == 1 {
        assert(ws.drop_first().len() == 0);
        assert(split_parts(rest_total - v, rest_weight - w, ws.drop_first()) =~= Seq::<int>::empty());
        assert(parts =~= seq![rest_total]);
        assert(seq![rest_total].drop_first() =~= Seq::<int>::empty());
        assert(sum(Seq::<int>::empty()) == 0);
        assert(sum(parts) == parts[0] + sum(parts.drop_first()));
    } else {
        lemma_split_parts_sum(rest_total - v, rest_weight - w, ws.drop_first());
        let rest = split_parts(rest_total - v, rest_weight - w, ws.drop_first());
        assert(parts.drop_first() =~= rest);
        assert(sum(parts) == parts[0] + sum(parts.drop_first()));
        assert forall|i: int| 0 <= i < ws.len() implies #[trigger] parts[i] >= 0 by {
            if i > 0 {
                assert(parts[i] == rest[i - 1]);
            }
        }
    }
}

proof fn lemma_share_bounds(t: int, w: int, rw: int)
    requires
        t >= 0,
        1 <= w <= rw,
    ensures
        0 <= sat_mul(t, w) / rw <= t,
{
    assert(0 <= t * w <= t * rw) by (nonlinear_arith)
        requires
            t >= 0,
            1 <= w <= rw,
    ;
    let m = sat_mul(t, w);
    assert(0 <= m <= t * rw);
    vstd::arithmetic::div_mod::lemma_div_is_ordered(m, t * rw, rw);
    vstd::arithmetic::div_mod::lemma_div_pos_is_pos(m, rw);
    vstd::arithmetic::div_mod::lemma_div_multiples_vanish(t, rw);
}

/// The parts of a positive total add up to that total, one part per bucket,
/// none negative: shifting traffic between buckets never loses or invents
/// any of it.
pub proof fn lemma_distribution_preserves_total(total: int, ws: Seq<int>)
    requires
        total > 0,
        ws.len() > 0,
    ensures
        distribution(total, ws).len() == ws.len(),
        sum(distribution(total, ws)) == total,
        forall|i: int| 0 <= i < ws.len() ==> #[trigger] distribution(total, ws)[i] >= 0,
{
    lemma_split_parts_sum(total, weight_total(ws), ws);
}

/// `a * b` clamped to the range of `i64`, for non-negative operands.
fn saturating_product(a: i64, b: i64) -> (r: i64)
    requires
        a >= 0,
        b >= 0,
    ensures
        r == sat_mul(a as int, b as int),
{
    match a.checked_mul(b) {
        Some(p) => p,
        None => {
            proof {
                assert(a as int * b as int >= 0) by (nonlinear_arith)
                    requires
                        a >= 0,
                        b >= 0,
                ;
            }
            i64::MAX
        },
    }
}

/// Shares `total` out over `buckets` in proportion to their weights.
pub fn distribute_total(total: i64, buckets: &Vec<WeightedBucket>) -> (r: Vec<i64>)
    requires
        weight_total(bucket_weights(buckets@)) <= i64::MAX,
    ensures
        r@.map_values(|x: i64| x as int) == distribution(total as int, bucket_weights(buckets@)),
{
    let ghost ws = bucket_weights(buckets@);
    let n = buckets.len();
    let mut parts: Vec<i64> = Vec::new();
    if n == 0 {
        proof {
            assert(parts@.map_values(|x: i64| x as int) =~= Seq::<int>::empty());
        }
        return parts;
    }
    if total <= 0 {
        let mut i: usize = 0;
        while i < n
            invariant
                i <= n,
                n == buckets@.len(),
                parts@.len() == i,
                forall|j: int| 0 <= j < i ==> parts@[j] == 0,
            decreases n - i,
        {
            parts.push(0);
            i = i + 1;
        }
        proof {
            assert(parts@.map_values(|x: i64| x as int) =~= distribution(total as int, ws));
        }
        return parts;
    }
    let mut weight_sum: i64 = 0;
    let mut i: usize = 0;
    proof {
        lemma_weight_total_split(ws, n as int);
        assert(ws.take(n as int) =~= ws);
    }
    while i < n
        invariant
            i <= n,
            n == buckets@.len(),
            ws == bucket_weights(buckets@),
            weight_total(ws) <= i64::MAX,
            weight_sum == weight_total(ws.take(i as int)),
        decreases n - i,
    {
        proof {
            lemma_weight_total_split(ws, i + 1);
            assert(ws.take(i + 1) =~= ws.take(i as int).push(ws[i as int]));
            lemma_weight_total_push(ws.take(i as int), ws[i as int]);
            lemma_weight_total_nonneg(ws.skip(i + 1));
        }
        let w = buckets[i].weight_ms;
        let w1: i64 = if w >= 1 {
            w
        } else {
            1
        };
        weight_sum = weight_sum + w1;
        i = i + 1;
    }
    proof {
        assert(ws.take(n as int) =~= ws);
        assert(ws.skip(0) =~= ws);
    }
    let mut rest_total: i64 = total;
    let mut rest_weight: i64 = weight_sum;
    let mut i: usize = 0;
    while i < n
        invariant
            i <= n,
            n == buckets@.len(),
            n >= 1,
            ws == bucket_weights(buckets@),
            total > 0,
            rest_total >= 0,
            rest_weight == weight_total(ws.skip(i as int)),
            weight_total(ws) <= i64::MAX,
            parts@.len() == i,
            parts@.map_values(|x: i64| x as int) + split_parts(
                rest_total as int,
                rest_weight as int,
                ws.skip(i as int),
            ) == split_parts(total as int, weight_total(ws), ws),
        decreases n - i,
    {
        let w = buckets[i].weight_ms;
        let w1: i64 = if w >= 1 {
            w
        } else {
            1
        };
        proof {
            lemma_weight_total_skip(ws, i as int);
            lemma_weight_total_nonneg(ws.skip(i + 1));
            lemma_weight_total_split(ws, i as int);
            lemma_weight_total_nonneg(ws.take(i as int));
            assert(ws.skip(i as int)[0] == ws[i as int]);
        }
        let value: i64 = if i + 1 == n || rest_weight <= 0 {
            rest_total
        } else {
            proof {
                lemma_share_bounds(rest_total as int, w1 as int, rest_weight as int);
            }
            saturating_product(rest_total, w1) / rest_weight
        };
        proof {
            let tail = ws.skip(i as int);
            assert(tail.drop_first() =~= ws.skip(i + 1));
            assert(tail.len() == 1 <==> i + 1 == n);
            let old_parts = parts@.map_values(|x: i64| x as int);
            assert(split_parts(rest_total as int, rest_weight as int, tail) == seq![value as int]
                + split_parts(rest_total - value, rest_weight - w1, ws.skip(i + 1)));
            assert(old_parts.push(value as int) + split_parts(
                rest_total - value,
                rest_weight - w1,
                ws.skip(i + 1),
            ) =~= old_parts + split_parts(rest_total as int, rest_weight as int, tail));
        }
        let ghost before = parts@;
        parts.push(value);
        proof {
            assert(parts@.map_values(|x: i64| x as int) =~= before.map_values(
                |x: i64| x as int,
            ).push(value as int));
        }
        rest_total = rest_total - value;
        rest_weight = rest_weight - w1;
        i = i + 1;
    }
    proof {
        assert(ws.skip(n as int) =~= Seq::<int>::empty());
        assert(parts@.map_values(|x: i64| x as int) + Seq::<int>::empty() =~= parts@.map_values(
            |x: i64| x as int,
        ));
    }
    parts
}


/// A bucket's share of one observed change.
#[derive(Debug)]
pub struct Portion {
    pub key: String,
    pub upload: i64,
    pub download: i64,
    pub count: i64,
}

/// Abstract portion: bucket key, upload, download, new-connection count.
pub type PortionRow = (Seq<char>, int, int, int);

pub open spec fn portion_rows(p: Seq<Portion>) -> Seq<PortionRow> {
    p.map_values(|x: Portion| (x.key@, x.upload as int, x.download as int, x.count as int))
}

/// A portion that carries neither traffic nor a new connection.
pub open spec fn is_blank(e: PortionRow) -> bool {
    e.1 == 0 && e.2 == 0 && e.3 == 0
}

/// `s` without its blank portions, order kept.
pub open spec fn without_blanks(s: Seq<PortionRow>) -> Seq<PortionRow>
    decreases s.len(),
{
    if s.len() == 0 {
        s
    } else {
        let rest = without_blanks(s.drop_last());
        if is_blank(s.last()) {
            rest
        } else {
            rest.push(s.last())
        }
    }
}

/// Every bucket's portion of a change of `upload` and `download` over the
/// buckets of `plan`; the first bucket counts the connection as new when
/// `count_new` and `is_new` hold.
pub open spec fn portion_table(
    upload: int,
    download: int,
    is_new: bool,
    plan: Seq<(Seq<char>, int)>,
    count_new: bool,
) -> Seq<PortionRow> {
    let ws = plan.map_values(|b: (Seq<char>, int)| b.1);
    let ups = distribution(upload, ws);
    let downs = distribution(download, ws);
    Seq::new(
        plan.len(),
        |i: int|
            (plan[i].0, ups[i], downs[i], if count_new && is_new && i == 0 {
                1int
            } else {
                0int
            }),
    )
}

/// The portions of a change that carry something.
pub open spec fn planned_portions(
    upload: int,
    download: int,
    is_new: bool,
    plan: Seq<(Seq<char>, int)>,
    count_new: bool,
) -> Seq<PortionRow> {
    without_blanks(portion_table(upload, download, is_new, plan, count_new))
}

proof fn lemma_distribution_len(total: int, ws: Seq<int>)
    ensures
        distribution(total, ws).len() == ws.len(),
{
    if ws.len() > 0 && total > 0 {
        lemma_split_parts_sum(total, weight_total(ws), ws);
    }
}

/// Shares a change out over buckets and keeps the portions that carry
/// something.
pub fn distribute_and_build(
    upload: i64,
    download: i64,
    is_new_connection: bool,
    buckets: Vec<WeightedBucket>,
    count_new: bool,
) -> (r: Vec<Portion>)
    requires
        weight_total(bucket_weights(buckets@)) <= i64::MAX,
    ensures
        portion_rows(r@) == planned_portions(
            upload as int,
            download as int,
            is_new_connection,
            bucket_rows(buckets@),
            count_new,
        ),
{
    let ghost plan = bucket_rows(buckets@);
    let ghost ws = bucket_weights(buckets@);
    proof {
        assert(plan.map_values(|b: (Seq<char>, int)| b.1) =~= ws);
        lemma_distribution_len(upload as int, ws);
        lemma_distribution_len(download as int, ws);
    }
    let uploads = distribute_total(upload, &buckets);
    let downloads = distribute_total(download, &buckets);
    let ghost ups = distribution(upload as int, ws);
    let ghost downs = distribution(download as int, ws);
    let ghost full = portion_table(upload as int, download as int, is_new_connection, plan, count_new);
    let n = buckets.len();
    let mut items: Vec<Portion> = Vec::new();
    let mut i: usize = 0;
    proof {
        assert(full.take(0) =~= Seq::<PortionRow>::empty());
        assert(uploads@.len() == n);
    }
    while i < n
        invariant
            i <= n,
            n == buckets@.len(),
            plan == bucket_rows(buckets@),
            uploads@.map_values(|x: i64| x as int) == ups,
            downloads@.map_values(|x: i64| x as int) == downs,
            ups.len() == n,
            downs.len() == n,
            full.len() == n,
            forall|j: int|
                0 <= j < n ==> #[trigger] full[j] == (plan[j].0, ups[j], downs[j], if count_new
                    && is_new_connection && j == 0 {
                    1int
                } else {
                    0int
                }),
            portion_rows(items@) == without_blanks(full.take(i as int)),
        decreases n - i,
    {
        let count: i64 = if count_new && is_new_connection && i == 0 {
            1
        } else {
            0
        };
        proof {
            assert(uploads@.map_values(|x: i64| x as int)[i as int] == uploads@[i as int] as int);
            assert(downloads@.map_values(|x: i64| x as int)[i as int] == downloads@[i as int] as int);
            assert(full.take(i + 1).drop_last() =~= full.take(i as int));
            assert(full.take(i + 1).last() == full[i as int]);
        }
        let up = uploads[i];
        let down = downloads[i];
        if !(count == 0 && up == 0 && down == 0) {
            let ghost before = items@;
            items.push(
                Portion { key: buckets[i].key.clone(), upload: up, download: down, count },
            );
            proof {
                assert(portion_rows(items@) =~= portion_rows(before).push(full[i as int]));
            }
        }
        i = i + 1;
    }
    proof {
        assert(full.take(n as int) =~= full);
    }
    items
}

/// Integer counter change between two readings; a counter that went back
/// (the connection was reset) counts from zero again.
pub open spec fn counter_delta_spec(current: int, previous: int) -> int {
    if current >= previous {
        current - previous
    } else if current > 0 {
        current
    } else {
        0
    }
}

/// Change of a traffic counter between two readings; a counter that went back
/// counts from zero again.
pub fn counter_delta(current_value: i64, previous_value: i64) -> (r: i64)
    requires
        current_value - previous_value <= i64::MAX,
    ensures
        r == counter_delta_spec(current_value as int, previous_value as int),
        r >= 0,
{
    if current_value >= previous_value {
        current_value - previous_value
    } else if current_value > 0 {
        current_value
    } else {
        0
    }
}

/// A rule name with white space trimmed; an empty one becomes `UNKNOWN`.
pub open spec fn normalized_rule(rule: Seq<char>) -> Seq<char> {
    if trim(rule).len() == 0 {
        "UNKNOWN"@
    } else {
        trim(rule)
    }
}

/// Trims a rule name; an empty one becomes `UNKNOWN`.
pub fn normalize_rule_name(value: &str) -> (r: String)
    ensures
        r@ == normalized_rule(value@),
{
    let trimmed = str_trim(value);
    if trimmed.is_empty() {
        owned("UNKNOWN")
    } else {
        owned(trimmed)
    }
}

/// The traffic that a connection carried since it was last seen: counter
/// changes for a known connection, the counters themselves (never negative)
/// for a new one.
pub open spec fn observed_delta(current: ConnectionRecord, previous: Option<ConnectionRecord>) -> (int, int) {
    match previous {
        Some(p) => (
            counter_delta_spec(current.upload as int, p.upload as int),
            counter_delta_spec(current.download as int, p.download as int),
        ),
        None => (
            if current.upload > 0 { current.upload as int } else { 0 },
            if current.download > 0 { current.download as int } else { 0 },
        ),
    }
}

/// The time the observation window starts from: the previous reading's
/// observation time, else its start time, else the connection's start time.
pub open spec fn baseline_text(current: ConnectionRecord, previous: Option<ConnectionRecord>) -> Seq<char> {
    match previous {
        Some(p) => match p.last_observed_at {
            Some(t) => t@,
            None => p.start_time@,
        },
        None => current.start_time@,
    }
}

/// The observation window ending at `end`: from the baseline (or `end` when
/// it does not parse) to `end`, empty when the baseline is not earlier.
pub open spec fn window_spec(current: ConnectionRecord, previous: Option<ConnectionRecord>, end: int) -> (int, int) {
    let start = match rfc3339_instant(baseline_text(current, previous)) {
        Some(p) => instant_of(p),
        None => end,
    };
    if start < end {
        (start, end)
    } else {
        (end, end)
    }
}

/// The abstract result of an observation: per-day domain rows, per-day rule
/// rows, per-day destination rows and per-hour traffic samples.
pub struct ObservationRows {
    pub domains: Seq<StatRow>,
    pub rules: Seq<StatRow>,
    pub ips: Seq<StatRow>,
    pub samples: Seq<StatRow>,
}

/// Rows labelled `label` from the portions of a change.
pub open spec fn labelled(label: Seq<char>, portions: Seq<PortionRow>) -> Seq<StatRow> {
    portions.map_values(|e: PortionRow| (label, e.0, e.3, e.1, e.2))
}

/// What one observation of `current` (seen before as `previous`, or new)
/// contributes to the statistics, for a window that ends at `end`.
pub open spec fn observation_rows(
    current: ConnectionRecord,
    previous: Option<ConnectionRecord>,
    end: int,
) -> ObservationRows {
    let (up, down) = observed_delta(current, previous);
    let is_new = previous is None;
    let (start, stop) = window_spec(current, previous, end);
    let quiet = !is_new && up == 0 && down == 0;
    let days = bucket_plan(start, stop, BucketUnit::Day);
    let hours = bucket_plan(start, stop, BucketUnit::Hour);
    let domain = trim(current.host@);
    ObservationRows {
        domains: if domain.len() == 0 || quiet {
            Seq::empty()
        } else {
            labelled(domain, planned_portions(up, down, is_new, days, true))
        },
        rules: if quiet {
            Seq::empty()
        } else {
            labelled(normalized_rule(current.rule@), planned_portions(up, down, is_new, days, true))
        },
        ips: match current.dst_ip {
            Some(ip) => if trim(ip@).len() == 0 || (up == 0 && down == 0) {
                Seq::empty()
            } else {
                labelled(trim(ip@), planned_portions(up, down, is_new, days, false))
            },
            None => Seq::empty(),
        },
        samples: if quiet {
            Seq::empty()
        } else {
            labelled(Seq::empty(), planned_portions(up, down, is_new, hours, true))
        },
    }
}

/// The statistics rows that one observation of a connection produces.
#[derive(Debug)]
pub struct ObservationUpdates {
    pub domain_updates: Vec<DomainStatsUpdate>,
    pub rule_updates: Vec<RuleStatsUpdate>,
    pub ip_traffic_updates: Vec<IpTrafficStatsUpdate>,
    pub traffic_samples: Vec<TrafficSampleInsert>,
}

impl ObservationUpdates {
    pub open spec fn rows(self) -> ObservationRows {
        ObservationRows {
            domains: self.domain_updates@.map_values(|u: DomainStatsUpdate| u.row()),
            rules: self.rule_updates@.map_values(|u: RuleStatsUpdate| u.row()),
            ips: self.ip_traffic_updates@.map_values(|u: IpTrafficStatsUpdate| u.row()),
            samples: self.traffic_samples@.map_values(|u: TrafficSampleInsert| u.row()),
        }
    }
}

/// Portions of a change over a window cut at `unit`.
fn window_portions(
    upload: i64,
    download: i64,
    is_new_connection: bool,
    start: i128,
    end: i128,
    unit: BucketUnit,
    count_new: bool,
) -> (r: Vec<Portion>)
    requires
        instant_in_range(start as int),
        instant_in_range(end as int),
    ensures
        portion_rows(r@) == planned_portions(
            upload as int,
            download as int,
            is_new_connection,
            bucket_plan(start as int, end as int, unit),
            count_new,
        ),
{
    let buckets = build_weighted_buckets(start, end, unit);
    distribute_and_build(upload, download, is_new_connection, buckets, count_new)
}

/// Per-day domain rows of a change.
pub fn build_domain_stats_updates(
    domain: &str,
    upload: i64,
    download: i64,
    is_new_connection: bool,
    start: i128,
    end: i128,
) -> (r: Vec<DomainStatsUpdate>)
    requires
        instant_in_range(start as int),
        instant_in_range(end as int),
    ensures
        r@.map_values(|u: DomainStatsUpdate| u.row()) == (if !is_new_connection && upload == 0
            && download == 0 {
            Seq::<StatRow>::empty()
        } else {
            labelled(
                domain@,
                planned_portions(
                    upload as int,
                    download as int,
                    is_new_connection,
                    bucket_plan(start as int, end as int, BucketUnit::Day),
                    true,
                ),
            )
        }),
{
    let mut out: Vec<DomainStatsUpdate> = Vec::new();
    if !is_new_connection && upload == 0 && download == 0 {
        proof {
            assert(out@.map_values(|u: DomainStatsUpdate| u.row()) =~= Seq::<StatRow>::empty());
        }
        return out;
    }
    let portions = window_portions(upload, download, is_new_connection, start, end, BucketUnit::Day, true);
    let ghost rows = portion_rows(portions@);
    let mut i: usize = 0;
    while i < portions.len()
        invariant
            i <= portions@.len(),
            rows == portion_rows(portions@),
            out@.map_values(|u: DomainStatsUpdate| u.row()) == labelled(domain@, rows.take(i as int)),
        decreases portions@.len() - i,
    {
        let ghost before = out@;
        out.push(
            DomainStatsUpdate {
                domain: owned(domain),
                day: portions[i].key.clone(),
                hit_count: portions[i].count,
                upload: portions[i].upload,
                download: portions[i].download,
            },
        );
        proof {
            assert(rows.take(i + 1) =~= rows.take(i as int).push(rows[i as int]));
            let row_i = rows[i as int];
            assert(out@.last().row() == (domain@, row_i.0, row_i.3, row_i.1, row_i.2));
            assert(out@.map_values(|u: DomainStatsUpdate| u.row()) =~= before.map_values(|u: DomainStatsUpdate| u.row()).push(out@.last().row()));
            assert(out@.map_values(|u: DomainStatsUpdate| u.row()) =~= labelled(domain@, rows.take(i + 1)));
        }
        i = i + 1;
    }
    proof {
        assert(rows.take(portions@.len() as int) =~= rows);
    }
    out
}

/// Per-day rule rows of a change.
pub fn build_rule_stats_updates(
    rule: &str,
    upload: i64,
    download: i64,
    is_new_connection: bool,
    start: i128,
    end: i128,
) -> (r: Vec<RuleStatsUpdate>)
    requires
        instant_in_range(start as int),
        instant_in_range(end as int),
    ensures
        r@.map_values(|u: RuleStatsUpdate| u.row()) == (if !is_new_connection && upload == 0
            && download == 0 {
            Seq::<StatRow>::empty()
        } else {
            labelled(
                rule@,
                planned_portions(
                    upload as int,
                    download as int,
                    is_new_connection,
                    bucket_plan(start as int, end as int, BucketUnit::Day),
                    true,
                ),
            )
        }),
{
    let mut out: Vec<RuleStatsUpdate> = Vec::new();
    if !is_new_connection && upload == 0 && download == 0 {
        proof {
            assert(out@.map_values(|u: RuleStatsUpdate| u.row()) =~= Seq::<StatRow>::empty());
        }
        return out;
    }
    let portions = window_portions(upload, download, is_new_connection, start, end, BucketUnit::Day, true);
    let ghost rows = portion_rows(portions@);
    let mut i: usize = 0;
    while i < portions.len()
        invariant
            i <= portions@.len(),
            rows == portion_rows(portions@),
            out@.map_values(|u: RuleStatsUpdate| u.row()) == labelled(rule@, rows.take(i as int)),
        decreases portions@.len() - i,
    {
        let ghost before = out@;
        out.push(
            RuleStatsUpdate {
                rule: owned(rule),
                day: portions[i].key.clone(),
                hit_count: portions[i].count,
                upload: portions[i].upload,
                download: portions[i].download,
            },
        );
        proof {
            assert(rows.take(i + 1) =~= rows.take(i as int).push(rows[i as int]));
            let row_i = rows[i as int];
            assert(out@.last().row() == (rule@, row_i.0, row_i.3, row_i.1, row_i.2));
            assert(out@.map_values(|u: RuleStatsUpdate| u.row()) =~= before.map_values(|u: RuleStatsUpdate| u.row()).push(out@.last().row()));
            assert(out@.map_values(|u: RuleStatsUpdate| u.row()) =~= labelled(rule@, rows.take(i + 1)));
        }
        i = i + 1;
    }
    proof {
        assert(rows.take(portions@.len() as int) =~= rows);
    }
    out
}

/// Per-day destination rows of a change; they count traffic only.
pub fn build_ip_traffic_stats_updates(
    dst_ip: &str,
    upload: i64,
    download: i64,
    is_new_connection: bool,
    start: i128,
    end: i128,
) -> (r: Vec<IpTrafficStatsUpdate>)
    requires
        instant_in_range(start as int),
        instant_in_range(end as int),
    ensures
        r@.map_values(|u: IpTrafficStatsUpdate| u.row()) == (if upload == 0 && download == 0 {
            Seq::<StatRow>::empty()
        } else {
            labelled(
                dst_ip@,
                planned_portions(
                    upload as int,
                    download as int,
                    is_new_connection,
                    bucket_plan(start as int, end as int, BucketUnit::Day),
                    false,
                ),
            )
        }),
{
    let mut out: Vec<IpTrafficStatsUpdate> = Vec::new();
    if upload == 0 && download == 0 {
        proof {
            assert(out@.map_values(|u: IpTrafficStatsUpdate| u.row()) =~= Seq::<StatRow>::empty());
        }
        return out;
    }
    let portions = window_portions(upload, download, is_new_connection, start, end, BucketUnit::Day, false);
    let ghost rows = portion_rows(portions@);
    proof {
        lemma_uncounted_portions(upload as int, download as int, is_new_connection,
            bucket_plan(start as int, end as int, BucketUnit::Day));
    }
    let mut i: usize = 0;
    while i < portions.len()
        invariant
            i <= portions@.len(),
            rows == portion_rows(portions@),
            forall|j: int| 0 <= j < rows.len() ==> #[trigger] rows[j].3 == 0,
            out@.map_values(|u: IpTrafficStatsUpdate| u.row()) == labelled(dst_ip@, rows.take(i as int)),
        decreases portions@.len() - i,
    {
        let ghost before = out@;
        out.push(
            IpTrafficStatsUpdate {
                dst_ip: owned(dst_ip),
                day: portions[i].key.clone(),
                upload: portions[i].upload,
                download: portions[i].download,
            },
        );
        proof {
            assert(rows[i as int].3 == 0);
            assert(rows.take(i + 1) =~= rows.take(i as int).push(rows[i as int]));
            let row_i = rows[i as int];
            assert(out@.last().row() == (dst_ip@, row_i.0, row_i.3, row_i.1, row_i.2));
            assert(out@.map_values(|u: IpTrafficStatsUpdate| u.row()) =~= before.map_values(|u: IpTrafficStatsUpdate| u.row()).push(out@.last().row()));
            assert(out@.map_values(|u: IpTrafficStatsUpdate| u.row()) =~= labelled(dst_ip@, rows.take(i + 1)));
        }
        i = i + 1;
    }
    proof {
        assert(rows.take(portions@.len() as int) =~= rows);
    }
    out
}

proof fn lemma_without_blanks_keeps(s: Seq<PortionRow>)
    requires
        forall|j: int| 0 <= j < s.len() ==> #[trigger] s[j].3 == 0,
    ensures
        forall|j: int| 0 <= j < without_blanks(s).len() ==> #[trigger] without_blanks(s)[j].3 == 0,
    decreases s.len(),
{
    if s.len() > 0 {
        lemma_without_blanks_keeps(s.drop_last());
        let rest = without_blanks(s.drop_last());
        if !is_blank(s.last()) {
            assert forall|j: int| 0 <= j < rest.push(s.last()).len() implies #[trigger] rest.push(s.last())[j].3 == 0 by {
                if j == rest.len() {
                    assert(s.last() == s[s.len() - 1]);
                }
            }
        }
    }
}

proof fn lemma_uncounted_portions(upload: int, download: int, is_new: bool, plan: Seq<(Seq<char>, int)>)
    ensures
        forall|j: int|
            0 <= j < planned_portions(upload, download, is_new, plan, false).len()
                ==> #[trigger] planned_portions(upload, download, is_new, plan, false)[j].3 == 0,
{
    let full = portion_table(upload, download, is_new, plan, false);
    assert forall|j: int| 0 <= j < full.len() implies #[trigger] full[j].3 == 0 by {}
    lemma_without_blanks_keeps(full);
}

/// Per-hour traffic samples of a change.
pub fn build_traffic_samples(
    upload: i64,
    download: i64,
    is_new_connection: bool,
    start: i128,
    end: i128,
) -> (r: Vec<TrafficSampleInsert>)
    requires
        instant_in_range(start as int),
        instant_in_range(end as int),
    ensures
        r@.map_values(|u: TrafficSampleInsert| u.row()) == (if !is_new_connection && upload == 0
            && download == 0 {
            Seq::<StatRow>::empty()
        } else {
            labelled(
                Seq::empty(),
                planned_portions(
                    upload as int,
                    download as int,
                    is_new_connection,
                    bucket_plan(start as int, end as int, BucketUnit::Hour),
                    true,
                ),
            )
        }),
{
    let mut out: Vec<TrafficSampleInsert> = Vec::new();
    if !is_new_connection && upload == 0 && download == 0 {
        proof {
            assert(out@.map_values(|u: TrafficSampleInsert| u.row()) =~= Seq::<StatRow>::empty());
        }
        return out;
    }
    let portions = window_portions(upload, download, is_new_connection, start, end, BucketUnit::Hour, true);
    let ghost rows = portion_rows(portions@);
    let mut i: usize = 0;
    while i < portions.len()
        invariant
            i <= portions@.len(),
            rows == portion_rows(portions@),
            out@.map_values(|u: TrafficSampleInsert| u.row()) == labelled(Seq::empty(), rows.take(i as int)),
        decreases portions@.len() - i,
    {
        let ghost before = out@;
        out.push(
            TrafficSampleInsert {
                ts: portions[i].key.clone(),
                upload: portions[i].upload,
                download: portions[i].download,
                conn_count: portions[i].count,
            },
        );
        proof {
            assert(rows.take(i + 1) =~= rows.take(i as int).push(rows[i as int]));
            let row_i = rows[i as int];
            assert(out@.last().row() == (Seq::<char>::empty(), row_i.0, row_i.3, row_i.1, row_i.2));
            assert(out@.map_values(|u: TrafficSampleInsert| u.row()) =~= before.map_values(|u: TrafficSampleInsert| u.row()).push(out@.last().row()));
            assert(out@.map_values(|u: TrafficSampleInsert| u.row()) =~= labelled(Seq::empty(), rows.take(i + 1)));
        }
        i = i + 1;
    }
    proof {
        assert(rows.take(portions@.len() as int) =~= rows);
    }
    out
}

/// The observation window of a reading that ends at `end`.
pub fn observation_window(
    current_record: &ConnectionRecord,
    previous_record: Option<&ConnectionRecord>,
    end: i128,
) -> (r: (i128, i128))
    requires
        instant_in_range(end as int),
    ensures
        r.0 as int == window_spec(*current_record, opt_record(previous_record), end as int).0,
        r.1 as int == window_spec(*current_record, opt_record(previous_record), end as int).1,
        instant_in_range(r.0 as int),
        r.1 == end,
{
    let baseline: &str = match previous_record {
        Some(p) => match &p.last_observed_at {
            Some(t) => t.as_str(),
            None => p.start_time.as_str(),
        },
        None => current_record.start_time.as_str(),
    };
    let start = match parse_rfc3339(baseline) {
        Ok(parts) => instant_nanos(parts),
        Err(_) => end,
    };
    if start < end {
        (start, end)
    } else {
        (end, end)
    }
}

/// The record behind an optional reference.
pub open spec fn opt_record(r: Option<&ConnectionRecord>) -> Option<ConnectionRecord> {
    match r {
        Some(x) => Some(*x),
        None => None,
    }
}

/// What one observation of a connection contributes to the statistics.
/// When `observed_at` parses, the window ends at that instant; when it does
/// not, it ends at the current time.
#[verifier::spinoff_prover]
pub fn build_observation_updates(
    current_record: &ConnectionRecord,
    previous_record: Option<&ConnectionRecord>,
    observed_at: &str,
) -> (r: ObservationUpdates)
    requires
        previous_record matches Some(p) ==> (current_record.upload - p.upload <= i64::MAX
            && current_record.download - p.download <= i64::MAX),
    ensures
        rfc3339_instant(observed_at@) matches Some(t) ==> r.rows() == observation_rows(
            *current_record,
            opt_record(previous_record),
            instant_of(t),
        ),
        exists|end: int|
            instant_in_range(end) && r.rows() == observation_rows(
                *current_record,
                opt_record(previous_record),
                end,
            ),
{
    let end = match parse_rfc3339(observed_at) {
        Ok(parts) => instant_nanos(parts),
        Err(_) => instant_nanos(utc_now()),
    };
    let (upload, download) = match previous_record {
        Some(previous) => (
            counter_delta(current_record.upload, previous.upload),
            counter_delta(current_record.download, previous.download),
        ),
        None => (
            if current_record.upload > 0 { current_record.upload } else { 0 },
            if current_record.download > 0 { current_record.download } else { 0 },
        ),
    };
    let is_new_connection = previous_record.is_none();
    let (start, stop) = observation_window(current_record, previous_record, end);
    let domain = str_trim(current_record.host.as_str());
    let domain_updates = if domain.is_empty() {
        Vec::new()
    } else {
        build_domain_stats_updates(domain, upload, download, is_new_connection, start, stop)
    };
    let rule = normalize_rule_name(current_record.rule.as_str());
    let rule_updates = build_rule_stats_updates(rule.as_str(), upload, download, is_new_connection, start, stop);
    let traffic_samples = build_traffic_samples(upload, download, is_new_connection, start, stop);
    let ip_traffic_updates = match &current_record.dst_ip {
        Some(ip) => {
            let dst_ip = str_trim(ip.as_str());
            if dst_ip.is_empty() {
                Vec::new()
            } else {
                build_ip_traffic_stats_updates(dst_ip, upload, download, is_new_connection, start, stop)
            }
        },
        None => Vec::new(),
    };
    let r = ObservationUpdates { domain_updates, rule_updates, ip_traffic_updates, traffic_samples };
    proof {
        assert(r.rows().domains =~= observation_rows(*current_record, opt_record(previous_record), end as int).domains);
        assert(r.rows().rules =~= observation_rows(*current_record, opt_record(previous_record), end as int).rules);
        assert(r.rows().ips =~= observation_rows(*current_record, opt_record(previous_record), end as int).ips);
        assert(r.rows().samples =~= observation_rows(*current_record, opt_record(previous_record), end as int).samples);
        assert(r.rows() == observation_rows(*current_record, opt_record(previous_record), end as int));
    }
    r
}
/// The uploads carried by statistics rows.
pub open spec fn row_uploads(rows: Seq<StatRow>) -> Seq<int> {
    rows.map_values(|r: StatRow| r.3)
}

/// The downloads carried by statistics rows.
pub open spec fn row_downloads(rows: Seq<StatRow>) -> Seq<int> {
    rows.map_values(|r: StatRow| r.4)
}

proof fn lemma_sum_push(xs: Seq<int>, x: int)
    ensures
        sum(xs.push(x)) == sum(xs) + x,
    decreases xs.len(),
{
    if xs.len() == 0 {
        assert(xs.push(x).drop_first() =~= Seq::<int>::empty());
        assert(xs.push(x)[0] == x);
        assert(sum(xs.push(x)) == x + sum(xs.push(x).drop_first()));
    } else {
        lemma_sum_push(xs.drop_first(), x);
        assert(xs.push(x).drop_first() =~= xs.drop_first().push(x));
        assert(xs.push(x)[0] == xs[0]);
    }
}

proof fn lemma_sum_zeros(n: nat)
    ensures
        sum(Seq::new(n, |i: int| 0int)) == 0,
    decreases n,
{
    if n > 0 {
        assert(Seq::new(n, |i: int| 0int).drop_first() =~= Seq::new((n - 1) as nat, |i: int| 0int));
        lemma_sum_zeros((n - 1) as nat);
    }
}

proof fn lemma_without_blanks_sums(s: Seq<PortionRow>)
    ensures
        sum(without_blanks(s).map_values(|e: PortionRow| e.1)) == sum(s.map_values(|e: PortionRow| e.1)),
        sum(without_blanks(s).map_values(|e: PortionRow| e.2)) == sum(s.map_values(|e: PortionRow| e.2)),
    decreases s.len(),
{
    if s.len() > 0 {
        let init = s.drop_last();
        let last = s.last();
        lemma_without_blanks_sums(init);
        let rest = without_blanks(init);
        assert(s.map_values(|e: PortionRow| e.1) =~= init.map_values(|e: PortionRow| e.1).push(last.1));
        assert(s.map_values(|e: PortionRow| e.2) =~= init.map_values(|e: PortionRow| e.2).push(last.2));
        lemma_sum_push(init.map_values(|e: PortionRow| e.1), last.1);
        lemma_sum_push(init.map_values(|e: PortionRow| e.2), last.2);
        if !is_blank(last) {
            assert(rest.push(last).map_values(|e: PortionRow| e.1) =~= rest.map_values(|e: PortionRow| e.1).push(last.1));
            assert(rest.push(last).map_values(|e: PortionRow| e.2) =~= rest.map_values(|e: PortionRow| e.2).push(last.2));
            lemma_sum_push(rest.map_values(|e: PortionRow| e.1), last.1);
            lemma_sum_push(rest.map_values(|e: PortionRow| e.2), last.2);
        }
    }
}

proof fn lemma_distribution_sum(total: int, ws: Seq<int>)
    requires
        total >= 0,
        ws.len() > 0,
    ensures
        distribution(total, ws).len() == ws.len(),
        sum(distribution(total, ws)) == total,
{
    if total > 0 {
        lemma_distribution_preserves_total(total, ws);
    } else {
        lemma_sum_zeros(ws.len());
    }
}

/// The portions of a change carry, together, exactly the change: every byte
/// of upload and download goes to one bucket.
pub proof fn lemma_portions_conserve_traffic(
    upload: int,
    download: int,
    is_new: bool,
    plan: Seq<(Seq<char>, int)>,
    count_new: bool,
)
    requires
        upload >= 0,
        download >= 0,
        plan.len() > 0,
    ensures
        sum(planned_portions(upload, download, is_new, plan, count_new).map_values(|e: PortionRow| e.1)) == upload,
        sum(planned_portions(upload, download, is_new, plan, count_new).map_values(|e: PortionRow| e.2)) == download,
{
    let t = portion_table(upload, download, is_new, plan, count_new);
    let ws = plan.map_values(|b: (Seq<char>, int)| b.1);
    lemma_without_blanks_sums(t);
    lemma_distribution_sum(upload, ws);
    lemma_distribution_sum(download, ws);
    assert(t.map_values(|e: PortionRow| e.1) =~= distribution(upload, ws));
    assert(t.map_values(|e: PortionRow| e.2) =~= distribution(download, ws));
}

proof fn lemma_bucket_plan_nonempty(start: int, end: int, unit: BucketUnit)
    ensures
        bucket_plan(start, end, unit).len() > 0,
{
    let u = unit.nanos();
    if end > start {
        vstd::arithmetic::div_mod::lemma_mod_bound(start, u);
        let f = floor_to(start, u);
        assert(f <= start && start < f + u);
        assert(pieces(f, start, end, u).len() > 0);
    }
}

proof fn lemma_labelled_sums(label: Seq<char>, portions: Seq<PortionRow>)
    ensures
        row_uploads(labelled(label, portions)) == portions.map_values(|e: PortionRow| e.1),
        row_downloads(labelled(label, portions)) == portions.map_values(|e: PortionRow| e.2),
{
    assert(row_uploads(labelled(label, portions)) =~= portions.map_values(|e: PortionRow| e.1));
    assert(row_downloads(labelled(label, portions)) =~= portions.map_values(|e: PortionRow| e.2));
}

/// An observation neither loses nor invents traffic: its per-day domain
/// rows (when it has a host), its per-day rule rows and its per-hour samples
/// each carry, together, exactly the connection's upload and download
/// increase.
pub proof fn lemma_observation_conserves_traffic(current: ConnectionRecord, previous: Option<ConnectionRecord>, end: int)
    ensures
        ({
            let (up, down) = observed_delta(current, previous);
            let rows = observation_rows(current, previous, end);
            &&& trim(current.host@).len() > 0 ==> sum(row_uploads(rows.domains)) == up && sum(row_downloads(rows.domains))
                == down
            &&& sum(row_uploads(rows.rules)) == up && sum(row_downloads(rows.rules)) == down
            &&& sum(row_uploads(rows.samples)) == up && sum(row_downloads(rows.samples)) == down
        }),
{
    let (up, down) = observed_delta(current, previous);
    let is_new = previous is None;
    let (start, stop) = window_spec(current, previous, end);
    let days = bucket_plan(start, stop, BucketUnit::Day);
    let hours = bucket_plan(start, stop, BucketUnit::Hour);
    lemma_bucket_plan_nonempty(start, stop, BucketUnit::Day);
    lemma_bucket_plan_nonempty(start, stop, BucketUnit::Hour);
    lemma_portions_conserve_traffic(up, down, is_new, days, true);
    lemma_portions_conserve_traffic(up, down, is_new, hours, true);
    lemma_labelled_sums(trim(current.host@), planned_portions(up, down, is_new, days, true));
    lemma_labelled_sums(normalized_rule(current.rule@), planned_portions(up, down, is_new, days, true));
    lemma_labelled_sums(Seq::empty(), planned_portions(up, down, is_new, hours, true));
    assert(row_uploads(Seq::<StatRow>::empty()) =~= Seq::<int>::empty());
    assert(row_downloads(Seq::<StatRow>::empty()) =~= Seq::<int>::empty());
}

/// The new-connection counts carried by statistics rows.
pub open spec fn row_counts(rows: Seq<StatRow>) -> Seq<int> {
    rows.map_values(|r: StatRow| r.2)
}

proof fn lemma_without_blanks_counts(s: Seq<PortionRow>)
    ensures
        sum(without_blanks(s).map_values(|e: PortionRow| e.3)) == sum(s.map_values(|e: PortionRow| e.3)),
        (forall|i: int| 0 < i < s.len() ==> #[trigger] s[i].3 == 0) ==> forall|k: int|
            0 < k < without_blanks(s).len() ==> #[trigger] without_blanks(s)[k].3 == 0,
    decreases s.len(),
{
    if s.len() > 0 {
        let init = s.drop_last();
        let last = s.last();
        lemma_without_blanks_counts(init);
        let rest = without_blanks(init);
        assert(s.map_values(|e: PortionRow| e.3) =~= init.map_values(|e: PortionRow| e.3).push(last.3));
        lemma_sum_push(init.map_values(|e: PortionRow| e.3), last.3);
        if !is_blank(last) {
            assert(rest.push(last).map_values(|e: PortionRow| e.3) =~= rest.map_values(|e: PortionRow| e.3).push(last.3));
            lemma_sum_push(rest.map_values(|e: PortionRow| e.3), last.3);
        }
        if forall|i: int| 0 < i < s.len() ==> #[trigger] s[i].3 == 0 {
            assert forall|i: int| 0 < i < init.len() implies #[trigger] init[i].3 == 0 by {
                assert(init[i] == s[i]);
            }
            if s.len() > 1 {
                assert(last == s[s.len() - 1]);
                assert(last.3 == 0);
            } else {
                assert(init.len() == 0);
                assert(rest.len() == 0);
            }
        }
    }
}

proof fn lemma_first_count_sum(n: nat, c: bool)
    requires
        n > 0,
    ensures
        sum(Seq::new(n, |i: int| if c && i == 0 { 1int } else { 0int })) == if c { 1int } else { 0int },
{
    let s = Seq::new(n, |i: int| if c && i == 0 { 1int } else { 0int });
    assert(s.drop_first() =~= Seq::new((n - 1) as nat, |i: int| 0int));
    lemma_sum_zeros((n - 1) as nat);
}

/// The new-connection counts of planned portions: one on the first portion
/// of a new connection when `count_new`, none anywhere else.
pub proof fn lemma_portions_count_new(
    upload: int,
    download: int,
    is_new: bool,
    plan: Seq<(Seq<char>, int)>,
    count_new: bool,
)
    requires
        plan.len() > 0,
    ensures
        sum(planned_portions(upload, download, is_new, plan, count_new).map_values(|e: PortionRow| e.3)) == if count_new
            && is_new {
            1int
        } else {
            0int
        },
        forall|k: int|
            0 < k < planned_portions(upload, download, is_new, plan, count_new).len() ==> #[trigger] planned_portions(
                upload,
                download,
                is_new,
                plan,
                count_new,
            )[k].3 == 0,
{
    let t = portion_table(upload, download, is_new, plan, count_new);
    lemma_without_blanks_counts(t);
    assert(t.map_values(|e: PortionRow| e.3) =~= Seq::new(plan.len(), |i: int| if (count_new && is_new) && i == 0 { 1int } else { 0int }));
    lemma_first_count_sum(plan.len(), count_new && is_new);
}

proof fn lemma_labelled_counts(label: Seq<char>, portions: Seq<PortionRow>)
    ensures
        row_counts(labelled(label, portions)) == portions.map_values(|e: PortionRow| e.3),
        labelled(label, portions).len() == portions.len(),
        forall|k: int| 0 <= k < portions.len() ==> #[trigger] labelled(label, portions)[k].2 == portions[k].3,
{
    assert(row_counts(labelled(label, portions)) =~= portions.map_values(|e: PortionRow| e.3));
}

/// What else an observation keeps: its destination rows (when it has a
/// destination address) carry exactly the traffic increase; its rule rows,
/// its samples and its domain rows (when it has a host) count the connection
/// once when it is new and never otherwise, and only on their first row;
/// and a known connection whose counters did not move gives no rows at all.
pub proof fn lemma_observation_counts(current: ConnectionRecord, previous: Option<ConnectionRecord>, end: int)
    ensures
        ({
            let (up, down) = observed_delta(current, previous);
            let rows = observation_rows(current, previous, end);
            let new_count = if previous is None { 1int } else { 0int };
            &&& (current.dst_ip matches Some(ip) && trim(ip@).len() > 0) ==> sum(row_uploads(rows.ips)) == up
                && sum(row_downloads(rows.ips)) == down
            &&& sum(row_counts(rows.rules)) == new_count
            &&& sum(row_counts(rows.samples)) == new_count
            &&& trim(current.host@).len() > 0 ==> sum(row_counts(rows.domains)) == new_count
            &&& forall|k: int| 0 < k < rows.rules.len() ==> #[trigger] rows.rules[k].2 == 0
            &&& forall|k: int| 0 < k < rows.samples.len() ==> #[trigger] rows.samples[k].2 == 0
            &&& forall|k: int| 0 < k < rows.domains.len() ==> #[trigger] rows.domains[k].2 == 0
            &&& (previous is Some && up == 0 && down == 0) ==> rows.domains.len() == 0 && rows.rules.len() == 0
                && rows.ips.len() == 0 && rows.samples.len() == 0
        }),
{
    let (up, down) = observed_delta(current, previous);
    let is_new = previous is None;
    let (start, stop) = window_spec(current, previous, end);
    let days = bucket_plan(start, stop, BucketUnit::Day);
    let hours = bucket_plan(start, stop, BucketUnit::Hour);
    lemma_bucket_plan_nonempty(start, stop, BucketUnit::Day);
    lemma_bucket_plan_nonempty(start, stop, BucketUnit::Hour);
    lemma_portions_conserve_traffic(up, down, is_new, days, false);
    lemma_portions_count_new(up, down, is_new, days, true);
    lemma_portions_count_new(up, down, is_new, hours, true);
    let dp = planned_portions(up, down, is_new, days, true);
    let hp = planned_portions(up, down, is_new, hours, true);
    lemma_labelled_counts(trim(current.host@), dp);
    lemma_labelled_counts(normalized_rule(current.rule@), dp);
    lemma_labelled_counts(Seq::empty(), hp);
    match current.dst_ip {
        Some(ip) => {
            lemma_labelled_sums(trim(ip@), planned_portions(up, down, is_new, days, false));
        },
        None => {},
    }
    assert(row_uploads(Seq::<StatRow>::empty()) =~= Seq::<int>::empty());
    assert(row_downloads(Seq::<StatRow>::empty()) =~= Seq::<int>::empty());
    assert(row_counts(Seq::<StatRow>::empty()) =~= Seq::<int>::empty());
}

} // verus!
