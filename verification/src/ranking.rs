//! Top-N rankings of named amounts: the largest amounts first, ties broken by
//! the name in the order of `str`.
use vstd::prelude::*;
use crate::text::{text_less, text_lt, lemma_text_order};

verus! {

/// An amount that a ranking orders by.
pub trait Tally: Sized {
    spec fn amount(&self) -> int;

    fn exceeds(&self, other: &Self) -> (r: bool)
        ensures
            r == (self.amount() > other.amount()),
    ;

    fn same(&self, other: &Self) -> (r: bool)
        ensures
            r == (self.amount() == other.amount()),
    ;
}

impl Tally for i64 {
    open spec fn amount(&self) -> int {
        *self as int
    }

    fn exceeds(&self, other: &Self) -> (r: bool) {
        *self > *other
    }

    fn same(&self, other: &Self) -> (r: bool) {
        *self == *other
    }
}

impl Tally for usize {
    open spec fn amount(&self) -> int {
        *self as int
    }

    fn exceeds(&self, other: &Self) -> (r: bool) {
        *self > *other
    }

    fn same(&self, other: &Self) -> (r: bool) {
        *self == *other
    }
}

/// A named amount as plain values.
pub open spec fn entry_view<V: Tally>(e: (String, V)) -> (Seq<char>, int) {
    (e.0@, e.1.amount())
}

/// Named amounts as plain values.
pub open spec fn entries_view<V: Tally>(s: Seq<(String, V)>) -> Seq<(Seq<char>, int)> {
    s.map_values(|e: (String, V)| entry_view(e))
}

/// `a` comes before `b`: a larger amount, or the same amount and a smaller name.
pub open spec fn ranks_before(a: (Seq<char>, int), b: (Seq<char>, int)) -> bool {
    a.1 > b.1 || (a.1 == b.1 && text_lt(a.0, b.0))
}

/// `r` is the ranking of the entries of `m` cut after `limit` places: in
/// ranking order, each place an entry of `m`, and every entry of `m` that is
/// not placed ranks after the last place of a full ranking.
pub open spec fn is_top_ranking(r: Seq<(Seq<char>, int)>, m: Map<Seq<char>, int>, limit: nat) -> bool {
    &&& r.len() <= limit
    &&& forall|i: int, j: int| 0 <= i < j < r.len() ==> ranks_before(#[trigger] r[i], #[trigger] r[j])
    &&& forall|i: int| 0 <= i < r.len() ==> m.contains_key(#[trigger] r[i].0) && m[r[i].0] == r[i].1
    &&& forall|k: Seq<char>| #[trigger] m.contains_key(k) ==> (exists|i: int| 0 <= i < r.len() && #[trigger] r[i].0 == k)
        || (r.len() == limit && ranks_before(r.last(), (k, m[k])))
}

/// The list holds exactly the entries of `m`, each once.
pub open spec fn lists_map(s: Seq<(Seq<char>, int)>, m: Map<Seq<char>, int>) -> bool {
    &&& forall|i: int, j: int| 0 <= i < j < s.len() ==> #[trigger] s[i].0 != #[trigger] s[j].0
    &&& forall|i: int| 0 <= i < s.len() ==> m.contains_key(#[trigger] s[i].0) && m[s[i].0] == s[i].1
    &&& forall|k: Seq<char>| #[trigger] m.contains_key(k) ==> exists|i: int| 0 <= i < s.len() && #[trigger] s[i].0 == k
}

/// Ranking order is a strict total order on entries with distinct names.
pub proof fn lemma_rank_order(a: (Seq<char>, int), b: (Seq<char>, int), c: (Seq<char>, int))
    ensures
        !ranks_before(a, a),
        ranks_before(a, b) && ranks_before(b, c) ==> ranks_before(a, c),
        a.0 != b.0 ==> ranks_before(a, b) || ranks_before(b, a),
        ranks_before(a, b) ==> !ranks_before(b, a),
{
    lemma_text_order(a.0, b.0, c.0);
    lemma_text_order(b.0, a.0, c.0);
}

/// Whether `a` ranks before `b`.
fn entry_before<V: Tally>(a: &(String, V), b: &(String, V)) -> (r: bool)
    ensures
        r == ranks_before(entry_view(*a), entry_view(*b)),
{
    if a.1.exceeds(&b.1) {
        true
    } else if a.1.same(&b.1) {
        text_less(a.0.as_str(), b.0.as_str())
    } else {
        false
    }
}

/// The places are in ranking order.
pub open spec fn ranked(t: Seq<(Seq<char>, int)>) -> bool {
    forall|i: int, j: int| 0 <= i < j < t.len() ==> ranks_before(#[trigger] t[i], #[trigger] t[j])
}

/// No name occurs twice.
pub open spec fn distinct_names(s: Seq<(Seq<char>, int)>) -> bool {
    forall|i: int, j: int| 0 <= i < j < s.len() ==> #[trigger] s[i].0 != #[trigger] s[j].0
}

/// Every place in `t` is an entry of `orig[lo..]`.
pub open spec fn placed_from(t: Seq<(Seq<char>, int)>, orig: Seq<(Seq<char>, int)>, lo: int) -> bool {
    forall|i: int| #![trigger t[i]] 0 <= i < t.len() ==> (exists|j: int| lo <= j < orig.len() && #[trigger] orig[j] == t[i])
}

/// Every entry of `orig[lo..]` is placed in `t`, or `t` is full and the entry
/// ranks after its last place.
pub open spec fn covers(t: Seq<(Seq<char>, int)>, orig: Seq<(Seq<char>, int)>, lo: int, limit: nat) -> bool {
    forall|j: int| #![trigger orig[j]] lo <= j < orig.len() ==> (exists|i: int| 0 <= i < t.len() && #[trigger] t[i] == orig[j])
        || (t.len() == limit && ranks_before(t.last(), orig[j]))
}

/// `t` is the ranking of `orig[lo..]` cut after `limit` places.
#[verifier::opaque]
pub open spec fn partial_top(t: Seq<(Seq<char>, int)>, orig: Seq<(Seq<char>, int)>, lo: int, limit: nat) -> bool {
    &&& t.len() <= limit
    &&& ranked(t)
    &&& placed_from(t, orig, lo)
    &&& covers(t, orig, lo, limit)
}

/// The ranking after offering `e` at position `p`: placed there when `p` is
/// within the limit, the last place dropped when the ranking overflows.
pub open spec fn offer(t: Seq<(Seq<char>, int)>, e: (Seq<char>, int), p: int, limit: nat) -> Seq<(Seq<char>, int)> {
    if p < limit {
        let t1 = t.insert(p, e);
        if t1.len() > limit {
            t1.drop_last()
        } else {
            t1
        }
    } else {
        t
    }
}

proof fn lemma_partial_top_parts(t: Seq<(Seq<char>, int)>, orig: Seq<(Seq<char>, int)>, lo: int, limit: nat)
    requires
        partial_top(t, orig, lo, limit),
    ensures
        t.len() <= limit,
        ranked(t),
        placed_from(t, orig, lo),
        covers(t, orig, lo, limit),
{
    reveal(partial_top);
}

proof fn lemma_insert_ranked(t: Seq<(Seq<char>, int)>, e: (Seq<char>, int), p: int)
    requires
        0 <= p <= t.len(),
        ranked(t),
        forall|i: int| 0 <= i < p ==> ranks_before(#[trigger] t[i], e),
        forall|i: int| p <= i < t.len() ==> ranks_before(e, #[trigger] t[i]),
    ensures
        ranked(t.insert(p, e)),
{
    let t1 = t.insert(p, e);
    assert forall|i: int, j: int| 0 <= i < j < t1.len() implies ranks_before(#[trigger] t1[i], #[trigger] t1[j]) by {
        if i < p && j > p {
            lemma_rank_order(t1[i], e, t1[j]);
        } else if i > p {
            assert(t1[i] == t[i - 1] && t1[j] == t[j - 1]);
        }
    }
}

proof fn lemma_offer_ranked(t: Seq<(Seq<char>, int)>, e: (Seq<char>, int), p: int, limit: nat)
    requires
        0 <= p <= t.len(),
        ranked(t),
        forall|i: int| 0 <= i < p ==> ranks_before(#[trigger] t[i], e),
        forall|i: int| p <= i < t.len() ==> ranks_before(e, #[trigger] t[i]),
    ensures
        ranked(offer(t, e, p, limit)),
{
    if p < limit {
        lemma_insert_ranked(t, e, p);
        let t1 = t.insert(p, e);
        let r = offer(t, e, p, limit);
        assert forall|i: int, j: int| 0 <= i < j < r.len() implies ranks_before(#[trigger] r[i], #[trigger] r[j]) by {
            assert(r[i] == t1[i] && r[j] == t1[j]);
        }
    }
}

proof fn lemma_offer_placed(t: Seq<(Seq<char>, int)>, orig: Seq<(Seq<char>, int)>, n: int, p: int, limit: nat)
    requires
        0 <= n < orig.len(),
        0 <= p <= t.len(),
        placed_from(t, orig, n + 1),
    ensures
        placed_from(offer(t, orig[n], p, limit), orig, n),
{
    let r = offer(t, orig[n], p, limit);
    assert forall|i: int| #![trigger r[i]] 0 <= i < r.len() implies (exists|j: int| n <= j < orig.len() && #[trigger] orig[j] == r[i]) by {
        let src = if p < limit && i == p {
            -1
        } else if p < limit && i > p {
            i - 1
        } else {
            i
        };
        if src == -1 {
            assert(orig[n] == r[i]);
        } else {
            assert(r[i] == t[src]);
            let j = choose|j: int| n + 1 <= j < orig.len() && #[trigger] orig[j] == t[src];
            assert(orig[j] == r[i]);
        }
    }
}

/// An entry that was placed before the offer is still placed, or it fell off
/// the end and ranks after the new last place.
proof fn lemma_offer_keeps(t: Seq<(Seq<char>, int)>, e: (Seq<char>, int), p: int, limit: nat, i: int)
    requires
        limit > 0,
        0 <= p <= t.len(),
        t.len() <= limit,
        p < limit,
        ranked(t.insert(p, e)),
        0 <= i < t.len(),
    ensures
        (exists|k: int| 0 <= k < offer(t, e, p, limit).len() && #[trigger] offer(t, e, p, limit)[k] == t[i])
            || (offer(t, e, p, limit).len() == limit && ranks_before(offer(t, e, p, limit).last(), t[i])),
{
    let t1 = t.insert(p, e);
    let r = offer(t, e, p, limit);
    if i < p {
        assert(r[i] == t[i]);
    } else if i + 1 < r.len() {
        assert(r[i + 1] == t1[i + 1]);
    } else {
        assert(t1.len() > limit);
        assert(t1[i + 1] == t[i]);
        assert(r.last() == t1[t1.len() - 2]);
        assert(ranks_before(t1[t1.len() - 2], t1[t1.len() - 1]));
    }
}

proof fn lemma_offer_covers(t: Seq<(Seq<char>, int)>, orig: Seq<(Seq<char>, int)>, n: int, p: int, limit: nat)
    requires
        limit > 0,
        0 <= n < orig.len(),
        0 <= p <= t.len(),
        t.len() <= limit,
        ranked(t),
        covers(t, orig, n + 1, limit),
        p >= limit ==> p == t.len(),
        forall|i: int| 0 <= i < p ==> ranks_before(#[trigger] t[i], orig[n]),
        forall|i: int| p <= i < t.len() ==> ranks_before(orig[n], #[trigger] t[i]),
    ensures
        covers(offer(t, orig[n], p, limit), orig, n, limit),
{
    let e = orig[n];
    let r = offer(t, e, p, limit);
    if p < limit {
        lemma_insert_ranked(t, e, p);
        let t1 = t.insert(p, e);
        assert forall|j: int| #![trigger orig[j]] n <= j < orig.len() implies (exists|i: int| 0 <= i < r.len() && #[trigger] r[i] == orig[j])
            || (r.len() == limit && ranks_before(r.last(), orig[j])) by {
            if j == n {
                assert(r[p] == orig[j]);
            } else if exists|i: int| 0 <= i < t.len() && #[trigger] t[i] == orig[j] {
                let i = choose|i: int| 0 <= i < t.len() && #[trigger] t[i] == orig[j];
                lemma_offer_keeps(t, e, p, limit, i);
            } else {
                let oj = orig[j];
                assert(n + 1 <= j < orig.len());
                assert((exists|i: int| 0 <= i < t.len() && #[trigger] t[i] == orig[j]) || (t.len() == limit && ranks_before(t.last(), orig[j])));
                lemma_offer_keeps(t, e, p, limit, t.len() - 1);
                if exists|k: int| 0 <= k < r.len() && #[trigger] r[k] == t[t.len() - 1] {
                    let k = choose|k: int| 0 <= k < r.len() && #[trigger] r[k] == t[t.len() - 1];
                    assert(r.len() == limit);
                    if k < r.len() - 1 {
                        assert(ranks_before(r[k], r[r.len() - 1]));
                        lemma_rank_order(r.last(), r[k], orig[j]);
                        lemma_rank_order(r[k], r.last(), r.last());
                    }
                } else {
                    lemma_rank_order(r.last(), t.last(), orig[j]);
                }
            }
        }
    } else {
        assert(covers(r, orig, n, limit)) by {
            assert(t.len() == limit && p == t.len());
            assert(ranks_before(t.last(), e)) by {
                assert(t.last() == t[p - 1]);
            }
        }
    }
}

proof fn lemma_offer_step(t: Seq<(Seq<char>, int)>, orig: Seq<(Seq<char>, int)>, n: int, p: int, limit: nat)
    requires
        limit > 0,
        0 <= n < orig.len(),
        0 <= p <= t.len(),
        partial_top(t, orig, n + 1, limit),
        p >= limit ==> p == t.len(),
        forall|i: int| 0 <= i < p ==> ranks_before(#[trigger] t[i], orig[n]),
        forall|i: int| p <= i < t.len() ==> ranks_before(orig[n], #[trigger] t[i]),
    ensures
        partial_top(offer(t, orig[n], p, limit), orig, n, limit),
{
    lemma_partial_top_parts(t, orig, n + 1, limit);
    lemma_offer_ranked(t, orig[n], p, limit);
    lemma_offer_placed(t, orig, n, p, limit);
    lemma_offer_covers(t, orig, n, p, limit);
    reveal(partial_top);
}

/// A name not yet offered is not placed.
proof fn lemma_fresh_name(t: Seq<(Seq<char>, int)>, orig: Seq<(Seq<char>, int)>, n: int, limit: nat)
    requires
        0 <= n < orig.len(),
        distinct_names(orig),
        partial_top(t, orig, n + 1, limit),
    ensures
        forall|i: int| 0 <= i < t.len() ==> #[trigger] t[i].0 != orig[n].0,
{
    lemma_partial_top_parts(t, orig, n + 1, limit);
    assert forall|i: int| 0 <= i < t.len() implies #[trigger] t[i].0 != orig[n].0 by {
        let j = choose|j: int| n + 1 <= j < orig.len() && #[trigger] orig[j] == t[i];
        assert(orig[n].0 != orig[j].0);
    }
}

proof fn lemma_placed_in_map(t: Seq<(Seq<char>, int)>, orig: Seq<(Seq<char>, int)>, m: Map<Seq<char>, int>)
    requires
        lists_map(orig, m),
        placed_from(t, orig, 0),
    ensures
        forall|i: int| 0 <= i < t.len() ==> m.contains_key(#[trigger] t[i].0) && m[t[i].0] == t[i].1,
{
    assert forall|i: int| 0 <= i < t.len() implies m.contains_key(#[trigger] t[i].0) && m[t[i].0] == t[i].1 by {
        let ti = t[i];
        assert(exists|j: int| 0 <= j < orig.len() && #[trigger] orig[j] == t[i]);
        let j = choose|j: int| 0 <= j < orig.len() && #[trigger] orig[j] == t[i];
        assert(m.contains_key(orig[j].0) && m[orig[j].0] == orig[j].1);
    }
}

proof fn lemma_map_covered(t: Seq<(Seq<char>, int)>, orig: Seq<(Seq<char>, int)>, m: Map<Seq<char>, int>, limit: nat)
    requires
        lists_map(orig, m),
        covers(t, orig, 0, limit),
    ensures
        forall|k: Seq<char>| #[trigger] m.contains_key(k) ==> (exists|i: int| 0 <= i < t.len() && #[trigger] t[i].0 == k)
            || (t.len() == limit && ranks_before(t.last(), (k, m[k]))),
{
    assert forall|k: Seq<char>| #[trigger] m.contains_key(k) implies (exists|i: int| 0 <= i < t.len() && #[trigger] t[i].0 == k)
        || (t.len() == limit && ranks_before(t.last(), (k, m[k]))) by {
        let j = choose|j: int| 0 <= j < orig.len() && #[trigger] orig[j].0 == k;
        assert(m[orig[j].0] == orig[j].1);
        assert(orig[j] == (k, m[k]));
        assert((exists|i: int| 0 <= i < t.len() && #[trigger] t[i] == orig[j]) || (t.len() == limit && ranks_before(t.last(), orig[j])));
        if exists|i: int| 0 <= i < t.len() && #[trigger] t[i] == orig[j] {
            let i = choose|i: int| 0 <= i < t.len() && #[trigger] t[i] == orig[j];
            assert(t[i].0 == k);
        }
    }
}

proof fn lemma_partial_top_done(t: Seq<(Seq<char>, int)>, orig: Seq<(Seq<char>, int)>, m: Map<Seq<char>, int>, limit: nat)
    requires
        lists_map(orig, m),
        partial_top(t, orig, 0, limit),
    ensures
        is_top_ranking(t, m, limit),
{
    lemma_partial_top_parts(t, orig, 0, limit);
    lemma_placed_in_map(t, orig, m);
    lemma_map_covered(t, orig, m, limit);
}

/// The first `limit` places of the ranking of the entries, which name each
/// key of `m` once.
pub fn rank_top<V: Tally>(entries: Vec<(String, V)>, limit: usize, Ghost(m): Ghost<Map<Seq<char>, int>>) -> (r: Vec<(String, V)>)
    requires
        limit > 0,
        lists_map(entries_view(entries@), m),
    ensures
        is_top_ranking(entries_view(r@), m, limit as nat),
{
    let ghost orig = entries_view(entries@);
    let mut rest = entries;
    let mut top: Vec<(String, V)> = Vec::new();
    proof {
        reveal(partial_top);
        assert(distinct_names(orig));
    }
    while rest.len() > 0
        invariant
            rest@.len() <= orig.len(),
            forall|j: int| 0 <= j < rest@.len() ==> entry_view(#[trigger] rest@[j]) == orig[j],
            distinct_names(orig),
            limit > 0,
            partial_top(entries_view(top@), orig, rest@.len() as int, limit as nat),
        decreases rest@.len(),
    {
        let ghost tv = entries_view(top@);
        let ghost n = rest@.len() - 1;
        let e = rest.pop().unwrap();
        let ghost ev = entry_view(e);
        proof {
            assert(ev == orig[n]);
            lemma_fresh_name(tv, orig, n, limit as nat);
            lemma_partial_top_parts(tv, orig, n + 1, limit as nat);
        }
        let mut p: usize = 0;
        while p < top.len() && !entry_before(&e, &top[p])
            invariant
                p <= top@.len(),
                tv == entries_view(top@),
                ev == entry_view(e),
                forall|i: int| 0 <= i < p ==> ranks_before(#[trigger] tv[i], ev),
                forall|i: int| 0 <= i < tv.len() ==> #[trigger] tv[i].0 != ev.0,
            decreases top@.len() - p,
        {
            proof {
                lemma_rank_order(tv[p as int], ev, ev);
            }
            p = p + 1;
        }
        proof {
            assert forall|i: int| p <= i < tv.len() implies ranks_before(ev, #[trigger] tv[i]) by {
                if i > p {
                    assert(ranks_before(tv[p as int], tv[i]));
                    lemma_rank_order(ev, tv[p as int], tv[i]);
                }
            }
            lemma_offer_step(tv, orig, n, p as int, limit as nat);
        }
        if p < limit {
            top.insert(p, e);
            if top.len() > limit {
                top.pop();
            }
        }
        proof {
            assert(entries_view(top@) =~= offer(tv, ev, p as int, limit as nat));
        }
    }
    proof {
        lemma_partial_top_done(entries_view(top@), orig, m, limit as nat);
    }
    top
}

/// The map from name to amount that a list of named amounts stands for.
pub open spec fn pairs_map(s: Seq<(Seq<char>, int)>) -> Map<Seq<char>, int>
    decreases s.len(),
{
    if s.len() == 0 {
        Map::empty()
    } else {
        pairs_map(s.drop_last()).insert(s.last().0, s.last().1)
    }
}

/// A list with distinct names lists exactly the map it stands for.
pub proof fn lemma_pairs_map_listed(s: Seq<(Seq<char>, int)>)
    requires
        distinct_names(s),
    ensures
        lists_map(s, pairs_map(s)),
    decreases s.len(),
{
    if s.len() > 0 {
        let t = s.drop_last();
        assert(distinct_names(t)) by {
            assert forall|i: int, j: int| 0 <= i < j < t.len() implies #[trigger] t[i].0 != #[trigger] t[j].0 by {
                assert(t[i] == s[i] && t[j] == s[j]);
            }
        }
        lemma_pairs_map_listed(t);
        let m = pairs_map(s);
        let last = s.len() - 1;
        assert forall|i: int| 0 <= i < s.len() implies m.contains_key(#[trigger] s[i].0) && m[s[i].0] == s[i].1 by {
            if i < last {
                assert(t[i] == s[i]);
                assert(s[i].0 != s[last].0);
            }
        }
        assert forall|k: Seq<char>| #[trigger] m.contains_key(k) implies exists|i: int| 0 <= i < s.len() && #[trigger] s[i].0 == k by {
            if k != s[last].0 {
                assert(pairs_map(t).contains_key(k));
                let i = choose|i: int| 0 <= i < t.len() && #[trigger] t[i].0 == k;
                assert(s[i] == t[i]);
            } else {
                assert(s[last].0 == k);
            }
        }
    }
}

} // verus!
