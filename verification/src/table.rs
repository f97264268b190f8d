//! A small table of items keyed by their text identifier, kept in insertion
//! order; it stands where a hash map from identifier to item would.
use vstd::prelude::*;
use crate::text::{text_eq, text_less, text_lt, lemma_text_order};

verus! {

/// An item that carries its own identifier.
pub trait Keyed {
    /// The identifier, as text.
    spec fn key(&self) -> Seq<char>;

    /// The identifier.
    fn key_str(&self) -> (r: &str)
        ensures
            r@ == self.key(),
    ;
}

/// The map from identifier to item that a list of items stands for; a later
/// item wins over an earlier one with the same identifier.
pub open spec fn as_map<T: Keyed>(s: Seq<T>) -> Map<Seq<char>, T>
    decreases s.len(),
{
    if s.len() == 0 {
        Map::empty()
    } else {
        as_map(s.drop_last()).insert(s.last().key(), s.last())
    }
}

/// No two items share an identifier.
pub open spec fn distinct_keys<T: Keyed>(s: Seq<T>) -> bool {
    forall|i: int, j: int| 0 <= i < s.len() && 0 <= j < s.len() && i != j ==> #[trigger] s[i].key() != #[trigger] s[j].key()
}

pub proof fn lemma_as_map_domain<T: Keyed>(s: Seq<T>, k: Seq<char>)
    ensures
        as_map(s).contains_key(k) <==> exists|i: int| 0 <= i < s.len() && #[trigger] s[i].key() == k,
    decreases s.len(),
{
    if s.len() > 0 {
        lemma_as_map_domain(s.drop_last(), k);
        if as_map(s).contains_key(k) {
            if s.last().key() != k {
                let i = choose|i: int| 0 <= i < s.drop_last().len() && #[trigger] s.drop_last()[i].key() == k;
                assert(s[i].key() == k);
            }
        }
        if exists|i: int| 0 <= i < s.len() && #[trigger] s[i].key() == k {
            let i = choose|i: int| 0 <= i < s.len() && #[trigger] s[i].key() == k;
            if i < s.len() - 1 {
                assert(s.drop_last()[i].key() == k);
            }
        }
    }
}

pub proof fn lemma_as_map_value<T: Keyed>(s: Seq<T>, i: int)
    requires
        distinct_keys(s),
        0 <= i < s.len(),
    ensures
        as_map(s).contains_key(s[i].key()),
        as_map(s)[s[i].key()] == s[i],
    decreases s.len(),
{
    if i < s.len() - 1 {
        assert(s.drop_last()[i] == s[i]);
        assert(distinct_keys(s.drop_last())) by {
            assert forall|a: int, b: int| 0 <= a < s.drop_last().len() && 0 <= b < s.drop_last().len() && a != b implies #[trigger] s.drop_last()[a].key() != #[trigger] s.drop_last()[b].key() by {
                assert(s.drop_last()[a] == s[a]);
                assert(s.drop_last()[b] == s[b]);
            }
        }
        lemma_as_map_value(s.drop_last(), i);
        assert(s.last().key() != s[i].key()) by {
            assert(s.last() == s[s.len() - 1]);
        }
    }
}

proof fn lemma_distinct_drop_last<T: Keyed>(s: Seq<T>)
    requires
        distinct_keys(s),
        s.len() > 0,
    ensures
        distinct_keys(s.drop_last()),
{
    assert forall|a: int, b: int| 0 <= a < s.drop_last().len() && 0 <= b < s.drop_last().len() && a != b implies #[trigger] s.drop_last()[a].key() != #[trigger] s.drop_last()[b].key() by {
        assert(s.drop_last()[a] == s[a]);
        assert(s.drop_last()[b] == s[b]);
    }
}

/// The map of a list with distinct identifiers has one entry per item.
pub proof fn lemma_as_map_len<T: Keyed>(s: Seq<T>)
    requires
        distinct_keys(s),
    ensures
        as_map(s).dom().finite(),
        as_map(s).dom().len() == s.len(),
    decreases s.len(),
{
    if s.len() > 0 {
        lemma_distinct_drop_last(s);
        lemma_as_map_len(s.drop_last());
        lemma_as_map_domain(s.drop_last(), s.last().key());
        if as_map(s.drop_last()).contains_key(s.last().key()) {
            let i = choose|i: int| 0 <= i < s.drop_last().len() && #[trigger] s.drop_last()[i].key() == s.last().key();
            assert(s[i].key() == s[s.len() - 1].key());
        }
    }
}

pub proof fn lemma_as_map_update<T: Keyed>(s: Seq<T>, i: int, x: T)
    requires
        distinct_keys(s),
        0 <= i < s.len(),
        x.key() == s[i].key(),
    ensures
        as_map(s.update(i, x)) == as_map(s).insert(x.key(), x),
        distinct_keys(s.update(i, x)),
    decreases s.len(),
{
    let t = s.update(i, x);
    assert forall|a: int, b: int| 0 <= a < t.len() && 0 <= b < t.len() && a != b implies #[trigger] t[a].key() != #[trigger] t[b].key() by {
        assert(t[a].key() == s[a].key());
        assert(t[b].key() == s[b].key());
    }
    if i == s.len() - 1 {
        assert(t.drop_last() =~= s.drop_last());
        assert(as_map(t) =~= as_map(s).insert(x.key(), x));
    } else {
        lemma_distinct_drop_last(s);
        assert(t.drop_last() =~= s.drop_last().update(i, x));
        lemma_as_map_update(s.drop_last(), i, x);
        assert(s.last().key() != x.key()) by {
            assert(s.last() == s[s.len() - 1]);
        }
        assert(t.last() == s.last());
        assert(as_map(t) =~= as_map(s).insert(x.key(), x));
    }
}

pub proof fn lemma_as_map_remove<T: Keyed>(s: Seq<T>, i: int)
    requires
        distinct_keys(s),
        0 <= i < s.len(),
    ensures
        as_map(s.remove(i)) == as_map(s).remove(s[i].key()),
        distinct_keys(s.remove(i)),
    decreases s.len(),
{
    let t = s.remove(i);
    assert forall|a: int, b: int| 0 <= a < t.len() && 0 <= b < t.len() && a != b implies #[trigger] t[a].key() != #[trigger] t[b].key() by {
        let a2 = if a < i { a } else { a + 1 };
        let b2 = if b < i { b } else { b + 1 };
        assert(t[a] == s[a2]);
        assert(t[b] == s[b2]);
    }
    lemma_distinct_drop_last(s);
    if i == s.len() - 1 {
        assert(t =~= s.drop_last());
        lemma_as_map_domain(s.drop_last(), s[i].key());
        if as_map(s.drop_last()).contains_key(s[i].key()) {
            let j = choose|j: int| 0 <= j < s.drop_last().len() && #[trigger] s.drop_last()[j].key() == s[i].key();
            assert(s[j].key() == s[i].key());
        }
        assert(as_map(t) =~= as_map(s).remove(s[i].key()));
    } else {
        assert(t.drop_last() =~= s.drop_last().remove(i));
        assert(s.drop_last()[i] == s[i]);
        lemma_as_map_remove(s.drop_last(), i);
        assert(t.last() == s.last());
        assert(s.last().key() != s[i].key()) by {
            assert(s.last() == s[s.len() - 1]);
        }
        assert(as_map(t) =~= as_map(s).remove(s[i].key()));
    }
}

/// Each entry of `out` is one of `items[..i]`.
#[verifier::opaque]
pub open spec fn drawn_from<T>(out: Seq<T>, items: Seq<T>, i: int) -> bool {
    forall|q: int| #![trigger out[q]] 0 <= q < out.len() ==> exists|j: int| 0 <= j < i && #[trigger] items[j] == out[q]
}

/// Each of `items[..i]` is an entry of `out`.
#[verifier::opaque]
pub open spec fn holds_prefix<T>(out: Seq<T>, items: Seq<T>, i: int) -> bool {
    forall|j: int| #![trigger items[j]] 0 <= j < i ==> exists|q: int| 0 <= q < out.len() && #[trigger] out[q] == items[j]
}

pub proof fn lemma_insert_drawn<T>(before: Seq<T>, items: Seq<T>, i: int, p: int)
    requires
        0 <= i < items.len(),
        0 <= p <= before.len(),
        drawn_from(before, items, i),
    ensures
        drawn_from(before.insert(p, items[i]), items, i + 1),
{
    reveal(drawn_from);
    reveal(holds_prefix);
    let after = before.insert(p, items[i]);
    assert forall|q: int| #![trigger after[q]] 0 <= q < after.len() implies exists|j: int| 0 <= j < i + 1 && #[trigger] items[j] == after[q] by {
        if q == p {
            assert(items[i] == after[q]);
        } else {
            let q0 = if q < p { q } else { q - 1 };
            assert(after[q] == before[q0]);
            let j = choose|j: int| 0 <= j < i && #[trigger] items[j] == before[q0];
            assert(items[j] == after[q]);
        }
    }
}

pub proof fn lemma_insert_holds<T>(before: Seq<T>, items: Seq<T>, i: int, p: int)
    requires
        0 <= i < items.len(),
        0 <= p <= before.len(),
        holds_prefix(before, items, i),
    ensures
        holds_prefix(before.insert(p, items[i]), items, i + 1),
{
    reveal(drawn_from);
    reveal(holds_prefix);
    let after = before.insert(p, items[i]);
    assert forall|j: int| #![trigger items[j]] 0 <= j < i + 1 implies exists|q: int| 0 <= q < after.len() && #[trigger] after[q] == items[j] by {
        if j == i {
            assert(after[p] == items[j]);
        } else {
            let q = choose|q: int| 0 <= q < before.len() && #[trigger] before[q] == items[j];
            if q < p {
                assert(after[q] == items[j]);
            } else {
                assert(after[q + 1] == items[j]);
            }
        }
    }
}

/// An item offered after `items[..i]` has an identifier none of them has.
pub proof fn lemma_fresh_key<T: Keyed>(out: Seq<T>, items: Seq<T>, i: int)
    requires
        0 <= i < items.len(),
        distinct_keys(items),
        drawn_from(out, items, i),
    ensures
        forall|q: int| 0 <= q < out.len() ==> (#[trigger] out[q]).key() != items[i].key(),
{
    reveal(drawn_from);
    assert forall|q: int| 0 <= q < out.len() implies (#[trigger] out[q]).key() != items[i].key() by {
        let oq = out[q];
        let j = choose|j: int| 0 <= j < i && #[trigger] items[j] == out[q];
        assert(items[j].key() != items[i].key());
    }
}

/// Inserting an item with a fresh identifier keeps identifiers distinct.
pub proof fn lemma_insert_distinct<T: Keyed>(before: Seq<T>, x: T, p: int)
    requires
        0 <= p <= before.len(),
        distinct_keys(before),
        forall|q: int| 0 <= q < before.len() ==> (#[trigger] before[q]).key() != x.key(),
    ensures
        distinct_keys(before.insert(p, x)),
{
    let after = before.insert(p, x);
    assert forall|a: int, b: int| 0 <= a < after.len() && 0 <= b < after.len() && a != b implies #[trigger] after[a].key() != #[trigger] after[b].key() by {
        let a0 = if a < p { a } else { a - 1 };
        let b0 = if b < p { b } else { b - 1 };
        if a == p {
            assert(after[b] == before[b0]);
        } else if b == p {
            assert(after[a] == before[a0]);
        } else {
            assert(after[a] == before[a0] && after[b] == before[b0]);
        }
    }
}

/// When `out` and `items` hold each other's entries and `items` has distinct
/// identifiers, `out` describes the same map.
pub proof fn lemma_same_entries<T: Keyed>(out: Seq<T>, items: Seq<T>)
    requires
        distinct_keys(items),
        drawn_from(out, items, items.len() as int),
        holds_prefix(out, items, items.len() as int),
    ensures
        forall|q: int| 0 <= q < out.len() ==> as_map(items).contains_key(#[trigger] out[q].key()) && as_map(items)[out[q].key()] == out[q],
        forall|k: Seq<char>| #[trigger] as_map(items).contains_key(k) ==> exists|q: int| 0 <= q < out.len() && #[trigger] out[q].key() == k,
{
    reveal(drawn_from);
    reveal(holds_prefix);
    assert forall|q: int| 0 <= q < out.len() implies as_map(items).contains_key(#[trigger] out[q].key()) && as_map(items)[out[q].key()] == out[q] by {
        let oq = out[q];
        let j = choose|j: int| 0 <= j < items.len() && #[trigger] items[j] == out[q];
        lemma_as_map_value(items, j);
    }
    assert forall|k: Seq<char>| #[trigger] as_map(items).contains_key(k) implies exists|q: int| 0 <= q < out.len() && #[trigger] out[q].key() == k by {
        lemma_as_map_domain(items, k);
        let j = choose|j: int| 0 <= j < items.len() && #[trigger] items[j].key() == k;
        let ij = items[j];
        let q = choose|q: int| 0 <= q < out.len() && #[trigger] out[q] == items[j];
    }
}

/// Identifiers strictly ascending in the order of `str`.
pub open spec fn keys_ascending<T: Keyed>(s: Seq<T>) -> bool {
    forall|a: int, b: int| 0 <= a < b < s.len() ==> text_lt(#[trigger] s[a].key(), #[trigger] s[b].key())
}

/// Inserting an item before the first one with a larger identifier keeps
/// identifiers ascending.
pub proof fn lemma_insert_keys_ascending<T: Keyed>(before: Seq<T>, x: T, p: int)
    requires
        0 <= p <= before.len(),
        keys_ascending(before),
        forall|q: int| 0 <= q < before.len() ==> (#[trigger] before[q]).key() != x.key(),
        forall|q: int| 0 <= q < p ==> text_lt((#[trigger] before[q]).key(), x.key()),
        p < before.len() ==> !text_lt(before[p].key(), x.key()),
    ensures
        keys_ascending(before.insert(p, x)),
{
    let after = before.insert(p, x);
    assert forall|q: int| p <= q < before.len() implies text_lt(x.key(), (#[trigger] before[q]).key()) by {
        lemma_text_order(x.key(), before[p].key(), before[q].key());
        lemma_text_order(before[p].key(), x.key(), x.key());
    }
    assert forall|a: int, b: int| 0 <= a < b < after.len() implies text_lt(#[trigger] after[a].key(), #[trigger] after[b].key()) by {
        if a < p && b > p {
            assert(after[b] == before[b - 1]);
            lemma_text_order(after[a].key(), x.key(), after[b].key());
        } else if a > p {
            assert(after[a] == before[a - 1] && after[b] == before[b - 1]);
        } else if a == p {
            assert(after[b] == before[b - 1]);
        }
    }
}

/// The items ordered by identifier, which must be distinct.
pub fn sorted_by_key<T: Keyed>(items: Vec<T>) -> (r: Vec<T>)
    requires
        distinct_keys(items@),
    ensures
        r@.len() == items@.len(),
        keys_ascending(r@),
        distinct_keys(r@),
        drawn_from(r@, items@, items@.len() as int),
        holds_prefix(r@, items@, items@.len() as int),
{
    let ghost orig = items@;
    let n = items.len();
    let mut rest = items;
    let mut out: Vec<T> = Vec::new();
    let mut i: usize = 0;
    proof {
        reveal(drawn_from);
        reveal(holds_prefix);
        assert(rest@ =~= orig.skip(0));
    }
    while i < n
        invariant
            n == orig.len(),
            i <= n,
            rest@ == orig.skip(i as int),
            distinct_keys(orig),
            out@.len() == i,
            keys_ascending(out@),
            distinct_keys(out@),
            drawn_from(out@, orig, i as int),
            holds_prefix(out@, orig, i as int),
        decreases n - i,
    {
        let x = rest.remove(0);
        let ghost before = out@;
        proof {
            assert(x == orig[i as int]);
            assert(rest@ =~= orig.skip(i + 1));
            lemma_fresh_key(before, orig, i as int);
        }
        let mut p: usize = 0;
        while p < out.len() && text_less(out[p].key_str(), x.key_str())
            invariant
                p <= before.len(),
                out@ == before,
                forall|q: int| 0 <= q < p ==> text_lt((#[trigger] before[q]).key(), x.key()),
            decreases before.len() - p,
        {
            p = p + 1;
        }
        proof {
            lemma_insert_keys_ascending(before, x, p as int);
            lemma_insert_distinct(before, x, p as int);
            lemma_insert_drawn(before, orig, i as int, p as int);
            lemma_insert_holds(before, orig, i as int, p as int);
        }
        out.insert(p, x);
        i = i + 1;
    }
    out
}

/// Items keyed by identifier, in insertion order, no identifier twice. It
/// stands where a hash map keyed by the identifier text would: held as a
/// vector, every lookup, insertion and removal has a contract over the map
/// it represents (`map`), which a `String`-keyed `HashMap` does not give.
#[derive(Debug)]
pub struct KeyedTable<T: Keyed> {
    items: Vec<T>,
}

impl<T: Keyed> KeyedTable<T> {
    /// The items in table order.
    pub closed spec fn items(&self) -> Seq<T> {
        self.items@
    }

    /// The table as a map from identifier to item.
    pub open spec fn map(&self) -> Map<Seq<char>, T> {
        as_map(self.items())
    }

    /// No identifier occurs twice.
    pub open spec fn wf(&self) -> bool {
        distinct_keys(self.items())
    }

    /// An empty table.
    pub fn new() -> (r: Self)
        ensures
            r.wf(),
            r.items() == Seq::<T>::empty(),
            r.map() == Map::<Seq<char>, T>::empty(),
    {
        KeyedTable { items: Vec::new() }
    }

    /// Number of entries.
    pub fn len(&self) -> (r: usize)
        ensures
            r == self.items().len(),
    {
        self.items.len()
    }

    /// Whether the table is empty.
    pub fn is_empty(&self) -> (r: bool)
        ensures
            r == (self.items().len() == 0),
    {
        self.items.len() == 0
    }

    /// The entry at position `i` in table order.
    pub fn at(&self, i: usize) -> (r: &T)
        requires
            i < self.items().len(),
        ensures
            *r == self.items()[i as int],
    {
        &self.items[i]
    }

    /// Position of the entry with identifier `key`.
    pub fn position(&self, key: &str) -> (r: Option<usize>)
        requires
            self.wf(),
        ensures
            match r {
                Some(i) => i < self.items().len() && self.items()[i as int].key() == key@,
                None => !self.map().contains_key(key@),
            },
    {
        let mut i: usize = 0;
        while i < self.items.len()
            invariant
                i <= self.items@.len(),
                forall|j: int| 0 <= j < i ==> #[trigger] self.items@[j].key() != key@,
            decreases self.items@.len() - i,
        {
            if text_eq(self.items[i].key_str(), key) {
                return Some(i);
            }
            i = i + 1;
        }
        proof {
            lemma_as_map_domain(self.items@, key@);
        }
        None
    }

    /// The entry with identifier `key`.
    pub fn get(&self, key: &str) -> (r: Option<&T>)
        requires
            self.wf(),
        ensures
            match r {
                Some(x) => self.map().contains_key(key@) && self.map()[key@] == *x,
                None => !self.map().contains_key(key@),
            },
    {
        match self.position(key) {
            Some(i) => {
                proof {
                    lemma_as_map_value(self.items@, i as int);
                }
                Some(&self.items[i])
            },
            None => None,
        }
    }

    /// Whether an entry with identifier `key` is present.
    pub fn contains_key(&self, key: &str) -> (r: bool)
        requires
            self.wf(),
        ensures
            r == self.map().contains_key(key@),
    {
        match self.position(key) {
            Some(i) => {
                proof {
                    lemma_as_map_value(self.items@, i as int);
                }
                true
            },
            None => false,
        }
    }

    /// Inserts `x`, replacing the entry with the same identifier in place.
    pub fn insert(&mut self, x: T)
        requires
            old(self).wf(),
        ensures
            final(self).wf(),
            final(self).map() == old(self).map().insert(x.key(), x),
    {
        let ghost k = x.key();
        let pos = self.position(x.key_str());
        match pos {
            Some(i) => {
                proof {
                    lemma_as_map_update(self.items@, i as int, x);
                }
                self.items.set(i, x);
            },
            None => {
                proof {
                    lemma_as_map_domain(self.items@, k);
                    assert forall|a: int, b: int| 0 <= a < self.items@.push(x).len() && 0 <= b < self.items@.push(x).len() && a != b implies #[trigger] self.items@.push(x)[a].key() != #[trigger] self.items@.push(x)[b].key() by {
                        if a == self.items@.len() as int {
                            assert(self.items@[b].key() != k);
                        } else if b == self.items@.len() as int {
                            assert(self.items@[a].key() != k);
                        }
                    }
                    assert(self.items@.push(x).drop_last() =~= self.items@);
                }
                self.items.push(x);
            },
        }
    }

    /// Removes the entry with identifier `key`, handing it back.
    pub fn remove(&mut self, key: &str) -> (r: Option<T>)
        requires
            old(self).wf(),
        ensures
            final(self).wf(),
            final(self).map() == old(self).map().remove(key@),
            match r {
                Some(x) => old(self).map().contains_key(key@) && old(self).map()[key@] == x,
                None => !old(self).map().contains_key(key@),
            },
    {
        match self.position(key) {
            Some(i) => {
                proof {
                    lemma_as_map_value(self.items@, i as int);
                    lemma_as_map_remove(self.items@, i as int);
                }
                Some(self.items.remove(i))
            },
            None => {
                proof {
                    assert(old(self).map().remove(key@) =~= old(self).map());
                }
                None
            },
        }
    }

    /// Hands out every entry in table order and leaves the table empty.
    pub fn drain(&mut self) -> (r: Vec<T>)
        ensures
            r@ == old(self).items(),
            final(self).wf(),
            final(self).items() == Seq::<T>::empty(),
    {
        let mut out = Vec::new();
        std::mem::swap(&mut out, &mut self.items);
        out
    }
}

} // verus!
