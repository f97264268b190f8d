//! The realtime view of the proxy's connections: the active ones, those that
//! closed recently, and a summary of the active ones.
use vstd::prelude::*;
use crate::ranking::{Tally, distinct_names, entries_view, entry_view, is_top_ranking, lemma_pairs_map_listed, pairs_map, rank_top};
use crate::record::ConnectionRecord;
use crate::table::{Keyed, KeyedTable, as_map, drawn_from, holds_prefix, lemma_as_map_domain, lemma_as_map_value, lemma_insert_drawn, lemma_insert_holds};
use crate::text::{str_trim, text_eq, text_less, text_lt, trim, lemma_text_order};

verus! {

/// How many recently closed connections are kept.
pub const MAX_RECENT_CLOSED: usize = 1000;

/// How many places the domain and rule rankings of the summary have.
pub const TOP_ITEMS_LIMIT: usize = 10;

/// Totals over the active connections.
#[derive(Debug, Clone, PartialEq, Eq)]
pub struct RealtimeSummary {
    pub active_count: usize,
    pub total_upload: i64,
    pub total_download: i64,
    /// Hosts by traffic, largest first.
    pub top_domains: Vec<(String, i64)>,
    /// Rules by number of connections, largest first.
    pub top_rules: Vec<(String, usize)>,
}

impl Default for RealtimeSummary {
    fn default() -> (r: Self)
        ensures
            r.active_count == 0,
            r.total_upload == 0,
            r.total_download == 0,
            r.top_domains@.len() == 0,
            r.top_rules@.len() == 0,
    {
        RealtimeSummary {
            active_count: 0,
            total_upload: 0,
            total_download: 0,
            top_domains: Vec::new(),
            top_rules: Vec::new(),
        }
    }
}

/// A byte count below zero counts as zero.
pub open spec fn nonneg(v: i64) -> int {
    if v < 0 {
        0
    } else {
        v as int
    }
}

/// A total held at the largest `i64` when it would pass it.
pub open spec fn capped(v: int) -> int {
    if v > i64::MAX {
        i64::MAX as int
    } else {
        v
    }
}

/// Traffic of one connection: its upload and download, saturating.
pub open spec fn traffic_of(c: ConnectionRecord) -> int {
    capped(nonneg(c.upload) + nonneg(c.download))
}

pub open spec fn upload_sum(s: Seq<ConnectionRecord>) -> int
    decreases s.len(),
{
    if s.len() == 0 {
        0
    } else {
        upload_sum(s.drop_last()) + nonneg(s.last().upload)
    }
}

pub open spec fn download_sum(s: Seq<ConnectionRecord>) -> int
    decreases s.len(),
{
    if s.len() == 0 {
        0
    } else {
        download_sum(s.drop_last()) + nonneg(s.last().download)
    }
}

/// The host a connection is counted under.
pub open spec fn host_of(c: ConnectionRecord) -> Seq<char> {
    trim(c.host@)
}

/// The rule a connection is counted under.
pub open spec fn rule_of(c: ConnectionRecord) -> Seq<char> {
    trim(c.rule@)
}

/// Traffic of the connections counted under host `h`.
pub open spec fn host_traffic(s: Seq<ConnectionRecord>, h: Seq<char>) -> int
    decreases s.len(),
{
    if s.len() == 0 {
        0
    } else {
        host_traffic(s.drop_last(), h) + if host_of(s.last()) == h {
            traffic_of(s.last())
        } else {
            0
        }
    }
}

/// Number of connections counted under rule `r`.
pub open spec fn rule_hits(s: Seq<ConnectionRecord>, r: Seq<char>) -> int
    decreases s.len(),
{
    if s.len() == 0 {
        0
    } else {
        rule_hits(s.drop_last(), r) + if rule_of(s.last()) == r {
            1int
        } else {
            0
        }
    }
}

/// Some connection is counted under the non-empty host `h`.
pub open spec fn has_host(s: Seq<ConnectionRecord>, h: Seq<char>) -> bool {
    h.len() > 0 && exists|i: int| 0 <= i < s.len() && #[trigger] host_of(s[i]) == h
}

/// Some connection is counted under the non-empty rule `r`.
pub open spec fn has_rule(s: Seq<ConnectionRecord>, r: Seq<char>) -> bool {
    r.len() > 0 && exists|i: int| 0 <= i < s.len() && #[trigger] rule_of(s[i]) == r
}

/// Traffic by host, each total saturating.
pub open spec fn domain_traffic(s: Seq<ConnectionRecord>) -> Map<Seq<char>, int> {
    Map::new(|h: Seq<char>| has_host(s, h), |h: Seq<char>| capped(host_traffic(s, h)))
}

/// Connections by rule.
pub open spec fn rule_counts(s: Seq<ConnectionRecord>) -> Map<Seq<char>, int> {
    Map::new(|r: Seq<char>| has_rule(s, r), |r: Seq<char>| rule_hits(s, r))
}

/// `sm` is the summary of the connections `s`.
pub open spec fn summarizes(sm: RealtimeSummary, s: Seq<ConnectionRecord>) -> bool {
    &&& sm.active_count == s.len()
    &&& sm.total_upload == capped(upload_sum(s))
    &&& sm.total_download == capped(download_sum(s))
    &&& is_top_ranking(entries_view(sm.top_domains@), domain_traffic(s), TOP_ITEMS_LIMIT as nat)
    &&& is_top_ranking(entries_view(sm.top_rules@), rule_counts(s), TOP_ITEMS_LIMIT as nat)
}

/// `a + b` for `b >= 0`, held at the largest `i64`.
fn add_capped(a: i64, b: i64) -> (r: i64)
    requires
        b >= 0,
    ensures
        r == capped(a + b),
{
    if a > i64::MAX - b {
        i64::MAX
    } else {
        a + b
    }
}

fn find_name(names: &Vec<String>, name: &str) -> (r: Option<usize>)
    ensures
        match r {
            Some(p) => p < names@.len() && names@[p as int]@ == name@,
            None => forall|i: int| 0 <= i < names@.len() ==> (#[trigger] names@[i])@ != name@,
        },
{
    let mut i: usize = 0;
    while i < names.len()
        invariant
            i <= names@.len(),
            forall|j: int| 0 <= j < i ==> (#[trigger] names@[j])@ != name@,
        decreases names@.len() - i,
    {
        if text_eq(names[i].as_str(), name) {
            return Some(i);
        }
        i = i + 1;
    }
    None
}

/// Pairs each name with its amount, in order.
fn zip_entries<V: Tally + Copy>(names: &Vec<String>, amounts: &Vec<V>) -> (r: Vec<(String, V)>)
    requires
        names@.len() == amounts@.len(),
    ensures
        r@.len() == names@.len(),
        forall|i: int| 0 <= i < r@.len() ==> #[trigger] entries_view(r@)[i] == (names@[i]@, amounts@[i].amount()),
{
    let mut out: Vec<(String, V)> = Vec::new();
    let mut i: usize = 0;
    while i < names.len()
        invariant
            i <= names@.len(),
            names@.len() == amounts@.len(),
            out@.len() == i,
            forall|j: int| 0 <= j < i ==> #[trigger] entry_view(out@[j]) == (names@[j]@, amounts@[j].amount()),
        decreases names@.len() - i,
    {
        let name = names[i].clone();
        let amount = amounts[i];
        out.push((name, amount));
        i = i + 1;
    }
    out
}

proof fn lemma_prefix_step(s: Seq<ConnectionRecord>, i: int)
    requires
        0 <= i < s.len(),
    ensures
        s.take(i + 1).drop_last() == s.take(i),
        s.take(i + 1).last() == s[i],
{
    assert(s.take(i + 1).drop_last() =~= s.take(i));
}

proof fn lemma_unseen_host(s: Seq<ConnectionRecord>, h: Seq<char>)
    requires
        forall|i: int| 0 <= i < s.len() ==> #[trigger] host_of(s[i]) != h,
    ensures
        host_traffic(s, h) == 0,
    decreases s.len(),
{
    if s.len() > 0 {
        assert(host_of(s[s.len() - 1]) != h);
        lemma_unseen_host(s.drop_last(), h);
    }
}

proof fn lemma_unseen_rule(s: Seq<ConnectionRecord>, r: Seq<char>)
    requires
        forall|i: int| 0 <= i < s.len() ==> #[trigger] rule_of(s[i]) != r,
    ensures
        rule_hits(s, r) == 0,
    decreases s.len(),
{
    if s.len() > 0 {
        assert(rule_of(s[s.len() - 1]) != r);
        lemma_unseen_rule(s.drop_last(), r);
    }
}

proof fn lemma_capped_add(a: int, b: int)
    requires
        b >= 0,
    ensures
        capped(capped(a) + b) == capped(a + b),
{
}

/// The summary of the active connections `active`.
pub fn build_summary(active: &KeyedTable<ConnectionRecord>) -> (r: RealtimeSummary)
    ensures
        summarizes(r, active.items()),
{
    let ghost s = active.items();
    let n = active.len();
    let mut total_upload: i64 = 0;
    let mut total_download: i64 = 0;
    let mut hosts: Vec<String> = Vec::new();
    let mut host_amounts: Vec<i64> = Vec::new();
    let mut rules: Vec<String> = Vec::new();
    let mut rule_amounts: Vec<usize> = Vec::new();
    let mut i: usize = 0;
    while i < n
        invariant
            n == s.len(),
            s == active.items(),
            i <= n,
            total_upload == capped(upload_sum(s.take(i as int))),
            total_download == capped(download_sum(s.take(i as int))),
            hosts@.len() == host_amounts@.len(),
            forall|a: int, b: int| 0 <= a < b < hosts@.len() ==> (#[trigger] hosts@[a])@ != (#[trigger] hosts@[b])@,
            forall|p: int| 0 <= p < hosts@.len() ==> has_host(s.take(i as int), (#[trigger] hosts@[p])@)
                && host_amounts@[p] == capped(host_traffic(s.take(i as int), hosts@[p]@)),
            forall|h: Seq<char>| has_host(s.take(i as int), h) ==> exists|p: int| 0 <= p < hosts@.len() && (#[trigger] hosts@[p])@ == h,
            rules@.len() == rule_amounts@.len(),
            forall|a: int, b: int| 0 <= a < b < rules@.len() ==> (#[trigger] rules@[a])@ != (#[trigger] rules@[b])@,
            forall|p: int| 0 <= p < rules@.len() ==> has_rule(s.take(i as int), (#[trigger] rules@[p])@)
                && rule_amounts@[p] == rule_hits(s.take(i as int), rules@[p]@) && rule_amounts@[p] <= i,
            forall|r: Seq<char>| has_rule(s.take(i as int), r) ==> exists|p: int| 0 <= p < rules@.len() && (#[trigger] rules@[p])@ == r,
        decreases n - i,
    {
        let c = active.at(i);
        let ghost before = s.take(i as int);
        let ghost after = s.take(i + 1);
        proof {
            lemma_prefix_step(s, i as int);
        }
        let up: i64 = if c.upload < 0 { 0 } else { c.upload };
        let down: i64 = if c.download < 0 { 0 } else { c.download };
        proof {
            lemma_capped_add(upload_sum(before), up as int);
            lemma_capped_add(download_sum(before), down as int);
        }
        total_upload = add_capped(total_upload, up);
        total_download = add_capped(total_download, down);
        let traffic = add_capped(up, down);
        assert(traffic == traffic_of(*c));
        let host = str_trim(c.host.as_str());
        let ghost hv = host@;
        let ghost old_hosts = hosts@;
        let ghost mut hidx: int = 0;
        if !host.is_empty() {
            match find_name(&hosts, host) {
                Some(p) => {
                    proof {
                        hidx = p as int;
                    }
                    proof {
                        lemma_capped_add(host_traffic(before, hv), traffic as int);
                    }
                    let amount = add_capped(host_amounts[p], traffic);
                    host_amounts.set(p, amount);
                },
                None => {
                    proof {
                        assert(!has_host(before, hv));
                        assert forall|j: int| 0 <= j < before.len() implies #[trigger] host_of(before[j]) != hv by {
                            if host_of(before[j]) == hv {
                                assert(has_host(before, hv));
                            }
                        }
                        lemma_unseen_host(before, hv);
                    }
                    hosts.push(owned_text(host));
                    host_amounts.push(traffic);
                    proof {
                        hidx = hosts@.len() - 1;
                    }
                },
            }
        }
        proof {
            assert forall|p: int| 0 <= p < hosts@.len() implies has_host(after, (#[trigger] hosts@[p])@)
                && host_amounts@[p] == capped(host_traffic(after, hosts@[p]@)) by {
                let hp = hosts@[p]@;
                assert(host_traffic(after, hp) == host_traffic(before, hp) + if host_of(after.last()) == hp { traffic_of(after.last()) } else { 0 });
                if hp == hv {
                    assert(host_of(after[i as int]) == hp);
                } else {
                    let j = choose|j: int| 0 <= j < before.len() && #[trigger] host_of(before[j]) == hp;
                    assert(host_of(after[j]) == hp);
                }
            }
            assert forall|h: Seq<char>| has_host(after, h) implies exists|p: int| 0 <= p < hosts@.len() && (#[trigger] hosts@[p])@ == h by {
                let j = choose|j: int| 0 <= j < after.len() && #[trigger] host_of(after[j]) == h;
                if j < i {
                    assert(host_of(before[j]) == h);
                    assert(has_host(before, h));
                    let p = choose|p: int| 0 <= p < old_hosts.len() && (#[trigger] old_hosts[p])@ == h;
                    assert(hosts@[p] == old_hosts[p]);
                } else {
                    assert(h == hv);
                    assert(hosts@[hidx]@ == h);
                }
            }
        }
        let rule = str_trim(c.rule.as_str());
        let ghost rv = rule@;
        let ghost old_rules = rules@;
        let ghost mut ridx: int = 0;
        if !rule.is_empty() {
            match find_name(&rules, rule) {
                Some(p) => {
                    proof {
                        ridx = p as int;
                    }
                    let count = rule_amounts[p] + 1;
                    rule_amounts.set(p, count);
                },
                None => {
                    proof {
                        assert(!has_rule(before, rv));
                        assert forall|j: int| 0 <= j < before.len() implies #[trigger] rule_of(before[j]) != rv by {
                            if rule_of(before[j]) == rv {
                                assert(has_rule(before, rv));
                            }
                        }
                        lemma_unseen_rule(before, rv);
                    }
                    rules.push(owned_text(rule));
                    rule_amounts.push(1);
                    proof {
                        ridx = rules@.len() - 1;
                    }
                },
            }
        }
        proof {
            assert forall|p: int| 0 <= p < rules@.len() implies has_rule(after, (#[trigger] rules@[p])@)
                && rule_amounts@[p] == rule_hits(after, rules@[p]@) && rule_amounts@[p] <= i + 1 by {
                let rp = rules@[p]@;
                assert(rule_hits(after, rp) == rule_hits(before, rp) + if rule_of(after.last()) == rp { 1int } else { 0 });
                if rp == rv {
                    assert(rule_of(after[i as int]) == rp);
                } else {
                    let j = choose|j: int| 0 <= j < before.len() && #[trigger] rule_of(before[j]) == rp;
                    assert(rule_of(after[j]) == rp);
                }
            }
            assert forall|r: Seq<char>| has_rule(after, r) implies exists|p: int| 0 <= p < rules@.len() && (#[trigger] rules@[p])@ == r by {
                let j = choose|j: int| 0 <= j < after.len() && #[trigger] rule_of(after[j]) == r;
                if j < i {
                    assert(rule_of(before[j]) == r);
                    assert(has_rule(before, r));
                    let p = choose|p: int| 0 <= p < old_rules.len() && (#[trigger] old_rules[p])@ == r;
                    assert(rules@[p] == old_rules[p]);
                } else {
                    assert(r == rv);
                    assert(rules@[ridx]@ == r);
                }
            }
        }
        i = i + 1;
    }
    proof {
        assert(s.take(n as int) =~= s);
    }
    let host_entries = zip_entries(&hosts, &host_amounts);
    let rule_entries = zip_entries(&rules, &rule_amounts);
    proof {
        let hv = entries_view(host_entries@);
        let m = domain_traffic(s);
        assert forall|k: Seq<char>| #[trigger] m.contains_key(k) implies exists|p: int| 0 <= p < hv.len() && #[trigger] hv[p].0 == k by {
            let p = choose|p: int| 0 <= p < hosts@.len() && (#[trigger] hosts@[p])@ == k;
            assert(hv[p].0 == k);
        }
        assert forall|a: int, b: int| 0 <= a < b < hv.len() implies #[trigger] hv[a].0 != #[trigger] hv[b].0 by {
            assert(hosts@[a]@ != hosts@[b]@);
        }
        assert forall|p: int| 0 <= p < hv.len() implies m.contains_key(#[trigger] hv[p].0) && m[hv[p].0] == hv[p].1 by {
            assert(hv[p] == (hosts@[p]@, host_amounts@[p] as int));
        }
        let rw = entries_view(rule_entries@);
        let mr = rule_counts(s);
        assert forall|k: Seq<char>| #[trigger] mr.contains_key(k) implies exists|p: int| 0 <= p < rw.len() && #[trigger] rw[p].0 == k by {
            let p = choose|p: int| 0 <= p < rules@.len() && (#[trigger] rules@[p])@ == k;
            assert(rw[p].0 == k);
        }
        assert forall|a: int, b: int| 0 <= a < b < rw.len() implies #[trigger] rw[a].0 != #[trigger] rw[b].0 by {
            assert(rules@[a]@ != rules@[b]@);
        }
        assert forall|p: int| 0 <= p < rw.len() implies mr.contains_key(#[trigger] rw[p].0) && mr[rw[p].0] == rw[p].1 by {
            assert(rw[p] == (rules@[p]@, rule_amounts@[p] as int));
        }
    }
    let top_domains = rank_top(host_entries, TOP_ITEMS_LIMIT, Ghost(domain_traffic(s)));
    let top_rules = rank_top(rule_entries, TOP_ITEMS_LIMIT, Ghost(rule_counts(s)));
    RealtimeSummary { active_count: n, total_upload, total_download, top_domains, top_rules }
}

/// An owned copy of `s`.
fn owned_text(s: &str) -> (r: String)
    ensures
        r@ == s@,
{
    s.to_owned()
}

/// The last `MAX_RECENT_CLOSED` entries of `s`, oldest first.
pub open spec fn keep_recent(s: Seq<ConnectionRecord>) -> Seq<ConnectionRecord> {
    if s.len() > MAX_RECENT_CLOSED {
        s.subrange(s.len() - MAX_RECENT_CLOSED, s.len() as int)
    } else {
        s
    }
}

/// The connections of `prev`, in order, whose identifier `next` lacks.
pub open spec fn departed(prev: Seq<ConnectionRecord>, next: Map<Seq<char>, ConnectionRecord>) -> Seq<ConnectionRecord>
    decreases prev.len(),
{
    if prev.len() == 0 {
        Seq::empty()
    } else if next.contains_key(prev.last().key()) {
        departed(prev.drop_last(), next)
    } else {
        departed(prev.drop_last(), next).push(prev.last())
    }
}

/// How many connections of `cur` were not in `prev`.
pub open spec fn opened_count(prev: Map<Seq<char>, ConnectionRecord>, cur: Seq<ConnectionRecord>) -> int
    decreases cur.len(),
{
    if cur.len() == 0 {
        0
    } else {
        opened_count(prev, cur.drop_last()) + if prev.contains_key(cur.last().key()) {
            0int
        } else {
            1
        }
    }
}

/// How many connections of `cur` were in `prev` with another observation.
pub open spec fn updated_count(prev: Map<Seq<char>, ConnectionRecord>, cur: Seq<ConnectionRecord>) -> int
    decreases cur.len(),
{
    if cur.len() == 0 {
        0
    } else {
        updated_count(prev, cur.drop_last()) + if prev.contains_key(cur.last().key()) && !prev[cur.last().key()].same_observation(
            cur.last(),
        ) {
            1int
        } else {
            0
        }
    }
}

/// Closing the identifiers `ids` in turn on the active map `m`: what stays
/// active, and the connections closed, in order.
pub open spec fn closing(m: Map<Seq<char>, ConnectionRecord>, ids: Seq<Seq<char>>) -> (Map<Seq<char>, ConnectionRecord>, Seq<ConnectionRecord>)
    decreases ids.len(),
{
    if ids.len() == 0 {
        (m, Seq::empty())
    } else {
        let (m1, closed) = closing(m, ids.drop_last());
        let k = ids.last();
        if m1.contains_key(k) {
            (m1.remove(k), closed.push(m1[k]))
        } else {
            (m1, closed)
        }
    }
}

/// Identifiers strictly ascending in the order of `str`.
pub open spec fn ids_ascending(s: Seq<ConnectionRecord>) -> bool {
    forall|a: int, b: int| 0 <= a < b < s.len() ==> text_lt(#[trigger] s[a].id@, #[trigger] s[b].id@)
}

proof fn lemma_fresh_id(out: Seq<ConnectionRecord>, items: Seq<ConnectionRecord>, i: int)
    requires
        0 <= i < items.len(),
        crate::table::distinct_keys(items),
        drawn_from(out, items, i),
    ensures
        forall|q: int| 0 <= q < out.len() ==> (#[trigger] out[q]).id@ != items[i].id@,
{
    reveal(drawn_from);
    reveal(holds_prefix);
    assert forall|q: int| 0 <= q < out.len() implies (#[trigger] out[q]).id@ != items[i].id@ by {
        let oq = out[q];
        let j = choose|j: int| 0 <= j < i && #[trigger] items[j] == out[q];
        assert(items[j].key() != items[i].key());
    }
}

proof fn lemma_insert_ascending(before: Seq<ConnectionRecord>, x: ConnectionRecord, p: int)
    requires
        0 <= p <= before.len(),
        ids_ascending(before),
        forall|q: int| 0 <= q < before.len() ==> (#[trigger] before[q]).id@ != x.id@,
        forall|q: int| 0 <= q < p ==> text_lt((#[trigger] before[q]).id@, x.id@),
        p < before.len() ==> !text_lt(before[p].id@, x.id@),
    ensures
        ids_ascending(before.insert(p, x)),
{
    let after = before.insert(p, x);
    assert forall|q: int| p <= q < before.len() implies text_lt(x.id@, (#[trigger] before[q]).id@) by {
        lemma_text_order(x.id@, before[p].id@, before[q].id@);
        lemma_text_order(before[p].id@, x.id@, x.id@);
    }
    assert forall|a: int, b: int| 0 <= a < b < after.len() implies text_lt(#[trigger] after[a].id@, #[trigger] after[b].id@) by {
        if a < p && b > p {
            assert(after[b] == before[b - 1]);
            lemma_text_order(after[a].id@, x.id@, after[b].id@);
        } else if a > p {
            assert(after[a] == before[a - 1] && after[b] == before[b - 1]);
        } else if a == p {
            assert(after[b] == before[b - 1]);
        }
    }
}

proof fn lemma_sorted_covers(out: Seq<ConnectionRecord>, items: Seq<ConnectionRecord>)
    requires
        crate::table::distinct_keys(items),
        drawn_from(out, items, items.len() as int),
        holds_prefix(out, items, items.len() as int),
    ensures
        forall|q: int| 0 <= q < out.len() ==> as_map(items).contains_key(#[trigger] out[q].id@) && as_map(items)[out[q].id@] == out[q],
        forall|k: Seq<char>| #[trigger] as_map(items).contains_key(k) ==> exists|q: int| 0 <= q < out.len() && #[trigger] out[q].id@ == k,
{
    reveal(drawn_from);
    reveal(holds_prefix);
    assert forall|q: int| 0 <= q < out.len() implies as_map(items).contains_key(#[trigger] out[q].id@) && as_map(items)[out[q].id@] == out[q] by {
        let oq = out[q];
        let j = choose|j: int| 0 <= j < items.len() && #[trigger] items[j] == out[q];
        lemma_as_map_value(items, j);
    }
    assert forall|k: Seq<char>| #[trigger] as_map(items).contains_key(k) implies exists|q: int| 0 <= q < out.len() && #[trigger] out[q].id@ == k by {
        lemma_as_map_domain(items, k);
        let j = choose|j: int| 0 <= j < items.len() && #[trigger] items[j].key() == k;
        let ij = items[j];
        let q = choose|q: int| 0 <= q < out.len() && #[trigger] out[q] == items[j];
        assert(out[q].id@ == k);
    }
}

/// What a snapshot changed.
#[derive(Debug, Clone, Copy, PartialEq, Eq)]
pub struct SnapshotChange {
    pub opened: usize,
    pub updated: usize,
    pub closed: usize,
}

/// Active connections by identifier, the connections that closed most
/// recently (oldest first), and the summary of the active ones.
pub struct RealtimeState {
    active: KeyedTable<ConnectionRecord>,
    recent_closed: Vec<ConnectionRecord>,
    summary: RealtimeSummary,
}

impl RealtimeState {
    /// The active connections by identifier.
    pub closed spec fn active_map(&self) -> Map<Seq<char>, ConnectionRecord> {
        self.active.map()
    }

    /// The active connections, in the state's own order.
    pub closed spec fn active_items(&self) -> Seq<ConnectionRecord> {
        self.active.items()
    }

    /// The recently closed connections, oldest first.
    pub closed spec fn recent(&self) -> Seq<ConnectionRecord> {
        self.recent_closed@
    }

    /// The cached summary.
    pub closed spec fn cached_summary(&self) -> RealtimeSummary {
        self.summary
    }

    /// Identifiers are unique, at most `MAX_RECENT_CLOSED` closed connections
    /// are kept, and the summary is that of the active connections.
    pub closed spec fn wf(&self) -> bool {
        &&& self.active.wf()
        &&& self.recent_closed@.len() <= MAX_RECENT_CLOSED
        &&& summarizes(self.summary, self.active.items())
        &&& self.active_map() == as_map(self.active_items())
    }

    /// An empty state.
    pub fn new() -> (r: Self)
        ensures
            r.wf(),
            r.active_map() == Map::<Seq<char>, ConnectionRecord>::empty(),
            r.active_items().len() == 0,
            r.recent().len() == 0,
            summarizes(r.cached_summary(), r.active_items()),
    {
        let active = KeyedTable::new();
        let summary = build_summary(&active);
        RealtimeState { active, recent_closed: Vec::new(), summary }
    }

    /// The summary of the active connections.
    pub fn summary(&self) -> (r: &RealtimeSummary)
        requires
            self.wf(),
        ensures
            *r == self.cached_summary(),
            summarizes(*r, self.active_items()),
    {
        &self.summary
    }

    /// The recently closed connections, oldest first.
    pub fn recent_closed(&self) -> (r: &Vec<ConnectionRecord>)
        ensures
            r@ == self.recent(),
    {
        &self.recent_closed
    }

    /// The active connections ordered by identifier.
    pub fn active_connections(&self) -> (r: Vec<ConnectionRecord>)
        requires
            self.wf(),
        ensures
            r@.len() == self.active_items().len(),
            ids_ascending(r@),
            forall|i: int| 0 <= i < r@.len() ==> self.active_map().contains_key(#[trigger] r@[i].id@) && self.active_map()[r@[i].id@] == r@[i],
            forall|k: Seq<char>| #[trigger] self.active_map().contains_key(k) ==> exists|i: int| 0 <= i < r@.len() && #[trigger] r@[i].id@ == k,
    {
        let ghost items = self.active.items();
        let n = self.active.len();
        let mut out: Vec<ConnectionRecord> = Vec::new();
        let mut i: usize = 0;
        proof {
            reveal(drawn_from);
            reveal(holds_prefix);
        }
        while i < n
            invariant
                items == self.active.items(),
                n == items.len(),
                crate::table::distinct_keys(items),
                i <= n,
                out@.len() == i,
                ids_ascending(out@),
                drawn_from(out@, items, i as int),
                holds_prefix(out@, items, i as int),
            decreases n - i,
        {
            let x = self.active.at(i).clone();
            let ghost before = out@;
            proof {
                lemma_fresh_id(before, items, i as int);
            }
            let mut p: usize = 0;
            while p < out.len() && text_less(out[p].id.as_str(), x.id.as_str())
                invariant
                    p <= before.len(),
                    out@ == before,
                    forall|q: int| 0 <= q < p ==> text_lt((#[trigger] before[q]).id@, x.id@),
                decreases before.len() - p,
            {
                p = p + 1;
            }
            proof {
                lemma_insert_ascending(before, x, p as int);
                lemma_insert_drawn(before, items, i as int, p as int);
                lemma_insert_holds(before, items, i as int, p as int);
            }
            out.insert(p, x);
            i = i + 1;
        }
        proof {
            lemma_sorted_covers(out@, items);
        }
        out
    }

    /// Appends closed connections to the history, dropping the oldest beyond
    /// `MAX_RECENT_CLOSED`.
    fn push_recent_closed(&mut self, records: Vec<ConnectionRecord>)
        requires
            old(self).recent_closed@.len() <= MAX_RECENT_CLOSED,
        ensures
            final(self).recent_closed@ == keep_recent(old(self).recent_closed@ + records@),
            final(self).active == old(self).active,
            final(self).summary == old(self).summary,
    {
        if records.len() == 0 {
            proof {
                assert(old(self).recent_closed@ + records@ =~= old(self).recent_closed@);
            }
            return;
        }
        let mut records = records;
        self.recent_closed.append(&mut records);
        if self.recent_closed.len() > MAX_RECENT_CLOSED {
            let overflow = self.recent_closed.len() - MAX_RECENT_CLOSED;
            let kept = self.recent_closed.split_off(overflow);
            self.recent_closed = kept;
        }
    }

    /// Replaces the active connections with a new snapshot; the connections
    /// that left it move to the closed history. Hands back how many
    /// connections opened, changed and closed.
    pub fn update_snapshot(&mut self, connections: Vec<ConnectionRecord>) -> (r: SnapshotChange)
        requires
            old(self).wf(),
        ensures
            final(self).wf(),
            final(self).active_map() == as_map(connections@),
            final(self).recent() == keep_recent(
                old(self).recent() + departed(old(self).active_items(), as_map(connections@)),
            ),
            r.opened == opened_count(old(self).active_map(), final(self).active_items()),
            r.updated == updated_count(old(self).active_map(), final(self).active_items()),
            r.closed == departed(old(self).active_items(), as_map(connections@)).len(),
    {
        let mut next: KeyedTable<ConnectionRecord> = KeyedTable::new();
        let mut i: usize = 0;
        while i < connections.len()
            invariant
                i <= connections@.len(),
                next.wf(),
                next.map() == as_map(connections@.take(i as int)),
            decreases connections@.len() - i,
        {
            proof {
                assert(connections@.take(i + 1).drop_last() =~= connections@.take(i as int));
            }
            next.insert(connections[i].clone());
            i = i + 1;
        }
        proof {
            assert(connections@.take(connections@.len() as int) =~= connections@);
        }
        let summary = build_summary(&next);
        let ghost prev = self.active.map();
        let ghost cur = next.items();
        let mut opened: usize = 0;
        let mut updated: usize = 0;
        let mut j: usize = 0;
        while j < next.len()
            invariant
                j <= cur.len(),
                cur == next.items(),
                self.active.wf(),
                prev == self.active.map(),
                opened == opened_count(prev, cur.take(j as int)),
                updated == updated_count(prev, cur.take(j as int)),
                opened + updated <= j,
            decreases cur.len() - j,
        {
            proof {
                assert(cur.take(j + 1).drop_last() =~= cur.take(j as int));
            }
            let c = next.at(j);
            match self.active.get(c.id.as_str()) {
                Some(p) => {
                    if !p.same_as(c) {
                        updated = updated + 1;
                    }
                },
                None => {
                    opened = opened + 1;
                },
            }
            j = j + 1;
        }
        proof {
            assert(cur.take(cur.len() as int) =~= cur);
        }
        let ghost old_items = self.active.items();
        let mut closed: Vec<ConnectionRecord> = Vec::new();
        let mut k: usize = 0;
        while k < self.active.len()
            invariant
                k <= old_items.len(),
                old_items == self.active.items(),
                next.wf(),
                closed@ == departed(old_items.take(k as int), next.map()),
            decreases old_items.len() - k,
        {
            proof {
                assert(old_items.take(k + 1).drop_last() =~= old_items.take(k as int));
            }
            let c = self.active.at(k);
            if !next.contains_key(c.id.as_str()) {
                closed.push(c.clone());
            }
            k = k + 1;
        }
        proof {
            assert(old_items.take(old_items.len() as int) =~= old_items);
        }
        let closed_count = closed.len();
        self.active = next;
        self.push_recent_closed(closed);
        self.summary = summary;
        SnapshotChange { opened, updated, closed: closed_count }
    }

    /// Moves the active connections with the given identifiers to the closed
    /// history, in the order given; unknown identifiers are skipped.
    pub fn mark_closed(&mut self, ids: Vec<String>)
        requires
            old(self).wf(),
        ensures
            final(self).wf(),
            final(self).active_map() == closing(old(self).active_map(), ids@.map_values(|s: String| s@)).0,
            final(self).recent() == keep_recent(
                old(self).recent() + closing(old(self).active_map(), ids@.map_values(|s: String| s@)).1,
            ),
    {
        let ghost keys = ids@.map_values(|s: String| s@);
        if ids.len() == 0 {
            proof {
                assert(keys =~= Seq::<Seq<char>>::empty());
                assert(self.recent_closed@ + Seq::<ConnectionRecord>::empty() =~= self.recent_closed@);
            }
            return;
        }
        let ghost m0 = self.active.map();
        let mut closed: Vec<ConnectionRecord> = Vec::new();
        let mut i: usize = 0;
        while i < ids.len()
            invariant
                i <= ids@.len(),
                keys == ids@.map_values(|s: String| s@),
                self.active.wf(),
                (self.active.map(), closed@) == closing(m0, keys.take(i as int)),
                self.recent_closed@ == old(self).recent_closed@,
                self.recent_closed@.len() <= MAX_RECENT_CLOSED,
            decreases ids@.len() - i,
        {
            proof {
                assert(keys.take(i + 1).drop_last() =~= keys.take(i as int));
                assert(keys.take(i + 1).last() == ids@[i as int]@);
            }
            if let Some(record) = self.active.remove(ids[i].as_str()) {
                closed.push(record);
            }
            i = i + 1;
        }
        proof {
            assert(keys.take(ids@.len() as int) =~= keys);
        }
        let summary = build_summary(&self.active);
        self.summary = summary;
        self.push_recent_closed(closed);
    }

    /// Forgets the active connections without counting them as closed; the
    /// closed history stays.
    pub fn clear_active(&mut self)
        requires
            old(self).wf(),
        ensures
            final(self).wf(),
            final(self).active_map() == Map::<Seq<char>, ConnectionRecord>::empty(),
            final(self).active_items().len() == 0,
            final(self).recent() == old(self).recent(),
            final(self).cached_summary().active_count == 0,
            final(self).cached_summary().total_upload == 0,
            final(self).cached_summary().total_download == 0,
            final(self).cached_summary().top_domains@.len() == 0,
            final(self).cached_summary().top_rules@.len() == 0,
    {
        self.active = KeyedTable::new();
        self.summary = RealtimeSummary::default();
        proof {
            assert(domain_traffic(self.active.items()) =~= Map::<Seq<char>, int>::empty());
            assert(rule_counts(self.active.items()) =~= Map::<Seq<char>, int>::empty());
        }
    }

    /// Forgets everything: active connections, summary and closed history.
    pub fn reset(&mut self)
        requires
            old(self).wf(),
        ensures
            final(self).wf(),
            final(self).active_map() == Map::<Seq<char>, ConnectionRecord>::empty(),
            final(self).active_items().len() == 0,
            final(self).recent().len() == 0,
            final(self).cached_summary().active_count == 0,
            final(self).cached_summary().total_upload == 0,
            final(self).cached_summary().total_download == 0,
            final(self).cached_summary().top_domains@.len() == 0,
            final(self).cached_summary().top_rules@.len() == 0,
    {
        self.clear_active();
        self.recent_closed = Vec::new();
    }
}

/// The hosts with the most traffic, largest first and by name on ties, cut
/// after `TOP_ITEMS_LIMIT` places; each host is named once.
pub fn sort_top_domains(domain_traffic: Vec<(String, i64)>) -> (r: Vec<(String, i64)>)
    requires
        distinct_names(entries_view(domain_traffic@)),
    ensures
        is_top_ranking(entries_view(r@), pairs_map(entries_view(domain_traffic@)), TOP_ITEMS_LIMIT as nat),
{
    proof {
        lemma_pairs_map_listed(entries_view(domain_traffic@));
    }
    let ghost m = pairs_map(entries_view(domain_traffic@));
    rank_top(domain_traffic, TOP_ITEMS_LIMIT, Ghost(m))
}

/// The rules with the most connections, largest first and by name on ties,
/// cut after `TOP_ITEMS_LIMIT` places; each rule is named once.
pub fn sort_top_rules(rule_counts: Vec<(String, usize)>) -> (r: Vec<(String, usize)>)
    requires
        distinct_names(entries_view(rule_counts@)),
    ensures
        is_top_ranking(entries_view(r@), pairs_map(entries_view(rule_counts@)), TOP_ITEMS_LIMIT as nat),
{
    proof {
        lemma_pairs_map_listed(entries_view(rule_counts@));
    }
    let ghost m = pairs_map(entries_view(rule_counts@));
    rank_top(rule_counts, TOP_ITEMS_LIMIT, Ghost(m))
}

/// A total over connections added one at a time.
pub open spec fn fold_total(s: Seq<ConnectionRecord>, g: spec_fn(ConnectionRecord) -> int) -> int
    decreases s.len(),
{
    if s.len() == 0 {
        0
    } else {
        fold_total(s.drop_last(), g) + g(s.last())
    }
}

proof fn lemma_fold_remove(s: Seq<ConnectionRecord>, g: spec_fn(ConnectionRecord) -> int, j: int)
    requires
        0 <= j < s.len(),
    ensures
        fold_total(s, g) == fold_total(s.remove(j), g) + g(s[j]),
    decreases s.len(),
{
    if j == s.len() - 1 {
        assert(s.remove(j) =~= s.drop_last());
    } else {
        lemma_fold_remove(s.drop_last(), g, j);
        assert(s.remove(j).drop_last() =~= s.drop_last().remove(j));
        assert(s.remove(j).last() == s.last());
    }
}

proof fn lemma_fold_permutation(s: Seq<ConnectionRecord>, t: Seq<ConnectionRecord>, g: spec_fn(ConnectionRecord) -> int)
    requires
        s.to_multiset() == t.to_multiset(),
    ensures
        fold_total(s, g) == fold_total(t, g),
    decreases s.len(),
{
    s.to_multiset_ensures();
    t.to_multiset_ensures();
    if s.len() == 0 {
        assert(t.len() == 0);
    } else {
        let x = s.last();
        assert(s.contains(x)) by {
            assert(s[s.len() - 1] == x);
        }
        assert(s.to_multiset().count(x) > 0);
        assert(t.contains(x));
        let j = choose|j: int| 0 <= j < t.len() && t[j] == x;
        assert(s.remove(s.len() - 1) =~= s.drop_last());
        assert(s.drop_last().to_multiset() == t.remove(j).to_multiset());
        lemma_fold_permutation(s.drop_last(), t.remove(j), g);
        lemma_fold_remove(t, g, j);
    }
}

proof fn lemma_folds(s: Seq<ConnectionRecord>, h: Seq<char>)
    ensures
        upload_sum(s) == fold_total(s, |c: ConnectionRecord| nonneg(c.upload)),
        download_sum(s) == fold_total(s, |c: ConnectionRecord| nonneg(c.download)),
        host_traffic(s, h) == fold_total(s, |c: ConnectionRecord| if host_of(c) == h { traffic_of(c) } else { 0 }),
        rule_hits(s, h) == fold_total(s, |c: ConnectionRecord| if rule_of(c) == h { 1int } else { 0 }),
    decreases s.len(),
{
    if s.len() > 0 {
        lemma_folds(s.drop_last(), h);
    }
}

proof fn lemma_same_members(s: Seq<ConnectionRecord>, t: Seq<ConnectionRecord>, h: Seq<char>)
    requires
        s.to_multiset() == t.to_multiset(),
    ensures
        has_host(s, h) == has_host(t, h),
        has_rule(s, h) == has_rule(t, h),
{
    s.to_multiset_ensures();
    t.to_multiset_ensures();
    if has_host(s, h) {
        let i = choose|i: int| 0 <= i < s.len() && #[trigger] host_of(s[i]) == h;
        assert(s.contains(s[i]));
        assert(s.to_multiset().count(s[i]) > 0);
        let j = choose|j: int| 0 <= j < t.len() && t[j] == s[i];
        assert(host_of(t[j]) == h);
    }
    if has_host(t, h) {
        let i = choose|i: int| 0 <= i < t.len() && #[trigger] host_of(t[i]) == h;
        assert(t.contains(t[i]));
        assert(t.to_multiset().count(t[i]) > 0);
        let j = choose|j: int| 0 <= j < s.len() && s[j] == t[i];
        assert(host_of(s[j]) == h);
    }
    if has_rule(s, h) {
        let i = choose|i: int| 0 <= i < s.len() && #[trigger] rule_of(s[i]) == h;
        assert(s.contains(s[i]));
        assert(s.to_multiset().count(s[i]) > 0);
        let j = choose|j: int| 0 <= j < t.len() && t[j] == s[i];
        assert(rule_of(t[j]) == h);
    }
    if has_rule(t, h) {
        let i = choose|i: int| 0 <= i < t.len() && #[trigger] rule_of(t[i]) == h;
        assert(t.contains(t[i]));
        assert(t.to_multiset().count(t[i]) > 0);
        let j = choose|j: int| 0 <= j < s.len() && s[j] == t[i];
        assert(rule_of(s[j]) == h);
    }
}

/// The live summary does not depend on the order of the connections: any
/// reordering of them is summarized by the same summary.
pub proof fn lemma_summary_ignores_order(sm: RealtimeSummary, s: Seq<ConnectionRecord>, t: Seq<ConnectionRecord>)
    requires
        s.to_multiset() == t.to_multiset(),
        summarizes(sm, s),
    ensures
        summarizes(sm, t),
{
    s.to_multiset_ensures();
    t.to_multiset_ensures();
    let h0 = Seq::<char>::empty();
    lemma_folds(s, h0);
    lemma_folds(t, h0);
    lemma_fold_permutation(s, t, |c: ConnectionRecord| nonneg(c.upload));
    lemma_fold_permutation(s, t, |c: ConnectionRecord| nonneg(c.download));
    assert forall|h: Seq<char>| #![trigger host_traffic(s, h)] has_host(s, h) == has_host(t, h)
        && host_traffic(s, h) == host_traffic(t, h) by {
        lemma_same_members(s, t, h);
        lemma_folds(s, h);
        lemma_folds(t, h);
        lemma_fold_permutation(s, t, |c: ConnectionRecord| if host_of(c) == h { traffic_of(c) } else { 0 });
    }
    assert forall|r: Seq<char>| #![trigger rule_hits(s, r)] has_rule(s, r) == has_rule(t, r)
        && rule_hits(s, r) == rule_hits(t, r) by {
        lemma_same_members(s, t, r);
        lemma_folds(s, r);
        lemma_folds(t, r);
        lemma_fold_permutation(s, t, |c: ConnectionRecord| if rule_of(c) == r { 1int } else { 0 });
    }
    assert(domain_traffic(s) =~= domain_traffic(t)) by {
        assert forall|h: Seq<char>| #[trigger] domain_traffic(s).dom().contains(h) == domain_traffic(t).dom().contains(h) by {
            assert(host_traffic(s, h) == host_traffic(t, h));
        }
        assert forall|h: Seq<char>| domain_traffic(s).dom().contains(h) implies #[trigger] domain_traffic(s)[h] == domain_traffic(t)[h] by {
            assert(host_traffic(s, h) == host_traffic(t, h));
        }
    }
    assert(rule_counts(s) =~= rule_counts(t)) by {
        assert forall|r: Seq<char>| #[trigger] rule_counts(s).dom().contains(r) == rule_counts(t).dom().contains(r) by {
            assert(rule_hits(s, r) == rule_hits(t, r));
        }
        assert forall|r: Seq<char>| rule_counts(s).dom().contains(r) implies #[trigger] rule_counts(s)[r] == rule_counts(t)[r] by {
            assert(rule_hits(s, r) == rule_hits(t, r));
        }
    }
}

} // verus!
