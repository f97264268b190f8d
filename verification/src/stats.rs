//! Statistics rows shown to the user, and the aggregation of traffic by
//! country.
use vstd::prelude::*;
use crate::table::{Keyed, KeyedTable, as_map, distinct_keys, drawn_from, holds_prefix, lemma_fresh_key, lemma_insert_distinct, lemma_insert_drawn, lemma_insert_holds, lemma_same_entries};
use crate::text::{text_less, text_lt, lemma_text_order};

verus! {

/// Traffic of one domain.
#[derive(Debug, Clone, PartialEq, Eq)]
pub struct DomainStat {
    pub domain: String,
    pub hit_count: i64,
    pub upload: i64,
    pub download: i64,
}

/// Traffic of one time bucket.
#[derive(Debug, Clone, PartialEq, Eq)]
pub struct TrafficPoint {
    pub time: String,
    pub upload: i64,
    pub download: i64,
    pub conn_count: i64,
}

/// Connection totals over a period.
#[derive(Debug, Clone, Copy, PartialEq, Eq, Structural)]
pub struct StatsOverview {
    pub total_connections: i64,
    pub total_upload: i64,
    pub total_download: i64,
    pub active_connections: i64,
    pub unique_domains: i64,
}

/// Traffic of one rule.
#[derive(Debug, Clone, PartialEq, Eq)]
pub struct RuleStat {
    pub rule: String,
    pub hit_count: i64,
    pub upload: i64,
    pub download: i64,
}

/// Traffic of one country.
#[derive(Debug, PartialEq, Eq)]
pub struct GeoStat {
    pub country_code: String,
    pub country: String,
    pub conn_count: i64,
    pub total_traffic: i64,
}

impl Clone for GeoStat {
    fn clone(&self) -> (r: Self)
        ensures
            r == *self,
    {
        GeoStat {
            country_code: self.country_code.clone(),
            country: self.country.clone(),
            conn_count: self.conn_count,
            total_traffic: self.total_traffic,
        }
    }
}

impl Keyed for GeoStat {
    open spec fn key(&self) -> Seq<char> {
        self.country_code@
    }

    fn key_str(&self) -> (r: &str) {
        self.country_code.as_str()
    }
}

/// Sizes and row counts of the database.
#[derive(Debug, Clone, PartialEq, Eq)]
pub struct DbStats {
    pub connection_count: i64,
    pub hourly_count: i64,
    pub daily_count: i64,
    pub domain_count: i64,
    pub geoip_count: i64,
    pub db_size_bytes: i64,
    pub oldest_connection: Option<String>,
}

/// Traffic to one destination address.
#[derive(Debug, Clone, PartialEq, Eq)]
pub struct GeoTrafficRow {
    pub dst_ip: String,
    pub conn_count: i64,
    pub total_traffic: i64,
}

/// The country an address was found in.
#[derive(Debug, Clone, PartialEq, Eq)]
pub struct ResolvedCountry {
    pub ip: String,
    pub country_code: Option<String>,
    pub country: Option<String>,
}

impl Keyed for ResolvedCountry {
    open spec fn key(&self) -> Seq<char> {
        self.ip@
    }

    fn key_str(&self) -> (r: &str) {
        self.ip.as_str()
    }
}

/// A country's figures as plain values: name, connections, traffic.
pub open spec fn geo_view(g: GeoStat) -> (Seq<char>, int, int) {
    (g.country@, g.conn_count as int, g.total_traffic as int)
}

/// Traffic by country code: each row whose address has a known country code
/// adds its connections and traffic to that code; the name is the first one
/// seen for the code, or the code where no name is known.
pub open spec fn geo_totals(rows: Seq<GeoTrafficRow>, geos: Map<Seq<char>, ResolvedCountry>) -> Map<Seq<char>, (Seq<char>, int, int)>
    decreases rows.len(),
{
    if rows.len() == 0 {
        Map::empty()
    } else {
        let m = geo_totals(rows.drop_last(), geos);
        let row = rows.last();
        if geos.contains_key(row.dst_ip@) && geos[row.dst_ip@].country_code is Some {
            let g = geos[row.dst_ip@];
            let code = g.country_code->0@;
            if m.contains_key(code) {
                m.insert(code, (m[code].0, m[code].1 + row.conn_count, m[code].2 + row.total_traffic))
            } else {
                let name = match g.country {
                    Some(c) => c@,
                    None => code,
                };
                m.insert(code, (name, row.conn_count as int, row.total_traffic as int))
            }
        } else {
            m
        }
    }
}

/// The totals of every prefix of the rows fit in `i64`.
pub open spec fn geo_totals_fit(rows: Seq<GeoTrafficRow>, geos: Map<Seq<char>, ResolvedCountry>) -> bool {
    forall|k: int, c: Seq<char>| 0 <= k <= rows.len() && #[trigger] geo_totals(rows.take(k), geos).contains_key(c) ==> {
        let e = geo_totals(rows.take(k), geos)[c];
        i64::MIN <= e.1 <= i64::MAX && i64::MIN <= e.2 <= i64::MAX
    }
}

/// `a` is listed before `b`: more traffic, then more connections, then the
/// smaller name.
pub open spec fn geo_before(a: GeoStat, b: GeoStat) -> bool {
    a.total_traffic > b.total_traffic || (a.total_traffic == b.total_traffic && (a.conn_count > b.conn_count || (
    a.conn_count == b.conn_count && text_lt(a.country@, b.country@))))
}

/// No entry is listed before one that should come first.
pub open spec fn geo_sorted(s: Seq<GeoStat>) -> bool {
    forall|i: int, j: int| 0 <= i < j < s.len() ==> !geo_before(#[trigger] s[j], #[trigger] s[i])
}

proof fn lemma_geo_order(a: GeoStat, b: GeoStat, c: GeoStat)
    ensures
        geo_before(a, b) ==> !geo_before(b, a),
        geo_before(a, b) && geo_before(b, c) ==> geo_before(a, c),
{
    lemma_text_order(a.country@, b.country@, c.country@);
    lemma_text_order(b.country@, a.country@, c.country@);
}

fn geo_comes_before(a: &GeoStat, b: &GeoStat) -> (r: bool)
    ensures
        r == geo_before(*a, *b),
{
    if a.total_traffic != b.total_traffic {
        a.total_traffic > b.total_traffic
    } else if a.conn_count != b.conn_count {
        a.conn_count > b.conn_count
    } else {
        text_less(a.country.as_str(), b.country.as_str())
    }
}

/// The table holds exactly the totals `f`, each under its code.
pub open spec fn holds_totals(t: Map<Seq<char>, GeoStat>, f: Map<Seq<char>, (Seq<char>, int, int)>) -> bool {
    &&& forall|c: Seq<char>| #[trigger] t.contains_key(c) <==> f.contains_key(c)
    &&& forall|c: Seq<char>| #[trigger] t.contains_key(c) ==> geo_view(t[c]) == f[c] && t[c].country_code@ == c
}

proof fn lemma_table_codes(t: KeyedTable<GeoStat>)
    requires
        t.wf(),
    ensures
        forall|c: Seq<char>| #[trigger] t.map().contains_key(c) ==> t.map()[c].country_code@ == c,
{
    assert forall|c: Seq<char>| #[trigger] t.map().contains_key(c) implies t.map()[c].country_code@ == c by {
        crate::table::lemma_as_map_domain(t.items(), c);
        let j = choose|j: int| 0 <= j < t.items().len() && #[trigger] t.items()[j].key() == c;
        crate::table::lemma_as_map_value(t.items(), j);
    }
}

/// Totals by country code from traffic by address and the countries the
/// addresses were found in, most traffic first, then most connections, then
/// by name. Rows whose address has no known country code are left out.
pub fn build_geo_stats(rows: &Vec<GeoTrafficRow>, resolved: &KeyedTable<ResolvedCountry>) -> (r: Vec<GeoStat>)
    requires
        resolved.wf(),
        geo_totals_fit(rows@, resolved.map()),
    ensures
        geo_sorted(r@),
        distinct_keys(r@),
        forall|q: int| 0 <= q < r@.len() ==> geo_totals(rows@, resolved.map()).contains_key(#[trigger] r@[q].country_code@)
            && geo_view(r@[q]) == geo_totals(rows@, resolved.map())[r@[q].country_code@],
        forall|c: Seq<char>| #[trigger] geo_totals(rows@, resolved.map()).contains_key(c) ==> exists|q: int| 0 <= q < r@.len() && #[trigger] r@[q].country_code@ == c,
{
    let ghost geos = resolved.map();
    let mut totals: KeyedTable<GeoStat> = KeyedTable::new();
    let mut i: usize = 0;
    while i < rows.len()
        invariant
            i <= rows@.len(),
            geos == resolved.map(),
            resolved.wf(),
            geo_totals_fit(rows@, geos),
            totals.wf(),
            holds_totals(totals.map(), geo_totals(rows@.take(i as int), geos)),
        decreases rows@.len() - i,
    {
        let row = &rows[i];
        let ghost before = geo_totals(rows@.take(i as int), geos);
        proof {
            assert(rows@.take(i + 1).drop_last() =~= rows@.take(i as int));
            assert(rows@.take(i + 1).last() == rows@[i as int]);
            lemma_table_codes(totals);
        }
        match resolved.get(row.dst_ip.as_str()) {
            Some(geo) => match &geo.country_code {
                Some(code) => {
                    let ghost after = geo_totals(rows@.take(i + 1), geos);
                    proof {
                        assert(after.contains_key(code@));
                    }
                    match totals.get(code.as_str()) {
                        Some(entry) => {
                            proof {
                                assert(after[code@].1 == before[code@].1 + row.conn_count);
                            }
                            let merged = GeoStat {
                                country_code: entry.country_code.clone(),
                                country: entry.country.clone(),
                                conn_count: entry.conn_count + row.conn_count,
                                total_traffic: entry.total_traffic + row.total_traffic,
                            };
                            totals.insert(merged);
                        },
                        None => {
                            let country = match &geo.country {
                                Some(c) => c.clone(),
                                None => code.clone(),
                            };
                            totals.insert(GeoStat {
                                country_code: code.clone(),
                                country,
                                conn_count: row.conn_count,
                                total_traffic: row.total_traffic,
                            });
                        },
                    }
                    proof {
                        assert forall|c: Seq<char>| #[trigger] totals.map().contains_key(c) <==> after.contains_key(c) by {}
                        assert forall|c: Seq<char>| #[trigger] totals.map().contains_key(c) implies geo_view(totals.map()[c]) == after[c]
                            && totals.map()[c].country_code@ == c by {}
                    }
                },
                None => {},
            },
            None => {},
        }
        i = i + 1;
    }
    proof {
        assert(rows@.take(rows@.len() as int) =~= rows@);
    }
    let ghost totals_map = geo_totals(rows@, geos);
    let ghost items = totals.items();
    let n = totals.len();
    let mut out: Vec<GeoStat> = Vec::new();
    let mut j: usize = 0;
    proof {
        reveal(drawn_from);
        reveal(holds_prefix);
    }
    while j < n
        invariant
            items == totals.items(),
            n == items.len(),
            distinct_keys(items),
            j <= n,
            geo_sorted(out@),
            distinct_keys(out@),
            drawn_from(out@, items, j as int),
            holds_prefix(out@, items, j as int),
        decreases n - j,
    {
        let x = totals.at(j).clone();
        let ghost before = out@;
        proof {
            lemma_fresh_key(before, items, j as int);
        }
        let mut p: usize = 0;
        while p < out.len() && !geo_comes_before(&x, &out[p])
            invariant
                p <= before.len(),
                out@ == before,
                forall|q: int| 0 <= q < p ==> !geo_before(x, #[trigger] before[q]),
            decreases before.len() - p,
        {
            p = p + 1;
        }
        proof {
            let after = before.insert(p as int, x);
            assert forall|a: int, b: int| 0 <= a < b < after.len() implies !geo_before(#[trigger] after[b], #[trigger] after[a]) by {
                if b == p {
                    assert(after[a] == before[a]);
                } else if a == p {
                    assert(after[b] == before[b - 1]);
                    assert(geo_before(x, before[p as int]));
                    if b - 1 > p {
                        assert(!geo_before(before[b - 1], before[p as int]));
                    }
                    lemma_geo_order(before[b - 1], x, before[p as int]);
                    lemma_geo_order(x, before[p as int], before[p as int]);
                } else {
                    let a0 = if a < p { a } else { a - 1 };
                    let b0 = if b < p { b } else { b - 1 };
                    assert(after[a] == before[a0] && after[b] == before[b0]);
                }
            }
            lemma_insert_distinct(before, x, p as int);
            lemma_insert_drawn(before, items, j as int, p as int);
            lemma_insert_holds(before, items, j as int, p as int);
        }
        out.insert(p, x);
        j = j + 1;
    }
    proof {
        lemma_same_entries(out@, items);
        lemma_table_codes(totals);
        assert forall|q: int| 0 <= q < out@.len() implies totals_map.contains_key(#[trigger] out@[q].country_code@)
            && geo_view(out@[q]) == totals_map[out@[q].country_code@] by {
            assert(as_map(items).contains_key(out@[q].key()));
        }
        assert forall|c: Seq<char>| #[trigger] totals_map.contains_key(c) implies exists|q: int| 0 <= q < out@.len() && #[trigger] out@[q].country_code@ == c by {
            assert(as_map(items).contains_key(c));
            let q = choose|q: int| 0 <= q < out@.len() && #[trigger] out@[q].key() == c;
        }
    }
    out
}

} // verus!
