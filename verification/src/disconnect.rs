//! Error-log rows written when the connection stream to the proxy core
//! breaks: the message is classified and attributed to each distinct
//! (proxy node, host, rule) among the connections that were open.
use vstd::prelude::*;
use crate::record::{opt_text, opt_text_eq, ConnectionRecord, ErrorLogInsert};
use crate::table::KeyedTable;
use crate::text::{
    ascii_lower_text, contains_text, lemma_text_order, owned, str_contains, str_to_ascii_lowercase,
    str_trim, text_less, text_lt, trim,
};

verus! {

/// The list of strings that `serde_json::from_str::<Vec<String>>` reads from
/// `text`, if it reads one.
pub uninterp spec fn json_string_list(text: Seq<char>) -> Option<Seq<Seq<char>>>;

/// Calls `serde_json::from_str::<Vec<String>>`.
#[verifier::external_body]
fn parse_json_string_list(text: &str) -> (r: Option<Vec<String>>)
    ensures
        match r {
            Some(v) => json_string_list(text@) == Some(v@.map_values(|s: String| s@)),
            None => json_string_list(text@) is None,
        },
{
    serde_json::from_str::<Vec<String>>(text).ok()
}

/// Trimmed text, or nothing when it is blank.
pub open spec fn optional_text(value: Seq<char>) -> Option<Seq<char>> {
    if trim(value).len() == 0 {
        None
    } else {
        Some(trim(value))
    }
}

/// Trims `value`; blank text gives `None`.
pub fn normalize_optional_text(value: &str) -> (r: Option<String>)
    ensures
        opt_text(r) == optional_text(value@),
{
    let trimmed = str_trim(value);
    if trimmed.is_empty() {
        None
    } else {
        Some(owned(trimmed))
    }
}

/// The last entry that is not blank, trimmed.
pub open spec fn last_nonblank(entries: Seq<Seq<char>>) -> Option<Seq<char>>
    decreases entries.len(),
{
    if entries.len() == 0 {
        None
    } else if trim(entries.last()).len() > 0 {
        Some(trim(entries.last()))
    } else {
        last_nonblank(entries.drop_last())
    }
}

/// The proxy node of a proxy chain: its last non-blank entry when it is a
/// JSON list of strings with one, else the chain text itself if not blank.
pub open spec fn proxy_node_of(proxy_chain: Seq<char>) -> Option<Seq<char>> {
    match json_string_list(proxy_chain) {
        Some(entries) => match last_nonblank(entries) {
            Some(node) => Some(node),
            None => optional_text(proxy_chain),
        },
        None => optional_text(proxy_chain),
    }
}

/// The node that served a connection, from its proxy chain.
pub fn extract_proxy_node(proxy_chain: &str) -> (r: Option<String>)
    ensures
        opt_text(r) == proxy_node_of(proxy_chain@),
{
    match parse_json_string_list(proxy_chain) {
        Some(entries) => {
            let ghost es = entries@.map_values(|s: String| s@);
            let mut i = entries.len();
            proof {
                assert(es.take(i as int) =~= es);
            }
            while i > 0
                invariant
                    i <= entries@.len(),
                    es == entries@.map_values(|s: String| s@),
                    json_string_list(proxy_chain@) == Some(es),
                    last_nonblank(es) == last_nonblank(es.take(i as int)),
                decreases i,
            {
                proof {
                    assert(es.take(i as int).drop_last() =~= es.take(i - 1));
                    assert(es.take(i as int).last() == es[i - 1]);
                }
                let found = normalize_optional_text(entries[i - 1].as_str());
                proof {
                    assert(es[i - 1] == entries@[i - 1]@);
                }
                if found.is_some() {
                    return found;
                }
                i = i - 1;
            }
            proof {
                assert(es.take(0) =~= Seq::<Seq<char>>::empty());
            }
            normalize_optional_text(proxy_chain)
        },
        None => normalize_optional_text(proxy_chain),
    }
}

/// Whether `text` mentions one of `words`.
pub open spec fn mentions(text: Seq<char>, words: Seq<Seq<char>>) -> bool {
    exists|i: int| 0 <= i < words.len() && contains_text(text, #[trigger] words[i])
}

/// The category of a disconnect message, judged on its ASCII-lowered text:
/// `timeout`, `dns`, `tls`, `connection` or `other`, first match wins.
pub open spec fn error_category(message: Seq<char>) -> Seq<char> {
    let m = ascii_lower_text(message);
    if mentions(m, seq!["timeout"@, "timed out"@, "deadline exceeded"@, "i/o timeout"@]) {
        "timeout"@
    } else if mentions(
        m,
        seq!["dns"@, "resolve"@, "resolved"@, "lookup"@, "no such host"@, "name or service not known"@],
    ) {
        "dns"@
    } else if mentions(m, seq!["tls"@, "ssl"@, "certificate"@, "handshake"@, "x509"@]) {
        "tls"@
    } else if mentions(
        m,
        seq![
            "refused"@,
            "reset"@,
            "broken pipe"@,
            "network is unreachable"@,
            "connection aborted"@,
            "unexpected eof"@,
        ],
    ) {
        "connection"@
    } else {
        "other"@
    }
}

/// Whether `text` contains one of `words`.
fn mentions_any(text: &str, words: &[&str]) -> (r: bool)
    ensures
        r == mentions(text@, words@.map_values(|w: &str| w@)),
{
    let ghost ws = words@.map_values(|w: &str| w@);
    let mut i: usize = 0;
    while i < words.len()
        invariant
            i <= words@.len(),
            ws == words@.map_values(|w: &str| w@),
            forall|j: int| 0 <= j < i ==> !contains_text(text@, #[trigger] ws[j]),
        decreases words@.len() - i,
    {
        if str_contains(text, words[i]) {
            proof {
                assert(contains_text(text@, ws[i as int]));
            }
            return true;
        }
        i = i + 1;
    }
    false
}

/// Classifies a disconnect message by the words it contains.
pub fn classify_error(message: &str) -> (r: &'static str)
    ensures
        r@ == error_category(message@),
{
    let normalized = str_to_ascii_lowercase(message);
    let text = normalized.as_str();
    let timeout_words: [&str; 4] = ["timeout", "timed out", "deadline exceeded", "i/o timeout"];
    let dns_words: [&str; 6] = [
        "dns",
        "resolve",
        "resolved",
        "lookup",
        "no such host",
        "name or service not known",
    ];
    let tls_words: [&str; 5] = ["tls", "ssl", "certificate", "handshake", "x509"];
    let connection_words: [&str; 6] = [
        "refused",
        "reset",
        "broken pipe",
        "network is unreachable",
        "connection aborted",
        "unexpected eof",
    ];
    proof {
        assert(timeout_words@.map_values(|w: &str| w@) =~= seq![
            "timeout"@,
            "timed out"@,
            "deadline exceeded"@,
            "i/o timeout"@,
        ]);
        assert(dns_words@.map_values(|w: &str| w@) =~= seq![
            "dns"@,
            "resolve"@,
            "resolved"@,
            "lookup"@,
            "no such host"@,
            "name or service not known"@,
        ]);
        assert(tls_words@.map_values(|w: &str| w@) =~= seq![
            "tls"@,
            "ssl"@,
            "certificate"@,
            "handshake"@,
            "x509"@,
        ]);
        assert(connection_words@.map_values(|w: &str| w@) =~= seq![
            "refused"@,
            "reset"@,
            "broken pipe"@,
            "network is unreachable"@,
            "connection aborted"@,
            "unexpected eof"@,
        ]);
    }
    if mentions_any(text, timeout_words.as_slice()) {
        "timeout"
    } else if mentions_any(text, dns_words.as_slice()) {
        "dns"
    } else if mentions_any(text, tls_words.as_slice()) {
        "tls"
    } else if mentions_any(text, connection_words.as_slice()) {
        "connection"
    } else {
        "other"
    }
}


/// Where a failed connection went: proxy node, host and rule.
pub type Meta = (Option<Seq<char>>, Option<Seq<char>>, Option<Seq<char>>);

/// The order of `Option<String>`: `None` first, then the order of `str`.
pub open spec fn opt_lt(a: Option<Seq<char>>, b: Option<Seq<char>>) -> bool {
    match (a, b) {
        (None, Some(_)) => true,
        (Some(x), Some(y)) => text_lt(x, y),
        _ => false,
    }
}

/// The lexicographic order of triples of optional strings.
pub open spec fn meta_lt(a: Meta, b: Meta) -> bool {
    ||| opt_lt(a.0, b.0)
    ||| (a.0 == b.0 && opt_lt(a.1, b.1))
    ||| (a.0 == b.0 && a.1 == b.1 && opt_lt(a.2, b.2))
}

/// Strictly increasing: sorted, with no triple twice.
pub open spec fn strictly_sorted(s: Seq<Meta>) -> bool {
    forall|i: int, j: int| 0 <= i < j < s.len() ==> meta_lt(#[trigger] s[i], #[trigger] s[j])
}

/// The proxy node, host and rule of a connection.
pub open spec fn meta_of(r: ConnectionRecord) -> Meta {
    (proxy_node_of(r.proxy_chain@), optional_text(r.host@), optional_text(r.rule@))
}

/// Proxy node, host and rule of an error-log row.
pub open spec fn log_meta(l: ErrorLogInsert) -> Meta {
    (opt_text(l.proxy_node), opt_text(l.host), opt_text(l.rule))
}

/// Proxy node, host and rule of each error-log row.
pub open spec fn log_metas(r: Seq<ErrorLogInsert>) -> Seq<Meta> {
    r.map_values(|l: ErrorLogInsert| log_meta(l))
}

/// The triples of a list of optional-string triples.
pub open spec fn metas_view(v: Seq<(Option<String>, Option<String>, Option<String>)>) -> Seq<Meta> {
    v.map_values(|t: (Option<String>, Option<String>, Option<String>)| triple_meta(t))
}

pub open spec fn triple_meta(t: (Option<String>, Option<String>, Option<String>)) -> Meta {
    (opt_text(t.0), opt_text(t.1), opt_text(t.2))
}

proof fn lemma_opt_order(a: Option<Seq<char>>, b: Option<Seq<char>>, c: Option<Seq<char>>)
    ensures
        !opt_lt(a, a),
        opt_lt(a, b) && opt_lt(b, c) ==> opt_lt(a, c),
        a != b ==> opt_lt(a, b) || opt_lt(b, a),
        opt_lt(a, b) ==> !opt_lt(b, a),
{
    match (a, b, c) {
        (Some(x), Some(y), Some(z)) => lemma_text_order(x, y, z),
        (Some(x), Some(y), None) => lemma_text_order(x, y, x),
        (Some(x), None, Some(z)) => lemma_text_order(x, z, x),
        (None, Some(y), Some(z)) => lemma_text_order(y, z, y),
        (Some(x), None, None) => lemma_text_order(x, x, x),
        _ => {},
    }
}

/// The order of triples is a strict total order.
proof fn lemma_meta_order(a: Meta, b: Meta, c: Meta)
    ensures
        !meta_lt(a, a),
        meta_lt(a, b) && meta_lt(b, c) ==> meta_lt(a, c),
        a != b ==> meta_lt(a, b) || meta_lt(b, a),
        meta_lt(a, b) ==> !meta_lt(b, a),
{
    lemma_opt_order(a.0, b.0, c.0);
    lemma_opt_order(a.1, b.1, c.1);
    lemma_opt_order(a.2, b.2, c.2);
    lemma_opt_order(a.0, c.0, b.0);
    lemma_opt_order(a.1, c.1, b.1);
    lemma_opt_order(a.2, c.2, b.2);
    lemma_opt_order(b.0, a.0, c.0);
    lemma_opt_order(b.1, a.1, c.1);
    lemma_opt_order(b.2, a.2, c.2);
}

fn opt_less(a: &Option<String>, b: &Option<String>) -> (r: bool)
    ensures
        r == opt_lt(opt_text(*a), opt_text(*b)),
{
    match (a, b) {
        (None, Some(_)) => true,
        (Some(x), Some(y)) => text_less(x.as_str(), y.as_str()),
        _ => false,
    }
}

fn meta_less(
    a: &(Option<String>, Option<String>, Option<String>),
    b: &(Option<String>, Option<String>, Option<String>),
) -> (r: bool)
    ensures
        r == meta_lt(triple_meta(*a), triple_meta(*b)),
{
    if opt_less(&a.0, &b.0) {
        true
    } else if !opt_text_eq(&a.0, &b.0) {
        false
    } else if opt_less(&a.1, &b.1) {
        true
    } else if !opt_text_eq(&a.1, &b.1) {
        false
    } else {
        opt_less(&a.2, &b.2)
    }
}

fn meta_equal(
    a: &(Option<String>, Option<String>, Option<String>),
    b: &(Option<String>, Option<String>, Option<String>),
) -> (r: bool)
    ensures
        r == (triple_meta(*a) == triple_meta(*b)),
{
    opt_text_eq(&a.0, &b.0) && opt_text_eq(&a.1, &b.1) && opt_text_eq(&a.2, &b.2)
}

/// Adds a triple to a strictly sorted list unless it is already there.
fn insert_sorted(
    metas: &mut Vec<(Option<String>, Option<String>, Option<String>)>,
    m: (Option<String>, Option<String>, Option<String>),
)
    requires
        strictly_sorted(metas_view(old(metas)@)),
    ensures
        strictly_sorted(metas_view(final(metas)@)),
        forall|x: Meta|
            #![trigger metas_view(final(metas)@).contains(x)]
            metas_view(final(metas)@).contains(x)
                <==> (metas_view(old(metas)@).contains(x)
                || x == triple_meta(m)),
{
    let ghost v = metas_view(metas@);
    let ghost mm = triple_meta(m);
    let mut pos: usize = 0;
    while pos < metas.len() && meta_less(&metas[pos], &m)
        invariant
            pos <= metas@.len(),
            v == metas_view(metas@),
            mm == triple_meta(m),
            forall|a: int| 0 <= a < pos ==> meta_lt(#[trigger] v[a], mm),
        decreases metas@.len() - pos,
    {
        pos = pos + 1;
    }
    if pos < metas.len() && meta_equal(&metas[pos], &m) {
        proof {
            assert forall|x: Meta| v.contains(x) <==> (v.contains(x) || x == mm) by {
                if x == mm {
                    assert(v[pos as int] == mm);
                }
            }
        }
        return;
    }
    proof {
        if pos < v.len() {
            lemma_meta_order(v[pos as int], mm, v[pos as int]);
        }
    }
    metas.insert(pos, m);
    proof {
        let w = metas_view(metas@);
        assert(w =~= v.insert(pos as int, mm));
        assert forall|i: int, j: int| 0 <= i < j < w.len() implies meta_lt(#[trigger] w[i], #[trigger] w[j]) by {
            if j < pos {
            } else if j == pos {
            } else if i < pos {
                lemma_meta_order(v[i], mm, v[j - 1]);
                if j - 1 > pos {
                    lemma_meta_order(mm, v[pos as int], v[j - 1]);
                }
            } else if i == pos {
                if j - 1 > pos {
                    lemma_meta_order(mm, v[pos as int], v[j - 1]);
                }
            } else {
            }
        }
        assert forall|x: Meta| w.contains(x) <==> (v.contains(x) || x == mm) by {
            if v.contains(x) {
                let a = choose|a: int| 0 <= a < v.len() && v[a] == x;
                if a < pos {
                    assert(w[a] == x);
                } else {
                    assert(w[a + 1] == x);
                }
            }
            if x == mm {
                assert(w[pos as int] == mm);
            }
            if w.contains(x) {
                let a = choose|a: int| 0 <= a < w.len() && w[a] == x;
                if a < pos {
                    assert(v[a] == x);
                } else if a > pos {
                    assert(v[a - 1] == x);
                }
            }
        }
    }
}

/// The error-log rows for a broken stream with `message`: none for a blank
/// message; one unattributed row when no connection was open; otherwise one
/// row per distinct (proxy node, host, rule) of the open connections, in
/// increasing order. Every row carries the trimmed message and its category.
pub fn build_disconnect_error_logs(
    previous_connections: &KeyedTable<ConnectionRecord>,
    message: &str,
) -> (r: Vec<ErrorLogInsert>)
    requires
        previous_connections.wf(),
    ensures
        trim(message@).len() == 0 ==> r@.len() == 0,
        trim(message@).len() > 0 && previous_connections.items().len() == 0 ==> r@.len() == 1
            && log_meta(r@[0]) == (None::<Seq<char>>, None::<Seq<char>>, None::<Seq<char>>),
        trim(message@).len() > 0 ==> forall|i: int|
            0 <= i < r@.len() ==> #[trigger] r@[i].category@ == error_category(trim(message@))
                && r@[i].message@ == trim(message@),
        trim(message@).len() > 0 && previous_connections.items().len() > 0 ==> {
            &&& strictly_sorted(log_metas(r@))
            &&& forall|x: Meta|
                #[trigger] log_metas(r@).contains(x) <==> exists|j: int|
                    0 <= j < previous_connections.items().len() && meta_of(
                        #[trigger] previous_connections.items()[j],
                    ) == x
        },
{
    let trimmed = str_trim(message);
    if trimmed.is_empty() {
        return Vec::new();
    }
    let category = classify_error(trimmed);
    if previous_connections.is_empty() {
        let mut one = Vec::new();
        one.push(
            ErrorLogInsert {
                category: owned(category),
                proxy_node: None,
                host: None,
                rule: None,
                message: owned(trimmed),
            },
        );
        return one;
    }
    let ghost items = previous_connections.items();
    let mut metas: Vec<(Option<String>, Option<String>, Option<String>)> = Vec::new();
    let n = previous_connections.len();
    let mut i: usize = 0;
    while i < n
        invariant
            i <= n,
            n == items.len(),
            items == previous_connections.items(),
            strictly_sorted(metas_view(metas@)),
            forall|x: Meta|
                #[trigger] metas_view(metas@).contains(x)
                    <==> exists|j: int| 0 <= j < i && meta_of(#[trigger] items[j]) == x,
        decreases n - i,
    {
        let record = previous_connections.at(i);
        let m = (
            extract_proxy_node(record.proxy_chain.as_str()),
            normalize_optional_text(record.host.as_str()),
            normalize_optional_text(record.rule.as_str()),
        );
        let ghost before = metas_view(metas@);
        insert_sorted(&mut metas, m);
        proof {
            assert(triple_meta(m) == meta_of(items[i as int]));
            assert forall|x: Meta|
                #[trigger] metas_view(metas@).contains(x)
                    <==> exists|j: int| 0 <= j < i + 1 && meta_of(#[trigger] items[j]) == x by {
                if before.contains(x) {
                    let j = choose|j: int| 0 <= j < i && meta_of(#[trigger] items[j]) == x;
                    assert(0 <= j < i + 1);
                }
                if exists|j: int| 0 <= j < i + 1 && meta_of(#[trigger] items[j]) == x {
                    let j = choose|j: int| 0 <= j < i + 1 && meta_of(#[trigger] items[j]) == x;
                    if j < i {
                        assert(before.contains(x));
                    }
                }
            }
        }
        i = i + 1;
    }
    let mut logs: Vec<ErrorLogInsert> = Vec::new();
    let ghost ms = metas_view(metas@);
    let mut k: usize = 0;
    while k < metas.len()
        invariant
            k <= metas@.len(),
            ms == metas_view(metas@),
            logs@.map_values(|l: ErrorLogInsert| log_meta(l)) == ms.take(k as int),
            category@ == error_category(trim(message@)),
            trimmed@ == trim(message@),
            forall|a: int|
                0 <= a < logs@.len() ==> #[trigger] logs@[a].category@ == error_category(trim(message@))
                    && logs@[a].message@ == trim(message@),
        decreases metas@.len() - k,
    {
        let t = &metas[k];
        let ghost before = logs@;
        logs.push(
            ErrorLogInsert {
                category: owned(category),
                proxy_node: crate::record::copy_opt_text(&t.0),
                host: crate::record::copy_opt_text(&t.1),
                rule: crate::record::copy_opt_text(&t.2),
                message: owned(trimmed),
            },
        );
        proof {
            assert(ms.take(k + 1) =~= ms.take(k as int).push(ms[k as int]));
            assert(logs@.map_values(|l: ErrorLogInsert| log_meta(l)) =~= before.map_values(
                |l: ErrorLogInsert| log_meta(l),
            ).push(ms[k as int]));
        }
        k = k + 1;
    }
    proof {
        assert(ms.take(metas@.len() as int) =~= ms);
    }
    logs
}

/// A disconnect message whose lower-cased text contains `timeout`,
/// `timed out`, `deadline exceeded` or `i/o timeout` is classified `timeout`.
pub proof fn lemma_timeout_words_classify_as_timeout(message: Seq<char>)
    requires
        contains_text(ascii_lower_text(message), "timeout"@) || contains_text(ascii_lower_text(message), "timed out"@)
            || contains_text(ascii_lower_text(message), "deadline exceeded"@) || contains_text(
            ascii_lower_text(message),
            "i/o timeout"@,
        ),
    ensures
        error_category(message) == "timeout"@,
{
    let m = ascii_lower_text(message);
    let ws = seq!["timeout"@, "timed out"@, "deadline exceeded"@, "i/o timeout"@];
    if contains_text(m, "timeout"@) {
        assert(contains_text(m, ws[0]));
    } else if contains_text(m, "timed out"@) {
        assert(contains_text(m, ws[1]));
    } else if contains_text(m, "deadline exceeded"@) {
        assert(contains_text(m, ws[2]));
    } else {
        assert(contains_text(m, ws[3]));
    }
}

/// A message that names no timeout but a name-resolution failure (`dns`,
/// `resolve`, `resolved`, `lookup`, `no such host`, `name or service not
/// known`) is classified `dns`.
pub proof fn lemma_dns_words_classify_as_dns(message: Seq<char>, word: Seq<char>)
    requires
        !contains_text(ascii_lower_text(message), "timeout"@),
        !contains_text(ascii_lower_text(message), "timed out"@),
        !contains_text(ascii_lower_text(message), "deadline exceeded"@),
        !contains_text(ascii_lower_text(message), "i/o timeout"@),
        word == "dns"@ || word == "resolve"@ || word == "resolved"@ || word == "lookup"@ || word == "no such host"@
            || word == "name or service not known"@,
        contains_text(ascii_lower_text(message), word),
    ensures
        error_category(message) == "dns"@,
{
    let m = ascii_lower_text(message);
    let ts = seq!["timeout"@, "timed out"@, "deadline exceeded"@, "i/o timeout"@];
    assert forall|i: int| 0 <= i < ts.len() implies !contains_text(m, #[trigger] ts[i]) by {
        if i == 0 {
        } else if i == 1 {
        } else if i == 2 {
        } else {
        }
    }
    let ds = seq!["dns"@, "resolve"@, "resolved"@, "lookup"@, "no such host"@, "name or service not known"@];
    if word == ds[0] {
        assert(contains_text(m, ds[0]));
    } else if word == ds[1] {
        assert(contains_text(m, ds[1]));
    } else if word == ds[2] {
        assert(contains_text(m, ds[2]));
    } else if word == ds[3] {
        assert(contains_text(m, ds[3]));
    } else if word == ds[4] {
        assert(contains_text(m, ds[4]));
    } else {
        assert(contains_text(m, ds[5]));
    }
}

} // verus!
