//! Configuration and settings documents as trees of values: the copy of a
//! configuration that is safe to hand to the assistant, in which every value
//! under a secret-bearing key is replaced by a marker, and the lookups and
//! updates that settings migrations make on an object.
use vstd::prelude::*;
use crate::callback::{REDACTED_VALUE, is_sensitive_config_key, key_letters, sensitive_keys};
use crate::text::{owned, text_eq};

verus! {

/// A configuration value: the JSON data model, with a number kept as its
/// literal text.
#[derive(Debug)]
pub enum ConfigValue {
    Null,
    Bool(bool),
    Number(String),
    Text(String),
    List(Vec<ConfigValue>),
    Object(Vec<(String, ConfigValue)>),
}

/// Whether `out` is `src` with every value under a secret-bearing key
/// replaced by the marker text: lists keep their length and order, objects
/// keep their keys in order, and every other value stays as it is.
pub open spec fn redacts(src: ConfigValue, out: ConfigValue) -> bool
    decreases src,
{
    match src {
        ConfigValue::List(items) => match out {
            ConfigValue::List(outs) => {
                &&& outs.len() == items.len()
                &&& forall|i: int| #![trigger outs[i]] 0 <= i < items.len() ==> redacts(items[i], outs[i])
            },
            _ => false,
        },
        ConfigValue::Object(entries) => match out {
            ConfigValue::Object(outs) => {
                &&& outs.len() == entries.len()
                &&& forall|i: int| #![trigger outs[i]] 0 <= i < entries.len() ==> {
                    &&& outs[i].0@ == entries[i].0@
                    &&& if sensitive_keys().contains(key_letters(entries[i].0@)) {
                        outs[i].1 matches ConfigValue::Text(t) && t@ == REDACTED_VALUE@
                    } else {
                        redacts(entries[i].1, outs[i].1)
                    }
                }
            },
            _ => false,
        },
        ConfigValue::Null => out is Null,
        ConfigValue::Bool(b) => out == ConfigValue::Bool(b),
        ConfigValue::Number(n) => out matches ConfigValue::Number(m) && m@ == n@,
        ConfigValue::Text(t) => out matches ConfigValue::Text(u) && u@ == t@,
    }
}

/// Two values are the same tree: the same variants, texts and numbers with
/// the same characters, lists and objects entry by entry.
pub open spec fn same_tree(a: ConfigValue, b: ConfigValue) -> bool
    decreases a,
{
    match a {
        ConfigValue::List(xs) => match b {
            ConfigValue::List(ys) => {
                &&& xs.len() == ys.len()
                &&& forall|i: int| #![trigger ys[i]] 0 <= i < xs.len() ==> same_tree(xs[i], ys[i])
            },
            _ => false,
        },
        ConfigValue::Object(xs) => match b {
            ConfigValue::Object(ys) => {
                &&& xs.len() == ys.len()
                &&& forall|i: int| #![trigger ys[i]] 0 <= i < xs.len() ==> xs[i].0@ == ys[i].0@ && same_tree(xs[i].1, ys[i].1)
            },
            _ => false,
        },
        ConfigValue::Null => b is Null,
        ConfigValue::Bool(x) => b == ConfigValue::Bool(x),
        ConfigValue::Number(x) => b matches ConfigValue::Number(y) && x@ == y@,
        ConfigValue::Text(x) => b matches ConfigValue::Text(y) && x@ == y@,
    }
}

/// Redacting a redacted value again changes nothing.
pub proof fn lemma_redaction_idempotent(a: ConfigValue, b: ConfigValue, c: ConfigValue)
    requires
        redacts(a, b),
        redacts(b, c),
    ensures
        same_tree(b, c),
    decreases a,
{
    match a {
        ConfigValue::List(xs) => {
            let ys = b->List_0;
            let zs = c->List_0;
            assert forall|i: int| #![trigger zs[i]] 0 <= i < ys.len() implies same_tree(ys[i], zs[i]) by {
                assert(redacts(xs[i], ys[i]));
                assert(redacts(ys[i], zs[i]));
                lemma_redaction_idempotent(xs[i], ys[i], zs[i]);
            }
        },
        ConfigValue::Object(xs) => {
            let ys = b->Object_0;
            let zs = c->Object_0;
            assert forall|i: int| #![trigger zs[i]] 0 <= i < ys.len() implies ys[i].0@ == zs[i].0@ && same_tree(ys[i].1, zs[i].1) by {
                let y = ys[i];
                let z = zs[i];
                if sensitive_keys().contains(key_letters(xs[i].0@)) {
                    assert(sensitive_keys().contains(key_letters(ys[i].0@)));
                } else {
                    lemma_redaction_idempotent(xs[i].1, ys[i].1, zs[i].1);
                }
            }
        },
        _ => {},
    }
}

fn redact_list(items: Vec<ConfigValue>) -> (r: Vec<ConfigValue>)
    ensures
        r.len() == items.len(),
        forall|i: int| #![trigger r[i]] 0 <= i < items.len() ==> redacts(items[i], r[i]),
    decreases items, 0nat,
{
    let ghost orig = items@;
    let n = items.len();
    let mut rest = items;
    let mut out: Vec<ConfigValue> = Vec::new();
    let mut i: usize = 0;
    proof {
        assert(rest@ =~= orig.skip(0));
    }
    while i < n
        invariant
            n == orig.len(),
            orig == items@,
            i <= n,
            rest@ == orig.skip(i as int),
            out.len() == i,
            forall|k: int| #![trigger out[k]] 0 <= k < i ==> redacts(orig[k], out[k]),
        decreases n - i,
    {
        let x = rest.remove(0);
        proof {
            assert(x == orig[i as int]);
            assert(rest@ =~= orig.skip(i + 1));
            assert(decreases_to!(items => items[i as int]));
        }
        let y = redact_sensitive_config(x);
        out.push(y);
        i = i + 1;
    }
    out
}

fn redact_entries(entries: Vec<(String, ConfigValue)>) -> (r: Vec<(String, ConfigValue)>)
    ensures
        r.len() == entries.len(),
        forall|i: int| #![trigger r[i]] 0 <= i < entries.len() ==> {
            &&& r[i].0@ == entries[i].0@
            &&& if sensitive_keys().contains(key_letters(entries[i].0@)) {
                r[i].1 matches ConfigValue::Text(t) && t@ == REDACTED_VALUE@
            } else {
                redacts(entries[i].1, r[i].1)
            }
        },
    decreases entries, 0nat,
{
    let ghost orig = entries@;
    let n = entries.len();
    let mut rest = entries;
    let mut out: Vec<(String, ConfigValue)> = Vec::new();
    let mut i: usize = 0;
    proof {
        assert(rest@ =~= orig.skip(0));
    }
    while i < n
        invariant
            n == orig.len(),
            orig == entries@,
            i <= n,
            rest@ == orig.skip(i as int),
            out.len() == i,
            forall|k: int| #![trigger out[k]] 0 <= k < i ==> {
                &&& out[k].0@ == orig[k].0@
                &&& if sensitive_keys().contains(key_letters(orig[k].0@)) {
                    out[k].1 matches ConfigValue::Text(t) && t@ == REDACTED_VALUE@
                } else {
                    redacts(orig[k].1, out[k].1)
                }
            },
        decreases n - i,
    {
        let (key, value) = rest.remove(0);
        proof {
            assert(rest@ =~= orig.skip(i + 1));
            assert(decreases_to!(entries => entries[i as int]));
            assert(decreases_to!(entries[i as int] => entries[i as int].1));
        }
        if is_sensitive_config_key(key.as_str()) {
            out.push((key, ConfigValue::Text(owned(REDACTED_VALUE))));
        } else {
            let y = redact_sensitive_config(value);
            out.push((key, y));
        }
        i = i + 1;
    }
    out
}

/// The value with every value under a secret-bearing key replaced by the
/// marker text, at any depth.
pub fn redact_sensitive_config(value: ConfigValue) -> (r: ConfigValue)
    ensures
        redacts(value, r),
    decreases value, 1nat,
{
    match value {
        ConfigValue::Object(entries) => ConfigValue::Object(redact_entries(entries)),
        ConfigValue::List(items) => ConfigValue::List(redact_list(items)),
        other => other,
    }
}

/// Whether `r` is the answer to a configuration request: where the
/// configuration came from (`source`), that it was sanitized, and the
/// redacted `config`.
pub open spec fn sanitized_answer(r: ConfigValue, source: Seq<char>, config: ConfigValue) -> bool {
    r matches ConfigValue::Object(e) && e.len() == 3 && {
        &&& e[0].0@ == "source"@
        &&& e[0].1 matches ConfigValue::Text(t) && t@ == source
        &&& e[1].0@ == "sanitized"@ && e[1].1 == ConfigValue::Bool(true)
        &&& e[2].0@ == "config"@ && redacts(config, e[2].1)
    }
}

/// The answer to a configuration request: where the configuration came
/// from, that it was sanitized, and the redacted configuration.
pub fn build_sanitized_config_response(source: &str, config: ConfigValue) -> (r: ConfigValue)
    ensures
        sanitized_answer(r, source@, config),
{
    let mut entries: Vec<(String, ConfigValue)> = Vec::new();
    entries.push((owned("source"), ConfigValue::Text(owned(source))));
    entries.push((owned("sanitized"), ConfigValue::Bool(true)));
    entries.push((owned("config"), redact_sensitive_config(config)));
    ConfigValue::Object(entries)
}

/// Entry `i` is the first one named `key`.
pub open spec fn is_first_key(entries: Seq<(String, ConfigValue)>, key: Seq<char>, i: int) -> bool {
    &&& 0 <= i < entries.len()
    &&& entries[i].0@ == key
    &&& forall|j: int| 0 <= j < i ==> (#[trigger] entries[j]).0@ != key
}

/// The position of the first entry named `key`, if there is one.
pub open spec fn first_index(entries: Seq<(String, ConfigValue)>, key: Seq<char>) -> Option<int> {
    if exists|i: int| is_first_key(entries, key, i) {
        Some(choose|i: int| is_first_key(entries, key, i))
    } else {
        None
    }
}

/// The text stored under `key`, when the first entry of that name holds
/// text.
pub open spec fn text_at(entries: Seq<(String, ConfigValue)>, key: Seq<char>) -> Option<Seq<char>> {
    match first_index(entries, key) {
        Some(i) => match entries[i].1 {
            ConfigValue::Text(t) => Some(t@),
            _ => None,
        },
        None => None,
    }
}

/// Entry `i` of `entries` is `key` with the text `text`.
pub open spec fn holds_text(entries: Seq<(String, ConfigValue)>, i: int, key: Seq<char>, text: Seq<char>) -> bool {
    &&& 0 <= i < entries.len()
    &&& entries[i].0@ == key
    &&& entries[i].1 matches ConfigValue::Text(t) && t@ == text
}

/// Only one entry is the first of its name.
pub proof fn lemma_first_unique(entries: Seq<(String, ConfigValue)>, key: Seq<char>, i: int, j: int)
    requires
        is_first_key(entries, key, i),
        is_first_key(entries, key, j),
    ensures
        i == j,
{
    if i < j {
        assert(entries[i].0@ != key);
    } else if j < i {
        assert(entries[j].0@ != key);
    }
}

/// The position of the first entry named `key`.
pub fn find_key(entries: &Vec<(String, ConfigValue)>, key: &str) -> (r: Option<usize>)
    ensures
        r matches Some(i) ==> first_index(entries@, key@) == Some(i as int),
        r is None ==> first_index(entries@, key@) is None,
        r is None ==> forall|j: int| 0 <= j < entries@.len() ==> (#[trigger] entries@[j]).0@ != key@,
{
    let mut i: usize = 0;
    while i < entries.len()
        invariant
            i <= entries@.len(),
            forall|j: int| 0 <= j < i ==> (#[trigger] entries@[j]).0@ != key@,
        decreases entries@.len() - i,
    {
        if text_eq(entries[i].0.as_str(), key) {
            proof {
                assert(is_first_key(entries@, key@, i as int));
                let c = choose|c: int| is_first_key(entries@, key@, c);
                lemma_first_unique(entries@, key@, i as int, c);
            }
            return Some(i);
        }
        i = i + 1;
    }
    proof {
        assert forall|c: int| !is_first_key(entries@, key@, c) by {
            if 0 <= c < entries@.len() {
                assert(entries@[c].0@ != key@);
            }
        }
    }
    None
}

/// Sets `key` to the text `text`: the first entry of that name takes the
/// text in place, or a new entry is appended at the end.
pub fn set_text_entry(entries: &mut Vec<(String, ConfigValue)>, key: &str, text: &str)
    ensures
        first_index(old(entries)@, key@) matches Some(i) ==> {
            &&& final(entries)@.len() == old(entries)@.len()
            &&& holds_text(final(entries)@, i, key@, text@)
            &&& forall|j: int| 0 <= j < old(entries)@.len() && j != i ==> #[trigger] final(entries)@[j] == old(entries)@[j]
        },
        first_index(old(entries)@, key@) is None ==> {
            &&& final(entries)@.len() == old(entries)@.len() + 1
            &&& holds_text(final(entries)@, old(entries)@.len() as int, key@, text@)
            &&& forall|j: int| 0 <= j < old(entries)@.len() ==> #[trigger] final(entries)@[j] == old(entries)@[j]
        },
{
    match find_key(entries, key) {
        Some(i) => {
            entries.set(i, (owned(key), ConfigValue::Text(owned(text))));
        },
        None => {
            entries.push((owned(key), ConfigValue::Text(owned(text))));
        },
    }
}

} // verus!
