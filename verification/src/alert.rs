//! Anomaly alerts: their kinds, severities and identifiers.
use vstd::prelude::*;
use crate::text::{concat, i64_text, int_text, nat_text, u64_text};

verus! {

#[verifier::external_type_specification]
#[verifier::external_body]
pub struct ExJsonValue(serde_json::Value);

/// Calls `serde_json::Value::clone`, a derived deep copy: the copy is the same
/// value.
#[verifier::external_body]
fn clone_json(v: &serde_json::Value) -> (r: serde_json::Value)
    ensures
        r == *v,
{
    v.clone()
}

/// How serious an anomaly is.
#[derive(Debug, Clone, Copy, PartialEq, Eq, Structural)]
pub enum AlertSeverity {
    Critical,
    Warning,
    Info,
}

/// The kinds of anomaly the rules detect.
#[derive(Debug, Clone, Copy, PartialEq, Eq, Structural)]
pub enum AlertType {
    HighTimeoutRate,
    TrafficSurge,
    TrafficDrop,
    HighMatchFallback,
    DnsFailureCluster,
}

/// An anomaly found by the rules; `context` carries the figures behind it.
#[derive(Debug)]
pub struct AnomalyAlert {
    pub id: String,
    pub severity: AlertSeverity,
    pub alert_type: AlertType,
    pub title: String,
    pub description: String,
    pub context: serde_json::Value,
    pub detected_at: String,
}

impl Clone for AnomalyAlert {
    fn clone(&self) -> (r: Self)
        ensures
            r == *self,
    {
        AnomalyAlert {
            id: self.id.clone(),
            severity: self.severity,
            alert_type: self.alert_type,
            title: self.title.clone(),
            description: self.description.clone(),
            context: clone_json(&self.context),
            detected_at: self.detected_at.clone(),
        }
    }
}

/// Hands out alert identifiers `anomaly-<millis>-<n>` for one scan, `n`
/// counting from 1.
#[derive(Debug, Clone, Copy, PartialEq, Eq, Structural)]
pub struct AlertIdGenerator {
    pub timestamp_millis: i64,
    pub next_sequence: u64,
}

/// The identifier of the `seq`-th alert of the scan at `millis`.
pub open spec fn alert_id_text(millis: int, seq: int) -> Seq<char> {
    "anomaly-"@ + int_text(millis) + "-"@ + int_text(seq)
}

impl AlertIdGenerator {
    /// A generator for a scan at `timestamp_millis` (milliseconds since the epoch).
    pub fn new(timestamp_millis: i64) -> (r: Self)
        ensures
            r.timestamp_millis == timestamp_millis,
            r.next_sequence == 1,
    {
        AlertIdGenerator { timestamp_millis, next_sequence: 1 }
    }

    /// The next identifier.
    pub fn next_id(&mut self) -> (r: String)
        requires
            old(self).next_sequence < u64::MAX,
        ensures
            r@ == alert_id_text(old(self).timestamp_millis as int, old(self).next_sequence as int),
            final(self).timestamp_millis == old(self).timestamp_millis,
            final(self).next_sequence == old(self).next_sequence + 1,
    {
        let head = concat("anomaly-", i64_text(self.timestamp_millis).as_str());
        let head = concat(head.as_str(), "-");
        let id = concat(head.as_str(), u64_text(self.next_sequence).as_str());
        self.next_sequence = self.next_sequence + 1;
        id
    }
}

/// Number of whole hours that cover a window of `minutes` (at least one minute).
pub open spec fn bucket_count_of(minutes: int) -> int {
    let m = if minutes < 1 { 1 } else { minutes };
    (m + 59) / 60
}

/// Number of hourly buckets compared for a diagnosis window of
/// `time_range_minutes`: the whole hours that cover it, at least one.
pub fn comparison_bucket_count(time_range_minutes: i32) -> (r: i64)
    ensures
        r == bucket_count_of(time_range_minutes as int),
        r >= 1,
{
    let minutes: i64 = if time_range_minutes < 1 { 1 } else { time_range_minutes as i64 };
    (minutes + 59) / 60
}

proof fn lemma_nat_text_nonempty(n: nat)
    ensures
        nat_text(n).len() >= 1,
        n >= 10 ==> nat_text(n).len() >= 2,
    decreases n,
{
    if n >= 10 {
        lemma_nat_text_nonempty(n / 10);
    }
}

proof fn lemma_digit_char(a: nat, b: nat)
    requires
        a < 10,
        b < 10,
        ((('0' as u32) + a) as char) == ((('0' as u32) + b) as char),
    ensures
        a == b,
{
    assert((('0' as u32) + a) as char as u32 == ('0' as u32) + a);
    assert((('0' as u32) + b) as char as u32 == ('0' as u32) + b);
}

/// Different numbers have different decimal texts.
proof fn lemma_nat_text_injective(a: nat, b: nat)
    requires
        nat_text(a) == nat_text(b),
    ensures
        a == b,
    decreases a,
{
    lemma_nat_text_nonempty(a);
    lemma_nat_text_nonempty(b);
    if a < 10 && b < 10 {
        assert(nat_text(a) == seq![((('0' as u32) + a) as char)]);
        assert(nat_text(b) == seq![((('0' as u32) + b) as char)]);
        let ca = (('0' as u32) + a) as char;
        let cb = (('0' as u32) + b) as char;
        assert(seq![ca][0] == ca);
        assert(seq![cb][0] == cb);
        assert(ca == cb);
        lemma_digit_char(a, b);
    } else if a >= 10 && b >= 10 {
        assert(nat_text(a) == nat_text(a / 10).push(((('0' as u32) + (a % 10)) as char)));
        assert(nat_text(b) == nat_text(b / 10).push(((('0' as u32) + (b % 10)) as char)));
        let ca = (('0' as u32) + (a % 10)) as char;
        let cb = (('0' as u32) + (b % 10)) as char;
        assert(nat_text(a).last() == ca);
        assert(nat_text(b).last() == cb);
        assert(ca == cb);
        lemma_digit_char((a % 10) as nat, (b % 10) as nat);
        assert(nat_text(a).drop_last() =~= nat_text(a / 10));
        assert(nat_text(b).drop_last() =~= nat_text(b / 10));
        lemma_nat_text_injective(a / 10, b / 10);
    }
}

/// Identifiers handed out by one generator never repeat: within one scan,
/// different sequence numbers give different identifiers.
pub proof fn lemma_alert_ids_distinct(millis: int, a: int, b: int)
    requires
        0 <= a,
        0 <= b,
        a != b,
    ensures
        alert_id_text(millis, a) != alert_id_text(millis, b),
{
    let p = "anomaly-"@ + int_text(millis) + "-"@;
    assert(alert_id_text(millis, a) =~= p + nat_text(a as nat));
    assert(alert_id_text(millis, b) =~= p + nat_text(b as nat));
    if alert_id_text(millis, a) == alert_id_text(millis, b) {
        let ia = p + nat_text(a as nat);
        let ib = p + nat_text(b as nat);
        assert(ia.subrange(p.len() as int, ia.len() as int) =~= nat_text(a as nat));
        assert(ib.subrange(p.len() as int, ib.len() as int) =~= nat_text(b as nat));
        lemma_nat_text_injective(a as nat, b as nat);
    }
}

} // verus!
