//! The connection record that the collector keeps for each proxied
//! connection, and the per-day statistics rows derived from it.
use vstd::prelude::*;
use crate::table::Keyed;

verus! {

/// The text of an optional string.
pub open spec fn opt_text(o: Option<String>) -> Option<Seq<char>> {
    match o {
        Some(s) => Some(s@),
        None => None,
    }
}

/// A copy of an optional string.
pub fn copy_opt_text(o: &Option<String>) -> (r: Option<String>)
    ensures
        opt_text(r) == opt_text(*o),
        r == *o,
{
    match o {
        Some(s) => Some(s.clone()),
        None => None,
    }
}

/// Whether two optional strings hold the same text.
pub fn opt_text_eq(a: &Option<String>, b: &Option<String>) -> (r: bool)
    ensures
        r == (opt_text(*a) == opt_text(*b)),
{
    match (a, b) {
        (Some(x), Some(y)) => *x == *y,
        (None, None) => true,
        _ => false,
    }
}

/// One connection as reported by the proxy core.
#[derive(Debug)]
pub struct ConnectionRecord {
    pub id: String,
    pub host: String,
    pub dst_ip: Option<String>,
    pub dst_port: Option<i32>,
    pub src_ip: Option<String>,
    pub src_port: Option<i32>,
    pub network: String,
    pub conn_type: String,
    pub rule: String,
    pub rule_payload: Option<String>,
    pub proxy_chain: String,
    pub upload: i64,
    pub download: i64,
    pub start_time: String,
    pub last_observed_at: Option<String>,
}

impl ConnectionRecord {
    /// Two records describe the same observation: every field but the
    /// observation time agrees.
    pub open spec fn same_observation(self, other: ConnectionRecord) -> bool {
        &&& self.id@ == other.id@
        &&& self.host@ == other.host@
        &&& opt_text(self.dst_ip) == opt_text(other.dst_ip)
        &&& self.dst_port == other.dst_port
        &&& opt_text(self.src_ip) == opt_text(other.src_ip)
        &&& self.src_port == other.src_port
        &&& self.network@ == other.network@
        &&& self.conn_type@ == other.conn_type@
        &&& self.rule@ == other.rule@
        &&& opt_text(self.rule_payload) == opt_text(other.rule_payload)
        &&& self.proxy_chain@ == other.proxy_chain@
        &&& self.upload == other.upload
        &&& self.download == other.download
        &&& self.start_time@ == other.start_time@
    }

    /// Whether `self` and `other` describe the same observation, ignoring
    /// when it was made.
    pub fn same_as(&self, other: &ConnectionRecord) -> (r: bool)
        ensures
            r == self.same_observation(*other),
    {
        self.id == other.id && self.host == other.host && opt_text_eq(&self.dst_ip, &other.dst_ip)
            && self.dst_port == other.dst_port && opt_text_eq(&self.src_ip, &other.src_ip)
            && self.src_port == other.src_port && self.network == other.network
            && self.conn_type == other.conn_type && self.rule == other.rule && opt_text_eq(
            &self.rule_payload,
            &other.rule_payload,
        ) && self.proxy_chain == other.proxy_chain && self.upload == other.upload
            && self.download == other.download && self.start_time == other.start_time
    }
}

impl Clone for ConnectionRecord {
    fn clone(&self) -> (r: Self)
        ensures
            r == *self,
    {
        ConnectionRecord {
            id: self.id.clone(),
            host: self.host.clone(),
            dst_ip: copy_opt_text(&self.dst_ip),
            dst_port: self.dst_port,
            src_ip: copy_opt_text(&self.src_ip),
            src_port: self.src_port,
            network: self.network.clone(),
            conn_type: self.conn_type.clone(),
            rule: self.rule.clone(),
            rule_payload: copy_opt_text(&self.rule_payload),
            proxy_chain: self.proxy_chain.clone(),
            upload: self.upload,
            download: self.download,
            start_time: self.start_time.clone(),
            last_observed_at: copy_opt_text(&self.last_observed_at),
        }
    }
}

/// Per-day traffic and hit counts of one domain.
#[derive(Debug, PartialEq, Eq)]
pub struct DomainStatsUpdate {
    pub domain: String,
    pub day: String,
    pub hit_count: i64,
    pub upload: i64,
    pub download: i64,
}

/// Per-day traffic and hit counts of one routing rule.
#[derive(Debug, PartialEq, Eq)]
pub struct RuleStatsUpdate {
    pub rule: String,
    pub day: String,
    pub hit_count: i64,
    pub upload: i64,
    pub download: i64,
}

/// Per-day traffic towards one destination address.
#[derive(Debug, PartialEq, Eq)]
pub struct IpTrafficStatsUpdate {
    pub dst_ip: String,
    pub day: String,
    pub upload: i64,
    pub download: i64,
}

/// Traffic observed within one UTC hour.
#[derive(Debug, PartialEq, Eq)]
pub struct TrafficSampleInsert {
    pub ts: String,
    pub upload: i64,
    pub download: i64,
    pub conn_count: i64,
}

/// The abstract content of a statistics row: its key text, its bucket text,
/// the new-connection count, upload and download.
pub type StatRow = (Seq<char>, Seq<char>, int, int, int);

impl DomainStatsUpdate {
    pub open spec fn row(self) -> StatRow {
        (self.domain@, self.day@, self.hit_count as int, self.upload as int, self.download as int)
    }
}

impl RuleStatsUpdate {
    pub open spec fn row(self) -> StatRow {
        (self.rule@, self.day@, self.hit_count as int, self.upload as int, self.download as int)
    }
}

impl IpTrafficStatsUpdate {
    pub open spec fn row(self) -> StatRow {
        (self.dst_ip@, self.day@, 0, self.upload as int, self.download as int)
    }
}

impl TrafficSampleInsert {
    pub open spec fn row(self) -> StatRow {
        (Seq::empty(), self.ts@, self.conn_count as int, self.upload as int, self.download as int)
    }
}

impl Keyed for ConnectionRecord {
    open spec fn key(&self) -> Seq<char> {
        self.id@
    }

    fn key_str(&self) -> (r: &str) {
        self.id.as_str()
    }
}

/// A row of the error log, before it is written.
#[derive(Debug, PartialEq, Eq)]
pub struct ErrorLogInsert {
    pub category: String,
    pub proxy_node: Option<String>,
    pub host: Option<String>,
    pub rule: Option<String>,
    pub message: String,
}


/// Two readings of a connection whose upload or download counters differ are
/// never the same observation: traffic that moved is always seen.
pub proof fn lemma_moved_counters_are_new_observations(a: ConnectionRecord, b: ConnectionRecord)
    requires
        a.upload != b.upload || a.download != b.download,
    ensures
        !a.same_observation(b),
{
}

} // verus!
