//! Connections as the proxy core reports them, and the records kept of them.
use vstd::prelude::*;
use crate::collector::CollectorError;
use crate::record::{opt_text, ConnectionRecord};
use crate::text::{owned, str_trim, trim};

verus! {

/// The decimal value of a run of ASCII digits.
pub open spec fn digits_value(s: Seq<char>) -> int
    decreases s.len(),
{
    if s.len() == 0 {
        0
    } else {
        digits_value(s.drop_last()) * 10 + (s.last() as int - '0' as int)
    }
}

/// Every character is an ASCII digit.
pub open spec fn all_digits(s: Seq<char>) -> bool {
    forall|i: int| 0 <= i < s.len() ==> '0' <= #[trigger] s[i] <= '9'
}

/// What `i32::from_str` reads: an optional `+` or `-`, then at least one
/// ASCII digit, the value fitting in an `i32`.
pub open spec fn i32_from_text(s: Seq<char>) -> Option<i32> {
    let negative = s.len() > 0 && s[0] == '-';
    let signed = s.len() > 0 && (s[0] == '-' || s[0] == '+');
    let body = if signed { s.subrange(1, s.len() as int) } else { s };
    let v = if negative { -digits_value(body) } else { digits_value(body) };
    if body.len() > 0 && all_digits(body) && i32::MIN <= v <= i32::MAX {
        Some(v as i32)
    } else {
        None
    }
}

/// Calls `str::parse::<i32>`.
#[verifier::external_body]
fn parse_i32(text: &str) -> (r: Option<i32>)
    ensures
        r == i32_from_text(text@),
{
    text.parse::<i32>().ok()
}

/// The JSON text that `serde_json::to_string` writes for a list of strings.
pub uninterp spec fn json_list_text(items: Seq<Seq<char>>) -> Seq<char>;

/// Calls `serde_json::to_string` on a list of strings; the error is rendered
/// as text. Writing strings into memory cannot fail, so it always succeeds.
#[verifier::external_body]
fn json_list_to_string(items: &Vec<String>) -> (r: Result<String, String>)
    ensures
        r is Ok,
        r is Ok ==> r->Ok_0@ == json_list_text(items@.map_values(|s: String| s@)),
{
    serde_json::to_string(items).map_err(|error| error.to_string())
}

/// A port as the core reports it: text, read as an `i32` after trimming.
pub open spec fn port_of(port: Option<Seq<char>>) -> Option<i32> {
    match port {
        Some(p) => i32_from_text(trim(p)),
        None => None,
    }
}

/// A port read from its text, after trimming; none when absent or not a
/// number.
pub fn parse_port(port: Option<&str>) -> (r: Option<i32>)
    ensures
        r == port_of(match port {
            Some(p) => Some(p@),
            None => None,
        }),
{
    match port {
        Some(value) => parse_i32(str_trim(value)),
        None => None,
    }
}

/// Where a connection goes and comes from, as the core reports it.
#[derive(Debug, Clone, PartialEq, Eq)]
pub struct RawMetadata {
    pub host: String,
    pub destination_ip: Option<String>,
    pub destination_port: Option<String>,
    pub source_ip: Option<String>,
    pub source_port: Option<String>,
    pub network: String,
    pub conn_type: String,
}

/// A connection as the core reports it.
#[derive(Debug, Clone, PartialEq, Eq)]
pub struct RawConnection {
    pub id: String,
    pub metadata: RawMetadata,
    pub upload: i64,
    pub download: i64,
    pub start: String,
    pub chains: Vec<String>,
    pub rule: String,
    pub rule_payload: Option<String>,
}

fn opt_str<'a>(o: &'a Option<String>) -> (r: Option<&'a str>)
    ensures
        match r {
            Some(s) => o is Some && s@ == o->0@,
            None => o is None,
        },
{
    match o {
        Some(s) => Some(s.as_str()),
        None => None,
    }
}

impl RawConnection {
    /// The record of this connection observed at `observed_at`: ports read
    /// from text, the proxy chain kept as JSON text, an empty rule payload
    /// dropped.
    pub fn into_record(self, observed_at: &str) -> (r: Result<ConnectionRecord, CollectorError>)
        ensures
            r is Ok,
            r is Ok ==> {
                let c = r->Ok_0;
                &&& c.id == self.id
                &&& c.host == self.metadata.host
                &&& c.dst_ip == self.metadata.destination_ip
                &&& c.dst_port == port_of(opt_text(self.metadata.destination_port))
                &&& c.src_ip == self.metadata.source_ip
                &&& c.src_port == port_of(opt_text(self.metadata.source_port))
                &&& c.network == self.metadata.network
                &&& c.conn_type == self.metadata.conn_type
                &&& c.rule == self.rule
                &&& c.rule_payload == match self.rule_payload {
                    Some(p) => if p@.len() == 0 {
                        None
                    } else {
                        Some(p)
                    },
                    None => None,
                }
                &&& c.proxy_chain@ == json_list_text(self.chains@.map_values(|s: String| s@))
                &&& c.upload == self.upload
                &&& c.download == self.download
                &&& c.start_time == self.start
                &&& c.last_observed_at is Some && c.last_observed_at->0@ == observed_at@
            },
    {
        let dst_port = parse_port(opt_str(&self.metadata.destination_port));
        let src_port = parse_port(opt_str(&self.metadata.source_port));
        let proxy_chain = match json_list_to_string(&self.chains) {
            Ok(text) => text,
            Err(error) => return Err(CollectorError::ProxyChainSerialize(error)),
        };
        let rule_payload = match self.rule_payload {
            Some(p) => if p.as_str().is_empty() {
                None
            } else {
                Some(p)
            },
            None => None,
        };
        Ok(ConnectionRecord {
            id: self.id,
            host: self.metadata.host,
            dst_ip: self.metadata.destination_ip,
            dst_port,
            src_ip: self.metadata.source_ip,
            src_port,
            network: self.metadata.network,
            conn_type: self.metadata.conn_type,
            rule: self.rule,
            rule_payload,
            proxy_chain,
            upload: self.upload,
            download: self.download,
            start_time: self.start,
            last_observed_at: Some(owned(observed_at)),
        })
    }
}

} // verus!
