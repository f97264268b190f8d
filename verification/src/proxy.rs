//! The proxy core's API: its data shapes, the endpoint the client talks to,
//! and the system proxy settings that point at it.
use vstd::prelude::*;
use crate::text::{concat, owned};

verus! {

/// One delay measurement of a proxy.
#[derive(Debug, Clone, PartialEq, Eq)]
pub struct DelayHistory {
    pub time: String,
    pub delay: i64,
}

/// A proxy node as the core reports it.
#[derive(Debug, Clone, PartialEq, Eq)]
pub struct ProxyNode {
    pub name: String,
    pub proxy_type: String,
    pub alive: bool,
    pub delay: i64,
    pub history: Vec<DelayHistory>,
}

/// A proxy group and its current choice.
#[derive(Debug, Clone, PartialEq, Eq)]
pub struct ProxyGroup {
    pub name: String,
    pub group_type: String,
    pub now: String,
    pub all: Vec<String>,
}

/// A routing rule.
#[derive(Debug, Clone, PartialEq, Eq)]
pub struct Rule {
    pub rule_type: String,
    pub payload: String,
    pub proxy: String,
}

/// How healthy a proxy node is, best first.
#[derive(Debug, Clone, Copy, PartialEq, Eq, Structural)]
pub enum HealthGrade {
    Excellent,
    Good,
    Fair,
    Poor,
    Critical,
}

/// `s` without the trailing `c` characters.
pub open spec fn trim_trailing(s: Seq<char>, c: char) -> Seq<char>
    decreases s.len(),
{
    if s.len() > 0 && s.last() == c {
        trim_trailing(s.drop_last(), c)
    } else {
        s
    }
}

/// Calls `str::trim_end_matches` with a character pattern: `s` with every
/// trailing `c` removed.
#[verifier::external_body]
fn str_trim_end_char(s: &str, c: char) -> (r: &str)
    ensures
        r@ == trim_trailing(s@, c),
{
    s.trim_end_matches(c)
}

/// Where the core's API answers and the secret it expects.
#[derive(Debug, Clone, PartialEq, Eq)]
pub struct MihomoEndpoint {
    base_url: String,
    secret: String,
}

impl MihomoEndpoint {
    /// The base URL, without trailing slashes.
    pub closed spec fn base(&self) -> Seq<char> {
        self.base_url@
    }

    /// The API secret.
    pub closed spec fn secret_text(&self) -> Seq<char> {
        self.secret@
    }

    /// An endpoint at `base_url` (trailing slashes dropped) with `secret`.
    pub fn new(base_url: &str, secret: &str) -> (r: Self)
        ensures
            r.base() == trim_trailing(base_url@, '/'),
            r.secret_text() == secret@,
    {
        MihomoEndpoint { base_url: owned(str_trim_end_char(base_url, '/')), secret: owned(secret) }
    }

    /// Points the endpoint elsewhere.
    pub fn update_connection(&mut self, base_url: &str, secret: &str)
        ensures
            final(self).base() == trim_trailing(base_url@, '/'),
            final(self).secret_text() == secret@,
    {
        self.base_url = owned(str_trim_end_char(base_url, '/'));
        self.secret = owned(secret);
    }

    /// The URL of the API path `path`.
    pub fn url(&self, path: &str) -> (r: String)
        ensures
            r@ == self.base() + path@,
    {
        concat(self.base_url.as_str(), path)
    }

    /// The `Authorization` header value, when a secret is set.
    pub fn authorization(&self) -> (r: Option<String>)
        ensures
            self.secret_text().len() == 0 ==> r is None,
            self.secret_text().len() > 0 ==> r is Some && r->0@ == "Bearer "@ + self.secret_text(),
    {
        if self.secret.as_str().is_empty() {
            None
        } else {
            Some(concat("Bearer ", self.secret.as_str()))
        }
    }
}

/// Why the system proxy could not be set or read.
#[derive(Debug, Clone, PartialEq, Eq)]
pub enum SysproxyError {
    SetFailed(String),
    GetFailed(String),
}

impl SysproxyError {
    /// The message shown to the user.
    pub fn to_string(&self) -> (r: String)
        ensures
            r@ == match *self {
                SysproxyError::SetFailed(s) => "系统代理设置失败: "@ + s@,
                SysproxyError::GetFailed(s) => "获取系统代理失败: "@ + s@,
            },
    {
        match self {
            SysproxyError::SetFailed(s) => concat("系统代理设置失败: ", s.as_str()),
            SysproxyError::GetFailed(s) => concat("获取系统代理失败: ", s.as_str()),
        }
    }
}

/// The system proxy as the operating system holds it.
#[derive(Debug, Clone, PartialEq, Eq)]
pub struct SystemProxySettings {
    pub enable: bool,
    pub host: String,
    pub port: u16,
    pub bypass: String,
}

/// The system proxy to set: pointing at `host:port` and bypassing the local
/// host when enabled; empty when disabled.
pub fn system_proxy_settings(enable: bool, host: &str, port: u16) -> (r: SystemProxySettings)
    ensures
        r.enable == enable,
        enable ==> r.host@ == host@ && r.port == port && r.bypass@ == "localhost,127.0.0.1"@,
        !enable ==> r.host@.len() == 0 && r.port == 0 && r.bypass@.len() == 0,
{
    if enable {
        SystemProxySettings { enable: true, host: owned(host), port, bypass: owned("localhost,127.0.0.1") }
    } else {
        SystemProxySettings { enable: false, host: String::new(), port: 0, bypass: String::new() }
    }
}

/// A measured delay as it is stored: none when it does not fit an `i32`.
pub fn delay_ms_from_u32(delay_ms: u32) -> (r: Option<i32>)
    ensures
        delay_ms <= i32::MAX ==> r == Some(delay_ms as i32),
        delay_ms > i32::MAX ==> r is None,
{
    if delay_ms <= 2147483647u32 {
        Some(delay_ms as i32)
    } else {
        None
    }
}

} // verus!
