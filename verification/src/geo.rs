//! Where the country database is looked for, which addresses are worth an
//! online lookup, and the configuration directory.
use vstd::prelude::*;
use std::time::Instant;
use crate::buffer::nanos_between;
use crate::table::{Keyed, KeyedTable};
use crate::text::{concat, has_prefix, owned, str_strip_prefix, text_eq};

verus! {

/// Where the proxy keeps its configuration unless told otherwise.
pub open spec fn default_config_dir_text() -> Seq<char> {
    "~/.config/mihomo"@
}

/// Where the proxy keeps its configuration unless told otherwise.
pub fn default_mihomo_config_dir() -> (r: String)
    ensures
        r@ == default_config_dir_text(),
{
    owned("~/.config/mihomo")
}

/// The configuration directory the country database is looked up in.
#[derive(Debug, Clone, PartialEq, Eq)]
pub struct GeoIpConfigState {
    config_dir: String,
}

impl GeoIpConfigState {
    /// The directory held.
    pub closed spec fn dir(&self) -> Seq<char> {
        self.config_dir@
    }

    /// A state holding `config_dir`.
    pub fn new(config_dir: String) -> (r: Self)
        ensures
            r.dir() == config_dir@,
    {
        GeoIpConfigState { config_dir }
    }

    /// The directory held.
    pub fn config_dir(&self) -> (r: String)
        ensures
            r@ == self.dir(),
    {
        self.config_dir.clone()
    }

    /// Replaces the directory.
    pub fn set_config_dir(&mut self, config_dir: String)
        ensures
            final(self).dir() == config_dir@,
    {
        self.config_dir = config_dir;
    }
}

/// Calls `dirs::home_dir` and renders the path with `Path::display`; it
/// reads the environment, so nothing is stated of it.
#[verifier::external_body]
fn home_dir_text() -> Option<String> {
    dirs::home_dir().map(|home| home.display().to_string())
}

/// A path with a leading `~` put under the home directory `home`; unchanged
/// without a leading `~` or a known home directory.
pub open spec fn expanded(path: Seq<char>, home: Option<Seq<char>>) -> Seq<char> {
    if has_prefix(path, "~"@) && home is Some {
        home->0 + path.subrange(1, path.len() as int)
    } else {
        path
    }
}

/// `path` with a leading `~` replaced by `home`, when there is one.
pub fn expand_home(path: &str, home: Option<&str>) -> (r: String)
    ensures
        r@ == expanded(path@, match home {
            Some(h) => Some(h@),
            None => None,
        }),
{
    proof {
        reveal_strlit("~");
    }
    match str_strip_prefix(path, "~") {
        Some(rest) => match home {
            Some(h) => concat(h, rest),
            None => owned(path),
        },
        None => owned(path),
    }
}

/// `path` with a leading `~` put under the current user's home directory.
pub fn expand_tilde(path: &str) -> (r: String)
    ensures
        exists|home: Option<Seq<char>>| r@ == #[trigger] expanded(path@, home),
        !has_prefix(path@, "~"@) ==> r@ == path@,
{
    let home = home_dir_text();
    proof {
        reveal_strlit("~");
    }
    match home {
        Some(h) => expand_home(path, Some(h.as_str())),
        None => expand_home(path, None),
    }
}

/// Whether a path given on a command starts with the home directory: it is
/// `~`, or starts with `~/` or `~\\`.
pub open spec fn is_command_tilde(path: Seq<char>) -> bool {
    path == "~"@ || has_prefix(path, "~/"@) || has_prefix(path, "~\\"@)
}

/// Calls `Path::join` and renders the result with `to_string_lossy`. How
/// paths are joined depends on the platform (its separators, roots and
/// prefixes), so nothing is stated of the result.
#[verifier::external_body]
fn join_path(base: &str, rest: &str) -> String {
    std::path::Path::new(base).join(rest).to_string_lossy().into_owned()
}

/// A path given on a command with its leading `~/` or `~\\` put under the
/// home directory `home` (`Path::join`); unchanged otherwise or without a
/// home directory. A bare `~` with a home directory is left out: the
/// expansion cuts the first two characters of the path.
pub fn expand_command_home(path: &str, home: Option<&str>) -> (r: String)
    requires
        !(path@ == "~"@ && home is Some),
    ensures
        !(is_command_tilde(path@) && home is Some) ==> r@ == path@,
{
    proof {
        reveal_strlit("~");
        reveal_strlit("~/");
        reveal_strlit("~\\");
    }
    match home {
        None => owned(path),
        Some(h) => match str_strip_prefix(path, "~/") {
            Some(rest) => join_path(h, rest),
            None => match str_strip_prefix(path, "~\\") {
                Some(rest) => join_path(h, rest),
                None => owned(path),
            },
        },
    }
}

/// A path given on a command with its leading `~/` or `~\\` put under the
/// current user's home directory.
pub fn expand_command_tilde(path: &str) -> (r: String)
    requires
        path@ != "~"@,
    ensures
        !is_command_tilde(path@) ==> r@ == path@,
{
    let home = home_dir_text();
    match home {
        Some(h) => expand_command_home(path, Some(h.as_str())),
        None => expand_command_home(path, None),
    }
}

/// An address in the form the lookup rules read.
#[derive(Debug, Clone, Copy, PartialEq, Eq, Structural)]
pub enum IpAddress {
    V4(u8, u8, u8, u8),
    V6(u16, u16, u16, u16, u16, u16, u16, u16),
}

/// An IPv4 address that is none of private, loopback, link-local,
/// broadcast, documentation, unspecified or multicast.
pub open spec fn public_v4(a: u8, b: u8, c: u8, d: u8) -> bool {
    let private = a == 10 || (a == 172 && 16 <= b <= 31) || (a == 192 && b == 168);
    let loopback = a == 127;
    let link_local = a == 169 && b == 254;
    let broadcast = a == 255 && b == 255 && c == 255 && d == 255;
    let documentation = (a == 192 && b == 0 && c == 2) || (a == 198 && b == 51 && c == 100) || (a == 203 && b == 0
        && c == 113);
    let unspecified = a == 0 && b == 0 && c == 0 && d == 0;
    let multicast = 224 <= a <= 239;
    !private && !loopback && !link_local && !broadcast && !documentation && !unspecified && !multicast
}

/// An IPv6 address that is none of loopback (`::1`), unique local
/// (`fc00::/7`), unicast link-local (`fe80::/10`), unspecified (`::`) or
/// multicast (`ff00::/8`).
pub open spec fn public_v6(s: (u16, u16, u16, u16, u16, u16, u16, u16)) -> bool {
    let zero_head = s.0 == 0 && s.1 == 0 && s.2 == 0 && s.3 == 0 && s.4 == 0 && s.5 == 0 && s.6 == 0;
    let loopback = zero_head && s.7 == 1;
    let unspecified = zero_head && s.7 == 0;
    let unique_local = 0xfc00 <= s.0 <= 0xfdff;
    let link_local = 0xfe80 <= s.0 <= 0xfebf;
    let multicast = s.0 >= 0xff00;
    !loopback && !unique_local && !link_local && !unspecified && !multicast
}

/// Whether an address is public, and so worth an online lookup.
pub open spec fn public_ip(ip: IpAddress) -> bool {
    match ip {
        IpAddress::V4(a, b, c, d) => public_v4(a, b, c, d),
        IpAddress::V6(s0, s1, s2, s3, s4, s5, s6, s7) => public_v6((s0, s1, s2, s3, s4, s5, s6, s7)),
    }
}

/// Whether an address is public, and so worth an online lookup.
pub fn is_public_ip(ip: &IpAddress) -> (r: bool)
    ensures
        r == public_ip(*ip),
{
    match ip {
        IpAddress::V4(a, b, c, d) => {
            let (a, b, c, d) = (*a, *b, *c, *d);
            let private = a == 10 || (a == 172 && 16 <= b && b <= 31) || (a == 192 && b == 168);
            let loopback = a == 127;
            let link_local = a == 169 && b == 254;
            let broadcast = a == 255 && b == 255 && c == 255 && d == 255;
            let documentation = (a == 192 && b == 0 && c == 2) || (a == 198 && b == 51 && c == 100) || (a == 203
                && b == 0 && c == 113);
            let unspecified = a == 0 && b == 0 && c == 0 && d == 0;
            let multicast = 224 <= a && a <= 239;
            !private && !loopback && !link_local && !broadcast && !documentation && !unspecified && !multicast
        },
        IpAddress::V6(s0, s1, s2, s3, s4, s5, s6, s7) => {
            let zero_head = *s0 == 0 && *s1 == 0 && *s2 == 0 && *s3 == 0 && *s4 == 0 && *s5 == 0 && *s6 == 0;
            let loopback = zero_head && *s7 == 1;
            let unspecified = zero_head && *s7 == 0;
            let unique_local = 0xfc00 <= *s0 && *s0 <= 0xfdff;
            let link_local = 0xfe80 <= *s0 && *s0 <= 0xfebf;
            let multicast = *s0 >= 0xff00;
            !loopback && !unique_local && !link_local && !unspecified && !multicast
        },
    }
}

/// When an online lookup of an address last failed.
#[derive(Debug)]
pub struct IpApiFailure {
    pub ip: String,
    pub failed_at: Instant,
}

impl Keyed for IpApiFailure {
    open spec fn key(&self) -> Seq<char> {
        self.ip@
    }

    fn key_str(&self) -> (r: &str) {
        self.ip.as_str()
    }
}

/// The entries of `s` whose address has no recorded failure, in order.
pub open spec fn not_failed(s: Seq<(String, IpAddress)>, failed: Set<Seq<char>>) -> Seq<(String, IpAddress)>
    decreases s.len(),
{
    if s.len() == 0 {
        Seq::empty()
    } else if failed.contains(s.last().0@) {
        not_failed(s.drop_last(), failed)
    } else {
        not_failed(s.drop_last(), failed).push(s.last())
    }
}

/// The addresses to look up online: in order, those without a recorded
/// failure, at most `limit` of them (and at least the first, when `limit`
/// is zero and there is one).
pub fn select_online_lookup_candidates_from_failures(
    unresolved: Vec<(String, IpAddress)>,
    failures: &KeyedTable<IpApiFailure>,
    online_lookup_limit: usize,
) -> (r: Vec<(String, IpAddress)>)
    requires
        failures.wf(),
    ensures
        ({
            let f = not_failed(unresolved@, failures.map().dom());
            let lim = if online_lookup_limit == 0 { 1 } else { online_lookup_limit as int };
            r@ == f.take(if f.len() < lim { f.len() as int } else { lim })
        }),
{
    let ghost failed = failures.map().dom();
    let ghost lim: int = if online_lookup_limit == 0 { 1 } else { online_lookup_limit as int };
    let mut candidates: Vec<(String, IpAddress)> = Vec::new();
    let mut i: usize = 0;
    while i < unresolved.len()
        invariant
            i <= unresolved@.len(),
            failures.wf(),
            failed == failures.map().dom(),
            lim == if online_lookup_limit == 0 { 1 } else { online_lookup_limit as int },
            candidates@ == not_failed(unresolved@.take(i as int), failed),
            candidates@.len() < lim,
        decreases unresolved@.len() - i,
    {
        proof {
            assert(unresolved@.take(i + 1).drop_last() =~= unresolved@.take(i as int));
            assert(unresolved@.take(i + 1).last() == unresolved@[i as int]);
        }
        let entry = &unresolved[i];
        if !failures.contains_key(entry.0.as_str()) {
            candidates.push((entry.0.clone(), entry.1));
            if candidates.len() >= online_lookup_limit {
                proof {
                    lemma_not_failed_prefix(unresolved@, failed, i + 1);
                    let f = not_failed(unresolved@, failed);
                    assert(f.take(candidates@.len() as int) =~= candidates@);
                }
                return candidates;
            }
        }
        i = i + 1;
    }
    proof {
        assert(unresolved@.take(unresolved@.len() as int) =~= unresolved@);
        assert(candidates@.take(candidates@.len() as int) =~= candidates@);
    }
    candidates
}

/// Filtering a prefix gives a prefix of the filtered whole.
proof fn lemma_not_failed_prefix(s: Seq<(String, IpAddress)>, failed: Set<Seq<char>>, k: int)
    requires
        0 <= k <= s.len(),
    ensures
        not_failed(s.take(k), failed).len() <= not_failed(s, failed).len(),
        not_failed(s, failed).take(not_failed(s.take(k), failed).len() as int) == not_failed(s.take(k), failed),
    decreases s.len() - k,
{
    if k < s.len() {
        lemma_not_failed_prefix(s, failed, k + 1);
        assert(s.take(k + 1).drop_last() =~= s.take(k));
        let a = not_failed(s.take(k), failed);
        let b = not_failed(s.take(k + 1), failed);
        let f = not_failed(s, failed);
        assert(b.take(a.len() as int) =~= a);
        assert(f.take(a.len() as int) =~= f.take(b.len() as int).take(a.len() as int));
    } else {
        assert(s.take(k) =~= s);
        assert(not_failed(s, failed).take(not_failed(s, failed).len() as int) =~= not_failed(s, failed));
    }
}

/// How long a failed online lookup keeps an address from being retried, in
/// nanoseconds.
pub const IP_API_FAILURE_RETRY_NANOS: u128 = 900_000_000_000;

/// A failure is recent when less time than the retry interval has passed
/// since it, or when it lies after `now` (`gap` is none).
pub fn is_recent_gap(gap: Option<u128>) -> (r: bool)
    ensures
        r == match gap {
            Some(d) => d < IP_API_FAILURE_RETRY_NANOS,
            None => true,
        },
{
    match gap {
        Some(d) => d < IP_API_FAILURE_RETRY_NANOS,
        None => true,
    }
}

/// Whether a failure at `failed_at` is still recent at `now`.
pub fn is_recent_ip_api_failure(failed_at: &Instant, now: &Instant) -> (r: bool)
    ensures
        *failed_at == *now ==> r,
{
    is_recent_gap(nanos_between(failed_at, now))
}

/// Forgets the failures that are no longer recent at `now`; the rest stay as
/// they were.
pub fn retain_recent_ip_api_failures(failures: &mut KeyedTable<IpApiFailure>, now: &Instant)
    requires
        old(failures).wf(),
    ensures
        final(failures).wf(),
        forall|k: Seq<char>| #[trigger] final(failures).map().contains_key(k) ==> old(failures).map().contains_key(k)
            && final(failures).map()[k] == old(failures).map()[k],
        forall|k: Seq<char>| #[trigger] old(failures).map().contains_key(k) && old(failures).map()[k].failed_at == *now
            ==> final(failures).map().contains_key(k),
{
    let ghost before = failures.map();
    let ghost items = failures.items();
    let mut rest = failures.drain();
    proof {
        assert forall|j: int| 0 <= j < rest@.len() implies before.contains_key(#[trigger] rest@[j].key()) && before[rest@[j].key()]
            == rest@[j] by {
            crate::table::lemma_as_map_value(items, j);
        }
        assert forall|k: Seq<char>| #[trigger] before.contains_key(k) implies exists|j: int| 0 <= j < rest@.len()
            && rest@[j].key() == k by {
            crate::table::lemma_as_map_domain(items, k);
        }
    }
    while rest.len() > 0
        invariant
            failures.wf(),
            forall|k: Seq<char>| #[trigger] failures.map().contains_key(k) ==> before.contains_key(k) && failures.map()[k]
                == before[k],
            forall|j: int| 0 <= j < rest@.len() ==> before.contains_key(#[trigger] rest@[j].key()) && before[rest@[j].key()]
                == rest@[j],
            forall|k: Seq<char>| #[trigger] before.contains_key(k) && before[k].failed_at == *now ==> failures.map().contains_key(k)
                || exists|j: int| 0 <= j < rest@.len() && rest@[j].key() == k,
        decreases rest@.len(),
    {
        let ghost prev = rest@;
        let f = rest.pop().unwrap();
        proof {
            assert(f == prev.last());
            assert(rest@ =~= prev.drop_last());
        }
        let ghost table_before = failures.map();
        if is_recent_ip_api_failure(&f.failed_at, now) {
            failures.insert(f);
        }
        proof {
            assert forall|k: Seq<char>| #[trigger] before.contains_key(k) && before[k].failed_at == *now implies failures.map().contains_key(k)
                || exists|j: int| 0 <= j < rest@.len() && rest@[j].key() == k by {
                if !table_before.contains_key(k) {
                    let j = choose|j: int| 0 <= j < prev.len() && prev[j].key() == k;
                    if j == prev.len() - 1 {
                        assert(f.key() == k);
                        assert(before[k] == f);
                    } else {
                        assert(rest@[j] == prev[j]);
                    }
                }
            }
        }
    }
}

/// Notes that the online lookup of `ip` failed at `at`; an earlier failure of
/// the same address is replaced.
pub fn record_ip_api_failure(failures: &mut KeyedTable<IpApiFailure>, ip: &str, at: Instant)
    requires
        old(failures).wf(),
    ensures
        final(failures).wf(),
        final(failures).map() == old(failures).map().insert(ip@, final(failures).map()[ip@]),
        final(failures).map()[ip@].ip@ == ip@,
        final(failures).map()[ip@].failed_at == at,
{
    failures.insert(IpApiFailure { ip: owned(ip), failed_at: at });
}

/// Forgets the failure of `ip`, after a lookup of it succeeded.
pub fn clear_ip_api_failure(failures: &mut KeyedTable<IpApiFailure>, ip: &str)
    requires
        old(failures).wf(),
    ensures
        final(failures).wf(),
        final(failures).map() == old(failures).map().remove(ip@),
{
    let _ = failures.remove(ip);
}

/// The addresses to look up online now: none when the limit is zero or
/// nothing is unresolved; otherwise the failures that are no longer recent
/// are forgotten first, and the first unresolved addresses without a recent
/// failure are taken, at most `online_lookup_limit` of them.
pub fn select_online_lookup_candidates(
    failures: &mut KeyedTable<IpApiFailure>,
    unresolved: Vec<(String, IpAddress)>,
    online_lookup_limit: usize,
    now: &Instant,
) -> (r: Vec<(String, IpAddress)>)
    requires
        old(failures).wf(),
    ensures
        final(failures).wf(),
        online_lookup_limit == 0 || unresolved@.len() == 0 ==> r@.len() == 0 && final(failures).map() == old(
            failures,
        ).map(),
        !(online_lookup_limit == 0 || unresolved@.len() == 0) ==> {
            &&& forall|k: Seq<char>| #[trigger] final(failures).map().contains_key(k) ==> old(failures).map().contains_key(k)
                && final(failures).map()[k] == old(failures).map()[k]
            &&& ({
                let f = not_failed(unresolved@, final(failures).map().dom());
                r@ == f.take(if f.len() < online_lookup_limit { f.len() as int } else { online_lookup_limit as int })
            })
        },
{
    if online_lookup_limit == 0 || unresolved.len() == 0 {
        return Vec::new();
    }
    retain_recent_ip_api_failures(failures, now);
    select_online_lookup_candidates_from_failures(unresolved, failures, online_lookup_limit)
}

/// A byte that percent-encoding leaves as it is: an ASCII letter or digit,
/// `-`, `.`, `_` or `~`.
pub open spec fn is_unreserved(b: u8) -> bool {
    (48 <= b <= 57) || (65 <= b <= 90) || (97 <= b <= 122) || b == 45 || b == 46 || b == 95 || b == 126
}

/// The upper-case hexadecimal digit of a value below 16.
pub open spec fn hex_digit(d: int) -> char {
    if d < 10 {
        (48 + d) as char
    } else {
        (55 + d) as char
    }
}

/// Bytes percent-encoded: unreserved bytes kept as characters, every other
/// byte written as `%` and two upper-case hexadecimal digits.
pub open spec fn percent_encoded(bytes: Seq<u8>) -> Seq<char>
    decreases bytes.len(),
{
    if bytes.len() == 0 {
        Seq::empty()
    } else {
        let b = bytes[0];
        let head = if is_unreserved(b) {
            seq![b as char]
        } else {
            seq!['%', hex_digit(b as int / 16), hex_digit(b as int % 16)]
        };
        head + percent_encoded(bytes.skip(1))
    }
}

/// Calls `urlencoding::encode`: the UTF-8 bytes of `s`, percent-encoded.
#[verifier::external_body]
fn url_encode(s: &str) -> (r: String)
    ensures
        r@ == percent_encoded(vstd::utf8::encode_utf8(s@)),
{
    urlencoding::encode(s).into_owned()
}

/// The address of the online lookup of `ip`, asking for the fields the
/// lookup reads.
pub fn ip_api_url(ip: &str) -> (r: String)
    ensures
        r@ == "http://ip-api.com/json/"@ + percent_encoded(vstd::utf8::encode_utf8(ip@))
            + "?fields=status,country,countryCode,city,lat,lon"@,
{
    let encoded = url_encode(ip);
    let head = concat("http://ip-api.com/json/", encoded.as_str());
    concat(head.as_str(), "?fields=status,country,countryCode,city,lat,lon")
}

/// Whether an online lookup's answer locates the address: its status is
/// `success` and it names a country or a country code.
pub fn ip_api_answer_usable(status: &str, country: Option<&str>, country_code: Option<&str>) -> (r: bool)
    ensures
        r == (status@ == "success"@ && (country is Some || country_code is Some)),
{
    text_eq(status, "success") && (country.is_some() || country_code.is_some())
}

} // verus!
