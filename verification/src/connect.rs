//! The address of the proxy core's connection stream.
use vstd::prelude::*;
use crate::collector::CollectorError;
use crate::text::{concat, has_prefix, owned, str_starts_with, str_trim, text_eq, trim};

verus! {

// A parsed URL is carried as its serialization: `Url::parse` of the
// serialization of a URL gives that URL back (the round trip that
// `Url::check_invariants` asserts), so the text determines the URL.

/// What `Url::parse` gives for `text`: the serialization of the parsed URL,
/// or none when it does not parse.
pub uninterp spec fn parsed_url_text(text: Seq<char>) -> Option<Seq<char>>;

/// The text of the `ParseError` that `Url::parse` gives for `text`.
pub uninterp spec fn url_parse_error(text: Seq<char>) -> Seq<char>;

/// What `Url::scheme` gives for the URL serialized as `url`.
pub uninterp spec fn url_scheme_text(url: Seq<char>) -> Seq<char>;

/// The serialization after `Url::set_scheme(scheme)` on the URL serialized as
/// `url`; none when the setter refuses.
pub uninterp spec fn url_with_scheme(url: Seq<char>, scheme: Seq<char>) -> Option<Seq<char>>;

/// The serialization after `Url::set_path(path)` on the URL serialized as
/// `url`.
pub uninterp spec fn url_with_path(url: Seq<char>, path: Seq<char>) -> Seq<char>;

/// The serialization after `Url::set_query(None)` on the URL serialized as
/// `url`.
pub uninterp spec fn url_without_query(url: Seq<char>) -> Seq<char>;

/// The serialization after `query_pairs_mut().append_pair(name, value)` on
/// the URL serialized as `url`.
pub uninterp spec fn url_with_pair(url: Seq<char>, name: Seq<char>, value: Seq<char>) -> Seq<char>;

/// Whether `text` is the serialization of a URL: it parses to itself.
pub open spec fn is_url_text(text: Seq<char>) -> bool {
    parsed_url_text(text) == Some(text)
}

/// Calls `Url::parse` and takes the URL's serialization (`Url::as_str`), or
/// the error's text; the serialization of a URL parses back to itself.
#[verifier::external_body]
fn url_parse(text: &str) -> (r: Result<String, String>)
    ensures
        r is Ok <==> parsed_url_text(text@) is Some,
        r matches Ok(t) ==> parsed_url_text(text@) == Some(t@) && is_url_text(t@),
        r matches Err(e) ==> e@ == url_parse_error(text@),
{
    match reqwest::Url::parse(text) {
        Ok(url) => Ok(url.as_str().to_string()),
        Err(error) => Err(error.to_string()),
    }
}

/// Calls `Url::scheme` on the URL serialized as `url` (parsed back with
/// `Url::parse`, which the round trip guarantees).
#[verifier::external_body]
fn url_scheme(url: &str) -> (r: String)
    requires
        is_url_text(url@),
    ensures
        r@ == url_scheme_text(url@),
{
    match reqwest::Url::parse(url) {
        Ok(parsed) => parsed.scheme().to_string(),
        Err(_) => String::new(),
    }
}

/// Calls `Url::set_scheme` on the URL serialized as `url`: the new
/// serialization, or none when the setter refuses.
#[verifier::external_body]
fn url_set_scheme(url: &str, scheme: &str) -> (r: Option<String>)
    requires
        is_url_text(url@),
    ensures
        r is Some <==> url_with_scheme(url@, scheme@) is Some,
        r matches Some(t) ==> url_with_scheme(url@, scheme@) == Some(t@) && is_url_text(t@),
{
    match reqwest::Url::parse(url) {
        Ok(mut parsed) => match parsed.set_scheme(scheme) {
            Ok(()) => Some(parsed.as_str().to_string()),
            Err(()) => None,
        },
        Err(_) => None,
    }
}

/// Calls `Url::set_path` on the URL serialized as `url`.
#[verifier::external_body]
fn url_set_path(url: &str, path: &str) -> (r: String)
    requires
        is_url_text(url@),
    ensures
        r@ == url_with_path(url@, path@),
        is_url_text(r@),
{
    match reqwest::Url::parse(url) {
        Ok(mut parsed) => {
            parsed.set_path(path);
            parsed.as_str().to_string()
        },
        Err(_) => url.to_string(),
    }
}

/// Calls `Url::set_query(None)` on the URL serialized as `url`.
#[verifier::external_body]
fn url_clear_query(url: &str) -> (r: String)
    requires
        is_url_text(url@),
    ensures
        r@ == url_without_query(url@),
        is_url_text(r@),
{
    match reqwest::Url::parse(url) {
        Ok(mut parsed) => {
            parsed.set_query(None);
            parsed.as_str().to_string()
        },
        Err(_) => url.to_string(),
    }
}

/// Calls `Url::query_pairs_mut` and appends one form-encoded pair to the URL
/// serialized as `url`.
#[verifier::external_body]
fn url_append_pair(url: &str, name: &str, value: &str) -> (r: String)
    requires
        is_url_text(url@),
    ensures
        r@ == url_with_pair(url@, name@, value@),
{
    match reqwest::Url::parse(url) {
        Ok(mut parsed) => {
            parsed.query_pairs_mut().append_pair(name, value);
            parsed.as_str().to_string()
        },
        Err(_) => url.to_string(),
    }
}

/// The text starts with one of the schemes the collector speaks.
pub open spec fn supported_scheme(value: Seq<char>) -> bool {
    has_prefix(value, "http://"@) || has_prefix(value, "https://"@) || has_prefix(value, "ws://"@) || has_prefix(
        value,
        "wss://"@,
    )
}

/// Whether the address names its scheme already.
pub fn has_supported_scheme(value: &str) -> (r: bool)
    ensures
        r == supported_scheme(value@),
{
    str_starts_with(value, "http://") || str_starts_with(value, "https://") || str_starts_with(value, "ws://")
        || str_starts_with(value, "wss://")
}

/// The address to parse: trimmed, with `http://` put in front when it names
/// no scheme; a blank address is refused.
pub fn normalize_api_address(api_address: &str) -> (r: Result<String, CollectorError>)
    ensures
        trim(api_address@).len() == 0 ==> (r matches Err(CollectorError::InvalidApiAddress(m)) && m@ == "apiAddress 为空"@),
        trim(api_address@).len() > 0 && supported_scheme(trim(api_address@)) ==> r is Ok && r->Ok_0@ == trim(api_address@),
        trim(api_address@).len() > 0 && !supported_scheme(trim(api_address@)) ==> r is Ok && r->Ok_0@ == "http://"@
            + trim(api_address@),
{
    let trimmed = str_trim(api_address);
    if trimmed.is_empty() {
        return Err(CollectorError::InvalidApiAddress(owned("apiAddress 为空")));
    }
    if has_supported_scheme(trimmed) {
        Ok(owned(trimmed))
    } else {
        Ok(concat("http://", trimmed))
    }
}

/// The websocket scheme for a URL scheme: `ws` for `http` and `ws`, `wss`
/// for `https` and `wss`, none otherwise.
pub open spec fn ws_scheme_of(scheme: Seq<char>) -> Option<Seq<char>> {
    if scheme == "http"@ || scheme == "ws"@ {
        Some("ws"@)
    } else if scheme == "https"@ || scheme == "wss"@ {
        Some("wss"@)
    } else {
        None
    }
}

/// The websocket scheme for a URL scheme: `ws` for `http` and `ws`, `wss`
/// for `https` and `wss`, none otherwise.
pub fn websocket_scheme(scheme: &str) -> (r: Option<&'static str>)
    ensures
        (scheme@ == "http"@ || scheme@ == "ws"@) ==> r == Some("ws"),
        (scheme@ == "https"@ || scheme@ == "wss"@) ==> r == Some("wss"),
        !(scheme@ == "http"@ || scheme@ == "ws"@ || scheme@ == "https"@ || scheme@ == "wss"@) ==> r is None,
        match r {
            Some(w) => ws_scheme_of(scheme@) == Some(w@),
            None => ws_scheme_of(scheme@) is None,
        },
{
    proof {
        reveal_strlit("http");
        reveal_strlit("https");
        reveal_strlit("ws");
        reveal_strlit("wss");
        assert("https"@.len() == 5 && "http"@.len() == 4 && "wss"@.len() == 3 && "ws"@.len() == 2);
    }
    if text_eq(scheme, "http") || text_eq(scheme, "ws") {
        Some("ws")
    } else if text_eq(scheme, "https") || text_eq(scheme, "wss") {
        Some("wss")
    } else {
        None
    }
}

/// The address an API address is parsed as: trimmed, with `http://` put in
/// front when it names no scheme.
pub open spec fn address_to_parse(api_address: Seq<char>) -> Seq<char> {
    if supported_scheme(trim(api_address)) {
        trim(api_address)
    } else {
        "http://"@ + trim(api_address)
    }
}

/// The URL of the core's `/connections` stream for an API address and
/// secret, or the message of the refusal: the parsed address with a
/// websocket scheme, the path `/connections`, no query, and the trimmed
/// secret as `token` when there is one.
pub open spec fn connections_ws_url(api_address: Seq<char>, api_secret: Seq<char>) -> Result<Seq<char>, Seq<char>> {
    if trim(api_address).len() == 0 {
        Err("apiAddress 为空"@)
    } else {
        let n = address_to_parse(api_address);
        match parsed_url_text(n) {
            None => Err(url_parse_error(n)),
            Some(u) => {
                let scheme = url_scheme_text(u);
                match ws_scheme_of(scheme) {
                    None => Err("不支持的协议: "@ + scheme),
                    Some(w) => match url_with_scheme(u, w) {
                        None => Err("无法设置 WebSocket 协议"@),
                        Some(v) => {
                            let q = url_without_query(url_with_path(v, "/connections"@));
                            Ok(if trim(api_secret).len() > 0 {
                                url_with_pair(q, "token"@, trim(api_secret))
                            } else {
                                q
                            })
                        },
                    },
                }
            },
        }
    }
}

/// The URL of the core's `/connections` stream: the API address with a
/// websocket scheme, the path `/connections`, no other query, and the
/// trimmed secret as `token` when there is one. A blank address is refused;
/// so are addresses that do not parse and schemes other than HTTP(S) and
/// WS(S).
pub fn build_connections_ws_url(api_address: &str, api_secret: &str) -> (r: Result<String, CollectorError>)
    ensures
        match connections_ws_url(api_address@, api_secret@) {
            Ok(u) => r matches Ok(t) && t@ == u,
            Err(m) => r matches Err(CollectorError::InvalidApiAddress(e)) && e@ == m,
        },
{
    let normalized = normalize_api_address(api_address)?;
    let url = match url_parse(normalized.as_str()) {
        Ok(url) => url,
        Err(error) => return Err(CollectorError::InvalidApiAddress(error)),
    };
    let scheme = url_scheme(url.as_str());
    let ws_scheme = match websocket_scheme(scheme.as_str()) {
        Some(s) => s,
        None => return Err(CollectorError::InvalidApiAddress(concat("不支持的协议: ", scheme.as_str()))),
    };
    let url = match url_set_scheme(url.as_str(), ws_scheme) {
        Some(u) => u,
        None => return Err(CollectorError::InvalidApiAddress(owned("无法设置 WebSocket 协议"))),
    };
    let url = url_set_path(url.as_str(), "/connections");
    let url = url_clear_query(url.as_str());
    let secret = str_trim(api_secret);
    if !secret.is_empty() {
        Ok(url_append_pair(url.as_str(), "token", secret))
    } else {
        Ok(url)
    }
}

/// The next wait before reconnecting, in seconds: double the last one, at
/// most thirty seconds.
pub fn next_retry_delay_secs(current_secs: u64) -> (r: u64)
    ensures
        r == if current_secs * 2 < 30 { current_secs * 2 } else { 30 },
{
    if current_secs >= 15 {
        30
    } else {
        current_secs * 2
    }
}

/// A close code that ends the stream without an error: a normal close, a
/// going-away or a restart.
pub open spec fn expected_close(code: u16) -> bool {
    code == 1000 || code == 1001 || code == 1012
}

/// Whether a close code ends the stream without an error.
pub fn is_expected_close_code(code: u16) -> (r: bool)
    ensures
        r == expected_close(code),
{
    code == 1000 || code == 1001 || code == 1012
}

/// Why the connection stream ended, as a message for the error log: none for
/// a normal close, a going-away or a restart (codes 1000, 1001 and 1012).
pub fn disconnect_message_from_close_frame(frame: Option<(u16, &str)>) -> (r: Option<String>)
    ensures
        crate::record::opt_text(r) == match frame {
            None => Some("collector websocket closed without close frame"@),
            Some((code, reason)) => if expected_close(code) {
                None
            } else if trim(reason@).len() > 0 {
                Some("collector websocket closed: code="@ + crate::text::int_text(code as int) + ", reason="@ + reason@)
            } else {
                Some("collector websocket closed: code="@ + crate::text::int_text(code as int))
            },
        },
{
    match frame {
        None => Some(owned("collector websocket closed without close frame")),
        Some((code, reason)) => {
            if is_expected_close_code(code) {
                None
            } else {
                let head = concat("collector websocket closed: code=", crate::text::u64_text(code as u64).as_str());
                if !str_trim(reason).is_empty() {
                    let head = concat(head.as_str(), ", reason=");
                    Some(concat(head.as_str(), reason))
                } else {
                    Some(head)
                }
            }
        },
    }
}

} // verus!
