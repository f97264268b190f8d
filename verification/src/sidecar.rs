//! The proxy core and assistant child processes: their errors, and what to
//! do with each line the assistant process writes.
use vstd::prelude::*;
use crate::document::{find_key, first_index, ConfigValue};
use crate::ingest::{all_digits, digits_value};
use crate::record::opt_text;
use crate::text::{concat, i64_text, int_text, owned, text_eq};

verus! {

/// Why the proxy core process could not be started or stopped.
#[derive(Debug, Clone, PartialEq, Eq)]
pub enum SidecarError {
    AlreadyRunning,
    NotRunning,
    SpawnFailed(String),
    KillFailed(String),
}

/// Why a request to the assistant process failed.
#[derive(Debug, Clone, PartialEq, Eq)]
pub enum AiSidecarError {
    AlreadyRunning,
    NotRunning,
    SpawnFailed(String),
    KillFailed(String),
    WriteFailed(String),
    ReadyTimeout,
    ReadySignalDropped,
    ResponseTimeout,
    InvalidResponse(String),
    Rpc { code: i64, message: String },
    ProcessExited(String),
    RequestCancelled,
}

/// The message shown to the user for an assistant-process error.
pub open spec fn ai_error_text(e: AiSidecarError) -> Seq<char> {
    match e {
        AiSidecarError::AlreadyRunning => "ai-service 已在运行"@,
        AiSidecarError::NotRunning => "ai-service 未在运行"@,
        AiSidecarError::SpawnFailed(s) => "启动 ai-service 失败: "@ + s@,
        AiSidecarError::KillFailed(s) => "停止 ai-service 失败: "@ + s@,
        AiSidecarError::WriteFailed(s) => "向 ai-service 写入请求失败: "@ + s@,
        AiSidecarError::ReadyTimeout => "等待 ai-service ready 超时"@,
        AiSidecarError::ReadySignalDropped => "ai-service 未发送 ready 消息"@,
        AiSidecarError::ResponseTimeout => "等待 ai-service 响应超时"@,
        AiSidecarError::InvalidResponse(s) => "ai-service 返回无效响应: "@ + s@,
        AiSidecarError::Rpc { code, message } => "ai-service RPC 错误("@ + int_text(code as int) + "): "@ + message@,
        AiSidecarError::ProcessExited(s) => "ai-service 进程已退出: "@ + s@,
        AiSidecarError::RequestCancelled => "ai-service 请求已取消"@,
    }
}

impl AiSidecarError {
    /// The message shown to the user.
    pub fn to_string(&self) -> (r: String)
        ensures
            r@ == ai_error_text(*self),
    {
        match self {
            AiSidecarError::AlreadyRunning => owned("ai-service 已在运行"),
            AiSidecarError::NotRunning => owned("ai-service 未在运行"),
            AiSidecarError::SpawnFailed(s) => concat("启动 ai-service 失败: ", s.as_str()),
            AiSidecarError::KillFailed(s) => concat("停止 ai-service 失败: ", s.as_str()),
            AiSidecarError::WriteFailed(s) => concat("向 ai-service 写入请求失败: ", s.as_str()),
            AiSidecarError::ReadyTimeout => owned("等待 ai-service ready 超时"),
            AiSidecarError::ReadySignalDropped => owned("ai-service 未发送 ready 消息"),
            AiSidecarError::ResponseTimeout => owned("等待 ai-service 响应超时"),
            AiSidecarError::InvalidResponse(s) => concat("ai-service 返回无效响应: ", s.as_str()),
            AiSidecarError::Rpc { code, message } => {
                let head = concat("ai-service RPC 错误(", i64_text(*code).as_str());
                let head = concat(head.as_str(), "): ");
                concat(head.as_str(), message.as_str())
            },
            AiSidecarError::ProcessExited(s) => concat("ai-service 进程已退出: ", s.as_str()),
            AiSidecarError::RequestCancelled => owned("ai-service 请求已取消"),
        }
    }
}

/// The code of an RPC error object: its own, or the JSON-RPC internal error
/// code where it has none.
pub open spec fn rpc_code(code: Option<i64>) -> int {
    match code {
        Some(c) => c as int,
        None => -32603int,
    }
}

/// The message of an RPC error object: its own, or a generic one where it
/// has none.
pub open spec fn rpc_message(message: Option<Seq<char>>) -> Seq<char> {
    match message {
        Some(m) => m,
        None => "unknown rpc error"@,
    }
}

/// Whether `e` is the error that an RPC error object with `code` and
/// `message` stands for.
pub open spec fn is_rpc_error_of(e: AiSidecarError, code: Option<i64>, message: Option<Seq<char>>) -> bool {
    e matches AiSidecarError::Rpc { code: c, message: m } && c == rpc_code(code) && m@ == rpc_message(message)
}

/// Whether `e` is the error for a response with neither `result` nor `error`.
pub open spec fn is_missing_body_error(e: AiSidecarError) -> bool {
    e matches AiSidecarError::InvalidResponse(s) && s@ == "missing result or error field"@
}

/// The error an RPC error object stands for: its code and message, or the
/// JSON-RPC internal error code and a generic message where they are absent.
pub fn parse_rpc_error(code: Option<i64>, message: Option<&str>) -> (r: AiSidecarError)
    ensures
        is_rpc_error_of(r, code, match message {
            Some(m) => Some(m@),
            None => None,
        }),
{
    let code = match code {
        Some(c) => c,
        None => -32603,
    };
    let message = match message {
        Some(m) => owned(m),
        None => owned("unknown rpc error"),
    };
    AiSidecarError::Rpc { code, message }
}

/// A stream event of type `done` or `error` ends its stream.
pub fn is_terminal_stream_event(event_type: Option<&str>) -> (r: bool)
    ensures
        r == match event_type {
            Some(t) => t@ == "done"@ || t@ == "error"@,
            None => false,
        },
{
    match event_type {
        Some(t) => crate::text::text_eq(t, "done") || crate::text::text_eq(t, "error"),
        None => false,
    }
}

/// What a line written by the assistant process holds.
#[derive(Debug, Clone, PartialEq, Eq)]
pub enum StdoutMessage {
    /// Not JSON.
    Invalid,
    /// The `ready` notification.
    Ready,
    /// A response to request `id`.
    Response { id: String, body: ResponseBody },
    /// Anything else, passed on to the interface.
    Notification,
}

/// The body of a response.
#[derive(Debug, Clone, PartialEq, Eq)]
pub enum ResponseBody {
    /// An `error` object, with its code and message where present.
    Error { code: Option<i64>, message: Option<String> },
    /// A `result`; for a stream event, whether it ends the stream.
    Result { terminal: bool },
    /// Neither `result` nor `error`.
    Missing,
}

/// How a request waits for its response.
#[derive(Debug, Clone, Copy, PartialEq, Eq, Structural)]
pub enum PendingKind {
    /// One reply is awaited.
    Unary,
    /// Events are forwarded to the interface until a terminal one.
    Stream,
}

/// What to do with a line of the assistant's output.
#[derive(Debug, Clone, PartialEq, Eq)]
pub enum StdoutAction {
    /// Drop the line.
    Ignore,
    /// Report that the process is ready.
    SignalReady,
    /// Hand the result to the waiting request.
    ReplyResult,
    /// Hand an error to the waiting request.
    ReplyError(AiSidecarError),
    /// Forward the stream event; `keep_pending` when more events follow.
    EmitStream { keep_pending: bool },
    /// Forward an error event on the stream; the stream is over.
    EmitStreamError(AiSidecarError),
    /// A response for no waiting request.
    UnknownRequest,
    /// Pass the line on to the interface as a notification.
    Forward,
}

/// What to do with a line, given how its request (if any) was waiting; the
/// request is taken off the pending table before, and put back only when the
/// action says `keep_pending`.
pub fn decide_stdout_action(message: &StdoutMessage, pending: Option<PendingKind>) -> (r: StdoutAction)
    ensures
        *message is Invalid ==> r == StdoutAction::Ignore,
        *message is Ready ==> r == StdoutAction::SignalReady,
        *message is Notification ==> r == StdoutAction::Forward,
        *message is Response && pending is None ==> r == StdoutAction::UnknownRequest,
        *message is Response && pending == Some(PendingKind::Unary) ==> match message->body {
            ResponseBody::Error { code, message } => r matches StdoutAction::ReplyError(e)
                && is_rpc_error_of(e, code, opt_text(message)),
            ResponseBody::Result { terminal } => r == StdoutAction::ReplyResult,
            ResponseBody::Missing => r matches StdoutAction::ReplyError(e) && is_missing_body_error(e),
        },
        *message is Response && pending == Some(PendingKind::Stream) ==> match message->body {
            ResponseBody::Error { code, message } => r matches StdoutAction::EmitStreamError(e)
                && is_rpc_error_of(e, code, opt_text(message)),
            ResponseBody::Result { terminal } => r == StdoutAction::EmitStream { keep_pending: !terminal },
            ResponseBody::Missing => r matches StdoutAction::EmitStreamError(e) && is_missing_body_error(e),
        },
{
    match message {
        StdoutMessage::Invalid => StdoutAction::Ignore,
        StdoutMessage::Ready => StdoutAction::SignalReady,
        StdoutMessage::Notification => StdoutAction::Forward,
        StdoutMessage::Response { id: _, body } => match pending {
            None => StdoutAction::UnknownRequest,
            Some(PendingKind::Unary) => match body {
                ResponseBody::Error { code, message } => {
                    let text = match message {
                        Some(m) => Some(m.as_str()),
                        None => None,
                    };
                    StdoutAction::ReplyError(parse_rpc_error(*code, text))
                },
                ResponseBody::Result { terminal: _ } => StdoutAction::ReplyResult,
                ResponseBody::Missing => StdoutAction::ReplyError(
                    AiSidecarError::InvalidResponse(owned("missing result or error field")),
                ),
            },
            Some(PendingKind::Stream) => match body {
                ResponseBody::Error { code, message } => {
                    let text = match message {
                        Some(m) => Some(m.as_str()),
                        None => None,
                    };
                    StdoutAction::EmitStreamError(parse_rpc_error(*code, text))
                },
                ResponseBody::Result { terminal } => StdoutAction::EmitStream { keep_pending: !*terminal },
                ResponseBody::Missing => StdoutAction::EmitStreamError(
                    AiSidecarError::InvalidResponse(owned("missing result or error field")),
                ),
            },
        },
    }
}

/// Where the assistant process stands.
#[derive(Debug, Clone, Copy, PartialEq, Eq, Structural)]
pub enum AiSidecarPhase {
    /// No process.
    Idle,
    /// The process is being started, before it was spawned.
    Spawning,
    /// The process was spawned and its `ready` notification is awaited.
    AwaitingReady,
    /// The process is ready and answers requests.
    Running,
}

/// What happened to the assistant process.
#[derive(Debug)]
pub enum AiEvent {
    /// A start was asked for.
    StartRequested,
    /// The process could not be spawned.
    SpawnFailed(String),
    /// The process was spawned.
    Spawned,
    /// The process wrote its `ready` notification.
    Ready,
    /// No `ready` notification came in time.
    ReadyTimedOut,
    /// The reader ended before the `ready` notification was handed on.
    ReadySignalDropped,
    /// The process failed or terminated, for this reason.
    ProcessExited(String),
    /// The process's output ended without an exit event.
    OutputClosed,
}

/// What the caller does next.
#[derive(Debug)]
pub enum AiAction {
    /// Nothing.
    Nothing,
    /// Spawn the process and start reading its output.
    Spawn,
    /// Wait for the `ready` notification, at most the ready timeout.
    AwaitReady,
    /// Answer the start request with this outcome.
    ReplyStart(Result<(), AiSidecarError>),
    /// Stop the process, then answer the start request with this error.
    StopAndFailStart(AiSidecarError),
    /// Fail every pending request with `pending_error` and clear the
    /// process's state; answer a start still waiting for `ready` with
    /// `start_error`.
    FailPendingAndClear { pending_error: AiSidecarError, start_error: Option<AiSidecarError> },
}

/// Whether a process is there (being started, starting or running).
pub open spec fn has_runtime(p: AiSidecarPhase) -> bool {
    !(p is Idle)
}

/// The next phase of the assistant process and what to do, after `e` in
/// phase `p`.
pub fn ai_lifecycle_step(p: AiSidecarPhase, e: AiEvent) -> (r: (AiSidecarPhase, AiAction))
    ensures
        e is StartRequested && has_runtime(p) ==> r.0 == p && (r.1 matches AiAction::ReplyStart(Err(AiSidecarError::AlreadyRunning))),
        e is StartRequested && !has_runtime(p) ==> r.0 == AiSidecarPhase::Spawning && r.1 is Spawn,
        (e matches AiEvent::SpawnFailed(m) && p == AiSidecarPhase::Spawning) ==> r.0 == AiSidecarPhase::Idle
            && (r.1 matches AiAction::ReplyStart(Err(AiSidecarError::SpawnFailed(n))) && n@ == e->SpawnFailed_0@),
        (e is Spawned && p == AiSidecarPhase::Spawning) ==> r.0 == AiSidecarPhase::AwaitingReady && r.1 is AwaitReady,
        (e is Ready && p == AiSidecarPhase::AwaitingReady) ==> r.0 == AiSidecarPhase::Running && (r.1 matches AiAction::ReplyStart(Ok(()))),
        (e is ReadyTimedOut && p == AiSidecarPhase::AwaitingReady) ==> r.0 == AiSidecarPhase::Idle
            && (r.1 matches AiAction::StopAndFailStart(AiSidecarError::ReadyTimeout)),
        (e is ReadySignalDropped && p == AiSidecarPhase::AwaitingReady) ==> r.0 == AiSidecarPhase::Idle
            && (r.1 matches AiAction::StopAndFailStart(AiSidecarError::ReadySignalDropped)),
        (e matches AiEvent::ProcessExited(reason) && (p is AwaitingReady || p is Running)) ==> r.0 == AiSidecarPhase::Idle
            && (r.1 matches AiAction::FailPendingAndClear { pending_error: AiSidecarError::ProcessExited(m), start_error }
                && m@ == e->ProcessExited_0@
                && (p is AwaitingReady ==> (start_error matches Some(AiSidecarError::ProcessExited(n)) && n@ == e->ProcessExited_0@))
                && (p is Running ==> start_error is None)),
        (e is OutputClosed && (p is AwaitingReady || p is Running)) ==> r.0 == AiSidecarPhase::Idle
            && (r.1 matches AiAction::FailPendingAndClear { pending_error: AiSidecarError::ProcessExited(m), start_error }
                && m@ == "stdout channel closed"@
                && (p is AwaitingReady ==> (start_error matches Some(AiSidecarError::ReadySignalDropped)))
                && (p is Running ==> start_error is None)),
        !(e is StartRequested) && !(e is SpawnFailed && p == AiSidecarPhase::Spawning) && !(e is Spawned && p
            == AiSidecarPhase::Spawning) && !((e is Ready || e is ReadyTimedOut || e is ReadySignalDropped) && p
            == AiSidecarPhase::AwaitingReady) && !((e is ProcessExited || e is OutputClosed) && (p is AwaitingReady
            || p is Running)) ==> r.0 == p && r.1 is Nothing,
{
    match e {
        AiEvent::StartRequested => {
            if matches!(p, AiSidecarPhase::Idle) {
                (AiSidecarPhase::Spawning, AiAction::Spawn)
            } else {
                (p, AiAction::ReplyStart(Err(AiSidecarError::AlreadyRunning)))
            }
        },
        AiEvent::SpawnFailed(m) => {
            if matches!(p, AiSidecarPhase::Spawning) {
                (AiSidecarPhase::Idle, AiAction::ReplyStart(Err(AiSidecarError::SpawnFailed(m))))
            } else {
                (p, AiAction::Nothing)
            }
        },
        AiEvent::Spawned => {
            if matches!(p, AiSidecarPhase::Spawning) {
                (AiSidecarPhase::AwaitingReady, AiAction::AwaitReady)
            } else {
                (p, AiAction::Nothing)
            }
        },
        AiEvent::Ready => {
            if matches!(p, AiSidecarPhase::AwaitingReady) {
                (AiSidecarPhase::Running, AiAction::ReplyStart(Ok(())))
            } else {
                (p, AiAction::Nothing)
            }
        },
        AiEvent::ReadyTimedOut => {
            if matches!(p, AiSidecarPhase::AwaitingReady) {
                (AiSidecarPhase::Idle, AiAction::StopAndFailStart(AiSidecarError::ReadyTimeout))
            } else {
                (p, AiAction::Nothing)
            }
        },
        AiEvent::ReadySignalDropped => {
            if matches!(p, AiSidecarPhase::AwaitingReady) {
                (AiSidecarPhase::Idle, AiAction::StopAndFailStart(AiSidecarError::ReadySignalDropped))
            } else {
                (p, AiAction::Nothing)
            }
        },
        AiEvent::ProcessExited(reason) => {
            match p {
                AiSidecarPhase::AwaitingReady => {
                    let again = owned(reason.as_str());
                    (
                        AiSidecarPhase::Idle,
                        AiAction::FailPendingAndClear {
                            pending_error: AiSidecarError::ProcessExited(reason),
                            start_error: Some(AiSidecarError::ProcessExited(again)),
                        },
                    )
                },
                AiSidecarPhase::Running => (
                    AiSidecarPhase::Idle,
                    AiAction::FailPendingAndClear { pending_error: AiSidecarError::ProcessExited(reason), start_error: None },
                ),
                _ => (p, AiAction::Nothing),
            }
        },
        AiEvent::OutputClosed => {
            match p {
                AiSidecarPhase::AwaitingReady => (
                    AiSidecarPhase::Idle,
                    AiAction::FailPendingAndClear {
                        pending_error: AiSidecarError::ProcessExited(owned("stdout channel closed")),
                        start_error: Some(AiSidecarError::ReadySignalDropped),
                    },
                ),
                AiSidecarPhase::Running => (
                    AiSidecarPhase::Idle,
                    AiAction::FailPendingAndClear {
                        pending_error: AiSidecarError::ProcessExited(owned("stdout channel closed")),
                        start_error: None,
                    },
                ),
                _ => (p, AiAction::Nothing),
            }
        },
    }
}

/// What `i64::from_str` reads: an optional `+` or `-`, then at least one
/// ASCII digit, the value fitting in an `i64`.
pub open spec fn i64_from_text(s: Seq<char>) -> Option<i64> {
    let negative = s.len() > 0 && s[0] == '-';
    let signed = s.len() > 0 && (s[0] == '-' || s[0] == '+');
    let body = if signed { s.subrange(1, s.len() as int) } else { s };
    let v = if negative { -digits_value(body) } else { digits_value(body) };
    if body.len() > 0 && all_digits(body) && i64::MIN <= v <= i64::MAX {
        Some(v as i64)
    } else {
        None
    }
}

/// Calls `str::parse::<i64>`.
#[verifier::external_body]
fn parse_i64(text: &str) -> (r: Option<i64>)
    ensures
        r == i64_from_text(text@),
{
    text.parse::<i64>().ok()
}

/// The value under `key` of an object: its first entry of that name; none
/// for a missing key or a value that is not an object.
pub open spec fn field_of(v: ConfigValue, key: Seq<char>) -> Option<ConfigValue> {
    match v {
        ConfigValue::Object(entries) => match first_index(entries@, key) {
            Some(i) => Some(entries@[i].1),
            None => None,
        },
        _ => None,
    }
}

/// The text under `key`, when it is a string.
pub open spec fn text_field(v: ConfigValue, key: Seq<char>) -> Option<Seq<char>> {
    match field_of(v, key) {
        Some(ConfigValue::Text(t)) => Some(t@),
        _ => None,
    }
}

/// The integer under `key`, when it is a number that fits in an `i64`
/// (`serde_json::Value::as_i64` of the number written as its text).
pub open spec fn i64_field(v: ConfigValue, key: Seq<char>) -> Option<i64> {
    match field_of(v, key) {
        Some(ConfigValue::Number(n)) => i64_from_text(n@),
        _ => None,
    }
}

/// The request a response answers: its `id`, a string or a number's text.
pub open spec fn response_id(v: ConfigValue) -> Option<Seq<char>> {
    match field_of(v, "id"@) {
        Some(ConfigValue::Text(t)) => Some(t@),
        Some(ConfigValue::Number(n)) => Some(n@),
        _ => None,
    }
}

/// Whether `body` is what the response `v` carries: its error object (code
/// and message where present), else whether its result ends a stream, else
/// nothing.
pub open spec fn body_of(body: ResponseBody, v: ConfigValue) -> bool {
    match field_of(v, "error"@) {
        Some(e) => body matches ResponseBody::Error { code, message } && code == i64_field(e, "code"@)
            && opt_text(message) == text_field(e, "message"@),
        None => match field_of(v, "result"@) {
            Some(res) => body == ResponseBody::Result {
                terminal: text_field(res, "type"@) == Some("done"@) || text_field(res, "type"@) == Some("error"@),
            },
            None => body is Missing,
        },
    }
}

/// The value under `key` of an object.
fn field<'a>(v: &'a ConfigValue, key: &str) -> (r: Option<&'a ConfigValue>)
    ensures
        match r {
            Some(x) => field_of(*v, key@) == Some(*x),
            None => field_of(*v, key@) is None,
        },
{
    match v {
        ConfigValue::Object(entries) => match find_key(entries, key) {
            Some(i) => Some(&entries[i].1),
            None => None,
        },
        _ => None,
    }
}

/// The text under `key`, when it is a string.
fn text_of(v: &ConfigValue, key: &str) -> (r: Option<String>)
    ensures
        opt_text(r) == text_field(*v, key@),
{
    match field(v, key) {
        Some(ConfigValue::Text(t)) => Some(owned(t.as_str())),
        _ => None,
    }
}

/// Whether the text under `key` is `expected`.
fn text_is(v: &ConfigValue, key: &str, expected: &str) -> (r: bool)
    ensures
        r == (text_field(*v, key@) == Some(expected@)),
{
    match field(v, key) {
        Some(ConfigValue::Text(t)) => text_eq(t.as_str(), expected),
        _ => false,
    }
}

/// What a line of the assistant's output holds, from the line parsed as JSON
/// (`None` when it is not JSON): the `ready` notification, a response to the
/// request named by its `id` with its error, result or neither, or anything
/// else, which is passed on as a notification.
pub fn classify_stdout_payload(payload: Option<ConfigValue>) -> (r: StdoutMessage)
    ensures
        payload is None ==> r is Invalid,
        payload matches Some(v) ==> if text_field(v, "method"@) == Some("ready"@) {
            r is Ready
        } else {
            match response_id(v) {
                None => r is Notification,
                Some(id) => r matches StdoutMessage::Response { id: rid, body } && rid@ == id && body_of(body, v),
            }
        },
{
    proof {
        reveal_strlit("ready");
    }
    let v = match payload {
        None => return StdoutMessage::Invalid,
        Some(v) => v,
    };
    if text_is(&v, "method", "ready") {
        return StdoutMessage::Ready;
    }
    let id = match field(&v, "id") {
        Some(ConfigValue::Text(t)) => owned(t.as_str()),
        Some(ConfigValue::Number(n)) => owned(n.as_str()),
        _ => return StdoutMessage::Notification,
    };
    let body = match field(&v, "error") {
        Some(e) => {
            let code = match field(e, "code") {
                Some(ConfigValue::Number(n)) => parse_i64(n.as_str()),
                _ => None,
            };
            ResponseBody::Error { code, message: text_of(e, "message") }
        },
        None => match field(&v, "result") {
            Some(res) => ResponseBody::Result { terminal: text_is(res, "type", "done") || text_is(res, "type", "error") },
            None => ResponseBody::Missing,
        },
    };
    StdoutMessage::Response { id, body }
}

/// The value that `serde_json::from_slice::<serde_json::Value>` reads from
/// `bytes`, as the library's value (numbers kept as their text); none when
/// the bytes are not JSON.
pub uninterp spec fn json_value_of(bytes: Seq<u8>) -> Option<ConfigValue>;

/// Turns a `serde_json::Value` into the library's value, variant for
/// variant: a number becomes its text, arrays and objects keep their items.
#[verifier::external_body]
fn config_value_of_json(v: serde_json::Value) -> ConfigValue {
    match v {
        serde_json::Value::Null => ConfigValue::Null,
        serde_json::Value::Bool(b) => ConfigValue::Bool(b),
        serde_json::Value::Number(n) => ConfigValue::Number(n.to_string()),
        serde_json::Value::String(s) => ConfigValue::Text(s),
        serde_json::Value::Array(items) => ConfigValue::List(items.into_iter().map(config_value_of_json).collect()),
        serde_json::Value::Object(map) => ConfigValue::Object(map.into_iter().map(|(k, v)| (k, config_value_of_json(v))).collect()),
    }
}

/// Calls `serde_json::from_slice::<serde_json::Value>` on a line and converts
/// the value; none when the line is not JSON.
#[verifier::external_body]
fn parse_json_bytes(line: &[u8]) -> (r: Option<ConfigValue>)
    ensures
        r == json_value_of(line@),
{
    serde_json::from_slice::<serde_json::Value>(line).ok().map(config_value_of_json)
}

/// What a raw line of the assistant's output holds: the line is read as JSON
/// (`json_value_of`) and classified by `classify_stdout_payload`.
pub fn classify_stdout_line(line: &[u8]) -> (r: StdoutMessage)
    ensures
        json_value_of(line@) is None ==> r is Invalid,
        json_value_of(line@) matches Some(v) ==> if text_field(v, "method"@) == Some("ready"@) {
            r is Ready
        } else {
            match response_id(v) {
                None => r is Notification,
                Some(id) => r matches StdoutMessage::Response { id: rid, body } && rid@ == id && body_of(body, v),
            }
        },
{
    classify_stdout_payload(parse_json_bytes(line))
}

} // verus!
