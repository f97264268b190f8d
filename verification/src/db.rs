//! Shapes of the stored rows, the storage errors, and the checks made on
//! values before they reach a query.
use vstd::prelude::*;
use crate::text::{ascii_lower_text, concat, has_prefix, i64_text, int_text, owned, str_strip_prefix, str_to_ascii_lowercase, str_trim, text_eq, trim};

verus! {

/// Why a storage operation failed.
#[derive(Debug, Clone, PartialEq, Eq)]
pub enum DbError {
    NotLoaded(String),
    UnsupportedDriver(String),
    TransactionFailed(String),
    WriteFailed(String),
    InvalidTimeWindow(String),
    QueryFailed(String),
}

/// The message of a storage error.
pub open spec fn db_error_text(e: DbError) -> Seq<char> {
    match e {
        DbError::NotLoaded(s) => "数据库未加载: "@ + s@,
        DbError::UnsupportedDriver(s) => "不支持的数据库驱动: "@ + s@,
        DbError::TransactionFailed(s) => "数据库事务失败: "@ + s@,
        DbError::WriteFailed(s) => "数据库写入失败: "@ + s@,
        DbError::InvalidTimeWindow(s) => "时间窗口无效: "@ + s@,
        DbError::QueryFailed(s) => "数据库查询失败: "@ + s@,
    }
}

impl DbError {
    /// The message shown to the user.
    pub fn to_string(&self) -> (r: String)
        ensures
            r@ == db_error_text(*self),
    {
        match self {
            DbError::NotLoaded(s) => concat("数据库未加载: ", s.as_str()),
            DbError::UnsupportedDriver(s) => concat("不支持的数据库驱动: ", s.as_str()),
            DbError::TransactionFailed(s) => concat("数据库事务失败: ", s.as_str()),
            DbError::WriteFailed(s) => concat("数据库写入失败: ", s.as_str()),
            DbError::InvalidTimeWindow(s) => concat("时间窗口无效: ", s.as_str()),
            DbError::QueryFailed(s) => concat("数据库查询失败: ", s.as_str()),
        }
    }
}

/// Why a diagnosis could not be made.
#[derive(Debug, Clone, PartialEq, Eq)]
pub enum DiagnosisError {
    Database(DbError),
    InvalidTimeRange(String),
}

impl DiagnosisError {
    /// The message shown to the user.
    pub fn to_string(&self) -> (r: String)
        ensures
            r@ == match *self {
                DiagnosisError::Database(e) => db_error_text(e),
                DiagnosisError::InvalidTimeRange(s) => "诊断时间窗口无效: "@ + s@,
            },
    {
        match self {
            DiagnosisError::Database(e) => e.to_string(),
            DiagnosisError::InvalidTimeRange(s) => concat("诊断时间窗口无效: ", s.as_str()),
        }
    }
}

/// A diagnosis looks back over a positive number of minutes.
pub fn validate_time_range_minutes(time_range_minutes: i32) -> (r: Result<i32, DiagnosisError>)
    ensures
        time_range_minutes > 0 ==> r == Ok::<i32, DiagnosisError>(time_range_minutes),
        time_range_minutes <= 0 ==> (r matches Err(DiagnosisError::InvalidTimeRange(m)) && m@ == "time_range_minutes 必须大于 0"@),
{
    if time_range_minutes <= 0 {
        return Err(DiagnosisError::InvalidTimeRange(owned("time_range_minutes 必须大于 0")));
    }
    Ok(time_range_minutes)
}

/// What a full cleanup removed.
#[derive(Debug, Clone, PartialEq, Eq)]
pub struct CleanupReport {
    pub connections_deleted: usize,
    pub hourly_deleted: usize,
    pub domain_stats_deleted: usize,
    pub geoip_deleted: usize,
    pub executed_at: String,
}

/// The SQLite date modifier that reaches back `days` days.
pub open spec fn retention_text(days: int) -> Seq<char> {
    "-"@ + int_text(days) + " days"@
}

/// The SQLite date modifier `-<days> days`; a negative number of days is
/// refused.
pub fn retention_modifier(retention_days: i32) -> (r: Result<String, DbError>)
    ensures
        retention_days >= 0 ==> r is Ok && r->Ok_0@ == retention_text(retention_days as int),
        retention_days < 0 ==> (r matches Err(DbError::InvalidTimeWindow(m)) && m@ == "retention_days 不能为负数"@),
{
    if retention_days < 0 {
        return Err(DbError::InvalidTimeWindow(owned("retention_days 不能为负数")));
    }
    let head = concat("-", i64_text(retention_days as i64).as_str());
    Ok(concat(head.as_str(), " days"))
}

/// A look-back window in minutes must be positive; it is widened to `i64`.
pub fn validate_minutes(since_minutes: i32) -> (r: Result<i64, DbError>)
    ensures
        since_minutes > 0 ==> r == Ok::<i64, DbError>(since_minutes as i64),
        since_minutes <= 0 ==> (r matches Err(DbError::InvalidTimeWindow(m)) && m@ == "since_minutes 必须大于 0"@),
{
    if since_minutes <= 0 {
        return Err(DbError::InvalidTimeWindow(owned("since_minutes 必须大于 0")));
    }
    Ok(since_minutes as i64)
}

/// A node name is stored trimmed and must not be blank.
pub fn normalize_node_name(node_name: &str) -> (r: Result<String, DbError>)
    ensures
        trim(node_name@).len() > 0 ==> r is Ok && r->Ok_0@ == trim(node_name@),
        trim(node_name@).len() == 0 ==> (r matches Err(DbError::WriteFailed(m)) && m@ == "node_name 不能为空"@),
{
    let normalized = str_trim(node_name);
    if normalized.is_empty() {
        return Err(DbError::WriteFailed(owned("node_name 不能为空")));
    }
    Ok(owned(normalized))
}

/// A measured delay must not be negative; a missing one stays missing.
pub fn normalize_delay_ms(delay_ms: Option<i32>) -> (r: Result<Option<i32>, DbError>)
    ensures
        (delay_ms is Some && delay_ms->0 < 0) ==> (r matches Err(DbError::WriteFailed(m)) && m@ == "delay_ms 不能为负数"@),
        !(delay_ms is Some && delay_ms->0 < 0) ==> r == Ok::<Option<i32>, DbError>(delay_ms),
{
    match delay_ms {
        Some(value) => {
            if value < 0 {
                Err(DbError::WriteFailed(owned("delay_ms 不能为负数")))
            } else {
                Ok(Some(value))
            }
        },
        None => Ok(None),
    }
}

/// The position of the 95th percentile in `n` sorted samples: the
/// `ceil(n * 95 / 100)`-th sample, counted from one.
pub open spec fn p95_index(n: int) -> int {
    let rank = (n * 95 + 99) / 100;
    if rank == 0 {
        0
    } else {
        rank - 1
    }
}

/// The 95th percentile of delays sorted ascending, by the nearest-rank
/// method; none for no samples.
pub fn compute_p95_delay(delays: &[i32]) -> (r: Option<i32>)
    requires
        delays@.len() * 95 <= usize::MAX,
    ensures
        delays@.len() == 0 ==> r is None,
        delays@.len() > 0 ==> r == Some(delays@[p95_index(delays@.len() as int)]),
{
    if delays.len() == 0 {
        return None;
    }
    let scaled = delays.len() * 95;
    let rank = scaled / 100 + if scaled % 100 == 0 { 0 } else { 1 };
    let index = if rank == 0 { 0 } else { rank - 1 };
    proof {
        let n = delays@.len() as int;
        assert(rank == (n * 95 + 99) / 100) by (nonlinear_arith)
            requires
                scaled == n * 95,
                rank == scaled / 100 + if scaled % 100 == 0 { 0int } else { 1int },
        ;
        assert(index < n) by (nonlinear_arith)
            requires
                n >= 1,
                rank == (n * 95 + 99) / 100,
                index == if rank == 0 { 0int } else { rank - 1 },
        ;
    }
    Some(delays[index])
}

/// Bytes taken by the database file: pages times page size, refused when
/// the product does not fit.
pub fn db_size_bytes(page_count: i64, page_size: i64) -> (r: Result<i64, DbError>)
    ensures
        i64::MIN <= page_count * page_size <= i64::MAX ==> r == Ok::<i64, DbError>((page_count * page_size) as i64),
        !(i64::MIN <= page_count * page_size <= i64::MAX) ==> (r matches Err(DbError::QueryFailed(m)) && m@ == "计算数据库大小时发生溢出"@),
{
    match page_count.checked_mul(page_size) {
        Some(v) => Ok(v),
        None => Err(DbError::QueryFailed(owned("计算数据库大小时发生溢出"))),
    }
}

/// A stored error log row.
#[derive(Debug, Clone, PartialEq, Eq)]
pub struct ErrorLog {
    pub id: i64,
    pub category: String,
    pub proxy_node: Option<String>,
    pub host: Option<String>,
    pub rule: Option<String>,
    pub message: String,
    pub created_at: String,
}

/// Number of errors of one category.
#[derive(Debug, Clone, PartialEq, Eq)]
pub struct ErrorCategoryCount {
    pub category: String,
    pub count: i64,
}

/// Number of errors through one proxy node.
#[derive(Debug, Clone, PartialEq, Eq)]
pub struct ProxyErrorCount {
    pub proxy_node: String,
    pub count: i64,
}

/// A stored delay test of a node.
#[derive(Debug, Clone, PartialEq, Eq)]
pub struct NodeHealthSnapshot {
    pub id: i64,
    pub node_name: String,
    pub delay_ms: Option<i32>,
    pub success: bool,
    pub tested_at: String,
}

/// A delay test to store.
#[derive(Debug, Clone, PartialEq, Eq)]
pub struct NodeHealthInsert {
    pub node_name: String,
    pub delay_ms: Option<i32>,
    pub success: bool,
}

/// A delay test as it is written: the node name trimmed, the delay kept only
/// for a successful test, success as 1 or 0.
#[derive(Debug, Clone, PartialEq, Eq)]
pub struct PreparedNodeHealthInsert {
    pub node_name: String,
    pub delay_ms: Option<i32>,
    pub success: i64,
}

impl PreparedNodeHealthInsert {
    /// Checks and shapes a delay test for writing: a blank node name and a
    /// negative delay are refused, in that order.
    pub fn try_from_insert(value: &NodeHealthInsert) -> (r: Result<PreparedNodeHealthInsert, DbError>)
        ensures
            trim(value.node_name@).len() == 0 ==> (r matches Err(DbError::WriteFailed(m)) && m@ == "node_name 不能为空"@),
            trim(value.node_name@).len() > 0 && (value.delay_ms matches Some(d) && d < 0) ==> (r matches Err(
                DbError::WriteFailed(m),
            ) && m@ == "delay_ms 不能为负数"@),
            trim(value.node_name@).len() > 0 && !(value.delay_ms matches Some(d) && d < 0) ==> (r matches Ok(p) && {
                &&& p.node_name@ == trim(value.node_name@)
                &&& p.delay_ms == if value.success { value.delay_ms } else { None }
                &&& p.success == if value.success { 1int } else { 0int }
            }),
    {
        let node_name = match normalize_node_name(value.node_name.as_str()) {
            Ok(name) => name,
            Err(error) => return Err(error),
        };
        let delay_ms = match normalize_delay_ms(value.delay_ms) {
            Ok(delay) => delay,
            Err(error) => return Err(error),
        };
        Ok(PreparedNodeHealthInsert {
            node_name,
            delay_ms: if value.success { delay_ms } else { None },
            success: if value.success { 1 } else { 0 },
        })
    }
}

/// Access to the stored assistant conversation.
#[derive(Debug, Clone, Copy, PartialEq, Eq)]
pub struct ConversationRepo;

/// A stored message of the assistant conversation.
#[derive(Debug, Clone, PartialEq, Eq)]
pub struct ConversationMessage {
    pub id: i64,
    pub role: String,
    pub content: String,
    pub tool_calls: Option<String>,
    pub tokens_used: Option<i32>,
    pub model: Option<String>,
    pub created_at: String,
}

/// Access to the stored configuration snapshots.
#[derive(Debug, Clone, Copy, PartialEq, Eq)]
pub struct SnapshotRepo;

/// A stored copy of the proxy configuration.
#[derive(Debug, Clone, PartialEq, Eq)]
pub struct ConfigSnapshot {
    pub id: i64,
    pub content: String,
    pub source: String,
    pub description: Option<String>,
    pub file_path: Option<String>,
    pub created_at: String,
}

/// Why the database file could not be prepared at start-up.
#[derive(Debug, Clone, PartialEq, Eq)]
pub enum DbBootstrapError {
    InvalidDatabaseUrl(String),
    ResolveAppConfigDir(String),
    CreateDatabaseDir { path: String, source: String },
    Sqlite(String),
    UnexpectedJournalMode { actual: String },
}

/// The message of a start-up failure.
pub open spec fn bootstrap_error_text(e: DbBootstrapError) -> Seq<char> {
    match e {
        DbBootstrapError::InvalidDatabaseUrl(u) => "invalid sqlite database url: "@ + u@,
        DbBootstrapError::ResolveAppConfigDir(_) => "failed to resolve app config directory"@,
        DbBootstrapError::CreateDatabaseDir { path, .. } => "failed to create database directory at "@ + path@,
        DbBootstrapError::Sqlite(_) => "sqlite bootstrap failed"@,
        DbBootstrapError::UnexpectedJournalMode { actual } => "sqlite journal mode is "@ + actual@ + ", expected wal"@,
    }
}

impl DbBootstrapError {
    /// The message of the failure.
    pub fn to_string(&self) -> (r: String)
        ensures
            r@ == bootstrap_error_text(*self),
    {
        match self {
            DbBootstrapError::InvalidDatabaseUrl(u) => concat("invalid sqlite database url: ", u.as_str()),
            DbBootstrapError::ResolveAppConfigDir(_) => owned("failed to resolve app config directory"),
            DbBootstrapError::CreateDatabaseDir { path, .. } => concat("failed to create database directory at ", path.as_str()),
            DbBootstrapError::Sqlite(_) => owned("sqlite bootstrap failed"),
            DbBootstrapError::UnexpectedJournalMode { actual } => {
                let t = concat("sqlite journal mode is ", actual.as_str());
                concat(t.as_str(), ", expected wal")
            },
        }
    }
}

/// The database file's path below the configuration directory: what follows
/// `sqlite:` in the database URL; any other URL is refused.
pub fn database_relative_path(database_url: &str) -> (r: Result<String, DbBootstrapError>)
    ensures
        has_prefix(database_url@, "sqlite:"@) ==> (r matches Ok(p) && p@ == database_url@.skip(7)),
        !has_prefix(database_url@, "sqlite:"@) ==> (r matches Err(DbBootstrapError::InvalidDatabaseUrl(u)) && u@ == database_url@),
{
    proof {
        reveal_strlit("sqlite:");
    }
    match str_strip_prefix(database_url, "sqlite:") {
        Some(rest) => Ok(owned(rest)),
        None => Err(DbBootstrapError::InvalidDatabaseUrl(owned(database_url))),
    }
}

/// Accepts the journal mode the database reports when it is `wal`, in any
/// letter case.
pub fn check_journal_mode(actual: &str) -> (r: Result<(), DbBootstrapError>)
    ensures
        ascii_lower_text(actual@) == "wal"@ ==> r is Ok,
        ascii_lower_text(actual@) != "wal"@ ==> (r matches Err(DbBootstrapError::UnexpectedJournalMode { actual: a }) && a@
            == actual@),
{
    let lowered = str_to_ascii_lowercase(actual);
    if text_eq(lowered.as_str(), "wal") {
        Ok(())
    } else {
        Err(DbBootstrapError::UnexpectedJournalMode { actual: owned(actual) })
    }
}

} // verus!
