//! Assistant settings, reports and the errors of the assistant features.
use vstd::prelude::*;
use crate::db::{DbError, db_error_text};
use crate::sidecar::AiSidecarError;
use crate::document::{ConfigValue, find_key, first_index, holds_text, is_first_key, lemma_first_unique, set_text_entry, text_at};
use crate::stats::{DomainStat, RuleStat};
use crate::callback::opt_seq;
use crate::geo::{expand_command_home, is_command_tilde};
use crate::text::{concat, i64_text, int_text, lowercased, owned, replace_all, str_replace, str_to_lowercase, str_trim, text_eq, trim};

verus! {

#[verifier::external_type_specification]
#[verifier::external_body]
pub struct ExIoError(std::io::Error);

/// The model providers the assistant can talk to.
#[derive(Debug, Clone, Copy, PartialEq, Eq, Structural)]
pub enum AiProviderKind {
    Openai,
    OpenaiCompatible,
    Claude,
    Gemini,
}

impl AiProviderKind {
    /// The hosted providers need an API key.
    pub fn requires_api_key(&self) -> (r: bool)
        ensures
            r == (*self != AiProviderKind::OpenaiCompatible),
    {
        match self {
            AiProviderKind::OpenaiCompatible => false,
            _ => true,
        }
    }

    /// A compatible endpoint needs its base URL.
    pub fn requires_base_url(&self) -> (r: bool)
        ensures
            r == (*self == AiProviderKind::OpenaiCompatible),
    {
        match self {
            AiProviderKind::OpenaiCompatible => true,
            _ => false,
        }
    }
}

/// Who wrote a chat message.
#[derive(Debug, Clone, Copy, PartialEq, Eq, Structural)]
pub enum AiChatRole {
    User,
    Assistant,
    System,
}

impl AiChatRole {
    /// The role as stored and sent.
    pub fn as_str(&self) -> (r: &'static str)
        ensures
            r@ == match *self {
                AiChatRole::User => "user"@,
                AiChatRole::Assistant => "assistant"@,
                AiChatRole::System => "system"@,
            },
    {
        match self {
            AiChatRole::User => "user",
            AiChatRole::Assistant => "assistant",
            AiChatRole::System => "system",
        }
    }
}

/// What a model list request needs.
#[derive(Debug, Clone, PartialEq, Eq)]
pub struct AiModelCatalogSettings {
    pub provider: AiProviderKind,
    pub api_key: Option<String>,
    pub base_url: Option<String>,
}

/// The outcome of a connection test.
#[derive(Debug, Clone, PartialEq, Eq)]
pub struct AiConnectionTestResult {
    pub success: bool,
    pub latency_ms: u64,
    pub message: String,
}

/// Where a model list came from.
#[derive(Debug, Clone, Copy, PartialEq, Eq, Structural)]
pub enum AiModelCatalogSource {
    Remote,
    Fallback,
    Empty,
}

/// The models a provider offers.
#[derive(Debug, Clone, PartialEq, Eq)]
pub struct AiModelCatalog {
    pub models: Vec<String>,
    pub source: AiModelCatalogSource,
    pub message: String,
}

/// One chat message.
#[derive(Debug, Clone, PartialEq, Eq)]
pub struct AiChatMessage {
    pub role: AiChatRole,
    pub content: String,
}

/// A text that is kept only when it is not empty.
pub fn non_empty_string(value: &str) -> (r: Option<String>)
    ensures
        value@.len() == 0 ==> r is None,
        value@.len() > 0 ==> r is Some && r->0@ == value@,
{
    if value.is_empty() {
        None
    } else {
        Some(owned(value))
    }
}

/// The model list request for a provider: key and base URL only when set.
pub fn model_catalog_settings(provider: AiProviderKind, api_key: &str, base_url: &str) -> (r: AiModelCatalogSettings)
    ensures
        r.provider == provider,
        api_key@.len() == 0 ==> r.api_key is None,
        api_key@.len() > 0 ==> r.api_key is Some && r.api_key->0@ == api_key@,
        base_url@.len() == 0 ==> r.base_url is None,
        base_url@.len() > 0 ==> r.base_url is Some && r.base_url->0@ == base_url@,
{
    AiModelCatalogSettings { provider, api_key: non_empty_string(api_key), base_url: non_empty_string(base_url) }
}

/// A daily or a weekly report.
#[derive(Debug, Clone, Copy, PartialEq, Eq, Structural)]
pub enum ReportType {
    Daily,
    Weekly,
}

impl ReportType {
    /// How many domains and rules a report ranks.
    pub fn max_top_n_count(&self) -> (r: i32)
        ensures
            *self == ReportType::Daily ==> r == 5,
            *self == ReportType::Weekly ==> r == 10,
    {
        match self {
            ReportType::Daily => 5,
            ReportType::Weekly => 10,
        }
    }
}

/// The days a report covers, as `YYYY-MM-DD`, both included.
#[derive(Debug, Clone, PartialEq, Eq)]
pub struct ReportPeriod {
    pub start: String,
    pub end: String,
}

/// Traffic totals of a report.
#[derive(Debug, Clone, Copy, PartialEq, Eq, Structural)]
pub struct ReportTrafficSummary {
    pub upload: i64,
    pub download: i64,
}

/// A domain of a report ranking.
#[derive(Debug, Clone, PartialEq, Eq)]
pub struct ReportDomainStat {
    pub domain: String,
    pub traffic: i64,
}

/// A rule of a report ranking.
#[derive(Debug, Clone, PartialEq, Eq)]
pub struct ReportRuleStat {
    pub rule: String,
    pub hit_count: i64,
}

/// One day of a report's traffic trend.
#[derive(Debug, Clone, PartialEq, Eq)]
pub struct ReportDailyTrendPoint {
    pub date: String,
    pub upload: i64,
    pub download: i64,
    pub total_traffic: i64,
    pub conn_count: i64,
}

/// Why a configuration change was refused or failed.
#[derive(Debug, PartialEq, Eq)]
pub enum AiConfigChangeError {
    Database(DbError),
    ReadRuntimeFailed(String),
    ReadConfigFailed(String),
    WriteFailed(String),
    SerializeConversationFailed(String),
    InvalidOriginalConfig(String),
    StaleBase,
    SnapshotNotFound(i64),
    SnapshotPathMissing(i64),
    SnapshotPathMismatch { snapshot_id: i64, snapshot_path: String, active_path: String },
    ReloadFailedRolledBack(String),
    ReloadFailedRollbackFailed { reload_error: String, rollback_error: String },
}

/// The message of a configuration change failure.
pub open spec fn config_change_error_text(e: AiConfigChangeError) -> Seq<char> {
    match e {
        AiConfigChangeError::Database(d) => db_error_text(d),
        AiConfigChangeError::ReadRuntimeFailed(s) => "读取当前运行配置失败: "@ + s@,
        AiConfigChangeError::ReadConfigFailed(s) => "读取配置文件失败: "@ + s@,
        AiConfigChangeError::WriteFailed(s) => "写入配置失败: "@ + s@,
        AiConfigChangeError::SerializeConversationFailed(s) => "序列化对话工具调用失败: "@ + s@,
        AiConfigChangeError::InvalidOriginalConfig(s) => "解析 AI 变更基线失败: "@ + s@,
        AiConfigChangeError::StaleBase => "当前运行配置已经发生变化，请重新生成 Diff 后再试"@,
        AiConfigChangeError::SnapshotNotFound(id) => "找不到配置快照 #"@ + int_text(id as int),
        AiConfigChangeError::SnapshotPathMissing(id) => "配置快照 #"@ + int_text(id as int) + " 缺少原始文件路径，无法安全恢复"@,
        AiConfigChangeError::SnapshotPathMismatch { snapshot_id, snapshot_path, active_path } => "配置快照 #"@ + int_text(
            snapshot_id as int,
        ) + " 属于 "@ + snapshot_path@ + "，当前活动配置为 "@ + active_path@ + "，拒绝跨配置文件恢复"@,
        AiConfigChangeError::ReloadFailedRolledBack(s) => "热重载失败，已自动回滚: "@ + s@,
        AiConfigChangeError::ReloadFailedRollbackFailed { reload_error, rollback_error } => "热重载失败，且回滚失败: "@
            + reload_error@ + "; 回滚失败: "@ + rollback_error@,
    }
}

impl AiConfigChangeError {
    /// The message shown to the user.
    pub fn to_string(&self) -> (r: String)
        ensures
            r@ == config_change_error_text(*self),
    {
        match self {
            AiConfigChangeError::Database(d) => d.to_string(),
            AiConfigChangeError::ReadRuntimeFailed(s) => concat("读取当前运行配置失败: ", s.as_str()),
            AiConfigChangeError::ReadConfigFailed(s) => concat("读取配置文件失败: ", s.as_str()),
            AiConfigChangeError::WriteFailed(s) => concat("写入配置失败: ", s.as_str()),
            AiConfigChangeError::SerializeConversationFailed(s) => concat("序列化对话工具调用失败: ", s.as_str()),
            AiConfigChangeError::InvalidOriginalConfig(s) => concat("解析 AI 变更基线失败: ", s.as_str()),
            AiConfigChangeError::StaleBase => owned("当前运行配置已经发生变化，请重新生成 Diff 后再试"),
            AiConfigChangeError::SnapshotNotFound(id) => concat("找不到配置快照 #", i64_text(*id).as_str()),
            AiConfigChangeError::SnapshotPathMissing(id) => {
                let t = concat("配置快照 #", i64_text(*id).as_str());
                concat(t.as_str(), " 缺少原始文件路径，无法安全恢复")
            },
            AiConfigChangeError::SnapshotPathMismatch { snapshot_id, snapshot_path, active_path } => {
                let t = concat("配置快照 #", i64_text(*snapshot_id).as_str());
                let t = concat(t.as_str(), " 属于 ");
                let t = concat(t.as_str(), snapshot_path.as_str());
                let t = concat(t.as_str(), "，当前活动配置为 ");
                let t = concat(t.as_str(), active_path.as_str());
                concat(t.as_str(), "，拒绝跨配置文件恢复")
            },
            AiConfigChangeError::ReloadFailedRolledBack(s) => concat("热重载失败，已自动回滚: ", s.as_str()),
            AiConfigChangeError::ReloadFailedRollbackFailed { reload_error, rollback_error } => {
                let t = concat("热重载失败，且回滚失败: ", reload_error.as_str());
                let t = concat(t.as_str(), "; 回滚失败: ");
                concat(t.as_str(), rollback_error.as_str())
            },
        }
    }
}

/// Why a report could not be made.
#[derive(Debug)]
pub enum AiReportError {
    Database(DbError),
    Sidecar(AiSidecarError),
    InvalidDate(String),
    InvalidParams(String),
    InvalidResult(String),
}

impl AiReportError {
    /// The message shown to the user.
    pub fn to_string(&self) -> (r: String)
        ensures
            self is Database ==> r@ == db_error_text(self->Database_0),
            self is InvalidDate ==> r@ == "报告日期无效: "@ + self->InvalidDate_0@,
            self is InvalidParams ==> r@ == "报告参数无效: "@ + self->InvalidParams_0@,
            self is InvalidResult ==> r@ == "报告结果无效: "@ + self->InvalidResult_0@,
    {
        match self {
            AiReportError::Database(e) => e.to_string(),
            AiReportError::Sidecar(e) => e.to_string(),
            AiReportError::InvalidDate(s) => concat("报告日期无效: ", s.as_str()),
            AiReportError::InvalidParams(s) => concat("报告参数无效: ", s.as_str()),
            AiReportError::InvalidResult(s) => concat("报告结果无效: ", s.as_str()),
        }
    }
}

/// Why the assistant settings could not be read, stored or used.
#[derive(Debug)]
pub enum AiSettingsError {
    ResolveAppDataDir(String),
    NotFound { path: String },
    CreateDir { path: String, source: std::io::Error },
    ReadFile { path: String, source: std::io::Error },
    WriteFile { path: String, source: std::io::Error },
    Serialize(String),
    InvalidSettings(String),
    InvalidConnectionTest(String),
    InvalidModelCatalog(String),
    Sidecar(AiSidecarError),
}

/// The complaint about a setting that a provider request lacks, if any: a
/// model, then an API key for the hosted providers, then a base URL for a
/// compatible endpoint.
pub open spec fn missing_setting(provider: AiProviderKind, model: Seq<char>, api_key: Seq<char>, base_url: Seq<char>) -> Option<Seq<char>> {
    if model.len() == 0 {
        Some("AI 模型不能为空"@)
    } else if provider != AiProviderKind::OpenaiCompatible && api_key.len() == 0 {
        Some("当前 Provider 需要 API Key"@)
    } else if provider == AiProviderKind::OpenaiCompatible && base_url.len() == 0 {
        Some("当前 Provider 需要 Base URL"@)
    } else {
        None
    }
}

/// Checks that the settings are enough to call the provider.
pub fn validate_provider_request(provider: AiProviderKind, model: &str, api_key: &str, base_url: &str) -> (r: Result<(), AiSettingsError>)
    ensures
        missing_setting(provider, model@, api_key@, base_url@) is None ==> r is Ok,
        missing_setting(provider, model@, api_key@, base_url@) matches Some(m) ==> (r matches Err(
            AiSettingsError::InvalidSettings(t),
        ) && t@ == m),
{
    if model.is_empty() {
        return Err(AiSettingsError::InvalidSettings(owned("AI 模型不能为空")));
    }
    if provider.requires_api_key() && api_key.is_empty() {
        return Err(AiSettingsError::InvalidSettings(owned("当前 Provider 需要 API Key")));
    }
    if provider.requires_base_url() && base_url.is_empty() {
        return Err(AiSettingsError::InvalidSettings(owned("当前 Provider 需要 Base URL")));
    }
    Ok(())
}

/// The base URL that settings saved for the retired `deepseek` provider
/// are moved to.
pub const LEGACY_DEEPSEEK_BASE_URL: &'static str = "https://api.deepseek.com/v1";

/// The base URL that settings saved for the retired `ollama` provider are
/// moved to.
pub const LEGACY_OLLAMA_OPENAI_BASE_URL: &'static str = "http://127.0.0.1:11434/v1";

/// The base URL a retired provider name stands for.
pub open spec fn legacy_base_url(provider: Seq<char>) -> Option<Seq<char>> {
    if provider == "deepseek"@ {
        Some(LEGACY_DEEPSEEK_BASE_URL@)
    } else if provider == "ollama"@ {
        Some(LEGACY_OLLAMA_OPENAI_BASE_URL@)
    } else {
        None
    }
}

/// The base URL a retired provider name stands for.
pub fn legacy_fallback_base_url(provider: &str) -> (r: Option<&'static str>)
    ensures
        r matches Some(u) ==> legacy_base_url(provider@) == Some(u@),
        r is None ==> legacy_base_url(provider@) is None,
{
    if text_eq(provider, "deepseek") {
        Some(LEGACY_DEEPSEEK_BASE_URL)
    } else if text_eq(provider, "ollama") {
        Some(LEGACY_OLLAMA_OPENAI_BASE_URL)
    } else {
        None
    }
}

/// `after` is the settings entries `before`, whose provider is a retired
/// one standing for base URL `fallback`, with the provider set to
/// `openai_compatible` in place and, when no non-blank base URL text is
/// stored, the base URL set to `fallback` (in place, or appended).
pub open spec fn migrated_entries(before: Seq<(String, ConfigValue)>, after: Seq<(String, ConfigValue)>, fallback: Seq<char>) -> bool {
    let p = first_index(before, "provider"@)->0;
    let has_base = text_at(before, "baseUrl"@) matches Some(u) && trim(u).len() > 0;
    &&& holds_text(after, p, "provider"@, "openai_compatible"@)
    &&& if has_base {
        &&& after.len() == before.len()
        &&& forall|j: int| 0 <= j < before.len() && j != p ==> #[trigger] after[j] == before[j]
    } else {
        match first_index(before, "baseUrl"@) {
            Some(b) => {
                &&& after.len() == before.len()
                &&& holds_text(after, b, "baseUrl"@, fallback)
                &&& forall|j: int| 0 <= j < before.len() && j != p && j != b ==> #[trigger] after[j] == before[j]
            },
            None => {
                &&& after.len() == before.len() + 1
                &&& holds_text(after, before.len() as int, "baseUrl"@, fallback)
                &&& forall|j: int| 0 <= j < before.len() && j != p ==> #[trigger] after[j] == before[j]
            },
        }
    }
}

/// What the settings migration makes of a stored settings value: an object
/// whose provider text is a retired provider is migrated; anything else is
/// kept as it is.
pub open spec fn migrates(before: ConfigValue, after: ConfigValue) -> bool {
    match before {
        ConfigValue::Object(e) => match text_at(e@, "provider"@) {
            Some(p) => match legacy_base_url(p) {
                Some(fallback) => after matches ConfigValue::Object(o) && migrated_entries(e@, o@, fallback),
                None => after == before,
            },
            None => after == before,
        },
        _ => after == before,
    }
}

/// Changing one entry whose name differs from `key` leaves the first entry
/// named `key` where it was.
proof fn lemma_first_index_kept(before: Seq<(String, ConfigValue)>, after: Seq<(String, ConfigValue)>, p: int, key: Seq<char>)
    requires
        0 <= p < before.len(),
        after.len() == before.len(),
        before[p].0@ != key,
        after[p].0@ != key,
        forall|j: int| 0 <= j < before.len() && j != p ==> #[trigger] after[j] == before[j],
    ensures
        first_index(after, key) == first_index(before, key),
        text_at(after, key) == text_at(before, key),
{
    assert forall|i: int| is_first_key(after, key, i) <==> is_first_key(before, key, i) by {
        if is_first_key(after, key, i) {
            assert forall|j: int| 0 <= j < i implies (#[trigger] before[j]).0@ != key by {
                if j != p {
                    assert(after[j] == before[j]);
                }
                assert(after[j].0@ != key);
            }
        }
        if is_first_key(before, key, i) {
            assert forall|j: int| 0 <= j < i implies (#[trigger] after[j]).0@ != key by {
                if j != p {
                    assert(after[j] == before[j]);
                }
                assert(before[j].0@ != key);
            }
        }
    }
    if exists|i: int| is_first_key(before, key, i) {
        let i = choose|i: int| is_first_key(before, key, i);
        assert(is_first_key(after, key, i));
        assert(after[i] == before[i]);
    }
}

fn migrated_value(value: ConfigValue) -> (r: ConfigValue)
    ensures
        migrates(value, r),
{
    match value {
        ConfigValue::Object(entries) => {
            let mut entries = entries;
            let ghost before = entries@;
            let fallback = match find_key(&entries, "provider") {
                Some(i) => match &entries[i].1 {
                    ConfigValue::Text(t) => legacy_fallback_base_url(t.as_str()),
                    _ => None,
                },
                None => None,
            };
            match fallback {
                None => ConfigValue::Object(entries),
                Some(fallback) => {
                    let ghost p = first_index(before, "provider"@)->0;
                    set_text_entry(&mut entries, "provider", "openai_compatible");
                    let ghost mid = entries@;
                    proof {
                        assert(before[p].0@ == "provider"@);
                        assert(mid[p].0@ == "provider"@);
                        proof_provider_is_not_base_url();
                        lemma_first_index_kept(before, mid, p, "baseUrl"@);
                    }
                    let has_base = match find_key(&entries, "baseUrl") {
                        Some(i) => match &entries[i].1 {
                            ConfigValue::Text(t) => !str_trim(t.as_str()).is_empty(),
                            _ => false,
                        },
                        None => false,
                    };
                    if !has_base {
                        set_text_entry(&mut entries, "baseUrl", fallback);
                    }
                    ConfigValue::Object(entries)
                },
            }
        },
        other => other,
    }
}

/// Moves settings saved for a retired provider to the `openai_compatible`
/// provider, filling in the retired provider's base URL when none is set.
pub fn migrate_legacy_provider_value(settings_value: &mut ConfigValue)
    ensures
        migrates(*old(settings_value), *final(settings_value)),
{
    let mut taken = ConfigValue::Null;
    std::mem::swap(&mut taken, settings_value);
    *settings_value = migrated_value(taken);
}

/// The description of the backup taken before an assistant's change is
/// applied.
pub const AI_SNAPSHOT_DESCRIPTION: &'static str = "AI 配置变更前自动备份";

/// The description of a snapshot taken by hand without one.
pub const DEFAULT_MANUAL_SNAPSHOT_DESCRIPTION: &'static str = "手动快照";

/// A configuration text with Windows line endings turned into `\n`.
pub fn normalize_line_endings(value: &str) -> (r: String)
    ensures
        r@ == replace_all(value@, "\r\n"@, "\n"@),
{
    proof {
        reveal_strlit("\r\n");
    }
    str_replace(value, "\r\n", "\n")
}

/// `std::path::MAIN_SEPARATOR`: `\\` on Windows, `/` elsewhere.
#[verifier::external_body]
fn main_separator() -> (r: char)
    ensures
        r == '/' || r == '\\',
{
    std::path::MAIN_SEPARATOR
}

/// Whether this platform compares paths without regard to letter case: it
/// does on Windows, whose paths are separated by backslashes.
pub fn platform_folds_path_case() -> bool {
    main_separator() == '\\'
}

/// The form in which two configuration paths are compared: backslashes read
/// as slashes, and the whole lower-cased where the platform folds case.
pub open spec fn path_key(path: Seq<char>, fold_case: bool) -> Seq<char> {
    if fold_case {
        lowercased(replace_all(path, "\\"@, "/"@))
    } else {
        replace_all(path, "\\"@, "/"@)
    }
}

/// The form in which two configuration paths are compared, on a platform
/// that folds letter case (`fold_case`) or not.
pub fn normalized_path_key(path: &str, fold_case: bool) -> (r: String)
    ensures
        r@ == path_key(path@, fold_case),
{
    proof {
        reveal_strlit("\\");
    }
    let slashed = str_replace(path, "\\", "/");
    if fold_case {
        str_to_lowercase(slashed.as_str())
    } else {
        slashed
    }
}

/// The description of the backup taken before snapshot `id` is restored.
pub fn restore_backup_description(id: i64) -> (r: String)
    ensures
        r@ == "恢复快照前自动备份 #"@ + int_text(id as int),
{
    concat("恢复快照前自动备份 #", i64_text(id).as_str())
}

/// The description a hand-made snapshot is stored with: the given one,
/// trimmed, or the default when none or a blank one is given.
pub fn manual_snapshot_description(description: Option<&str>) -> (r: String)
    ensures
        description matches Some(d) && trim(d@).len() > 0 ==> r@ == trim(description->0@),
        !(description matches Some(d) && trim(d@).len() > 0) ==> r@ == DEFAULT_MANUAL_SNAPSHOT_DESCRIPTION@,
{
    match description {
        Some(d) => {
            let t = str_trim(d);
            if t.is_empty() {
                owned(DEFAULT_MANUAL_SNAPSHOT_DESCRIPTION)
            } else {
                owned(t)
            }
        },
        None => owned(DEFAULT_MANUAL_SNAPSHOT_DESCRIPTION),
    }
}

/// The file a snapshot is asked for: the given path, trimmed, when it is not
/// blank; none when the active configuration file is meant.
pub fn requested_snapshot_path(file_path: Option<&str>) -> (r: Option<String>)
    ensures
        file_path matches Some(f) && trim(f@).len() > 0 ==> (r matches Some(p) && p@ == trim(file_path->0@)),
        !(file_path matches Some(f) && trim(f@).len() > 0) ==> r is None,
{
    match file_path {
        Some(f) => {
            let t = str_trim(f);
            if t.is_empty() {
                None
            } else {
                Some(owned(t))
            }
        },
        None => None,
    }
}

/// Whether `r` is what checking snapshot `id`, whose stored file is
/// `snapshot_path` (with a leading `~` already expanded), against the active
/// configuration file `active` gives, on a platform that folds letter case
/// (`fold_case`) or not: the snapshot must name a file, and it must be the
/// active one when both are taken by `path_key`.
pub open spec fn snapshot_path_outcome(r: Result<(), AiConfigChangeError>, id: i64, snapshot_path: Option<Seq<char>>, active: Seq<char>, fold_case: bool) -> bool {
    match snapshot_path {
        None => r == Err::<(), AiConfigChangeError>(AiConfigChangeError::SnapshotPathMissing(id)),
        Some(p) => if path_key(p, fold_case) == path_key(active, fold_case) {
            r is Ok
        } else {
            r matches Err(AiConfigChangeError::SnapshotPathMismatch { snapshot_id, snapshot_path, active_path })
                && snapshot_id == id && snapshot_path@ == p && active_path@ == active
        },
    }
}

/// Checks that snapshot `id` was taken of the active configuration file on a
/// platform that folds letter case (`fold_case`) or not; `snapshot_path` is
/// the file it stored, with a leading `~` expanded.
pub fn validate_snapshot_path_on(id: i64, snapshot_path: Option<&str>, active_config_file: &str, fold_case: bool) -> (r: Result<(), AiConfigChangeError>)
    ensures
        snapshot_path_outcome(r, id, opt_seq(snapshot_path), active_config_file@, fold_case),
{
    match snapshot_path {
        None => Err(AiConfigChangeError::SnapshotPathMissing(id)),
        Some(p) => {
            let left = normalized_path_key(p, fold_case);
            let right = normalized_path_key(active_config_file, fold_case);
            if text_eq(left.as_str(), right.as_str()) {
                Ok(())
            } else {
                Err(AiConfigChangeError::SnapshotPathMismatch {
                    snapshot_id: id,
                    snapshot_path: owned(p),
                    active_path: owned(active_config_file),
                })
            }
        },
    }
}

/// Checks that snapshot `id`, whose stored file is `stored` as saved, was
/// taken of the active configuration file `active_config_file`: the stored
/// path has its leading `~/` or `~\\` put under the home directory `home`
/// (`expand_command_home`) and is then compared as `validate_snapshot_path_on`
/// compares, on a platform that folds letter case (`fold_case`) or not.
pub fn validate_stored_snapshot_path(id: i64, stored: Option<&str>, active_config_file: &str, home: Option<&str>, fold_case: bool) -> (r: Result<(), AiConfigChangeError>)
    requires
        stored matches Some(p) ==> !(p@ == "~"@ && home is Some),
    ensures
        exists|expanded: Option<Seq<char>>| #![trigger snapshot_path_outcome(r, id, expanded, active_config_file@, fold_case)]
            (stored is None <==> expanded is None) && (stored is Some && !(is_command_tilde(stored->0@) && home is Some)
            ==> expanded == Some(stored->0@)) && snapshot_path_outcome(r, id, expanded, active_config_file@, fold_case),
{
    match stored {
        None => {
            let r = validate_snapshot_path_on(id, None, active_config_file, fold_case);
            assert(snapshot_path_outcome(r, id, None, active_config_file@, fold_case));
            r
        },
        Some(p) => {
            let expanded = expand_command_home(p, home);
            let r = validate_snapshot_path_on(id, Some(expanded.as_str()), active_config_file, fold_case);
            assert(snapshot_path_outcome(r, id, Some(expanded@), active_config_file@, fold_case));
            r
        },
    }
}

/// Checks that snapshot `id` was taken of the active configuration file,
/// comparing paths as this platform does (`platform_folds_path_case`).
pub fn validate_snapshot_path(id: i64, snapshot_path: Option<&str>, active_config_file: &str) -> (r: Result<(), AiConfigChangeError>)
    ensures
        exists|fold_case: bool| snapshot_path_outcome(r, id, opt_seq(snapshot_path), active_config_file@, fold_case),
{
    let fold_case = platform_folds_path_case();
    let r = validate_snapshot_path_on(id, snapshot_path, active_config_file, fold_case);
    assert(snapshot_path_outcome(r, id, opt_seq(snapshot_path), active_config_file@, fold_case));
    r
}

/// The domains of a report, in the order given, each with its upload and
/// download added up.
pub fn report_top_domains(rows: &Vec<DomainStat>) -> (r: Vec<ReportDomainStat>)
    requires
        forall|i: int| 0 <= i < rows@.len() ==> i64::MIN <= (#[trigger] rows@[i]).upload + rows@[i].download <= i64::MAX,
    ensures
        r@.len() == rows@.len(),
        forall|i: int| #![trigger r@[i]] 0 <= i < rows@.len() ==> r@[i].domain@ == rows@[i].domain@ && r@[i].traffic
            == rows@[i].upload + rows@[i].download,
{
    let mut out: Vec<ReportDomainStat> = Vec::new();
    let mut i: usize = 0;
    while i < rows.len()
        invariant
            i <= rows@.len(),
            out@.len() == i,
            forall|k: int| 0 <= k < rows@.len() ==> i64::MIN <= (#[trigger] rows@[k]).upload + rows@[k].download <= i64::MAX,
            forall|k: int| #![trigger out@[k]] 0 <= k < i ==> out@[k].domain@ == rows@[k].domain@ && out@[k].traffic
                == rows@[k].upload + rows@[k].download,
        decreases rows@.len() - i,
    {
        let row = &rows[i];
        out.push(ReportDomainStat { domain: row.domain.clone(), traffic: row.upload + row.download });
        i = i + 1;
    }
    out
}

/// The rules of a report, in the order given, with their hit counts.
pub fn report_top_rules(rows: &Vec<RuleStat>) -> (r: Vec<ReportRuleStat>)
    ensures
        r@.len() == rows@.len(),
        forall|i: int| #![trigger r@[i]] 0 <= i < rows@.len() ==> r@[i].rule@ == rows@[i].rule@ && r@[i].hit_count
            == rows@[i].hit_count,
{
    let mut out: Vec<ReportRuleStat> = Vec::new();
    let mut i: usize = 0;
    while i < rows.len()
        invariant
            i <= rows@.len(),
            out@.len() == i,
            forall|k: int| #![trigger out@[k]] 0 <= k < i ==> out@[k].rule@ == rows@[k].rule@ && out@[k].hit_count
                == rows@[k].hit_count,
        decreases rows@.len() - i,
    {
        let row = &rows[i];
        out.push(ReportRuleStat { rule: row.rule.clone(), hit_count: row.hit_count });
        i = i + 1;
    }
    out
}

/// Migrating stored settings a second time changes nothing: a migrated
/// value names a current provider.
pub proof fn lemma_migration_idempotent(a: ConfigValue, b: ConfigValue, c: ConfigValue)
    requires
        migrates(a, b),
        migrates(b, c),
    ensures
        c == b,
{
    if let ConfigValue::Object(e) = a {
        if let Some(p) = text_at(e@, "provider"@) {
            if let Some(fallback) = legacy_base_url(p) {
                let o = b->Object_0;
                let before = e@;
                let after = o@;
                let pi = first_index(before, "provider"@)->0;
                let ci = choose|i: int| is_first_key(before, "provider"@, i);
                assert(is_first_key(before, "provider"@, ci));
                assert(pi == ci);
                assert forall|j: int| 0 <= j < pi implies (#[trigger] after[j]).0@ != "provider"@ by {
                    assert(before[j].0@ != "provider"@);
                    if after[j] != before[j] {
                        assert(after[j].0@ == "baseUrl"@);
                        proof_provider_is_not_base_url();
                    }
                }
                assert(is_first_key(after, "provider"@, pi));
                let ai = choose|i: int| is_first_key(after, "provider"@, i);
                lemma_first_unique(after, "provider"@, pi, ai);
                assert(text_at(after, "provider"@) == Some("openai_compatible"@));
                proof_openai_compatible_is_current();
            }
        }
    }
}

proof fn proof_provider_is_not_base_url()
    ensures
        "provider"@ != "baseUrl"@,
{
    reveal_strlit("provider");
    reveal_strlit("baseUrl");
    assert("provider"@[0] != "baseUrl"@[0]);
}

proof fn proof_openai_compatible_is_current()
    ensures
        legacy_base_url("openai_compatible"@) is None,
{
    reveal_strlit("openai_compatible");
    reveal_strlit("deepseek");
    reveal_strlit("ollama");
    assert("openai_compatible"@.len() != "deepseek"@.len());
    assert("openai_compatible"@.len() != "ollama"@.len());
}

/// Whether a chat request may be sent: it has messages, and its model is not
/// blank.
pub fn check_chat_request(message_count: usize, model: &str) -> (r: Result<(), AiSidecarError>)
    ensures
        message_count == 0 ==> (r matches Err(AiSidecarError::InvalidResponse(m)) && m@
            == "chat messages must not be empty"@),
        message_count > 0 && trim(model@).len() == 0 ==> (r matches Err(AiSidecarError::InvalidResponse(m)) && m@
            == "chat model must not be empty"@),
        message_count > 0 && trim(model@).len() > 0 ==> r is Ok,
{
    if message_count == 0 {
        return Err(AiSidecarError::InvalidResponse(owned("chat messages must not be empty")));
    }
    if str_trim(model).is_empty() {
        return Err(AiSidecarError::InvalidResponse(owned("chat model must not be empty")));
    }
    Ok(())
}

/// Whether a report may be asked for with this model: it must not be blank.
pub fn check_report_model(model: &str) -> (r: Result<(), AiReportError>)
    ensures
        trim(model@).len() == 0 ==> (r matches Err(AiReportError::InvalidParams(m)) && m@
            == "report model must not be empty"@),
        trim(model@).len() > 0 ==> r is Ok,
{
    if str_trim(model).is_empty() {
        return Err(AiReportError::InvalidParams(owned("report model must not be empty")));
    }
    Ok(())
}

} // verus!
