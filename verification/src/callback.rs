//! The tool calls that the assistant makes back into the application: which
//! ones exist, how their parameters are bounded, and how the answers that
//! need no outside data are put together.
use vstd::prelude::*;
use vstd::string::StrSliceExecFns;
use crate::sidecar::AiSidecarError;
use crate::document::{ConfigValue, build_sanitized_config_response, sanitized_answer};
use crate::table::{Keyed, distinct_keys, drawn_from, holds_prefix, keys_ascending, sorted_by_key};
use crate::text::{ascii_lower, concat, i64_text, int_text, owned, u64_text, str_to_ascii_lowercase, str_trim, text_eq, trim};

verus! {

/// The URL a delay test fetches.
pub const DEFAULT_DELAY_TEST_URL: &'static str = "http://www.gstatic.com/generate_204";

/// How long a delay test may take, in milliseconds.
pub const DEFAULT_DELAY_TEST_TIMEOUT_MS: u32 = 5000;

/// How many rules the rule statistics list.
pub const DEFAULT_RULE_STATS_LIMIT: i32 = 20;

/// What the recent-errors answer says of where its issues come from.
pub const RECENT_ERRORS_NOTE: &'static str = "当前版本没有独立的持久化错误日志；此结果基于即时运行时健康检查生成。";

/// The value that stands for a hidden secret.
pub const REDACTED_VALUE: &'static str = "<redacted>";

/// The calls the assistant may make.
#[derive(Debug, Clone, Copy, PartialEq, Eq, Structural)]
pub enum CallbackMethod {
    GetConfig,
    GetConfigFile,
    ReadActiveConfigFile,
    ReadActiveRuntimeConfig,
    GetProxies,
    TestDelay,
    GetStatsOverview,
    GetDomainStats,
    GetTrafficTrend,
    CheckConnectivity,
    GetRecentErrors,
    GetRuleStats,
    GetReportStats,
    GetDiagnosisSummary,
    DetectAnomalies,
    RunFullDiagnosis,
}

/// The name under which the assistant asks for a call.
pub open spec fn method_name(m: CallbackMethod) -> Seq<char> {
    match m {
        CallbackMethod::GetConfig => "get_config"@,
        CallbackMethod::GetConfigFile => "get_config_file"@,
        CallbackMethod::ReadActiveConfigFile => "read_active_config_file"@,
        CallbackMethod::ReadActiveRuntimeConfig => "read_active_runtime_config"@,
        CallbackMethod::GetProxies => "get_proxies"@,
        CallbackMethod::TestDelay => "test_delay"@,
        CallbackMethod::GetStatsOverview => "get_stats_overview"@,
        CallbackMethod::GetDomainStats => "get_domain_stats"@,
        CallbackMethod::GetTrafficTrend => "get_traffic_trend"@,
        CallbackMethod::CheckConnectivity => "check_connectivity"@,
        CallbackMethod::GetRecentErrors => "get_recent_errors"@,
        CallbackMethod::GetRuleStats => "get_rule_stats"@,
        CallbackMethod::GetReportStats => "get_report_stats"@,
        CallbackMethod::GetDiagnosisSummary => "get_diagnosis_summary"@,
        CallbackMethod::DetectAnomalies => "detect_anomalies"@,
        CallbackMethod::RunFullDiagnosis => "run_full_diagnosis"@,
    }
}

/// The call a method name asks for, if any.
pub fn parse_callback_method(method: &str) -> (r: Option<CallbackMethod>)
    ensures
        r matches Some(m) ==> method_name(m) == method@,
        r is None ==> forall|m: CallbackMethod| method_name(m) != method@,
{
    if text_eq(method, "get_config") {
        Some(CallbackMethod::GetConfig)
    } else if text_eq(method, "get_config_file") {
        Some(CallbackMethod::GetConfigFile)
    } else if text_eq(method, "read_active_config_file") {
        Some(CallbackMethod::ReadActiveConfigFile)
    } else if text_eq(method, "read_active_runtime_config") {
        Some(CallbackMethod::ReadActiveRuntimeConfig)
    } else if text_eq(method, "get_proxies") {
        Some(CallbackMethod::GetProxies)
    } else if text_eq(method, "test_delay") {
        Some(CallbackMethod::TestDelay)
    } else if text_eq(method, "get_stats_overview") {
        Some(CallbackMethod::GetStatsOverview)
    } else if text_eq(method, "get_domain_stats") {
        Some(CallbackMethod::GetDomainStats)
    } else if text_eq(method, "get_traffic_trend") {
        Some(CallbackMethod::GetTrafficTrend)
    } else if text_eq(method, "check_connectivity") {
        Some(CallbackMethod::CheckConnectivity)
    } else if text_eq(method, "get_recent_errors") {
        Some(CallbackMethod::GetRecentErrors)
    } else if text_eq(method, "get_rule_stats") {
        Some(CallbackMethod::GetRuleStats)
    } else if text_eq(method, "get_report_stats") {
        Some(CallbackMethod::GetReportStats)
    } else if text_eq(method, "get_diagnosis_summary") {
        Some(CallbackMethod::GetDiagnosisSummary)
    } else if text_eq(method, "detect_anomalies") {
        Some(CallbackMethod::DetectAnomalies)
    } else if text_eq(method, "run_full_diagnosis") {
        Some(CallbackMethod::RunFullDiagnosis)
    } else {
        None
    }
}

/// A refused or failed call, with its message.
pub fn invalid_callback(message: String) -> (r: AiSidecarError)
    ensures
        r == AiSidecarError::InvalidResponse(message),
{
    AiSidecarError::InvalidResponse(message)
}

/// The failure of a configuration request when the running configuration
/// could not be read and the fallback to the configuration file failed too,
/// in reading it or, when `while_parsing`, in parsing it.
pub fn config_fallback_error(runtime_error: &str, file_error: &str, while_parsing: bool) -> (r: AiSidecarError)
    ensures
        r == AiSidecarError::InvalidResponse(r->InvalidResponse_0),
        r->InvalidResponse_0@ == "读取 Mihomo 运行配置失败: "@ + runtime_error@ + (if while_parsing {
            "; 同时解析配置文件失败: "@
        } else {
            "; 同时读取配置文件失败: "@
        }) + file_error@,
{
    let head = concat("读取 Mihomo 运行配置失败: ", runtime_error);
    let head = if while_parsing {
        concat(head.as_str(), "; 同时解析配置文件失败: ")
    } else {
        concat(head.as_str(), "; 同时读取配置文件失败: ")
    };
    AiSidecarError::InvalidResponse(concat(head.as_str(), file_error))
}

/// The refusal of an unknown method.
pub fn unknown_callback(method: &str, callback_id: &str) -> (r: AiSidecarError)
    ensures
        r == AiSidecarError::InvalidResponse(r->InvalidResponse_0),
        r->InvalidResponse_0@ == "未知 callback 方法: "@ + method@ + "; callbackId="@ + callback_id@,
{
    let head = concat("未知 callback 方法: ", method);
    let head = concat(head.as_str(), "; callbackId=");
    AiSidecarError::InvalidResponse(concat(head.as_str(), callback_id))
}

/// The message for a parameter outside its range.
pub open spec fn out_of_range_text(label: Seq<char>, min: int, max: int, value: int) -> Seq<char> {
    label + " 超出范围，期望 "@ + int_text(min) + "..="@ + int_text(max) + "，收到 "@ + int_text(value)
}

/// A parameter with its default, checked against `min..=max`.
pub fn bounded_i32(value: Option<i32>, default_value: i32, min_value: i32, max_value: i32, label: &str) -> (r: Result<i32, AiSidecarError>)
    ensures
        ({
            let v = match value {
                Some(x) => x,
                None => default_value,
            };
            &&& (min_value <= v <= max_value) ==> r == Ok::<i32, AiSidecarError>(v)
            &&& !(min_value <= v <= max_value) ==> (r matches Err(AiSidecarError::InvalidResponse(m)) && m@
                == out_of_range_text(label@, min_value as int, max_value as int, v as int))
        }),
{
    let resolved = match value {
        Some(x) => x,
        None => default_value,
    };
    if min_value <= resolved && resolved <= max_value {
        Ok(resolved)
    } else {
        let t = concat(label, " 超出范围，期望 ");
        let t = concat(t.as_str(), i64_text(min_value as i64).as_str());
        let t = concat(t.as_str(), "..=");
        let t = concat(t.as_str(), i64_text(max_value as i64).as_str());
        let t = concat(t.as_str(), "，收到 ");
        let t = concat(t.as_str(), i64_text(resolved as i64).as_str());
        Err(AiSidecarError::InvalidResponse(t))
    }
}

/// The look-back window a method takes: its default, range and name.
pub open spec fn window_bounds(m: CallbackMethod) -> Option<(i32, i32, i32, Seq<char>)> {
    match m {
        CallbackMethod::GetStatsOverview | CallbackMethod::GetDomainStats | CallbackMethod::GetTrafficTrend => Some(
            (7, 1, 365, "days"@),
        ),
        CallbackMethod::GetRuleStats => Some((1, 1, 30, "days"@)),
        CallbackMethod::GetRecentErrors => Some((30, 1, 1440, "minutes"@)),
        CallbackMethod::GetDiagnosisSummary | CallbackMethod::DetectAnomalies | CallbackMethod::RunFullDiagnosis => Some(
            (30, 5, 1440, "timeRangeMinutes"@),
        ),
        _ => None,
    }
}

/// The look-back window of a call: the method's default when none is given,
/// refused outside the method's range; none for methods without one.
pub fn resolve_window(method: CallbackMethod, value: Option<i32>) -> (r: Result<Option<i32>, AiSidecarError>)
    ensures
        window_bounds(method) is None ==> r == Ok::<Option<i32>, AiSidecarError>(None),
        window_bounds(method) matches Some((d, lo, hi, label)) ==> ({
            let v = match value {
                Some(x) => x,
                None => d,
            };
            &&& (lo <= v <= hi) ==> r == Ok::<Option<i32>, AiSidecarError>(Some(v))
            &&& !(lo <= v <= hi) ==> (r matches Err(AiSidecarError::InvalidResponse(m)) && m@ == out_of_range_text(
                label,
                lo as int,
                hi as int,
                v as int,
            ))
        }),
{
    let bounded = match method {
        CallbackMethod::GetStatsOverview | CallbackMethod::GetDomainStats | CallbackMethod::GetTrafficTrend => bounded_i32(
            value,
            7,
            1,
            365,
            "days",
        ),
        CallbackMethod::GetRuleStats => bounded_i32(value, 1, 1, 30, "days"),
        CallbackMethod::GetRecentErrors => bounded_i32(value, 30, 1, 1440, "minutes"),
        CallbackMethod::GetDiagnosisSummary | CallbackMethod::DetectAnomalies | CallbackMethod::RunFullDiagnosis => bounded_i32(
            value,
            30,
            5,
            1440,
            "timeRangeMinutes",
        ),
        _ => return Ok(None),
    };
    match bounded {
        Ok(v) => Ok(Some(v)),
        Err(e) => Err(e),
    }
}

/// How many domains a domain-statistics call lists: 20 by default, 1 to 100.
pub fn resolve_domain_limit(limit: Option<i32>) -> (r: Result<i32, AiSidecarError>)
    ensures
        ({
            let v = match limit {
                Some(x) => x,
                None => 20,
            };
            &&& (1 <= v <= 100) ==> r == Ok::<i32, AiSidecarError>(v)
            &&& !(1 <= v <= 100) ==> (r matches Err(AiSidecarError::InvalidResponse(m)) && m@ == out_of_range_text(
                "limit"@,
                1,
                100,
                v as int,
            ))
        }),
{
    bounded_i32(limit, 20, 1, 100, "limit")
}

/// The issues a connectivity check reports: one per API that failed, with
/// its error, and one when the collector is not running.
pub open spec fn issue_texts(version_error: Option<Seq<char>>, proxies_error: Option<Seq<char>>, collector_running: bool) -> Seq<Seq<char>> {
    (match version_error {
        Some(e) => seq!["mihomo version API 不可用: "@ + e],
        None => Seq::<Seq<char>>::empty(),
    }) + (match proxies_error {
        Some(e) => seq!["mihomo proxies API 不可用: "@ + e],
        None => Seq::<Seq<char>>::empty(),
    }) + (if collector_running {
        Seq::<Seq<char>>::empty()
    } else {
        seq!["连接采集器当前未运行"@]
    })
}

/// A text as a spec value, when there is one.
pub open spec fn opt_seq(t: Option<&str>) -> Option<Seq<char>> {
    match t {
        Some(t) => Some(t@),
        None => None,
    }
}

/// What a connectivity check reports as wrong.
pub fn connectivity_issues(version_error: Option<&str>, proxies_error: Option<&str>, collector_running: bool) -> (r: Vec<String>)
    ensures
        r@.map_values(|s: String| s@) == issue_texts(opt_seq(version_error), opt_seq(proxies_error), collector_running),
{
    let mut issues: Vec<String> = Vec::new();
    if let Some(e) = version_error {
        issues.push(concat("mihomo version API 不可用: ", e));
    }
    if let Some(e) = proxies_error {
        issues.push(concat("mihomo proxies API 不可用: ", e));
    }
    if !collector_running {
        issues.push(owned("连接采集器当前未运行"));
    }
    proof {
        assert(issues@.map_values(|s: String| s@) =~= (match version_error {
            Some(e) => seq!["mihomo version API 不可用: "@ + e@],
            None => Seq::<Seq<char>>::empty(),
        }) + (match proxies_error {
            Some(e) => seq!["mihomo proxies API 不可用: "@ + e@],
            None => Seq::<Seq<char>>::empty(),
        }) + (if collector_running {
            Seq::<Seq<char>>::empty()
        } else {
            seq!["连接采集器当前未运行"@]
        }));
    }
    issues
}

/// A problem found by the recent-errors check.
#[derive(Debug, Clone, PartialEq, Eq)]
pub struct RuntimeIssue {
    pub source: String,
    pub severity: String,
    pub message: String,
}

/// An issue as plain texts.
pub open spec fn issue_view(i: RuntimeIssue) -> (Seq<char>, Seq<char>, Seq<char>) {
    (i.source@, i.severity@, i.message@)
}

/// What the recent-errors check reports: the core's API failing, the
/// collector stopped, no active connections; in that order.
pub fn recent_error_issues(api_address: &str, version_error: Option<&str>, collector_running: bool, active_connections: usize) -> (r: Vec<RuntimeIssue>)
    ensures
        r@.map_values(|i: RuntimeIssue| issue_view(i)) == (match version_error {
            Some(e) => seq![("mihomo_api"@, "error"@, api_address@ + " 连通性检查失败: "@ + e@)],
            None => Seq::empty(),
        }) + (if collector_running {
            Seq::empty()
        } else {
            seq![("collector"@, "warning"@, "连接采集器未运行，最近统计可能不完整"@)]
        }) + (if active_connections == 0 {
            seq![("runtime"@, "info"@, "当前没有活跃连接，近期错误摘要可能为空"@)]
        } else {
            Seq::empty()
        }),
{
    let mut issues: Vec<RuntimeIssue> = Vec::new();
    if let Some(e) = version_error {
        let message = concat(api_address, " 连通性检查失败: ");
        issues.push(RuntimeIssue { source: owned("mihomo_api"), severity: owned("error"), message: concat(message.as_str(), e) });
    }
    if !collector_running {
        issues.push(RuntimeIssue {
            source: owned("collector"),
            severity: owned("warning"),
            message: owned("连接采集器未运行，最近统计可能不完整"),
        });
    }
    if active_connections == 0 {
        issues.push(RuntimeIssue {
            source: owned("runtime"),
            severity: owned("info"),
            message: owned("当前没有活跃连接，近期错误摘要可能为空"),
        });
    }
    proof {
        assert(issues@.map_values(|i: RuntimeIssue| issue_view(i)) =~= (match version_error {
            Some(e) => seq![("mihomo_api"@, "error"@, api_address@ + " 连通性检查失败: "@ + e@)],
            None => Seq::empty(),
        }) + (if collector_running {
            Seq::empty()
        } else {
            seq![("collector"@, "warning"@, "连接采集器未运行，最近统计可能不完整"@)]
        }) + (if active_connections == 0 {
            seq![("runtime"@, "info"@, "当前没有活跃连接，近期错误摘要可能为空"@)]
        } else {
            Seq::empty()
        }));
    }
    issues
}

/// The proxy a selector group has chosen.
#[derive(Debug, Clone, PartialEq, Eq)]
pub struct SelectedProxyGroup {
    pub group: String,
    pub current: String,
}

impl Keyed for SelectedProxyGroup {
    open spec fn key(&self) -> Seq<char> {
        self.group@
    }

    fn key_str(&self) -> (r: &str) {
        self.group.as_str()
    }
}

/// A group's choice, when the group has a non-blank `now`: its name and the
/// trimmed choice.
pub open spec fn selected_of(e: (String, Option<String>)) -> Option<(Seq<char>, Seq<char>)> {
    match e.1 {
        Some(now) => if trim(now@).len() > 0 {
            Some((e.0@, trim(now@)))
        } else {
            None
        },
        None => None,
    }
}

/// The entry `g` stands for the group `e`'s choice.
pub open spec fn picks(e: (String, Option<String>), g: SelectedProxyGroup) -> bool {
    selected_of(e) == Some((g.group@, g.current@))
}

/// One of the first `n` groups has the choice `g`.
pub open spec fn picked_by_one_of(entries: Seq<(String, Option<String>)>, n: int, g: SelectedProxyGroup) -> bool {
    exists|k: int| 0 <= k < n && #[trigger] picks(entries[k], g)
}

/// Each chosen entry stands for one of the first `i` groups.
#[verifier::opaque]
pub open spec fn chosen_from(chosen: Seq<SelectedProxyGroup>, entries: Seq<(String, Option<String>)>, i: int) -> bool {
    forall|q: int| 0 <= q < chosen.len() ==> #[trigger] picked_by_one_of(entries, i, chosen[q])
}

/// Each of the first `i` groups that has chosen a proxy has an entry.
#[verifier::opaque]
pub open spec fn chosen_covers(chosen: Seq<SelectedProxyGroup>, entries: Seq<(String, Option<String>)>, i: int) -> bool {
    forall|k: int| 0 <= k < i && (#[trigger] selected_of(entries[k])) is Some ==> exists|q: int| 0 <= q < chosen.len() && #[trigger] picks(entries[k], chosen[q])
}

proof fn lemma_choose_step(chosen: Seq<SelectedProxyGroup>, entries: Seq<(String, Option<String>)>, i: int, next: Seq<SelectedProxyGroup>)
    requires
        0 <= i < entries.len(),
        forall|a: int, b: int| 0 <= a < b < entries.len() ==> (#[trigger] entries[a]).0@ != (#[trigger] entries[b]).0@,
        distinct_keys(chosen),
        chosen_from(chosen, entries, i),
        chosen_covers(chosen, entries, i),
        selected_of(entries[i]) is None ==> next == chosen,
        selected_of(entries[i]) matches Some(sel) ==> next.len() == chosen.len() + 1 && next.drop_last() == chosen
            && (next.last().group@, next.last().current@) == sel,
    ensures
        distinct_keys(next),
        chosen_from(next, entries, i + 1),
        chosen_covers(next, entries, i + 1),
{
    reveal(chosen_from);
    reveal(chosen_covers);
    if selected_of(entries[i]) is Some {
        assert forall|q: int| 0 <= q < chosen.len() implies (#[trigger] chosen[q]).key() != entries[i].0@ by {
            assert(picked_by_one_of(entries, i, chosen[q]));
            let k = choose|k: int| 0 <= k < i && #[trigger] picks(entries[k], chosen[q]);
            assert(entries[k].0@ != entries[i].0@);
        }
        assert forall|a: int, b: int| 0 <= a < next.len() && 0 <= b < next.len() && a != b implies #[trigger] next[a].key()
            != #[trigger] next[b].key() by {
            if a < chosen.len() && b < chosen.len() {
                assert(next[a] == chosen[a] && next[b] == chosen[b]);
            } else if a < chosen.len() {
                assert(next[a] == chosen[a]);
            } else {
                assert(next[b] == chosen[b]);
            }
        }
        assert forall|q: int| 0 <= q < next.len() implies #[trigger] picked_by_one_of(entries, i + 1, next[q]) by {
            if q < chosen.len() {
                assert(next[q] == chosen[q]);
                assert(picked_by_one_of(entries, i, chosen[q]));
                let k = choose|k: int| 0 <= k < i && #[trigger] picks(entries[k], chosen[q]);
                assert(picks(entries[k], next[q]));
            } else {
                assert(next[q] == next.last());
                assert(picks(entries[i], next[q]));
            }
        }
        assert forall|k: int| 0 <= k < i + 1 && (#[trigger] selected_of(entries[k])) is Some implies exists|q: int| 0 <= q < next.len()
            && #[trigger] picks(entries[k], next[q]) by {
            if k < i {
                let q = choose|q: int| 0 <= q < chosen.len() && #[trigger] picks(entries[k], chosen[q]);
                assert(next[q] == chosen[q]);
                assert(picks(entries[k], next[q]));
            } else {
                let last = next.len() - 1;
                assert(next[last] == next.last());
                assert(picks(entries[k], next[last]));
            }
        }
    } else {
        assert forall|k: int| 0 <= k < i + 1 && (#[trigger] selected_of(entries[k])) is Some implies exists|q: int| 0 <= q < next.len()
            && #[trigger] picks(entries[k], next[q]) by {
            let q = choose|q: int| 0 <= q < chosen.len() && #[trigger] picks(entries[k], chosen[q]);
            assert(picks(entries[k], next[q]));
        }
        assert forall|q: int| 0 <= q < next.len() implies #[trigger] picked_by_one_of(entries, i + 1, next[q]) by {
            assert(picked_by_one_of(entries, i, chosen[q]));
            let k = choose|k: int| 0 <= k < i && #[trigger] picks(entries[k], chosen[q]);
            assert(picks(entries[k], next[q]));
        }
    }
}

/// Whether `r` lists the groups of `entries` that have chosen a proxy,
/// ordered by name: every listed group is one of them, and each of them is
/// listed.
pub open spec fn selected_groups_of(r: Seq<SelectedProxyGroup>, entries: Seq<(String, Option<String>)>) -> bool {
    &&& keys_ascending(r)
    &&& forall|q: int| 0 <= q < r.len() ==> #[trigger] picked_by_one_of(entries, entries.len() as int, r[q])
    &&& forall|i: int| 0 <= i < entries.len() && (#[trigger] selected_of(entries[i])) is Some ==> exists|q: int| 0 <= q < r.len() && #[trigger] picks(entries[i], r[q])
}

/// No two groups share a name.
pub open spec fn distinct_group_names(entries: Seq<(String, Option<String>)>) -> bool {
    forall|i: int, j: int| 0 <= i < j < entries.len() ==> (#[trigger] entries[i]).0@ != (#[trigger] entries[j]).0@
}

/// The groups that have chosen a proxy, by name, from the core's groups
/// (name and `now` value); each name occurs once.
pub fn extract_selected_groups(entries: Vec<(String, Option<String>)>) -> (r: Vec<SelectedProxyGroup>)
    requires
        distinct_group_names(entries@),
    ensures
        selected_groups_of(r@, entries@),
{
    let mut chosen: Vec<SelectedProxyGroup> = Vec::new();
    let mut i: usize = 0;
    proof {
        reveal(chosen_from);
        reveal(chosen_covers);
    }
    while i < entries.len()
        invariant
            i <= entries@.len(),
            forall|a: int, b: int| 0 <= a < b < entries@.len() ==> (#[trigger] entries@[a]).0@ != (#[trigger] entries@[b]).0@,
            distinct_keys(chosen@),
            chosen_from(chosen@, entries@, i as int),
            chosen_covers(chosen@, entries@, i as int),
        decreases entries@.len() - i,
    {
        let ghost before = chosen@;
        let entry = &entries[i];
        if let Some(now) = &entry.1 {
            let current = str_trim(now.as_str());
            if !current.is_empty() {
                chosen.push(SelectedProxyGroup { group: entry.0.clone(), current: owned(current) });
                proof {
                    assert(chosen@.drop_last() =~= before);
                }
            }
        }
        proof {
            lemma_choose_step(before, entries@, i as int, chosen@);
        }
        i = i + 1;
    }
    let ghost unsorted = chosen@;
    let sorted = sorted_by_key(chosen);
    proof {
        lemma_selected_sorted(unsorted, sorted@, entries@);
    }
    sorted
}

proof fn lemma_selected_sorted(unsorted: Seq<SelectedProxyGroup>, sorted: Seq<SelectedProxyGroup>, entries: Seq<(String, Option<String>)>)
    requires
        chosen_from(unsorted, entries, entries.len() as int),
        chosen_covers(unsorted, entries, entries.len() as int),
        drawn_from(sorted, unsorted, unsorted.len() as int),
        holds_prefix(sorted, unsorted, unsorted.len() as int),
    ensures
        forall|q: int| 0 <= q < sorted.len() ==> #[trigger] picked_by_one_of(entries, entries.len() as int, sorted[q]),
        forall|i: int| 0 <= i < entries.len() && (#[trigger] selected_of(entries[i])) is Some ==> exists|q: int| 0 <= q < sorted.len() && #[trigger] picks(entries[i], sorted[q]),
{
    reveal(drawn_from);
    reveal(holds_prefix);
    reveal(chosen_from);
    reveal(chosen_covers);
    assert forall|q: int| 0 <= q < sorted.len() implies #[trigger] picked_by_one_of(entries, entries.len() as int, sorted[q]) by {
        let sq = sorted[q];
        let j = choose|j: int| 0 <= j < unsorted.len() && #[trigger] unsorted[j] == sorted[q];
        assert(picked_by_one_of(entries, entries.len() as int, unsorted[j]));
    }
    assert forall|i: int| 0 <= i < entries.len() && (#[trigger] selected_of(entries[i])) is Some implies exists|q: int| 0 <= q
        < sorted.len() && #[trigger] picks(entries[i], sorted[q]) by {
        let j = choose|j: int| 0 <= j < unsorted.len() && #[trigger] picks(entries[i], unsorted[j]);
        let uj = unsorted[j];
        let q = choose|q: int| 0 <= q < sorted.len() && #[trigger] sorted[q] == unsorted[j];
        assert(sorted[q] == uj);
    }
}

/// A character kept when a configuration key is compared: an ASCII letter
/// or digit.
pub open spec fn is_key_char(c: char) -> bool {
    ('0' <= c && c <= '9') || ('a' <= c && c <= 'z') || ('A' <= c && c <= 'Z')
}

/// A configuration key reduced to its ASCII letters and digits, lower-cased.
pub open spec fn key_letters(s: Seq<char>) -> Seq<char>
    decreases s.len(),
{
    if s.len() == 0 {
        Seq::empty()
    } else if is_key_char(s.last()) {
        key_letters(s.drop_last()).push(ascii_lower(s.last()))
    } else {
        key_letters(s.drop_last())
    }
}

/// The reduced keys that hold secrets.
pub open spec fn sensitive_keys() -> Seq<Seq<char>> {
    seq![
        "password"@,
        "passwd"@,
        "secret"@,
        "token"@,
        "uuid"@,
        "apikey"@,
        "privatekey"@,
        "auth"@,
        "authstr"@,
        "authorization"@,
        "clientsecret"@,
        "users"@,
    ]
}

/// A configuration key reduced to its ASCII letters and digits, lower-cased.
pub fn normalize_config_key(key: &str) -> (r: Vec<char>)
    ensures
        r@ == key_letters(key@),
{
    let lowered = str_to_ascii_lowercase(key);
    let n = key.unicode_len();
    let mut out: Vec<char> = Vec::new();
    let mut i: usize = 0;
    proof {
        assert(key@.take(0) =~= Seq::<char>::empty());
    }
    while i < n
        invariant
            n == key@.len(),
            lowered@ == crate::text::ascii_lower_text(key@),
            i <= n,
            out@ == key_letters(key@.take(i as int)),
        decreases n - i,
    {
        let c = lowered.as_str().get_char(i);
        proof {
            assert(key@.take(i + 1).drop_last() =~= key@.take(i as int));
            assert(key@.take(i + 1).last() == key@[i as int]);
            assert(c == ascii_lower(key@[i as int]));
        }
        if ('0' <= c && c <= '9') || ('a' <= c && c <= 'z') {
            out.push(c);
        }
        i = i + 1;
    }
    proof {
        assert(key@.take(n as int) =~= key@);
    }
    out
}

fn chars_equal(v: &Vec<char>, s: &str) -> (r: bool)
    ensures
        r == (v@ == s@),
{
    let n = s.unicode_len();
    if v.len() != n {
        return false;
    }
    let mut i: usize = 0;
    while i < n
        invariant
            n == s@.len(),
            v@.len() == n,
            i <= n,
            forall|k: int| 0 <= k < i ==> v@[k] == s@[k],
        decreases n - i,
    {
        if v[i] != s.get_char(i) {
            return false;
        }
        i = i + 1;
    }
    proof {
        assert(v@ =~= s@);
    }
    true
}

/// Whether a configuration key holds a secret: its letters and digits,
/// lower-cased, spell one of the secret names.
pub fn is_sensitive_config_key(key: &str) -> (r: bool)
    ensures
        r == sensitive_keys().contains(key_letters(key@)),
{
    let k = normalize_config_key(key);
    let r = chars_equal(&k, "password") || chars_equal(&k, "passwd") || chars_equal(&k, "secret") || chars_equal(&k, "token")
        || chars_equal(&k, "uuid") || chars_equal(&k, "apikey") || chars_equal(&k, "privatekey") || chars_equal(&k, "auth")
        || chars_equal(&k, "authstr") || chars_equal(&k, "authorization") || chars_equal(&k, "clientsecret")
        || chars_equal(&k, "users");
    proof {
        let w = sensitive_keys();
        if r {
            if k@ == "password"@ { assert(w[0] == k@); }
            else if k@ == "passwd"@ { assert(w[1] == k@); }
            else if k@ == "secret"@ { assert(w[2] == k@); }
            else if k@ == "token"@ { assert(w[3] == k@); }
            else if k@ == "uuid"@ { assert(w[4] == k@); }
            else if k@ == "apikey"@ { assert(w[5] == k@); }
            else if k@ == "privatekey"@ { assert(w[6] == k@); }
            else if k@ == "auth"@ { assert(w[7] == k@); }
            else if k@ == "authstr"@ { assert(w[8] == k@); }
            else if k@ == "authorization"@ { assert(w[9] == k@); }
            else if k@ == "clientsecret"@ { assert(w[10] == k@); }
            else { assert(w[11] == k@); }
        } else {
            assert forall|j: int| 0 <= j < w.len() implies w[j] != k@ by {}
        }
    }
    r
}

/// Where the answer to a configuration request stands: the answer, or the
/// configuration file has to be read because the running configuration
/// could not be.
#[derive(Debug)]
pub enum ConfigAnswer {
    Ready(Result<ConfigValue, AiSidecarError>),
    ReadConfigFile { runtime_error: String },
}

/// What reading and parsing the active configuration file gave.
#[derive(Debug)]
pub enum ConfigFileOutcome {
    Parsed(ConfigValue),
    ReadFailed(String),
    ParseFailed(String),
}

/// The first step of a configuration request: the running configuration
/// when the core gave it, sanitized; otherwise the file is to be read.
pub fn answer_config_request(runtime: Result<ConfigValue, String>) -> (r: ConfigAnswer)
    ensures
        runtime matches Ok(c) ==> r matches ConfigAnswer::Ready(Ok(v)) && sanitized_answer(v, "mihomo_runtime"@, c),
        runtime matches Err(e) ==> r matches ConfigAnswer::ReadConfigFile { runtime_error } && runtime_error@ == e@,
{
    match runtime {
        Ok(c) => ConfigAnswer::Ready(Ok(build_sanitized_config_response("mihomo_runtime", c))),
        Err(e) => ConfigAnswer::ReadConfigFile { runtime_error: e },
    }
}

/// The second step, after the running configuration failed with
/// `runtime_error`: the file's configuration, sanitized, or an error naming
/// both failures.
pub fn answer_config_from_file(runtime_error: &str, file: ConfigFileOutcome) -> (r: Result<ConfigValue, AiSidecarError>)
    ensures
        file matches ConfigFileOutcome::Parsed(c) ==> r matches Ok(v) && sanitized_answer(v, "config_file"@, c),
        file matches ConfigFileOutcome::ReadFailed(fe) ==> r matches Err(AiSidecarError::InvalidResponse(m))
            && m@ == "读取 Mihomo 运行配置失败: "@ + runtime_error@ + "; 同时读取配置文件失败: "@ + fe@,
        file matches ConfigFileOutcome::ParseFailed(fe) ==> r matches Err(AiSidecarError::InvalidResponse(m))
            && m@ == "读取 Mihomo 运行配置失败: "@ + runtime_error@ + "; 同时解析配置文件失败: "@ + fe@,
{
    match file {
        ConfigFileOutcome::Parsed(c) => Ok(build_sanitized_config_response("config_file", c)),
        ConfigFileOutcome::ReadFailed(fe) => Err(config_fallback_error(runtime_error, fe.as_str(), false)),
        ConfigFileOutcome::ParseFailed(fe) => Err(config_fallback_error(runtime_error, fe.as_str(), true)),
    }
}

/// What a connectivity check reports.
#[derive(Debug)]
pub struct ConnectivitySummary {
    pub reachable: bool,
    pub api_address: String,
    pub collector_running: bool,
    pub active_connections: usize,
    pub proxy_count: usize,
    pub selected_groups: Vec<SelectedProxyGroup>,
    pub version: Option<ConfigValue>,
    pub issues: Vec<String>,
}

/// The error text of a failed call, when it failed.
pub open spec fn error_text<T>(r: Result<T, String>) -> Option<Seq<char>> {
    match r {
        Ok(_) => None,
        Err(e) => Some(e@),
    }
}

/// The summary of a connectivity check from what the core answered: its
/// version (or the error), and its proxy groups (or the error), each group
/// with its name and `now` value; `None` when the answer holds no object of
/// groups.
pub fn build_connectivity_summary(
    api_address: String,
    version: Result<ConfigValue, String>,
    proxies: Result<Option<Vec<(String, Option<String>)>>, String>,
    collector_running: bool,
    active_connections: usize,
) -> (r: ConnectivitySummary)
    requires
        proxies matches Ok(Some(groups)) ==> distinct_group_names(groups@),
    ensures
        r.reachable == (version is Ok && proxies is Ok),
        r.api_address@ == api_address@,
        r.collector_running == collector_running,
        r.active_connections == active_connections,
        r.proxy_count == match proxies {
            Ok(Some(groups)) => groups@.len(),
            _ => 0,
        },
        proxies matches Ok(Some(groups)) ==> selected_groups_of(r.selected_groups@, groups@),
        !(proxies matches Ok(Some(groups))) ==> r.selected_groups@.len() == 0,
        r.version == match version {
            Ok(v) => Some(v),
            Err(_) => None::<ConfigValue>,
        },
        r.issues@.map_values(|s: String| s@) == issue_texts(error_text(version), error_text(proxies), collector_running),
{
    let reachable = version.is_ok() && proxies.is_ok();
    let issues = {
        let version_error = match &version {
            Ok(_) => None,
            Err(e) => Some(e.as_str()),
        };
        let proxies_error = match &proxies {
            Ok(_) => None,
            Err(e) => Some(e.as_str()),
        };
        connectivity_issues(version_error, proxies_error, collector_running)
    };
    let (proxy_count, selected_groups) = match proxies {
        Ok(Some(groups)) => {
            let n = groups.len();
            (n, extract_selected_groups(groups))
        },
        _ => (0, Vec::new()),
    };
    let version = match version {
        Ok(v) => Some(v),
        Err(_) => None,
    };
    ConnectivitySummary {
        reachable,
        api_address,
        collector_running,
        active_connections,
        proxy_count,
        selected_groups,
        version,
        issues,
    }
}

/// The answer to a delay test of proxy `name` that measured `delay`
/// milliseconds: the proxy, the test address, the timeout and the delay.
pub fn delay_test_answer(name: String, delay: u32) -> (r: ConfigValue)
    ensures
        r matches ConfigValue::Object(e) && e.len() == 4 && {
            &&& e[0].0@ == "name"@ && (e[0].1 matches ConfigValue::Text(t) && t@ == name@)
            &&& e[1].0@ == "url"@ && (e[1].1 matches ConfigValue::Text(t) && t@ == DEFAULT_DELAY_TEST_URL@)
            &&& e[2].0@ == "timeout"@ && (e[2].1 matches ConfigValue::Number(n) && n@ == int_text(
                DEFAULT_DELAY_TEST_TIMEOUT_MS as int,
            ))
            &&& e[3].0@ == "delay"@ && (e[3].1 matches ConfigValue::Number(n) && n@ == int_text(delay as int))
        },
{
    let mut entries: Vec<(String, ConfigValue)> = Vec::new();
    entries.push((owned("name"), ConfigValue::Text(name)));
    entries.push((owned("url"), ConfigValue::Text(owned(DEFAULT_DELAY_TEST_URL))));
    entries.push((owned("timeout"), ConfigValue::Number(u64_text(DEFAULT_DELAY_TEST_TIMEOUT_MS as u64))));
    entries.push((owned("delay"), ConfigValue::Number(u64_text(delay as u64))));
    ConfigValue::Object(entries)
}

} // verus!
