//! Which anomaly alerts become desktop notifications, and how often.
use vstd::prelude::*;
use std::time::Instant;
use crate::alert::{AlertSeverity, AlertType, AnomalyAlert};
use crate::buffer::{instant_now, nanos_between, nanos_since};
use crate::table::{Keyed, KeyedTable};

verus! {

/// The shortest scan interval, in seconds.
pub const MIN_SCAN_INTERVAL_SECS: u64 = 60;

/// What the user chose for notifications.
#[derive(Debug, Clone, Copy, PartialEq, Eq, Structural)]
pub struct NotificationSettings {
    pub enabled: bool,
    pub critical_only: bool,
    pub scan_interval_secs: u64,
}

impl Default for NotificationSettings {
    fn default() -> (r: Self)
        ensures
            r.enabled,
            !r.critical_only,
            r.scan_interval_secs == 300,
    {
        NotificationSettings { enabled: true, critical_only: false, scan_interval_secs: 300 }
    }
}

impl NotificationSettings {
    /// The same settings with the scan interval raised to at least a minute.
    pub fn normalized(self) -> (r: Self)
        ensures
            r.enabled == self.enabled,
            r.critical_only == self.critical_only,
            r.scan_interval_secs == if self.scan_interval_secs < MIN_SCAN_INTERVAL_SECS {
                MIN_SCAN_INTERVAL_SECS
            } else {
                self.scan_interval_secs
            },
    {
        let mut settings = self;
        if settings.scan_interval_secs < MIN_SCAN_INTERVAL_SECS {
            settings.scan_interval_secs = MIN_SCAN_INTERVAL_SECS;
        }
        settings
    }
}

/// The stable key of an alert kind.
pub open spec fn alert_key_text(alert_type: AlertType) -> Seq<char> {
    match alert_type {
        AlertType::HighTimeoutRate => "high_timeout_rate"@,
        AlertType::TrafficSurge => "traffic_surge"@,
        AlertType::TrafficDrop => "traffic_drop"@,
        AlertType::HighMatchFallback => "high_match_fallback"@,
        AlertType::DnsFailureCluster => "dns_failure_cluster"@,
    }
}

/// The stable key of an alert kind, under which its cooldown is kept.
pub fn alert_type_key(alert_type: &AlertType) -> (r: &'static str)
    ensures
        r@ == alert_key_text(*alert_type),
{
    match alert_type {
        AlertType::HighTimeoutRate => "high_timeout_rate",
        AlertType::TrafficSurge => "traffic_surge",
        AlertType::TrafficDrop => "traffic_drop",
        AlertType::HighMatchFallback => "high_match_fallback",
        AlertType::DnsFailureCluster => "dns_failure_cluster",
    }
}

/// Whether alerts of `severity` are notified under `settings`.
pub open spec fn notifiable(settings: NotificationSettings, severity: AlertSeverity) -> bool {
    match severity {
        AlertSeverity::Info => false,
        AlertSeverity::Critical => true,
        AlertSeverity::Warning => !settings.critical_only,
    }
}

/// Whether alerts of `severity` are notified under `settings`: critical ones
/// always, warnings unless only critical ones are wanted, informational never.
pub fn is_notifiable_severity(settings: &NotificationSettings, severity: &AlertSeverity) -> (r: bool)
    ensures
        r == notifiable(*settings, *severity),
{
    match severity {
        AlertSeverity::Info => false,
        AlertSeverity::Critical => true,
        AlertSeverity::Warning => !settings.critical_only,
    }
}

/// When an alert kind was last notified.
#[derive(Debug)]
pub struct Cooldown {
    pub alert_key: String,
    pub notified_at: Instant,
}

impl Keyed for Cooldown {
    open spec fn key(&self) -> Seq<char> {
        self.alert_key@
    }

    fn key_str(&self) -> (r: &str) {
        self.alert_key.as_str()
    }
}

/// The title of a desktop notification for an alert of `severity`.
pub open spec fn title_text(severity: AlertSeverity) -> Seq<char> {
    match severity {
        AlertSeverity::Critical => "严重告警"@,
        AlertSeverity::Warning => "异常警告"@,
        AlertSeverity::Info => "异常提示"@,
    }
}

/// The title of a desktop notification for an alert of `severity`.
pub fn notification_title(severity: &AlertSeverity) -> (r: &'static str)
    ensures
        r@ == title_text(*severity),
{
    match severity {
        AlertSeverity::Critical => "严重告警",
        AlertSeverity::Warning => "异常警告",
        AlertSeverity::Info => "异常提示",
    }
}

/// Whether a cooldown of `cooldown_secs` seconds is over after
/// `elapsed_nanos` nanoseconds.
pub open spec fn cooldown_over(elapsed_nanos: int, cooldown_secs: int) -> bool {
    elapsed_nanos >= cooldown_secs * 1_000_000_000
}

/// Whether a cooldown of `cooldown_secs` seconds is over after
/// `elapsed_nanos` nanoseconds.
pub fn cooldown_elapsed(elapsed_nanos: u128, cooldown_secs: u64) -> (r: bool)
    ensures
        r == cooldown_over(elapsed_nanos as int, cooldown_secs as int),
{
    let limit: u128 = cooldown_secs as u128 * 1_000_000_000;
    elapsed_nanos >= limit
}

/// Notification settings and, per alert kind, when it was last notified.
#[derive(Debug)]
pub struct NotificationManager {
    cooldowns: KeyedTable<Cooldown>,
    cooldown_secs: u64,
    settings: NotificationSettings,
}

impl NotificationManager {
    /// The settings in force.
    pub closed spec fn current(&self) -> NotificationSettings {
        self.settings
    }

    /// The cooldown length in seconds.
    pub closed spec fn cooldown_length(&self) -> u64 {
        self.cooldown_secs
    }

    /// The alert kinds under cooldown.
    pub closed spec fn cooling(&self) -> Set<Seq<char>> {
        self.cooldowns.map().dom()
    }

    /// When the alert kind `alert_key`, if under cooldown, was last notified.
    pub closed spec fn notified_time(&self, alert_key: Seq<char>) -> Instant {
        self.cooldowns.map()[alert_key].notified_at
    }

    /// The cooldown table is well formed and its length is the scan interval.
    pub closed spec fn wf(&self) -> bool {
        &&& self.cooldowns.wf()
        &&& self.cooldown_secs == self.settings.scan_interval_secs
        &&& self.settings.scan_interval_secs >= MIN_SCAN_INTERVAL_SECS
    }

    /// A manager with the default settings and no cooldowns.
    pub fn new() -> (r: Self)
        ensures
            r.wf(),
            r.current() == NotificationSettings::default_settings(),
            r.cooldown_length() == 300,
            r.cooling() == Set::<Seq<char>>::empty(),
    {
        let settings = NotificationSettings::default().normalized();
        NotificationManager { cooldowns: KeyedTable::new(), cooldown_secs: settings.scan_interval_secs, settings }
    }

    /// The settings in force.
    pub fn settings(&self) -> (r: NotificationSettings)
        ensures
            r == self.current(),
    {
        self.settings
    }

    /// The cooldown length in seconds.
    pub fn cooldown_secs(&self) -> (r: u64)
        ensures
            r == self.cooldown_length(),
    {
        self.cooldown_secs
    }

    /// Whether the alert kind `alert_key` is under cooldown.
    pub fn has_cooldown(&self, alert_key: &str) -> (r: bool)
        requires
            self.wf(),
        ensures
            r == self.cooling().contains(alert_key@),
    {
        self.cooldowns.contains_key(alert_key)
    }

    /// Takes new settings, normalized; the cooldown length follows the scan
    /// interval.
    pub fn update_settings(&mut self, settings: NotificationSettings)
        requires
            old(self).wf(),
        ensures
            final(self).wf(),
            final(self).current().enabled == settings.enabled,
            final(self).current().critical_only == settings.critical_only,
            final(self).current().scan_interval_secs == if settings.scan_interval_secs < MIN_SCAN_INTERVAL_SECS {
                MIN_SCAN_INTERVAL_SECS
            } else {
                settings.scan_interval_secs
            },
            final(self).cooldown_length() == final(self).current().scan_interval_secs,
            final(self).cooling() == old(self).cooling(),
    {
        let settings = settings.normalized();
        self.cooldown_secs = settings.scan_interval_secs;
        self.settings = settings;
    }

    /// Whether an alert of kind `alert_key` may be notified now: never while
    /// notifications are off; always when the kind is not under cooldown;
    /// otherwise when its cooldown is over, which depends on the clock.
    pub fn should_notify(&self, alert_key: &str) -> (r: bool)
        requires
            self.wf(),
        ensures
            r ==> self.current().enabled,
            self.current().enabled && !self.cooling().contains(alert_key@) ==> r,
    {
        if !self.settings.enabled {
            return false;
        }
        match self.cooldowns.get(alert_key) {
            Some(cooldown) => self.should_notify_after(alert_key, nanos_since(&cooldown.notified_at)),
            None => true,
        }
    }

    /// Whether an alert of kind `alert_key` may be notified `elapsed_nanos`
    /// nanoseconds after the kind was last notified.
    pub open spec fn notify_after(&self, alert_key: Seq<char>, elapsed_nanos: int) -> bool {
        self.current().enabled && (!self.cooling().contains(alert_key) || cooldown_over(
            elapsed_nanos,
            self.cooldown_length() as int,
        ))
    }

    /// Whether an alert of kind `alert_key` may be notified `elapsed_nanos`
    /// nanoseconds after the kind was last notified.
    pub fn should_notify_after(&self, alert_key: &str, elapsed_nanos: u128) -> (r: bool)
        requires
            self.wf(),
        ensures
            r == self.notify_after(alert_key@, elapsed_nanos as int),
    {
        if !self.settings.enabled {
            return false;
        }
        if self.cooldowns.contains_key(alert_key) {
            cooldown_elapsed(elapsed_nanos, self.cooldown_secs)
        } else {
            true
        }
    }

    /// Records that `alert_key` was notified at `at`, then drops the
    /// cooldowns that are over by `at`. The marked kind stays under cooldown;
    /// which of the others are over is decided by the opaque instants.
    pub fn mark_notified_at(&mut self, alert_key: &str, at: Instant)
        requires
            old(self).wf(),
        ensures
            final(self).wf(),
            final(self).current() == old(self).current(),
            final(self).cooldown_length() == old(self).cooldown_length(),
            final(self).cooling().contains(alert_key@),
            final(self).notified_time(alert_key@) == at,
            forall|k: Seq<char>| #[trigger] final(self).cooling().contains(k) && k != alert_key@ ==> old(self).cooling().contains(k)
                && final(self).notified_time(k) == old(self).notified_time(k),
    {
        let ghost start = self.cooldowns.map();
        self.cooldowns.insert(Cooldown { alert_key: crate::text::owned(alert_key), notified_at: at });
        let ghost marked = self.cooldowns.map();
        let mut kept: KeyedTable<Cooldown> = KeyedTable::new();
        let ghost items = self.cooldowns.items();
        let mut rest = self.cooldowns.drain();
        proof {
            assert forall|j: int| 0 <= j < rest@.len() implies marked.contains_key(#[trigger] rest@[j].key()) && marked[rest@[j].key()]
                == rest@[j] by {
                crate::table::lemma_as_map_value(items, j);
            }
            crate::table::lemma_as_map_domain(items, alert_key@);
        }
        while rest.len() > 0
            invariant
                kept.wf(),
                self.cooldown_secs >= MIN_SCAN_INTERVAL_SECS,
                marked.contains_key(alert_key@),
                marked[alert_key@].notified_at == at,
                forall|k: Seq<char>| #[trigger] kept.map().contains_key(k) ==> marked.contains_key(k) && kept.map()[k] == marked[k],
                forall|j: int| 0 <= j < rest@.len() ==> marked.contains_key(#[trigger] rest@[j].key()) && marked[rest@[j].key()]
                    == rest@[j],
                kept.map().contains_key(alert_key@) || exists|j: int| 0 <= j < rest@.len() && rest@[j].key() == alert_key@,
            decreases rest@.len(),
        {
            let ghost prev = rest@;
            let c = rest.pop().unwrap();
            proof {
                assert(c == prev.last());
                assert(rest@ =~= prev.drop_last());
            }
            let ghost kept_before = kept.map();
            let over = match nanos_between(&c.notified_at, &at) {
                Some(elapsed) => cooldown_elapsed(elapsed, self.cooldown_secs),
                None => false,
            };
            if !over {
                kept.insert(c);
            }
            proof {
                if !kept_before.contains_key(alert_key@) {
                    let j = choose|j: int| 0 <= j < prev.len() && prev[j].key() == alert_key@;
                    if j == prev.len() - 1 {
                        assert(c.key() == alert_key@);
                        assert(c.notified_at == at);
                        assert(!over);
                    } else {
                        assert(rest@[j] == prev[j]);
                    }
                }
            }
        }
        self.cooldowns = kept;
        proof {
            assert forall|k: Seq<char>| #[trigger] self.cooling().contains(k) && k != alert_key@ implies old(self).cooling().contains(k)
                && self.notified_time(k) == old(self).notified_time(k) by {
                assert(marked[k] == start[k]);
            }
        }
    }

    /// Records that `alert_key` was notified now, then drops the cooldowns
    /// that are over; the marked kind stays under cooldown.
    pub fn mark_notified(&mut self, alert_key: &str)
        requires
            old(self).wf(),
        ensures
            final(self).wf(),
            final(self).current() == old(self).current(),
            final(self).cooldown_length() == old(self).cooldown_length(),
            final(self).cooling().contains(alert_key@),
            forall|k: Seq<char>| #[trigger] final(self).cooling().contains(k) && k != alert_key@ ==> old(self).cooling().contains(k)
                && final(self).notified_time(k) == old(self).notified_time(k),
    {
        self.mark_notified_at(alert_key, instant_now());
    }
}

impl NotificationSettings {
    /// The default settings.
    pub open spec fn default_settings() -> Self {
        NotificationSettings { enabled: true, critical_only: false, scan_interval_secs: 300 }
    }
}

/// Some alert of `alerts` is notifiable and of kind `t`.
pub open spec fn notifies_kind(settings: NotificationSettings, alerts: Seq<AnomalyAlert>, t: AlertType) -> bool {
    exists|i: int| 0 <= i < alerts.len() && notifiable(settings, (#[trigger] alerts[i]).severity) && alerts[i].alert_type == t
}

/// The alerts that may be notified before cooldowns are asked: those of a
/// notifiable severity, the first of each kind.
pub open spec fn notification_candidates(settings: NotificationSettings, alerts: Seq<AnomalyAlert>) -> Seq<AnomalyAlert>
    decreases alerts.len(),
{
    if alerts.len() == 0 {
        Seq::empty()
    } else {
        let earlier = alerts.drop_last();
        let a = alerts.last();
        if notifiable(settings, a.severity) && !notifies_kind(settings, earlier, a.alert_type) {
            notification_candidates(settings, earlier).push(a)
        } else {
            notification_candidates(settings, earlier)
        }
    }
}

/// The entries of `s` whose flag in `keep` is set, in order.
pub open spec fn kept_by(s: Seq<AnomalyAlert>, keep: Seq<bool>) -> Seq<AnomalyAlert>
    decreases s.len(),
{
    if s.len() == 0 || keep.len() != s.len() {
        Seq::empty()
    } else if keep.last() {
        kept_by(s.drop_last(), keep.drop_last()).push(s.last())
    } else {
        kept_by(s.drop_last(), keep.drop_last())
    }
}

/// `keep` flags each candidate: none while notifications are off, and every
/// candidate whose kind is not under cooldown while they are on.
pub open spec fn cooldown_choice(c: Seq<AnomalyAlert>, keep: Seq<bool>, enabled: bool, cooling: Set<Seq<char>>) -> bool {
    &&& keep.len() == c.len()
    &&& forall|i: int| 0 <= i < keep.len() ==> (#[trigger] keep[i] ==> enabled)
    &&& forall|i: int| 0 <= i < keep.len() ==> (enabled && !cooling.contains(alert_key_text(c[i].alert_type)) ==> #[trigger] keep[i])
}

/// The alerts to notify: the candidates (notifiable severity, first of their
/// kind in the batch) whose cooldown allows it. None while notifications are
/// off; every candidate whose kind is not under cooldown; a candidate under
/// cooldown when its cooldown is over, which depends on the clock.
pub fn filter_notifiable_alerts(manager: &NotificationManager, alerts: &[AnomalyAlert]) -> (r: Vec<AnomalyAlert>)
    requires
        manager.wf(),
    ensures
        exists|keep: Seq<bool>| #[trigger] cooldown_choice(
            notification_candidates(manager.current(), alerts@),
            keep,
            manager.current().enabled,
            manager.cooling(),
        ) && r@ == kept_by(notification_candidates(manager.current(), alerts@), keep),
{
    let settings = manager.settings();
    let mut seen: Vec<AlertType> = Vec::new();
    let mut out: Vec<AnomalyAlert> = Vec::new();
    let ghost mut keep: Seq<bool> = Seq::empty();
    let mut k: usize = 0;
    while k < alerts.len()
        invariant
            k <= alerts@.len(),
            settings == manager.current(),
            manager.wf(),
            forall|t: AlertType| seen@.contains(t) <==> notifies_kind(settings, alerts@.take(k as int), t),
            keep.len() == notification_candidates(settings, alerts@.take(k as int)).len(),
            out@ == kept_by(notification_candidates(settings, alerts@.take(k as int)), keep),
            forall|i: int| 0 <= i < keep.len() ==> (#[trigger] keep[i] ==> settings.enabled),
            forall|i: int| 0 <= i < keep.len() ==> (settings.enabled && !manager.cooling().contains(
                alert_key_text(notification_candidates(settings, alerts@.take(k as int))[i].alert_type),
            ) ==> #[trigger] keep[i]),
        decreases alerts@.len() - k,
    {
        let ghost before = alerts@.take(k as int);
        let ghost after = alerts@.take(k + 1);
        let ghost c0 = notification_candidates(settings, before);
        proof {
            assert(after.drop_last() =~= before);
            assert(after.last() == alerts@[k as int]);
        }
        let a = &alerts[k];
        let ghost seen0 = seen@;
        let ghost keep0 = keep;
        let ghost out0 = out@;
        let ghost cand = notifiable(settings, a.severity) && !notifies_kind(settings, before, a.alert_type);
        proof {
            assert(seen0.contains(a.alert_type) <==> notifies_kind(settings, before, a.alert_type));
        }
        if is_notifiable_severity(&settings, &a.severity) {
            let mut found = false;
            let mut j: usize = 0;
            while j < seen.len()
                invariant
                    j <= seen@.len(),
                    found <==> exists|q: int| 0 <= q < j && seen@[q] == a.alert_type,
                decreases seen@.len() - j,
            {
                if seen[j] == a.alert_type {
                    found = true;
                }
                j = j + 1;
            }
            proof {
                if found {
                    let q = choose|q: int| 0 <= q < seen@.len() && seen@[q] == a.alert_type;
                    assert(seen0.contains(a.alert_type));
                } else {
                    assert(!seen0.contains(a.alert_type));
                }
            }
            if !found {
                seen.push(a.alert_type);
                let allowed = manager.should_notify(alert_type_key(&a.alert_type));
                if allowed {
                    out.push(a.clone());
                }
                proof {
                    keep = keep.push(allowed);
                }
            }
        }
        proof {
            let c1 = notification_candidates(settings, after);
            assert forall|t: AlertType| seen@.contains(t) <==> notifies_kind(settings, after, t) by {
                if notifies_kind(settings, before, t) {
                    let i = choose|i: int| 0 <= i < before.len() && notifiable(settings, (#[trigger] before[i]).severity) && before[i].alert_type == t;
                    assert(after[i] == before[i]);
                }
                if notifies_kind(settings, after, t) {
                    let i = choose|i: int| 0 <= i < after.len() && notifiable(settings, (#[trigger] after[i]).severity) && after[i].alert_type == t;
                    if i < k {
                        assert(before[i] == after[i]);
                    } else {
                        assert(after[i] == *a);
                    }
                }
                if cand {
                    assert(seen@ =~= seen0.push(a.alert_type));
                    if t == a.alert_type {
                        assert(after[k as int] == *a);
                        assert(seen@[seen0.len() as int] == t);
                    } else {
                        assert(seen@.contains(t) <==> seen0.contains(t)) by {
                            if seen@.contains(t) {
                                let q = choose|q: int| 0 <= q < seen@.len() && seen@[q] == t;
                                assert(q != seen0.len());
                                assert(seen0[q] == t);
                            }
                            if seen0.contains(t) {
                                let q = choose|q: int| 0 <= q < seen0.len() && seen0[q] == t;
                                assert(seen@[q] == t);
                            }
                        }
                    }
                } else {
                    assert(seen@ == seen0);
                    if t == a.alert_type && notifiable(settings, a.severity) {
                        assert(notifies_kind(settings, before, t));
                    }
                }
            }
            if cand {
                assert(c1 =~= c0.push(*a));
                assert(c1.drop_last() =~= c0);
                assert(keep.drop_last() =~= keep0);
                assert(kept_by(c1, keep) == if keep.last() { kept_by(c0, keep0).push(*a) } else { kept_by(c0, keep0) });
            } else {
                assert(c1 =~= c0);
                assert(keep == keep0);
            }
            assert forall|i: int| 0 <= i < keep.len() && settings.enabled && !manager.cooling().contains(
                alert_key_text(c1[i].alert_type),
            ) implies #[trigger] keep[i] by {
                if i < c0.len() {
                    assert(c1[i] == c0[i]);
                    assert(keep[i] == keep0[i]);
                }
            }
            assert forall|i: int| 0 <= i < keep.len() && #[trigger] keep[i] implies settings.enabled by {
                if i < keep0.len() {
                    assert(keep[i] == keep0[i]);
                }
            }
        }
        k = k + 1;
    }
    proof {
        assert(alerts@.take(alerts@.len() as int) =~= alerts@);
        assert(cooldown_choice(notification_candidates(settings, alerts@), keep, settings.enabled, manager.cooling()));
    }
    out
}


/// The cooldown law: while notifications are on, a kind under cooldown may be
/// notified again exactly when at least the cooldown length (in seconds) has
/// passed since it was last notified, and a kind not under cooldown always
/// may; while they are off, nothing is notified.
pub proof fn lemma_cooldown_law(m: NotificationManager, alert_key: Seq<char>, elapsed_nanos: int)
    ensures
        !m.current().enabled ==> !m.notify_after(alert_key, elapsed_nanos),
        m.current().enabled && !m.cooling().contains(alert_key) ==> m.notify_after(alert_key, elapsed_nanos),
        m.current().enabled && m.cooling().contains(alert_key) ==> (m.notify_after(alert_key, elapsed_nanos) <==> elapsed_nanos
            >= m.cooldown_length() * 1_000_000_000),
{
}

} // verus!
