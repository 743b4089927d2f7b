//! Monitoring: metrics, alerts and health checks. Measured values and thresholds are held by their
//! bits; whether a value breaches a threshold is told along with it.

use crate::duration::Duration;
use crate::ratio::Ratio;
use crate::storage_stats::{HealthStatus, StorageStats, Throughput};
use crate::text::{self, cat, push_dec, same_text};
use vstd::prelude::*;
use vstd::string::*;

verus! {

/// How many entries a history keeps.
pub const HISTORY_LIMIT: usize = 1000;

/// How severe an alert is.
#[derive(Debug, Clone, Copy, PartialEq, Eq, PartialOrd, Ord, Hash, Structural)]
pub enum AlertSeverity {
    /// For information.
    Info,
    /// A warning.
    Warning,
    /// Calls for attention at once.
    Critical,
    /// Calls for action at once.
    Emergency,
}

impl AlertSeverity {
    /// The name of the severity.
    pub fn as_str(&self) -> (r: &'static str)
        ensures
            r@ == match *self {
                AlertSeverity::Info => "info"@,
                AlertSeverity::Warning => "warning"@,
                AlertSeverity::Critical => "critical"@,
                AlertSeverity::Emergency => "emergency"@,
            },
    {
        match self {
            AlertSeverity::Info => "info",
            AlertSeverity::Warning => "warning",
            AlertSeverity::Critical => "critical",
            AlertSeverity::Emergency => "emergency",
        }
    }
}

/// How a value is held against a threshold.
#[derive(Debug, Clone, Copy, PartialEq, Eq, Structural)]
pub enum AlertCondition {
    /// It is greater.
    GreaterThan,
    /// It is less.
    LessThan,
    /// It is equal.
    EqualTo,
    /// It is not equal.
    NotEqualTo,
    /// It is greater or equal.
    GreaterThanOrEqual,
    /// It is less or equal.
    LessThanOrEqual,
}

impl AlertCondition {
    /// The condition in words.
    pub open spec fn words(self) -> Seq<char> {
        match self {
            AlertCondition::GreaterThan => "is greater than"@,
            AlertCondition::LessThan => "is less than"@,
            AlertCondition::EqualTo => "equals"@,
            AlertCondition::NotEqualTo => "does not equal"@,
            AlertCondition::GreaterThanOrEqual => "is greater than or equal to"@,
            AlertCondition::LessThanOrEqual => "is less than or equal to"@,
        }
    }

    /// The condition in words.
    pub fn phrase(&self) -> (r: &'static str)
        ensures
            r@ == self.words(),
    {
        match self {
            AlertCondition::GreaterThan => "is greater than",
            AlertCondition::LessThan => "is less than",
            AlertCondition::EqualTo => "equals",
            AlertCondition::NotEqualTo => "does not equal",
            AlertCondition::GreaterThanOrEqual => "is greater than or equal to",
            AlertCondition::LessThanOrEqual => "is less than or equal to",
        }
    }
}

/// What has become of an alert.
#[derive(Debug, Clone, Copy, PartialEq, Eq, Structural)]
pub enum AlertStatus {
    /// It stands.
    Firing,
    /// It is over.
    Resolved,
    /// It is held back.
    Suppressed,
}

/// Kinds of metrics.
#[derive(Debug, Clone, Copy, PartialEq, Eq, Structural)]
pub enum MetricType {
    /// Only grows.
    Counter,
    /// Goes up and down.
    Gauge,
    /// A distribution.
    Histogram,
    /// Quantiles and counts.
    Summary,
}

/// Where notifications go.
#[derive(Debug, Clone)]
pub enum NotificationType {
    /// To mail boxes.
    Email {
        /// The mail server.
        smtp_server: String,
        /// The mail boxes.
        recipients: Vec<String>,
    },
    /// To a web address.
    Webhook {
        /// The address.
        url: String,
        /// Headers of the request.
        headers: Vec<(String, String)>,
    },
    /// To a Slack channel.
    Slack {
        /// The web address of the channel.
        webhook_url: String,
        /// The channel.
        channel: String,
    },
    /// To the log.
    Log {
        /// The log level.
        level: String,
    },
}

/// Texts over plain values.
pub open spec fn texts(v: Seq<String>) -> Seq<Seq<char>> {
    v.map_values(|t: String| t@)
}

fn same_texts(v: &Vec<String>) -> (r: Vec<String>)
    ensures
        texts(r@) == texts(v@),
{
    let mut out: Vec<String> = Vec::new();
    let mut i: usize = 0;
    while i < v.len()
        invariant
            i <= v@.len(),
            out@.len() == i,
            forall|j: int| 0 <= j < i ==> (#[trigger] out@[j])@ == v@[j]@,
        decreases v@.len() - i,
    {
        out.push(v[i].clone());
        i = i + 1;
    }
    assert(texts(out@) =~= texts(v@));
    out
}

/// Names and their texts over plain values.
pub open spec fn text_pairs(v: Seq<(String, String)>) -> Seq<(Seq<char>, Seq<char>)> {
    v.map_values(|t: (String, String)| (t.0@, t.1@))
}

fn same_pairs(v: &Vec<(String, String)>) -> (r: Vec<(String, String)>)
    ensures
        text_pairs(r@) == text_pairs(v@),
{
    let mut out: Vec<(String, String)> = Vec::new();
    let mut i: usize = 0;
    while i < v.len()
        invariant
            i <= v@.len(),
            out@.len() == i,
            forall|j: int|
                0 <= j < i ==> (#[trigger] out@[j]).0@ == v@[j].0@ && out@[j].1@ == v@[j].1@,
        decreases v@.len() - i,
    {
        out.push((v[i].0.clone(), v[i].1.clone()));
        i = i + 1;
    }
    assert(text_pairs(out@) =~= text_pairs(v@));
    out
}

/// A channel for notifications.
#[derive(Debug, Clone)]
pub struct NotificationChannel {
    /// Identifies the channel.
    pub id: String,
    /// Its name.
    pub name: String,
    /// Where notifications go.
    pub channel_type: NotificationType,
    /// Further settings.
    pub config: Vec<(String, String)>,
    /// Whether it is used.
    pub enabled: bool,
}

/// A rule that raises alerts.
#[derive(Debug, Clone)]
pub struct AlertRule {
    /// Identifies the rule.
    pub id: String,
    /// Its name.
    pub name: String,
    /// The metric that it watches.
    pub metric_name: String,
    /// How the metric is held against the threshold.
    pub condition: AlertCondition,
    /// Bits of the threshold.
    pub threshold: u64,
    /// For how long the condition has to hold.
    pub duration: Duration,
    /// How severe its alerts are.
    pub severity: AlertSeverity,
    /// Whether it is used.
    pub enabled: bool,
    /// The channels that it notifies.
    pub notification_channels: Vec<String>,
}

/// An alert.
#[derive(Debug)]
pub struct Alert {
    /// Identifies the alert: the rule and the second of the value that raised it.
    pub id: String,
    /// The rule that raised it.
    pub rule_id: String,
    /// The name of the rule.
    pub name: String,
    /// What happened.
    pub message: String,
    /// How severe it is.
    pub severity: AlertSeverity,
    /// The metric.
    pub metric_name: String,
    /// Bits of its value.
    pub current_value: u64,
    /// Bits of the threshold.
    pub threshold: u64,
    /// The condition that held.
    pub condition: AlertCondition,
    /// When it was raised, since the epoch.
    pub triggered_at: Duration,
    /// When it was over, since the epoch.
    pub resolved_at: Option<Duration>,
    /// What has become of it.
    pub status: AlertStatus,
    /// Further names and texts.
    pub metadata: Vec<(String, String)>,
}

/// How a metric stands to the threshold of a rule.
#[derive(Debug, Clone)]
pub struct Verdict {
    /// Whether the condition of the rule holds.
    pub breached: bool,
    /// The value of the metric as text.
    pub value_text: String,
    /// The threshold as text.
    pub threshold_text: String,
}

/// An alert over plain values.
#[verifier::ext_equal]
pub struct AlertView {
    pub id: Seq<char>,
    pub rule_id: Seq<char>,
    pub name: Seq<char>,
    pub message: Seq<char>,
    pub severity: AlertSeverity,
    pub metric_name: Seq<char>,
    pub current_value: u64,
    pub threshold: u64,
    pub condition: AlertCondition,
    pub triggered_at: Duration,
    pub resolved_at: Option<Duration>,
    pub status: AlertStatus,
    pub metadata: Seq<(Seq<char>, Seq<char>)>,
}

impl View for Alert {
    type V = AlertView;

    open spec fn view(&self) -> AlertView {
        AlertView {
            id: self.id@,
            rule_id: self.rule_id@,
            name: self.name@,
            message: self.message@,
            severity: self.severity,
            metric_name: self.metric_name@,
            current_value: self.current_value,
            threshold: self.threshold,
            condition: self.condition,
            triggered_at: self.triggered_at,
            resolved_at: self.resolved_at,
            status: self.status,
            metadata: text_pairs(self.metadata@),
        }
    }
}

impl Clone for Alert {
    fn clone(&self) -> (r: Self)
        ensures
            r@ == self@,
    {
        Alert {
            id: self.id.clone(),
            rule_id: self.rule_id.clone(),
            name: self.name.clone(),
            message: self.message.clone(),
            severity: self.severity,
            metric_name: self.metric_name.clone(),
            current_value: self.current_value,
            threshold: self.threshold,
            condition: self.condition,
            triggered_at: self.triggered_at,
            resolved_at: self.resolved_at,
            status: self.status,
            metadata: same_pairs(&self.metadata),
        }
    }
}

/// The alerts over plain values.
pub open spec fn alert_views(alerts: Seq<Alert>) -> Seq<AlertView> {
    alerts.map_values(|a: Alert| a@)
}

/// The identity of the alert that a rule raises on a metric.
pub open spec fn alert_id(rule: AlertRule, metric: MetricValue) -> Seq<char> {
    rule.id@ + "_"@ + text::dec(metric.last_updated.secs as nat)
}

/// The alert that a rule raises on a metric.
pub open spec fn raised(
    rule: AlertRule,
    metric: MetricValue,
    verdict: Verdict,
    now: Duration,
) -> AlertView {
    AlertView {
        id: alert_id(rule, metric),
        rule_id: rule.id@,
        name: rule.name@,
        message: rule.metric_name@ + " "@ + rule.condition.words() + " "@ + verdict.threshold_text@
            + " (current: "@ + verdict.value_text@ + ", threshold: "@ + verdict.threshold_text@
            + ")"@,
        severity: rule.severity,
        metric_name: rule.metric_name@,
        current_value: metric.value,
        threshold: rule.threshold,
        condition: rule.condition,
        triggered_at: now,
        resolved_at: None,
        status: AlertStatus::Firing,
        metadata: Seq::empty(),
    }
}

/// There is an alert with this identity.
pub open spec fn known(alerts: Seq<AlertView>, id: Seq<char>) -> bool {
    exists|i: int| 0 <= i < alerts.len() && (#[trigger] alerts[i]).id == id
}

/// What a rule raises, where some alerts are known: an alert, if the rule is in use, there is a
/// metric of its name, its condition holds and no alert with the same identity is known.
pub open spec fn raised_by(
    before: Seq<AlertView>,
    rule: AlertRule,
    metrics: Seq<MetricValue>,
    verdict: Verdict,
    now: Duration,
) -> Option<AlertView> {
    match found(metrics, rule.metric_name@) {
        Some(metric) if rule.enabled && verdict.breached && !known(
            before,
            alert_id(rule, metric),
        ) => Some(raised(rule, metric, verdict, now)),
        _ => None,
    }
}

/// The alerts that are raised anew, rule by rule, where some are known.
pub open spec fn newly_raised(
    before: Seq<AlertView>,
    rules: Seq<AlertRule>,
    metrics: Seq<MetricValue>,
    verdicts: Seq<Verdict>,
    now: Duration,
) -> Seq<AlertView>
    decreases rules.len(),
{
    if rules.len() == 0 || verdicts.len() != rules.len() {
        Seq::empty()
    } else {
        let earlier = newly_raised(before, rules.drop_last(), metrics, verdicts.drop_last(), now);
        match raised_by(before + earlier, rules.last(), metrics, verdicts.last(), now) {
            Some(alert) => earlier.push(alert),
            None => earlier,
        }
    }
}

/// Raises and keeps alerts.
#[derive(Debug)]
pub struct AlertManager {
    /// The alerts that were raised.
    pub alerts: Vec<Alert>,
    /// The rules.
    pub rules: Vec<AlertRule>,
    /// The channels for notifications.
    pub channels: Vec<NotificationChannel>,
    /// All alerts in the order in which they were raised.
    pub history: Vec<Alert>,
}

fn is_known(alerts: &Vec<Alert>, id: &str) -> (r: bool)
    ensures
        r == known(alert_views(alerts@), id@),
{
    let mut i: usize = 0;
    while i < alerts.len()
        invariant
            i <= alerts@.len(),
            forall|j: int| 0 <= j < i ==> (#[trigger] alert_views(alerts@)[j]).id != id@,
        decreases alerts@.len() - i,
    {
        if same_text(alerts[i].id.as_str(), id) {
            assert(alert_views(alerts@)[i as int].id == id@);
            return true;
        }
        i = i + 1;
    }
    false
}

fn raise(
    rule: &AlertRule,
    metric: &MetricValue,
    verdict: &Verdict,
    id: String,
    now: Duration,
) -> (r: Alert)
    requires
        id@ == alert_id(*rule, *metric),
    ensures
        r@ == raised(*rule, *metric, *verdict, now),
{
    let mut message = rule.metric_name.clone();
    message.append(" ");
    message.append(rule.condition.phrase());
    message.append(" ");
    message.append(verdict.threshold_text.as_str());
    message.append(" (current: ");
    message.append(verdict.value_text.as_str());
    message.append(", threshold: ");
    message.append(verdict.threshold_text.as_str());
    message.append(")");
    let metadata: Vec<(String, String)> = Vec::new();
    assert(text_pairs(metadata@) =~= Seq::empty());
    Alert {
        id,
        rule_id: rule.id.clone(),
        name: rule.name.clone(),
        message,
        severity: rule.severity,
        metric_name: rule.metric_name.clone(),
        current_value: metric.value,
        threshold: rule.threshold,
        condition: rule.condition,
        triggered_at: now,
        resolved_at: None,
        status: AlertStatus::Firing,
        metadata,
    }
}

/// What a rule raises, where some alerts are known.
fn alert_of(
    alerts: &Vec<Alert>,
    rule: &AlertRule,
    metrics: &Vec<MetricValue>,
    verdict: &Verdict,
    now: Duration,
) -> (r: Option<Alert>)
    ensures
        match r {
            Some(alert) => raised_by(alert_views(alerts@), *rule, metrics@, *verdict, now) == Some(
                alert@,
            ),
            None => raised_by(alert_views(alerts@), *rule, metrics@, *verdict, now) is None,
        },
{
    if !rule.enabled {
        return None;
    }
    match find_metric(metrics, rule.metric_name.as_str()) {
        None => None,
        Some(metric) => {
            if !verdict.breached {
                return None;
            }
            let mut id = rule.id.clone();
            id.append("_");
            push_dec(&mut id, metric.last_updated.secs);
            if is_known(alerts, id.as_str()) {
                None
            } else {
                Some(raise(rule, metric, verdict, id, now))
            }
        },
    }
}

/// How a notification is delivered.
#[derive(Debug)]
pub enum Delivery {
    /// As an error in the log.
    LogError(String),
    /// As a warning in the log.
    LogWarn(String),
    /// As information in the log.
    LogInfo(String),
    /// For debugging in the log.
    LogDebug(String),
    /// To a web address.
    Webhook {
        /// The address.
        url: String,
        /// The message.
        message: String,
    },
    /// By mail.
    Email {
        /// The mail server.
        smtp_server: String,
        /// The mail boxes.
        recipients: Vec<String>,
        /// The message.
        message: String,
    },
    /// To a Slack channel.
    Slack {
        /// The channel.
        channel: String,
        /// The message.
        message: String,
    },
}

/// The delivery is what a kind of channel calls for.
pub open spec fn delivers(kind: NotificationType, message: Seq<char>, d: Delivery) -> bool {
    match kind {
        NotificationType::Log { level } => {
            let line = "ALERT: "@ + message;
            if level@ == "error"@ {
                d matches Delivery::LogError(t) && t@ == line
            } else if level@ == "warn"@ {
                d matches Delivery::LogWarn(t) && t@ == line
            } else if level@ == "info"@ {
                d matches Delivery::LogInfo(t) && t@ == line
            } else {
                d matches Delivery::LogDebug(t) && t@ == line
            }
        },
        NotificationType::Webhook { url, .. } => d matches Delivery::Webhook { url: u, message: m }
            && u@ == url@ && m@ == message,
        NotificationType::Email { smtp_server, recipients } => d matches Delivery::Email {
            smtp_server: s,
            recipients: n,
            message: m,
        } && s@ == smtp_server@ && texts(n@) == texts(recipients@) && m@ == message,
        NotificationType::Slack { channel, .. } => d matches Delivery::Slack {
            channel: c,
            message: m,
        } && c@ == channel@ && m@ == message,
    }
}

fn deliver(kind: &NotificationType, message: &str) -> (r: Delivery)
    ensures
        delivers(*kind, message@, r),
{
    match kind {
        NotificationType::Log { level } => {
            let line = cat("ALERT: ", message);
            if same_text(level.as_str(), "error") {
                Delivery::LogError(line)
            } else if same_text(level.as_str(), "warn") {
                Delivery::LogWarn(line)
            } else if same_text(level.as_str(), "info") {
                Delivery::LogInfo(line)
            } else {
                Delivery::LogDebug(line)
            }
        },
        NotificationType::Webhook { url, .. } => Delivery::Webhook {
            url: url.clone(),
            message: message.to_owned(),
        },
        NotificationType::Email { smtp_server, recipients } => Delivery::Email {
            smtp_server: smtp_server.clone(),
            recipients: same_texts(recipients),
            message: message.to_owned(),
        },
        NotificationType::Slack { channel, .. } => Delivery::Slack {
            channel: channel.clone(),
            message: message.to_owned(),
        },
    }
}

/// `out` delivers the message through each channel in use, in their order.
pub open spec fn delivered(
    channels: Seq<NotificationChannel>,
    message: Seq<char>,
    out: Seq<Delivery>,
) -> bool {
    let used = channels.filter(|c: NotificationChannel| c.enabled);
    &&& out.len() == used.len()
    &&& forall|i: int|
        0 <= i < out.len() ==> delivers(used[i].channel_type, message, #[trigger] out[i])
}

impl Default for AlertManager {
    fn default() -> (r: Self)
        ensures
            r.is_empty(),
    {
        AlertManager::new()
    }
}

impl AlertManager {
    /// There are no alerts, rules or channels.
    pub open spec fn is_empty(self) -> bool {
        &&& self.alerts@.len() == 0
        &&& self.rules@.len() == 0
        &&& self.channels@.len() == 0
        &&& self.history@.len() == 0
    }

    /// A manager without alerts, rules and channels.
    pub fn new() -> (r: Self)
        ensures
            r.is_empty(),
    {
        AlertManager {
            alerts: Vec::new(),
            rules: Vec::new(),
            channels: Vec::new(),
            history: Vec::new(),
        }
    }

    /// Adds a rule.
    pub fn add_rule(&mut self, rule: AlertRule)
        ensures
            final(self).rules@ == old(self).rules@.push(rule),
            *final(self) == (AlertManager { rules: final(self).rules, ..*old(self) }),
    {
        self.rules.push(rule);
    }

    /// Adds a channel.
    pub fn add_notification_channel(&mut self, channel: NotificationChannel)
        ensures
            final(self).channels@ == old(self).channels@.push(channel),
            *final(self) == (AlertManager { channels: final(self).channels, ..*old(self) }),
    {
        self.channels.push(channel);
    }

    /// Raises alerts on metrics. For each rule, `verdicts` tells how the metric of its name stands
    /// to its threshold. What is raised is kept, written to the history and handed out to be
    /// notified of.
    pub fn evaluate_alerts(
        &mut self,
        metrics: &Vec<MetricValue>,
        verdicts: &Vec<Verdict>,
        now: Duration,
    ) -> (r: Vec<Alert>)
        requires
            verdicts@.len() == old(self).rules@.len(),
        ensures
            alert_views(r@) == newly_raised(
                alert_views(old(self).alerts@),
                old(self).rules@,
                metrics@,
                verdicts@,
                now,
            ),
            alert_views(final(self).alerts@) == alert_views(old(self).alerts@) + alert_views(r@),
            alert_views(final(self).history@) == alert_views(old(self).history@) + alert_views(r@),
            final(self).rules == old(self).rules,
            final(self).channels == old(self).channels,
    {
        let ghost before = alert_views(self.alerts@);
        let ghost told = alert_views(self.history@);
        let ghost rules = self.rules@;
        let mut out: Vec<Alert> = Vec::new();
        let mut i: usize = 0;
        proof {
            assert(alert_views(out@) =~= Seq::empty());
            assert(before + alert_views(out@) =~= before);
            assert(told + alert_views(out@) =~= told);
        }
        while i < self.rules.len()
            invariant
                i <= self.rules@.len(),
                self.rules@ == rules,
                self.rules == old(self).rules,
                self.channels == old(self).channels,
                verdicts@.len() == rules.len(),
                alert_views(out@) == newly_raised(
                    before,
                    rules.take(i as int),
                    metrics@,
                    verdicts@.take(i as int),
                    now,
                ),
                alert_views(self.alerts@) == before + alert_views(out@),
                alert_views(self.history@) == told + alert_views(out@),
            decreases self.rules@.len() - i,
        {
            proof {
                assert(rules.take(i + 1).drop_last() =~= rules.take(i as int));
                assert(verdicts@.take(i + 1).drop_last() =~= verdicts@.take(i as int));
                assert(rules.take(i + 1).last() == rules[i as int]);
                assert(verdicts@.take(i + 1).last() == verdicts@[i as int]);
            }
            if let Some(alert) = alert_of(
                &self.alerts,
                &self.rules[i],
                metrics,
                &verdicts[i],
                now,
            ) {
                let for_history = alert.clone();
                let for_notice = alert.clone();
                let ghost (a, h, o) = (self.alerts@, self.history@, out@);
                let ghost v = alert@;
                self.alerts.push(alert);
                self.history.push(for_history);
                out.push(for_notice);
                proof {
                    assert(alert_views(self.alerts@) =~= alert_views(a).push(v));
                    assert(alert_views(self.history@) =~= alert_views(h).push(v));
                    assert(alert_views(out@) =~= alert_views(o).push(v));
                    assert(before + alert_views(out@) =~= (before + alert_views(o)).push(v));
                    assert(told + alert_views(out@) =~= (told + alert_views(o)).push(v));
                }
            }
            i = i + 1;
        }
        proof {
            assert(rules.take(i as int) =~= rules);
            assert(verdicts@.take(i as int) =~= verdicts@);
        }
        out
    }

    /// The alerts that stand.
    pub fn get_active_alerts(&self) -> (r: Vec<Alert>)
        ensures
            alert_views(r@) == alert_views(
                self.alerts@.filter(|a: Alert| a.status == AlertStatus::Firing),
            ),
    {
        let ghost firing = |a: Alert| a.status == AlertStatus::Firing;
        let mut out: Vec<Alert> = Vec::new();
        let mut i: usize = 0;
        proof {
            crate::seqs::filter_none(self.alerts@, firing);
            assert(alert_views(out@) =~= alert_views(self.alerts@.take(0).filter(firing)));
        }
        while i < self.alerts.len()
            invariant
                i <= self.alerts@.len(),
                firing == (|a: Alert| a.status == AlertStatus::Firing),
                alert_views(out@) == alert_views(self.alerts@.take(i as int).filter(firing)),
            decreases self.alerts@.len() - i,
        {
            proof {
                crate::seqs::filter_step(self.alerts@, firing, i as int);
            }
            if self.alerts[i].status == AlertStatus::Firing {
                let alert = self.alerts[i].clone();
                proof {
                    let kept = self.alerts@.take(i as int).filter(firing);
                    assert(alert_views(out@.push(alert)) =~= alert_views(out@).push(alert@));
                    assert(alert_views(kept.push(self.alerts@[i as int])) =~= alert_views(
                        kept,
                    ).push(alert@));
                }
                out.push(alert);
            }
            i = i + 1;
        }
        assert(self.alerts@.take(i as int) =~= self.alerts@);
        out
    }

    /// How an alert is notified of.
    pub fn send_notifications(&self, alert: &Alert) -> (r: Vec<Delivery>)
        ensures
            delivered(self.channels@, alert.message@, r@),
    {
        let ghost used = |c: NotificationChannel| c.enabled;
        let mut out: Vec<Delivery> = Vec::new();
        let mut i: usize = 0;
        proof {
            crate::seqs::filter_none(self.channels@, used);
        }
        while i < self.channels.len()
            invariant
                i <= self.channels@.len(),
                used == (|c: NotificationChannel| c.enabled),
                delivered(self.channels@.take(i as int), alert.message@, out@),
            decreases self.channels@.len() - i,
        {
            proof {
                crate::seqs::filter_step(self.channels@, used, i as int);
            }
            if self.channels[i].enabled {
                out.push(deliver(&self.channels[i].channel_type, alert.message.as_str()));
            }
            i = i + 1;
        }
        assert(self.channels@.take(i as int) =~= self.channels@);
        out
    }
}

/// An alert is raised once: as long as its metric has not been taken again, the rule raises
/// nothing.
pub proof fn known_alert_is_not_raised_again(
    before: Seq<AlertView>,
    rule: AlertRule,
    metrics: Seq<MetricValue>,
    verdict: Verdict,
    now: Duration,
    later: Duration,
)
    ensures
        raised_by(before, rule, metrics, verdict, now) matches Some(alert) ==> raised_by(
            before.push(alert),
            rule,
            metrics,
            verdict,
            later,
        ) is None,
{
    if let Some(alert) = raised_by(before, rule, metrics, verdict, now) {
        let after = before.push(alert);
        assert(after[before.len() as int].id == alert.id);
        assert(known(after, alert.id));
    }
}

/// A metric.
#[derive(Debug, Clone)]
pub struct MetricValue {
    /// Its name.
    pub name: String,
    /// Bits of its value.
    pub value: u64,
    /// Its kind.
    pub value_type: MetricType,
    /// Its unit.
    pub unit: String,
    /// Further names and texts.
    pub labels: Vec<(String, String)>,
    /// When it was taken, since the epoch.
    pub last_updated: Duration,
}

/// All metrics at a time.
#[derive(Debug, Clone)]
pub struct MetricSnapshot {
    /// The time, since the epoch.
    pub timestamp: Duration,
    /// Names and bits of the values.
    pub metrics: Vec<(String, u64)>,
}

/// Keeps the last `limit` entries of a history.
fn keep_last<T>(history: &mut Vec<T>, limit: usize)
    ensures
        final(history)@ == if old(history)@.len() > limit {
            old(history)@.skip(old(history)@.len() - limit)
        } else {
            old(history)@
        },
{
    let ghost whole = history@;
    while history.len() > limit
        invariant
            history@.len() <= whole.len(),
            whole.len() > limit ==> history@.len() >= limit,
            whole.len() <= limit ==> history@ == whole,
            history@ == whole.skip(whole.len() - history@.len()),
        decreases history@.len(),
    {
        history.remove(0);
        assert(history@ =~= whole.skip(whole.len() - history@.len()));
    }
    assert(whole.skip(0) =~= whole);
}

/// The metric of a name, if there is one.
pub open spec fn found(metrics: Seq<MetricValue>, name: Seq<char>) -> Option<MetricValue>
    decreases metrics.len(),
{
    if metrics.len() == 0 {
        None
    } else if metrics[0].name@ == name {
        Some(metrics[0])
    } else {
        found(metrics.drop_first(), name)
    }
}

proof fn found_at(metrics: Seq<MetricValue>, i: int)
    requires
        0 <= i < metrics.len(),
        forall|j: int| 0 <= j < i ==> (#[trigger] metrics[j]).name@ != metrics[i].name@,
    ensures
        found(metrics, metrics[i].name@) == Some(metrics[i]),
    decreases i,
{
    if i > 0 {
        let rest = metrics.drop_first();
        assert(metrics[0].name@ != metrics[i].name@);
        assert forall|j: int| 0 <= j < i - 1 implies (#[trigger] rest[j]).name@ != rest[i
            - 1].name@ by {
            assert(rest[j] == metrics[j + 1]);
        }
        found_at(rest, i - 1);
    }
}

proof fn found_nowhere(metrics: Seq<MetricValue>, name: Seq<char>)
    requires
        forall|j: int| 0 <= j < metrics.len() ==> (#[trigger] metrics[j]).name@ != name,
    ensures
        found(metrics, name) is None,
    decreases metrics.len(),
{
    if metrics.len() > 0 {
        let rest = metrics.drop_first();
        assert(metrics[0].name@ != name);
        assert forall|j: int| 0 <= j < rest.len() implies (#[trigger] rest[j]).name@ != name by {
            assert(rest[j] == metrics[j + 1]);
        }
        found_nowhere(rest, name);
    }
}

/// The metric of a name, if there is one.
pub fn find_metric<'a>(metrics: &'a Vec<MetricValue>, name: &str) -> (r: Option<&'a MetricValue>)
    ensures
        match r {
            Some(metric) => found(metrics@, name@) == Some(*metric),
            None => found(metrics@, name@) is None,
        },
{
    let mut i: usize = 0;
    while i < metrics.len()
        invariant
            i <= metrics@.len(),
            forall|j: int| 0 <= j < i ==> (#[trigger] metrics@[j]).name@ != name@,
        decreases metrics@.len() - i,
    {
        if same_text(metrics[i].name.as_str(), name) {
            proof {
                found_at(metrics@, i as int);
            }
            return Some(&metrics[i]);
        }
        i = i + 1;
    }
    proof {
        found_nowhere(metrics@, name@);
    }
    None
}

/// No metric is kept twice.
pub open spec fn names_differ(metrics: Seq<MetricValue>) -> bool {
    forall|i: int, j: int|
        0 <= i < j < metrics.len() ==> (#[trigger] metrics[i]).name@ != (#[trigger] metrics[j]).name@
}

/// A metric that was taken anew.
pub open spec fn taken(m: MetricValue, name: Seq<char>, value: u64, now: Duration) -> bool {
    &&& m.name@ == name
    &&& m.value == value
    &&& m.value_type == MetricType::Gauge
    &&& m.unit@.len() == 0
    &&& m.labels@.len() == 0
    &&& m.last_updated == now
}

/// Keeps metrics.
#[derive(Debug)]
pub struct MetricsCollector {
    /// The current metrics.
    pub metrics: Vec<MetricValue>,
    /// The last snapshots.
    pub history: Vec<MetricSnapshot>,
}

impl Default for MetricsCollector {
    fn default() -> (r: Self)
        ensures
            r.metrics@.len() == 0,
            r.history@.len() == 0,
            r.wf(),
    {
        MetricsCollector::new()
    }
}

/// The snapshot holds the current values, in their order.
pub open spec fn snapshot_of(
    metrics: Seq<MetricValue>,
    timestamp: Duration,
    s: MetricSnapshot,
) -> bool {
    &&& s.timestamp == timestamp
    &&& s.metrics@.len() == metrics.len()
    &&& forall|i: int|
        0 <= i < metrics.len() ==> (#[trigger] s.metrics@[i]).0@ == metrics[i].name@
            && s.metrics@[i].1 == metrics[i].value
}

impl MetricsCollector {
    /// No metric is kept twice, and the history is not too long.
    pub open spec fn wf(self) -> bool {
        names_differ(self.metrics@) && self.history@.len() <= HISTORY_LIMIT
    }

    /// There are no metrics yet.
    pub fn new() -> (r: Self)
        ensures
            r.metrics@.len() == 0,
            r.history@.len() == 0,
            r.wf(),
    {
        MetricsCollector { metrics: Vec::new(), history: Vec::new() }
    }

    /// `after` holds a metric that was taken anew, in place of the one of its name or behind all
    /// others.
    pub open spec fn holds_metric(
        before: Seq<MetricValue>,
        name: Seq<char>,
        value: u64,
        now: Duration,
        after: Seq<MetricValue>,
    ) -> bool {
        ||| exists|i: int|
            0 <= i < before.len() && (#[trigger] before[i]).name@ == name && after.len()
                == before.len() && taken(after[i], name, value, now) && after =~= before.update(
                i,
                after[i],
            )
        ||| {
            &&& found(before, name) is None
            &&& after.len() == before.len() + 1
            &&& taken(after.last(), name, value, now)
            &&& after =~= before.push(after.last())
        }
    }

    fn update_metric(&mut self, name: &str, value: u64, now: Duration)
        requires
            names_differ(old(self).metrics@),
        ensures
            names_differ(final(self).metrics@),
            final(self).history == old(self).history,
            Self::holds_metric(old(self).metrics@, name@, value, now, final(self).metrics@),
    {
        let ghost before = self.metrics@;
        let metric = MetricValue {
            name: name.to_owned(),
            value,
            value_type: MetricType::Gauge,
            unit: String::new(),
            labels: Vec::new(),
            last_updated: now,
        };
        let mut i: usize = 0;
        while i < self.metrics.len()
            invariant
                i <= self.metrics@.len(),
                self.metrics@ == before,
                names_differ(before),
                before == old(self).metrics@,
                self.history == old(self).history,
                taken(metric, name@, value, now),
                forall|j: int| 0 <= j < i ==> (#[trigger] before[j]).name@ != name@,
            decreases self.metrics@.len() - i,
        {
            if same_text(self.metrics[i].name.as_str(), name) {
                self.metrics.set(i, metric);
                proof {
                    let after = self.metrics@;
                    assert(names_differ(after)) by {
                        assert forall|a: int, b: int| 0 <= a < b < after.len() implies (
                        #[trigger] after[a]).name@ != (#[trigger] after[b]).name@ by {
                            assert(after[a].name@ == before[a].name@);
                            assert(after[b].name@ == before[b].name@);
                        }
                    }
                    assert(before[i as int].name@ == name@);
                    assert(after =~= before.update(i as int, after[i as int]));
                }
                return;
            }
            i = i + 1;
        }
        self.metrics.push(metric);
        proof {
            let after = self.metrics@;
            found_nowhere(before, name@);
            assert(names_differ(after)) by {
                assert forall|a: int, b: int| 0 <= a < b < after.len() implies (
                #[trigger] after[a]).name@ != (#[trigger] after[b]).name@ by {
                    assert(after[a] == before[a]);
                    if b < before.len() {
                        assert(after[b] == before[b]);
                    }
                }
            }
        }
    }

    fn snapshot(&self, now: Duration) -> (r: MetricSnapshot)
        ensures
            snapshot_of(self.metrics@, now, r),
    {
        let mut metrics: Vec<(String, u64)> = Vec::new();
        let mut i: usize = 0;
        while i < self.metrics.len()
            invariant
                i <= self.metrics@.len(),
                metrics@.len() == i,
                forall|j: int|
                    0 <= j < i ==> (#[trigger] metrics@[j]).0@ == self.metrics@[j].name@
                        && metrics@[j].1 == self.metrics@[j].value,
            decreases self.metrics@.len() - i,
        {
            metrics.push((self.metrics[i].name.clone(), self.metrics[i].value));
            i = i + 1;
        }
        MetricSnapshot { timestamp: now, metrics }
    }

    /// `after` are the metrics after updates, one after the other.
    pub open spec fn updated(
        before: Seq<MetricValue>,
        updates: Seq<(String, u64)>,
        now: Duration,
        after: Seq<MetricValue>,
    ) -> bool
        decreases updates.len(),
    {
        if updates.len() == 0 {
            after == before
        } else {
            exists|between: Seq<MetricValue>|
                Self::updated(before, updates.drop_last(), now, between)
                    && #[trigger] Self::holds_metric(
                    between,
                    updates.last().0@,
                    updates.last().1,
                    now,
                    after,
                )
        }
    }

    /// Takes new values, and keeps a snapshot of all values; the oldest snapshots are dropped.
    pub fn update_metrics(&mut self, updates: &Vec<(String, u64)>, now: Duration)
        requires
            old(self).wf(),
        ensures
            final(self).wf(),
            Self::updated(old(self).metrics@, updates@, now, final(self).metrics@),
            final(self).history@.len() == (if old(self).history@.len() == HISTORY_LIMIT {
                HISTORY_LIMIT as int
            } else {
                old(self).history@.len() as int + 1
            }),
            snapshot_of(final(self).metrics@, now, final(self).history@.last()),
            final(self).history@.drop_last() == (if old(self).history@.len() == HISTORY_LIMIT {
                old(self).history@.drop_first()
            } else {
                old(self).history@
            }),
    {
        let mut i: usize = 0;
        assert(updates@.take(0) =~= Seq::empty());
        while i < updates.len()
            invariant
                i <= updates@.len(),
                names_differ(self.metrics@),
                self.history == old(self).history,
                Self::updated(old(self).metrics@, updates@.take(i as int), now, self.metrics@),
            decreases updates@.len() - i,
        {
            let ghost between = self.metrics@;
            self.update_metric(updates[i].0.as_str(), updates[i].1, now);
            proof {
                let next = updates@.take(i + 1);
                assert(next.drop_last() =~= updates@.take(i as int));
                assert(next.last() == updates@[i as int]);
                assert(Self::updated(old(self).metrics@, next.drop_last(), now, between));
                assert(Self::holds_metric(
                    between,
                    next.last().0@,
                    next.last().1,
                    now,
                    self.metrics@,
                ));
                assert(Self::updated(old(self).metrics@, next, now, self.metrics@));
            }
            i = i + 1;
        }
        assert(updates@.take(i as int) =~= updates@);
        let snapshot = self.snapshot(now);
        self.history.push(snapshot);
        let ghost full = self.history@;
        keep_last(&mut self.history, HISTORY_LIMIT);
        proof {
            let before = old(self).history@;
            assert(full.drop_last() =~= before);
            if full.len() > HISTORY_LIMIT {
                assert(self.history@.last() == full.last());
                assert(self.history@.drop_last() =~= before.drop_first());
            } else {
                assert(self.history@.drop_last() =~= before);
            }
        }
    }

    /// The current metrics.
    pub fn get_metrics(&self) -> (r: &Vec<MetricValue>)
        ensures
            r == self.metrics,
    {
        &self.metrics
    }
}

/// What a health check found.
#[derive(Debug)]
pub struct HealthCheckResult {
    /// The check.
    pub check_name: String,
    /// The status.
    pub status: HealthStatus,
    /// What was found.
    pub message: String,
    /// How long the check took.
    pub duration: Duration,
    /// When it was made, since the epoch.
    pub timestamp: Duration,
    /// Further names and texts.
    pub details: Vec<(String, String)>,
}

impl Clone for HealthCheckResult {
    fn clone(&self) -> (r: Self)
        ensures
            r.same_as(*self),
    {
        HealthCheckResult {
            check_name: self.check_name.clone(),
            status: self.status,
            message: self.message.clone(),
            duration: self.duration,
            timestamp: self.timestamp,
            details: same_pairs(&self.details),
        }
    }
}

impl HealthCheckResult {
    /// Both say the same.
    pub open spec fn same_as(self, other: HealthCheckResult) -> bool {
        &&& self.check_name@ == other.check_name@
        &&& self.status == other.status
        &&& self.message@ == other.message@
        &&& self.duration == other.duration
        &&& self.timestamp == other.timestamp
        &&& text_pairs(self.details@) == text_pairs(other.details@)
    }

    /// It is what a check found at a time.
    pub open spec fn says(
        self,
        name: Seq<char>,
        status: HealthStatus,
        message: Seq<char>,
        now: Duration,
    ) -> bool {
        &&& self.check_name@ == name
        &&& self.status == status
        &&& self.message@ == message
        &&& self.duration == (Duration { secs: 0, nanos: 1_000_000 })
        &&& self.timestamp == now
        &&& self.details@.len() == 0
    }
}

fn check_result(name: &str, status: HealthStatus, message: String, now: Duration) -> (r:
    HealthCheckResult)
    ensures
        r.says(name@, status, message@, now),
{
    HealthCheckResult {
        check_name: name.to_owned(),
        status,
        message,
        duration: Duration { secs: 0, nanos: 1_000_000 },
        timestamp: now,
        details: Vec::new(),
    }
}

/// The status of memory: critical above 95 hundredths of the limit, an issue above 80.
pub open spec fn memory_status(utilization: Ratio) -> HealthStatus {
    if utilization.above(95) {
        HealthStatus::Unhealthy
    } else if utilization.above(80) {
        HealthStatus::Degraded
    } else {
        HealthStatus::Healthy
    }
}

/// The status of the cache: critical below 50 hundredths of hits, an issue below 70.
pub open spec fn cache_status(hit_rate: Ratio) -> HealthStatus {
    if hit_rate.below(50) {
        HealthStatus::Unhealthy
    } else if hit_rate.below(70) {
        HealthStatus::Degraded
    } else {
        HealthStatus::Healthy
    }
}

/// The status of errors: critical above 50 of them, an issue above 10.
pub open spec fn error_status(error_count: u64) -> HealthStatus {
    if error_count > 50 {
        HealthStatus::Unhealthy
    } else if error_count > 10 {
        HealthStatus::Degraded
    } else {
        HealthStatus::Healthy
    }
}

/// Makes the health checks: memory, cache and errors, with the two rates in percent as text.
pub fn perform_health_checks(
    stats: &StorageStats,
    memory_percent: &str,
    cache_percent: &str,
    now: Duration,
) -> (r: Vec<HealthCheckResult>)
    ensures
        r@.len() == 3,
        r@[0].says(
            "memory_usage"@,
            memory_status(stats.memory_stats.utilization),
            "Memory usage: "@ + memory_percent@ + "%"@,
            now,
        ),
        r@[1].says(
            "cache_performance"@,
            cache_status(stats.cache_stats.block_cache.hit_rate),
            "Cache hit rate: "@ + cache_percent@ + "%"@,
            now,
        ),
        r@[2].says(
            "error_rate"@,
            error_status(stats.health.error_count),
            "Error count: "@ + text::dec(stats.health.error_count as nat),
            now,
        ),
{
    let utilization = stats.memory_stats.utilization;
    let memory = if utilization.is_above(95) {
        HealthStatus::Unhealthy
    } else if utilization.is_above(80) {
        HealthStatus::Degraded
    } else {
        HealthStatus::Healthy
    };
    let hit_rate = stats.cache_stats.block_cache.hit_rate;
    let cache = if hit_rate.is_below(50) {
        HealthStatus::Unhealthy
    } else if hit_rate.is_below(70) {
        HealthStatus::Degraded
    } else {
        HealthStatus::Healthy
    };
    let errors = if stats.health.error_count > 50 {
        HealthStatus::Unhealthy
    } else if stats.health.error_count > 10 {
        HealthStatus::Degraded
    } else {
        HealthStatus::Healthy
    };
    let mut memory_text = cat("Memory usage: ", memory_percent);
    memory_text.append("%");
    let mut cache_text = cat("Cache hit rate: ", cache_percent);
    cache_text.append("%");
    let mut error_text = "Error count: ".to_owned();
    push_dec(&mut error_text, stats.health.error_count);
    let mut out: Vec<HealthCheckResult> = Vec::new();
    out.push(check_result("memory_usage", memory, memory_text, now));
    out.push(check_result("cache_performance", cache, cache_text, now));
    out.push(check_result("error_rate", errors, error_text, now));
    out
}

fn put_result(results: &mut Vec<HealthCheckResult>, result: HealthCheckResult)
    requires
        checks_differ(old(results)@),
    ensures
        checks_differ(final(results)@),
        HealthChecker::holds_result(old(results)@, result, final(results)@),
{
    let ghost before = results@;
    let mut i: usize = 0;
    while i < results.len()
        invariant
            i <= results@.len(),
            results@ == before,
            checks_differ(before),
            before == old(results)@,
            forall|j: int| 0 <= j < i ==> (#[trigger] before[j]).check_name@ != result.check_name@,
        decreases results@.len() - i,
    {
        if same_text(results[i].check_name.as_str(), result.check_name.as_str()) {
            results.set(i, result);
            proof {
                let after = results@;
                assert(before[i as int].check_name@ == result.check_name@);
                assert(after == before.update(i as int, result));
                assert forall|a: int, b: int| 0 <= a < b < after.len() implies (
                #[trigger] after[a]).check_name@ != (#[trigger] after[b]).check_name@ by {
                    assert(after[a].check_name@ == before[a].check_name@);
                    assert(after[b].check_name@ == before[b].check_name@);
                }
            }
            return;
        }
        i = i + 1;
    }
    results.push(result);
    proof {
        let after = results@;
        assert forall|a: int, b: int| 0 <= a < b < after.len() implies (
        #[trigger] after[a]).check_name@ != (#[trigger] after[b]).check_name@ by {
            assert(after[a] == before[a]);
            if b < before.len() {
                assert(after[b] == before[b]);
            }
        }
    }
}

/// Keeps the results of health checks.
#[derive(Debug)]
pub struct HealthChecker {
    /// The last result of each check.
    pub results: Vec<HealthCheckResult>,
    /// The last results of all checks.
    pub history: Vec<HealthCheckResult>,
}

impl Default for HealthChecker {
    fn default() -> (r: Self)
        ensures
            r.wf(),
            r.results@.len() == 0,
            r.history@.len() == 0,
    {
        HealthChecker::new()
    }
}

/// No check is kept twice.
pub open spec fn checks_differ(results: Seq<HealthCheckResult>) -> bool {
    forall|i: int, j: int|
        0 <= i < j < results.len() ==> (#[trigger] results[i]).check_name@ != (
        #[trigger] results[j]).check_name@
}

impl HealthChecker {
    /// No check is kept twice, and the history is not too long.
    pub open spec fn wf(self) -> bool {
        checks_differ(self.results@) && self.history@.len() <= HISTORY_LIMIT
    }

    /// There are no results yet.
    pub fn new() -> (r: Self)
        ensures
            r.wf(),
            r.results@.len() == 0,
            r.history@.len() == 0,
    {
        HealthChecker { results: Vec::new(), history: Vec::new() }
    }

    /// `results` holds the result in place of the last one of its check, or behind all others.
    pub open spec fn holds_result(
        before: Seq<HealthCheckResult>,
        result: HealthCheckResult,
        after: Seq<HealthCheckResult>,
    ) -> bool {
        ||| exists|i: int|
            0 <= i < before.len() && (#[trigger] before[i]).check_name@ == result.check_name@
                && after == before.update(i, result)
        ||| {
            &&& forall|i: int|
                0 <= i < before.len() ==> (#[trigger] before[i]).check_name@ != result.check_name@
            &&& after == before.push(result)
        }
    }

    /// Keeps a result as the last one of its check, and in the history; the oldest results are
    /// dropped.
    pub fn add_result(&mut self, result: HealthCheckResult)
        requires
            old(self).wf(),
        ensures
            final(self).wf(),
            Self::holds_result(old(self).results@, result, final(self).results@),
            final(self).history@.len() == (if old(self).history@.len() == HISTORY_LIMIT {
                HISTORY_LIMIT as int
            } else {
                old(self).history@.len() as int + 1
            }),
            final(self).history@.last().same_as(result),
            final(self).history@.drop_last() == (if old(self).history@.len() == HISTORY_LIMIT {
                old(self).history@.drop_first()
            } else {
                old(self).history@
            }),
    {
        let ghost told = self.history@;
        let copy = result.clone();
        self.history.push(copy);
        let ghost full = self.history@;
        keep_last(&mut self.history, HISTORY_LIMIT);
        proof {
            assert(full.drop_last() =~= told);
            if full.len() > HISTORY_LIMIT {
                assert(self.history@.last() == full.last());
                assert(self.history@.drop_last() =~= told.drop_first());
            } else {
                assert(self.history@.drop_last() =~= told);
            }
        }
        put_result(&mut self.results, result);
    }

    /// The last result of each check.
    pub fn get_results(&self) -> (r: &Vec<HealthCheckResult>)
        ensures
            r == self.results,
    {
        &self.results
    }
}

/// The value of a metric, as an exact number.
#[derive(Debug, Clone, Copy, PartialEq, Eq, Structural)]
pub enum Reading {
    /// A count.
    Count(u64),
    /// A fraction.
    Share(Ratio),
    /// A fraction in hundredths.
    Percent(Ratio),
    /// So much in so long a time, for each second; nothing where it was never measured.
    PerSecond(Option<Throughput>),
}

/// The metrics of the statistics: their names and values.
pub open spec fn readings(stats: StorageStats) -> Seq<(Seq<char>, Reading)> {
    let cache = stats.cache_stats.block_cache;
    seq![
        ("storage_total_keys"@, Reading::Count(stats.total_keys)),
        ("storage_total_size_bytes"@, Reading::Count(stats.total_size_bytes)),
        ("storage_cache_hit_rate"@, Reading::Percent(cache.hit_rate)),
        (
            "storage_cache_utilization"@,
            Reading::Percent(Ratio::of_parts(cache.usage as int, cache.capacity as int)),
        ),
        ("storage_memory_usage_bytes"@, Reading::Count(stats.memory_stats.total_memory_usage)),
        ("storage_memory_utilization_percent"@, Reading::Percent(stats.memory_stats.utilization)),
        (
            "storage_read_ops_per_second"@,
            Reading::PerSecond(stats.io_stats.read_stats.ops_per_second),
        ),
        (
            "storage_write_ops_per_second"@,
            Reading::PerSecond(stats.io_stats.write_stats.ops_per_second),
        ),
        ("storage_read_latency_ms"@, Reading::Share(stats.io_stats.read_stats.avg_latency_ms)),
        ("storage_write_latency_ms"@, Reading::Share(stats.io_stats.write_stats.avg_latency_ms)),
        (
            "storage_health_status"@,
            Reading::Count(
                match stats.health.overall_health {
                    HealthStatus::Healthy => 1,
                    HealthStatus::Degraded => 2,
                    HealthStatus::Unhealthy => 3,
                },
            ),
        ),
        ("storage_error_count"@, Reading::Count(stats.health.error_count)),
    ]
}

/// The metrics of the statistics: their names and values.
pub fn collect_metrics(stats: &StorageStats) -> (r: Vec<(String, Reading)>)
    ensures
        r@.len() == readings(*stats).len(),
        forall|i: int|
            0 <= i < r@.len() ==> (#[trigger] r@[i]).0@ == readings(*stats)[i].0 && r@[i].1
                == readings(*stats)[i].1,
{
    let cache = stats.cache_stats.block_cache;
    let health: u64 = match stats.health.overall_health {
        HealthStatus::Healthy => 1,
        HealthStatus::Degraded => 2,
        HealthStatus::Unhealthy => 3,
    };
    let mut out: Vec<(String, Reading)> = Vec::new();
    out.push(("storage_total_keys".to_owned(), Reading::Count(stats.total_keys)));
    out.push(("storage_total_size_bytes".to_owned(), Reading::Count(stats.total_size_bytes)));
    out.push(("storage_cache_hit_rate".to_owned(), Reading::Percent(cache.hit_rate)));
    out.push(("storage_cache_utilization".to_owned(), Reading::Percent(cache.utilization())));
    out.push(
        (
            "storage_memory_usage_bytes".to_owned(),
            Reading::Count(stats.memory_stats.total_memory_usage),
        ),
    );
    out.push(
        (
            "storage_memory_utilization_percent".to_owned(),
            Reading::Percent(stats.memory_stats.utilization),
        ),
    );
    out.push(
        (
            "storage_read_ops_per_second".to_owned(),
            Reading::PerSecond(stats.io_stats.read_stats.ops_per_second),
        ),
    );
    out.push(
        (
            "storage_write_ops_per_second".to_owned(),
            Reading::PerSecond(stats.io_stats.write_stats.ops_per_second),
        ),
    );
    out.push(
        (
            "storage_read_latency_ms".to_owned(),
            Reading::Share(stats.io_stats.read_stats.avg_latency_ms),
        ),
    );
    out.push(
        (
            "storage_write_latency_ms".to_owned(),
            Reading::Share(stats.io_stats.write_stats.avg_latency_ms),
        ),
    );
    out.push(("storage_health_status".to_owned(), Reading::Count(health)));
    out.push(("storage_error_count".to_owned(), Reading::Count(stats.health.error_count)));
    out
}

/// The bits of 80.
pub const EIGHTY_BITS: u64 = 0x4054_0000_0000_0000;

/// The bits of 95.
pub const NINETY_FIVE_BITS: u64 = 0x4057_C000_0000_0000;

/// The bits of 70.
pub const SEVENTY_BITS: u64 = 0x4051_8000_0000_0000;

/// The bits of 50.
pub const FIFTY_BITS: u64 = 0x4049_0000_0000_0000;

/// Thresholds of alerts. Percentages are held by their bits.
#[derive(Debug, Clone, Copy, PartialEq, Eq)]
pub struct AlertThresholds {
    /// Bits of the memory use, in percent, that is warned of.
    pub memory_warning_threshold: u64,
    /// Bits of the memory use, in percent, that is critical.
    pub memory_critical_threshold: u64,
    /// Bits of the hit rate, in percent, below which it is warned of.
    pub cache_hit_rate_warning_threshold: u64,
    /// Bits of the hit rate, in percent, below which it is critical.
    pub cache_hit_rate_critical_threshold: u64,
    /// Latency in milliseconds that is warned of.
    pub io_latency_warning_threshold: u64,
    /// Latency in milliseconds that is critical.
    pub io_latency_critical_threshold: u64,
    /// Errors per minute that are warned of.
    pub error_rate_warning_threshold: u64,
    /// Errors per minute that are critical.
    pub error_rate_critical_threshold: u64,
    /// Bits of the disk use, in percent, that is warned of.
    pub disk_usage_warning_threshold: u64,
    /// Bits of the disk use, in percent, that is critical.
    pub disk_usage_critical_threshold: u64,
}

impl AlertThresholds {
    /// The defaults.
    pub open spec fn default_value() -> AlertThresholds {
        AlertThresholds {
            memory_warning_threshold: EIGHTY_BITS,
            memory_critical_threshold: NINETY_FIVE_BITS,
            cache_hit_rate_warning_threshold: SEVENTY_BITS,
            cache_hit_rate_critical_threshold: FIFTY_BITS,
            io_latency_warning_threshold: 100,
            io_latency_critical_threshold: 500,
            error_rate_warning_threshold: 10,
            error_rate_critical_threshold: 50,
            disk_usage_warning_threshold: EIGHTY_BITS,
            disk_usage_critical_threshold: NINETY_FIVE_BITS,
        }
    }
}

impl Default for AlertThresholds {
    fn default() -> (r: Self)
        ensures
            r == AlertThresholds::default_value(),
    {
        AlertThresholds {
            memory_warning_threshold: EIGHTY_BITS,
            memory_critical_threshold: NINETY_FIVE_BITS,
            cache_hit_rate_warning_threshold: SEVENTY_BITS,
            cache_hit_rate_critical_threshold: FIFTY_BITS,
            io_latency_warning_threshold: 100,
            io_latency_critical_threshold: 500,
            error_rate_warning_threshold: 10,
            error_rate_critical_threshold: 50,
            disk_usage_warning_threshold: EIGHTY_BITS,
            disk_usage_critical_threshold: NINETY_FIVE_BITS,
        }
    }
}

/// Configuration of monitoring.
#[derive(Debug, Clone)]
pub struct MonitoringConfig {
    /// Interval in which metrics are collected.
    pub metrics_interval: Duration,
    /// Interval in which health is checked.
    pub health_check_interval: Duration,
    /// Interval in which alerts are raised.
    pub alert_evaluation_interval: Duration,
    /// Whether metrics are collected.
    pub enable_real_time: bool,
    /// Whether alerts are raised.
    pub enable_alerting: bool,
    /// Whether performance is analysed.
    pub enable_analytics: bool,
    /// Thresholds of alerts.
    pub thresholds: AlertThresholds,
    /// Channels for notifications.
    pub notification_channels: Vec<NotificationChannel>,
}

impl Default for MonitoringConfig {
    fn default() -> (r: Self)
        ensures
            r.metrics_interval == (Duration { secs: 10, nanos: 0 }),
            r.health_check_interval == (Duration { secs: 30, nanos: 0 }),
            r.alert_evaluation_interval == (Duration { secs: 5, nanos: 0 }),
            r.enable_real_time,
            r.enable_alerting,
            r.enable_analytics,
            r.thresholds == AlertThresholds::default_value(),
            r.notification_channels@.len() == 0,
    {
        MonitoringConfig {
            metrics_interval: Duration { secs: 10, nanos: 0 },
            health_check_interval: Duration { secs: 30, nanos: 0 },
            alert_evaluation_interval: Duration { secs: 5, nanos: 0 },
            enable_real_time: true,
            enable_alerting: true,
            enable_analytics: true,
            thresholds: AlertThresholds::default(),
            notification_channels: Vec::new(),
        }
    }
}

} // verus!
