//! What monitoring comes to: when a check warns, which alerts are raised and who is told, and what
//! becomes of a metric that is updated.

use crate::duration::Duration;
use crate::monitoring::{
    self, Alert, AlertManager, AlertRule, AlertStatus, Delivery, HealthCheckResult, HealthChecker,
    MetricValue, MetricsCollector, NotificationType, Reading, Verdict,
};
use crate::seqs;
use crate::storage_stats::{
    self, CacheMetrics, CoreStorageStats, HealthStatus, IoMetrics, MemoryStats, StorageStats,
};
use crate::text;
use vstd::prelude::*;
use vstd::string::*;

verus! {

/// The check of the cache tells an unhealthy state exactly if less than 50 of 100 lookups hit, and a
/// healthy one exactly if at least 70 do.
pub proof fn cache_check_follows_hit_rate(
    stats: StorageStats,
    memory_percent: &str,
    cache_percent: &str,
    now: Duration,
    r: Vec<HealthCheckResult>,
)
    requires
        call_ensures(
            monitoring::perform_health_checks,
            (&stats, memory_percent, cache_percent, now),
            r,
        ),
    ensures
        ({
            let rate = stats.cache_stats.block_cache.hit_rate;
            &&& r@[1].check_name@ == "cache_performance"@
            &&& r@[1].status == HealthStatus::Unhealthy <==> rate.part * 100 < 50 * rate.whole
            &&& r@[1].status == HealthStatus::Healthy <==> rate.part * 100 >= 70 * rate.whole
        }),
{
}

/// The check of the memory tells an unhealthy state exactly if more than 95 of 100 parts are used,
/// and a healthy one exactly if no more than 80 are.
pub proof fn memory_check_follows_utilization(
    stats: StorageStats,
    memory_percent: &str,
    cache_percent: &str,
    now: Duration,
    r: Vec<HealthCheckResult>,
)
    requires
        call_ensures(
            monitoring::perform_health_checks,
            (&stats, memory_percent, cache_percent, now),
            r,
        ),
    ensures
        ({
            let used = stats.memory_stats.utilization;
            &&& r@[0].check_name@ == "memory_usage"@
            &&& r@[0].status == HealthStatus::Unhealthy <==> used.part * 100 > 95 * used.whole
            &&& r@[0].status == HealthStatus::Healthy <==> used.part * 100 <= 80 * used.whole
        }),
{
}

/// The check of the errors tells an unhealthy state exactly if there were more than 50, and a healthy
/// one exactly if there were no more than 10.
pub proof fn error_check_follows_count(
    stats: StorageStats,
    memory_percent: &str,
    cache_percent: &str,
    now: Duration,
    r: Vec<HealthCheckResult>,
)
    requires
        call_ensures(
            monitoring::perform_health_checks,
            (&stats, memory_percent, cache_percent, now),
            r,
        ),
    ensures
        r@[2].check_name@ == "error_rate"@,
        r@[2].status == HealthStatus::Unhealthy <==> stats.health.error_count > 50,
        r@[2].status == HealthStatus::Healthy <==> stats.health.error_count <= 10,
        r@[2].message@ == "Error count: "@ + text::dec(stats.health.error_count as nat),
{
}

/// How bad a state is.
pub open spec fn badness(status: HealthStatus) -> int {
    match status {
        HealthStatus::Healthy => 0,
        HealthStatus::Degraded => 1,
        HealthStatus::Unhealthy => 2,
    }
}

/// A lower hit rate never gives a better state of the cache, a higher use of the memory never gives a
/// better state of the memory, and more errors never give a better state.
pub proof fn worse_figures_never_look_better(
    better: StorageStats,
    worse: StorageStats,
    memory_percent: &str,
    cache_percent: &str,
    now: Duration,
    r: Vec<HealthCheckResult>,
    s: Vec<HealthCheckResult>,
)
    requires
        call_ensures(
            monitoring::perform_health_checks,
            (&better, memory_percent, cache_percent, now),
            r,
        ),
        call_ensures(
            monitoring::perform_health_checks,
            (&worse, memory_percent, cache_percent, now),
            s,
        ),
    ensures
        ({
            let (a, b) = (
                better.cache_stats.block_cache.hit_rate,
                worse.cache_stats.block_cache.hit_rate,
            );
            a.whole > 0 && b.whole > 0 && b.part * a.whole <= a.part * b.whole ==> badness(
                r@[1].status,
            ) <= badness(s@[1].status)
        }),
        ({
            let (a, b) = (better.memory_stats.utilization, worse.memory_stats.utilization);
            a.whole > 0 && b.whole > 0 && a.part * b.whole <= b.part * a.whole ==> badness(
                r@[0].status,
            ) <= badness(s@[0].status)
        }),
        better.health.error_count <= worse.health.error_count ==> badness(r@[2].status) <= badness(
            s@[2].status,
        ),
{
    let (a, b) = (better.cache_stats.block_cache.hit_rate, worse.cache_stats.block_cache.hit_rate);
    if a.whole > 0 && b.whole > 0 && b.part * a.whole <= a.part * b.whole {
        share_is_below(b.part as int, b.whole as int, a.part as int, a.whole as int, 50);
        share_is_below(b.part as int, b.whole as int, a.part as int, a.whole as int, 70);
    }
    let (c, d) = (better.memory_stats.utilization, worse.memory_stats.utilization);
    if c.whole > 0 && d.whole > 0 && c.part * d.whole <= d.part * c.whole {
        share_is_above(c.part as int, c.whole as int, d.part as int, d.whole as int, 80);
        share_is_above(c.part as int, c.whole as int, d.part as int, d.whole as int, 95);
    }
}

proof fn share_is_below(p: int, w: int, q: int, v: int, limit: int)
    requires
        0 < w,
        0 < v,
        p * v <= q * w,
    ensures
        q * 100 < limit * v ==> p * 100 < limit * w,
{
    assert(q * 100 < limit * v ==> p * 100 < limit * w) by (nonlinear_arith)
        requires
            0 < w,
            0 < v,
            p * v <= q * w,
    ;
}

proof fn share_is_above(p: int, w: int, q: int, v: int, limit: int)
    requires
        0 < w,
        0 < v,
        p * v <= q * w,
    ensures
        p * 100 > limit * w ==> q * 100 > limit * v,
{
    assert(p * 100 > limit * w ==> q * 100 > limit * v) by (nonlinear_arith)
        requires
            0 < w,
            0 < v,
            p * v <= q * w,
    ;
}

proof fn found_is_first(metrics: Seq<MetricValue>, name: Seq<char>)
    ensures
        match monitoring::found(metrics, name) {
            Some(m) => exists|j: int|
                0 <= j < metrics.len() && (#[trigger] metrics[j]) == m && m.name@ == name && (
                forall|i: int| 0 <= i < j ==> (#[trigger] metrics[i]).name@ != name),
            None => forall|j: int| 0 <= j < metrics.len() ==> (#[trigger] metrics[j]).name@ != name,
        },
    decreases metrics.len(),
{
    if metrics.len() > 0 {
        if metrics[0].name@ != name {
            let rest = metrics.drop_first();
            found_is_first(rest, name);
            if let Some(m) = monitoring::found(metrics, name) {
                let j = choose|j: int|
                    0 <= j < rest.len() && (#[trigger] rest[j]) == m && m.name@ == name && (forall|
                        i: int,
                    |
                        0 <= i < j ==> (#[trigger] rest[i]).name@ != name);
                assert(metrics[j + 1] == m);
                assert forall|i: int| 0 <= i < j + 1 implies (#[trigger] metrics[i]).name@ != name by {
                    if i > 0 {
                        assert(metrics[i] == rest[i - 1]);
                    }
                }
            } else {
                assert forall|j: int| 0 <= j < metrics.len() implies (#[trigger] metrics[j]).name@
                    != name by {
                    if j > 0 {
                        assert(metrics[j] == rest[j - 1]);
                    }
                }
            }
        } else {
            assert(metrics[0].name@ == name);
        }
    }
}

/// A metric that is found by its name is the first one of that name, and none is found exactly if
/// none has it.
pub proof fn metric_is_found_by_name(
    metrics: Vec<MetricValue>,
    name: &str,
    r: Option<&MetricValue>,
)
    requires
        call_ensures(monitoring::find_metric, (&metrics, name), r),
    ensures
        match r {
            Some(m) => exists|j: int|
                0 <= j < metrics@.len() && (#[trigger] metrics@[j]) == *m && m.name@ == name@ && (
                forall|i: int| 0 <= i < j ==> (#[trigger] metrics@[i]).name@ != name@),
            None => forall|j: int|
                0 <= j < metrics@.len() ==> (#[trigger] metrics@[j]).name@ != name@,
        },
{
    found_is_first(metrics@, name@);
}

/// The message names the metric, what is current and what the threshold is.
pub open spec fn message_tells(message: Seq<char>, rule: AlertRule, verdict: Verdict) -> bool {
    &&& text::contains(message, rule.metric_name@)
    &&& text::contains(message, "current: "@ + verdict.value_text@)
    &&& text::contains(message, "threshold: "@ + verdict.threshold_text@)
}

/// The alert is raised by the rule: it tells of the metric's value and of the rule's threshold, and
/// fires from now on.
pub open spec fn told_by(
    alert: Alert,
    rule: AlertRule,
    metric: MetricValue,
    verdict: Verdict,
    now: Duration,
) -> bool {
    &&& message_tells(alert.message@, rule, verdict)
    &&& alert.rule_id@ == rule.id@
    &&& alert.id@ == rule.id@ + "_"@ + text::dec(metric.last_updated.secs as nat)
    &&& alert.name@ == rule.name@
    &&& alert.metric_name@ == rule.metric_name@
    &&& alert.metric_name@ == metric.name@
    &&& alert.current_value == metric.value
    &&& alert.threshold == rule.threshold
    &&& alert.condition == rule.condition
    &&& alert.severity == rule.severity
    &&& alert.status == AlertStatus::Firing
    &&& alert.triggered_at == now
    &&& alert.resolved_at is None
}

/// There is a rule that is enabled and breached, and the alert is raised by it.
pub open spec fn tells_of_breach(
    alert: Alert,
    rules: Seq<AlertRule>,
    metrics: Seq<MetricValue>,
    verdicts: Seq<Verdict>,
    now: Duration,
) -> bool {
    exists|i: int, j: int|
        0 <= i < rules.len() && 0 <= j < metrics.len() && rules[i].enabled && verdicts[i].breached
            && #[trigger] told_by(alert, rules[i], metrics[j], verdicts[i], now)
}

spec fn view_told_by(
    alert: monitoring::AlertView,
    rule: AlertRule,
    metric: MetricValue,
    verdict: Verdict,
    now: Duration,
) -> bool {
    &&& message_tells(alert.message, rule, verdict)
    &&& alert.rule_id == rule.id@
    &&& alert.id == rule.id@ + "_"@ + text::dec(metric.last_updated.secs as nat)
    &&& alert.name == rule.name@
    &&& alert.metric_name == rule.metric_name@
    &&& alert.metric_name == metric.name@
    &&& alert.current_value == metric.value
    &&& alert.threshold == rule.threshold
    &&& alert.condition == rule.condition
    &&& alert.severity == rule.severity
    &&& alert.status == AlertStatus::Firing
    &&& alert.triggered_at == now
    &&& alert.resolved_at is None
}

spec fn raised_for(
    alert: monitoring::AlertView,
    rules: Seq<AlertRule>,
    metrics: Seq<MetricValue>,
    verdicts: Seq<Verdict>,
    now: Duration,
    i: int,
    j: int,
) -> bool {
    &&& 0 <= i < rules.len()
    &&& 0 <= j < metrics.len()
    &&& rules[i].enabled
    &&& verdicts[i].breached
    &&& view_told_by(alert, rules[i], metrics[j], verdicts[i], now)
}

spec fn is_due(
    alert: monitoring::AlertView,
    rules: Seq<AlertRule>,
    metrics: Seq<MetricValue>,
    verdicts: Seq<Verdict>,
    now: Duration,
) -> bool {
    exists|i: int, j: int| raised_for(alert, rules, metrics, verdicts, now, i, j)
}

proof fn raised_message_tells(rule: AlertRule, metric: MetricValue, verdict: Verdict, now: Duration)
    ensures
        message_tells(monitoring::raised(rule, metric, verdict, now).message, rule, verdict),
{
    reveal_strlit(" (current: ");
    reveal_strlit(", threshold: ");
    reveal_strlit("current: ");
    reveal_strlit("threshold: ");
    let m = monitoring::raised(rule, metric, verdict, now).message;
    let name = rule.metric_name@;
    assert(m.subrange(0, name.len() as int) =~= name);
    assert(text::part_at(m, name, 0));
    let limit = verdict.threshold_text@;
    let current = "current: "@ + verdict.value_text@;
    let i = name.len() + 1 + rule.condition.words().len() + 1 + limit.len() + 2;
    reveal_strlit(" ");
    assert(m.subrange(i as int, (i + current.len()) as int) =~= current);
    assert(text::part_at(m, current, i as int));
    let told = "threshold: "@ + limit;
    let j = i + current.len() + 2;
    assert(m.subrange(j as int, (j + told.len()) as int) =~= told);
    assert(text::part_at(m, told, j as int));
}

proof fn raised_alerts_are_due(
    before: Seq<monitoring::AlertView>,
    rules: Seq<AlertRule>,
    metrics: Seq<MetricValue>,
    verdicts: Seq<Verdict>,
    now: Duration,
)
    requires
        verdicts.len() == rules.len(),
    ensures
        ({
            let fresh = monitoring::newly_raised(before, rules, metrics, verdicts, now);
            &&& forall|k: int|
                0 <= k < fresh.len() ==> is_due(#[trigger] fresh[k], rules, metrics, verdicts, now)
            &&& forall|k: int, b: int|
                0 <= k < fresh.len() && 0 <= b < before.len() ==> (#[trigger] fresh[k]).id != (
                #[trigger] before[b]).id
            &&& forall|k: int, l: int|
                0 <= k < l < fresh.len() ==> (#[trigger] fresh[k]).id != (#[trigger] fresh[l]).id
            &&& forall|i: int|
                0 <= i < rules.len() && (#[trigger] rules[i]).enabled && verdicts[i].breached ==> (
                monitoring::found(metrics, rules[i].metric_name@) matches Some(m)
                    ==> monitoring::known(before + fresh, monitoring::alert_id(rules[i], m)))
        }),
    decreases rules.len(),
{
    let fresh = monitoring::newly_raised(before, rules, metrics, verdicts, now);
    if rules.len() > 0 {
        let (r0, v0) = (rules.drop_last(), verdicts.drop_last());
        let earlier = monitoring::newly_raised(before, r0, metrics, v0, now);
        raised_alerts_are_due(before, r0, metrics, v0, now);
        let n = rules.len() - 1;
        found_is_first(metrics, rules[n].metric_name@);
        let last = monitoring::raised_by(before + earlier, rules[n], metrics, verdicts[n], now);
        assert forall|k: int| 0 <= k < fresh.len() implies is_due(
            #[trigger] fresh[k],
            rules,
            metrics,
            verdicts,
            now,
        ) by {
            if k < earlier.len() {
                assert(fresh[k] == earlier[k]);
                assert(is_due(earlier[k], r0, metrics, v0, now));
                let (i, j) = choose|i: int, j: int|
                    raised_for(earlier[k], r0, metrics, v0, now, i, j);
                assert(r0[i] == rules[i] && v0[i] == verdicts[i]);
                assert(raised_for(fresh[k], rules, metrics, verdicts, now, i, j));
            } else {
                let m = monitoring::found(metrics, rules[n].metric_name@)->Some_0;
                let j = choose|j: int|
                    0 <= j < metrics.len() && (#[trigger] metrics[j]) == m && m.name@
                        == rules[n].metric_name@ && (forall|i: int|
                        0 <= i < j ==> (#[trigger] metrics[i]).name@ != rules[n].metric_name@);
                raised_message_tells(rules[n], m, verdicts[n], now);
                assert(raised_for(fresh[k], rules, metrics, verdicts, now, n, j));
            }
        }
        assert forall|k: int, b: int| 0 <= k < fresh.len() && 0 <= b < before.len() implies (
        #[trigger] fresh[k]).id != (#[trigger] before[b]).id by {
            if k < earlier.len() {
                assert(fresh[k] == earlier[k]);
            } else {
                assert((before + earlier)[b] == before[b]);
            }
        }
        assert forall|k: int, l: int| 0 <= k < l < fresh.len() implies (#[trigger] fresh[k]).id != (
        #[trigger] fresh[l]).id by {
            assert(fresh[k] == earlier[k]);
            if l < earlier.len() {
                assert(fresh[l] == earlier[l]);
            } else {
                assert((before + earlier)[before.len() + k] == earlier[k]);
            }
        }
        assert forall|i: int|
            0 <= i < rules.len() && (#[trigger] rules[i]).enabled && verdicts[i].breached implies (
        monitoring::found(metrics, rules[i].metric_name@) matches Some(m) ==> monitoring::known(
            before + fresh,
            monitoring::alert_id(rules[i], m),
        )) by {
            if let Some(m) = monitoring::found(metrics, rules[i].metric_name@) {
                let id = monitoring::alert_id(rules[i], m);
                if i < n {
                    assert(r0[i] == rules[i] && v0[i] == verdicts[i]);
                    assert(monitoring::known(before + earlier, id));
                    known_stays(before + earlier, before + fresh, id);
                } else if monitoring::known(before + earlier, id) {
                    known_stays(before + earlier, before + fresh, id);
                } else {
                    assert((before + fresh)[(before.len() + earlier.len()) as int].id == id);
                }
            }
        }
    }
}

proof fn known_stays(
    a: Seq<monitoring::AlertView>,
    b: Seq<monitoring::AlertView>,
    id: Seq<char>,
)
    requires
        monitoring::known(a, id),
        a.len() <= b.len(),
        forall|i: int| 0 <= i < a.len() ==> #[trigger] b[i] == a[i],
    ensures
        monitoring::known(b, id),
{
    let i = choose|i: int| 0 <= i < a.len() && (#[trigger] a[i]).id == id;
    assert(b[i].id == id);
}

/// An alert is raised only by a rule that is enabled and breached, and tells of that rule and of the
/// metric that the rule watches; it is new, and it is kept with those before it.
pub proof fn raised_alerts_tell_of_breaches(
    m: &mut AlertManager,
    metrics: Vec<MetricValue>,
    verdicts: Vec<Verdict>,
    now: Duration,
    r: Vec<Alert>,
)
    requires
        verdicts@.len() == old(m).rules@.len(),
        call_ensures(AlertManager::evaluate_alerts, (m, &metrics, &verdicts, now), r),
    ensures
        forall|k: int|
            0 <= k < r@.len() ==> tells_of_breach(
                #[trigger] r@[k],
                old(m).rules@,
                metrics@,
                verdicts@,
                now,
            ),
        forall|k: int, b: int|
            0 <= k < r@.len() && 0 <= b < old(m).alerts@.len() ==> (#[trigger] r@[k]).id@ != (
            #[trigger] old(m).alerts@[b]).id@,
        forall|k: int, l: int|
            0 <= k < l < r@.len() ==> (#[trigger] r@[k]).id@ != (#[trigger] r@[l]).id@,
        final(m).alerts@.len() == old(m).alerts@.len() + r@.len(),
        final(m).history@.len() == old(m).history@.len() + r@.len(),
        forall|b: int|
            0 <= b < old(m).alerts@.len() ==> (#[trigger] final(m).alerts@[b])@ == old(m).alerts@[b]@,
        forall|k: int|
            0 <= k < r@.len() ==> final(m).alerts@[old(m).alerts@.len() + k]@ == (
            #[trigger] r@[k])@ && final(m).history@[old(m).history@.len() + k]@ == r@[k]@,
{
    let before = monitoring::alert_views(old(m).alerts@);
    let rules = old(m).rules@;
    let fresh = monitoring::newly_raised(before, rules, metrics@, verdicts@, now);
    raised_alerts_are_due(before, rules, metrics@, verdicts@, now);
    let shown = monitoring::alert_views(r@);
    let (all, told) = (
        monitoring::alert_views(final(m).alerts@),
        monitoring::alert_views(final(m).history@),
    );
    assert(shown == fresh);
    assert(all == before + shown);
    assert(all.len() == final(m).alerts@.len() && told.len() == final(m).history@.len());
    assert(shown.len() == r@.len() && before.len() == old(m).alerts@.len());
    let earlier = monitoring::alert_views(old(m).history@);
    assert(told == earlier + shown && earlier.len() == old(m).history@.len());
    assert forall|k: int| 0 <= k < r@.len() implies tells_of_breach(
        #[trigger] r@[k],
        rules,
        metrics@,
        verdicts@,
        now,
    ) by {
        assert(shown[k] == r@[k]@);
        assert(is_due(fresh[k], rules, metrics@, verdicts@, now));
        let (i, j) = choose|i: int, j: int|
            raised_for(fresh[k], rules, metrics@, verdicts@, now, i, j);
        assert(told_by(r@[k], rules[i], metrics@[j], verdicts@[i], now));
    }
    assert forall|k: int, b: int| 0 <= k < r@.len() && 0 <= b < old(m).alerts@.len() implies (
    #[trigger] r@[k]).id@ != (#[trigger] old(m).alerts@[b]).id@ by {
        assert(shown[k] == r@[k]@);
        assert(before[b] == old(m).alerts@[b]@);
    }
    assert forall|k: int, l: int| 0 <= k < l < r@.len() implies (#[trigger] r@[k]).id@ != (
    #[trigger] r@[l]).id@ by {
        assert(shown[k] == r@[k]@ && shown[l] == r@[l]@);
    }
    assert forall|b: int| 0 <= b < old(m).alerts@.len() implies (#[trigger] final(m).alerts@[b])@
        == old(m).alerts@[b]@ by {
        assert(all[b] == final(m).alerts@[b]@);
        assert(before[b] == old(m).alerts@[b]@);
    }
    assert forall|k: int| 0 <= k < r@.len() implies final(m).alerts@[old(m).alerts@.len() + k]@ == (
    #[trigger] r@[k])@ && final(m).history@[old(m).history@.len() + k]@ == r@[k]@ by {
        assert(shown[k] == r@[k]@);
        assert(all[before.len() + k] == final(m).alerts@[old(m).alerts@.len() + k]@);
        assert(told[earlier.len() + k] == final(m).history@[old(m).history@.len() + k]@);
    }
}

/// Every rule that is enabled and breached, and whose metric there is, has an alert for the state of
/// the metric from then on.
pub proof fn every_breach_has_its_alert(
    m: &mut AlertManager,
    metrics: Vec<MetricValue>,
    verdicts: Vec<Verdict>,
    now: Duration,
    r: Vec<Alert>,
    i: int,
    j: int,
)
    requires
        verdicts@.len() == old(m).rules@.len(),
        call_ensures(AlertManager::evaluate_alerts, (m, &metrics, &verdicts, now), r),
        0 <= i < old(m).rules@.len(),
        old(m).rules@[i].enabled,
        verdicts@[i].breached,
        0 <= j < metrics@.len(),
        metrics@[j].name@ == old(m).rules@[i].metric_name@,
        forall|k: int|
            0 <= k < j ==> (#[trigger] metrics@[k]).name@ != old(m).rules@[i].metric_name@,
    ensures
        exists|k: int|
            0 <= k < final(m).alerts@.len() && (#[trigger] final(m).alerts@[k]).id@ == old(m).rules@[i].id@ + "_"@ + text::dec(metrics@[j].last_updated.secs as nat),
{
    let before = monitoring::alert_views(old(m).alerts@);
    let rules = old(m).rules@;
    raised_alerts_are_due(before, rules, metrics@, verdicts@, now);
    found_is_first(metrics@, rules[i].metric_name@);
    let metric = monitoring::found(metrics@, rules[i].metric_name@)->Some_0;
    let l = choose|l: int|
        0 <= l < metrics@.len() && (#[trigger] metrics@[l]) == metric && metric.name@
            == rules[i].metric_name@ && (forall|k: int|
            0 <= k < l ==> (#[trigger] metrics@[k]).name@ != rules[i].metric_name@);
    assert(l == j);
    let all = monitoring::alert_views(final(m).alerts@);
    let id = monitoring::alert_id(rules[i], metric);
    assert(monitoring::known(all, id));
    let k = choose|k: int| 0 <= k < all.len() && (#[trigger] all[k]).id == id;
    assert(all[k] == final(m).alerts@[k]@);
    assert(final(m).alerts@[k].id@ == id);
}

/// The alerts that are told as active are those that fire, in their order.
pub proof fn active_alerts_fire(m: AlertManager, r: Vec<Alert>)
    requires
        call_ensures(AlertManager::get_active_alerts, (&m,), r),
    ensures
        exists|at: Seq<int>|
            {
                &&& #[trigger] at.len() == r@.len()
                &&& forall|k: int|
                    0 <= k < at.len() ==> 0 <= #[trigger] at[k] < m.alerts@.len()
                        && m.alerts@[at[k]]@ == r@[k]@ && r@[k].status == AlertStatus::Firing
                &&& forall|k: int, l: int|
                    0 <= k < l < at.len() ==> #[trigger] at[k] < #[trigger] at[l]
                &&& forall|i: int|
                    0 <= i < m.alerts@.len() && (#[trigger] m.alerts@[i]).status
                        == AlertStatus::Firing ==> at.contains(i)
            },
{
    let keep = |a: Alert| a.status == AlertStatus::Firing;
    let at = seqs::filter_places(m.alerts@, keep);
    let kept = m.alerts@.filter(keep);
    let shown = monitoring::alert_views(r@);
    assert(shown == monitoring::alert_views(kept));
    assert(shown.len() == r@.len());
    assert(monitoring::alert_views(kept).len() == kept.len());
    assert forall|k: int| 0 <= k < at.len() implies 0 <= #[trigger] at[k] < m.alerts@.len()
        && m.alerts@[at[k]]@ == r@[k]@ && r@[k].status == AlertStatus::Firing by {
        assert(m.alerts@[at[k]] == kept[k]);
        assert(shown[k] == r@[k]@);
        assert(monitoring::alert_views(kept)[k] == kept[k]@);
        assert(keep(kept[k]));
        assert(r@[k]@.status == r@[k].status);
    }
    assert(at.len() == r@.len());
}

/// Each channel that is enabled gets the message of the alert, in its own way, and no other channel
/// gets it.
pub proof fn enabled_channels_get_the_message(m: AlertManager, alert: Alert, r: Vec<Delivery>)
    requires
        call_ensures(AlertManager::send_notifications, (&m, &alert), r),
    ensures
        exists|at: Seq<int>|
            {
                &&& #[trigger] at.len() == r@.len()
                &&& forall|k: int|
                    0 <= k < at.len() ==> 0 <= #[trigger] at[k] < m.channels@.len()
                        && m.channels@[at[k]].enabled && match r@[k] {
                        Delivery::LogError(t) => m.channels@[at[k]].channel_type
                            matches NotificationType::Log { level } && level@ == "error"@ && t@
                            == "ALERT: "@ + alert.message@,
                        Delivery::LogWarn(t) => m.channels@[at[k]].channel_type
                            matches NotificationType::Log { level } && level@ == "warn"@ && t@
                            == "ALERT: "@ + alert.message@,
                        Delivery::LogInfo(t) => m.channels@[at[k]].channel_type
                            matches NotificationType::Log { level } && level@ == "info"@ && t@
                            == "ALERT: "@ + alert.message@,
                        Delivery::LogDebug(t) => m.channels@[at[k]].channel_type
                            matches NotificationType::Log { level } && level@ != "error"@ && level@
                            != "warn"@ && level@ != "info"@ && t@ == "ALERT: "@ + alert.message@,
                        Delivery::Webhook { url, message } => m.channels@[at[k]].channel_type
                            matches NotificationType::Webhook { url: u, .. } && url@ == u@
                            && message@ == alert.message@,
                        Delivery::Email { smtp_server, recipients, message } => m.channels@[at[k]].channel_type
                            matches NotificationType::Email { smtp_server: s, recipients: n }
                            && smtp_server@ == s@ && same_all(recipients@, n@) && message@
                            == alert.message@,
                        Delivery::Slack { channel, message } => m.channels@[at[k]].channel_type
                            matches NotificationType::Slack { channel: c, .. } && channel@ == c@
                            && message@ == alert.message@,
                    }
                &&& forall|k: int, l: int|
                    0 <= k < l < at.len() ==> #[trigger] at[k] < #[trigger] at[l]
                &&& forall|i: int|
                    0 <= i < m.channels@.len() && (#[trigger] m.channels@[i]).enabled
                        ==> at.contains(i)
            },
{
    let keep = |c: monitoring::NotificationChannel| c.enabled;
    let at = seqs::filter_places(m.channels@, keep);
    let used = m.channels@.filter(keep);
    assert(at.len() == r@.len());
    assert forall|k: int| 0 <= k < at.len() implies m.channels@[#[trigger] at[k]] == used[k]
        && monitoring::delivers(used[k].channel_type, alert.message@, r@[k]) by {
        assert(keep(m.channels@[at[k]]));
    }
    assert forall|k: int| 0 <= k < at.len() implies (r@[k] matches Delivery::Email {
        recipients,
        ..
    } ==> (m.channels@[#[trigger] at[k]].channel_type matches NotificationType::Email {
        recipients: n,
        ..
    } && same_all(recipients@, n@))) by {
        if let Delivery::Email { recipients, .. } = r@[k] {
            if let NotificationType::Email { recipients: n, .. } = m.channels@[at[k]].channel_type {
                let (a, b) = (monitoring::texts(recipients@), monitoring::texts(n@));
                assert(a == b);
                assert(a.len() == recipients@.len() && b.len() == n@.len());
                assert forall|i: int| 0 <= i < n@.len() implies (#[trigger] recipients@[i])@
                    == n@[i]@ by {
                    assert(a[i] == recipients@[i]@ && b[i] == n@[i]@);
                }
            }
        }
    }
}

/// The texts are the same, one for one.
pub open spec fn same_all(a: Seq<String>, b: Seq<String>) -> bool {
    &&& a.len() == b.len()
    &&& forall|i: int| 0 <= i < b.len() ==> (#[trigger] a[i])@ == b[i]@
}

proof fn updates_are_held(
    before: Seq<MetricValue>,
    updates: Seq<(String, u64)>,
    now: Duration,
    after: Seq<MetricValue>,
)
    requires
        MetricsCollector::updated(before, updates, now, after),
    ensures
        after.len() >= before.len(),
        forall|j: int|
            0 <= j < updates.len() && (forall|l: int|
                j < l < updates.len() ==> (#[trigger] updates[l]).0@ != updates[j].0@)
                ==> exists|i: int|
                0 <= i < after.len() && (#[trigger] after[i]).name@ == (#[trigger] updates[j]).0@
                    && after[i].value == updates[j].1 && after[i].last_updated == now,
        forall|i: int|
            0 <= i < before.len() && (forall|j: int|
                0 <= j < updates.len() ==> (#[trigger] updates[j]).0@ != before[i].name@)
                ==> #[trigger] after[i] == before[i],
        forall|i: int|
            0 <= i < before.len() ==> (#[trigger] after[i]).name@ == before[i].name@,
        forall|i: int|
            before.len() <= i < after.len() ==> exists|j: int|
                0 <= j < updates.len() && (#[trigger] updates[j]).0@ == (
                #[trigger] after[i]).name@,
    decreases updates.len(),
{
    if updates.len() > 0 {
        let less = updates.drop_last();
        let n = updates.len() - 1;
        let (name, value) = (updates[n].0@, updates[n].1);
        let between = choose|between: Seq<MetricValue>|
            MetricsCollector::updated(before, less, now, between)
                && #[trigger] MetricsCollector::holds_metric(between, name, value, now, after);
        updates_are_held(before, less, now, between);
        let at = if exists|i: int|
            0 <= i < between.len() && (#[trigger] between[i]).name@ == name && after.len()
                == between.len() && monitoring::taken(after[i], name, value, now) && after
                =~= between.update(i, after[i]) {
            choose|i: int|
                0 <= i < between.len() && (#[trigger] between[i]).name@ == name && after.len()
                    == between.len() && monitoring::taken(after[i], name, value, now) && after
                    =~= between.update(i, after[i])
        } else {
            between.len() as int
        };
        assert(0 <= at < after.len() && monitoring::taken(after[at], name, value, now));
        assert forall|i: int| 0 <= i < between.len() && i != at implies #[trigger] after[i]
            == between[i] by {}
        assert forall|j: int|
            0 <= j < updates.len() && (forall|l: int|
                j < l < updates.len() ==> (#[trigger] updates[l]).0@ != updates[j].0@) implies exists|
            i: int,
        |
            0 <= i < after.len() && (#[trigger] after[i]).name@ == (#[trigger] updates[j]).0@
                && after[i].value == updates[j].1 && after[i].last_updated == now by {
            if j == n {
                assert(after[at].name@ == updates[j].0@);
            } else {
                assert(less[j] == updates[j]);
                assert forall|l: int| j < l < less.len() implies (#[trigger] less[l]).0@
                    != less[j].0@ by {
                    assert(less[l] == updates[l]);
                }
                let i = choose|i: int|
                    0 <= i < between.len() && (#[trigger] between[i]).name@ == less[j].0@
                        && between[i].value == less[j].1 && between[i].last_updated == now;
                assert(updates[n].0@ != updates[j].0@);
                assert(after[i] == between[i]);
            }
        }
        assert forall|i: int|
            0 <= i < before.len() && (forall|j: int|
                0 <= j < updates.len() ==> (#[trigger] updates[j]).0@ != before[i].name@) implies #[trigger] after[i]
            == before[i] by {
            assert forall|j: int| 0 <= j < less.len() implies (#[trigger] less[j]).0@
                != before[i].name@ by {
                assert(less[j] == updates[j]);
            }
            assert(between[i] == before[i]);
            assert(updates[n].0@ != before[i].name@);
            assert(after[i] == between[i]);
        }
        assert forall|i: int| 0 <= i < before.len() implies (#[trigger] after[i]).name@
            == before[i].name@ by {
            assert(between[i].name@ == before[i].name@);
        }
        assert forall|i: int| before.len() <= i < after.len() implies exists|j: int|
            0 <= j < updates.len() && (#[trigger] updates[j]).0@ == (#[trigger] after[i]).name@ by {
            if i == at {
                assert(updates[n].0@ == after[i].name@);
            } else {
                assert(after[i] == between[i]);
                let j = choose|j: int|
                    0 <= j < less.len() && (#[trigger] less[j]).0@ == between[i].name@;
                assert(updates[j] == less[j]);
            }
        }
    }
}

/// After an update a metric has the last value that was given for its name; a metric for which none
/// was given stays as it is, and no other metric appears.
pub proof fn last_value_counts(
    c: &mut MetricsCollector,
    updates: Vec<(String, u64)>,
    now: Duration,
)
    requires
        old(c).wf(),
        call_ensures(MetricsCollector::update_metrics, (c, &updates, now), ()),
    ensures
        forall|j: int|
            0 <= j < updates@.len() && (forall|l: int|
                j < l < updates@.len() ==> (#[trigger] updates@[l]).0@ != updates@[j].0@)
                ==> exists|i: int|
                0 <= i < final(c).metrics@.len() && (#[trigger] final(c).metrics@[i]).name@ == (
                #[trigger] updates@[j]).0@ && final(c).metrics@[i].value == updates@[j].1 && final(c).metrics@[i].last_updated == now,
        forall|i: int|
            0 <= i < old(c).metrics@.len() && (forall|j: int|
                0 <= j < updates@.len() ==> (#[trigger] updates@[j]).0@ != old(c).metrics@[i].name@) ==> #[trigger] final(c).metrics@[i] == old(c).metrics@[i],
        forall|i: int|
            old(c).metrics@.len() <= i < final(c).metrics@.len() ==> exists|j: int|
                0 <= j < updates@.len() && (#[trigger] updates@[j]).0@ == (
                #[trigger] final(c).metrics@[i]).name@,
        final(c).history@.len() <= monitoring::HISTORY_LIMIT,
        final(c).history@.len() > 0,
        final(c).history@.last().timestamp == now,
        final(c).history@.last().metrics@.len() == final(c).metrics@.len(),
        forall|i: int|
            0 <= i < final(c).metrics@.len() ==> (#[trigger] final(c).history@.last().metrics@[i]).0@ == final(c).metrics@[i].name@ && final(c).history@.last().metrics@[i].1 == final(c).metrics@[i].value,
{
    updates_are_held(old(c).metrics@, updates@, now, final(c).metrics@);
}

/// A result of a check takes the place of the last one of its name, and those of other checks stay.
pub proof fn last_check_counts(c: &mut HealthChecker, result: HealthCheckResult)
    requires
        old(c).wf(),
        call_ensures(HealthChecker::add_result, (c, result), ()),
    ensures
        exists|i: int| 0 <= i < final(c).results@.len() && #[trigger] final(c).results@[i] == result,
        forall|i: int|
            0 <= i < old(c).results@.len() && old(c).results@[i].check_name@ != result.check_name@
                ==> #[trigger] final(c).results@[i] == old(c).results@[i],
        final(c).results@.len() <= old(c).results@.len() + 1,
        forall|i: int, j: int|
            0 <= i < j < final(c).results@.len() ==> (#[trigger] final(c).results@[i]).check_name@
                != (#[trigger] final(c).results@[j]).check_name@,
        final(c).history@.len() > 0,
        final(c).history@.last().status == result.status,
        final(c).history@.last().check_name@ == result.check_name@,
        final(c).history@.last().message@ == result.message@,
{
    let (before, after) = (old(c).results@, final(c).results@);
    if exists|i: int|
        0 <= i < before.len() && (#[trigger] before[i]).check_name@ == result.check_name@ && after
            == before.update(i, result) {
        let i = choose|i: int|
            0 <= i < before.len() && (#[trigger] before[i]).check_name@ == result.check_name@
                && after == before.update(i, result);
        assert(after[i] == result);
    } else {
        assert(after[before.len() as int] == result);
    }
}

/// Each figure is told under its name.
pub proof fn figures_are_told_by_name(stats: StorageStats, r: Vec<(String, Reading)>)
    requires
        call_ensures(monitoring::collect_metrics, (&stats,), r),
    ensures
        told(r@, "storage_total_keys"@, Reading::Count(stats.total_keys)),
        told(r@, "storage_total_size_bytes"@, Reading::Count(stats.total_size_bytes)),
        told(
            r@,
            "storage_cache_hit_rate"@,
            Reading::Percent(stats.cache_stats.block_cache.hit_rate),
        ),
        exists|u: crate::ratio::Ratio| #[trigger]
            told(r@, "storage_cache_utilization"@, Reading::Percent(u)) && u.whole > 0 && u.part
                * stats.cache_stats.block_cache.capacity == stats.cache_stats.block_cache.usage
                * u.whole || stats.cache_stats.block_cache.capacity == 0,
        told(
            r@,
            "storage_memory_usage_bytes"@,
            Reading::Count(stats.memory_stats.total_memory_usage),
        ),
        told(
            r@,
            "storage_memory_utilization_percent"@,
            Reading::Percent(stats.memory_stats.utilization),
        ),
        told(
            r@,
            "storage_read_ops_per_second"@,
            Reading::PerSecond(stats.io_stats.read_stats.ops_per_second),
        ),
        told(
            r@,
            "storage_write_ops_per_second"@,
            Reading::PerSecond(stats.io_stats.write_stats.ops_per_second),
        ),
        told(
            r@,
            "storage_read_latency_ms"@,
            Reading::Share(stats.io_stats.read_stats.avg_latency_ms),
        ),
        told(
            r@,
            "storage_write_latency_ms"@,
            Reading::Share(stats.io_stats.write_stats.avg_latency_ms),
        ),
        exists|n: u64| #[trigger]
            told(r@, "storage_health_status"@, Reading::Count(n)) && n == badness(
                stats.health.overall_health,
            ) + 1,
        told(r@, "storage_error_count"@, Reading::Count(stats.health.error_count)),
        r@.len() == 12,
{
    assert(r@[0].1 == monitoring::readings(stats)[0].1);
    assert(r@[1].1 == monitoring::readings(stats)[1].1);
    assert(r@[2].1 == monitoring::readings(stats)[2].1);
    assert(r@[3].1 == monitoring::readings(stats)[3].1);
    assert(r@[4].1 == monitoring::readings(stats)[4].1);
    assert(r@[5].1 == monitoring::readings(stats)[5].1);
    assert(r@[6].1 == monitoring::readings(stats)[6].1);
    assert(r@[7].1 == monitoring::readings(stats)[7].1);
    assert(r@[8].1 == monitoring::readings(stats)[8].1);
    assert(r@[9].1 == monitoring::readings(stats)[9].1);
    assert(r@[10].1 == monitoring::readings(stats)[10].1);
    assert(r@[11].1 == monitoring::readings(stats)[11].1);
    if let Reading::Percent(u) = r@[3].1 {
        assert(told(r@, "storage_cache_utilization"@, Reading::Percent(u)));
    }
    if let Reading::Count(n) = r@[10].1 {
        assert(told(r@, "storage_health_status"@, Reading::Count(n)));
    }
}

/// The reading is told under the name.
pub open spec fn told(r: Seq<(String, Reading)>, name: Seq<char>, reading: Reading) -> bool {
    exists|i: int| 0 <= i < r.len() && (#[trigger] r[i]).0@ == name && r[i].1 == reading
}

/// The state of the whole is unhealthy exactly if data was corrupted or more than ten background
/// errors came up, and healthy exactly if nothing was corrupted, no background error came up, at
/// least 50 of 100 lookups hit and no more than 90 of 100 parts of the memory are used.
pub proof fn overall_health_follows_figures(stats: &mut StorageStats)
    requires
        call_ensures(StorageStats::update_health, (stats,), ()),
    ensures
        ({
            let (h, rate, used) = (
                old(stats).health,
                old(stats).cache_stats.block_cache.hit_rate,
                old(stats).memory_stats.utilization,
            );
            let due = final(stats).health.overall_health;
            &&& due == HealthStatus::Unhealthy <==> h.corruption_count > 0 || h.background_errors
                > 10
            &&& due == HealthStatus::Healthy <==> h.corruption_count == 0 && h.background_errors
                == 0 && rate.part * 100 >= 50 * rate.whole && used.part * 100 <= 90 * used.whole
        }),
        final(stats).health.error_count == old(stats).health.error_count,
        final(stats).health.corruption_count == old(stats).health.corruption_count,
        final(stats).health.background_errors == old(stats).health.background_errors,
        final(stats).total_keys == old(stats).total_keys,
        final(stats).cache_stats == old(stats).cache_stats,
        final(stats).memory_stats == old(stats).memory_stats,
{
}

/// The hit rate is the share of the hits in all lookups, and none where there was no lookup.
pub proof fn hit_rate_is_the_share_of_hits(c: &mut CacheMetrics)
    requires
        old(c).hit_count + old(c).miss_count <= u64::MAX,
        call_ensures(CacheMetrics::calculate_hit_rate, (c,), ()),
    ensures
        final(c).hit_rate.whole > 0,
        final(c).hit_rate.part * (old(c).hit_count + old(c).miss_count) == old(c).hit_count * final(c).hit_rate.whole,
        old(c).hit_count == 0 ==> final(c).hit_rate.part == 0,
        final(c).hit_count == old(c).hit_count,
        final(c).miss_count == old(c).miss_count,
{
    let all = (old(c).hit_count + old(c).miss_count) as int;
    if all == 0 {
        assert(old(c).hit_count * 1 == 0);
    } else {
        let hits = old(c).hit_count as int;
        assert(hits * all == hits * all);
    }
}

/// The memory in use is that of all its parts, and the utilization is its share of the limit.
pub proof fn memory_adds_up(s: &mut MemoryStats)
    requires
        old(s).sum() <= u64::MAX,
        call_ensures(MemoryStats::calculate_total, (s,), ()),
    ensures
        final(s).total_memory_usage == old(s).memtable_usage + old(s).immutable_memtable_usage
            + old(s).block_cache_usage + old(s).index_cache_usage + old(s).filter_cache_usage + old(s).other_usage,
        old(s).memory_limit matches Some(limit) ==> limit > 0 ==> final(s).utilization.whole == limit
            && final(s).utilization.part == final(s).total_memory_usage,
        old(s).memory_limit is None ==> final(s).utilization == old(s).utilization,
{
}

/// An operation adds its bytes and its time to the totals, the average is the time by the number of
/// the operations, and its time is between the shortest and the longest one.
pub proof fn operations_add_up(m: &mut IoMetrics, bytes: u64, latency_ms: u64)
    requires
        old(m).operation_count < u64::MAX,
        old(m).total_bytes + bytes <= u64::MAX,
        old(m).total_time_ms + latency_ms <= u64::MAX,
        call_ensures(IoMetrics::record_operation, (m, bytes, latency_ms), ()),
    ensures
        final(m).operation_count == old(m).operation_count + 1,
        final(m).total_bytes == old(m).total_bytes + bytes,
        final(m).total_time_ms == old(m).total_time_ms + latency_ms,
        final(m).avg_latency_ms.part == final(m).total_time_ms,
        final(m).avg_latency_ms.whole == final(m).operation_count,
        final(m).min_latency_ms <= latency_ms <= final(m).max_latency_ms,
        final(m).min_latency_ms == latency_ms || final(m).min_latency_ms == old(m).min_latency_ms,
        final(m).max_latency_ms == latency_ms || final(m).max_latency_ms == old(m).max_latency_ms,
        final(m).min_latency_ms <= old(m).min_latency_ms,
        old(m).max_latency_ms <= final(m).max_latency_ms,
{
}

/// The statistics that are told of an engine count reads and writes together, and the average size
/// of a value is the whole size by the number of the keys.
pub proof fn core_figures_agree(stats: StorageStats, r: CoreStorageStats)
    requires
        stats.io_stats.read_stats.operation_count + stats.io_stats.write_stats.operation_count
            <= u64::MAX,
        call_ensures(storage_stats::core_stats, (&stats,), r),
    ensures
        r.key_count == stats.total_keys,
        r.memory_usage == stats.memory_stats.total_memory_usage,
        r.total_operations == r.get_operations + r.put_operations,
        r.get_operations == stats.io_stats.read_stats.operation_count,
        r.put_operations == stats.io_stats.write_stats.operation_count,
        r.cache_hits == stats.cache_stats.block_cache.hit_count,
        r.cache_misses == stats.cache_stats.block_cache.miss_count,
        r.peak_memory_usage == r.memory_usage,
        r.delete_operations == 0 && r.scan_operations == 0,
        r.average_key_size.part == 0 && r.average_key_size.whole > 0,
        r.average_value_size.whole > 0,
        stats.total_keys > 0 ==> r.average_value_size.whole == stats.total_keys
            && r.average_value_size.part == stats.total_size_bytes,
{
}

/// The history of the metrics, and that of the checks, grows by one with each update until it has a
/// thousand items; from then on the oldest one leaves. Those that stay are kept in their order.
pub proof fn history_keeps_the_newest(
    c: &mut MetricsCollector,
    updates: Vec<(String, u64)>,
    now: Duration,
    h: &mut HealthChecker,
    result: HealthCheckResult,
    k: int,
)
    requires
        old(c).history@.len() <= 1000,
        call_ensures(MetricsCollector::update_metrics, (c, &updates, now), ()),
        old(h).history@.len() <= 1000,
        call_ensures(HealthChecker::add_result, (h, result), ()),
    ensures
        old(c).history@.len() < 1000 ==> final(c).history@.len() == old(c).history@.len() + 1,
        old(c).history@.len() == 1000 ==> final(c).history@.len() == 1000,
        1 <= k < final(c).history@.len() ==> final(c).history@[final(c).history@.len() - 1 - k]
            == old(c).history@[old(c).history@.len() - k],
        old(h).history@.len() < 1000 ==> final(h).history@.len() == old(h).history@.len() + 1,
        old(h).history@.len() == 1000 ==> final(h).history@.len() == 1000,
        1 <= k < final(h).history@.len() ==> final(h).history@[final(h).history@.len() - 1 - k]
            == old(h).history@[old(h).history@.len() - k],
{
    let n = final(c).history@.len() as int;
    if 1 <= k < n {
        assert(final(c).history@.drop_last()[n - 1 - k] == final(c).history@[n - 1 - k]);
    }
    let m = final(h).history@.len() as int;
    if 1 <= k < m {
        assert(final(h).history@.drop_last()[m - 1 - k] == final(h).history@[m - 1 - k]);
    }
}

/// Each check is of the time at which it was made, and tells the figure that it is about.
pub proof fn checks_tell_their_figures(
    stats: StorageStats,
    memory_percent: &str,
    cache_percent: &str,
    now: Duration,
    r: Vec<HealthCheckResult>,
    i: int,
)
    requires
        call_ensures(
            monitoring::perform_health_checks,
            (&stats, memory_percent, cache_percent, now),
            r,
        ),
    ensures
        r@.len() == 3,
        0 <= i < 3 ==> r@[i].timestamp == now,
        text::contains(r@[0].message@, memory_percent@),
        text::contains(r@[1].message@, cache_percent@),
{
    let m = r@[0].message@;
    let a = "Memory usage: "@.len() as int;
    assert(m.subrange(a, a + memory_percent@.len()) =~= memory_percent@);
    assert(text::part_at(m, memory_percent@, a));
    let c = r@[1].message@;
    let b = "Cache hit rate: "@.len() as int;
    assert(c.subrange(b, b + cache_percent@.len()) =~= cache_percent@);
    assert(text::part_at(c, cache_percent@, b));
}

} // verus!
