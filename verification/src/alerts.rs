//! Threshold-breach alert detection: which components' readings have crossed
//! their configured warn/crit thresholds. Deciding whether to notify, and
//! per-alert cooldowns, are the application's business.
//!
//! Thresholds are whole numbers. A reading compared against them arrives as
//! the whole number that decides every such comparison: for "fires when the
//! reading reaches the threshold" components its floor (`v >= t` exactly
//! when `floor(v) >= t`), for battery charge the percentage itself. A reading
//! that is not a number compares false with everything and arrives as `None`.

use vstd::prelude::*;
use crate::thresholds::{lookup, lookup_thresholds, AlertLevel, ComponentThresholds, ThresholdSettings};
use crate::text::{chars_of, extend_chars, extend_str, string_of};

verus! {

/// The readings an alert check looks at.
pub struct AlertReadings {
    pub cpu_temp: Option<i64>,
    pub gpu_temp: Option<i64>,
    pub ram_temp: Option<i64>,
    /// Each drive's mount point and temperature.
    pub disk_temps: Vec<(String, Option<i64>)>,
    pub battery_present: bool,
    pub battery_charge_pct: Option<u8>,
    pub battery_charging: Option<bool>,
    pub battery_power_w: Option<i64>,
}

/// Which reading an alert is about, so the caller can show its value.
#[derive(Debug, Clone, Copy, PartialEq, Eq, Structural)]
pub enum AlertSource {
    CpuTemp,
    GpuTemp,
    RamTemp,
    /// The drive at this position of [`AlertReadings::disk_temps`].
    Disk(usize),
    BatteryCharge,
    BatteryPower,
}

/// One breached threshold.
pub struct PendingAlert {
    /// Threshold-table key and cooldown-tracking key, e.g. `cpu`, `disk`, `battery`.
    pub component: String,
    pub level: AlertLevel,
    /// Human-readable label for the notification, e.g. `CPU`, `Disk (D:)`.
    pub label: String,
    pub source: AlertSource,
}

pub struct AlertView {
    pub component: Seq<char>,
    pub level: AlertLevel,
    pub label: Seq<char>,
    pub source: AlertSource,
}

impl View for PendingAlert {
    type V = AlertView;

    open spec fn view(&self) -> AlertView {
        AlertView { component: self.component@, level: self.level, label: self.label@, source: self.source }
    }
}

/// The most severe level a "fires when the reading reaches the threshold"
/// component has breached: crit before warn; none without a reading or
/// without thresholds.
pub open spec fn above_level(t: Option<ComponentThresholds>, v: Option<i64>) -> Option<AlertLevel> {
    match (t, v) {
        (Some(t), Some(v)) => if t.crit matches Some(c) && v >= c {
            Some(AlertLevel::Crit)
        } else if t.warn matches Some(w) && v >= w {
            Some(AlertLevel::Warn)
        } else {
            None
        },
        _ => None,
    }
}

/// The most severe level a "fires when the reading drops to the threshold"
/// component (battery charge) has breached.
pub open spec fn below_level(t: Option<ComponentThresholds>, v: Option<u8>) -> Option<AlertLevel> {
    match (t, v) {
        (Some(t), Some(v)) => if t.crit matches Some(c) && v <= c {
            Some(AlertLevel::Crit)
        } else if t.warn matches Some(w) && v <= w {
            Some(AlertLevel::Warn)
        } else {
            None
        },
        _ => None,
    }
}

/// No alert, or one.
pub open spec fn opt_alert(component: Seq<char>, label: Seq<char>, level: Option<AlertLevel>, source: AlertSource) -> Seq<AlertView> {
    match level {
        Some(l) => seq![AlertView { component, level: l, label, source }],
        None => Seq::empty(),
    }
}

/// The alerts of the drives, in order.
pub open spec fn disk_alerts(entries: Seq<crate::thresholds::ThresholdEntry>, disks: Seq<(String, Option<i64>)>) -> Seq<AlertView>
    decreases disks.len(),
{
    if disks.len() == 0 {
        Seq::empty()
    } else {
        let d = disks.last();
        disk_alerts(entries, disks.drop_last()) + opt_alert(
            "disk"@,
            "Disk ("@ + d.0@ + ")"@,
            above_level(lookup(entries, "disk"@), d.1),
            AlertSource::Disk((disks.len() - 1) as usize),
        )
    }
}

/// Every threshold currently breached: CPU, GPU and RAM temperature, each
/// drive's temperature, and — when a battery is present — its charge and,
/// while discharging, its power draw. At most one alert per component and
/// drive, the more severe one.
pub open spec fn alerts_spec(entries: Seq<crate::thresholds::ThresholdEntry>, r: AlertReadings) -> Seq<AlertView> {
    opt_alert("cpu"@, "CPU"@, above_level(lookup(entries, "cpu"@), r.cpu_temp), AlertSource::CpuTemp)
        + opt_alert("gpu"@, "GPU"@, above_level(lookup(entries, "gpu"@), r.gpu_temp), AlertSource::GpuTemp)
        + opt_alert("ram"@, "RAM"@, above_level(lookup(entries, "ram"@), r.ram_temp), AlertSource::RamTemp)
        + disk_alerts(entries, r.disk_temps@) + if r.battery_present {
        opt_alert(
            "battery"@,
            "Battery charge"@,
            below_level(lookup(entries, "battery"@), r.battery_charge_pct),
            AlertSource::BatteryCharge,
        ) + if r.battery_charging == Some(false) {
            opt_alert(
                "battery_power"@,
                "Battery power draw"@,
                above_level(lookup(entries, "battery_power"@), r.battery_power_w),
                AlertSource::BatteryPower,
            )
        } else {
            Seq::empty()
        }
    } else {
        Seq::empty()
    }
}

pub open spec fn alert_views(v: Seq<PendingAlert>) -> Seq<AlertView> {
    v.map_values(|a: PendingAlert| a@)
}

fn above_level_exec(t: Option<ComponentThresholds>, v: Option<i64>) -> (r: Option<AlertLevel>)
    ensures
        r == above_level(t, v),
{
    match (t, v) {
        (Some(t), Some(v)) => {
            if let Some(c) = t.crit {
                if v >= c as i64 {
                    return Some(AlertLevel::Crit);
                }
            }
            if let Some(w) = t.warn {
                if v >= w as i64 {
                    return Some(AlertLevel::Warn);
                }
            }
            None
        },
        _ => None,
    }
}

fn below_level_exec(t: Option<ComponentThresholds>, v: Option<u8>) -> (r: Option<AlertLevel>)
    ensures
        r == below_level(t, v),
{
    match (t, v) {
        (Some(t), Some(v)) => {
            if let Some(c) = t.crit {
                if v <= c {
                    return Some(AlertLevel::Crit);
                }
            }
            if let Some(w) = t.warn {
                if v <= w {
                    return Some(AlertLevel::Warn);
                }
            }
            None
        },
        _ => None,
    }
}

fn push_alert(out: &mut Vec<PendingAlert>, component: &str, label: String, level: Option<AlertLevel>, source: AlertSource)
    ensures
        alert_views(final(out)@) == alert_views(old(out)@) + opt_alert(component@, label@, level, source),
{
    match level {
        Some(l) => {
            let c = string_of(&chars_of(component));
            out.push(PendingAlert { component: c, level: l, label, source });
            assert(alert_views(final(out)@) =~= alert_views(old(out)@) + opt_alert(component@, label@, level, source));
        },
        None => {
            assert(alert_views(final(out)@) =~= alert_views(old(out)@) + opt_alert(component@, label@, level, source));
        },
    }
}

/// Returns every threshold currently breached by `r` under the settings'
/// thresholds (see [`alerts_spec`]).
pub fn pending_alerts(r: &AlertReadings, settings: &ThresholdSettings) -> (out: Vec<PendingAlert>)
    ensures
        alert_views(out@) == alerts_spec(settings.entries@, *r),
{
    let mut out: Vec<PendingAlert> = Vec::new();
    assert(alert_views(out@) =~= Seq::<AlertView>::empty());
    push_alert(&mut out, "cpu", string_of(&chars_of("CPU")), above_level_exec(lookup_thresholds(settings, "cpu"), r.cpu_temp), AlertSource::CpuTemp);
    push_alert(&mut out, "gpu", string_of(&chars_of("GPU")), above_level_exec(lookup_thresholds(settings, "gpu"), r.gpu_temp), AlertSource::GpuTemp);
    push_alert(&mut out, "ram", string_of(&chars_of("RAM")), above_level_exec(lookup_thresholds(settings, "ram"), r.ram_temp), AlertSource::RamTemp);
    let ghost head = alert_views(out@);
    let disk_t = lookup_thresholds(settings, "disk");
    let mut i: usize = 0;
    while i < r.disk_temps.len()
        invariant
            i <= r.disk_temps@.len(),
            disk_t == lookup(settings.entries@, "disk"@),
            alert_views(out@) == head + disk_alerts(settings.entries@, r.disk_temps@.take(i as int)),
        decreases r.disk_temps.len() - i,
    {
        let ghost before = alert_views(out@);
        let mut label: Vec<char> = Vec::new();
        extend_str(&mut label, "Disk (");
        extend_str(&mut label, r.disk_temps[i].0.as_str());
        extend_str(&mut label, ")");
        let l = string_of(&label);
        push_alert(&mut out, "disk", l, above_level_exec(disk_t, r.disk_temps[i].1), AlertSource::Disk(i));
        proof {
            let t = r.disk_temps@.take(i + 1);
            assert(t.drop_last() =~= r.disk_temps@.take(i as int));
            assert(t.last() == r.disk_temps@[i as int]);
            assert(alert_views(out@) =~= head + disk_alerts(settings.entries@, t));
        }
        i += 1;
    }
    assert(r.disk_temps@.take(r.disk_temps@.len() as int) =~= r.disk_temps@);
    let ghost mid = alert_views(out@);
    if r.battery_present {
        push_alert(
            &mut out,
            "battery",
            string_of(&chars_of("Battery charge")),
            below_level_exec(lookup_thresholds(settings, "battery"), r.battery_charge_pct),
            AlertSource::BatteryCharge,
        );
        if r.battery_charging == Some(false) {
            push_alert(
                &mut out,
                "battery_power",
                string_of(&chars_of("Battery power draw")),
                above_level_exec(lookup_thresholds(settings, "battery_power"), r.battery_power_w),
                AlertSource::BatteryPower,
            );
        } else {
            assert(alert_views(out@) =~= alert_views(out@) + Seq::<AlertView>::empty());
        }
    } else {
        assert(alert_views(out@) =~= mid + Seq::<AlertView>::empty());
    }
    assert(alert_views(out@) =~= alerts_spec(settings.entries@, *r));
    out
}


/// The threshold `limit` is set and the charge `x` is at or below it.
pub open spec fn at_or_below(limit: Option<u8>, x: u8) -> bool {
    match limit {
        Some(c) => x <= c,
        None => false,
    }
}

/// The threshold `limit` is set and the reading `x` is at or above it.
pub open spec fn at_or_above(limit: Option<u8>, x: i64) -> bool {
    match limit {
        Some(c) => x >= c,
        None => false,
    }
}

/// A battery charge at or below the critical threshold raises a critical
/// alert whatever the warning threshold is; one above it (or with no
/// critical threshold) and at or below the warning threshold raises a
/// warning; otherwise there is none. Without thresholds or a reading there
/// is none.
pub proof fn lemma_battery_level(th: ComponentThresholds, x: u8, t: Option<ComponentThresholds>, v: Option<u8>)
    ensures
        at_or_below(th.crit, x) ==> below_level(Some(th), Some(x)) == Some(AlertLevel::Crit),
        !at_or_below(th.crit, x) && at_or_below(th.warn, x) ==> below_level(Some(th), Some(x)) == Some(AlertLevel::Warn),
        !at_or_below(th.crit, x) && !at_or_below(th.warn, x) ==> below_level(Some(th), Some(x)) is None,
        t is None || v is None ==> below_level(t, v) is None,
{
}

/// A reading at or above the critical threshold raises a critical alert
/// whatever the warning threshold is; one below it (or with no critical
/// threshold) and at or above the warning threshold raises a warning;
/// otherwise there is none. Without thresholds or a reading there is none.
pub proof fn lemma_temperature_level(th: ComponentThresholds, x: i64, t: Option<ComponentThresholds>, v: Option<i64>)
    ensures
        at_or_above(th.crit, x) ==> above_level(Some(th), Some(x)) == Some(AlertLevel::Crit),
        !at_or_above(th.crit, x) && at_or_above(th.warn, x) ==> above_level(Some(th), Some(x)) == Some(AlertLevel::Warn),
        !at_or_above(th.crit, x) && !at_or_above(th.warn, x) ==> above_level(Some(th), Some(x)) is None,
        t is None || v is None ==> above_level(t, v) is None,
{
}

/// With a battery present whose charge is at or below its critical
/// threshold, the alerts hold a critical battery-charge alert, and no
/// battery-charge warning.
pub proof fn lemma_low_battery_alert_is_critical(entries: Seq<crate::thresholds::ThresholdEntry>, r: AlertReadings)
    requires
        r.battery_present,
        lookup(entries, "battery"@) is Some,
        r.battery_charge_pct is Some,
        at_or_below(lookup(entries, "battery"@).unwrap().crit, r.battery_charge_pct.unwrap()),
    ensures
        exists|i: int|
            0 <= i < alerts_spec(entries, r).len() && (#[trigger] alerts_spec(entries, r)[i]).component == "battery"@
                && alerts_spec(entries, r)[i].level == AlertLevel::Crit && alerts_spec(entries, r)[i].source
                == AlertSource::BatteryCharge,
        forall|i: int|
            0 <= i < alerts_spec(entries, r).len() && (#[trigger] alerts_spec(entries, r)[i]).source == AlertSource::BatteryCharge
                ==> alerts_spec(entries, r)[i].level == AlertLevel::Crit,
{
    let head = opt_alert("cpu"@, "CPU"@, above_level(lookup(entries, "cpu"@), r.cpu_temp), AlertSource::CpuTemp)
        + opt_alert("gpu"@, "GPU"@, above_level(lookup(entries, "gpu"@), r.gpu_temp), AlertSource::GpuTemp)
        + opt_alert("ram"@, "RAM"@, above_level(lookup(entries, "ram"@), r.ram_temp), AlertSource::RamTemp)
        + disk_alerts(entries, r.disk_temps@);
    let bat = opt_alert(
        "battery"@,
        "Battery charge"@,
        below_level(lookup(entries, "battery"@), r.battery_charge_pct),
        AlertSource::BatteryCharge,
    );
    let power = if r.battery_charging == Some(false) {
        opt_alert(
            "battery_power"@,
            "Battery power draw"@,
            above_level(lookup(entries, "battery_power"@), r.battery_power_w),
            AlertSource::BatteryPower,
        )
    } else {
        Seq::empty()
    };
    let all = alerts_spec(entries, r);
    assert(all == head + (bat + power));
    assert(bat.len() == 1);
    assert(all[head.len() as int] == bat[0]);
    lemma_disk_alert_sources(entries, r.disk_temps@);
    assert forall|i: int| 0 <= i < all.len() && (#[trigger] all[i]).source == AlertSource::BatteryCharge
        implies all[i].level == AlertLevel::Crit by {
        if i < head.len() {
            let h1 = opt_alert("cpu"@, "CPU"@, above_level(lookup(entries, "cpu"@), r.cpu_temp), AlertSource::CpuTemp);
            let h2 = opt_alert("gpu"@, "GPU"@, above_level(lookup(entries, "gpu"@), r.gpu_temp), AlertSource::GpuTemp);
            let h3 = opt_alert("ram"@, "RAM"@, above_level(lookup(entries, "ram"@), r.ram_temp), AlertSource::RamTemp);
            let d = disk_alerts(entries, r.disk_temps@);
            assert(all[i] == head[i]);
            if i < h1.len() {
                assert(head[i] == h1[i]);
            } else if i < h1.len() + h2.len() {
                assert(head[i] == h2[i - h1.len()]);
            } else if i < h1.len() + h2.len() + h3.len() {
                assert(head[i] == h3[i - h1.len() - h2.len()]);
            } else {
                assert(head[i] == d[i - h1.len() - h2.len() - h3.len()]);
            }
        } else if i == head.len() {
        } else {
            assert(all[i] == power[i - head.len() - 1]);
        }
    }
}

proof fn lemma_disk_alert_sources(entries: Seq<crate::thresholds::ThresholdEntry>, disks: Seq<(String, Option<i64>)>)
    ensures
        forall|i: int| 0 <= i < disk_alerts(entries, disks).len() ==> (#[trigger] disk_alerts(entries, disks)[i]).source is Disk,
    decreases disks.len(),
{
    if disks.len() > 0 {
        lemma_disk_alert_sources(entries, disks.drop_last());
        let rest = disk_alerts(entries, disks.drop_last());
        let d = disks.last();
        let one = opt_alert(
            "disk"@,
            "Disk ("@ + d.0@ + ")"@,
            above_level(lookup(entries, "disk"@), d.1),
            AlertSource::Disk((disks.len() - 1) as usize),
        );
        assert forall|i: int| 0 <= i < disk_alerts(entries, disks).len() implies (#[trigger] disk_alerts(entries, disks)[i]).source is Disk by {
            if i < rest.len() {
                assert(disk_alerts(entries, disks)[i] == rest[i]);
            } else {
                assert(disk_alerts(entries, disks)[i] == one[i - rest.len()]);
            }
        }
    }
}

} // verus!
