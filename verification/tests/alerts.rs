use rigstats::alerts::{pending_alerts, AlertReadings, AlertSource};
use rigstats::thresholds::{AlertLevel, ComponentThresholds, ThresholdEntry, ThresholdSettings};

fn settings_with(thresholds: &[(&str, Option<u8>, Option<u8>)]) -> ThresholdSettings {
    ThresholdSettings {
        entries: thresholds
            .iter()
            .map(|(k, warn, crit)| ThresholdEntry { key: k.to_string(), thresholds: ComponentThresholds { warn: *warn, crit: *crit } })
            .collect(),
    }
}

/// A reading as the alert check compares it against whole-number thresholds.
fn floor(v: Option<f64>) -> Option<i64> {
    v.filter(|x| !x.is_nan()).map(|x| x.floor() as i64)
}

fn no_readings() -> AlertReadings {
    AlertReadings {
        cpu_temp: None,
        gpu_temp: None,
        ram_temp: None,
        disk_temps: vec![],
        battery_present: false,
        battery_charge_pct: None,
        battery_charging: None,
        battery_power_w: None,
    }
}

fn stats_with_cpu_temp(v: f64) -> AlertReadings {
    AlertReadings { cpu_temp: floor(Some(v)), ..no_readings() }
}

#[test]
fn below_warn_fires_nothing() {
    let s = settings_with(&[("cpu", Some(80), Some(90))]);
    let stats = stats_with_cpu_temp(70.0);
    assert!(pending_alerts(&stats, &s).is_empty());
}

#[test]
fn at_warn_fires_warn() {
    let s = settings_with(&[("cpu", Some(80), Some(90))]);
    let stats = stats_with_cpu_temp(80.0);
    let alerts = pending_alerts(&stats, &s);
    assert_eq!(alerts.len(), 1);
    assert_eq!(alerts[0].level, AlertLevel::Warn);
    assert_eq!(alerts[0].component, "cpu");
}

#[test]
fn at_crit_fires_crit_not_warn() {
    let s = settings_with(&[("cpu", Some(80), Some(90))]);
    let stats = stats_with_cpu_temp(90.0);
    let alerts = pending_alerts(&stats, &s);
    assert_eq!(alerts.len(), 1);
    assert_eq!(alerts[0].level, AlertLevel::Crit);
}

#[test]
fn missing_value_fires_nothing() {
    let s = settings_with(&[("cpu", Some(80), Some(90))]);
    let stats = no_readings();
    assert!(pending_alerts(&stats, &s).is_empty());
}

#[test]
fn missing_threshold_entry_fires_nothing() {
    let s = settings_with(&[]);
    let stats = stats_with_cpu_temp(200.0);
    assert!(pending_alerts(&stats, &s).is_empty());
}

#[test]
fn blank_threshold_field_disables_that_level() {
    let s = settings_with(&[("cpu", None, Some(90))]);
    let stats = stats_with_cpu_temp(85.0);
    assert!(pending_alerts(&stats, &s).is_empty());
}

#[test]
fn multiple_drives_each_checked_independently() {
    let s = settings_with(&[("disk", Some(50), Some(70))]);
    let stats = AlertReadings {
        disk_temps: vec![("C:".to_string(), floor(Some(40.0))), ("D:".to_string(), floor(Some(75.0)))],
        ..no_readings()
    };
    let alerts = pending_alerts(&stats, &s);
    assert_eq!(alerts.len(), 1);
    assert_eq!(alerts[0].label, "Disk (D:)");
    assert_eq!(alerts[0].level, AlertLevel::Crit);
    assert_eq!(alerts[0].source, AlertSource::Disk(1));
}

#[test]
fn battery_charge_fires_when_below_threshold() {
    let s = settings_with(&[("battery", Some(20), Some(10))]);
    let stats = AlertReadings { battery_present: true, battery_charge_pct: Some(15), ..no_readings() };
    let alerts = pending_alerts(&stats, &s);
    assert_eq!(alerts.len(), 1);
    assert_eq!(alerts[0].level, AlertLevel::Warn);
    assert_eq!(alerts[0].component, "battery");
}

#[test]
fn battery_charge_above_warn_fires_nothing() {
    let s = settings_with(&[("battery", Some(20), Some(10))]);
    let stats = AlertReadings { battery_present: true, battery_charge_pct: Some(50), ..no_readings() };
    assert!(pending_alerts(&stats, &s).is_empty());
}

#[test]
fn battery_charge_ignored_when_not_present() {
    let s = settings_with(&[("battery", Some(20), Some(10))]);
    let stats = AlertReadings { battery_present: false, battery_charge_pct: Some(5), ..no_readings() };
    assert!(pending_alerts(&stats, &s).is_empty());
}

#[test]
fn battery_power_fires_only_while_discharging() {
    let s = settings_with(&[("battery_power", Some(15), Some(25))]);
    let charging = AlertReadings {
        battery_present: true,
        battery_charging: Some(true),
        battery_power_w: floor(Some(30.0)),
        ..no_readings()
    };
    assert!(pending_alerts(&charging, &s).is_empty());

    let discharging = AlertReadings {
        battery_present: true,
        battery_charging: Some(false),
        battery_power_w: floor(Some(30.0)),
        ..no_readings()
    };
    let alerts = pending_alerts(&discharging, &s);
    assert_eq!(alerts.len(), 1);
    assert_eq!(alerts[0].level, AlertLevel::Crit);
}

#[test]
fn fractional_readings_compare_like_floats() {
    let s = settings_with(&[("cpu", Some(80), Some(90)), ("gpu", Some(80), Some(90)), ("ram", Some(60), None)]);
    for v in [79.0f64, 79.01, 79.99, 80.0, 80.5, 89.99, 90.0, 1e300, f64::INFINITY, f64::NEG_INFINITY, f64::NAN, -3.5] {
        let expected = if v >= 90.0 { Some(AlertLevel::Crit) } else if v >= 80.0 { Some(AlertLevel::Warn) } else { None };
        let alerts = pending_alerts(&stats_with_cpu_temp(v), &s);
        assert_eq!(alerts.first().map(|a| a.level), expected, "v={v}");
    }
    let all = AlertReadings {
        cpu_temp: Some(95),
        gpu_temp: Some(85),
        ram_temp: Some(61),
        disk_temps: vec![("C:".to_string(), Some(99))],
        battery_present: true,
        battery_charge_pct: Some(1),
        battery_charging: Some(false),
        battery_power_w: Some(99),
    };
    let alerts = pending_alerts(&all, &s);
    let labels: Vec<&str> = alerts.iter().map(|a| a.label.as_str()).collect();
    assert_eq!(labels, vec!["CPU", "GPU", "RAM"]);
    assert_eq!(alerts[2].level, AlertLevel::Warn);
}
