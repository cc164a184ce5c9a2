use rigstats::layout::{panel_label, profile_is_landscape, theme_accent, THEME_KEYS};
use rigstats::thresholds::{charge_color, lookup_thresholds, ChargeColor, ComponentThresholds, PanelThresholds, ThresholdEntry, ThresholdSettings};

#[test]
fn landscape_profiles_detected_by_prefix() {
    assert!(profile_is_landscape("landscape-xl"));
    assert!(profile_is_landscape("landscape-4k-top"));
    assert!(!profile_is_landscape("portrait-xl"));
    assert!(!profile_is_landscape("portrait-4k-side"));
}

#[test]
fn theme_keys_contains_all_presets() {
    assert_eq!(THEME_KEYS.len(), 7);
    assert!(THEME_KEYS.contains(&"dark-cyan"));
    assert!(THEME_KEYS.contains(&"amber"));
    assert!(THEME_KEYS.contains(&"purple"));
}

#[test]
fn theme_accents() {
    assert_eq!(theme_accent("amber"), (0xff, 0xb3, 0x00));
    assert_eq!(theme_accent("nonexistent"), theme_accent("dark-cyan"));
    assert_eq!(theme_accent("dark-cyan"), (0x00, 0xc8, 0xff));
}

#[test]
fn panel_labels() {
    assert_eq!(panel_label("net"), "Network");
    assert_eq!(panel_label("power"), "System Power");
    assert_eq!(panel_label("bogus"), "Panel");
}

fn settings(entries: &[(&str, Option<u8>, Option<u8>)]) -> ThresholdSettings {
    ThresholdSettings {
        entries: entries
            .iter()
            .map(|(k, w, c)| ThresholdEntry { key: k.to_string(), thresholds: ComponentThresholds { warn: *w, crit: *c } })
            .collect(),
    }
}

#[test]
fn thresholds_come_from_settings_with_defaults() {
    let def = PanelThresholds::default();
    let s = settings(&[("cpu", Some(70), None), ("disk", None, Some(66)), ("mb", Some(1), Some(2))]);
    let t = PanelThresholds::from_settings(&s);
    assert_eq!(t.cpu, (70, def.cpu.1));
    assert_eq!(t.disk, (def.disk.0, 66));
    assert_eq!(t.gpu, def.gpu);
    assert_eq!(t.mb, def.mb);
    assert_eq!(t.gpu_hotspot, def.gpu_hotspot);
    assert_eq!(lookup_thresholds(&s, "cpu"), Some(ComponentThresholds { warn: Some(70), crit: None }));
    assert_eq!(lookup_thresholds(&s, "gpu"), None);
}

#[test]
fn charge_colours() {
    assert_eq!(charge_color(10, true, 30, 15), ChargeColor::Accent);
    assert_eq!(charge_color(30, false, 30, 15), ChargeColor::Good);
    assert_eq!(charge_color(15, false, 30, 15), ChargeColor::Warn);
    assert_eq!(charge_color(14, false, 30, 15), ChargeColor::Hot);
}
