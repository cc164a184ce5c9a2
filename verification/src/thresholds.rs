//! Per-component warn/crit temperature thresholds and alert levels.

use vstd::prelude::*;
use crate::gpu_engine::eq_str;
use crate::text::chars_of;

verus! {

/// Severity of a threshold breach.
#[derive(Debug, Clone, Copy, PartialEq, Eq, Structural)]
pub enum AlertLevel {
    Warn,
    Crit,
}

/// The user's warn/crit setting for one component; `None` disables that level.
#[derive(Debug, Clone, Copy, PartialEq, Eq, Structural)]
pub struct ComponentThresholds {
    pub warn: Option<u8>,
    pub crit: Option<u8>,
}

/// One entry of the settings' threshold table.
#[derive(Debug)]
pub struct ThresholdEntry {
    pub key: String,
    pub thresholds: ComponentThresholds,
}

/// The threshold table of the settings, keyed by component name
/// (`cpu`, `gpu`, `ram`, `disk`, `battery`, `battery_power`).
#[derive(Debug)]
pub struct ThresholdSettings {
    pub entries: Vec<ThresholdEntry>,
}

/// The first entry of `entries` for `key`.
pub open spec fn lookup(entries: Seq<ThresholdEntry>, key: Seq<char>) -> Option<ComponentThresholds>
    decreases entries.len(),
{
    if entries.len() == 0 {
        None
    } else if entries[0].key@ == key {
        Some(entries[0].thresholds)
    } else {
        lookup(entries.drop_first(), key)
    }
}

/// Looks up the thresholds configured for `key`.
pub fn lookup_thresholds(s: &ThresholdSettings, key: &str) -> (r: Option<ComponentThresholds>)
    ensures
        r == lookup(s.entries@, key@),
{
    let k = chars_of(key);
    let mut i: usize = 0;
    assert(s.entries@.skip(0) == s.entries@);
    while i < s.entries.len()
        invariant
            i <= s.entries.len(),
            k@ == key@,
            lookup(s.entries@, key@) == lookup(s.entries@.skip(i as int), key@),
        decreases s.entries.len() - i,
    {
        let ghost rest = s.entries@.skip(i as int);
        assert(rest[0] == s.entries@[i as int]);
        assert(rest.drop_first() == s.entries@.skip(i + 1));
        if eq_str(&k, s.entries[i].key.as_str()) {
            return Some(s.entries[i].thresholds);
        }
        i += 1;
    }
    None
}

/// Per-component `(warn, crit)` thresholds (°C) used for temperature colour coding.
#[derive(Debug)]
pub struct PanelThresholds {
    pub cpu: (u8, u8),
    pub gpu: (u8, u8),
    pub gpu_hotspot: (u8, u8),
    pub ram: (u8, u8),
    pub disk: (u8, u8),
    pub mb: (u8, u8),
    pub battery: (u8, u8),
    pub battery_power: (u8, u8),
}

impl Clone for PanelThresholds {
    fn clone(&self) -> (c: Self)
        ensures
            c == *self,
    {
        PanelThresholds {
            cpu: (self.cpu.0, self.cpu.1),
            gpu: (self.gpu.0, self.gpu.1),
            gpu_hotspot: (self.gpu_hotspot.0, self.gpu_hotspot.1),
            ram: (self.ram.0, self.ram.1),
            disk: (self.disk.0, self.disk.1),
            mb: (self.mb.0, self.mb.1),
            battery: (self.battery.0, self.battery.1),
            battery_power: (self.battery_power.0, self.battery_power.1),
        }
    }
}

/// The built-in thresholds.
pub open spec fn default_thresholds() -> PanelThresholds {
    PanelThresholds {
        cpu: (80, 90),
        gpu: (80, 90),
        gpu_hotspot: (90, 105),
        ram: (60, 70),
        disk: (50, 60),
        mb: (70, 90),
        battery: (20, 10),
        battery_power: (15, 25),
    }
}

impl Default for PanelThresholds {
    fn default() -> (t: Self)
        ensures
            t == default_thresholds(),
    {
        PanelThresholds {
            cpu: (80, 90),
            gpu: (80, 90),
            gpu_hotspot: (90, 105),
            ram: (60, 70),
            disk: (50, 60),
            mb: (70, 90),
            battery: (20, 10),
            battery_power: (15, 25),
        }
    }
}

/// A configured pair: each level present in the settings entry replaces the
/// default; a missing entry keeps both defaults.
pub open spec fn configured(entry: Option<ComponentThresholds>, default: (u8, u8)) -> (u8, u8) {
    match entry {
        Some(t) => (
            match t.warn {
                Some(w) => w,
                None => default.0,
            },
            match t.crit {
                Some(c) => c,
                None => default.1,
            },
        ),
        None => default,
    }
}

fn configured_exec(s: &ThresholdSettings, key: &str, default: (u8, u8)) -> (r: (u8, u8))
    ensures
        r == configured(lookup(s.entries@, key@), default),
{
    match lookup_thresholds(s, key) {
        Some(t) => (
            match t.warn {
                Some(w) => w,
                None => default.0,
            },
            match t.crit {
                Some(c) => c,
                None => default.1,
            },
        ),
        None => (default.0, default.1),
    }
}

impl PanelThresholds {
    /// The thresholds in effect: user settings for the configurable components,
    /// the built-in values for the GPU hot spot and the motherboard.
    pub fn from_settings(s: &ThresholdSettings) -> (t: Self)
        ensures
            t.cpu == configured(lookup(s.entries@, "cpu"@), default_thresholds().cpu),
            t.gpu == configured(lookup(s.entries@, "gpu"@), default_thresholds().gpu),
            t.gpu_hotspot == default_thresholds().gpu_hotspot,
            t.ram == configured(lookup(s.entries@, "ram"@), default_thresholds().ram),
            t.disk == configured(lookup(s.entries@, "disk"@), default_thresholds().disk),
            t.mb == default_thresholds().mb,
            t.battery == configured(lookup(s.entries@, "battery"@), default_thresholds().battery),
            t.battery_power == configured(
                lookup(s.entries@, "battery_power"@),
                default_thresholds().battery_power,
            ),
    {
        let def = PanelThresholds::default();
        PanelThresholds {
            cpu: configured_exec(s, "cpu", def.cpu),
            gpu: configured_exec(s, "gpu", def.gpu),
            gpu_hotspot: (def.gpu_hotspot.0, def.gpu_hotspot.1),
            ram: configured_exec(s, "ram", def.ram),
            disk: configured_exec(s, "disk", def.disk),
            mb: (def.mb.0, def.mb.1),
            battery: configured_exec(s, "battery", def.battery),
            battery_power: configured_exec(s, "battery_power", def.battery_power),
        }
    }
}

/// Colour class of the battery charge readout.
#[derive(Debug, Clone, Copy, PartialEq, Eq, Structural)]
pub enum ChargeColor {
    /// Charging: the theme accent.
    Accent,
    Good,
    Warn,
    Hot,
}

/// Charge colour: accent while charging; otherwise ok at or above `warn`,
/// warn at or above `crit`, hot below both.
pub fn charge_color(pct: u8, charging: bool, charge_warn: u8, charge_crit: u8) -> (c: ChargeColor)
    ensures
        c == if charging {
            ChargeColor::Accent
        } else if pct >= charge_warn {
            ChargeColor::Good
        } else if pct >= charge_crit {
            ChargeColor::Warn
        } else {
            ChargeColor::Hot
        },
{
    if charging {
        return ChargeColor::Accent;
    }
    if pct >= charge_warn {
        ChargeColor::Good
    } else if pct >= charge_crit {
        ChargeColor::Warn
    } else {
        ChargeColor::Hot
    }
}

} // verus!
