//! Decisions taken on each sensor sample: which GPU to display, which
//! LibreHardwareMonitor disk temperature belongs to which drive, and when the
//! poll loop re-samples, prunes or logs.
//!
//! Readings are floating point in the application. Where a decision orders
//! readings, it receives them as order keys: whole numbers that compare the
//! same way the readings do (an absent reading counts as zero).

use vstd::prelude::*;
use crate::text::{chars_of, contains_seq, find_exec, string_of};
use crate::words::{ascii_lower, ascii_lower_exec, trim, trim_chars};

verus! {

// ── Name matching ───────────────────────────────────────────────────────────

/// Two normalised names refer to the same device: they are equal, or one
/// contains the other (so minor naming differences between samples survive).
pub open spec fn names_match(a: Seq<char>, b: Seq<char>) -> bool {
    a == b || contains_seq(a, b) || contains_seq(b, a)
}

/// Whether two normalised names refer to the same device.
pub fn names_match_exec(a: &Vec<char>, b: &Vec<char>) -> (r: bool)
    ensures
        r == names_match(a@, b@),
{
    if a.len() == b.len() && crate::text::starts_with_exec(a, b) {
        assert(a@.take(b@.len() as int) =~= a@);
        return true;
    }
    proof {
        if a@ == b@ {
            assert(a@.take(b@.len() as int) =~= a@);
        }
    }
    let ab = find_exec(a, b);
    let ba = find_exec(b, a);
    ab.is_some() || ba.is_some()
}

/// A GPU name normalised for matching: trimmed, ASCII letters lower-cased.
pub open spec fn gpu_key(s: Seq<char>) -> Seq<char> {
    ascii_lower(trim(s))
}

fn gpu_key_exec(s: &str) -> (r: Vec<char>)
    ensures
        r@ == gpu_key(s@),
{
    let cs = chars_of(s);
    let t = trim_chars(&cs);
    ascii_lower_exec(&t)
}

// ── GPU selection ───────────────────────────────────────────────────────────

/// A GPU reported by the sensor sidecar, with its total VRAM and its load as
/// order keys.
pub struct GpuCandidate {
    pub name: String,
    pub vram_key: u64,
    pub load_key: u64,
}

/// `a` ranks below `b`: less VRAM, or equal VRAM and less load.
pub open spec fn ranks_below(a: GpuCandidate, b: GpuCandidate) -> bool {
    a.vram_key < b.vram_key || (a.vram_key == b.vram_key && a.load_key < b.load_key)
}

/// Device `i` is the one a user preference `pref` selects: the first whose
/// normalised name matches the normalised preference.
pub open spec fn first_preferred(ds: Seq<GpuCandidate>, pref: Seq<char>, i: int) -> bool {
    &&& 0 <= i < ds.len()
    &&& names_match(gpu_key(ds[i].name@), gpu_key(pref))
    &&& forall|j: int| 0 <= j < i ==> !names_match(gpu_key((#[trigger] ds[j]).name@), gpu_key(pref))
}

/// Some device matches the preference.
pub open spec fn any_preferred(ds: Seq<GpuCandidate>, pref: Seq<char>) -> bool {
    exists|j: int| 0 <= j < ds.len() && names_match(gpu_key((#[trigger] ds[j]).name@), gpu_key(pref))
}

/// A preferred GPU is given and some device matches it.
pub open spec fn preference_applies(ds: Seq<GpuCandidate>, preferred: Option<&str>) -> bool {
    match preferred {
        Some(p) => any_preferred(ds, p@),
        None => false,
    }
}

/// Device `i` has the most VRAM, then the highest load, and is the last of
/// the devices that rank equally (as `Iterator::max_by` picks).
pub open spec fn last_best(ds: Seq<GpuCandidate>, i: int) -> bool {
    &&& 0 <= i < ds.len()
    &&& forall|j: int| 0 <= j < ds.len() ==> !ranks_below(ds[i], #[trigger] ds[j])
    &&& forall|j: int| i < j < ds.len() ==> ranks_below(#[trigger] ds[j], ds[i])
}

/// Picks the GPU to display: the first device matching the user's preferred
/// GPU (trimmed, case-insensitive, equal or contained either way); otherwise
/// the one with the most VRAM, ties broken by the higher load. `None` only
/// when there is no device.
pub fn select_gpu_idx(devices: &Vec<GpuCandidate>, preferred_gpu: Option<&str>) -> (r: Option<usize>)
    ensures
        devices@.len() == 0 ==> r is None,
        devices@.len() > 0 && preference_applies(devices@, preferred_gpu) ==> (r matches Some(i)
            && first_preferred(devices@, preferred_gpu.unwrap()@, i as int)),
        devices@.len() > 0 && !preference_applies(devices@, preferred_gpu) ==> (r matches Some(i)
            && last_best(devices@, i as int)),
{
    if devices.len() == 0 {
        return None;
    }
    match preferred_gpu {
        Some(pref) => {
            let pn = gpu_key_exec(pref);
            let mut i: usize = 0;
            while i < devices.len()
                invariant
                    i <= devices@.len(),
                    devices@.len() > 0,
                    preferred_gpu == Some(pref),
                    pn@ == gpu_key(pref@),
                    forall|j: int| 0 <= j < i ==> !names_match(gpu_key((#[trigger] devices@[j]).name@), gpu_key(pref@)),
                decreases devices.len() - i,
            {
                let dn = gpu_key_exec(devices[i].name.as_str());
                if names_match_exec(&dn, &pn) {
                    assert(names_match(gpu_key(devices@[i as int].name@), gpu_key(pref@)));
                    return Some(i);
                }
                i += 1;
            }
        },
        None => {},
    }
    let mut best: usize = 0;
    let mut k: usize = 1;
    while k < devices.len()
        invariant
            1 <= k <= devices@.len(),
            best < k,
            forall|j: int| 0 <= j < k ==> !ranks_below(devices@[best as int], #[trigger] devices@[j]),
            forall|j: int| best < j < k ==> ranks_below(#[trigger] devices@[j], devices@[best as int]),
        decreases devices.len() - k,
    {
        let b = &devices[best];
        let d = &devices[k];
        if !(d.vram_key < b.vram_key || (d.vram_key == b.vram_key && d.load_key < b.load_key)) {
            best = k;
        }
        k += 1;
    }
    Some(best)
}

// ── Disk temperatures ───────────────────────────────────────────────────────

/// `str::to_lowercase` of `s`: the Unicode lower-case mapping (which takes a
/// final capital sigma by its context).
pub uninterp spec fn lowercase(s: Seq<char>) -> Seq<char>;

/// `s.to_lowercase()` (std's `str::to_lowercase`, the full Unicode mapping).
/// Its result is named, not stated.
#[verifier::external_body]
fn to_lowercase(s: &str) -> (r: String)
    ensures
        r@ == lowercase(s@),
{
    s.to_lowercase()
}

/// A drive model or disk name normalised for matching: trimmed, then lower-cased.
pub open spec fn model_key(s: Seq<char>) -> Seq<char> {
    lowercase(trim(s))
}

/// Normalises a model or disk name: trims it and lower-cases it.
pub fn model_key_exec(s: &str) -> (r: String)
    ensures
        r@ == model_key(s@),
{
    let cs = chars_of(s);
    let t = string_of(&trim_chars(&cs));
    to_lowercase(t.as_str())
}

/// The first entry of `keys` (normalised disk names, paired with readings)
/// that matches the normalised `needle`; `None` for an empty needle.
pub open spec fn first_match_index<T>(keys: Seq<(Seq<char>, T)>, needle: Seq<char>, i: int) -> bool {
    &&& 0 <= i < keys.len()
    &&& names_match(keys[i].0, needle)
    &&& forall|j: int| 0 <= j < i ==> !names_match((#[trigger] keys[j]).0, needle)
}

/// The reading of the first disk whose normalised name matches the
/// normalised drive model `needle`; `None` when the needle is empty or no
/// disk matches.
pub fn temp_for_key<T: Copy>(needle: &str, keys: &Vec<(String, T)>) -> (r: Option<T>)
    ensures
        needle@.len() == 0 ==> r is None,
        needle@.len() > 0 ==> match r {
            Some(t) => exists|i: int|
                first_match_index(keys@.map_values(|p: (String, T)| (p.0@, p.1)), needle@, i) && #[trigger] keys@[i].1 == t,
            None => forall|j: int|
                0 <= j < keys@.len() ==> !names_match((#[trigger] keys@[j]).0@, needle@),
        },
{
    let n = chars_of(needle);
    if n.len() == 0 {
        return None;
    }
    let ghost kv = keys@.map_values(|p: (String, T)| (p.0@, p.1));
    let mut i: usize = 0;
    while i < keys.len()
        invariant
            i <= keys@.len(),
            n@ == needle@,
            needle@.len() > 0,
            kv == keys@.map_values(|p: (String, T)| (p.0@, p.1)),
            forall|j: int| 0 <= j < i ==> !names_match((#[trigger] keys@[j]).0@, needle@),
        decreases keys.len() - i,
    {
        let h = chars_of(keys[i].0.as_str());
        if names_match_exec(&h, &n) {
            proof {
                assert(kv[i as int] == (keys@[i as int].0@, keys@[i as int].1));
                assert forall|j: int| 0 <= j < i implies !names_match((#[trigger] kv[j]).0, needle@) by {
                    assert(kv[j] == (keys@[j].0@, keys@[j].1));
                }
                assert(first_match_index(kv, needle@, i as int));
            }
            return Some(keys[i].1);
        }
        i += 1;
    }
    None
}

/// The temperature of the disk matching a drive's WMI model: both names are
/// trimmed and lower-cased, then matched as [`temp_for_key`] does.
pub fn lhm_temp_for_model<T: Copy>(wmi_model: &str, disk_temps: &Vec<(String, T)>) -> (r: Option<T>)
    ensures
        model_key(wmi_model@).len() == 0 ==> r is None,
        model_key(wmi_model@).len() > 0 ==> match r {
            Some(t) => exists|i: int|
                first_match_index(disk_temps@.map_values(|p: (String, T)| (model_key(p.0@), p.1)), model_key(wmi_model@), i)
                    && #[trigger] disk_temps@[i].1 == t,
            None => forall|j: int|
                0 <= j < disk_temps@.len() ==> !names_match(model_key((#[trigger] disk_temps@[j]).0@), model_key(wmi_model@)),
        },
{
    let needle = model_key_exec(wmi_model);
    let mut keys: Vec<(String, T)> = Vec::new();
    let mut i: usize = 0;
    while i < disk_temps.len()
        invariant
            i <= disk_temps@.len(),
            keys@.len() == i,
            forall|j: int| 0 <= j < i ==> (#[trigger] keys@[j]).0@ == model_key(disk_temps@[j].0@) && keys@[j].1
                == disk_temps@[j].1,
        decreases disk_temps.len() - i,
    {
        let k = model_key_exec(disk_temps[i].0.as_str());
        keys.push((k, disk_temps[i].1));
        i += 1;
    }
    let r = temp_for_key(needle.as_str(), &keys);
    proof {
        let kv = keys@.map_values(|p: (String, T)| (p.0@, p.1));
        let dv = disk_temps@.map_values(|p: (String, T)| (model_key(p.0@), p.1));
        assert(kv =~= dv) by {
            assert forall|j: int| 0 <= j < kv.len() implies kv[j] == dv[j] by {
                assert(keys@[j].0@ == model_key(disk_temps@[j].0@));
            }
        }
        if needle@.len() > 0 {
            match r {
                Some(t) => {
                    let i = choose|i: int| first_match_index(kv, needle@, i) && #[trigger] keys@[i].1 == t;
                    assert(disk_temps@[i].1 == t);
                },
                None => {
                    assert forall|j: int| 0 <= j < disk_temps@.len() implies !names_match(
                        model_key((#[trigger] disk_temps@[j]).0@),
                        model_key(wmi_model@),
                    ) by {
                        assert(keys@[j].0@ == model_key(disk_temps@[j].0@));
                    }
                },
            }
        }
    }
    r
}

/// A drive's mount point without its trailing path separators
/// (`trim_end_matches(['\\', '/'])`): the key of the WMI model table.
pub open spec fn drive_key(fs: Seq<char>) -> Seq<char>
    decreases fs.len(),
{
    if fs.len() > 0 && (fs.last() == '\\' || fs.last() == '/') {
        drive_key(fs.drop_last())
    } else {
        fs
    }
}

/// Strips the trailing path separators from a mount point.
pub fn drive_key_exec(fs: &str) -> (r: String)
    ensures
        r@ == drive_key(fs@),
{
    let cs = chars_of(fs);
    let mut j: usize = cs.len();
    assert(cs@.take(cs@.len() as int) =~= cs@);
    while j > 0 && (cs[j - 1] == '\\' || cs[j - 1] == '/')
        invariant
            j <= cs@.len(),
            drive_key(cs@.take(j as int)) == drive_key(fs@),
            cs@ == fs@,
        decreases j,
    {
        assert(cs@.take(j as int).drop_last() =~= cs@.take(j - 1));
        j -= 1;
    }
    let t = crate::text::slice_chars(&cs, 0, j);
    assert(t@ =~= cs@.take(j as int));
    string_of(&t)
}

/// The value for `key` in a table with unique keys (a map's entries).
pub open spec fn table_get(table: Seq<(Seq<char>, Seq<char>)>, key: Seq<char>) -> Option<Seq<char>>
    decreases table.len(),
{
    if table.len() == 0 {
        None
    } else if table.last().0 == key {
        Some(table.last().1)
    } else {
        table_get(table.drop_last(), key)
    }
}

/// The entries of a string table as character sequences.
pub open spec fn table_view(t: Seq<(String, String)>) -> Seq<(Seq<char>, Seq<char>)> {
    t.map_values(|p: (String, String)| (p.0@, p.1@))
}

/// Looks `key` up in a table with unique keys.
pub fn table_get_exec(table: &Vec<(String, String)>, key: &str) -> (r: Option<String>)
    ensures
        match r {
            Some(v) => table_get(table_view(table@), key@) == Some(v@),
            None => table_get(table_view(table@), key@) is None,
        },
{
    let k = chars_of(key);
    let mut i: usize = table.len();
    let ghost tv = table_view(table@);
    assert(tv.take(tv.len() as int) =~= tv);
    while i > 0
        invariant
            i <= table@.len(),
            k@ == key@,
            tv == table_view(table@),
            table_get(tv, key@) == table_get(tv.take(i as int), key@),
        decreases i,
    {
        let ghost t = tv.take(i as int);
        assert(t.last() == (table@[i - 1].0@, table@[i - 1].1@));
        assert(t.drop_last() =~= tv.take(i - 1));
        if crate::gpu_engine::eq_str(&k, table[i - 1].0.as_str()) {
            let v = crate::gpu_engine::owned(table[i - 1].1.as_str());
            return Some(v);
        }
        i -= 1;
    }
    None
}

/// The WMI model of the drive mounted at `fs`, if the model table knows it.
pub fn drive_model(fs: &str, model_map: &Vec<(String, String)>) -> (r: Option<String>)
    ensures
        match r {
            Some(m) => table_get(table_view(model_map@), drive_key(fs@)) == Some(m@),
            None => table_get(table_view(model_map@), drive_key(fs@)) is None,
        },
{
    let key = drive_key_exec(fs);
    table_get_exec(model_map, key.as_str())
}

/// The temperature shown for the drive at position `index`, mounted at `fs`:
/// when the model table knows the drive, the reading of the disk matching its
/// model (or none); otherwise the reading at the same position in the
/// sensor's disk list, if there is one.
pub fn drive_temperature<T: Copy>(fs: &str, index: usize, model_map: &Vec<(String, String)>, disk_temps: &Vec<(String, T)>) -> (r: Option<T>)
    ensures
        table_get(table_view(model_map@), drive_key(fs@)) is None ==> r == (if index < disk_temps@.len() {
            Some(disk_temps@[index as int].1)
        } else {
            None
        }),
        table_get(table_view(model_map@), drive_key(fs@)) matches Some(m) ==> (model_key(m).len() == 0 ==> r is None)
            && (model_key(m).len() > 0 ==> match r {
            Some(t) => exists|i: int|
                first_match_index(disk_temps@.map_values(|p: (String, T)| (model_key(p.0@), p.1)), model_key(m), i)
                    && #[trigger] disk_temps@[i].1 == t,
            None => forall|j: int|
                0 <= j < disk_temps@.len() ==> !names_match(model_key((#[trigger] disk_temps@[j]).0@), model_key(m)),
        }),
{
    match drive_model(fs, model_map) {
        Some(model) => lhm_temp_for_model(model.as_str(), disk_temps),
        None => {
            if index < disk_temps.len() {
                Some(disk_temps[index].1)
            } else {
                None
            }
        },
    }
}

// ── Poll-loop timing ────────────────────────────────────────────────────────

/// Whether a cached reading is due for a fresh sample: there is none yet, or
/// it is at least `period_ms` old.
pub fn needs_sample(age_ms: Option<u64>, period_ms: u64) -> (r: bool)
    ensures
        r == match age_ms {
            Some(a) => a >= period_ms,
            None => true,
        },
{
    match age_ms {
        Some(a) => a >= period_ms,
        None => true,
    }
}

/// The day number of `now_secs` and whether the daily retention prune is due
/// on it (it has not run yet that day).
pub fn prune_due(last_prune_day: Option<u64>, now_secs: u64) -> (r: (bool, u64))
    ensures
        r.1 == now_secs / 86400,
        r.0 == (last_prune_day != Some(now_secs / 86400)),
{
    let today = now_secs / 86400;
    let due = match last_prune_day {
        Some(d) => d != today,
        None => true,
    };
    (due, today)
}

/// Whether a pipe-trouble message may be logged at `now` when the last one
/// was logged at `last`: at most one per 30-second window.
pub fn pipe_log_due(now: u64, last: u64) -> (r: bool)
    ensures
        r == (now >= last && now - last >= 30),
{
    now.saturating_sub(last) >= 30
}

/// The model name shown in the header: the user's override from the settings
/// when set, else the detected one.
pub fn display_model_name(settings_name: &str, detected: &str) -> (r: String)
    ensures
        r@ == (if settings_name@.len() == 0 { detected@ } else { settings_name@ }),
{
    if settings_name.unicode_len() == 0 {
        crate::gpu_engine::owned(detected)
    } else {
        crate::gpu_engine::owned(settings_name)
    }
}

} // verus!
