//! LibreHardwareMonitor's sensor tree, flattened into nodes: which sensor
//! feeds each GPU, CPU, memory, motherboard and drive metric.
//!
//! The application walks the JSON tree and parses each value; a node carries
//! its reading as an order key (see [`KEY_ZERO`]), so every selection rule
//! here is decided on whole numbers that compare as the readings do.

use vstd::prelude::*;
use crate::gpu_engine::eq_str;
use crate::sensors::GpuCandidate;
use crate::text::{
    chars_of, contains_seq, ends_with, ends_with_exec, find_exec, starts_with, starts_with_exec,
};

verus! {

/// One sensor of the flattened tree: its name, the names of the node above
/// it and of the one above that (the device), LHM's sensor id, and the order
/// key of its reading (`None` when the value did not parse as a number).
pub struct FlatNode {
    pub text: String,
    pub parent: String,
    pub grandparent: String,
    pub sensor_id: String,
    pub key: Option<u64>,
}

/// The order key of the reading `0.0`. A reading's key is its IEEE-754 `f64`
/// bit pattern with the top bit set when the reading is not negative, and
/// all bits inverted when it is (`-0.0` counts as `0.0`), so keys compare as
/// the readings do.
pub const KEY_ZERO: u64 = 0x8000_0000_0000_0000;

/// The order key of the reading `5.0` (bits `0x4014_0000_0000_0000`).
pub const KEY_FIVE: u64 = 0xC014_0000_0000_0000;

/// The order key of the reading `0.1` (bits `0x3FB9_9999_9999_999A`).
pub const KEY_TENTH: u64 = 0xBFB9_9999_9999_999A;

// ── String tests on node fields ─────────────────────────────────────────────

fn is_text(s: &String, lit: &str) -> (b: bool)
    ensures
        b == (s@ == lit@),
{
    eq_str(&chars_of(s.as_str()), lit)
}

fn has_prefix(s: &String, lit: &str) -> (b: bool)
    ensures
        b == starts_with(s@, lit@),
{
    starts_with_exec(&chars_of(s.as_str()), &chars_of(lit))
}

fn has_suffix(s: &String, lit: &str) -> (b: bool)
    ensures
        b == ends_with(s@, lit@),
{
    ends_with_exec(&chars_of(s.as_str()), &chars_of(lit))
}

fn has_part(s: &String, lit: &str) -> (b: bool)
    ensures
        b == contains_seq(s@, lit@),
{
    find_exec(&chars_of(s.as_str()), &chars_of(lit)).is_some()
}

fn same_text(a: &String, b: &String) -> (r: bool)
    ensures
        r == (a@ == b@),
{
    let x = chars_of(a.as_str());
    let y = chars_of(b.as_str());
    if x.len() == y.len() && starts_with_exec(&x, &y) {
        assert(x@.take(y@.len() as int) =~= x@);
        return true;
    }
    proof {
        if a@ == b@ {
            assert(x@.take(y@.len() as int) =~= x@);
        }
    }
    false
}

// ── Finding a sensor ────────────────────────────────────────────────────────

/// A position, as an integer.
pub open spec fn position(r: Option<usize>) -> Option<int> {
    match r {
        Some(i) => Some(i as int),
        None => None,
    }
}

/// The characters of a device name, when one is given.
pub open spec fn device_view(d: Option<&str>) -> Option<Seq<char>> {
    match d {
        Some(s) => Some(s@),
        None => None,
    }
}

/// Node `n` is the sensor `text` under `parent`, on the device `device` when
/// one is given.
pub open spec fn is_sensor(n: FlatNode, device: Option<Seq<char>>, parent: Seq<char>, text: Seq<char>) -> bool {
    &&& n.parent@ == parent
    &&& n.text@ == text
    &&& match device {
        Some(d) => n.grandparent@ == d,
        None => true,
    }
}

/// Position of the first node of `nodes` that is that sensor.
pub open spec fn first_sensor(
    nodes: Seq<FlatNode>,
    device: Option<Seq<char>>,
    parent: Seq<char>,
    text: Seq<char>,
) -> Option<int>
    decreases nodes.len(),
{
    if nodes.len() == 0 {
        None
    } else {
        match first_sensor(nodes.drop_last(), device, parent, text) {
            Some(i) => Some(i),
            None => if is_sensor(nodes.last(), device, parent, text) {
                Some(nodes.len() - 1)
            } else {
                None
            },
        }
    }
}

proof fn lemma_first_sensor(nodes: Seq<FlatNode>, device: Option<Seq<char>>, parent: Seq<char>, text: Seq<char>)
    ensures
        first_sensor(nodes, device, parent, text) matches Some(i) ==> 0 <= i < nodes.len()
            && is_sensor(nodes[i], device, parent, text) && forall|j: int|
            0 <= j < i ==> !is_sensor(#[trigger] nodes[j], device, parent, text),
        first_sensor(nodes, device, parent, text) is None ==> forall|j: int|
            0 <= j < nodes.len() ==> !is_sensor(#[trigger] nodes[j], device, parent, text),
    decreases nodes.len(),
{
    if nodes.len() > 0 {
        lemma_first_sensor(nodes.drop_last(), device, parent, text);
        assert forall|j: int| 0 <= j < nodes.len() - 1 implies nodes[j] == nodes.drop_last()[j] by {}
    }
}

fn find_sensor(nodes: &Vec<FlatNode>, device: Option<&str>, parent: &str, text: &str) -> (r: Option<usize>)
    ensures
        r matches Some(i) ==> first_sensor(nodes@, device_view(device), parent@, text@) == Some(i as int),
        r is None ==> first_sensor(nodes@, device_view(device), parent@, text@) is None,
{
    let ghost dv = device_view(device);
    let mut i: usize = 0;
    while i < nodes.len()
        invariant
            i <= nodes.len(),
            dv == device_view(device),
            first_sensor(nodes@.take(i as int), dv, parent@, text@) is None,
        decreases nodes.len() - i,
    {
        let n = &nodes[i];
        let on_device = match device {
            Some(d) => is_text(&n.grandparent, d),
            None => true,
        };
        let hit = on_device && is_text(&n.parent, parent) && is_text(&n.text, text);
        assert(nodes@.take(i + 1).drop_last() =~= nodes@.take(i as int));
        assert(nodes@.take(i + 1).last() == nodes@[i as int]);
        assert(hit == is_sensor(nodes@[i as int], dv, parent@, text@));
        if hit {
            proof {
                lemma_first_sensor(nodes@, dv, parent@, text@);
                lemma_first_sensor(nodes@.take(i as int), dv, parent@, text@);
                lemma_first_sensor(nodes@.take(i + 1), dv, parent@, text@);
                assert forall|j: int| 0 <= j < i implies !is_sensor(#[trigger] nodes@[j], dv, parent@, text@) by {
                    assert(nodes@.take(i as int)[j] == nodes@[j]);
                }
                if first_sensor(nodes@, dv, parent@, text@) != Some(i as int) {
                    match first_sensor(nodes@, dv, parent@, text@) {
                        Some(k) => {
                            if k > i {
                                assert(!is_sensor(nodes@[i as int], dv, parent@, text@));
                            }
                        },
                        None => {
                            assert(!is_sensor(nodes@[i as int], dv, parent@, text@));
                        },
                    }
                }
            }
            return Some(i);
        }
        i += 1;
    }
    proof {
        assert(nodes@.take(nodes@.len() as int) =~= nodes@);
    }
    None
}

/// The first sensor `text` under `parent` on the device `device`: how each
/// GPU metric is looked up within the chosen GPU's block of sensors.
pub fn sensor_index(nodes: &Vec<FlatNode>, device: &str, parent: &str, text: &str) -> (r: Option<usize>)
    ensures
        r matches Some(i) ==> first_sensor(nodes@, Some(device@), parent@, text@) == Some(i as int),
        r is None ==> first_sensor(nodes@, Some(device@), parent@, text@) is None,
{
    find_sensor(nodes, Some(device), parent, text)
}

/// The node at position `at`, kept only when its value parsed.
pub open spec fn with_reading(nodes: Seq<FlatNode>, at: Option<int>) -> Option<int> {
    match at {
        Some(i) => if nodes[i].key is Some {
            Some(i)
        } else {
            None
        },
        None => None,
    }
}

/// The CPU temperature sensor: the first `Temperatures` sensor named
/// `Core (Tctl/Tdie)` (AMD), else `CPU Package`, else `Core Average` (Intel),
/// taking the next name when the first sensor of a name has no reading.
/// Restricting to `Temperatures` keeps the like-named power sensors out.
pub open spec fn cpu_temp_spec(nodes: Seq<FlatNode>) -> Option<int> {
    match with_reading(nodes, first_sensor(nodes, None, "Temperatures"@, "Core (Tctl/Tdie)"@)) {
        Some(i) => Some(i),
        None => match with_reading(nodes, first_sensor(nodes, None, "Temperatures"@, "CPU Package"@)) {
            Some(i) => Some(i),
            None => with_reading(nodes, first_sensor(nodes, None, "Temperatures"@, "Core Average"@)),
        },
    }
}

/// The CPU package power sensor: `CPU Package` under `Powers` (Intel), else
/// `Package` (AMD), in the same way.
pub open spec fn cpu_power_spec(nodes: Seq<FlatNode>) -> Option<int> {
    match with_reading(nodes, first_sensor(nodes, None, "Powers"@, "CPU Package"@)) {
        Some(i) => Some(i),
        None => with_reading(nodes, first_sensor(nodes, None, "Powers"@, "Package"@)),
    }
}

fn reading_at(nodes: &Vec<FlatNode>, at: Option<usize>) -> (r: Option<usize>)
    requires
        at matches Some(i) ==> i < nodes@.len(),
    ensures
        with_reading(nodes@, position(at)) == position(r),
        r matches Some(i) ==> i < nodes@.len(),
{
    match at {
        Some(i) => if nodes[i].key.is_some() {
            Some(i)
        } else {
            None
        },
        None => None,
    }
}

proof fn lemma_first_in_range(nodes: Seq<FlatNode>, device: Option<Seq<char>>, parent: Seq<char>, text: Seq<char>)
    ensures
        first_sensor(nodes, device, parent, text) matches Some(i) ==> 0 <= i < nodes.len(),
{
    lemma_first_sensor(nodes, device, parent, text);
}

/// The CPU temperature sensor (see [`cpu_temp_spec`]).
pub fn cpu_temp_index(nodes: &Vec<FlatNode>) -> (r: Option<usize>)
    ensures
        position(r) == cpu_temp_spec(nodes@),
{
    proof {
        lemma_first_in_range(nodes@, None, "Temperatures"@, "Core (Tctl/Tdie)"@);
        lemma_first_in_range(nodes@, None, "Temperatures"@, "CPU Package"@);
        lemma_first_in_range(nodes@, None, "Temperatures"@, "Core Average"@);
    }
    let a = reading_at(nodes, find_sensor(nodes, None, "Temperatures", "Core (Tctl/Tdie)"));
    if a.is_some() {
        return a;
    }
    let b = reading_at(nodes, find_sensor(nodes, None, "Temperatures", "CPU Package"));
    if b.is_some() {
        return b;
    }
    reading_at(nodes, find_sensor(nodes, None, "Temperatures", "Core Average"))
}

/// The CPU package power sensor (see [`cpu_power_spec`]).
pub fn cpu_power_index(nodes: &Vec<FlatNode>) -> (r: Option<usize>)
    ensures
        position(r) == cpu_power_spec(nodes@),
{
    proof {
        lemma_first_in_range(nodes@, None, "Powers"@, "CPU Package"@);
        lemma_first_in_range(nodes@, None, "Powers"@, "Package"@);
    }
    let a = reading_at(nodes, find_sensor(nodes, None, "Powers", "CPU Package"));
    if a.is_some() {
        return a;
    }
    reading_at(nodes, find_sensor(nodes, None, "Powers", "Package"))
}


// ── GPUs ────────────────────────────────────────────────────────────────────

/// A node that belongs to a GPU: one on a named device whose sensor id is of
/// the `/gpu-` family, or, where the id is missing, one of the sensors every
/// GPU reports (core load, D3D 3D load, memory totals, core and SoC
/// temperature, core clock).
pub open spec fn is_gpu_node(n: FlatNode) -> bool {
    &&& n.grandparent@.len() > 0
    &&& {
        ||| starts_with(n.sensor_id@, "/gpu-"@)
        ||| is_sensor(n, None, "Load"@, "GPU Core"@)
        ||| is_sensor(n, None, "Load"@, "D3D 3D"@)
        ||| is_sensor(n, None, "Data"@, "GPU Memory Total"@)
        ||| is_sensor(n, None, "Data"@, "D3D Shared Memory Total"@)
        ||| is_sensor(n, None, "Temperatures"@, "GPU Core"@)
        ||| is_sensor(n, None, "Temperatures"@, "GPU VR SoC"@)
        ||| is_sensor(n, None, "Clocks"@, "GPU Core"@)
    }
}

/// The GPU devices of the tree: the distinct devices of its GPU nodes, in
/// the order they first appear.
pub open spec fn gpu_devices_spec(nodes: Seq<FlatNode>) -> Seq<Seq<char>>
    decreases nodes.len(),
{
    if nodes.len() == 0 {
        Seq::empty()
    } else {
        let rest = gpu_devices_spec(nodes.drop_last());
        let n = nodes.last();
        if is_gpu_node(n) && !rest.contains(n.grandparent@) {
            rest.push(n.grandparent@)
        } else {
            rest
        }
    }
}

fn is_gpu_node_exec(n: &FlatNode) -> (b: bool)
    ensures
        b == is_gpu_node(*n),
{
    proof {
        reveal_strlit("");
    }
    let unnamed = is_text(&n.grandparent, "");
    assert(""@.len() == 0);
    proof {
        if n.grandparent@.len() == 0 {
            assert(n.grandparent@ =~= ""@);
        }
    }
    assert(unnamed == (n.grandparent@.len() == 0));
    if unnamed {
        return false;
    }
    if has_prefix(&n.sensor_id, "/gpu-") {
        return true;
    }
    let p = &n.parent;
    let t = &n.text;
    (is_text(p, "Load") && is_text(t, "GPU Core")) || (is_text(p, "Load") && is_text(t, "D3D 3D"))
        || (is_text(p, "Data") && is_text(t, "GPU Memory Total")) || (is_text(p, "Data") && is_text(
        t,
        "D3D Shared Memory Total",
    )) || (is_text(p, "Temperatures") && is_text(t, "GPU Core")) || (is_text(p, "Temperatures")
        && is_text(t, "GPU VR SoC")) || (is_text(p, "Clocks") && is_text(t, "GPU Core"))
}

/// The names of `list`, as character sequences.
pub open spec fn names(list: Seq<String>) -> Seq<Seq<char>> {
    list.map_values(|x: String| x@)
}

fn listed(list: &Vec<String>, s: &String) -> (r: bool)
    ensures
        r == names(list@).contains(s@),
{
    let mut i: usize = 0;
    while i < list.len()
        invariant
            i <= list.len(),
            forall|j: int| 0 <= j < i ==> (#[trigger] list@[j])@ != s@,
        decreases list.len() - i,
    {
        if same_text(&list[i], s) {
            assert(names(list@)[i as int] == s@);
            return true;
        }
        i += 1;
    }
    proof {
        if names(list@).contains(s@) {
            let j = choose|j: int| 0 <= j < names(list@).len() && names(list@)[j] == s@;
            assert(list@[j]@ == s@);
        }
    }
    false
}

/// The GPU devices of the tree, in the order they first appear.
pub fn gpu_devices(nodes: &Vec<FlatNode>) -> (d: Vec<String>)
    ensures
        names(d@) == gpu_devices_spec(nodes@),
{
    let mut d: Vec<String> = Vec::new();
    let mut i: usize = 0;
    while i < nodes.len()
        invariant
            i <= nodes.len(),
            names(d@) == gpu_devices_spec(nodes@.take(i as int)),
        decreases nodes.len() - i,
    {
        let n = &nodes[i];
        assert(nodes@.take(i + 1).drop_last() =~= nodes@.take(i as int));
        assert(nodes@.take(i + 1).last() == nodes@[i as int]);
        if is_gpu_node_exec(n) && !listed(&d, &n.grandparent) {
            let g = n.grandparent.clone();
            let ghost before = names(d@);
            d.push(g);
            assert(names(d@) =~= before.push(n.grandparent@));
        }
        i += 1;
    }
    assert(nodes@.take(nodes@.len() as int) =~= nodes@);
    d
}

/// The key of node `i`'s reading, or the key of zero when its value did not parse.
pub open spec fn key_or_zero(nodes: Seq<FlatNode>, at: Option<int>) -> u64 {
    match at {
        Some(i) => match nodes[i].key {
            Some(k) => k,
            None => KEY_ZERO,
        },
        None => KEY_ZERO,
    }
}

/// The first of two sensors on `device` that exists: the second is looked
/// at only when there is no first (whether or not the first has a reading).
pub open spec fn first_of_two(
    nodes: Seq<FlatNode>,
    device: Seq<char>,
    a: (Seq<char>, Seq<char>),
    b: (Seq<char>, Seq<char>),
) -> Option<int> {
    match first_sensor(nodes, Some(device), a.0, a.1) {
        Some(i) => Some(i),
        None => first_sensor(nodes, Some(device), b.0, b.1),
    }
}

/// A GPU of the tree as the selection takes it: its total VRAM (`GPU Memory
/// Total`, else `D3D Shared Memory Total`) and its load (`GPU Core`, else
/// `D3D 3D`), each as an order key, zero when absent.
pub open spec fn gpu_candidate_spec(nodes: Seq<FlatNode>, device: Seq<char>) -> (u64, u64) {
    (
        key_or_zero(nodes, first_of_two(nodes, device, ("Data"@, "GPU Memory Total"@), ("Data"@, "D3D Shared Memory Total"@))),
        key_or_zero(nodes, first_of_two(nodes, device, ("Load"@, "GPU Core"@), ("Load"@, "D3D 3D"@))),
    )
}

fn key_at(nodes: &Vec<FlatNode>, at: Option<usize>) -> (k: u64)
    requires
        at matches Some(i) ==> i < nodes@.len(),
    ensures
        k == key_or_zero(nodes@, position(at)),
{
    match at {
        Some(i) => match nodes[i].key {
            Some(k) => k,
            None => KEY_ZERO,
        },
        None => KEY_ZERO,
    }
}

fn find_first_of_two(nodes: &Vec<FlatNode>, device: &str, p1: &str, t1: &str, p2: &str, t2: &str) -> (r: Option<usize>)
    ensures
        position(r) == first_of_two(nodes@, device@, (p1@, t1@), (p2@, t2@)),
        r matches Some(i) ==> i < nodes@.len(),
{
    proof {
        lemma_first_in_range(nodes@, Some(device@), p1@, t1@);
        lemma_first_in_range(nodes@, Some(device@), p2@, t2@);
    }
    match find_sensor(nodes, Some(device), p1, t1) {
        Some(i) => Some(i),
        None => find_sensor(nodes, Some(device), p2, t2),
    }
}

/// The GPUs of the tree with their VRAM and load keys, in the order they
/// first appear: what the GPU selection ranks.
pub fn gpu_candidates(nodes: &Vec<FlatNode>) -> (c: Vec<GpuCandidate>)
    ensures
        c@.len() == gpu_devices_spec(nodes@).len(),
        forall|i: int| 0 <= i < c@.len() ==> {
            &&& (#[trigger] c@[i]).name@ == gpu_devices_spec(nodes@)[i]
            &&& (c@[i].vram_key, c@[i].load_key) == gpu_candidate_spec(nodes@, gpu_devices_spec(nodes@)[i])
        },
{
    let devs = gpu_devices(nodes);
    let mut c: Vec<GpuCandidate> = Vec::new();
    let mut i: usize = 0;
    while i < devs.len()
        invariant
            i <= devs.len(),
            names(devs@) == gpu_devices_spec(nodes@),
            c@.len() == i,
            forall|j: int| 0 <= j < i ==> {
                &&& (#[trigger] c@[j]).name@ == gpu_devices_spec(nodes@)[j]
                &&& (c@[j].vram_key, c@[j].load_key) == gpu_candidate_spec(nodes@, gpu_devices_spec(nodes@)[j])
            },
        decreases devs.len() - i,
    {
        let d = devs[i].as_str();
        assert(names(devs@)[i as int] == devs@[i as int]@);
        let v = find_first_of_two(nodes, d, "Data", "GPU Memory Total", "Data", "D3D Shared Memory Total");
        let l = find_first_of_two(nodes, d, "Load", "GPU Core", "Load", "D3D 3D");
        let vk = key_at(nodes, v);
        let lk = key_at(nodes, l);
        c.push(GpuCandidate { name: devs[i].clone(), vram_key: vk, load_key: lk });
        i += 1;
    }
    c
}

/// A GPU metric read with a fallback: the first sensor `a` on `device` when
/// it has a reading, else the first sensor `b` when that has one (as the
/// temperature falls back from `GPU Core` to `GPU VR SoC`, the hot spot from
/// `GPU Hot Spot` to `GPU Memory Junction`, the power from `GPU Package` to
/// `GPU Core`, and the VRAM total from `GPU Memory Total` to `D3D Shared
/// Memory Total`).
pub open spec fn reading_with_fallback(
    nodes: Seq<FlatNode>,
    device: Seq<char>,
    a: (Seq<char>, Seq<char>),
    b: (Seq<char>, Seq<char>),
) -> Option<int> {
    match with_reading(nodes, first_sensor(nodes, Some(device), a.0, a.1)) {
        Some(i) => Some(i),
        None => with_reading(nodes, first_sensor(nodes, Some(device), b.0, b.1)),
    }
}

/// The sensor feeding a GPU metric that has a fallback (see [`reading_with_fallback`]).
pub fn gpu_reading_index(
    nodes: &Vec<FlatNode>,
    device: &str,
    parent: &str,
    text: &str,
    alt_parent: &str,
    alt_text: &str,
) -> (r: Option<usize>)
    ensures
        position(r) == reading_with_fallback(nodes@, device@, (parent@, text@), (alt_parent@, alt_text@)),
{
    proof {
        lemma_first_in_range(nodes@, Some(device@), parent@, text@);
        lemma_first_in_range(nodes@, Some(device@), alt_parent@, alt_text@);
    }
    let a = reading_at(nodes, find_sensor(nodes, Some(device), parent, text));
    if a.is_some() {
        return a;
    }
    reading_at(nodes, find_sensor(nodes, Some(device), alt_parent, alt_text))
}

/// The GPU fan sensor of `device`: its first `Fans` sensor whose name starts
/// with `GPU Fan`.
pub open spec fn is_gpu_fan(n: FlatNode, device: Seq<char>) -> bool {
    n.grandparent@ == device && n.parent@ == "Fans"@ && starts_with(n.text@, "GPU Fan"@)
}

/// The first GPU fan sensor of `device`.
pub fn gpu_fan_index(nodes: &Vec<FlatNode>, device: &str) -> (r: Option<usize>)
    ensures
        r matches Some(i) ==> i < nodes@.len() && is_gpu_fan(nodes@[i as int], device@) && forall|j: int|
            0 <= j < i ==> !is_gpu_fan(#[trigger] nodes@[j], device@),
        r is None ==> forall|j: int| 0 <= j < nodes@.len() ==> !is_gpu_fan(#[trigger] nodes@[j], device@),
{
    let mut i: usize = 0;
    while i < nodes.len()
        invariant
            i <= nodes.len(),
            forall|j: int| 0 <= j < i ==> !is_gpu_fan(#[trigger] nodes@[j], device@),
        decreases nodes.len() - i,
    {
        let n = &nodes[i];
        if is_text(&n.grandparent, device) && is_text(&n.parent, "Fans") && has_prefix(&n.text, "GPU Fan") {
            return Some(i);
        }
        i += 1;
    }
    None
}


// ── Ranking by reading ──────────────────────────────────────────────────────

/// Item `i` ranks before item `j`: a higher key, or an equal key and an
/// earlier position (a stable sort from the highest down).
pub open spec fn ranks_before(keys: Seq<u64>, i: int, j: int) -> bool {
    keys[i] > keys[j] || (keys[i] == keys[j] && i < j)
}

/// `r` is the first `limit` of the candidate positions `cands` (ascending
/// positions into `keys`) sorted from the highest key down, equal keys kept
/// in their order: as long as `limit` allows, in that order, and every
/// candidate left out ranks after every one kept.
pub open spec fn ranked(keys: Seq<u64>, cands: Seq<usize>, limit: nat, r: Seq<usize>) -> bool {
    &&& r.len() == (if cands.len() < limit { cands.len() } else { limit })
    &&& forall|k: int| 0 <= k < r.len() ==> cands.contains(#[trigger] r[k])
    &&& forall|a: int, b: int| 0 <= a < b < r.len() ==> ranks_before(keys, #[trigger] r[a] as int, #[trigger] r[b] as int)
    &&& forall|c: usize| #[trigger] cands.contains(c) && !r.contains(c) ==> forall|k: int|
        0 <= k < r.len() ==> ranks_before(keys, #[trigger] r[k] as int, c as int)
}

/// Positions in strictly ascending order, each a position of `keys`.
pub open spec fn ascending_positions(cands: Seq<usize>, n: nat) -> bool {
    &&& forall|a: int, b: int| 0 <= a < b < cands.len() ==> #[trigger] cands[a] < #[trigger] cands[b]
    &&& forall|a: int| 0 <= a < cands.len() ==> #[trigger] cands[a] < n
}

proof fn lemma_ranks_order(keys: Seq<u64>, i: int, j: int, k: int)
    ensures
        ranks_before(keys, i, j) && ranks_before(keys, j, k) ==> ranks_before(keys, i, k),
        i != j ==> ranks_before(keys, i, j) || ranks_before(keys, j, i),
        !ranks_before(keys, i, i),
        ranks_before(keys, i, j) ==> !ranks_before(keys, j, i),
{
}

/// Sorts the candidate positions from the highest key down, equal keys in
/// their order, and keeps the first `limit`.
pub fn rank_desc(keys: &Vec<u64>, cands: &Vec<usize>, limit: usize) -> (r: Vec<usize>)
    requires
        ascending_positions(cands@, keys@.len()),
    ensures
        ranked(keys@, cands@, limit as nat, r@),
{
    let ghost ks = keys@;
    let mut r: Vec<usize> = Vec::new();
    let mut i: usize = 0;
    while i < cands.len()
        invariant
            ks == keys@,
            ascending_positions(cands@, keys@.len()),
            i <= cands.len(),
            r@.len() == i,
            forall|k: int| 0 <= k < r@.len() ==> r@[k] < keys@.len(),
            forall|a: int, b: int| 0 <= a < b < r@.len() ==> ranks_before(ks, #[trigger] r@[a] as int, #[trigger] r@[b] as int),
            forall|x: usize| #[trigger] r@.contains(x) <==> cands@.take(i as int).contains(x),
        decreases cands.len() - i,
    {
        let x = cands[i];
        proof {
            assert forall|k: int| 0 <= k < r@.len() implies r@[k] != x by {
                assert(r@.contains(r@[k]));
                let q = choose|q: int| 0 <= q < i && #[trigger] cands@.take(i as int)[q] == r@[k];
                assert(cands@[q] < cands@[i as int]);
            }
        }
        let mut p: usize = 0;
        while p < r.len() && !(keys[x] > keys[r[p]] || (keys[x] == keys[r[p]] && x < r[p]))
            invariant
                ks == keys@,
                p <= r@.len(),
                x < keys@.len(),
                forall|k: int| 0 <= k < r@.len() ==> r@[k] < keys@.len(),
                forall|k: int| 0 <= k < r@.len() ==> r@[k] != x,
                forall|k: int| 0 <= k < p ==> ranks_before(ks, #[trigger] r@[k] as int, x as int),
            decreases r@.len() - p,
        {
            proof {
                lemma_ranks_order(ks, x as int, r@[p as int] as int, 0);
            }
            p += 1;
        }
        proof {
            if p < r@.len() {
                assert(ranks_before(ks, x as int, r@[p as int] as int));
                assert forall|k: int| p <= k < r@.len() implies ranks_before(ks, x as int, #[trigger] r@[k] as int) by {
                    if k > p {
                        assert(ranks_before(ks, r@[p as int] as int, r@[k] as int));
                        lemma_ranks_order(ks, x as int, r@[p as int] as int, r@[k] as int);
                    }
                }
            }
        }
        let ghost old_r = r@;
        r.insert(p, x);
        proof {
            assert(r@ == old_r.insert(p as int, x));
            assert forall|k: int| 0 <= k < r@.len() implies r@[k] < keys@.len() by {
                if k < p {
                    assert(r@[k] == old_r[k]);
                } else if k > p {
                    assert(r@[k] == old_r[k - 1]);
                }
            }
            assert forall|a: int, b: int| 0 <= a < b < r@.len() implies ranks_before(ks, #[trigger] r@[a] as int, #[trigger] r@[b] as int) by {
                if b < p {
                    assert(r@[a] == old_r[a] && r@[b] == old_r[b]);
                } else if b == p {
                    assert(r@[a] == old_r[a]);
                } else if a < p {
                    assert(r@[a] == old_r[a] && r@[b] == old_r[b - 1]);
                } else if a == p {
                    assert(r@[b] == old_r[b - 1]);
                } else {
                    assert(r@[a] == old_r[a - 1] && r@[b] == old_r[b - 1]);
                }
            }
            assert(cands@.take(i + 1) =~= cands@.take(i as int).push(x));
            assert forall|y: usize| #[trigger] r@.contains(y) <==> cands@.take(i + 1).contains(y) by {
                if r@.contains(y) {
                    let q = choose|q: int| 0 <= q < r@.len() && r@[q] == y;
                    if q != p {
                        let q2 = if q < p { q } else { q - 1 };
                        assert(old_r[q2] == y);
                        assert(old_r.contains(y));
                        assert(cands@.take(i as int).contains(y));
                        let w = choose|w: int| 0 <= w < i && #[trigger] cands@.take(i as int)[w] == y;
                        assert(cands@.take(i + 1)[w] == y);
                    } else {
                        assert(cands@.take(i + 1)[i as int] == y);
                    }
                }
                if cands@.take(i + 1).contains(y) {
                    let w = choose|w: int| 0 <= w < i + 1 && #[trigger] cands@.take(i + 1)[w] == y;
                    if w < i {
                        assert(cands@.take(i as int)[w] == y);
                        assert(old_r.contains(y));
                        let q = choose|q: int| 0 <= q < old_r.len() && old_r[q] == y;
                        if q < p {
                            assert(r@[q] == y);
                        } else {
                            assert(r@[q + 1] == y);
                        }
                    } else {
                        assert(r@[p as int] == y);
                    }
                }
            }
        }
        i += 1;
    }
    assert(cands@.take(cands@.len() as int) =~= cands@);
    let ghost full = r@;
    let n = if limit < r.len() { limit } else { r.len() };
    r.truncate(n);
    proof {
        assert(r@ =~= full.take(n as int));
        assert forall|k: int| 0 <= k < r@.len() implies cands@.contains(#[trigger] r@[k]) by {
            assert(full[k] == r@[k]);
            assert(full.contains(full[k]));
        }
        assert forall|a: int, b: int| 0 <= a < b < r@.len() implies ranks_before(ks, #[trigger] r@[a] as int, #[trigger] r@[b] as int) by {
            assert(r@[a] == full[a] && r@[b] == full[b]);
        }
        assert forall|c: usize| #[trigger] cands@.contains(c) && !r@.contains(c) implies forall|k: int|
            0 <= k < r@.len() ==> ranks_before(ks, #[trigger] r@[k] as int, c as int) by {
            assert(full.contains(c));
            let q = choose|q: int| 0 <= q < full.len() && full[q] == c;
            if q < n {
                assert(r@[q] == c);
            }
            assert forall|k: int| 0 <= k < r@.len() implies ranks_before(ks, #[trigger] r@[k] as int, c as int) by {
                assert(r@[k] == full[k]);
            }
        }
    }
    r
}


// ── Sensor rules ────────────────────────────────────────────────────────────

/// The selection rules applied to single nodes.
#[derive(Clone, Copy, Debug, PartialEq, Eq, Structural)]
pub enum NodeRule {
    /// A motherboard fan (Super I/O, `/lpc/`) that spins: a reading above 0 RPM
    /// (0 is how LHM reports an unconnected header).
    MbFan,
    /// A motherboard temperature of at least 5 °C (lower values are LHM's
    /// placeholders for absent sensors).
    MbTemp,
    /// A named Super I/O voltage rail (not a generic `Voltage #N` pin) above 0.1 V.
    LpcRail,
    /// An AMD CPU SVI2 voltage rail above 0.1 V, per-core `VID` targets and
    /// generic pins excluded: the rails shown when there is no Super I/O chip.
    Svi2Rail,
    /// A DIMM's own temperature reading (`/temperature/0`; the other indices
    /// are resolutions and thresholds) above 0 °C.
    DimmTemp,
    /// A drive temperature (NVMe, HDD, ATA, SCSI or SSD sensor) above 0 °C
    /// that is a reading, not a `Warning` or `Critical` threshold.
    DriveTemp,
}

/// The node's reading is present and above `k`.
pub open spec fn above(n: FlatNode, k: u64) -> bool {
    n.key matches Some(v) && v > k
}

/// Node `n` passes `rule`.
pub open spec fn passes(n: FlatNode, rule: NodeRule) -> bool {
    match rule {
        NodeRule::MbFan => n.parent@ == "Fans"@ && starts_with(n.sensor_id@, "/lpc/"@) && above(n, KEY_ZERO),
        NodeRule::MbTemp => n.parent@ == "Temperatures"@ && starts_with(n.sensor_id@, "/lpc/"@)
            && (n.key matches Some(v) && v >= KEY_FIVE),
        NodeRule::LpcRail => starts_with(n.sensor_id@, "/lpc/"@) && contains_seq(n.sensor_id@, "/voltage/"@)
            && !starts_with(n.text@, "Voltage #"@) && above(n, KEY_TENTH),
        NodeRule::Svi2Rail => starts_with(n.sensor_id@, "/amdcpu/"@) && contains_seq(
            n.sensor_id@,
            "/voltage/"@,
        ) && !contains_seq(n.text@, "VID"@) && !starts_with(n.text@, "Voltage #"@) && above(n, KEY_TENTH),
        NodeRule::DimmTemp => n.parent@ == "Temperatures"@ && starts_with(n.sensor_id@, "/memory/dimm/"@)
            && ends_with(n.sensor_id@, "/temperature/0"@) && above(n, KEY_ZERO),
        NodeRule::DriveTemp => n.parent@ == "Temperatures"@ && (starts_with(n.sensor_id@, "/nvme/"@)
            || starts_with(n.sensor_id@, "/hdd/"@) || starts_with(n.sensor_id@, "/ata/"@) || starts_with(
            n.sensor_id@,
            "/scsi/"@,
        ) || starts_with(n.sensor_id@, "/ssd/"@)) && !contains_seq(n.text@, "Warning"@) && !contains_seq(
            n.text@,
            "Critical"@,
        ) && above(n, KEY_ZERO),
    }
}

fn above_exec(n: &FlatNode, k: u64) -> (b: bool)
    ensures
        b == above(*n, k),
{
    match n.key {
        Some(v) => v > k,
        None => false,
    }
}

fn passes_exec(n: &FlatNode, rule: NodeRule) -> (b: bool)
    ensures
        b == passes(*n, rule),
{
    let sid = &n.sensor_id;
    match rule {
        NodeRule::MbFan => is_text(&n.parent, "Fans") && has_prefix(sid, "/lpc/") && above_exec(n, KEY_ZERO),
        NodeRule::MbTemp => is_text(&n.parent, "Temperatures") && has_prefix(sid, "/lpc/") && match n.key {
            Some(v) => v >= KEY_FIVE,
            None => false,
        },
        NodeRule::LpcRail => has_prefix(sid, "/lpc/") && has_part(sid, "/voltage/") && !has_prefix(
            &n.text,
            "Voltage #",
        ) && above_exec(n, KEY_TENTH),
        NodeRule::Svi2Rail => has_prefix(sid, "/amdcpu/") && has_part(sid, "/voltage/") && !has_part(
            &n.text,
            "VID",
        ) && !has_prefix(&n.text, "Voltage #") && above_exec(n, KEY_TENTH),
        NodeRule::DimmTemp => is_text(&n.parent, "Temperatures") && has_prefix(sid, "/memory/dimm/")
            && has_suffix(sid, "/temperature/0") && above_exec(n, KEY_ZERO),
        NodeRule::DriveTemp => is_text(&n.parent, "Temperatures") && (has_prefix(sid, "/nvme/")
            || has_prefix(sid, "/hdd/") || has_prefix(sid, "/ata/") || has_prefix(sid, "/scsi/")
            || has_prefix(sid, "/ssd/")) && !has_part(&n.text, "Warning") && !has_part(&n.text, "Critical")
            && above_exec(n, KEY_ZERO),
    }
}

/// The positions of the nodes that pass `rule`, in order.
pub open spec fn passing(nodes: Seq<FlatNode>, rule: NodeRule) -> Seq<usize>
    decreases nodes.len(),
{
    if nodes.len() == 0 {
        Seq::empty()
    } else if passes(nodes.last(), rule) {
        passing(nodes.drop_last(), rule).push((nodes.len() - 1) as usize)
    } else {
        passing(nodes.drop_last(), rule)
    }
}

proof fn lemma_passing(nodes: Seq<FlatNode>, rule: NodeRule)
    requires
        nodes.len() <= usize::MAX,
    ensures
        ascending_positions(passing(nodes, rule), nodes.len()),
        forall|k: int| 0 <= k < passing(nodes, rule).len() ==> passes(nodes[#[trigger] passing(nodes, rule)[k] as int], rule),
    decreases nodes.len(),
{
    if nodes.len() > 0 {
        let prev = nodes.drop_last();
        lemma_passing(prev, rule);
        let pp = passing(prev, rule);
        assert forall|k: int| 0 <= k < pp.len() implies nodes[pp[k] as int] == prev[pp[k] as int] by {}
    }
}

/// The positions of the nodes that pass `rule`, in order.
pub fn positions_passing(nodes: &Vec<FlatNode>, rule: NodeRule) -> (r: Vec<usize>)
    ensures
        r@ == passing(nodes@, rule),
{
    let mut r: Vec<usize> = Vec::new();
    let mut i: usize = 0;
    while i < nodes.len()
        invariant
            i <= nodes.len(),
            r@ == passing(nodes@.take(i as int), rule),
        decreases nodes.len() - i,
    {
        assert(nodes@.take(i + 1).drop_last() =~= nodes@.take(i as int));
        assert(nodes@.take(i + 1).last() == nodes@[i as int]);
        if passes_exec(&nodes[i], rule) {
            r.push(i);
        }
        i += 1;
    }
    assert(nodes@.take(nodes@.len() as int) =~= nodes@);
    r
}

/// The reading keys of `nodes`, zero for a node without a reading.
pub open spec fn node_keys(nodes: Seq<FlatNode>) -> Seq<u64> {
    Seq::new(nodes.len(), |i: int| match nodes[i].key {
        Some(k) => k,
        None => 0,
    })
}

fn keys_of(nodes: &Vec<FlatNode>) -> (k: Vec<u64>)
    ensures
        k@ == node_keys(nodes@),
{
    let mut k: Vec<u64> = Vec::new();
    let mut i: usize = 0;
    while i < nodes.len()
        invariant
            i <= nodes.len(),
            k@.len() == i,
            forall|j: int| 0 <= j < i ==> k@[j] == node_keys(nodes@)[j],
        decreases nodes.len() - i,
    {
        let v = match nodes[i].key {
            Some(x) => x,
            None => 0,
        };
        k.push(v);
        i += 1;
    }
    assert(k@ =~= node_keys(nodes@));
    k
}

// ── Motherboard ─────────────────────────────────────────────────────────────

/// The motherboard fans that spin, fastest first (equal speeds in tree order).
pub fn mb_fan_indices(nodes: &Vec<FlatNode>) -> (r: Vec<usize>)
    ensures
        ranked(node_keys(nodes@), passing(nodes@, NodeRule::MbFan), nodes@.len(), r@),
{
    let keys = keys_of(nodes);
    let cands = positions_passing(nodes, NodeRule::MbFan);
    let n = nodes.len();
    proof {
        lemma_passing(nodes@, NodeRule::MbFan);
    }
    let r = rank_desc(&keys, &cands, n);
    r
}

/// The motherboard temperatures of at least 5 °C, in tree order.
pub fn mb_temp_indices(nodes: &Vec<FlatNode>) -> (r: Vec<usize>)
    ensures
        r@ == passing(nodes@, NodeRule::MbTemp),
{
    positions_passing(nodes, NodeRule::MbTemp)
}

/// The motherboard voltage rails, in tree order: the named Super I/O rails,
/// or the AMD SVI2 rails when there is none (a laptop's embedded controller
/// instead of a Super I/O chip).
pub open spec fn mb_voltages_spec(nodes: Seq<FlatNode>) -> Seq<usize> {
    if passing(nodes, NodeRule::LpcRail).len() > 0 {
        passing(nodes, NodeRule::LpcRail)
    } else {
        passing(nodes, NodeRule::Svi2Rail)
    }
}

/// The motherboard voltage rails (see [`mb_voltages_spec`]).
pub fn mb_voltage_indices(nodes: &Vec<FlatNode>) -> (r: Vec<usize>)
    ensures
        r@ == mb_voltages_spec(nodes@),
{
    let lpc = positions_passing(nodes, NodeRule::LpcRail);
    if lpc.len() > 0 {
        lpc
    } else {
        positions_passing(nodes, NodeRule::Svi2Rail)
    }
}

/// The Super I/O chip: the device of the first `/lpc/` sensor, when it has a name.
pub fn mb_chip_index(nodes: &Vec<FlatNode>) -> (r: Option<usize>)
    ensures
        r matches Some(i) ==> i < nodes@.len() && starts_with(nodes@[i as int].sensor_id@, "/lpc/"@)
            && nodes@[i as int].grandparent@.len() > 0 && forall|j: int|
            0 <= j < i ==> !starts_with((#[trigger] nodes@[j]).sensor_id@, "/lpc/"@),
        r is None ==> forall|k: int|
            0 <= k < nodes@.len() && starts_with(nodes@[k].sensor_id@, "/lpc/"@) && (forall|m: int|
                0 <= m < k ==> !starts_with((#[trigger] nodes@[m]).sensor_id@, "/lpc/"@))
                ==> #[trigger] nodes@[k].grandparent@.len() == 0,
{
    proof {
        reveal_strlit("");
    }
    let mut i: usize = 0;
    while i < nodes.len()
        invariant
            i <= nodes.len(),
            forall|j: int| 0 <= j < i ==> !starts_with((#[trigger] nodes@[j]).sensor_id@, "/lpc/"@),
        decreases nodes.len() - i,
    {
        if has_prefix(&nodes[i].sensor_id, "/lpc/") {
            let unnamed = is_text(&nodes[i].grandparent, "");
            proof {
                reveal_strlit("");
                assert(""@.len() == 0);
                if nodes@[i as int].grandparent@.len() == 0 {
                    assert(nodes@[i as int].grandparent@ =~= ""@);
                }
            }
            if unnamed {
                return None;
            }
            return Some(i);
        }
        i += 1;
    }
    None
}


// ── Memory and drives ───────────────────────────────────────────────────────

/// The highest key among the nodes at positions `ps`.
pub open spec fn max_key_at(nodes: Seq<FlatNode>, ps: Seq<usize>) -> Option<u64>
    decreases ps.len(),
{
    if ps.len() == 0 {
        None
    } else {
        let k = node_keys(nodes)[ps.last() as int];
        match max_key_at(nodes, ps.drop_last()) {
            None => Some(k),
            Some(m) => Some(if k > m { k } else { m }),
        }
    }
}

/// The memory temperature: the highest DIMM temperature reading (see
/// [`NodeRule::DimmTemp`]) as an order key, `None` without one.
pub fn ram_temp_key(nodes: &Vec<FlatNode>) -> (r: Option<u64>)
    ensures
        r == max_key_at(nodes@, passing(nodes@, NodeRule::DimmTemp)),
        r is None <==> forall|j: int| 0 <= j < nodes@.len() ==> !passes(#[trigger] nodes@[j], NodeRule::DimmTemp),
        r matches Some(m) ==> forall|j: int|
            0 <= j < nodes@.len() && passes(#[trigger] nodes@[j], NodeRule::DimmTemp) ==> (nodes@[j].key matches Some(k) && k <= m),
{
    let _len: usize = nodes.len();
    proof {
        lemma_ram_temp_is_highest(nodes@);
    }
    let ps = positions_passing(nodes, NodeRule::DimmTemp);
    let keys = keys_of(nodes);
    let n = nodes.len();
    proof {
        lemma_passing(nodes@, NodeRule::DimmTemp);
    }
    let mut best: Option<u64> = None;
    let mut k: usize = 0;
    while k < ps.len()
        invariant
            k <= ps.len(),
            keys@ == node_keys(nodes@),
            n == nodes@.len(),
            ascending_positions(ps@, n as nat),
            best == max_key_at(nodes@, ps@.take(k as int)),
        decreases ps.len() - k,
    {
        assert(ps@.take(k + 1).drop_last() =~= ps@.take(k as int));
        assert(ps@.take(k + 1).last() == ps@[k as int]);
        let v = keys[ps[k]];
        best = match best {
            None => Some(v),
            Some(m) => Some(if v > m { v } else { m }),
        };
        k += 1;
    }
    assert(ps@.take(ps@.len() as int) =~= ps@);
    best
}

/// The drives with a temperature reading (see [`NodeRule::DriveTemp`]): the
/// distinct named devices of those sensors, in the order they first appear.
pub open spec fn drives_spec(nodes: Seq<FlatNode>) -> Seq<Seq<char>>
    decreases nodes.len(),
{
    if nodes.len() == 0 {
        Seq::empty()
    } else {
        let rest = drives_spec(nodes.drop_last());
        let n = nodes.last();
        if passes(n, NodeRule::DriveTemp) && n.grandparent@.len() > 0 && !rest.contains(n.grandparent@) {
            rest.push(n.grandparent@)
        } else {
            rest
        }
    }
}

/// The drives with a temperature reading, in the order they first appear.
pub fn disk_temp_drives(nodes: &Vec<FlatNode>) -> (d: Vec<String>)
    ensures
        names(d@) == drives_spec(nodes@),
{
    let mut d: Vec<String> = Vec::new();
    let mut i: usize = 0;
    while i < nodes.len()
        invariant
            i <= nodes.len(),
            names(d@) == drives_spec(nodes@.take(i as int)),
        decreases nodes.len() - i,
    {
        let n = &nodes[i];
        assert(nodes@.take(i + 1).drop_last() =~= nodes@.take(i as int));
        assert(nodes@.take(i + 1).last() == nodes@[i as int]);
        let named = !is_text(&n.grandparent, "");
        proof {
            reveal_strlit("");
            assert(""@.len() == 0);
            if n.grandparent@.len() == 0 {
                assert(n.grandparent@ =~= ""@);
            }
        }
        if passes_exec(n, NodeRule::DriveTemp) && named && !listed(&d, &n.grandparent) {
            let g = n.grandparent.clone();
            let ghost before = names(d@);
            d.push(g);
            assert(names(d@) =~= before.push(n.grandparent@));
        }
        i += 1;
    }
    assert(nodes@.take(nodes@.len() as int) =~= nodes@);
    d
}

/// Among the positions `ps`, the sensor of `drive` with the highest reading,
/// the first of equal ones.
pub open spec fn drive_best(nodes: Seq<FlatNode>, ps: Seq<usize>, drive: Seq<char>) -> Option<int>
    decreases ps.len(),
{
    if ps.len() == 0 {
        None
    } else {
        let p = ps.last() as int;
        let rest = drive_best(nodes, ps.drop_last(), drive);
        if nodes[p].grandparent@ == drive {
            match rest {
                None => Some(p),
                Some(b) => if node_keys(nodes)[p] > node_keys(nodes)[b] {
                    Some(p)
                } else {
                    Some(b)
                },
            }
        } else {
            rest
        }
    }
}

/// The temperature sensor of `drive`: its highest drive temperature reading,
/// the first of equal ones.
pub fn disk_temp_index(nodes: &Vec<FlatNode>, drive: &str) -> (r: Option<usize>)
    ensures
        position(r) == drive_best(nodes@, passing(nodes@, NodeRule::DriveTemp), drive@),
        r matches Some(b) ==> forall|j: int|
            0 <= j < nodes@.len() && passes(#[trigger] nodes@[j], NodeRule::DriveTemp) && nodes@[j].grandparent@ == drive@
                ==> node_keys(nodes@)[j] <= node_keys(nodes@)[b as int],
{
    let _len: usize = nodes.len();
    proof {
        lemma_drive_temp_is_highest(nodes@, drive@);
    }
    let ps = positions_passing(nodes, NodeRule::DriveTemp);
    let keys = keys_of(nodes);
    let n = nodes.len();
    proof {
        lemma_passing(nodes@, NodeRule::DriveTemp);
    }
    let mut best: Option<usize> = None;
    let mut k: usize = 0;
    while k < ps.len()
        invariant
            k <= ps.len(),
            keys@ == node_keys(nodes@),
            n == nodes@.len(),
            ascending_positions(ps@, n as nat),
            position(best) == drive_best(nodes@, ps@.take(k as int), drive@),
            best matches Some(b) ==> b < n,
        decreases ps.len() - k,
    {
        assert(ps@.take(k + 1).drop_last() =~= ps@.take(k as int));
        assert(ps@.take(k + 1).last() == ps@[k as int]);
        let p = ps[k];
        if is_text(&nodes[p].grandparent, drive) {
            best = match best {
                None => Some(p),
                Some(b) => if keys[p] > keys[b] {
                    Some(p)
                } else {
                    Some(b)
                },
            };
        }
        k += 1;
    }
    assert(ps@.take(ps@.len() as int) =~= ps@);
    best
}

// ── Processes, drives and network interfaces of the poll ────────────────────

/// All positions `0..n`, in order.
pub open spec fn all_positions(n: nat) -> Seq<usize> {
    Seq::new(n, |i: int| i as usize)
}

/// The processes shown: at most eight, by CPU share from the highest down,
/// equal shares in the order the system listed them (`cpu_keys[i]` is the
/// order key of process `i`'s share).
pub fn top_processes(cpu_keys: &Vec<u64>) -> (r: Vec<usize>)
    ensures
        ranked(cpu_keys@, all_positions(cpu_keys@.len()), 8, r@),
{
    let mut all: Vec<usize> = Vec::new();
    let mut i: usize = 0;
    while i < cpu_keys.len()
        invariant
            i <= cpu_keys.len(),
            all@ == all_positions(i as nat),
        decreases cpu_keys.len() - i,
    {
        all.push(i);
        assert(all@ =~= all_positions((i + 1) as nat));
        i += 1;
    }
    rank_desc(cpu_keys, &all, 8)
}

/// A process's memory in whole MiB (`bytes / 1_048_576`).
pub fn mem_mb(bytes: u64) -> (mb: u64)
    ensures
        mb == bytes / 1_048_576,
{
    bytes / 1_048_576
}

/// The positions of the drives larger than 1 GB (`1_000_000_000` bytes), in order.
pub open spec fn large_spec(total_bytes: Seq<u64>) -> Seq<usize>
    decreases total_bytes.len(),
{
    if total_bytes.len() == 0 {
        Seq::empty()
    } else if total_bytes.last() > 1_000_000_000 {
        large_spec(total_bytes.drop_last()).push((total_bytes.len() - 1) as usize)
    } else {
        large_spec(total_bytes.drop_last())
    }
}

/// The drives shown: those larger than 1 GB, in order.
pub fn large_drives(total_bytes: &Vec<u64>) -> (r: Vec<usize>)
    ensures
        r@ == large_spec(total_bytes@),
{
    let mut r: Vec<usize> = Vec::new();
    let mut i: usize = 0;
    while i < total_bytes.len()
        invariant
            i <= total_bytes.len(),
            r@ == large_spec(total_bytes@.take(i as int)),
        decreases total_bytes.len() - i,
    {
        assert(total_bytes@.take(i + 1).drop_last() =~= total_bytes@.take(i as int));
        assert(total_bytes@.take(i + 1).last() == total_bytes@[i as int]);
        if total_bytes[i] > 1_000_000_000 {
            r.push(i);
        }
        i += 1;
    }
    assert(total_bytes@.take(total_bytes@.len() as int) =~= total_bytes@);
    r
}

/// The busiest network interface: the first with the largest traffic
/// (bytes sent plus received since the last sample), `None` when no
/// interface had any.
pub open spec fn busiest_spec(traffic: Seq<(u64, u64)>) -> Option<int>
    decreases traffic.len(),
{
    if traffic.len() == 0 {
        None
    } else {
        let rest = busiest_spec(traffic.drop_last());
        let t = traffic.last().0 + traffic.last().1;
        let best: int = match rest {
            Some(b) => traffic[b].0 + traffic[b].1,
            None => 0,
        };
        if t > best {
            Some(traffic.len() - 1)
        } else {
            rest
        }
    }
}

/// The busiest network interface (see [`busiest_spec`]).
pub fn busiest_interface(traffic: &Vec<(u64, u64)>) -> (r: Option<usize>)
    ensures
        position(r) == busiest_spec(traffic@),
{
    let mut best: Option<usize> = None;
    let mut best_sum: u128 = 0;
    let mut i: usize = 0;
    while i < traffic.len()
        invariant
            i <= traffic.len(),
            position(best) == busiest_spec(traffic@.take(i as int)),
            best matches Some(b) ==> b < i && best_sum == traffic@[b as int].0 + traffic@[b as int].1,
            best is None ==> best_sum == 0,
        decreases traffic.len() - i,
    {
        assert(traffic@.take(i + 1).drop_last() =~= traffic@.take(i as int));
        assert(traffic@.take(i + 1).last() == traffic@[i as int]);
        proof {
            if let Some(b) = best {
                assert(traffic@.take(i + 1)[b as int] == traffic@[b as int]);
            }
        }
        let (tx, rx) = traffic[i];
        let t = tx as u128 + rx as u128;
        if t > best_sum {
            best = Some(i);
            best_sum = t;
        }
        i += 1;
    }
    assert(traffic@.take(traffic@.len() as int) =~= traffic@);
    best
}


// ── What the selections mean ────────────────────────────────────────────────

/// Node `j` is the first that is the sensor `text` under `parent` on `device`.
pub open spec fn first_at(nodes: Seq<FlatNode>, device: Seq<char>, parent: Seq<char>, text: Seq<char>, j: int) -> bool {
    &&& 0 <= j < nodes.len()
    &&& is_sensor(nodes[j], Some(device), parent, text)
    &&& forall|m: int| 0 <= m < j ==> !is_sensor(#[trigger] nodes[m], Some(device), parent, text)
}

/// `device` has no sensor `text` under `parent`.
pub open spec fn lacks(nodes: Seq<FlatNode>, device: Seq<char>, parent: Seq<char>, text: Seq<char>) -> bool {
    forall|j: int| 0 <= j < nodes.len() ==> !is_sensor(#[trigger] nodes[j], Some(device), parent, text)
}

/// The reading of node `j` as an order key, zero without one.
pub open spec fn reading_or_zero(n: FlatNode) -> u64 {
    match n.key {
        Some(k) => k,
        None => KEY_ZERO,
    }
}

proof fn lemma_first_at(nodes: Seq<FlatNode>, device: Seq<char>, parent: Seq<char>, text: Seq<char>)
    ensures
        forall|j: int| #[trigger] first_at(nodes, device, parent, text, j) ==> first_sensor(nodes, Some(device), parent, text) == Some(j),
        lacks(nodes, device, parent, text) ==> first_sensor(nodes, Some(device), parent, text) is None,
{
    lemma_first_sensor(nodes, Some(device), parent, text);
    assert forall|j: int| #[trigger] first_at(nodes, device, parent, text, j) implies first_sensor(nodes, Some(device), parent, text) == Some(j) by {
        match first_sensor(nodes, Some(device), parent, text) {
            Some(i) => {
                if i < j {
                    assert(!is_sensor(nodes[i], Some(device), parent, text));
                } else if i > j {
                    assert(!is_sensor(nodes[j], Some(device), parent, text));
                }
            },
            None => {
                assert(!is_sensor(nodes[j], Some(device), parent, text));
            },
        }
    }
    if lacks(nodes, device, parent, text) {
        if let Some(i) = first_sensor(nodes, Some(device), parent, text) {
            assert(!is_sensor(nodes[i], Some(device), parent, text));
        }
    }
}

/// A GPU's VRAM is the reading of its first `GPU Memory Total` sensor
/// whenever it has one; its first `D3D Shared Memory Total` sensor counts
/// only when it has none; zero without either. Its load is likewise its first
/// `GPU Core` load, else its first `D3D 3D` load, else zero.
pub proof fn lemma_gpu_vram_and_load(nodes: Seq<FlatNode>, device: Seq<char>, j: int)
    ensures
        first_at(nodes, device, "Data"@, "GPU Memory Total"@, j) ==> gpu_candidate_spec(nodes, device).0
            == reading_or_zero(nodes[j]),
        lacks(nodes, device, "Data"@, "GPU Memory Total"@) && first_at(nodes, device, "Data"@, "D3D Shared Memory Total"@, j)
            ==> gpu_candidate_spec(nodes, device).0 == reading_or_zero(nodes[j]),
        lacks(nodes, device, "Data"@, "GPU Memory Total"@) && lacks(nodes, device, "Data"@, "D3D Shared Memory Total"@)
            ==> gpu_candidate_spec(nodes, device).0 == KEY_ZERO,
        first_at(nodes, device, "Load"@, "GPU Core"@, j) ==> gpu_candidate_spec(nodes, device).1 == reading_or_zero(nodes[j]),
        lacks(nodes, device, "Load"@, "GPU Core"@) && first_at(nodes, device, "Load"@, "D3D 3D"@, j)
            ==> gpu_candidate_spec(nodes, device).1 == reading_or_zero(nodes[j]),
        lacks(nodes, device, "Load"@, "GPU Core"@) && lacks(nodes, device, "Load"@, "D3D 3D"@)
            ==> gpu_candidate_spec(nodes, device).1 == KEY_ZERO,
{
    lemma_first_at(nodes, device, "Data"@, "GPU Memory Total"@);
    lemma_first_at(nodes, device, "Data"@, "D3D Shared Memory Total"@);
    lemma_first_at(nodes, device, "Load"@, "GPU Core"@);
    lemma_first_at(nodes, device, "Load"@, "D3D 3D"@);
}

proof fn lemma_passing_members(nodes: Seq<FlatNode>, rule: NodeRule)
    requires
        nodes.len() <= usize::MAX,
    ensures
        forall|j: int| 0 <= j < nodes.len() ==> (passes(nodes[j], rule) <==> #[trigger] passing(nodes, rule).contains(j as usize)),
    decreases nodes.len(),
{
    if nodes.len() > 0 {
        let prev = nodes.drop_last();
        lemma_passing_members(prev, rule);
        lemma_passing(prev, rule);
        let pp = passing(prev, rule);
        let last = (nodes.len() - 1) as usize;
        assert forall|j: int| 0 <= j < nodes.len() implies (passes(nodes[j], rule) <==> #[trigger] passing(nodes, rule).contains(j as usize)) by {
            if passes(nodes.last(), rule) {
                assert(passing(nodes, rule) == pp.push(last));
                if j < nodes.len() - 1 {
                    assert(nodes[j] == prev[j]);
                    if passing(nodes, rule).contains(j as usize) {
                        let k = choose|k: int| 0 <= k < pp.push(last).len() && pp.push(last)[k] == j as usize;
                        if k < pp.len() {
                            assert(pp[k] == j as usize);
                        }
                    }
                    if pp.contains(j as usize) {
                        let k = choose|k: int| 0 <= k < pp.len() && pp[k] == j as usize;
                        assert(pp.push(last)[k] == j as usize);
                    }
                } else {
                    assert(pp.push(last)[pp.len() as int] == last);
                }
            } else {
                assert(passing(nodes, rule) == pp);
                if j < nodes.len() - 1 {
                    assert(nodes[j] == prev[j]);
                } else {
                    if pp.contains(j as usize) {
                        let k = choose|k: int| 0 <= k < pp.len() && pp[k] == j as usize;
                        assert(pp[k] < prev.len());
                    }
                }
            }
        }
    }
}

proof fn lemma_max_key_at(nodes: Seq<FlatNode>, ps: Seq<usize>)
    ensures
        max_key_at(nodes, ps) is None <==> ps.len() == 0,
        max_key_at(nodes, ps) matches Some(m) ==> (exists|k: int| 0 <= k < ps.len() && node_keys(nodes)[#[trigger] ps[k] as int] == m)
            && forall|k: int| 0 <= k < ps.len() ==> node_keys(nodes)[#[trigger] ps[k] as int] <= m,
    decreases ps.len(),
{
    if ps.len() > 0 {
        let prev = ps.drop_last();
        lemma_max_key_at(nodes, prev);
        assert forall|k: int| 0 <= k < prev.len() implies prev[k] == ps[k] by {}
        assert(ps.last() == ps[ps.len() - 1]);
        if let Some(m) = max_key_at(nodes, prev) {
            let k = choose|k: int| 0 <= k < prev.len() && node_keys(nodes)[#[trigger] prev[k] as int] == m;
            assert(ps[k] == prev[k]);
        }
    }
}

/// The memory temperature is the highest DIMM reading: absent exactly when
/// no sensor passes the DIMM rule, and otherwise the reading of one that
/// does, at least that of every one that does.
pub proof fn lemma_ram_temp_is_highest(nodes: Seq<FlatNode>)
    requires
        nodes.len() <= usize::MAX,
    ensures
        max_key_at(nodes, passing(nodes, NodeRule::DimmTemp)) is None <==> forall|j: int|
            0 <= j < nodes.len() ==> !passes(#[trigger] nodes[j], NodeRule::DimmTemp),
        max_key_at(nodes, passing(nodes, NodeRule::DimmTemp)) matches Some(m) ==> (exists|j: int|
            0 <= j < nodes.len() && passes(#[trigger] nodes[j], NodeRule::DimmTemp) && nodes[j].key == Some(m))
            && forall|j: int| 0 <= j < nodes.len() && passes(#[trigger] nodes[j], NodeRule::DimmTemp) ==> (nodes[j].key matches Some(k) && k <= m),
{
    let ps = passing(nodes, NodeRule::DimmTemp);
    lemma_passing(nodes, NodeRule::DimmTemp);
    lemma_passing_members(nodes, NodeRule::DimmTemp);
    lemma_max_key_at(nodes, ps);
    if ps.len() > 0 {
        let j = ps[0] as int;
        assert(ps.contains(j as usize));
        assert(passes(nodes[j], NodeRule::DimmTemp));
    } else {
        assert forall|j: int| 0 <= j < nodes.len() implies !passes(#[trigger] nodes[j], NodeRule::DimmTemp) by {
            if passes(nodes[j], NodeRule::DimmTemp) {
                assert(ps.contains(j as usize));
            }
        }
    }
    if let Some(m) = max_key_at(nodes, ps) {
        let k = choose|k: int| 0 <= k < ps.len() && node_keys(nodes)[#[trigger] ps[k] as int] == m;
        let j = ps[k] as int;
        assert(ps.contains(ps[k]));
        assert(passes(nodes[j], NodeRule::DimmTemp));
        assert forall|j2: int| 0 <= j2 < nodes.len() && passes(#[trigger] nodes[j2], NodeRule::DimmTemp)
            implies (nodes[j2].key matches Some(x) && x <= m) by {
            assert(ps.contains(j2 as usize));
            let k2 = choose|k2: int| 0 <= k2 < ps.len() && ps[k2] == j2 as usize;
            assert(node_keys(nodes)[ps[k2] as int] <= m);
        }
    }
}

proof fn lemma_drive_best_gen(nodes: Seq<FlatNode>, ps: Seq<usize>, drive: Seq<char>)
    requires
        ascending_positions(ps, nodes.len()),
    ensures
        drive_best(nodes, ps, drive) matches Some(b) ==> (exists|k: int| 0 <= k < ps.len() && #[trigger] ps[k] as int == b)
            && nodes[b].grandparent@ == drive && forall|k: int|
            0 <= k < ps.len() && nodes[#[trigger] ps[k] as int].grandparent@ == drive ==> node_keys(nodes)[ps[k] as int]
                <= node_keys(nodes)[b] && (node_keys(nodes)[ps[k] as int] == node_keys(nodes)[b] ==> b <= ps[k]),
        drive_best(nodes, ps, drive) is None ==> forall|k: int| 0 <= k < ps.len() ==> nodes[#[trigger] ps[k] as int].grandparent@ != drive,
    decreases ps.len(),
{
    if ps.len() > 0 {
        let prev = ps.drop_last();
        assert forall|a: int, b: int| 0 <= a < b < prev.len() implies #[trigger] prev[a] < #[trigger] prev[b] by {
            assert(prev[a] == ps[a] && prev[b] == ps[b]);
        }
        assert forall|a: int| 0 <= a < prev.len() implies #[trigger] prev[a] < nodes.len() by {
            assert(prev[a] == ps[a]);
        }
        lemma_drive_best_gen(nodes, prev, drive);
        assert forall|k: int| 0 <= k < prev.len() implies prev[k] == ps[k] by {}
        let p = ps.last() as int;
        assert(ps.last() == ps[ps.len() - 1]);
        assert forall|k: int| 0 <= k < prev.len() implies #[trigger] ps[k] < ps[ps.len() - 1] by {}
        if let Some(b) = drive_best(nodes, prev, drive) {
            let k = choose|k: int| 0 <= k < prev.len() && #[trigger] prev[k] as int == b;
            assert(ps[k] as int == b);
        }
    }
}

/// The sensor chosen for a drive is the drive's highest real temperature
/// reading, the first of equal ones: it passes the drive rule, belongs to the
/// drive, and reads at least as much as every other such sensor of the drive
/// (and strictly more than those before it). None is chosen exactly when the
/// drive has no such sensor.
pub proof fn lemma_drive_temp_is_highest(nodes: Seq<FlatNode>, drive: Seq<char>)
    requires
        nodes.len() <= usize::MAX,
    ensures
        drive_best(nodes, passing(nodes, NodeRule::DriveTemp), drive) matches Some(b) ==> 0 <= b < nodes.len()
            && passes(nodes[b], NodeRule::DriveTemp) && nodes[b].grandparent@ == drive && forall|j: int|
            0 <= j < nodes.len() && passes(#[trigger] nodes[j], NodeRule::DriveTemp) && nodes[j].grandparent@ == drive
                ==> node_keys(nodes)[j] <= node_keys(nodes)[b] && (node_keys(nodes)[j] == node_keys(nodes)[b] ==> b <= j),
        drive_best(nodes, passing(nodes, NodeRule::DriveTemp), drive) is None ==> forall|j: int|
            0 <= j < nodes.len() && passes(#[trigger] nodes[j], NodeRule::DriveTemp) ==> nodes[j].grandparent@ != drive,
{
    let ps = passing(nodes, NodeRule::DriveTemp);
    lemma_passing(nodes, NodeRule::DriveTemp);
    lemma_passing_members(nodes, NodeRule::DriveTemp);
    lemma_drive_best_gen(nodes, ps, drive);
    match drive_best(nodes, ps, drive) {
        Some(b) => {
            let k = choose|k: int| 0 <= k < ps.len() && #[trigger] ps[k] as int == b;
            assert(ps.contains(ps[k]));
            assert forall|j: int| 0 <= j < nodes.len() && passes(#[trigger] nodes[j], NodeRule::DriveTemp)
                && nodes[j].grandparent@ == drive implies node_keys(nodes)[j] <= node_keys(nodes)[b] && (node_keys(nodes)[j]
                == node_keys(nodes)[b] ==> b <= j) by {
                assert(ps.contains(j as usize));
                let k2 = choose|k2: int| 0 <= k2 < ps.len() && ps[k2] == j as usize;
                assert(nodes[ps[k2] as int].grandparent@ == drive);
            }
        },
        None => {
            assert forall|j: int| 0 <= j < nodes.len() && passes(#[trigger] nodes[j], NodeRule::DriveTemp)
                implies nodes[j].grandparent@ != drive by {
                assert(ps.contains(j as usize));
                let k2 = choose|k2: int| 0 <= k2 < ps.len() && ps[k2] == j as usize;
                assert(nodes[ps[k2] as int].grandparent@ != drive);
            }
        },
    }
}


/// Node `j` is the first sensor `text` under `parent`, on any device.
pub open spec fn first_anywhere(nodes: Seq<FlatNode>, parent: Seq<char>, text: Seq<char>, j: int) -> bool {
    &&& 0 <= j < nodes.len()
    &&& is_sensor(nodes[j], None, parent, text)
    &&& forall|m: int| 0 <= m < j ==> !is_sensor(#[trigger] nodes[m], None, parent, text)
}

/// The first sensor `text` under `parent` exists and has a reading.
pub open spec fn readable_first(nodes: Seq<FlatNode>, parent: Seq<char>, text: Seq<char>) -> bool {
    exists|j: int| #[trigger] first_anywhere(nodes, parent, text, j) && nodes[j].key is Some
}

proof fn lemma_with_reading_first(nodes: Seq<FlatNode>, parent: Seq<char>, text: Seq<char>)
    ensures
        forall|j: int| #[trigger] first_anywhere(nodes, parent, text, j) && nodes[j].key is Some
            ==> with_reading(nodes, first_sensor(nodes, None, parent, text)) == Some(j),
        !readable_first(nodes, parent, text) ==> with_reading(nodes, first_sensor(nodes, None, parent, text)) is None,
{
    lemma_first_sensor(nodes, None, parent, text);
    assert forall|j: int| #[trigger] first_anywhere(nodes, parent, text, j) && nodes[j].key is Some
        implies with_reading(nodes, first_sensor(nodes, None, parent, text)) == Some(j) by {
        match first_sensor(nodes, None, parent, text) {
            Some(i) => {
                if i < j {
                    assert(!is_sensor(nodes[i], None, parent, text));
                } else if i > j {
                    assert(!is_sensor(nodes[j], None, parent, text));
                }
            },
            None => {
                assert(!is_sensor(nodes[j], None, parent, text));
            },
        }
    }
    if !readable_first(nodes, parent, text) {
        if let Some(i) = first_sensor(nodes, None, parent, text) {
            assert(first_anywhere(nodes, parent, text, i));
        }
    }
}

/// The CPU temperature is the AMD `Core (Tctl/Tdie)` reading when the first
/// such sensor has one; else the Intel `CPU Package` reading, else `Core
/// Average`, each from the first sensor of that name under `Temperatures`;
/// none when none of the three has a reading.
pub proof fn lemma_cpu_temp_choice(nodes: Seq<FlatNode>, j: int)
    ensures
        first_anywhere(nodes, "Temperatures"@, "Core (Tctl/Tdie)"@, j) && nodes[j].key is Some ==> cpu_temp_spec(nodes) == Some(j),
        !readable_first(nodes, "Temperatures"@, "Core (Tctl/Tdie)"@) && first_anywhere(nodes, "Temperatures"@, "CPU Package"@, j)
            && nodes[j].key is Some ==> cpu_temp_spec(nodes) == Some(j),
        !readable_first(nodes, "Temperatures"@, "Core (Tctl/Tdie)"@) && !readable_first(nodes, "Temperatures"@, "CPU Package"@)
            && first_anywhere(nodes, "Temperatures"@, "Core Average"@, j) && nodes[j].key is Some ==> cpu_temp_spec(nodes) == Some(j),
        !readable_first(nodes, "Temperatures"@, "Core (Tctl/Tdie)"@) && !readable_first(nodes, "Temperatures"@, "CPU Package"@)
            && !readable_first(nodes, "Temperatures"@, "Core Average"@) ==> cpu_temp_spec(nodes) is None,
{
    lemma_with_reading_first(nodes, "Temperatures"@, "Core (Tctl/Tdie)"@);
    lemma_with_reading_first(nodes, "Temperatures"@, "CPU Package"@);
    lemma_with_reading_first(nodes, "Temperatures"@, "Core Average"@);
}

/// The CPU power is the Intel `CPU Package` reading under `Powers` when the
/// first such sensor has one, else the AMD `Package` reading; none without.
pub proof fn lemma_cpu_power_choice(nodes: Seq<FlatNode>, j: int)
    ensures
        first_anywhere(nodes, "Powers"@, "CPU Package"@, j) && nodes[j].key is Some ==> cpu_power_spec(nodes) == Some(j),
        !readable_first(nodes, "Powers"@, "CPU Package"@) && first_anywhere(nodes, "Powers"@, "Package"@, j) && nodes[j].key is Some
            ==> cpu_power_spec(nodes) == Some(j),
        !readable_first(nodes, "Powers"@, "CPU Package"@) && !readable_first(nodes, "Powers"@, "Package"@) ==> cpu_power_spec(nodes) is None,
{
    lemma_with_reading_first(nodes, "Powers"@, "CPU Package"@);
    lemma_with_reading_first(nodes, "Powers"@, "Package"@);
}

/// The voltage rails listed are exactly the named Super I/O rails when there
/// is one, and exactly the AMD SVI2 rails otherwise, in tree order.
pub proof fn lemma_voltage_rails(nodes: Seq<FlatNode>)
    requires
        nodes.len() <= usize::MAX,
    ensures
        ascending_positions(mb_voltages_spec(nodes), nodes.len()),
        (exists|j: int| 0 <= j < nodes.len() && passes(#[trigger] nodes[j], NodeRule::LpcRail)) ==> forall|j: int|
            0 <= j < nodes.len() ==> (#[trigger] mb_voltages_spec(nodes).contains(j as usize) <==> passes(nodes[j], NodeRule::LpcRail)),
        !(exists|j: int| 0 <= j < nodes.len() && passes(#[trigger] nodes[j], NodeRule::LpcRail)) ==> forall|j: int|
            0 <= j < nodes.len() ==> (#[trigger] mb_voltages_spec(nodes).contains(j as usize) <==> passes(nodes[j], NodeRule::Svi2Rail)),
{
    lemma_passing(nodes, NodeRule::LpcRail);
    lemma_passing(nodes, NodeRule::Svi2Rail);
    lemma_passing_members(nodes, NodeRule::LpcRail);
    lemma_passing_members(nodes, NodeRule::Svi2Rail);
    let l = passing(nodes, NodeRule::LpcRail);
    if exists|j: int| 0 <= j < nodes.len() && passes(#[trigger] nodes[j], NodeRule::LpcRail) {
        let j = choose|j: int| 0 <= j < nodes.len() && passes(#[trigger] nodes[j], NodeRule::LpcRail);
        assert(l.contains(j as usize));
    } else if l.len() > 0 {
        assert(l.contains(l[0]));
        assert(l[0] < nodes.len());
        assert(passes(nodes[l[0] as int], NodeRule::LpcRail));
    }
}

/// The busiest interface has traffic, as much as any other, and more than
/// every one before it; there is none only when no interface has traffic.
pub proof fn lemma_busiest_interface(traffic: Seq<(u64, u64)>)
    ensures
        busiest_spec(traffic) matches Some(b) ==> 0 <= b < traffic.len() && traffic[b].0 + traffic[b].1 > 0
            && (forall|j: int| 0 <= j < traffic.len() ==> (#[trigger] traffic[j]).0 + traffic[j].1 <= traffic[b].0 + traffic[b].1)
            && (forall|j: int| 0 <= j < b ==> (#[trigger] traffic[j]).0 + traffic[j].1 < traffic[b].0 + traffic[b].1),
        busiest_spec(traffic) is None ==> forall|j: int| 0 <= j < traffic.len() ==> (#[trigger] traffic[j]).0 + traffic[j].1 == 0,
    decreases traffic.len(),
{
    if traffic.len() > 0 {
        let prev = traffic.drop_last();
        lemma_busiest_interface(prev);
        assert forall|j: int| 0 <= j < prev.len() implies prev[j] == traffic[j] by {}
        assert(traffic.last() == traffic[traffic.len() - 1]);
    }
}

/// A drive is shown exactly when it is larger than 1 GB.
pub proof fn lemma_large_drives(total_bytes: Seq<u64>)
    requires
        total_bytes.len() <= usize::MAX,
    ensures
        forall|a: int, b: int| 0 <= a < b < large_spec(total_bytes).len() ==> #[trigger] large_spec(total_bytes)[a] < #[trigger] large_spec(total_bytes)[b],
        forall|p: usize| #[trigger] large_spec(total_bytes).contains(p) <==> (p < total_bytes.len() && total_bytes[p as int] > 1_000_000_000),
    decreases total_bytes.len(),
{
    if total_bytes.len() > 0 {
        let prev = total_bytes.drop_last();
        lemma_large_drives(prev);
        let lp = large_spec(prev);
        let last = (total_bytes.len() - 1) as usize;
        assert forall|k: int| 0 <= k < lp.len() implies lp[k] < prev.len() by {
            assert(lp.contains(lp[k]));
        }
        assert forall|p: usize| #[trigger] large_spec(total_bytes).contains(p) <==> (p < total_bytes.len()
            && total_bytes[p as int] > 1_000_000_000) by {
            if p < prev.len() {
                assert(prev[p as int] == total_bytes[p as int]);
            }
            if total_bytes.last() > 1_000_000_000 {
                assert(large_spec(total_bytes) == lp.push(last));
                if lp.push(last).contains(p) {
                    let k = choose|k: int| 0 <= k < lp.push(last).len() && lp.push(last)[k] == p;
                    if k < lp.len() {
                        assert(lp[k] == p);
                    }
                }
                if lp.contains(p) {
                    let k = choose|k: int| 0 <= k < lp.len() && lp[k] == p;
                    assert(lp.push(last)[k] == p);
                }
                if p == last {
                    assert(lp.push(last)[lp.len() as int] == p);
                }
            } else {
                assert(large_spec(total_bytes) == lp);
                if p == last && lp.contains(p) {
                    let k = choose|k: int| 0 <= k < lp.len() && lp[k] == p;
                }
            }
        }
        assert forall|a: int, b: int| 0 <= a < b < large_spec(total_bytes).len() implies #[trigger] large_spec(total_bytes)[a]
            < #[trigger] large_spec(total_bytes)[b] by {
            if total_bytes.last() > 1_000_000_000 && b == lp.len() {
                assert(lp.contains(lp[a]));
            }
        }
    }
}


/// Each GPU device is listed once, and a device is listed exactly when some
/// GPU node belongs to it.
pub proof fn lemma_gpu_devices_listed(nodes: Seq<FlatNode>)
    ensures
        forall|a: int, b: int| 0 <= a < b < gpu_devices_spec(nodes).len() ==> #[trigger] gpu_devices_spec(nodes)[a] != #[trigger] gpu_devices_spec(nodes)[b],
        forall|name: Seq<char>| #[trigger] gpu_devices_spec(nodes).contains(name) <==> exists|j: int|
            0 <= j < nodes.len() && is_gpu_node(#[trigger] nodes[j]) && nodes[j].grandparent@ == name,
    decreases nodes.len(),
{
    if nodes.len() > 0 {
        let prev = nodes.drop_last();
        lemma_gpu_devices_listed(prev);
        let rest = gpu_devices_spec(prev);
        let n = nodes.last();
        assert(n == nodes[nodes.len() - 1]);
        assert forall|name: Seq<char>| #[trigger] gpu_devices_spec(nodes).contains(name) <==> exists|j: int|
            0 <= j < nodes.len() && is_gpu_node(#[trigger] nodes[j]) && nodes[j].grandparent@ == name by {
            if is_gpu_node(n) && !rest.contains(n.grandparent@) {
                let all = rest.push(n.grandparent@);
                assert(gpu_devices_spec(nodes) == all);
                if all.contains(name) {
                    let k = choose|k: int| 0 <= k < all.len() && all[k] == name;
                    if k < rest.len() {
                        assert(rest[k] == name);
                        assert(rest.contains(name));
                        let j = choose|j: int| 0 <= j < prev.len() && is_gpu_node(#[trigger] prev[j]) && prev[j].grandparent@ == name;
                        assert(nodes[j] == prev[j]);
                    }
                }
                if exists|j: int| 0 <= j < nodes.len() && is_gpu_node(#[trigger] nodes[j]) && nodes[j].grandparent@ == name {
                    let j = choose|j: int| 0 <= j < nodes.len() && is_gpu_node(#[trigger] nodes[j]) && nodes[j].grandparent@ == name;
                    if j < prev.len() {
                        assert(prev[j] == nodes[j]);
                        assert(rest.contains(name));
                        let k = choose|k: int| 0 <= k < rest.len() && rest[k] == name;
                        assert(all[k] == name);
                    } else {
                        assert(all[rest.len() as int] == name);
                    }
                }
            } else {
                assert(gpu_devices_spec(nodes) == rest);
                if exists|j: int| 0 <= j < nodes.len() && is_gpu_node(#[trigger] nodes[j]) && nodes[j].grandparent@ == name {
                    let j = choose|j: int| 0 <= j < nodes.len() && is_gpu_node(#[trigger] nodes[j]) && nodes[j].grandparent@ == name;
                    if j < prev.len() {
                        assert(prev[j] == nodes[j]);
                    }
                }
                if rest.contains(name) {
                    let j = choose|j: int| 0 <= j < prev.len() && is_gpu_node(#[trigger] prev[j]) && prev[j].grandparent@ == name;
                    assert(nodes[j] == prev[j]);
                }
            }
        }
        assert forall|a: int, b: int| 0 <= a < b < gpu_devices_spec(nodes).len() implies #[trigger] gpu_devices_spec(nodes)[a]
            != #[trigger] gpu_devices_spec(nodes)[b] by {
            if is_gpu_node(n) && !rest.contains(n.grandparent@) && b == rest.len() {
                assert(gpu_devices_spec(nodes)[a] == rest[a]);
                if rest[a] == n.grandparent@ {
                    assert(rest.contains(rest[a]));
                }
            } else if is_gpu_node(n) && !rest.contains(n.grandparent@) {
                assert(gpu_devices_spec(nodes)[a] == rest[a] && gpu_devices_spec(nodes)[b] == rest[b]);
            }
        }
    }
}

/// Node `n` is a real temperature sensor of a named drive.
pub open spec fn drive_sensor(n: FlatNode) -> bool {
    passes(n, NodeRule::DriveTemp) && n.grandparent@.len() > 0
}

/// Each drive is listed once, and a named drive is listed exactly when some
/// real temperature sensor belongs to it.
pub proof fn lemma_temp_drives_listed(nodes: Seq<FlatNode>)
    ensures
        forall|a: int, b: int| 0 <= a < b < drives_spec(nodes).len() ==> #[trigger] drives_spec(nodes)[a] != #[trigger] drives_spec(nodes)[b],
        forall|name: Seq<char>| #[trigger] drives_spec(nodes).contains(name) <==> exists|j: int|
            0 <= j < nodes.len() && drive_sensor(#[trigger] nodes[j]) && nodes[j].grandparent@ == name,
    decreases nodes.len(),
{
    if nodes.len() > 0 {
        let prev = nodes.drop_last();
        lemma_temp_drives_listed(prev);
        let rest = drives_spec(prev);
        let n = nodes.last();
        assert(n == nodes[nodes.len() - 1]);
        assert forall|name: Seq<char>| #[trigger] drives_spec(nodes).contains(name) <==> exists|j: int|
            0 <= j < nodes.len() && drive_sensor(#[trigger] nodes[j]) && nodes[j].grandparent@ == name by {
            if drive_sensor(n) && !rest.contains(n.grandparent@) {
                let all = rest.push(n.grandparent@);
                assert(drives_spec(nodes) == all);
                if all.contains(name) {
                    let k = choose|k: int| 0 <= k < all.len() && all[k] == name;
                    if k < rest.len() {
                        assert(rest[k] == name);
                        assert(rest.contains(name));
                        let j = choose|j: int| 0 <= j < prev.len() && drive_sensor(#[trigger] prev[j]) && prev[j].grandparent@ == name;
                        assert(nodes[j] == prev[j]);
                    }
                }
                if exists|j: int| 0 <= j < nodes.len() && drive_sensor(#[trigger] nodes[j]) && nodes[j].grandparent@ == name {
                    let j = choose|j: int| 0 <= j < nodes.len() && drive_sensor(#[trigger] nodes[j]) && nodes[j].grandparent@ == name;
                    if j < prev.len() {
                        assert(prev[j] == nodes[j]);
                        assert(rest.contains(name));
                        let k = choose|k: int| 0 <= k < rest.len() && rest[k] == name;
                        assert(all[k] == name);
                    } else {
                        assert(all[rest.len() as int] == name);
                    }
                }
            } else {
                assert(drives_spec(nodes) == rest);
                if exists|j: int| 0 <= j < nodes.len() && drive_sensor(#[trigger] nodes[j]) && nodes[j].grandparent@ == name {
                    let j = choose|j: int| 0 <= j < nodes.len() && drive_sensor(#[trigger] nodes[j]) && nodes[j].grandparent@ == name;
                    if j < prev.len() {
                        assert(prev[j] == nodes[j]);
                    }
                }
                if rest.contains(name) {
                    let j = choose|j: int| 0 <= j < prev.len() && drive_sensor(#[trigger] prev[j]) && prev[j].grandparent@ == name;
                    assert(nodes[j] == prev[j]);
                }
            }
        }
        assert forall|a: int, b: int| 0 <= a < b < drives_spec(nodes).len() implies #[trigger] drives_spec(nodes)[a]
            != #[trigger] drives_spec(nodes)[b] by {
            if drive_sensor(n) && !rest.contains(n.grandparent@) && b == rest.len() {
                assert(drives_spec(nodes)[a] == rest[a]);
                if rest[a] == n.grandparent@ {
                    assert(rest.contains(rest[a]));
                }
            } else if drive_sensor(n) && !rest.contains(n.grandparent@) {
                assert(drives_spec(nodes)[a] == rest[a] && drives_spec(nodes)[b] == rest[b]);
            }
        }
    }
}

} // verus!
