//! Monitor selection for a display profile and placement of a pinned
//! dashboard, over monitor rectangles `(left, top, right, bottom)` in logical
//! pixels as the Windows monitor enumeration reports them.
//!
//! Sizes and positions here are whole pixels: profile sizes are integers, and
//! a saved pinned position is stored as integers. Differences are taken
//! exactly (in `i64`), so no rectangle can overflow them.

use vstd::prelude::*;

verus! {

/// A monitor: `(left, top, right, bottom)`.
pub type MonitorRect = (i32, i32, i32, i32);

pub open spec fn abs(x: int) -> int {
    if x < 0 {
        -x
    } else {
        x
    }
}

pub open spec fn width(m: MonitorRect) -> int {
    m.2 - m.0
}

pub open spec fn height(m: MonitorRect) -> int {
    m.3 - m.1
}

/// How far a monitor dimension may differ from the profile's and still match:
/// a tenth of the profile dimension (rounded down), at least 8 px. For whole
/// pixel sizes below 200 000 this is exactly the largest whole number within
/// `max(size * 0.10, 8.0)` computed in `f32`.
pub open spec fn tolerance(p: nat) -> int {
    if p / 10 > 8 {
        (p / 10) as int
    } else {
        8
    }
}

/// The monitor's resolution matches a `pw`×`ph` profile (both dimensions within tolerance).
pub open spec fn fits(m: MonitorRect, pw: nat, ph: nat) -> bool {
    abs(width(m) - pw) <= tolerance(pw) && abs(height(m) - ph) <= tolerance(ph)
}

/// How far the monitor's resolution is from the profile's.
pub open spec fn misfit(m: MonitorRect, pw: nat, ph: nat) -> int {
    abs(width(m) - pw) + abs(height(m) - ph)
}

/// The primary monitor has its top-left corner at the virtual origin.
pub open spec fn is_primary(m: MonitorRect) -> bool {
    m.0 == 0 && m.1 == 0
}

/// Some monitor matches the profile.
pub open spec fn any_fits(ms: Seq<MonitorRect>, pw: nat, ph: nat) -> bool {
    exists|j: int| 0 <= j < ms.len() && fits(#[trigger] ms[j], pw, ph)
}

/// Monitor `i` matches the profile, no matching monitor is closer, and every
/// matching monitor before it is farther.
pub open spec fn closest_fit(ms: Seq<MonitorRect>, pw: nat, ph: nat, i: int) -> bool {
    &&& 0 <= i < ms.len()
    &&& fits(ms[i], pw, ph)
    &&& forall|j: int| 0 <= j < ms.len() && fits(#[trigger] ms[j], pw, ph) ==> misfit(ms[i], pw, ph) <= misfit(ms[j], pw, ph)
    &&& forall|j: int| 0 <= j < i && fits(#[trigger] ms[j], pw, ph) ==> misfit(ms[j], pw, ph) > misfit(ms[i], pw, ph)
}

/// Some monitor is primary.
pub open spec fn any_primary(ms: Seq<MonitorRect>) -> bool {
    exists|j: int| 0 <= j < ms.len() && is_primary(#[trigger] ms[j])
}

/// Monitor `i` is the first primary monitor.
pub open spec fn first_primary(ms: Seq<MonitorRect>, i: int) -> bool {
    0 <= i < ms.len() && is_primary(ms[i]) && forall|j: int| 0 <= j < i ==> !is_primary(#[trigger] ms[j])
}

fn abs_i64(x: i64) -> (r: i64)
    requires
        x > i64::MIN,
    ensures
        r == abs(x as int),
{
    if x < 0 {
        -x
    } else {
        x
    }
}

fn tolerance_exec(p: u32) -> (t: i64)
    ensures
        t == tolerance(p as nat),
{
    let tenth = (p / 10) as i64;
    if tenth > 8 {
        tenth
    } else {
        8
    }
}

/// The index of the monitor that should host a `pw`×`ph` profile:
/// 1. among the monitors whose resolution matches the profile, the closest fit
///    (the first of equally close ones), so a small strip or secondary screen
///    is used only by the profile that actually fits it;
/// 2. otherwise the first primary monitor (top-left at `0,0`);
/// 3. otherwise the first monitor; `None` only when there is none.
pub fn select_profile_monitor(monitors: &[MonitorRect], pw: u32, ph: u32) -> (r: Option<usize>)
    ensures
        any_fits(monitors@, pw as nat, ph as nat) ==> (r matches Some(i) && closest_fit(
            monitors@,
            pw as nat,
            ph as nat,
            i as int,
        )),
        !any_fits(monitors@, pw as nat, ph as nat) && any_primary(monitors@) ==> (r matches Some(i)
            && first_primary(monitors@, i as int)),
        !any_fits(monitors@, pw as nat, ph as nat) && !any_primary(monitors@) ==> r == (if monitors@.len()
            == 0 {
            None
        } else {
            Some(0usize)
        }),
{
    let tol_w = tolerance_exec(pw);
    let tol_h = tolerance_exec(ph);
    let mut best: Option<usize> = None;
    let mut best_d: i64 = 0;
    let mut i: usize = 0;
    while i < monitors.len()
        invariant
            i <= monitors@.len(),
            tol_w == tolerance(pw as nat),
            tol_h == tolerance(ph as nat),
            best is None ==> forall|j: int| 0 <= j < i ==> !fits(#[trigger] monitors@[j], pw as nat, ph as nat),
            best matches Some(b) ==> b < i && fits(monitors@[b as int], pw as nat, ph as nat) && best_d
                == misfit(monitors@[b as int], pw as nat, ph as nat) && (forall|j: int|
                0 <= j < i && fits(#[trigger] monitors@[j], pw as nat, ph as nat) ==> best_d <= misfit(
                    monitors@[j],
                    pw as nat,
                    ph as nat,
                )) && (forall|j: int|
                0 <= j < b && fits(#[trigger] monitors@[j], pw as nat, ph as nat) ==> misfit(
                    monitors@[j],
                    pw as nat,
                    ph as nat,
                ) > best_d),
        decreases monitors.len() - i,
    {
        let m = monitors[i];
        let dw = abs_i64(m.2 as i64 - m.0 as i64 - pw as i64);
        let dh = abs_i64(m.3 as i64 - m.1 as i64 - ph as i64);
        if dw <= tol_w && dh <= tol_h {
            let d = dw + dh;
            match best {
                Some(b) => {
                    if d < best_d {
                        best = Some(i);
                        best_d = d;
                    }
                },
                None => {
                    best = Some(i);
                    best_d = d;
                },
            }
        }
        i += 1;
    }
    if best.is_some() {
        return best;
    }
    assert(!any_fits(monitors@, pw as nat, ph as nat));
    let mut k: usize = 0;
    while k < monitors.len()
        invariant
            k <= monitors@.len(),
            !any_fits(monitors@, pw as nat, ph as nat),
            forall|j: int| 0 <= j < k ==> !is_primary(#[trigger] monitors@[j]),
        decreases monitors.len() - k,
    {
        if monitors[k].0 == 0 && monitors[k].1 == 0 {
            return Some(k);
        }
        k += 1;
    }
    if monitors.len() == 0 {
        None
    } else {
        Some(0)
    }
}

/// `pos` lies on `m` or within 60 px outside any of its edges.
pub open spec fn near(pos: [i32; 2], m: MonitorRect) -> bool {
    m.0 - 60 <= pos[0] <= m.2 + 60 && m.1 - 60 <= pos[1] <= m.3 + 60
}

/// `pos` lies strictly inside `m` (its right and bottom edges excluded).
pub open spec fn contains(m: MonitorRect, pos: [i32; 2]) -> bool {
    m.0 <= pos[0] < m.2 && m.1 <= pos[1] < m.3
}

/// True when `pos` lies on (or within the 60 px overhang margin of) any
/// monitor, so a panel straddling a monitor edge still counts as visible.
pub fn position_on_any_monitor(pos: [i32; 2], monitors: &[MonitorRect]) -> (b: bool)
    ensures
        b == exists|j: int| 0 <= j < monitors@.len() && near(pos, #[trigger] monitors@[j]),
{
    let mut i: usize = 0;
    while i < monitors.len()
        invariant
            i <= monitors@.len(),
            forall|j: int| 0 <= j < i ==> !near(pos, #[trigger] monitors@[j]),
        decreases monitors.len() - i,
    {
        let m = monitors[i];
        let x = pos[0] as i64;
        let y = pos[1] as i64;
        if x >= m.0 as i64 - 60 && x <= m.2 as i64 + 60 && y >= m.1 as i64 - 60 && y <= m.3 as i64 + 60 {
            assert(near(pos, monitors@[i as int]));
            return true;
        }
        i += 1;
    }
    false
}

/// The first monitor whose bounds contain `pos` (no overhang margin), so a
/// window's own top-left corner resolves to exactly the screen it sits on.
pub fn monitor_containing_point(pos: [i32; 2], monitors: &[MonitorRect]) -> (r: Option<MonitorRect>)
    ensures
        r matches Some(m) ==> exists|i: int|
            0 <= i < monitors@.len() && #[trigger] monitors@[i] == m && contains(m, pos) && forall|j: int|
                0 <= j < i ==> !contains(#[trigger] monitors@[j], pos),
        r is None ==> forall|j: int| 0 <= j < monitors@.len() ==> !contains(#[trigger] monitors@[j], pos),
{
    let mut i: usize = 0;
    while i < monitors.len()
        invariant
            i <= monitors@.len(),
            forall|j: int| 0 <= j < i ==> !contains(#[trigger] monitors@[j], pos),
        decreases monitors.len() - i,
    {
        let m = monitors[i];
        if pos[0] >= m.0 && pos[0] < m.2 && pos[1] >= m.1 && pos[1] < m.3 {
            assert(monitors@[i as int] == m);
            return Some(m);
        }
        i += 1;
    }
    None
}

/// Where a pinned dashboard goes: its saved position, when it is pinned, a
/// position is saved for the current profile and that position is still on a
/// connected monitor; otherwise `None`, and the caller targets the monitor
/// matching the profile.
pub fn resolve_pinned_position(pinned: bool, saved: Option<[i32; 2]>, monitors: &[MonitorRect]) -> (r: Option<[i32; 2]>)
    ensures
        r == (match saved {
            Some(p) => if pinned && exists|j: int| 0 <= j < monitors@.len() && near(p, #[trigger] monitors@[j]) {
                Some(p)
            } else {
                None
            },
            None => None,
        }),
{
    if !pinned {
        return None;
    }
    match saved {
        Some(p) => {
            if position_on_any_monitor(p, monitors) {
                Some(p)
            } else {
                None
            }
        },
        None => None,
    }
}

} // verus!
