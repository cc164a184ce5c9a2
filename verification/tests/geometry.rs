use rigstats::geometry::{monitor_containing_point, position_on_any_monitor, resolve_pinned_position, select_profile_monitor};
use rigstats::layout::profile_to_size;

#[test]
fn landscape_dims_are_wide() {
    for p in [
        "landscape-xl",
        "landscape-slim",
        "landscape-hd",
        "landscape-wxga",
        "landscape-fhd",
        "landscape-wuxga",
        "landscape-qhd",
        "landscape-hdplus",
        "landscape-1600x900",
        "landscape-1680x1050",
        "landscape-2560x1600",
        "landscape-4k",
        "landscape-fhd-top",
        "landscape-qhd-top",
        "landscape-4k-top",
    ] {
        let [w, h] = profile_to_size(p);
        assert!(w >= h, "{p} should be landscape (w >= h), got {w}x{h}");
    }
}

#[test]
fn landscape_is_transpose_of_portrait() {
    // Each landscape profile is the matching portrait profile with axes swapped.
    let pairs = [
        ("portrait-xl", "landscape-xl"),
        ("portrait-fhd", "landscape-fhd"),
        ("portrait-qhd", "landscape-qhd"),
        ("portrait-4k", "landscape-4k"),
        ("portrait-fhd-side", "landscape-fhd-top"),
        ("portrait-qhd-side", "landscape-qhd-top"),
        ("portrait-4k-side", "landscape-4k-top"),
    ];
    for (portrait, landscape) in pairs {
        let [pw, ph] = profile_to_size(portrait);
        let [lw, lh] = profile_to_size(landscape);
        assert_eq!([pw, ph], [lh, lw], "{landscape} should transpose {portrait}");
    }
}

#[test]
fn unknown_profiles_get_the_default_window() {
    assert_eq!(profile_to_size("unknown"), [400, 780]);
    assert_eq!(profile_to_size("landscape-unknown"), [400, 780]);
    assert_eq!(profile_to_size("portrait-1600x2560"), [1600, 2560]);
}

#[test]
fn profile_monitor_prefers_matching_strip() {
    // Primary 2560x1440 at origin + a 1920x450 strip at (2560,0).
    let monitors = [(0, 0, 2560, 1440), (2560, 0, 4480, 450)];
    // landscape-xl is 1920x450 → must pick the strip (index 1).
    let [w, h] = profile_to_size("landscape-xl");
    assert_eq!(select_profile_monitor(&monitors, w, h), Some(1));
}

#[test]
fn profile_monitor_falls_back_to_primary_when_no_match() {
    // Same layout; landscape-fhd-top (1080x253) matches neither screen, so it
    // must land on the primary monitor at the origin (index 0), NOT the strip.
    let monitors = [(0, 0, 2560, 1440), (2560, 0, 4480, 450)];
    let [w, h] = profile_to_size("landscape-fhd-top");
    assert_eq!(select_profile_monitor(&monitors, w, h), Some(0));
}

#[test]
fn profile_monitor_empty_is_none() {
    let [w, h] = profile_to_size("landscape-xl");
    assert_eq!(select_profile_monitor(&[], w, h), None);
}

#[test]
fn portrait_side_profile_prefers_matching_strip() {
    // Primary 2560x1440 at origin + a 338x1440 portrait side-strip at (2560,0).
    let monitors = [(0, 0, 2560, 1440), (2560, 0, 2898, 1440)];
    let [w, h] = profile_to_size("portrait-qhd-side");
    assert_eq!(select_profile_monitor(&monitors, w, h), Some(1));
}

#[test]
fn portrait_profile_falls_back_to_primary_when_no_match() {
    let monitors = [(0, 0, 2560, 1440), (2560, 0, 2898, 1440)];
    let [w, h] = profile_to_size("portrait-fhd");
    assert_eq!(select_profile_monitor(&monitors, w, h), Some(0));
}

#[test]
fn profile_monitor_closest_fit_and_fallbacks() {
    // Two matching screens: the closer fit wins, the first of equal fits.
    let monitors = [(0, 0, 1900, 1080), (1900, 0, 3820, 1080), (-1920, 0, 0, 1080)];
    assert_eq!(select_profile_monitor(&monitors, 1920, 1080), Some(1));
    let monitors = [(10, 0, 1930, 1080), (-1920, 0, 0, 1080)];
    assert_eq!(select_profile_monitor(&monitors, 1920, 1080), Some(0));
    // No match and no primary: the first monitor.
    let monitors = [(5, 5, 100, 100), (200, 0, 300, 100)];
    assert_eq!(select_profile_monitor(&monitors, 1920, 1080), Some(0));
    // The tolerance is at least 8 px, and a tenth of the size.
    assert_eq!(select_profile_monitor(&[(1, 1, 51, 59)], 50, 50), Some(0));
    assert_eq!(select_profile_monitor(&[(1, 1, 51, 60)], 50, 50), Some(0));
    assert_eq!(select_profile_monitor(&[(1, 1, 1000, 1100)], 1000, 1000), Some(0));
    assert_eq!(select_profile_monitor(&[(0, 0, 1000, 1101)], 1000, 1000), Some(0));
    assert_eq!(select_profile_monitor(&[(3, 0, 1000, 1101), (0, 0, 10, 10)], 1000, 1000), Some(1));
}

#[test]
fn tolerance_agrees_with_f32_arithmetic() {
    // Compared in f32 against max(size * 0.10, 8.0), whole-pixel
    // sizes get the same verdict from the integer tolerance.
    for pw in [1u32, 79, 80, 81, 89, 90, 99, 253, 338, 450, 1366, 1920, 3840, 9999] {
        let tol = (pw as f32 * 0.10).max(8.0);
        for d in 0..(pw / 5 + 20) {
            let f32_fits = (d as f32) <= tol;
            let w = (pw + d) as i32;
            // A candidate off the origin, then a primary monitor that wins
            // whenever the candidate does not match.
            let monitors = [(1, 1, 1 + w, 1 + pw as i32), (0, 0, 10, 10)];
            let picked = select_profile_monitor(&monitors, pw, pw);
            assert_eq!(picked == Some(0), f32_fits, "pw={pw} d={d}");
        }
    }
}

#[test]
fn monitor_containing_point_strict_containment() {
    // Primary at origin + a small portrait strip to the left at negative x.
    let monitors = [(0, 0, 2560, 1440), (-450, 0, 0, 1920)];
    assert_eq!(monitor_containing_point([-200, 300], &monitors), Some((-450, 0, 0, 1920)));
    assert_eq!(monitor_containing_point([100, 100], &monitors), Some((0, 0, 2560, 1440)));
    assert_eq!(monitor_containing_point([5000, 100], &monitors), None);
    assert_eq!(monitor_containing_point([0, 0], &[]), None);
}

#[test]
fn position_on_monitor_respects_overhang_margin() {
    let monitors = [(0, 0, 2560, 1440)];
    assert!(position_on_any_monitor([100, 100], &monitors));
    assert!(position_on_any_monitor([2600, 100], &monitors));
    assert!(!position_on_any_monitor([2760, 100], &monitors));
    assert!(!position_on_any_monitor([0, 0], &[]));
    assert!(position_on_any_monitor([2620, -60], &monitors));
    assert!(!position_on_any_monitor([2621, 0], &monitors));
}

#[test]
fn pinned_position_none_when_unpinned() {
    let monitors = [(0, 0, 2560, 1440)];
    assert_eq!(resolve_pinned_position(false, Some([100, 100]), &monitors), None);
}

#[test]
fn pinned_position_none_when_no_saved() {
    let monitors = [(0, 0, 2560, 1440)];
    assert_eq!(resolve_pinned_position(true, None, &monitors), None);
}

#[test]
fn pinned_position_restores_saved_when_on_screen() {
    let monitors = [(0, 0, 2560, 1440), (2560, 0, 4480, 450)];
    assert_eq!(resolve_pinned_position(true, Some([2600, 10]), &monitors), Some([2600, 10]));
}

#[test]
fn pinned_position_dropped_when_monitor_gone() {
    let monitors = [(0, 0, 2560, 1440)];
    assert_eq!(resolve_pinned_position(true, Some([3000, 10]), &monitors), None);
}
