use rigstats::panels::{brand_subtitle, fmt_ram, mid_cell, short_adapter, short_label};

#[test]
fn drops_nvidia_vendor_prefix() {
    assert_eq!(short_adapter("NVIDIA GeForce RTX 4070"), "GeForce RTX 4070");
}

#[test]
fn drops_intel_vendor_and_tm_marker() {
    assert_eq!(short_adapter("Intel(R) UHD Graphics 770"), "UHD Graphics 770");
    assert_eq!(short_adapter("AMD Radeon(TM) Graphics"), "Radeon Graphics");
}

#[test]
fn keeps_amd_model() {
    assert_eq!(short_adapter("AMD Radeon RX 9070 XT"), "Radeon RX 9070 XT");
}

#[test]
fn falls_back_when_only_vendor_present() {
    assert_eq!(short_adapter("AMD"), "AMD");
}

#[test]
fn short_adapter_edge_cases() {
    assert_eq!(short_adapter("  nvidia  Corporation \t"), "nvidia  Corporation");
    assert_eq!(short_adapter(""), "");
    assert_eq!(short_adapter("(TM) Foo\u{3000}Bar"), "Foo Bar");
    assert_eq!(short_adapter("(T(TM)M)"), "(TM)");
}

#[test]
fn mid_cell_single_gpu_shows_engine_only() {
    let engines = vec!["3D".to_string(), "Decode".to_string()];
    assert_eq!(mid_cell("AMD Radeon RX 9070 XT", &engines, false), "3D+Decode");
}

#[test]
fn mid_cell_multi_gpu_combines_adapter_and_engine() {
    let engines = vec!["3D".to_string()];
    assert_eq!(mid_cell("AMD Radeon RX 9070 XT", &engines, true), "Radeon RX 9070 XT · 3D");
}

#[test]
fn mid_cell_multi_gpu_falls_back_when_engine_unknown() {
    assert_eq!(mid_cell("AMD Radeon RX 9070 XT", &[], true), "Radeon RX 9070 XT");
}

#[test]
fn mid_cell_multi_gpu_falls_back_when_adapter_unknown() {
    let engines = vec!["Copy".to_string()];
    assert_eq!(mid_cell("", &engines, true), "Copy");
}

#[test]
fn mid_cell_keeps_at_most_two_engines() {
    let engines = vec!["Decode".to_string(), "3D".to_string(), "Copy".to_string()];
    assert_eq!(mid_cell("x", &engines, false), "Decode+3D");
}

#[test]
fn temperature_number_becomes_t_prefix() {
    assert_eq!(short_label("Temperature #1"), "T1");
    assert_eq!(short_label("Temperature #12"), "T12");
}

#[test]
fn fan_number_becomes_f_prefix() {
    assert_eq!(short_label("Fan #1"), "F1");
    assert_eq!(short_label("Fan #3"), "F3");
}

#[test]
fn short_label_passes_through_short_names() {
    assert_eq!(short_label("CPU"), "CPU");
    assert_eq!(short_label("+12V"), "+12V");
}

#[test]
fn long_label_truncated_to_8_chars() {
    assert_eq!(short_label("VCORE_SOC"), "VCORE_SO");
    assert_eq!(short_label("123456789"), "12345678");
}

#[test]
fn below_1gb_shows_mb() {
    assert_eq!(fmt_ram(512), "512M");
    assert_eq!(fmt_ram(1023), "1023M");
}

#[test]
fn exactly_1gb_shows_gb() {
    assert_eq!(fmt_ram(1024), "1.0G");
}

#[test]
fn above_1gb_shows_gb_with_one_decimal() {
    assert_eq!(fmt_ram(2048), "2.0G");
    assert_eq!(fmt_ram(1536), "1.5G");
}

#[test]
fn fmt_ram_matches_float_formatting() {
    let mut cases: Vec<u64> = (0..5000).collect();
    cases.extend([1280, 1792, 2304, 1_000_000, 123_456_789, 9_007_199_254_740_993,
        18_014_398_509_481_983, u64::MAX, u64::MAX - 1024, 1 << 60, (1 << 60) + 1]);
    for mb in cases {
        let expect = if mb >= 1024 {
            format!("{:.1}G", mb as f64 / 1024.0)
        } else {
            format!("{mb}M")
        };
        assert_eq!(fmt_ram(mb), expect, "mb = {mb}");
    }
}

#[test]
fn brand_subtitles() {
    assert_eq!(brand_subtitle("rog"), "// ASUS ROG");
    assert_eq!(brand_subtitle("asus-rog"), "// ASUS ROG");
    assert_eq!(brand_subtitle("hp"), "// HP");
    assert_eq!(brand_subtitle("HP"), "// GAMING RIG");
    assert_eq!(brand_subtitle(""), "// GAMING RIG");
}

/// The disk panel's float formatting of free space.
fn fmt_free_f64(bytes: u64) -> String {
    let gb = bytes as f64 / 1_073_741_824.0;
    if gb >= 1000.0 {
        format!("{:.1}T", gb / 1000.0)
    } else if gb >= 10.0 {
        format!("{:.0}G", gb)
    } else {
        format!("{:.1}G", gb)
    }
}

#[test]
fn fmt_free_matches_float_formatting() {
    let gib: u64 = 1 << 30;
    let mut samples: Vec<u64> = vec![
        0, 1, gib, gib / 2, gib + gib / 4, 3 * gib / 2, 10 * gib - 1, 10 * gib, 10 * gib + gib / 2,
        11 * gib + gib / 2, 999 * gib, 1000 * gib - 1, 1000 * gib, 1000 * gib + 1, 1050 * gib,
        1_099_511_627_776, 2_000_398_934_016, 4_000_787_030_016, 18_000_000_000_000, u64::MAX,
        u64::MAX - 1, 1 << 53, (1 << 53) + 1, 9_007_199_254_740_993,
    ];
    let mut x: u64 = 0x9E37_79B9_7F4A_7C15;
    for _ in 0..20000 {
        x = x.wrapping_mul(6364136223846793005).wrapping_add(1442695040888963407);
        samples.push(x >> (x % 40));
        samples.push((x >> 20) % (4000 * gib));
    }
    for b in samples {
        assert_eq!(rigstats::panels::fmt_free(b), fmt_free_f64(b), "bytes={b}");
    }
    assert_eq!(rigstats::panels::fmt_free(gib + gib / 4), "1.2G");
    assert_eq!(rigstats::panels::fmt_free(10 * gib + gib / 2), "10G");
    assert_eq!(rigstats::panels::fmt_free(11 * gib + gib / 2), "12G");
    assert_eq!(rigstats::panels::fmt_free(1050 * gib), "1.1T");
}
