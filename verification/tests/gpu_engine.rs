use rigstats::gpu_engine::{
    adapter_luid_map, compact_engine, parse_hex_u32, parse_instance, AdapterDesc,
};

#[test]
fn parses_canonical_instance_name() {
    let p = parse_instance("pid_1234_luid_0x00000000_0x0000A1B2_phys_0_eng_3_engtype_3D")
        .expect("should parse");
    assert_eq!(p.pid, 1234);
    assert_eq!(p.luid, (0, 0xA1B2));
    assert_eq!(p.engine, "3D");
}

#[test]
fn parses_engtype_with_ordinal_suffix() {
    let p = parse_instance("pid_9_luid_0x00000000_0x00001111_phys_0_eng_0_engtype_Compute_0")
        .unwrap();
    assert_eq!(p.engine, "Compute");
    let p = parse_instance("pid_9_luid_0x00000000_0x00001111_phys_1_eng_2_engtype_Graphics_1")
        .unwrap();
    assert_eq!(p.engine, "Graphics");
}

#[test]
fn parses_engtype_with_space_delimited_ordinal_suffix() {
    let p = parse_instance("pid_9_luid_0x00000000_0x00001111_phys_0_eng_0_engtype_Compute 0")
        .unwrap();
    assert_eq!(p.engine, "Compute");
}

#[test]
fn tolerates_unknown_engtype() {
    let p = parse_instance("pid_5_luid_0x00000000_0x00002222_phys_0_eng_9_engtype_Wizardry")
        .unwrap();
    assert_eq!(p.engine, "Wizardry");
}

#[test]
fn maps_video_engines_to_short_labels() {
    assert_eq!(compact_engine("VideoDecode"), "Decode");
    assert_eq!(compact_engine("VideoEncode"), "Encode");
    assert_eq!(compact_engine("VideoProcessing"), "VideoProc");
}

#[test]
fn maps_space_delimited_video_engines_seen_on_real_hardware() {
    assert_eq!(compact_engine("Video Decode"), "Decode");
    assert_eq!(compact_engine("Video Encode"), "Encode");
    assert_eq!(compact_engine("Video Processing"), "VideoProc");
    assert_eq!(compact_engine("Video JPEG"), "JPEG");
    assert_eq!(compact_engine("Video Codec"), "Codec");
    assert_eq!(compact_engine("Video Codec Engine"), "Codec");
    assert_eq!(compact_engine("High Priority 3D"), "3D");
    assert_eq!(compact_engine("High Priority Compute"), "Compute");
    assert_eq!(compact_engine("Timer"), "Timer");
}

#[test]
fn negative_high_part_luid_round_trips() {
    let p = parse_instance("pid_1_luid_0xFFFFFFFF_0x0000ABCD_phys_0_eng_0_engtype_3D").unwrap();
    assert_eq!(p.luid, (-1, 0xABCD));
}

#[test]
fn rejects_malformed_names() {
    assert!(parse_instance("").is_none());
    assert!(parse_instance("pid_abc_luid_0x0_0x0_phys_0_eng_0_engtype_3D").is_none());
    assert!(parse_instance("pid_1_luid_0x0_0x0_phys_0_eng_0").is_none());
    assert!(parse_instance("GPU Engine total").is_none());
    assert!(parse_instance("pid_1_luid_0xZZ_0x0_phys_0_eng_0_engtype_3D").is_none());
}

#[test]
fn ordinal_without_digits_is_kept() {
    assert_eq!(compact_engine("Compute_"), "Compute_");
    assert_eq!(compact_engine("Compute_x1"), "Compute_x1");
    assert_eq!(compact_engine("Copy_12"), "Copy");
    assert_eq!(compact_engine("3D"), "3D");
}

#[test]
fn pid_and_hex_overflow_are_rejected() {
    assert!(parse_instance("pid_4294967296_luid_0x0_0x0_phys_0_eng_0_engtype_3D").is_none());
    assert!(parse_instance("pid_4294967295_luid_0x0_0x0_phys_0_eng_0_engtype_3D").is_some());
    assert!(parse_instance("pid_1_luid_0x100000000_0x0_phys_0_eng_0_engtype_3D").is_none());
    assert!(parse_instance("pid_1_luid_0x0_0x0_phys_0_eng_0_engtype_").is_none());
}

#[test]
fn std_parsing_rules_are_followed() {
    // `u32::from_str` accepts a leading `+`.
    let p = parse_instance("pid_+7_luid_0X1f_0x+2_phys_0_eng_0_engtype_Copy").unwrap();
    assert_eq!(p.pid, 7);
    assert_eq!(p.luid, (0x1f, 2));
    assert_eq!(p.engine, "Copy");
    assert_eq!(parse_hex_u32("0xff"), Some(255));
    assert_eq!(parse_hex_u32("ff"), None);
    assert_eq!(parse_hex_u32("0x"), None);
    assert_eq!(parse_hex_u32("0x+"), None);
    assert_eq!(parse_hex_u32("0x-1"), None);
    for s in ["0x0", "0xFFFFFFFF", "0x100000000", "0x12aB", "0X7", "0x+9", "0x 1"] {
        let expect = s
            .strip_prefix("0x")
            .or_else(|| s.strip_prefix("0X"))
            .and_then(|h| u32::from_str_radix(h, 16).ok());
        assert_eq!(parse_hex_u32(s), expect, "{s}");
    }
}

#[test]
fn luid_map_skips_software_adapters() {
    let adapters = vec![
        AdapterDesc { luid: (0, 1), description: "NVIDIA GeForce RTX 4070".to_string(), dedicated_vram: 12, flags: 0 },
        AdapterDesc { luid: (0, 2), description: "Microsoft Basic Render Driver".to_string(), dedicated_vram: 0, flags: 2 },
        AdapterDesc { luid: (-1, 3), description: "AMD Radeon(TM) Graphics".to_string(), dedicated_vram: 1, flags: 1 },
    ];
    let m = adapter_luid_map(&adapters);
    assert_eq!(m.len(), 2);
    assert_eq!(m[0], ((0, 1), "NVIDIA GeForce RTX 4070".to_string()));
    assert_eq!(m[1], ((-1, 3), "AMD Radeon(TM) Graphics".to_string()));
}
