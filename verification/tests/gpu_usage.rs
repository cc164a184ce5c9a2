use rigstats::gpu_usage::{aggregate, EngineSample, GpuProcessRow};

/// The clamping the application applies before handing a sample over:
/// non-finite and non-positive readings count as 0, the rest at most 100.
fn sample(name: &str, value: f64) -> EngineSample {
    let v = if value.is_finite() && value > 0.0 { value.min(100.0) } else { 0.0 };
    EngineSample { instance: name.to_string(), value_key: v.to_bits() }
}

fn util(row: &GpuProcessRow) -> f64 {
    f64::from_bits(row.util_key)
}

#[test]
fn aggregate_takes_engine_max_and_sorts_engines_by_value() {
    let samples = vec![
        sample("pid_100_luid_0x00000000_0x00000001_phys_0_eng_0_engtype_3D", 20.0),
        sample("pid_100_luid_0x00000000_0x00000001_phys_0_eng_1_engtype_VideoDecode", 75.0),
        sample("pid_200_luid_0x00000000_0x00000001_phys_0_eng_0_engtype_3D", 5.0),
    ];
    let names = vec![(100u32, "game.exe".to_string())];
    let luids = vec![((0i32, 1u32), "NVIDIA GeForce RTX 4070".to_string())];

    let rows = aggregate(&samples, &names, &luids);
    assert_eq!(rows.len(), 2);
    assert_eq!(rows[0].name, "game.exe");
    assert_eq!(util(&rows[0]), 75.0);
    assert_eq!(rows[0].engines, vec!["Decode".to_string(), "3D".to_string()]);
    assert_eq!(rows[0].adapter, "NVIDIA GeForce RTX 4070");
    // Unknown PID falls back to a synthetic label; unknown LUID -> blank.
    assert_eq!(rows[1].name, "PID 200");
}

#[test]
fn aggregate_clamps_and_drops_garbage_values() {
    let samples = vec![
        sample("pid_1_luid_0x00000000_0x00000001_phys_0_eng_0_engtype_3D", 150.0),
        sample("pid_2_luid_0x00000000_0x00000001_phys_0_eng_0_engtype_3D", f64::NAN),
    ];
    let rows = aggregate(&samples, &vec![], &vec![]);
    assert_eq!(util(&rows[0]), 100.0);
    assert_eq!(util(&rows[1]), 0.0);
}

#[test]
fn aggregate_groups_by_process_and_adapter() {
    let samples = vec![
        sample("pid_7_luid_0x00000000_0x00000001_phys_0_eng_0_engtype_Compute_0", 10.0),
        sample("pid_7_luid_0x00000000_0x00000002_phys_0_eng_0_engtype_3D", 30.0),
        sample("pid_7_luid_0x00000000_0x00000001_phys_0_eng_1_engtype_Compute_1", 40.0),
        sample("pid_7_luid_0x00000000_0x00000001_phys_0_eng_2_engtype_Copy", 40.0),
        sample("not an instance", 99.0),
        sample("pid_8_luid_0xFFFFFFFF_0x00000001_phys_0_eng_0_engtype_3D", 30.0),
    ];
    let names = vec![(7u32, "a.exe".to_string()), (8u32, "b.exe".to_string())];
    let luids = vec![((0i32, 1u32), "GPU One".to_string()), ((0i32, 1u32), "GPU Uno".to_string())];
    let rows = aggregate(&samples, &names, &luids);
    assert_eq!(rows.len(), 3);
    // 40 first; then the two 30s by name.
    assert_eq!((rows[0].pid, rows[0].luid), (7, (0, 1)));
    assert_eq!(util(&rows[0]), 40.0);
    // Compute (max 40) and Copy (40) tie: by name.
    assert_eq!(rows[0].engines, vec!["Compute".to_string(), "Copy".to_string()]);
    // The later adapter entry wins, as a map built from the list would.
    assert_eq!(rows[0].adapter, "GPU Uno");
    assert_eq!((rows[1].name.as_str(), rows[1].luid), ("a.exe", (0, 2)));
    assert_eq!(rows[1].adapter, "");
    assert_eq!((rows[2].name.as_str(), rows[2].luid), ("b.exe", (-1, 1)));
    assert!(aggregate(&vec![], &names, &luids).is_empty());
}
