use rigstats::sensors::{
    display_model_name, drive_key_exec, drive_model, drive_temperature, lhm_temp_for_model,
    model_key_exec, needs_sample, pipe_log_due, prune_due, select_gpu_idx, temp_for_key, GpuCandidate,
};

/// An order key for a finite reading: compares the way the readings do.
fn order_key(v: f32) -> u64 {
    let v = if v == 0.0 { 0.0 } else { v as f64 };
    let bits = v.to_bits();
    if bits >> 63 == 0 {
        bits | 0x8000_0000_0000_0000
    } else {
        !bits
    }
}

fn make_gpu(name: &str, vram_mb: f32, load: f32) -> GpuCandidate {
    GpuCandidate { name: name.to_string(), vram_key: order_key(vram_mb), load_key: order_key(load) }
}

#[test]
fn select_gpu_idx_returns_none_for_empty() {
    assert_eq!(select_gpu_idx(&vec![], None), None);
}

#[test]
fn select_gpu_idx_single_device_returns_zero() {
    let devices = vec![make_gpu("RTX 4090", 24576.0, 0.0)];
    assert_eq!(select_gpu_idx(&devices, None), Some(0));
}

#[test]
fn select_gpu_idx_picks_highest_vram_by_default() {
    let devices = vec![make_gpu("Radeon 890M", 512.0, 11.0), make_gpu("RTX 5070 Ti", 8192.0, 0.0)];
    assert_eq!(select_gpu_idx(&devices, None), Some(1), "dGPU (more VRAM) must win even when iGPU load is higher");
}

#[test]
fn select_gpu_idx_tiebreaks_by_load() {
    let devices = vec![make_gpu("GPU A", 8192.0, 5.0), make_gpu("GPU B", 8192.0, 60.0)];
    assert_eq!(select_gpu_idx(&devices, None), Some(1), "higher load must win on VRAM tie");
}

#[test]
fn select_gpu_idx_respects_preferred_exact_match() {
    let devices = vec![make_gpu("Radeon 890M", 512.0, 11.0), make_gpu("RTX 5070 Ti", 8192.0, 0.0)];
    assert_eq!(select_gpu_idx(&devices, Some("Radeon 890M")), Some(0));
}

#[test]
fn select_gpu_idx_respects_preferred_case_insensitive() {
    let devices = vec![make_gpu("Radeon 890M", 512.0, 11.0), make_gpu("RTX 5070 Ti", 8192.0, 0.0)];
    assert_eq!(select_gpu_idx(&devices, Some("radeon 890m")), Some(0));
}

#[test]
fn select_gpu_idx_falls_back_when_preferred_not_found() {
    let devices = vec![make_gpu("Radeon 890M", 512.0, 0.0), make_gpu("RTX 5070 Ti", 8192.0, 0.0)];
    // Unknown preference → fall back to highest VRAM
    assert_eq!(select_gpu_idx(&devices, Some("GTX 1080")), Some(1));
}

#[test]
fn select_gpu_idx_last_of_equals_and_fuzzy_preference() {
    let devices = vec![make_gpu("A", 8.0, 1.0), make_gpu("B", 8.0, 1.0), make_gpu("C", 4.0, 9.0)];
    assert_eq!(select_gpu_idx(&devices, None), Some(1));
    let devices = vec![make_gpu("NVIDIA GeForce RTX 4090", 1.0, 0.0), make_gpu("AMD Radeon", 9.0, 0.0)];
    assert_eq!(select_gpu_idx(&devices, Some("  rtx 4090 ")), Some(0));
    assert_eq!(select_gpu_idx(&devices, Some("amd radeon rx 7900")), Some(1));
    // An empty preference is contained in every name.
    assert_eq!(select_gpu_idx(&devices, Some("")), Some(0));
}

#[test]
fn order_keys_order_like_floats() {
    let vals = [-5.5f32, -1.0, 0.0, 0.25, 1.0, 11.0, 512.0, 8192.0];
    for w in vals.windows(2) {
        assert!(order_key(w[0]) < order_key(w[1]));
    }
    assert_eq!(order_key(-0.0), order_key(0.0));
}

#[test]
fn disk_temps_match_by_model() {
    let temps = vec![("Samsung SSD 990 PRO 2TB".to_string(), 41.0f64), ("WDC WD40EFRX".to_string(), 35.0)];
    assert_eq!(lhm_temp_for_model("  SAMSUNG SSD 990 PRO 2TB ", &temps), Some(41.0));
    assert_eq!(lhm_temp_for_model("WDC WD40EFRX-68N32N0", &temps), Some(35.0));
    assert_eq!(lhm_temp_for_model("Crucial", &temps), None);
    assert_eq!(lhm_temp_for_model("   ", &temps), None);
    // Unicode lower-casing, not just ASCII.
    let temps = vec![("ÆSIR DRIVE".to_string(), 30u8)];
    assert_eq!(lhm_temp_for_model("æsir drive", &temps), Some(30));
    assert_eq!(model_key_exec(" ÆB "), "æb");
}

#[test]
fn temp_for_key_takes_the_first_match() {
    let keys = vec![("abc".to_string(), 1u8), ("b".to_string(), 2), ("".to_string(), 3)];
    assert_eq!(temp_for_key("b", &keys), Some(1));
    assert_eq!(temp_for_key("zz", &keys), Some(3));
    assert_eq!(temp_for_key("", &keys), None);
}

#[test]
fn drive_temperatures() {
    let models = vec![("C:".to_string(), "Samsung SSD".to_string())];
    let temps = vec![("WD Blue".to_string(), 30u8), ("Samsung SSD 990".to_string(), 40u8)];
    assert_eq!(drive_key_exec("C:\\"), "C:");
    assert_eq!(drive_key_exec("/mnt/data//"), "/mnt/data");
    assert_eq!(drive_model("C:\\", &models).as_deref(), Some("Samsung SSD"));
    assert_eq!(drive_model("D:\\", &models), None);
    // Known model: the matching disk's reading.
    assert_eq!(drive_temperature("C:\\", 0, &models, &temps), Some(40));
    // Unknown drive: the reading at its own position.
    assert_eq!(drive_temperature("D:\\", 0, &models, &temps), Some(30));
    assert_eq!(drive_temperature("E:\\", 5, &models, &temps), None);
    // Known model without a matching disk: no fallback by position.
    let models = vec![("C:".to_string(), "Crucial".to_string())];
    assert_eq!(drive_temperature("C:\\", 0, &models, &temps), None);
}

#[test]
fn poll_timing_decisions() {
    assert!(needs_sample(None, 5000));
    assert!(!needs_sample(Some(4999), 5000));
    assert!(needs_sample(Some(5000), 5000));
    assert_eq!(prune_due(None, 86_400 * 3 + 5), (true, 3));
    assert_eq!(prune_due(Some(3), 86_400 * 3 + 5), (false, 3));
    assert_eq!(prune_due(Some(3), 86_400 * 4), (true, 4));
    assert!(pipe_log_due(100, 70));
    assert!(!pipe_log_due(100, 71));
    assert!(!pipe_log_due(10, 100));
    assert_eq!(display_model_name("", "ROG GM700TZ"), "ROG GM700TZ");
    assert_eq!(display_model_name("My Rig", "ROG GM700TZ"), "My Rig");
}
