use rigstats::sensor_tree::{
    busiest_interface, cpu_power_index, cpu_temp_index, disk_temp_drives, disk_temp_index, gpu_candidates,
    gpu_devices, gpu_fan_index, gpu_reading_index, large_drives, mb_chip_index, mb_fan_indices,
    mb_temp_indices, mb_voltage_indices, mem_mb, ram_temp_key, sensor_index, top_processes, FlatNode,
    KEY_FIVE, KEY_TENTH, KEY_ZERO,
};
use rigstats::sensors::select_gpu_idx;

/// LHM values can include units and locale commas; keep only numeric content.
fn parse_val(s: &str) -> Option<f64> {
    let cleaned = s.replace(',', ".");
    let filtered: String = cleaned.chars().filter(|c| c.is_ascii_digit() || *c == '.' || *c == '-').collect();
    if filtered.is_empty() {
        return None;
    }
    filtered.parse::<f64>().ok()
}

fn key(v: f64) -> u64 {
    let v = if v == 0.0 { 0.0 } else { v };
    let bits = v.to_bits();
    if bits >> 63 == 0 {
        bits | 0x8000_0000_0000_0000
    } else {
        !bits
    }
}

fn reading(k: u64) -> f64 {
    if k >> 63 == 1 {
        f64::from_bits(k & 0x7FFF_FFFF_FFFF_FFFF)
    } else {
        f64::from_bits(!k)
    }
}

fn node(parent: &str, text: &str, value: &str, sensor_id: &str) -> FlatNode {
    FlatNode {
        text: text.to_string(),
        parent: parent.to_string(),
        grandparent: String::new(),
        sensor_id: sensor_id.to_string(),
        key: parse_val(value).map(key),
    }
}

fn node_gp(parent: &str, grandparent: &str, text: &str, value: &str, sensor_id: &str) -> FlatNode {
    FlatNode { grandparent: grandparent.to_string(), ..node(parent, text, value, sensor_id) }
}

#[test]
fn threshold_keys_are_the_keys_of_their_readings() {
    assert_eq!(KEY_ZERO, key(0.0));
    assert_eq!(KEY_ZERO, key(-0.0));
    assert_eq!(KEY_FIVE, key(5.0));
    assert_eq!(KEY_TENTH, key(0.1));
    let vs = [-3.5, -0.1, 0.0, 0.1, 4.99, 5.0, 1200.0];
    for w in vs.windows(2) {
        assert!(key(w[0]) < key(w[1]));
    }
    assert_eq!(reading(key(42.5)), 42.5);
}

#[test]
fn extract_motherboard_excludes_zero_rpm_fan() {
    let nodes = vec![
        node("Fans", "CPU Fan", "0 RPM", "/lpc/nct6799d/0/fan/0"),
        node("Fans", "Chassis Fan", "1200 RPM", "/lpc/nct6799d/0/fan/1"),
    ];
    let fans = mb_fan_indices(&nodes);
    assert_eq!(fans.len(), 1, "0 RPM fan must be dropped");
    assert_eq!(nodes[fans[0]].text, "Chassis Fan");
}

#[test]
fn extract_motherboard_excludes_temp_below_5c_sentinel() {
    let nodes = vec![
        node("Temperatures", "System", "34 °C", "/lpc/nct6799d/0/temperature/0"),
        node("Temperatures", "Unused", "1 °C", "/lpc/nct6799d/0/temperature/1"),
    ];
    let temps = mb_temp_indices(&nodes);
    assert_eq!(temps.len(), 1, "sub-5 °C sentinel must be dropped");
    assert_eq!(nodes[temps[0]].text, "System");
}

#[test]
fn extract_motherboard_amd_svi2_fallback_excludes_vid_rails() {
    let nodes = vec![
        node("Voltages", "Core (SVI2 TFN)", "1,350 V", "/amdcpu/0/voltage/0"),
        node("Voltages", "Core #1 VID", "1,400 V", "/amdcpu/0/voltage/1"),
    ];
    let volts = mb_voltage_indices(&nodes);
    assert_eq!(volts.len(), 1, "VID rail must be excluded");
    assert_eq!(nodes[volts[0]].text, "Core (SVI2 TFN)");
}

#[test]
fn extract_disk_temps_excludes_empty_sensor_id() {
    let nodes = vec![
        node_gp("Temperatures", "Ghost Drive", "Temperature", "40 °C", ""),
        node_gp("Temperatures", "Samsung 990", "Temperature", "42 °C", "/nvme/0/temperature/0"),
    ];
    let drives = disk_temp_drives(&nodes);
    assert_eq!(drives.len(), 1);
    assert_eq!(drives[0], "Samsung 990");
}

#[test]
fn extract_disk_temps_excludes_warning_and_critical_and_zero() {
    let nodes = vec![
        node_gp("Temperatures", "NVMe", "Temperature", "45 °C", "/nvme/0/temperature/0"),
        node_gp("Temperatures", "NVMe", "Warning Composite", "80 °C", "/nvme/0/temperature/1"),
        node_gp("Temperatures", "NVMe", "Critical Composite", "90 °C", "/nvme/0/temperature/2"),
        node_gp("Temperatures", "NVMe", "Temperature 4", "0 °C", "/nvme/0/temperature/3"),
    ];
    let drives = disk_temp_drives(&nodes);
    assert_eq!(drives.len(), 1);
    let i = disk_temp_index(&nodes, &drives[0]).unwrap();
    assert!((reading(nodes[i].key.unwrap()) - 45.0).abs() < 0.01, "threshold/zero sensors excluded");
}

#[test]
fn extract_ram_temp_uses_temperature0_index_only() {
    let nodes = vec![
        node("Temperatures", "DIMM #1", "38 °C", "/memory/dimm/0/temperature/0"),
        node("Temperatures", "DIMM #1 Max", "99 °C", "/memory/dimm/0/temperature/1"),
    ];
    assert_eq!(ram_temp_key(&nodes).map(reading), Some(38.0));
}

#[test]
fn fans_are_sorted_fastest_first_with_ties_in_tree_order() {
    let nodes = vec![
        node("Fans", "A", "800 RPM", "/lpc/x/fan/0"),
        node("Fans", "B", "1500 RPM", "/lpc/x/fan/1"),
        node("Fans", "C", "800 RPM", "/lpc/x/fan/2"),
        node("Fans", "GPU Fan", "2000 RPM", "/gpu-nvidia/0/fan/0"),
    ];
    let fans: Vec<&str> = mb_fan_indices(&nodes).iter().map(|&i| nodes[i].text.as_str()).collect();
    assert_eq!(fans, vec!["B", "A", "C"]);
}

#[test]
fn lpc_rails_win_over_svi2_and_generic_pins_are_dropped() {
    let nodes = vec![
        node("Voltages", "Vcore", "1,2 V", "/lpc/x/voltage/0"),
        node("Voltages", "Voltage #3", "3,3 V", "/lpc/x/voltage/3"),
        node("Voltages", "Core (SVI2 TFN)", "1,35 V", "/amdcpu/0/voltage/0"),
        node("Voltages", "+12V", "0,05 V", "/lpc/x/voltage/4"),
    ];
    let v: Vec<&str> = mb_voltage_indices(&nodes).iter().map(|&i| nodes[i].text.as_str()).collect();
    assert_eq!(v, vec!["Vcore"]);
}

#[test]
fn chip_is_the_device_of_the_first_lpc_sensor() {
    let nodes = vec![
        node_gp("Fans", "Nuvoton NCT6799D", "Fan #1", "900 RPM", "/lpc/nct6799d/0/fan/0"),
        node_gp("Fans", "Other", "Fan #2", "900 RPM", "/lpc/other/0/fan/0"),
    ];
    assert_eq!(mb_chip_index(&nodes), Some(0));
    let unnamed = vec![node("Fans", "Fan #1", "900 RPM", "/lpc/x/fan/0"), node_gp("Fans", "X", "F", "1", "/lpc/y")];
    assert_eq!(mb_chip_index(&unnamed), None);
}

#[test]
fn cpu_temperature_prefers_amd_then_intel_sensors_under_temperatures() {
    let nodes = vec![
        node("Powers", "CPU Package", "65 W", "/intelcpu/0/power/0"),
        node("Temperatures", "Core Average", "55 °C", "/intelcpu/0/temperature/1"),
        node("Temperatures", "CPU Package", "61 °C", "/intelcpu/0/temperature/0"),
    ];
    assert_eq!(cpu_temp_index(&nodes), Some(2));
    assert_eq!(cpu_power_index(&nodes), Some(0));
    let amd = vec![
        node("Temperatures", "CPU Package", "50 °C", "/x"),
        node("Temperatures", "Core (Tctl/Tdie)", "70 °C", "/amdcpu/0/temperature/2"),
        node("Powers", "Package", "88 W", "/amdcpu/0/power/0"),
    ];
    assert_eq!(cpu_temp_index(&amd), Some(1));
    assert_eq!(cpu_power_index(&amd), Some(2));
    let unreadable = vec![node("Temperatures", "Core (Tctl/Tdie)", "n/a", "/a"), node("Temperatures", "Core Average", "40", "/b")];
    assert_eq!(cpu_temp_index(&unreadable), Some(1));
}

#[test]
fn gpu_devices_are_listed_once_in_tree_order_and_ranked_by_vram_then_load() {
    let nodes = vec![
        node_gp("Load", "AMD Radeon 890M", "GPU Core", "80 %", "/gpu-amd/0/load/0"),
        node_gp("Data", "AMD Radeon 890M", "D3D Shared Memory Total", "4096 MB", "/gpu-amd/0/smalldata/0"),
        node_gp("Load", "NVIDIA RTX 4070", "GPU Core", "5 %", "/gpu-nvidia/0/load/0"),
        node_gp("Data", "NVIDIA RTX 4070", "GPU Memory Total", "8192 MB", "/gpu-nvidia/0/smalldata/1"),
        node_gp("Temperatures", "NVIDIA RTX 4070", "GPU Hot Spot", "70 °C", "/gpu-nvidia/0/temperature/2"),
        node_gp("Temperatures", "NVIDIA RTX 4070", "GPU Memory Junction", "72 °C", "/gpu-nvidia/0/temperature/3"),
        node_gp("Fans", "NVIDIA RTX 4070", "GPU Fan 1", "1500 RPM", "/gpu-nvidia/0/fan/0"),
        node_gp("Load", "Window", "GPU Core", "1 %", ""),
        node_gp("Load", "", "GPU Core", "1 %", "/gpu-x"),
    ];
    assert_eq!(gpu_devices(&nodes), vec!["AMD Radeon 890M", "NVIDIA RTX 4070", "Window"]);
    let c = gpu_candidates(&nodes);
    assert_eq!(c.len(), 3);
    assert_eq!(reading(c[0].vram_key), 4096.0);
    assert_eq!(reading(c[1].vram_key), 8192.0);
    assert_eq!(select_gpu_idx(&c, None), Some(1), "most VRAM wins even when the iGPU is busier");
    assert_eq!(select_gpu_idx(&c, Some("radeon 890m")), Some(0));
    let dev = "NVIDIA RTX 4070";
    assert_eq!(sensor_index(&nodes, dev, "Load", "GPU Core"), Some(2));
    assert_eq!(gpu_reading_index(&nodes, dev, "Temperatures", "GPU Hot Spot", "Temperatures", "GPU Memory Junction"), Some(4));
    assert_eq!(gpu_reading_index(&nodes, dev, "Temperatures", "GPU Core", "Temperatures", "GPU VR SoC"), None);
    assert_eq!(gpu_fan_index(&nodes, dev), Some(6));
}

#[test]
fn top_processes_keeps_eight_by_cpu_share_stably() {
    let shares = [1.0, 9.0, 3.0, 9.0, 0.5, 7.0, 2.0, 8.0, 6.0, 4.0];
    let keys: Vec<u64> = shares.iter().map(|&v| key(v)).collect();
    assert_eq!(top_processes(&keys), vec![1, 3, 7, 5, 8, 9, 2, 6]);
    assert_eq!(top_processes(&vec![key(2.0), key(3.0)]), vec![1, 0]);
    assert_eq!(mem_mb(3 * 1_048_576 + 5), 3);
}

#[test]
fn only_drives_over_one_gigabyte_are_shown() {
    assert_eq!(large_drives(&vec![500_000_000, 1_000_000_000, 1_000_000_001, 2_000_000_000_000]), vec![2, 3]);
}

#[test]
fn busiest_interface_is_the_first_with_the_most_traffic() {
    assert_eq!(busiest_interface(&vec![]), None);
    assert_eq!(busiest_interface(&vec![(0, 0), (0, 0)]), None);
    assert_eq!(busiest_interface(&vec![(10, 5), (3, 12), (20, 0), (1, 1)]), Some(2));
    assert_eq!(busiest_interface(&vec![(10, 5), (3, 12)]), Some(0));
}
