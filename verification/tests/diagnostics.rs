use rigstats::diagnostics::{
    diagnostics_report, dump_diagnostics, instance_names, lex_lt_exec, sort_by_name,
};
use rigstats::gpu_engine::AdapterDesc;

fn pair(a: &str, b: &str) -> (String, String) {
    (a.to_string(), b.to_string())
}

// On Windows the dump is the report of the live PDH instances and DXGI
// adapters; on a headless machine both may be empty, and both sections are
// still there.
#[test]
fn dump_diagnostics_produces_both_sections() {
    let out = diagnostics_report(Some(Vec::new()), &Vec::new());
    assert!(out.contains("=== GPU Engine"));
    assert!(out.contains("=== DXGI Adapters ==="));
}

#[test]
fn dump_off_windows_says_diagnostics_are_unavailable() {
    assert_eq!(dump_diagnostics(), "(GPU Engine diagnostics unavailable off Windows)\n");
}

#[test]
fn report_without_pdh_or_dxgi_reports_both_failures() {
    assert_eq!(
        diagnostics_report(None, &Vec::new()),
        "=== GPU Engine (\\GPU Engine(*)\\Utilization Percentage) ===\n(PDH query failed to open)\n\n=== DXGI Adapters ===\n(no adapters enumerated — DXGI factory creation failed)\n"
    );
}

#[test]
fn report_sorts_instances_and_lists_adapters() {
    let items = vec![pair("pid_9_b", "1.50"), pair("pid_10_a", "0.00"), pair("pid_9_b", "2.00")];
    let adapters = vec![
        AdapterDesc { luid: (-1, 0xA1B2), description: "NVIDIA GeForce RTX 4090".to_string(), dedicated_vram: 8_589_934_592, flags: 0 },
        AdapterDesc { luid: (0, 7), description: "Microsoft Basic Render Driver".to_string(), dedicated_vram: 0, flags: 2 },
    ];
    let out = diagnostics_report(Some(items), &adapters);
    assert_eq!(
        out,
        "=== GPU Engine (\\GPU Engine(*)\\Utilization Percentage) ===\n\
pid_10_a\t0.00\npid_9_b\t1.50\npid_9_b\t2.00\n\n=== DXGI Adapters ===\n\
LUID=0xFFFFFFFF_0x0000A1B2\tDescription=NVIDIA GeForce RTX 4090\tDedicatedVideoMemoryMB=8192\tFlags=0\n\
LUID=0x00000000_0x00000007\tDescription=Microsoft Basic Render Driver\tDedicatedVideoMemoryMB=0\tFlags=2\n"
    );
}

#[test]
fn report_with_no_instances_says_so() {
    let out = diagnostics_report(Some(vec![]), &vec![]);
    assert!(out.contains("(no instances — no GPU engine work in progress at capture time)\n"));
    assert!(out.ends_with("(no adapters enumerated — DXGI factory creation failed)\n"));
}

#[test]
fn name_sort_matches_str_order_and_is_stable() {
    let items = vec![pair("b", "1"), pair("a", "2"), pair("B", "3"), pair("a", "4"), pair("", "5"), pair("ab", "6"), pair("é", "7")];
    let mut expected = items.clone();
    expected.sort_by(|x, y| x.0.cmp(&y.0));
    assert_eq!(sort_by_name(items), expected);
    let cs = |s: &str| s.chars().collect::<Vec<char>>();
    assert!(lex_lt_exec(&cs("a"), &cs("ab")));
    assert!(!lex_lt_exec(&cs("ab"), &cs("a")));
    assert!(!lex_lt_exec(&cs("x"), &cs("x")));
    assert!(lex_lt_exec(&cs("Z"), &cs("a")));
}

#[test]
fn instance_names_extracts_only_the_gpu_engine_section() {
    let text = "=== GPU Engine (x) ===\n\
         pid_1_luid_0x0_0x1_phys_0_eng_0_engtype_3D\t5.00\n\
         \n\
         === DXGI Adapters ===\n\
         LUID=0x0_0x1\tDescription=Ignored\tFlags=0\n";
    assert_eq!(
        instance_names(text),
        vec!["pid_1_luid_0x0_0x1_phys_0_eng_0_engtype_3D".to_string()]
    );
}

#[test]
fn instance_names_handles_the_no_activity_placeholder() {
    let text = "=== GPU Engine (x) ===\n\
         (no instances \u{2014} no GPU engine work in progress at capture time)\n\
         \n\
         === DXGI Adapters ===\n";
    assert!(instance_names(text).is_empty());
}

#[test]
fn a_report_reads_back_its_sorted_instance_names() {
    let items = vec![pair("pid_9_b", "1.50"), pair("pid_10_a", "0.00"), pair("pid_2_c", "3.25")];
    let adapters = vec![AdapterDesc {
        luid: (0, 7),
        description: "=== GPU Engine".to_string(),
        dedicated_vram: 0,
        flags: 2,
    }];
    let text = diagnostics_report(Some(items), &adapters);
    assert_eq!(instance_names(&text), vec!["pid_10_a".to_string(), "pid_2_c".to_string(), "pid_9_b".to_string()]);
    assert!(instance_names(&diagnostics_report(None, &adapters)).is_empty());
    assert!(instance_names(&dump_diagnostics()).is_empty());
}

#[test]
fn instance_names_trims_line_ends_and_reopens_sections() {
    let text = "=== GPU Engine (a) ===\r\n\
         first\t1.00  \r\n\
         no_tab_here\n\
         \tempty_name\n\
         === Other ===\n\
         hidden\t2.00\n\
         === GPU Engine (b) ===   \n\
         second\t3.00\n\
         third\t\u{3000}\n";
    assert_eq!(
        instance_names(text),
        vec!["first".to_string(), "".to_string(), "second".to_string()]
    );
}
