use rigstats::calendar::{hm_from_unix, ymd_from_unix};
use rigstats::debug::{format_log_line, log_tail, timestamp_or_secs, LogLevel};
use rigstats::paths::{session_csv_path, session_file_path, sessions_index_path};
use rigstats::session_names::{
    close_interrupted, default_session_name, is_known_legacy, legacy_log_date_exec, legacy_session,
    new_session_id, reconcile_index, session_csv_name_exec, session_file_name_exec, session_id_from,
};
use rigstats::sessions::{
    delete_session, end_session, prune_old_sessions, rename_session, set_session_pinned,
    sort_newest_first, SessionMeta,
};
use std::path::Path;

fn meta(id: &str, start: u64, end: Option<u64>, pinned: bool) -> SessionMeta<u32> {
    SessionMeta {
        id: id.to_string(),
        name: format!("name {id}"),
        start_unix: start,
        end_unix: end,
        pinned,
        legacy: false,
        summary: 0,
    }
}

fn ids(v: &[SessionMeta<u32>]) -> Vec<String> {
    v.iter().map(|s| s.id.clone()).collect()
}

// --- ymd_from_unix / hm_from_unix ---

#[test]
fn ymd_unix_epoch_is_1970_01_01() {
    assert_eq!(ymd_from_unix(0), (1970, 1, 1));
}

#[test]
fn ymd_known_dates() {
    // 2024-01-01 00:00:00 UTC
    assert_eq!(ymd_from_unix(1_704_067_200), (2024, 1, 1));
    // 2024-02-29 00:00:00 UTC  (leap day)
    assert_eq!(ymd_from_unix(1_709_164_800), (2024, 2, 29));
    // 2000-03-01 00:00:00 UTC  (century year, not a leap year in non-400 centuries)
    assert_eq!(ymd_from_unix(951_868_800), (2000, 3, 1));
}

#[test]
fn hm_known_time() {
    // 2024-01-01 14:32:00 UTC = 1704067200 + 14*3600 + 32*60
    assert_eq!(hm_from_unix(1_704_067_200 + 14 * 3600 + 32 * 60), (14, 32));
}

#[test]
fn default_session_name_format() {
    let name = default_session_name(1_704_067_200 + 14 * 3600 + 32 * 60);
    assert_eq!(name, "Session 2024-01-01 14:32");
}

#[test]
fn ymd_edges_of_years_and_centuries() {
    // Last second of 1999 and first of 2000.
    assert_eq!(ymd_from_unix(946_684_799), (1999, 12, 31));
    assert_eq!(ymd_from_unix(946_684_800), (2000, 1, 1));
    // 2100 is not a leap year: Feb 28 is followed by Mar 1.
    assert_eq!(ymd_from_unix(4_107_456_000), (2100, 2, 28));
    assert_eq!(ymd_from_unix(4_107_542_400), (2100, 3, 1));
    // The end of year 9999 and the first day of year 10000.
    assert_eq!(ymd_from_unix(253_402_300_799), (9999, 12, 31));
    assert_eq!(ymd_from_unix(253_402_300_800), (10000, 1, 1));
    assert_eq!(hm_from_unix(253_402_300_799), (23, 59));
}

#[test]
fn default_session_name_pads_and_grows() {
    assert_eq!(default_session_name(0), "Session 1970-01-01 00:00");
    assert_eq!(default_session_name(951_868_800 + 5 * 60), "Session 2000-03-01 00:05");
    assert_eq!(default_session_name(253_402_300_800), "Session 10000-01-01 00:00");
}

// --- ids and file names ---

#[test]
fn session_ids_are_seconds_then_three_digit_millis() {
    assert_eq!(session_id_from(1_700_000_000, 7), "1700000000007");
    assert_eq!(session_id_from(1_700_000_000, 999), "1700000000999");
    assert_eq!(session_id_from(0, 0), "0000");
    let id = new_session_id();
    assert!(id.len() >= 4);
    assert!(id.chars().all(|c| c.is_ascii_digit()));
}

#[test]
fn session_file_names() {
    assert_eq!(session_csv_name_exec("1700000000007"), "rigstats-session-1700000000007.csv");
    let m = meta("1700000000007", 1, None, false);
    assert_eq!(session_file_name_exec(&m), "rigstats-session-1700000000007.csv");
    let legacy = legacy_session("2024-05-01", 10, 20, 0u32);
    assert_eq!(legacy.id, "legacy-2024-05-01");
    assert_eq!(legacy.name, "2024-05-01 (legacy)");
    assert_eq!(legacy.start_unix, 10);
    assert_eq!(legacy.end_unix, Some(20));
    assert!(legacy.legacy && !legacy.pinned);
    assert_eq!(session_file_name_exec(&legacy), "rigstats-log-2024-05-01.csv");
    // Every repetition of the `legacy-` prefix is trimmed, as `trim_start_matches` does.
    let mut twice = legacy_session("x", 0, 0, 0u32);
    twice.id = "legacy-legacy-x".to_string();
    assert_eq!(session_file_name_exec(&twice), "rigstats-log-x.csv");
}

#[test]
fn session_paths_join_the_data_dir() {
    let dir = Path::new("/data/rigstats");
    assert_eq!(sessions_index_path(dir), dir.join("rigstats-sessions.json"));
    assert_eq!(session_csv_path(dir, "42"), dir.join("rigstats-session-42.csv"));
    let legacy = legacy_session("2024-05-01", 10, 20, 0u32);
    assert_eq!(session_file_path(dir, &legacy), dir.join("rigstats-log-2024-05-01.csv"));
}

#[test]
fn legacy_log_names_are_recognised() {
    assert_eq!(legacy_log_date_exec("rigstats-log-2024-05-01.csv").as_deref(), Some("2024-05-01"));
    assert_eq!(legacy_log_date_exec("rigstats-session-1.csv"), None);
    assert_eq!(legacy_log_date_exec("rigstats-log-2024-05-01.txt"), None);
    assert_eq!(legacy_log_date_exec("rigstats-log-.csv").as_deref(), Some(""));
    // Repeated prefixes and suffixes all come off.
    assert_eq!(legacy_log_date_exec("rigstats-log-rigstats-log-a.csv.csv").as_deref(), Some("a"));
}

#[test]
fn legacy_import_round_trips_to_its_file() {
    let name = "rigstats-log-2023-11-30.csv";
    let date = legacy_log_date_exec(name).unwrap();
    let s = legacy_session(&date, 1, 2, 0u32);
    assert_eq!(session_file_name_exec(&s), name);
}

#[test]
fn known_legacy_ids() {
    let mut v = vec![meta("legacy-2024-01-01", 5, Some(6), false)];
    assert!(!is_known_legacy(&v, "legacy-2024-01-01"));
    v[0].legacy = true;
    assert!(is_known_legacy(&v, "legacy-2024-01-01"));
    assert!(!is_known_legacy(&v, "legacy-2024-01-02"));
    assert!(!is_known_legacy(&v, "legacy-2024-01-0"));
}

#[test]
fn interrupted_sessions_end_at_last_row_or_start() {
    let mut s = meta("a", 100, None, true);
    close_interrupted(&mut s, Some(160), 3);
    assert_eq!(s.end_unix, Some(160));
    assert_eq!(s.summary, 3);
    assert!(s.pinned);
    let mut s = meta("b", 100, None, false);
    close_interrupted(&mut s, None, 0);
    assert_eq!(s.end_unix, Some(100));
}

// --- index changes ---

#[test]
fn pin_rename_end_delete() {
    let mut v = vec![meta("a", 1, None, false), meta("b", 2, None, false)];
    assert!(set_session_pinned(&mut v, "b", true));
    assert!(v[1].pinned && !v[0].pinned);
    assert!(!set_session_pinned(&mut v, "zz", true));
    assert!(rename_session(&mut v, "a", "Gaming".to_string()));
    assert_eq!(v[0].name, "Gaming");
    assert!(!rename_session(&mut v, "zz", "x".to_string()));
    assert_eq!(end_session(&mut v, "b", 99), Some(1));
    assert_eq!(v[1].end_unix, Some(99));
    assert!(!v[1].is_active() && v[0].is_active());
    assert_eq!(end_session(&mut v, "zz", 99), None);
    let gone = delete_session(&mut v, "a").unwrap();
    assert_eq!(gone.name, "Gaming");
    assert_eq!(ids(&v), vec!["b"]);
    assert!(delete_session(&mut v, "a").is_none());
}

#[test]
fn only_the_first_duplicate_id_changes() {
    let mut v = vec![meta("a", 1, None, false), meta("a", 2, None, false)];
    assert!(set_session_pinned(&mut v, "a", true));
    assert!(v[0].pinned && !v[1].pinned);
}

#[test]
fn pin_and_rename_in_either_order_agree() {
    let mut x = vec![meta("a", 1, None, false), meta("b", 2, None, false)];
    let mut y = vec![meta("a", 1, None, false), meta("b", 2, None, false)];
    set_session_pinned(&mut x, "b", true);
    rename_session(&mut x, "b", "B".to_string());
    rename_session(&mut y, "b", "B".to_string());
    set_session_pinned(&mut y, "b", true);
    assert_eq!(x[1].name, y[1].name);
    assert_eq!(x[1].pinned, y[1].pinned);
}

#[test]
fn prune_keeps_active_pinned_and_recent() {
    let day = 86_400;
    let now = 100 * day;
    let v = vec![
        meta("old", 0, Some(now - 31 * day), false),
        meta("old-pinned", 0, Some(now - 31 * day), true),
        meta("active", 0, None, false),
        meta("recent", 0, Some(now - 29 * day), false),
        meta("edge", 0, Some(now - 30 * day), false),
        meta("future", 0, Some(now + day), false),
    ];
    let (kept, removed) = prune_old_sessions(v, now, 30);
    assert_eq!(ids(&kept), vec!["old-pinned", "active", "recent", "edge", "future"]);
    assert_eq!(ids(&removed), vec!["old"]);
}

#[test]
fn sort_is_newest_first_and_stable() {
    let v = vec![meta("a", 5, None, false), meta("b", 9, None, false), meta("c", 5, None, false), meta("d", 1, None, false), meta("e", 9, None, false)];
    let s = sort_newest_first(v);
    assert_eq!(ids(&s), vec!["b", "e", "a", "c", "d"]);
    assert!(sort_newest_first(Vec::<SessionMeta<u32>>::new()).is_empty());
}

// --- debug log ---

#[test]
fn log_lines_pad_the_level_tag() {
    assert_eq!(
        format_log_line("2026-06-16 16:18:33", LogLevel::Warning, "pipe: read timed out"),
        "[2026-06-16 16:18:33] [WARNING] pipe: read timed out"
    );
    assert_eq!(format_log_line("t", LogLevel::Info, "hi"), "[t] [INFO]    hi");
    assert_eq!(format_log_line("t", LogLevel::Debug, ""), "[t] [DEBUG]   ");
    assert_eq!(format_log_line("t", LogLevel::Error, "x"), "[t] [ERROR]   x");
    assert_eq!(LogLevel::Warning.as_str(), "WARNING");
}

#[test]
fn timestamps_fall_back_to_seconds() {
    assert_eq!(timestamp_or_secs(Some("2026-01-01 00:00:00".to_string()), 5), "2026-01-01 00:00:00");
    assert_eq!(timestamp_or_secs(None, 1_704_067_200), "1704067200");
    assert_eq!(timestamp_or_secs(None, 0), "0");
}

#[test]
fn log_tail_keeps_the_last_lines() {
    assert_eq!(log_tail("a\nb\nc\n", 2), "b\nc");
    assert_eq!(log_tail("a\r\nb\r\nc", 5), "a\nb\nc");
    assert_eq!(log_tail("", 3), "");
    assert_eq!(log_tail("a\n\nb", 2), "\nb");
    assert_eq!(log_tail("one\ntwo", 0), "");
    assert_eq!(log_tail("x\r", 1), "x\r");
}

#[test]
fn new_sessions_start_active_with_the_default_name() {
    let m = rigstats::session_names::new_session_meta("17000000000001".to_string(), 1_704_067_200 + 14 * 3600 + 32 * 60, 0u8);
    assert_eq!(m.id, "17000000000001");
    assert_eq!(m.name, "Session 2024-01-01 14:32");
    assert!(m.is_active() && !m.pinned && !m.legacy);
}

#[test]
fn legacy_imports_skip_known_and_foreign_files() {
    let mut known = legacy_session("2024-01-01", 1, 2, 0u32);
    known.legacy = true;
    let sessions = vec![known, meta("legacy-2024-01-02", 0, None, false)];
    let names: Vec<String> = [
        "rigstats-log-2024-01-01.csv",
        "rigstats-log-2024-01-02.csv",
        "rigstats-sessions.json",
        "rigstats-log-2024-01-03.csv",
    ]
    .iter()
    .map(|s| s.to_string())
    .collect();
    // A non-legacy session with a legacy-looking id does not count as imported.
    assert_eq!(
        rigstats::session_names::legacy_imports(&sessions, &names),
        vec![(1, "2024-01-02".to_string()), (3, "2024-01-03".to_string())]
    );
}

#[test]
fn written_log_lines_read_back_in_order() {
    let lines = [
        format_log_line("2026-01-01 10:00:00", LogLevel::Info, "startup"),
        format_log_line("2026-01-01 10:00:01", LogLevel::Warning, "pipe: read timed out"),
        format_log_line("2026-01-01 10:00:02", LogLevel::Error, "logging: csv write error"),
    ];
    let mut text = String::new();
    for l in &lines {
        text.push_str(l);
        text.push('\n');
    }
    assert_eq!(log_tail(&text, 10), lines.join("\n"));
    assert_eq!(log_tail(&text, 2), lines[1..].join("\n"));
    let line = rigstats::debug::debug_log_line(Some("2026-06-16 16:18:33".to_string()), 0, LogLevel::Debug, "hello");
    assert_eq!(line, "[2026-06-16 16:18:33] [DEBUG]   hello");
}

#[test]
fn debug_log_line_carries_the_local_date_and_time() {
    let line = rigstats::debug::debug_log_line(Some("1971-01-01 00:00:00".to_string()), 31_536_000, LogLevel::Warning, "w");
    assert_eq!(line, "[1971-01-01 00:00:00] [WARNING] w");
}

#[test]
fn log_line_without_a_local_time_carries_the_raw_seconds() {
    let line = rigstats::debug::debug_log_line(None, 1_000_000_000_000_000, LogLevel::Error, "e");
    assert_eq!(line, "[1000000000000000] [ERROR]   e");
}

// --- the index changes behind the session-file operations ---

#[test]
fn end_session_missing_id_returns_none() {
    let mut sessions: Vec<SessionMeta<u32>> = Vec::new();
    assert!(end_session(&mut sessions, "nonexistent", 0).is_none());
}

#[test]
fn pin_rename_and_delete_session() {
    let meta = rigstats::session_names::new_session_meta(new_session_id(), 1_704_067_200, 0u32);
    let id = meta.id.clone();
    let mut sessions = vec![meta];

    assert!(set_session_pinned(&mut sessions, &id, true));
    assert!(sessions[0].pinned);

    assert!(rename_session(&mut sessions, &id, "My Benchmark".to_string()));
    assert_eq!(sessions[0].name, "My Benchmark");

    let gone = delete_session(&mut sessions, &id).unwrap();
    assert_eq!(session_csv_path(Path::new("/d"), &gone.id), Path::new("/d").join(format!("rigstats-session-{id}.csv")));
    assert!(sessions.is_empty());
}

#[test]
fn prune_keeps_pinned_and_active_but_removes_expired() {
    let now = 1_800_000_000u64;
    let expired = meta("expired", now - 40 * 86400, Some(now.saturating_sub(30 * 86400)), false);
    let pinned = meta("pinned", now - 40 * 86400, Some(now.saturating_sub(30 * 86400)), true);
    let active = meta("active", now - 86400, None, false);

    let (kept, removed) = prune_old_sessions(vec![expired, pinned, active], now, 7);
    let remaining = ids(&kept);
    assert!(!remaining.contains(&"expired".to_string()), "expired unpinned session must be pruned");
    assert!(remaining.contains(&"pinned".to_string()), "pinned session must survive pruning");
    assert!(remaining.contains(&"active".to_string()), "active session must survive pruning");
    assert_eq!(ids(&removed), vec!["expired"]);
}

#[test]
fn reconcile_closes_orphaned_open_session_using_last_row_timestamp() {
    let mut s = meta("orphan", 1_704_067_200, None, false);
    close_interrupted(&mut s, Some(1_704_067_260), 1u32);
    assert!(!s.is_active(), "orphaned session must be closed");
    assert_eq!(s.end_unix, Some(1_704_067_260));
    assert_eq!(s.summary, 1);
}

#[test]
fn reconcile_imports_legacy_daily_log_once() {
    let names = vec!["rigstats-log-2024-01-01.csv".to_string()];
    let mut sessions: Vec<SessionMeta<u32>> = Vec::new();
    let todo = rigstats::session_names::legacy_imports(&sessions, &names);
    assert_eq!(todo, vec![(0, "2024-01-01".to_string())]);
    assert!(reconcile_index(&mut sessions, vec![], &names, vec![Some((1_704_067_200, 1_704_067_260, 2))]));
    assert_eq!(sessions.len(), 1);
    assert_eq!(sessions[0].id, "legacy-2024-01-01");
    assert_eq!(sessions[0].name, "2024-01-01 (legacy)");
    assert!(sessions[0].legacy && !sessions[0].pinned);
    assert_eq!((sessions[0].start_unix, sessions[0].end_unix), (1_704_067_200, Some(1_704_067_260)));
    // Re-running must not duplicate the import.
    assert!(rigstats::session_names::legacy_imports(&sessions, &names).is_empty());
    assert!(!reconcile_index(&mut sessions, vec![None], &names, vec![Some((1_704_067_200, 1_704_067_260, 2))]));
    assert_eq!(sessions.len(), 1);
}

#[test]
fn reconcile_closes_open_sessions_and_skips_logs_without_rows() {
    let names = vec![
        "rigstats-log-2024-01-02.csv".to_string(),
        "notes.txt".to_string(),
        "rigstats-log-2024-01-03.csv".to_string(),
    ];
    let mut sessions = vec![meta("open", 100, None, false), meta("done", 50, Some(60), true)];
    let tails = vec![Some((None, 7)), None];
    let logs = vec![None, None, Some((200, 300, 9))];
    assert!(reconcile_index(&mut sessions, tails, &names, logs.clone()));
    assert_eq!(ids(&sessions), vec!["open", "done", "legacy-2024-01-03"]);
    assert_eq!((sessions[0].end_unix, sessions[0].summary), (Some(100), 7));
    assert_eq!(sessions[1].end_unix, Some(60));
    assert_eq!(sessions[2].summary, 9);
    let once: Vec<(String, Option<u64>)> = sessions.iter().map(|s| (s.id.clone(), s.end_unix)).collect();
    assert!(!reconcile_index(&mut sessions, vec![None, None, None], &names, logs));
    let twice: Vec<(String, Option<u64>)> = sessions.iter().map(|s| (s.id.clone(), s.end_unix)).collect();
    assert_eq!(once, twice);
}
