use rigstats::csv::{csv_row_exec, split_on_exec, CSV_COLUMNS, CSV_HEADER};
use rigstats::update::installer_file_name;

fn split(s: &str, c: char) -> Vec<String> {
    let cs: Vec<char> = s.chars().collect();
    split_on_exec(&cs, c).into_iter().map(|p| p.into_iter().collect()).collect()
}

#[test]
fn split_matches_str_split() {
    for s in ["", ",", "a", "a,b", ",a,,b,", "1,2,3,4,5,6,7,8,9,10,11,12,13"] {
        let expected: Vec<String> = s.split(',').map(|p| p.to_string()).collect();
        assert_eq!(split(s, ','), expected, "{s:?}");
    }
}

#[test]
fn csv_rows_are_read_back() {
    assert_eq!(CSV_HEADER.split(',').count(), CSV_COLUMNS);
    assert!(CSV_HEADER.ends_with("ping_ms\n"));
    let line = "1704067200,40,55.0,4200.0,60.0,,,1.000,0.000,0.000,1.000,2.000,";
    let (ts, fields) = csv_row_exec(line).unwrap();
    assert_eq!(ts, 1_704_067_200);
    assert_eq!(fields.len(), 13);
    assert_eq!(fields[2], "55.0");
    assert_eq!(fields[12], "");
    // Blank, short and malformed lines are dropped.
    assert!(csv_row_exec("   ").is_none());
    assert!(csv_row_exec("1,2,3").is_none());
    assert!(csv_row_exec("x,1,2,3,4,5,6,7,8,9,10,11,12").is_none());
    assert!(csv_row_exec("-1,1,2,3,4,5,6,7,8,9,10,11,12").is_none());
    assert_eq!(csv_row_exec("+7,1,2,3,4,5,6,7,8,9,10,11,12").map(|r| r.0), Some(7));
    assert_eq!(csv_row_exec("18446744073709551615,,,,,,,,,,,,").map(|r| r.0), Some(u64::MAX));
    assert!(csv_row_exec("18446744073709551616,,,,,,,,,,,,").is_none());
}

#[test]
fn installer_names() {
    assert_eq!(installer_file_name("1.26.0"), "rigstats-update-v1.26.0.exe");
}

#[test]
fn written_rows_split_back_into_their_fields() {
    let fields = ["1704067200", "40", "", "4200.0", "", "", "", "1.000", "0.000", "0.000", "1.000", "2.000", ""];
    let line = fields.join(",");
    assert_eq!(split(&line, ','), fields.iter().map(|f| f.to_string()).collect::<Vec<_>>());
    let (ts, back) = csv_row_exec(&line).unwrap();
    assert_eq!(ts, 1_704_067_200);
    assert_eq!(back, fields.iter().map(|f| f.to_string()).collect::<Vec<_>>());
}
