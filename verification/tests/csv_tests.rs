use chrono::{TimeZone, Utc};
use taskcap::csv::{
    csv_bool, csv_date, csv_escape, csv_int, csv_priority, csv_repeat, csv_subtask_parts,
    csv_tags, normalize_csv_key, parse_csv,
};
use taskcap::models::{TaskPriority, TaskRepeatRule};

fn ms(y: i32, mo: u32, d: u32, h: u32, mi: u32, s: u32) -> i64 {
    Utc.with_ymd_and_hms(y, mo, d, h, mi, s).unwrap().timestamp_millis()
}

#[test]
fn escape_quotes_only_where_needed() {
    assert_eq!(csv_escape("plain"), "plain");
    assert_eq!(csv_escape("a,b"), "\"a,b\"");
    assert_eq!(csv_escape("say \"hi\""), "\"say \"\"hi\"\"\"");
    assert_eq!(csv_escape("two\nlines"), "\"two\nlines\"");
}

#[test]
fn parse_reads_quotes_and_line_ends() {
    let rows = parse_csv("a,\"b,c\",\"d\"\"e\"\r\n1,2,3\n\n");
    assert_eq!(rows, vec![vec!["a", "b,c", "d\"e"], vec!["1", "2", "3"]]);
    assert!(parse_csv("").is_empty());
}

#[test]
fn escape_then_parse_gives_the_field_back() {
    for v in ["plain", "a,b", "say \"hi\"", "two\nlines", "无, \"引号\""] {
        let rows = parse_csv(&csv_escape(v));
        assert_eq!(rows, vec![vec![v.to_string()]]);
    }
}

#[test]
fn keys_are_normalized() {
    assert_eq!(normalize_csv_key(" Due_At "), "dueat");
    assert_eq!(normalize_csv_key("Is-Completed"), "iscompleted");
    assert_eq!(normalize_csv_key("Created At"), "createdat");
}

#[test]
fn cells_read_as_values() {
    assert_eq!(csv_int(" 42 "), Some(42));
    assert_eq!(csv_int("-7"), Some(-7));
    assert_eq!(csv_int("4x"), None);
    assert_eq!(csv_int("99999999999"), None);
    assert!(csv_bool(" Yes "));
    assert!(csv_bool("已完成"));
    assert!(!csv_bool("no"));
    assert_eq!(csv_priority("1"), TaskPriority::High);
    assert_eq!(csv_priority("4"), TaskPriority::High);
    assert_eq!(csv_priority("低"), TaskPriority::Low);
    assert_eq!(csv_priority("p2"), TaskPriority::Medium);
    assert_eq!(csv_repeat("每周"), Some(TaskRepeatRule::Weekly));
    assert_eq!(csv_repeat("Annually"), Some(TaskRepeatRule::Yearly));
    assert_eq!(csv_repeat("never"), None);
    assert_eq!(csv_tags("工作|周报; x #y"), vec!["工作", "周报", "x", "y"]);
}

#[test]
fn subtask_cells() {
    // Each part is trimmed before its mark is read, so a leading " :" stays in the title.
    let parts = csv_subtask_parts("x:写稿| :校对|发布| |x: ");
    assert_eq!(
        parts,
        vec![("写稿".to_string(), true), (":校对".to_string(), false), ("发布".to_string(), false)]
    );
}

#[test]
fn dates_in_the_accepted_forms() {
    assert_eq!(csv_date("2026-06-05 18:00"), Some(ms(2026, 6, 5, 18, 0, 0)));
    assert_eq!(csv_date("2026/06/05 18:00"), Some(ms(2026, 6, 5, 18, 0, 0)));
    assert_eq!(csv_date("2026-06-05"), Some(ms(2026, 6, 5, 0, 0, 0)));
    assert_eq!(csv_date("2026-06-05T18:00:00+08:00"), Some(ms(2026, 6, 5, 10, 0, 0)));
    assert_eq!(csv_date("   "), None);
    assert_eq!(csv_date("next tuesday"), None);
}
