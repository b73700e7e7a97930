use chrono::{Datelike, Local, TimeZone, Timelike, Utc};
use taskcap::models::{TaskPriority, TaskRepeatRule};
use taskcap::parser::{parse, parse_with_offset, try_parse_with_offset};

fn ms(y: i32, mo: u32, d: u32, h: u32, mi: u32, s: u32) -> i64 {
    Utc.with_ymd_and_hms(y, mo, d, h, mi, s).unwrap().timestamp_millis()
}

fn local(t: i64) -> chrono::DateTime<Local> {
    Utc.timestamp_millis_opt(t).unwrap().with_timezone(&Local)
}

#[test]
fn parses_chinese_time_with_minutes() {
    let now = ms(2026, 6, 1, 12, 0, 0);
    for input in &["明天9点45开会", "明天9点45分开会"] {
        let parsed = parse(input, TaskPriority::Medium, now).unwrap();
        assert_eq!(parsed.title, "开会", "title mismatch for: {input}");
        let due_local = local(parsed.due_at.unwrap());
        assert_eq!(due_local.hour(), 9, "hour mismatch for: {input}");
        assert_eq!(due_local.minute(), 45, "minute mismatch for: {input}");
    }
}

#[test]
fn parses_tomorrow_time_priority_tag_duration() {

    let now = ms(2026, 6, 1, 12, 0, 0);
    let parsed = parse("明天 10点 发周报 #工作 !高 /30m", TaskPriority::Medium, now).unwrap();
    assert_eq!(parsed.title, "发周报");
    assert_eq!(parsed.priority, TaskPriority::High);
    assert_eq!(parsed.tags, vec!["工作"]);
    assert_eq!(parsed.estimated_minutes, Some(30));
    let due_local = local(parsed.due_at.unwrap());
    assert_eq!(due_local.day(), 2);
    assert_eq!(due_local.hour(), 10);
    assert_eq!(due_local.minute(), 0);
}

#[test]
fn parses_daily_time_before_chinese_title_without_panicking() {
    let now = ms(2026, 6, 1, 0, 0, 0);
    let parsed = parse("每天10点写日报", TaskPriority::Medium, now).unwrap();
    assert_eq!(parsed.title, "写日报");
    assert_eq!(parsed.repeat_rule, Some(TaskRepeatRule::Daily));
    let due_local = local(parsed.due_at.unwrap());
    assert_eq!(due_local.hour(), 10);
    assert_eq!(due_local.minute(), 0);
}

#[test]
fn parse_in_a_fixed_zone_uses_that_zone() {
    // 2026-06-01 12:00 UTC is 20:00 in a zone 8 hours east.
    let now = ms(2026, 6, 1, 12, 0, 0);
    let parsed = parse_with_offset("明天 9:30 晨会", TaskPriority::Low, now, 8 * 3600);
    assert_eq!(parsed.title, "晨会");
    assert_eq!(parsed.priority, TaskPriority::Low);
    // 2026-06-02 09:30 at +08:00 is 01:30 UTC.
    assert_eq!(parsed.due_at, Some(ms(2026, 6, 2, 1, 30, 0)));
}

#[test]
fn parse_plain_title_keeps_fallback_priority() {
    let now = ms(2026, 6, 1, 12, 0, 0);
    let parsed = parse_with_offset("  写周报  ", TaskPriority::High, now, 0);
    assert_eq!(parsed.title, "写周报");
    assert_eq!(parsed.priority, TaskPriority::High);
    assert_eq!(parsed.due_at, None);
    assert_eq!(parsed.repeat_rule, None);
    assert!(parsed.tags.is_empty());
    assert_eq!(parsed.project_name, None);
    assert_eq!(parsed.estimated_minutes, None);
}

#[test]
fn parse_project_and_hour_duration() {
    let now = ms(2026, 6, 1, 12, 0, 0);
    let parsed = parse_with_offset("整理资料 +个人 /2h", TaskPriority::Medium, now, 0);
    assert_eq!(parsed.title, "整理资料");
    assert_eq!(parsed.project_name.as_deref(), Some("个人"));
    assert_eq!(parsed.estimated_minutes, Some(120));
}

#[test]
fn try_parse_agrees_with_parse_on_ordinary_text() {
    let now = ms(2026, 6, 1, 12, 0, 0);
    let a = try_parse_with_offset("今天 15:30 写日报 #工作 !低 /45m", TaskPriority::Medium, now, 0).unwrap();
    assert_eq!(a.title, "写日报");
    assert_eq!(a.priority, TaskPriority::Low);
    assert_eq!(a.due_at, Some(ms(2026, 6, 1, 15, 30, 0)));
    assert!(a.is_today);
}

fn at_zero(text: &str) -> taskcap::parser::ParsedTaskInput {
    parse_with_offset(text, TaskPriority::Medium, ms(2026, 6, 1, 8, 0, 0), 0)
}

#[test]
fn time_forms_of_the_quick_add_guide() {
    assert_eq!(at_zero("今天 10点 a").due_at, Some(ms(2026, 6, 1, 10, 0, 0)));
    assert_eq!(at_zero("今天 9点45 a").due_at, Some(ms(2026, 6, 1, 9, 45, 0)));
    assert_eq!(at_zero("今天 9点45分 a").due_at, Some(ms(2026, 6, 1, 9, 45, 0)));
    assert_eq!(at_zero("今天 10:30 a").due_at, Some(ms(2026, 6, 1, 10, 30, 0)));
    assert_eq!(at_zero("今天 10：30 a").due_at, Some(ms(2026, 6, 1, 10, 30, 0)));
    assert_eq!(at_zero("今天 9点半 a").due_at, Some(ms(2026, 6, 1, 9, 30, 0)));
    assert_eq!(at_zero("今天 下午3点 a").due_at, Some(ms(2026, 6, 1, 15, 0, 0)));
    assert_eq!(at_zero("今天 晚上8点 a").due_at, Some(ms(2026, 6, 1, 20, 0, 0)));
}

#[test]
fn examples_of_the_quick_add_guide() {
    let p = at_zero("明天10点开会 !高 #工作 /30m");
    assert_eq!(p.title, "开会");
    assert_eq!(p.priority, TaskPriority::High);
    assert_eq!(p.tags, vec!["工作"]);
    assert_eq!(p.estimated_minutes, Some(30));
    assert_eq!(p.due_at, Some(ms(2026, 6, 2, 10, 0, 0)));

    // Only the date, the time and the repeat words are cut from the title; "下午"
    // sets the afternoon but stays in the text.
    let p = at_zero("后天下午3点 提交报告 #项目");
    assert_eq!(p.title, "下午 提交报告");
    assert_eq!(p.tags, vec!["项目"]);
    assert_eq!(p.due_at, Some(ms(2026, 6, 3, 15, 0, 0)));

    // 2026-06-01 is a Monday; the next Friday is 2026-06-05.
    let p = at_zero("每周五 18:00 发周报");
    assert_eq!(p.title, "发周报");
    assert_eq!(p.repeat_rule, Some(TaskRepeatRule::Weekly));
    assert_eq!(p.due_at, Some(ms(2026, 6, 5, 18, 0, 0)));

    let p = at_zero("今晚写日报 !低");
    assert_eq!(p.title, "写日报");
    assert_eq!(p.priority, TaskPriority::Low);
    assert_eq!(p.due_at, Some(ms(2026, 6, 1, 20, 0, 0)));
}

#[test]
fn priority_marks() {
    assert_eq!(at_zero("a !p1").priority, TaskPriority::High);
    assert_eq!(at_zero("a !中").priority, TaskPriority::Medium);
    assert_eq!(at_zero("a !p3").priority, TaskPriority::Low);
    assert_eq!(at_zero("a !p1").title, "a");
}

#[test]
fn marks_found_out_of_order_still_come_out() {
    let p = at_zero("!低 x !高 a一");
    assert_eq!(p.title, "x a一");
    assert_eq!(p.priority, TaskPriority::Low);
}

#[test]
fn title_is_empty_exactly_for_blank_input() {
    assert_eq!(at_zero("  \t ").title, "");
    assert_eq!(at_zero("").title, "");
    // A text made only of marks falls back to the whole text as its title.
    assert_eq!(at_zero("!高").title, "!高");
    assert_eq!(at_zero("明天").title, "明天");
}
