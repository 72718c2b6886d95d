use mindcache::dates::{fmt_created, is_date, parse_created, short_date};

#[test]
fn created_with_offset_reads_as_instant() {
    assert_eq!(parse_created("2026-08-31T18:40:00+08:00"), Some(1788172800));
    assert_eq!(fmt_created("2026-08-31T18:40:00+08:00"), "2026-08-31 18:40");
}

#[test]
fn created_without_offset_reads_as_utc() {
    assert_eq!(parse_created("2026-08-31T18:40:00"), Some(1788201600));
    assert_eq!(fmt_created("2026-08-31T18:40:00"), "2026-08-31 18:40");
}

#[test]
fn created_bare_date_reads_as_midnight() {
    assert_eq!(parse_created("2026-09-01"), Some(1788220800));
    assert_eq!(fmt_created("2026-09-01"), "2026-09-01");
}

#[test]
fn created_unreadable_stays_as_written() {
    assert_eq!(parse_created("yesterday"), None);
    assert_eq!(fmt_created("yesterday"), "yesterday");
    assert_eq!(parse_created(""), None);
}

#[test]
fn due_dates_are_checked() {
    assert!(is_date("2026-09-01"));
    assert!(!is_date("2026-13-01"));
    assert!(!is_date("tomorrow"));
}

#[test]
fn short_dates_cut_month_and_day() {
    assert_eq!(short_date("2026-08-31T18:40:00+08:00"), "08-31");
    assert_eq!(short_date("2026-09-01"), "09-01");
    assert_eq!(short_date("soon"), "soon");
}

#[test]
fn short_date_keeps_text_it_cannot_cut() {
    // ten or more bytes that do not read as a date, with byte 5 inside "天"
    assert_eq!(short_date("今天下午三点"), "今天下午三点");
    assert_eq!(short_date("下周一之前完成"), "下周一之前完成");
    assert_eq!(short_date("abc"), "abc");
}
