use timeblocks::calendar::CalendarDate;
use timeblocks::intake::{
    estimate_from, group_of, parse_input, parse_with_captures, task_type_from, DATE_PATTERN,
    HOUR_PATTERN, MINUTE_PATTERN,
};
use timeblocks::tasks::{after_focus, new_task_from_input};

fn day(y: i32, m: u32, d: u32) -> CalendarDate {
    CalendarDate::new(y, m, d).unwrap()
}

#[test]
fn homework_with_date_and_hours() {
    let p = parse_input("4月10日前交图论作业 预计6小时", &day(2024, 4, 1));
    assert_eq!(p.title, "4月10日前交图论作业 预计6小时");
    assert_eq!(p.task_type, "作业");
    assert_eq!(p.est_minutes, 360);
    assert_eq!(p.due_at.as_deref(), Some("2024-04-10 23:59:00"));
}

#[test]
fn english_tomorrow_in_minutes() {
    let p = parse_input("明天上午复习英语阅读 45分钟", &day(2024, 4, 9));
    assert_eq!(p.task_type, "英语");
    assert_eq!(p.est_minutes, 45);
    assert_eq!(p.due_at.as_deref(), Some("2024-04-10 12:00:00"));
}

#[test]
fn paper_without_figures() {
    let p = parse_input("每周读一篇英文论文", &day(2024, 4, 9));
    assert_eq!(p.task_type, "论文");
    assert_eq!(p.est_minutes, 60);
    assert_eq!(p.due_at, None);
    assert_eq!(p.title, "每周读一篇英文论文");
}

#[test]
fn task_kinds_by_first_keyword() {
    assert_eq!(task_type_from("游泳 1小时"), "训练");
    assert_eq!(task_type_from("健身"), "训练");
    assert_eq!(task_type_from("攀岩馆"), "训练");
    assert_eq!(task_type_from("英语论文作业"), "作业");
    assert_eq!(task_type_from("论文英语"), "英语");
    assert_eq!(task_type_from("买菜"), "杂项");
    assert_eq!(task_type_from(""), "杂项");
}

#[test]
fn minutes_win_over_hours() {
    let p = parse_input("跑步 2小时 30分钟", &day(2024, 4, 9));
    assert_eq!(p.est_minutes, 30);
    let p = parse_input("读书 2 小时", &day(2024, 4, 9));
    assert_eq!(p.est_minutes, 120);
}

#[test]
fn figures_that_do_not_read_as_numbers() {
    // Full-width digits match the pattern but are not ASCII digits.
    assert_eq!(parse_input("复习 ３小时", &day(2024, 4, 9)).est_minutes, 60);
    assert_eq!(parse_input("复习 ３分钟", &day(2024, 4, 9)).est_minutes, 60);
    // Too large for an i64.
    assert_eq!(parse_input("99999999999999999999小时", &day(2024, 4, 9)).est_minutes, 60);
    assert_eq!(parse_input("99999999999999999999分钟", &day(2024, 4, 9)).est_minutes, 60);
    // Multiplying by sixty wraps as in a release build.
    let big: i64 = 200_000_000_000_000_000;
    assert_eq!(
        parse_input("200000000000000000小时", &day(2024, 4, 9)).est_minutes,
        big.wrapping_mul(60)
    );
}

#[test]
fn dates_that_do_not_exist() {
    assert_eq!(parse_input("2月29日交", &day(2023, 1, 5)).due_at, None);
    assert_eq!(
        parse_input("2月29日交", &day(2024, 1, 5)).due_at.as_deref(),
        Some("2024-02-29 23:59:00")
    );
    assert_eq!(parse_input("13月1日", &day(2024, 1, 5)).due_at, None);
    assert_eq!(parse_input("0月1日", &day(2024, 1, 5)).due_at, None);
    // The leftmost match of the date pattern starts at "23月".
    assert_eq!(parse_input("123月4日", &day(2024, 1, 5)).due_at, None);
    assert_eq!(
        parse_input("截止12月4日", &day(2024, 1, 5)).due_at.as_deref(),
        Some("2024-12-04 23:59:00")
    );
}

#[test]
fn tomorrow_wins_over_a_date() {
    let p = parse_input("明天 5月1日", &day(2024, 12, 31));
    assert_eq!(p.due_at.as_deref(), Some("2025-01-01 12:00:00"));
    let last = parse_input("明天", &day(262142, 12, 31));
    assert_eq!(last.due_at.as_deref(), Some("+262142-12-31 12:00:00"));
}

#[test]
fn captures_given_directly() {
    let hour = Some(vec![Some("3小时".to_string()), Some("3".to_string())]);
    let minute: Option<Vec<Option<String>>> = None;
    let date = Some(vec![Some("4月10日".to_string()), Some("4".to_string()), Some("10".to_string())]);
    let p = parse_with_captures("whatever", &hour, &minute, &date, &day(2030, 1, 1));
    assert_eq!(p.est_minutes, 180);
    assert_eq!(p.due_at.as_deref(), Some("2030-04-10 23:59:00"));
    assert_eq!(p.title, "whatever");
    // A match whose group took no part counts as no figure.
    let partial = Some(vec![Some("x".to_string()), None]);
    assert_eq!(group_of(&partial, 1), None);
    assert_eq!(group_of(&partial, 0).as_deref(), Some("x"));
    assert_eq!(group_of(&partial, 5), None);
    assert_eq!(estimate_from(&None, &None), 60);
    assert_eq!(estimate_from(&Some("2".to_string()), &None), 120);
    assert_eq!(estimate_from(&Some("2".to_string()), &Some("15".to_string())), 15);
}

#[test]
fn patterns_are_valid_expressions() {
    for p in [HOUR_PATTERN, MINUTE_PATTERN, DATE_PATTERN] {
        assert!(regex::Regex::new(p).is_ok());
    }
}

#[test]
fn captured_task_starts_in_inbox() {
    let t = new_task_from_input("明天上午复习英语阅读 45分钟", &day(2024, 4, 9));
    assert_eq!(t.title, "明天上午复习英语阅读 45分钟");
    assert_eq!(t.raw_input, "明天上午复习英语阅读 45分钟");
    assert_eq!(t.status, "Inbox");
    assert_eq!(t.priority, 3);
    assert_eq!(t.spent_minutes, 0);
    assert_eq!(t.notes, "");
    assert_eq!(t.est_minutes, 45);
    assert_eq!(t.task_type, "英语");
    assert_eq!(t.due_at.as_deref(), Some("2024-04-10 12:00:00"));
}

#[test]
fn focus_adds_to_spent_time() {
    let p = after_focus(30, 25).unwrap();
    assert_eq!(p.spent_minutes, 55);
    assert_eq!(p.status, "Doing");
    assert!(after_focus(i64::MAX, 1).is_none());
    assert_eq!(after_focus(0, 0).unwrap().spent_minutes, 0);
}

#[test]
fn focus_sessions_add_in_either_order() {
    let a = after_focus(after_focus(40, 25).unwrap().spent_minutes, 50).unwrap();
    let b = after_focus(after_focus(40, 50).unwrap().spent_minutes, 25).unwrap();
    assert_eq!(a.spent_minutes, 115);
    assert_eq!(b.spent_minutes, 115);
}
