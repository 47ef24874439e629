use timeblocks::calendar::CalendarDate;
use timeblocks::review::{
    count_done_since, count_logs_since, focus_minutes_since, habit_in_kind, midnight_of,
    review_summary, weekly_review, FocusRow, HabitKind, HabitLogRow, TaskRow,
};

fn task(status: &str, at: &str) -> TaskRow {
    TaskRow { status: status.to_string(), updated_at: at.to_string() }
}

fn session(minutes: i64, at: &str) -> FocusRow {
    FocusRow { minutes, started_at: at.to_string() }
}

fn log(name: &str, at: &str) -> HabitLogRow {
    HabitLogRow { habit_name: name.to_string(), logged_at: at.to_string() }
}

#[test]
fn summary_rules_in_order() {
    assert_eq!(review_summary(1, 5, 5), "本周训练不足");
    assert_eq!(review_summary(2, 0, 0), "英语学习断档");
    assert_eq!(review_summary(3, 1, 0), "论文阅读未达标");
    assert_eq!(review_summary(2, 1, 1), "执行良好，下周保持节奏");
}

#[test]
fn midnight_texts() {
    let d = CalendarDate::new(2024, 4, 10).unwrap();
    assert_eq!(midnight_of(&d), "2024-04-10 00:00:00");
}

#[test]
fn done_tasks_of_the_week() {
    let since = "2024-04-08 00:00:00";
    let tasks = vec![
        task("Done", "2024-04-08 09:00:00.1"),
        task("Done", "2024-04-07 23:59:59.9"),
        task("Doing", "2024-04-09 10:00:00"),
        task("Done", "2024-04-08 00:00:00"),
        task("done", "2024-04-09 10:00:00"),
    ];
    assert_eq!(count_done_since(&tasks, since), 2);
    assert_eq!(count_done_since(&vec![], since), 0);
}

#[test]
fn habit_kinds_by_name() {
    assert!(habit_in_kind("英语听力", HabitKind::English));
    assert!(habit_in_kind("力量训练", HabitKind::Training));
    assert!(habit_in_kind("健身", HabitKind::Training));
    assert!(habit_in_kind("游泳", HabitKind::Training));
    assert!(habit_in_kind("攀岩", HabitKind::Training));
    assert!(habit_in_kind("论文阅读", HabitKind::Paper));
    assert!(!habit_in_kind("跑步", HabitKind::Training));
    assert!(!habit_in_kind("英文", HabitKind::English));
    let logs = vec![
        log("游泳", "2024-04-08 07:00:00"),
        log("健身", "2024-04-01 07:00:00"),
        log("英语", "2024-04-09 07:00:00"),
    ];
    assert_eq!(count_logs_since(&logs, HabitKind::Training, "2024-04-08 00:00:00"), 1);
    assert_eq!(count_logs_since(&logs, HabitKind::English, "2024-04-08 00:00:00"), 1);
    assert_eq!(count_logs_since(&logs, HabitKind::Paper, "2024-04-08 00:00:00"), 0);
}

#[test]
fn focus_minutes_and_overflow() {
    let rows = vec![
        session(25, "2024-04-08 08:00:00"),
        session(50, "2024-04-10 08:00:00"),
        session(500, "2024-04-01 08:00:00"),
    ];
    assert_eq!(focus_minutes_since(&rows, "2024-04-08 00:00:00"), 75);
    assert_eq!(focus_minutes_since(&rows, "2024-04-10 00:00:00"), 50);
    assert_eq!(focus_minutes_since(&vec![], "2024-04-10 00:00:00"), 0);
    let huge = vec![session(i64::MAX, "2024-04-09"), session(1, "2024-04-09"), session(-5, "2024-04-09")];
    assert_eq!(focus_minutes_since(&huge, "2024-04-08"), 0);
    // An overflowing session before the week does not count.
    let old = vec![session(i64::MAX, "2024-01-01"), session(i64::MAX, "2024-04-09")];
    assert_eq!(focus_minutes_since(&old, "2024-04-08"), i64::MAX);
}

#[test]
fn full_weekly_review() {
    let today = CalendarDate::new(2024, 4, 10).unwrap();
    let tasks = vec![task("Done", "2024-04-09 10:00:00"), task("Done", "2024-04-05 10:00:00")];
    let sessions = vec![
        session(25, "2024-04-08 08:00:00.5"),
        session(50, "2024-04-10 09:30:00.25"),
        session(25, "2024-04-07 22:00:00"),
    ];
    let logs = vec![
        log("游泳", "2024-04-08 07:00:00"),
        log("健身房训练", "2024-04-09 07:00:00"),
        log("英语单词", "2024-04-09 21:00:00"),
        log("论文阅读", "2024-04-06 21:00:00"),
    ];
    let r = weekly_review(&tasks, &sessions, &logs, &today);
    assert_eq!(r.done_tasks, 1);
    assert_eq!(r.week_focus_minutes, 75);
    assert_eq!(r.today_focus_minutes, 50);
    assert_eq!(r.training_count, 2);
    assert_eq!(r.english_count, 1);
    assert_eq!(r.paper_count, 0);
    assert_eq!(r.summary, "论文阅读未达标");
    let empty = weekly_review(&vec![], &vec![], &vec![], &today);
    assert_eq!(empty.summary, "本周训练不足");
    assert_eq!(empty.week_focus_minutes, 0);
}

#[test]
fn marking_done_raises_count_by_one() {
    let since = "2024-04-08 00:00:00";
    let mut tasks = vec![task("Doing", "2024-04-09 10:00:00"), task("Done", "2024-04-09 11:00:00")];
    let before = count_done_since(&tasks, since);
    tasks[0] = task("Done", "2024-04-10 08:00:00");
    assert_eq!(count_done_since(&tasks, since), before + 1);
}

#[test]
fn day_focus_never_exceeds_week_focus() {
    let sessions = vec![
        session(25, "2024-04-08 08:00:00"),
        session(40, "2024-04-10 08:00:00"),
        session(0, "2024-04-10 09:00:00"),
        session(30, "2024-04-06 08:00:00"),
    ];
    for d in 1..=30u32 {
        let today = CalendarDate::new(2024, 4, d).unwrap();
        let r = weekly_review(&vec![], &sessions, &vec![], &today);
        assert!(0 <= r.today_focus_minutes && r.today_focus_minutes <= r.week_focus_minutes);
    }
}

#[test]
fn day_focus_within_week_in_a_large_year() {
    let today = CalendarDate::new(12345, 6, 13).unwrap();
    let sessions = vec![
        session(30, "+12345-06-13 08:00:00"),
        session(20, "+12345-06-12 08:00:00"),
        session(10, "+12345-06-01 08:00:00"),
    ];
    let r = weekly_review(&vec![], &sessions, &vec![], &today);
    assert_eq!(r.today_focus_minutes, 30);
    assert_eq!(r.week_focus_minutes, 50);
}
