//! Quick capture: reading a free-text task note such as
//! `4月10日前交图论作业 预计6小时` into a structured task. The note itself is
//! always kept as the title, so that nothing the user typed is lost; the
//! kind of task, the time estimate and the due date are read from it where
//! they can be.

use vstd::prelude::*;
use vstd::string::StringExecFns;

use crate::calendar::{
    date_text, day_number, is_valid_ymd, law_next_day_number, max_year, next_day, CalendarDate,
};
use crate::text::{contains_text, parse_i64_text, parse_u32_text, std_parse_i64, std_parse_u32, text_contains};

verus! {

/// Pattern of an estimate in hours, such as `6小时` or `6 小时`.
pub const HOUR_PATTERN: &'static str = "(\\d+)\\s*小时";

/// Pattern of an estimate in minutes, such as `45分钟`.
pub const MINUTE_PATTERN: &'static str = "(\\d+)\\s*分钟";

/// Pattern of a calendar day in the current year, such as `4月10日`.
pub const DATE_PATTERN: &'static str = "(\\d{1,2})月(\\d{1,2})日";

/// The capture groups of the first (leftmost) match of the regular expression
/// `pattern` in `haystack`, as the `regex` crate reports them: element `i` is
/// the text of group `i`, or `None` where that group took no part in the match.
/// `None` where nothing matches (or where `pattern` is not a valid expression).
pub uninterp spec fn regex_first_captures(pattern: Seq<char>, haystack: Seq<char>) -> Option<Seq<Option<Seq<char>>>>;

/// `regex::Regex::new` followed by `regex::Regex::captures`: the groups of the
/// first match of `pattern` in `haystack`. Nothing is stated of which match
/// that is beyond the name `regex_first_captures`.
#[verifier::external_body]
fn first_captures(pattern: &str, haystack: &str) -> (r: Option<Vec<Option<String>>>)
    ensures
        r.deep_view() == regex_first_captures(pattern@, haystack@),
{
    let re = match regex::Regex::new(pattern) {
        Ok(re) => re,
        Err(_) => return None,
    };
    let caps = re.captures(haystack)?;
    let mut groups = Vec::new();
    for g in caps.iter() {
        groups.push(match g {
            Some(m) => Some(m.as_str().to_string()),
            None => None,
        });
    }
    Some(groups)
}

/// The text of group `i` of a match, if there was a match and the group took part in it.
pub open spec fn group_text(caps: Option<Seq<Option<Seq<char>>>>, i: int) -> Option<Seq<char>> {
    match caps {
        Some(groups) => if 0 <= i < groups.len() {
            groups[i]
        } else {
            None
        },
        None => None,
    }
}

/// Group `i` of a match is the `i`-th captured text; there is none without a
/// match or past the last group.
pub proof fn law_group_text(groups: Seq<Option<Seq<char>>>, i: int)
    ensures
        0 <= i < groups.len() ==> group_text(Some(groups), i) == groups[i],
        !(0 <= i < groups.len()) ==> group_text(Some(groups), i) is None,
        group_text(None, i) is None,
{
}

/// The kind of task that a note describes, by the first keyword it contains:
/// homework, English, paper, training (swimming, fitness, climbing), or miscellaneous.
pub open spec fn task_type_of(input: Seq<char>) -> Seq<char> {
    if contains_text(input, "作业"@) {
        "作业"@
    } else if contains_text(input, "英语"@) {
        "英语"@
    } else if contains_text(input, "论文"@) {
        "论文"@
    } else if contains_text(input, "游泳"@) || contains_text(input, "健身"@) || contains_text(
        input,
        "攀岩"@,
    ) {
        "训练"@
    } else {
        "杂项"@
    }
}

/// The estimate in minutes: a minutes figure wins over an hours figure; a
/// figure that does not read as an `i64` counts as one hour or as sixty
/// minutes; without either the estimate is sixty minutes. Hours are turned into
/// minutes with the wrapping multiplication of a release build.
pub open spec fn estimate_of(hours: Option<Seq<char>>, minutes: Option<Seq<char>>) -> i64 {
    match minutes {
        Some(t) => match std_parse_i64(t) {
            Some(v) => v,
            None => 60,
        },
        None => match hours {
            Some(t) => {
                let h: i64 = match std_parse_i64(t) {
                    Some(v) => v,
                    None => 1,
                };
                h.wrapping_mul(60)
            },
            None => 60,
        },
    }
}

/// The day after `today`, or `today` itself where there is no later representable day.
pub open spec fn tomorrow_of(today: (int, int, int)) -> (int, int, int) {
    if next_day(today).0 <= max_year() {
        next_day(today)
    } else {
        today
    }
}

/// The due time: noon tomorrow when the note says `明天` (tomorrow); otherwise
/// the end of the named month and day in the current year, where that day
/// exists; otherwise none. A month or day figure that does not read as a `u32`
/// counts as 1.
pub open spec fn due_of(
    input: Seq<char>,
    month_text: Option<Seq<char>>,
    day_text: Option<Seq<char>>,
    today: (int, int, int),
) -> Option<Seq<char>> {
    if contains_text(input, "明天"@) {
        Some(date_text(tomorrow_of(today)) + " 12:00:00"@)
    } else {
        match (month_text, day_text) {
            (Some(mt), Some(dt)) => {
                let m: u32 = match std_parse_u32(mt) {
                    Some(v) => v,
                    None => 1,
                };
                let d: u32 = match std_parse_u32(dt) {
                    Some(v) => v,
                    None => 1,
                };
                let t = (today.0, m as int, d as int);
                if is_valid_ymd(t) {
                    Some(date_text(t) + " 23:59:00"@)
                } else {
                    None
                }
            },
            _ => None,
        }
    }
}

/// The estimate that a note gives, by the figures the patterns find in it.
pub open spec fn estimate_for(input: Seq<char>) -> i64 {
    estimate_of(
        group_text(regex_first_captures(HOUR_PATTERN@, input), 1),
        group_text(regex_first_captures(MINUTE_PATTERN@, input), 1),
    )
}

/// The due time that a note gives, read on the day `today`.
pub open spec fn due_for(input: Seq<char>, today: (int, int, int)) -> Option<Seq<char>> {
    due_of(
        input,
        group_text(regex_first_captures(DATE_PATTERN@, input), 1),
        group_text(regex_first_captures(DATE_PATTERN@, input), 2),
        today,
    )
}

/// A note's kind is decided by the first of its keywords in the order
/// homework (作业), English (英语), paper (论文), training (游泳, 健身, 攀岩);
/// a note with none of them is miscellaneous (杂项).
pub proof fn law_task_type_order(input: Seq<char>)
    ensures
        contains_text(input, "作业"@) ==> task_type_of(input) == "作业"@,
        !contains_text(input, "作业"@) && contains_text(input, "英语"@) ==> task_type_of(input)
            == "英语"@,
        !contains_text(input, "作业"@) && !contains_text(input, "英语"@) && contains_text(
            input,
            "论文"@,
        ) ==> task_type_of(input) == "论文"@,
        !contains_text(input, "作业"@) && !contains_text(input, "英语"@) && !contains_text(
            input,
            "论文"@,
        ) && (contains_text(input, "游泳"@) || contains_text(input, "健身"@) || contains_text(
            input,
            "攀岩"@,
        )) ==> task_type_of(input) == "训练"@,
        !contains_text(input, "作业"@) && !contains_text(input, "英语"@) && !contains_text(
            input,
            "论文"@,
        ) && !contains_text(input, "游泳"@) && !contains_text(input, "健身"@) && !contains_text(
            input,
            "攀岩"@,
        ) ==> task_type_of(input) == "杂项"@,
{
}

/// A minutes figure that reads as an `i64` is the estimate itself, whatever
/// the hours say; one that does not read gives 60 minutes. Without a minutes
/// figure an hours figure `h` that reads gives `h` times 60 minutes (wrapping
/// like a release build, so exactly `60 * h` whenever that fits an `i64`), one
/// that does not read gives 60 minutes, and no figure at all gives 60 minutes.
pub proof fn law_estimate_rules(hours: Option<Seq<char>>, minutes: Option<Seq<char>>)
    ensures
        minutes is Some && std_parse_i64(minutes->0) is Some ==> estimate_of(hours, minutes)
            == std_parse_i64(minutes->0)->0,
        minutes is Some && std_parse_i64(minutes->0) is None ==> estimate_of(hours, minutes)
            == 60,
        minutes is None && hours is Some && std_parse_i64(hours->0) is Some ==> estimate_of(
            hours,
            minutes,
        ) == (std_parse_i64(hours->0)->0).wrapping_mul(60),
        minutes is None && hours is Some && std_parse_i64(hours->0) is Some && i64::MIN <= 60 * (
        std_parse_i64(hours->0)->0) <= i64::MAX ==> estimate_of(hours, minutes) == 60 * (
        std_parse_i64(hours->0)->0),
        minutes is None && hours is Some && std_parse_i64(hours->0) is None ==> estimate_of(
            hours,
            minutes,
        ) == 60,
        minutes is None && hours is None ==> estimate_of(hours, minutes) == 60,
{
    if minutes is None && hours is Some && std_parse_i64(hours->0) is Some {
        let h = std_parse_i64(hours->0)->0;
        if i64::MIN <= 60 * h <= i64::MAX {
            assert(h.wrapping_mul(60) == 60 * h) by {
                assert(h * 60 == 60 * h);
            }
        }
    }
}

/// A note that says 明天 (tomorrow) is due at noon of the next calendar day,
/// whose day number is one higher than today's (today itself where no later
/// day exists), whatever date it also names. Otherwise a named month and day
/// that exist in today's year make it due at 23:59:00 of that day, a figure
/// that does not read counting as 1; a day that does not exist, or no named
/// day, leaves it without a due time.
pub proof fn law_due_rules(
    input: Seq<char>,
    month_text: Option<Seq<char>>,
    day_text: Option<Seq<char>>,
    today: (int, int, int),
)
    requires
        is_valid_ymd(today),
    ensures
        contains_text(input, "明天"@) && next_day(today).0 <= max_year() ==> {
            &&& due_of(input, month_text, day_text, today) == Some(
                date_text(next_day(today)) + " 12:00:00"@,
            )
            &&& day_number(next_day(today)) == day_number(today) + 1
            &&& is_valid_ymd(next_day(today))
        },
        contains_text(input, "明天"@) && next_day(today).0 > max_year() ==> due_of(
            input,
            month_text,
            day_text,
            today,
        ) == Some(date_text(today) + " 12:00:00"@),
        !contains_text(input, "明天"@) && month_text is Some && day_text is Some ==> ({
            let m: int = if std_parse_u32(month_text->0) is Some {
                std_parse_u32(month_text->0)->0 as int
            } else {
                1
            };
            let d: int = if std_parse_u32(day_text->0) is Some {
                std_parse_u32(day_text->0)->0 as int
            } else {
                1
            };
            due_of(input, month_text, day_text, today) == if is_valid_ymd((today.0, m, d)) {
                Some(date_text((today.0, m, d)) + " 23:59:00"@)
            } else {
                None
            }
        }),
        !contains_text(input, "明天"@) && (month_text is None || day_text is None) ==> due_of(
            input,
            month_text,
            day_text,
            today,
        ) is None,
{
    law_next_day_number(today);
}

/// What a note says about its task.
pub struct ParsedInput {
    pub title: String,
    pub due_at: Option<String>,
    pub est_minutes: i64,
    pub task_type: String,
}

/// The text of group `i` of a match, if there was a match and the group took part in it.
pub fn group_of(caps: &Option<Vec<Option<String>>>, i: usize) -> (r: Option<String>)
    ensures
        r.deep_view() == group_text(caps.deep_view(), i as int),
{
    match caps {
        Some(groups) => {
            if i < groups.len() {
                match &groups[i] {
                    Some(t) => Some(t.clone()),
                    None => None,
                }
            } else {
                None
            }
        },
        None => None,
    }
}

/// The kind of task that a note describes.
pub fn task_type_from(input: &str) -> (r: String)
    ensures
        r@ == task_type_of(input@),
        contains_text(input@, "作业"@) ==> r@ == "作业"@,
        !contains_text(input@, "作业"@) && contains_text(input@, "英语"@) ==> r@ == "英语"@,
        !contains_text(input@, "作业"@) && !contains_text(input@, "英语"@) && contains_text(
            input@,
            "论文"@,
        ) ==> r@ == "论文"@,
        !contains_text(input@, "作业"@) && !contains_text(input@, "英语"@) && !contains_text(
            input@,
            "论文"@,
        ) && (contains_text(input@, "游泳"@) || contains_text(input@, "健身"@) || contains_text(
            input@,
            "攀岩"@,
        )) ==> r@ == "训练"@,
{
    proof {
        law_task_type_order(input@);
    }
    if text_contains(input, "作业") {
        String::from_str("作业")
    } else if text_contains(input, "英语") {
        String::from_str("英语")
    } else if text_contains(input, "论文") {
        String::from_str("论文")
    } else if text_contains(input, "游泳") || text_contains(input, "健身") || text_contains(
        input,
        "攀岩",
    ) {
        String::from_str("训练")
    } else {
        String::from_str("杂项")
    }
}

/// The estimate in minutes from the hours and minutes figures found in a note.
pub fn estimate_from(hours: &Option<String>, minutes: &Option<String>) -> (r: i64)
    ensures
        r == estimate_of(hours.deep_view(), minutes.deep_view()),
        minutes.deep_view() is Some && std_parse_i64(minutes.deep_view()->0) is Some ==> r
            == std_parse_i64(minutes.deep_view()->0)->0,
        minutes.deep_view() is Some && std_parse_i64(minutes.deep_view()->0) is None ==> r == 60,
        minutes is None && hours is None ==> r == 60,
{
    proof {
        law_estimate_rules(hours.deep_view(), minutes.deep_view());
    }
    match minutes {
        Some(t) => match parse_i64_text(t.as_str()) {
            Some(v) => v,
            None => 60,
        },
        None => match hours {
            Some(t) => {
                let h: i64 = match parse_i64_text(t.as_str()) {
                    Some(v) => v,
                    None => 1,
                };
                h.wrapping_mul(60)
            },
            None => 60,
        },
    }
}

/// The due time from a note, its month and day figures, and today's date.
pub fn due_from(
    input: &str,
    month_text: &Option<String>,
    day_text: &Option<String>,
    today: &CalendarDate,
) -> (r: Option<String>)
    ensures
        r.deep_view() == due_of(input@, month_text.deep_view(), day_text.deep_view(), today@),
        contains_text(input@, "明天"@) && next_day(today@).0 <= max_year() ==> r.deep_view()
            == Some(date_text(next_day(today@)) + " 12:00:00"@),
{
    let year = today.year();
    proof {
        law_due_rules(input@, month_text.deep_view(), day_text.deep_view(), today@);
    }
    if text_contains(input, "明天") {
        let t = match today.succ() {
            Some(n) => n,
            None => *today,
        };
        let mut s = t.to_text();
        s.append(" 12:00:00");
        return Some(s);
    }
    match (month_text, day_text) {
        (Some(mt), Some(dt)) => {
            let m: u32 = match parse_u32_text(mt.as_str()) {
                Some(v) => v,
                None => 1,
            };
            let d: u32 = match parse_u32_text(dt.as_str()) {
                Some(v) => v,
                None => 1,
            };
            match CalendarDate::new(year, m, d) {
                Some(date) => {
                    let mut s = date.to_text();
                    s.append(" 23:59:00");
                    Some(s)
                },
                None => None,
            }
        },
        _ => None,
    }
}

/// Reads a note, given the captures that the three patterns found in it
/// (`HOUR_PATTERN`, `MINUTE_PATTERN`, `DATE_PATTERN`, in that order) and
/// today's date.
pub fn parse_with_captures(
    input: &str,
    hour_caps: &Option<Vec<Option<String>>>,
    minute_caps: &Option<Vec<Option<String>>>,
    date_caps: &Option<Vec<Option<String>>>,
    today: &CalendarDate,
) -> (r: ParsedInput)
    ensures
        r.title@ == input@,
        r.task_type@ == task_type_of(input@),
        r.est_minutes == estimate_of(
            group_text(hour_caps.deep_view(), 1),
            group_text(minute_caps.deep_view(), 1),
        ),
        r.due_at.deep_view() == due_of(
            input@,
            group_text(date_caps.deep_view(), 1),
            group_text(date_caps.deep_view(), 2),
            today@,
        ),
{
    let hours = group_of(hour_caps, 1);
    let minutes = group_of(minute_caps, 1);
    let month_text = group_of(date_caps, 1);
    let day_text = group_of(date_caps, 2);
    ParsedInput {
        title: String::from_str(input),
        due_at: due_from(input, &month_text, &day_text, today),
        est_minutes: estimate_from(&hours, &minutes),
        task_type: task_type_from(input),
    }
}

/// Reads a free-text note into a task, with `today` as the current date. The
/// title is always the note itself.
pub fn parse_input(input: &str, today: &CalendarDate) -> (r: ParsedInput)
    ensures
        r.title@ == input@,
        r.task_type@ == task_type_of(input@),
        r.est_minutes == estimate_for(input@),
        r.due_at.deep_view() == due_for(input@, today@),
{
    let hour_caps = first_captures(HOUR_PATTERN, input);
    let minute_caps = first_captures(MINUTE_PATTERN, input);
    let date_caps = first_captures(DATE_PATTERN, input);
    parse_with_captures(input, &hour_caps, &minute_caps, &date_caps, today)
}

} // verus!
