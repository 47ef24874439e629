//! The weekly review: what was finished this week, how much focused time
//! went in this week and today, how often the English, training and
//! paper-reading habits were logged this week, and a one-line conclusion.
//!
//! Timestamps are texts such as `2024-04-10 13:45:12.5`; a row belongs to
//! the week (or the day) when its timestamp is, as text, at least the
//! midnight that starts the week (or the day), which is how the task store
//! compares them.

use vstd::prelude::*;
use vstd::string::StringExecFns;

use crate::calendar::{
    date_text, days_back, days_from_monday, is_valid_ymd, law_days_back, law_prev_day_number,
    prev_day, two_digits, week_start_of, year_text, zero_pad, CalendarDate,
};
use crate::text::{decimal, digit_char};
use crate::text::{
    contains_text, lemma_text_at_least_prefix, lemma_text_at_least_reflexive,
    lemma_text_at_least_transitive, text_at_least, text_at_least_exec, text_contains,
};

verus! {

/// A task as the review reads it.
pub struct TaskRow {
    pub status: String,
    pub updated_at: String,
}

/// A focus session as the review reads it.
pub struct FocusRow {
    pub minutes: i64,
    pub started_at: String,
}

/// One logged habit completion, with the name of its habit.
pub struct HabitLogRow {
    pub habit_name: String,
    pub logged_at: String,
}

/// The habits that the review counts, each recognised by words in its name.
#[derive(Clone, Copy, Debug, PartialEq, Eq, Structural)]
pub enum HabitKind {
    English,
    Training,
    Paper,
}

/// The weekly review.
pub struct WeeklyReview {
    pub done_tasks: i64,
    pub week_focus_minutes: i64,
    pub today_focus_minutes: i64,
    pub english_count: i64,
    pub training_count: i64,
    pub paper_count: i64,
    pub summary: String,
}

/// How many elements of `s` satisfy `p`.
pub open spec fn count_where<A>(s: Seq<A>, p: spec_fn(A) -> bool) -> int
    decreases s.len(),
{
    if s.len() == 0 {
        0
    } else {
        count_where(s.drop_last(), p) + if p(s.last()) {
            1int
        } else {
            0int
        }
    }
}

/// The midnight that starts the given day, as a timestamp text.
pub open spec fn midnight_text(t: (int, int, int)) -> Seq<char> {
    date_text(t) + " 00:00:00"@
}

/// A task that was marked done at or after `since`.
pub open spec fn is_done_since(t: TaskRow, since: Seq<char>) -> bool {
    t.status@ == "Done"@ && text_at_least(t.updated_at@, since)
}

/// Whether a habit's name marks it as a habit of the given kind.
pub open spec fn name_in_kind(name: Seq<char>, kind: HabitKind) -> bool {
    match kind {
        HabitKind::English => contains_text(name, "英语"@),
        HabitKind::Training => contains_text(name, "训练"@) || contains_text(name, "健身"@)
            || contains_text(name, "游泳"@) || contains_text(name, "攀岩"@),
        HabitKind::Paper => contains_text(name, "论文"@),
    }
}

/// A log of a habit of the given kind made at or after `since`.
pub open spec fn is_kind_log_since(l: HabitLogRow, kind: HabitKind, since: Seq<char>) -> bool {
    name_in_kind(l.habit_name@, kind) && text_at_least(l.logged_at@, since)
}

/// The minutes of the sessions that started at or after `since`, added in
/// order; `None` as soon as a running total leaves the `i64` range, where the
/// store reports an integer overflow.
pub open spec fn focus_total(rows: Seq<FocusRow>, since: Seq<char>) -> Option<int>
    decreases rows.len(),
{
    if rows.len() == 0 {
        Some(0)
    } else {
        match focus_total(rows.drop_last(), since) {
            Some(t) => {
                let r = rows.last();
                if text_at_least(r.started_at@, since) {
                    let u = t + r.minutes;
                    if i64::MIN <= u <= i64::MAX {
                        Some(u)
                    } else {
                        None
                    }
                } else {
                    Some(t)
                }
            },
            None => None,
        }
    }
}

/// The focus minutes that the review shows: the total, or 0 where it overflows.
pub open spec fn focus_minutes_of(rows: Seq<FocusRow>, since: Seq<char>) -> int {
    match focus_total(rows, since) {
        Some(t) => t,
        None => 0,
    }
}

/// The conclusion of the review, by the first rule that applies: fewer than
/// two training logs, no English log, no paper-reading log, or all is well.
pub open spec fn summary_of(training: int, english: int, paper: int) -> Seq<char> {
    if training < 2 {
        "本周训练不足"@
    } else if english == 0 {
        "英语学习断档"@
    } else if paper == 0 {
        "论文阅读未达标"@
    } else {
        "执行良好，下周保持节奏"@
    }
}

/// The review's conclusion, rule by rule: fewer than two training logs is
/// reported first, whatever else; with enough training, no English log is
/// reported, whatever the paper count; with both, no paper-reading log is
/// reported; with all three, the week went well.
pub proof fn law_summary_rules(training: int, english: int, paper: int)
    ensures
        training < 2 ==> summary_of(training, english, paper) == "本周训练不足"@,
        training >= 2 && english == 0 ==> summary_of(training, english, paper) == "英语学习断档"@,
        training >= 2 && english != 0 && paper == 0 ==> summary_of(training, english, paper)
            == "论文阅读未达标"@,
        training >= 2 && english != 0 && paper != 0 ==> summary_of(training, english, paper)
            == "执行良好，下周保持节奏"@,
{
}

/// Counting is additive: one more element adds one exactly when it satisfies
/// the condition, and nothing is counted in an empty sequence.
pub proof fn law_count_where_push<A>(s: Seq<A>, x: A, p: spec_fn(A) -> bool)
    ensures
        count_where(s.push(x), p) == count_where(s, p) + (if p(x) {
            1int
        } else {
            0int
        }),
        count_where(Seq::<A>::empty(), p) == 0,
{
    assert(s.push(x).drop_last() =~= s);
}

/// Midnight starts the day: every time of the day written as `HH:MM:SS...`
/// not before `00:00:00` gives a timestamp at or after the day's midnight.
pub proof fn law_midnight_starts_the_day(t: (int, int, int), time: Seq<char>)
    requires
        text_at_least(time, "00:00:00"@),
    ensures
        text_at_least(date_text(t) + " "@ + time, midnight_text(t)),
{
    let p = date_text(t) + " "@;
    assert(date_text(t) + " "@ + time =~= p + time);
    assert(" 00:00:00"@ =~= " "@ + "00:00:00"@) by {
        reveal_strlit(" 00:00:00");
        reveal_strlit(" ");
        reveal_strlit("00:00:00");
    }
    assert(midnight_text(t) =~= p + "00:00:00"@);
    lemma_text_at_least_prefix(p, time, "00:00:00"@);
}

/// A task counts as done in the week exactly when its status is `Done` and it
/// was last updated at or after the week's boundary.
pub proof fn law_done_since(t: TaskRow, since: Seq<char>)
    ensures
        is_done_since(t, since) <==> (t.status@ == "Done"@ && text_at_least(t.updated_at@, since)),
        t.status@ == "Done"@ && t.updated_at@ == since ==> is_done_since(t, since),
{
    if t.updated_at@ == since {
        lemma_text_at_least_reflexive(since);
    }
}

/// A habit is an English habit exactly when its name contains 英语, a
/// training habit exactly when it contains 训练, 健身, 游泳 or 攀岩, and a
/// paper-reading habit exactly when it contains 论文.
pub proof fn law_habit_kinds(name: Seq<char>)
    ensures
        name_in_kind(name, HabitKind::English) <==> contains_text(name, "英语"@),
        name_in_kind(name, HabitKind::Training) <==> (contains_text(name, "训练"@) || contains_text(
            name,
            "健身"@,
        ) || contains_text(name, "游泳"@) || contains_text(name, "攀岩"@)),
        name_in_kind(name, HabitKind::Paper) <==> contains_text(name, "论文"@),
{
}

/// How the focus total grows session by session: no sessions make 0; a
/// session before the boundary changes nothing; one at or after it adds its
/// minutes when the new total fits an `i64`; once the total has overflowed it
/// stays overflowed, and an overflowing total is shown as 0.
pub proof fn law_focus_total_steps(rows: Seq<FocusRow>, r: FocusRow, since: Seq<char>)
    ensures
        focus_total(Seq::<FocusRow>::empty(), since) == Some(0int),
        !text_at_least(r.started_at@, since) ==> focus_total(rows.push(r), since) == focus_total(
            rows,
            since,
        ),
        text_at_least(r.started_at@, since) && focus_total(rows, since) is Some && i64::MIN
            <= focus_total(rows, since)->0 + r.minutes <= i64::MAX ==> focus_total(
            rows.push(r),
            since,
        ) == Some(focus_total(rows, since)->0 + r.minutes),
        text_at_least(r.started_at@, since) && focus_total(rows, since) is Some && !(i64::MIN
            <= focus_total(rows, since)->0 + r.minutes <= i64::MAX) ==> focus_total(
            rows.push(r),
            since,
        ) is None,
        focus_total(rows, since) is None ==> focus_total(rows.push(r), since) is None,
        focus_total(rows, since) is None ==> focus_minutes_of(rows, since) == 0,
        focus_total(rows, since) is Some ==> focus_minutes_of(rows, since) == focus_total(
            rows,
            since,
        )->0,
{
    assert(rows.push(r).drop_last() =~= rows);
    assert(rows.push(r).last() == r);
}

proof fn lemma_count_where_bounds<A>(s: Seq<A>, p: spec_fn(A) -> bool)
    ensures
        0 <= count_where(s, p) <= s.len(),
    decreases s.len(),
{
    if s.len() > 0 {
        lemma_count_where_bounds(s.drop_last(), p);
    }
}

proof fn lemma_focus_total_overflow_stays(rows: Seq<FocusRow>, since: Seq<char>, k: int)
    requires
        0 <= k <= rows.len(),
        focus_total(rows.take(k), since) is None,
    ensures
        focus_total(rows, since) is None,
    decreases rows.len(),
{
    if k < rows.len() {
        assert(rows.drop_last().take(k) =~= rows.take(k));
        lemma_focus_total_overflow_stays(rows.drop_last(), since, k);
    } else {
        assert(rows.take(k) =~= rows);
    }
}

proof fn lemma_count_where_update<A>(s: Seq<A>, i: int, x: A, p: spec_fn(A) -> bool)
    requires
        0 <= i < s.len(),
    ensures
        count_where(s.update(i, x), p) == count_where(s, p) - (if p(s[i]) {
            1int
        } else {
            0int
        }) + (if p(x) {
            1int
        } else {
            0int
        }),
    decreases s.len(),
{
    let u = s.update(i, x);
    if i == s.len() - 1 {
        assert(u.drop_last() =~= s.drop_last());
    } else {
        assert(u.drop_last() =~= s.drop_last().update(i, x));
        lemma_count_where_update(s.drop_last(), i, x, p);
    }
}

/// Marking a task done within the week raises the week's count of finished
/// tasks by exactly one.
pub proof fn law_marking_done_counts_once(
    tasks: Seq<TaskRow>,
    i: int,
    marked: TaskRow,
    since: Seq<char>,
)
    requires
        0 <= i < tasks.len(),
        tasks[i].status@ != "Done"@,
        marked.status@ == "Done"@,
        text_at_least(marked.updated_at@, since),
    ensures
        count_where(tasks.update(i, marked), |t: TaskRow| is_done_since(t, since)) == count_where(
            tasks,
            |t: TaskRow| is_done_since(t, since),
        ) + 1,
{
    lemma_count_where_update(tasks, i, marked, |t: TaskRow| is_done_since(t, since));
}

/// A day's focus minutes are at most the week's: every session that started
/// on or after the day's boundary also started on or after the week's, when
/// the day's boundary is not before the week's and no session has negative
/// minutes. Where the day's total overflows so does the week's; the shown
/// minutes compare so unless the week's total overflows while the day's fits.
pub proof fn law_day_focus_within_week(rows: Seq<FocusRow>, day: Seq<char>, week: Seq<char>)
    requires
        text_at_least(day, week),
        forall|i: int| 0 <= i < rows.len() ==> #[trigger] rows[i].minutes >= 0,
    ensures
        focus_total(rows, week) matches Some(w) ==> (focus_total(rows, day) matches Some(d) && 0
            <= d <= w),
        focus_total(rows, day) is None ==> focus_total(rows, week) is None,
        (focus_total(rows, week) is Some || focus_total(rows, day) is None) ==> 0
            <= focus_minutes_of(rows, day) <= focus_minutes_of(rows, week),
    decreases rows.len(),
{
    if rows.len() > 0 {
        let init = rows.drop_last();
        assert forall|i: int| 0 <= i < init.len() implies #[trigger] init[i].minutes >= 0 by {
            assert(init[i] == rows[i]);
        }
        law_day_focus_within_week(init, day, week);
        let r = rows.last();
        assert(r.minutes >= 0);
        if text_at_least(r.started_at@, day) {
            lemma_text_at_least_transitive(r.started_at@, day, week);
        }
    }
}

/// Two-digit numerals compare as their numbers, whatever follows them.
proof fn lemma_two_digits_order(u: int, v: int, x: Seq<char>, y: Seq<char>)
    requires
        0 <= u < v <= 99,
    ensures
        text_at_least(two_digits(v) + x, two_digits(u) + y),
{
    let a = two_digits(v) + x;
    let b = two_digits(u) + y;
    assert(u / 10 <= v / 10 && 0 <= u / 10 <= 9 && 0 <= v / 10 <= 9 && 0 <= u % 10 <= 9 && 0
        <= v % 10 <= 9) by (nonlinear_arith)
        requires
            0 <= u < v <= 99,
    ;
    assert(a[0] == digit_char(v / 10));
    assert(b[0] == digit_char(u / 10));
    if u / 10 == v / 10 {
        assert(u % 10 < v % 10) by (nonlinear_arith)
            requires
                0 <= u < v,
                u / 10 == v / 10,
        ;
        let a1 = a.drop_first();
        let b1 = b.drop_first();
        assert(a1[0] == digit_char(v % 10));
        assert(b1[0] == digit_char(u % 10));
        assert((digit_char(v % 10) as u32) > (digit_char(u % 10) as u32));
        assert(text_at_least(a1, b1));
        assert(a[0] == b[0]);
    } else {
        assert((digit_char(v / 10) as u32) > (digit_char(u / 10) as u32));
    }
}

/// Years whose texts are in the same order as the years: the same year, two
/// years from 0 to 9999, a year before 0 and one from 0 to 9999, or two years
/// from 10000 on written with the same number of digits.
pub open spec fn year_texts_in_order(a: int, b: int) -> bool {
    ||| a == b
    ||| (0 <= a && b <= 9999)
    ||| (a < 0 && 0 <= b <= 9999)
    ||| (10000 <= a && decimal(a as nat).len() == decimal(b as nat).len())
}

proof fn lemma_decimal_len(n: nat)
    ensures
        decimal(n).len() >= 1,
        n < 10 ==> decimal(n).len() == 1,
        n >= 10 ==> decimal(n).len() == decimal(n / 10).len() + 1,
{
}

/// Decimal numerals of the same length compare as their numbers, whatever follows them.
proof fn lemma_decimal_order(u: nat, v: nat, x: Seq<char>, y: Seq<char>)
    requires
        u < v,
        decimal(u).len() == decimal(v).len(),
    ensures
        text_at_least(decimal(v) + x, decimal(u) + y),
    decreases v,
{
    lemma_decimal_len(u);
    lemma_decimal_len(v);
    if v < 10 {
        let a = decimal(v) + x;
        let b = decimal(u) + y;
        assert(a[0] == digit_char(v as int));
        assert(b[0] == digit_char(u as int));
        assert((digit_char(v as int) as u32) > (digit_char(u as int) as u32));
    } else {
        if u < 10 {
            lemma_decimal_len(v / 10);
            assert(false);
        }
        assert(u / 10 <= v / 10 && v / 10 < v && 0 <= u % 10 <= 9 && 0 <= v % 10 <= 9)
            by (nonlinear_arith)
            requires
                u < v,
                v >= 10,
        ;
        let pu = decimal(u / 10);
        let pv = decimal(v / 10);
        let du = seq![digit_char((u % 10) as int)];
        let dv = seq![digit_char((v % 10) as int)];
        assert(decimal(u) + y =~= pu + (du + y));
        assert(decimal(v) + x =~= pv + (dv + x));
        if u / 10 < v / 10 {
            lemma_decimal_order(u / 10, v / 10, dv + x, du + y);
        } else {
            assert(u % 10 < v % 10) by (nonlinear_arith)
                requires
                    u < v,
                    u / 10 == v / 10,
            ;
            assert((dv + x)[0] == digit_char((v % 10) as int));
            assert((du + y)[0] == digit_char((u % 10) as int));
            assert((digit_char((v % 10) as int) as u32) > (digit_char((u % 10) as int) as u32));
            lemma_text_at_least_prefix(pu, dv + x, du + y);
        }
    }
}

/// From year 10000 on a year is written as `+` and its numeral.
proof fn lemma_year_text_large(y: int)
    requires
        y >= 10000,
    ensures
        year_text(y) == seq!['+'] + decimal(y as nat),
{
    let n = y as nat;
    assert(n / 10 >= 1000 && (n / 10) / 10 >= 100 && ((n / 10) / 10) / 10 >= 10) by (nonlinear_arith)
        requires
            n >= 10000,
    ;
    lemma_decimal_len(n);
    lemma_decimal_len(n / 10);
    lemma_decimal_len((n / 10) / 10);
    lemma_decimal_len(((n / 10) / 10) / 10);
}

/// Year texts in order compare as the years, whatever follows them.
proof fn lemma_year_text_order(a: int, b: int, x: Seq<char>, y: Seq<char>)
    requires
        a < b,
        year_texts_in_order(a, b),
    ensures
        text_at_least(year_text(b) + x, year_text(a) + y),
{
    if 0 <= a && b <= 9999 {
        lemma_year_text_digits(a);
        lemma_year_text_digits(b);
        let ha = two_digits(a / 100);
        let la = two_digits(a % 100);
        let hb = two_digits(b / 100);
        let lb = two_digits(b % 100);
        assert(year_text(a) + y =~= ha + (la + y));
        assert(year_text(b) + x =~= hb + (lb + x));
        if a / 100 < b / 100 {
            lemma_two_digits_order(a / 100, b / 100, lb + x, la + y);
        } else {
            assert(a / 100 == b / 100 && a % 100 < b % 100 && 0 <= a % 100 && b % 100 <= 99)
                by (nonlinear_arith)
                requires
                    0 <= a < b,
                    !(a / 100 < b / 100),
            ;
            lemma_two_digits_order(a % 100, b % 100, x, y);
            lemma_text_at_least_prefix(ha, lb + x, la + y);
        }
    } else if a < 0 {
        lemma_year_text_digits(b);
        assert(0 <= b / 100 <= 99 && 0 <= (b / 100) / 10 <= 9) by (nonlinear_arith)
            requires
                0 <= b <= 9999,
        ;
        assert((year_text(b) + x)[0] == digit_char((b / 100) / 10));
        assert((year_text(a) + y)[0] == '-');
    } else {
        lemma_year_text_large(a);
        lemma_year_text_large(b);
        assert(year_text(a) + y =~= seq!['+'] + (decimal(a as nat) + y));
        assert(year_text(b) + x =~= seq!['+'] + (decimal(b as nat) + x));
        lemma_decimal_order(a as nat, b as nat, x, y);
        lemma_text_at_least_prefix(seq!['+'], decimal(b as nat) + x, decimal(a as nat) + y);
    }
}

/// Date texts compare as the dates when their year texts are in order,
/// whatever follows them.
proof fn lemma_date_text_order(a: (int, int, int), b: (int, int, int), x: Seq<char>)
    requires
        a.0 <= b.0,
        year_texts_in_order(a.0, b.0),
        1 <= a.1 <= 12,
        1 <= b.1 <= 12,
        1 <= a.2 <= 31,
        1 <= b.2 <= 31,
        a.0 < b.0 || (a.0 == b.0 && (a.1 < b.1 || (a.1 == b.1 && a.2 <= b.2))),
    ensures
        text_at_least(date_text(b) + x, date_text(a) + x),
{
    let dash = seq!['-'];
    let ra = dash + two_digits(a.1) + dash + two_digits(a.2) + x;
    let rb = dash + two_digits(b.1) + dash + two_digits(b.2) + x;
    assert(date_text(a) + x =~= year_text(a.0) + ra);
    assert(date_text(b) + x =~= year_text(b.0) + rb);
    if a.0 < b.0 {
        lemma_year_text_order(a.0, b.0, rb, ra);
    } else {
        let year = year_text(a.0) + dash;
        assert(year_text(a.0) + ra =~= year + (two_digits(a.1) + dash + two_digits(a.2) + x));
        assert(year_text(b.0) + rb =~= year + (two_digits(b.1) + dash + two_digits(b.2) + x));
        let ma = two_digits(a.1) + dash + two_digits(a.2) + x;
        let mb = two_digits(b.1) + dash + two_digits(b.2) + x;
        if a.1 < b.1 {
            lemma_two_digits_order(a.1, b.1, dash + two_digits(b.2) + x, dash + two_digits(a.2) + x);
            assert(two_digits(b.1) + (dash + two_digits(b.2) + x) =~= mb);
            assert(two_digits(a.1) + (dash + two_digits(a.2) + x) =~= ma);
        } else {
            let upto = two_digits(a.1) + dash;
            assert(upto + (two_digits(b.2) + x) =~= mb);
            assert(upto + (two_digits(a.2) + x) =~= ma);
            if a.2 < b.2 {
                lemma_two_digits_order(a.2, b.2, x, x);
            } else {
                lemma_text_at_least_reflexive(two_digits(a.2) + x);
            }
            lemma_text_at_least_prefix(upto, two_digits(b.2) + x, two_digits(a.2) + x);
        }
        lemma_text_at_least_prefix(year, mb, ma);
    }
}

/// A year from 0 to 9999 is written as its two high and two low digits.
proof fn lemma_year_text_digits(y: int)
    requires
        0 <= y <= 9999,
    ensures
        year_text(y) == two_digits(y / 100) + two_digits(y % 100),
{
    reveal_with_fuel(decimal, 5);
    let t = two_digits(y / 100) + two_digits(y % 100);
    assert((y / 100) / 10 == y / 1000 && (y / 100) % 10 == (y / 100) % 10 && (y % 100) / 10 == (y
        / 10) % 10 && (y % 100) % 10 == y % 10) by (nonlinear_arith)
        requires
            0 <= y,
    ;
    if y < 10 {
        assert(zero_pad(decimal(y as nat), 4) =~= t);
    } else if y < 100 {
        assert(decimal(y as nat) == seq![digit_char(y / 10), digit_char(y % 10)]);
        assert(zero_pad(decimal(y as nat), 4) =~= t);
    } else if y < 1000 {
        assert((y / 10) / 10 == y / 100 && (y / 10) % 10 == (y % 100) / 10) by (nonlinear_arith)
            requires
                0 <= y,
        ;
        assert(decimal(y as nat) =~= seq![
            digit_char(y / 100),
            digit_char((y / 10) % 10),
            digit_char(y % 10),
        ]);
        assert(zero_pad(decimal(y as nat), 4) =~= t);
    } else {
        assert((y / 10) / 10 == y / 100 && (y / 10) % 10 == (y % 100) / 10 && (y / 100) / 10
            == y / 1000 && (y / 100) % 10 == (y / 100) % 10) by (nonlinear_arith)
            requires
                0 <= y,
        ;
        assert(decimal(y as nat) =~= seq![
            digit_char(y / 1000),
            digit_char((y / 100) % 10),
            digit_char((y / 10) % 10),
            digit_char(y % 10),
        ]);
        assert(zero_pad(decimal(y as nat), 4) =~= t);
    }
}

/// Counting days back never moves forward in the calendar.
proof fn lemma_days_back_not_later(t: (int, int, int), n: nat)
    requires
        is_valid_ymd(t),
    ensures
        days_back(t, n) matches Some(p) ==> (p.0 < t.0 || (p.0 == t.0 && (p.1 < t.1 || (p.1
            == t.1 && p.2 <= t.2)))),
    decreases n,
{
    if n > 0 {
        lemma_days_back_not_later(t, (n - 1) as nat);
        law_days_back(t, (n - 1) as nat);
    }
}

/// The text of a day's midnight is not before that of its week's Monday
/// whenever the years of the two are written in order: in particular within
/// one year, in the years 0 to 9999, and from year 10000 on except in the
/// weeks that reach into a year written with one digit more.
pub proof fn law_day_boundary_after_week_boundary(t: (int, int, int))
    requires
        is_valid_ymd(t),
        year_texts_in_order(week_start_of(t).0, t.0),
    ensures
        text_at_least(midnight_text(t), midnight_text(week_start_of(t))),
{
    let w = days_from_monday(t) as nat;
    match days_back(t, w) {
        Some(m) => {
            lemma_days_back_not_later(t, w);
            law_days_back(t, w);
            lemma_date_text_order(m, t, " 00:00:00"@);
        },
        None => {
            lemma_text_at_least_reflexive(midnight_text(t));
        },
    }
}

/// In the weekly review, today's focus minutes are at most the week's, for
/// every week whose Monday's text is not after today's (as when their years
/// are written in order, see `law_day_boundary_after_week_boundary`), when no
/// session has negative minutes, unless the week's total overflows while
/// today's fits.
pub proof fn law_review_day_focus_within_week(sessions: Seq<FocusRow>, today: (int, int, int))
    requires
        text_at_least(midnight_text(today), midnight_text(week_start_of(today))),
        forall|i: int| 0 <= i < sessions.len() ==> #[trigger] sessions[i].minutes >= 0,
    ensures
        ({
            let day = midnight_text(today);
            let week = midnight_text(week_start_of(today));
            (focus_total(sessions, week) is Some || focus_total(sessions, day) is None) ==> 0
                <= focus_minutes_of(sessions, day) <= focus_minutes_of(sessions, week)
        }),
{
    law_day_focus_within_week(
        sessions,
        midnight_text(today),
        midnight_text(week_start_of(today)),
    );
}

/// The midnight that starts the given day, as a timestamp text.
pub fn midnight_of(d: &CalendarDate) -> (s: String)
    ensures
        s@ == midnight_text(d@),
{
    let mut s = d.to_text();
    s.append(" 00:00:00");
    s
}

/// How many tasks were marked done at or after `since`.
pub fn count_done_since(tasks: &Vec<TaskRow>, since: &str) -> (c: i64)
    requires
        tasks.len() <= i64::MAX,
    ensures
        c == count_where(tasks@, |t: TaskRow| is_done_since(t, since@)),
{
    let ghost p = |t: TaskRow| is_done_since(t, since@);
    let mut c: i64 = 0;
    let n = tasks.len();
    for i in 0..n
        invariant
            n == tasks@.len(),
            n <= i64::MAX,
            p == (|t: TaskRow| is_done_since(t, since@)),
            c == count_where(tasks@.take(i as int), p),
    {
        proof {
            assert(tasks@.take(i + 1).drop_last() =~= tasks@.take(i as int));
            lemma_count_where_bounds(tasks@.take(i as int), p);
        }
        let t = &tasks[i];
        let hit = t.status == String::from_str("Done") && text_at_least_exec(
            t.updated_at.as_str(),
            since,
        );
        proof {
            assert(tasks@.take(i + 1).last() == tasks@[i as int]);
            assert(hit == p(tasks@[i as int]));
        }
        if hit {
            c = c + 1;
        }
    }
    assert(tasks@.take(n as int) =~= tasks@);
    c
}

/// Whether a habit's name marks it as a habit of the given kind.
pub fn habit_in_kind(name: &str, kind: HabitKind) -> (b: bool)
    ensures
        b == name_in_kind(name@, kind),
        kind == HabitKind::English ==> (b <==> contains_text(name@, "英语"@)),
        kind == HabitKind::Training ==> (b <==> (contains_text(name@, "训练"@) || contains_text(
            name@,
            "健身"@,
        ) || contains_text(name@, "游泳"@) || contains_text(name@, "攀岩"@))),
        kind == HabitKind::Paper ==> (b <==> contains_text(name@, "论文"@)),
{
    proof {
        law_habit_kinds(name@);
    }
    match kind {
        HabitKind::English => text_contains(name, "英语"),
        HabitKind::Training => text_contains(name, "训练") || text_contains(name, "健身")
            || text_contains(name, "游泳") || text_contains(name, "攀岩"),
        HabitKind::Paper => text_contains(name, "论文"),
    }
}

/// How many habit logs of the given kind were made at or after `since`.
pub fn count_logs_since(logs: &Vec<HabitLogRow>, kind: HabitKind, since: &str) -> (c: i64)
    requires
        logs.len() <= i64::MAX,
    ensures
        c == count_where(logs@, |l: HabitLogRow| is_kind_log_since(l, kind, since@)),
{
    let ghost p = |l: HabitLogRow| is_kind_log_since(l, kind, since@);
    let mut c: i64 = 0;
    let n = logs.len();
    for i in 0..n
        invariant
            n == logs@.len(),
            n <= i64::MAX,
            p == (|l: HabitLogRow| is_kind_log_since(l, kind, since@)),
            c == count_where(logs@.take(i as int), p),
    {
        proof {
            assert(logs@.take(i + 1).drop_last() =~= logs@.take(i as int));
            lemma_count_where_bounds(logs@.take(i as int), p);
        }
        let l = &logs[i];
        let hit = habit_in_kind(l.habit_name.as_str(), kind) && text_at_least_exec(
            l.logged_at.as_str(),
            since,
        );
        proof {
            assert(logs@.take(i + 1).last() == logs@[i as int]);
            assert(hit == p(logs@[i as int]));
        }
        if hit {
            c = c + 1;
        }
    }
    assert(logs@.take(n as int) =~= logs@);
    c
}

/// The focus minutes of the sessions that started at or after `since`; 0 where
/// the total overflows an `i64` on the way.
pub fn focus_minutes_since(rows: &Vec<FocusRow>, since: &str) -> (m: i64)
    ensures
        m == focus_minutes_of(rows@, since@),
{
    let mut acc: i64 = 0;
    let n = rows.len();
    for i in 0..n
        invariant
            n == rows@.len(),
            focus_total(rows@.take(i as int), since@) == Some(acc as int),
    {
        proof {
            assert(rows@.take(i + 1).drop_last() =~= rows@.take(i as int));
        }
        let r = &rows[i];
        if text_at_least_exec(r.started_at.as_str(), since) {
            match acc.checked_add(r.minutes) {
                Some(v) => {
                    acc = v;
                },
                None => {
                    proof {
                        lemma_focus_total_overflow_stays(rows@, since@, i + 1);
                    }
                    return 0;
                },
            }
        }
    }
    assert(rows@.take(n as int) =~= rows@);
    acc
}

/// The conclusion of the review.
pub fn review_summary(training: i64, english: i64, paper: i64) -> (s: String)
    ensures
        s@ == summary_of(training as int, english as int, paper as int),
        training < 2 ==> s@ == "本周训练不足"@,
        training >= 2 && english == 0 ==> s@ == "英语学习断档"@,
        training >= 2 && english != 0 && paper == 0 ==> s@ == "论文阅读未达标"@,
        training >= 2 && english != 0 && paper != 0 ==> s@ == "执行良好，下周保持节奏"@,
{
    proof {
        law_summary_rules(training as int, english as int, paper as int);
    }
    if training < 2 {
        String::from_str("本周训练不足")
    } else if english == 0 {
        String::from_str("英语学习断档")
    } else if paper == 0 {
        String::from_str("论文阅读未达标")
    } else {
        String::from_str("执行良好，下周保持节奏")
    }
}

/// The weekly review on the given day. The week starts at midnight of its
/// Monday; the day at its own midnight.
pub fn weekly_review(
    tasks: &Vec<TaskRow>,
    sessions: &Vec<FocusRow>,
    logs: &Vec<HabitLogRow>,
    today: &CalendarDate,
) -> (r: WeeklyReview)
    requires
        tasks.len() <= i64::MAX,
        logs.len() <= i64::MAX,
    ensures
        ({
            let week = midnight_text(week_start_of(today@));
            let day = midnight_text(today@);
            &&& r.done_tasks == count_where(tasks@, |t: TaskRow| is_done_since(t, week))
            &&& r.week_focus_minutes == focus_minutes_of(sessions@, week)
            &&& r.today_focus_minutes == focus_minutes_of(sessions@, day)
            &&& r.english_count == count_where(
                logs@,
                |l: HabitLogRow| is_kind_log_since(l, HabitKind::English, week),
            )
            &&& r.training_count == count_where(
                logs@,
                |l: HabitLogRow| is_kind_log_since(l, HabitKind::Training, week),
            )
            &&& r.paper_count == count_where(
                logs@,
                |l: HabitLogRow| is_kind_log_since(l, HabitKind::Paper, week),
            )
            &&& r.summary@ == summary_of(
                r.training_count as int,
                r.english_count as int,
                r.paper_count as int,
            )
        }),
        0 <= r.done_tasks <= tasks.len(),
        0 <= r.english_count <= logs.len(),
        0 <= r.training_count <= logs.len(),
        0 <= r.paper_count <= logs.len(),
{
    let monday = today.week_start();
    let week = midnight_of(&monday);
    let day = midnight_of(today);
    let done_tasks = count_done_since(tasks, week.as_str());
    let week_focus_minutes = focus_minutes_since(sessions, week.as_str());
    let today_focus_minutes = focus_minutes_since(sessions, day.as_str());
    let english_count = count_logs_since(logs, HabitKind::English, week.as_str());
    let training_count = count_logs_since(logs, HabitKind::Training, week.as_str());
    let paper_count = count_logs_since(logs, HabitKind::Paper, week.as_str());
    let summary = review_summary(training_count, english_count, paper_count);
    proof {
        let w = week@;
        lemma_count_where_bounds(tasks@, |t: TaskRow| is_done_since(t, w));
        lemma_count_where_bounds(logs@, |l: HabitLogRow| is_kind_log_since(l, HabitKind::English, w));
        lemma_count_where_bounds(logs@, |l: HabitLogRow| is_kind_log_since(l, HabitKind::Training, w));
        lemma_count_where_bounds(logs@, |l: HabitLogRow| is_kind_log_since(l, HabitKind::Paper, w));
    }
    WeeklyReview {
        done_tasks,
        week_focus_minutes,
        today_focus_minutes,
        english_count,
        training_count,
        paper_count,
        summary,
    }
}

} // verus!
