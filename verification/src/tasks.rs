//! The records that the planner stores when a task is captured and when
//! focused time is spent on it.

use vstd::prelude::*;
use vstd::string::StringExecFns;

use crate::calendar::CalendarDate;
use crate::intake::{due_for, estimate_for, parse_input, task_type_of};

verus! {

/// A task as it is first stored: in the inbox, at the default priority, with
/// no time spent and no notes, keeping the note it was captured from.
pub struct NewTask {
    pub title: String,
    pub task_type: String,
    pub status: String,
    pub priority: i64,
    pub due_at: Option<String>,
    pub est_minutes: i64,
    pub spent_minutes: i64,
    pub notes: String,
    pub raw_input: String,
}

/// The task to store for a note captured on the day `today`.
pub fn new_task_from_input(input: &str, today: &CalendarDate) -> (r: NewTask)
    ensures
        r.title@ == input@,
        r.task_type@ == task_type_of(input@),
        r.status@ == "Inbox"@,
        r.priority == 3,
        r.due_at.deep_view() == due_for(input@, today@),
        r.est_minutes == estimate_for(input@),
        r.spent_minutes == 0,
        r.notes@ == Seq::<char>::empty(),
        r.raw_input@ == input@,
{
    let parsed = parse_input(input, today);
    NewTask {
        title: parsed.title,
        task_type: parsed.task_type,
        status: String::from_str("Inbox"),
        priority: 3,
        due_at: parsed.due_at,
        est_minutes: parsed.est_minutes,
        spent_minutes: 0,
        notes: String::new(),
        raw_input: String::from_str(input),
    }
}

/// The time spent on a task after a session of `minutes`, or `None` where it
/// does not fit an `i64`.
pub open spec fn spent_after(spent_minutes: int, minutes: int) -> Option<int> {
    let total = spent_minutes + minutes;
    if i64::MIN <= total <= i64::MAX {
        Some(total)
    } else {
        None
    }
}

/// A session's minutes are added to the time spent whenever the sum fits an
/// `i64`, and only then is there a result.
pub proof fn law_spent_after(spent_minutes: int, minutes: int)
    ensures
        spent_after(spent_minutes, minutes) is Some <==> i64::MIN <= spent_minutes + minutes
            <= i64::MAX,
        spent_after(spent_minutes, minutes) matches Some(t) ==> t == spent_minutes + minutes,
{
}

/// Two focus sessions add the same time in either order, whenever each running
/// total fits an `i64`.
pub proof fn law_focus_sessions_commute(spent_minutes: int, first: int, second: int)
    requires
        spent_after(spent_minutes, first) is Some,
        spent_after(spent_minutes, second) is Some,
        spent_after(spent_minutes + first, second) is Some,
    ensures
        spent_after(spent_minutes, first) matches Some(a) && spent_after(a, second) == Some(
            spent_minutes + first + second,
        ),
        spent_after(spent_minutes, second) matches Some(b) && spent_after(b, first) == Some(
            spent_minutes + first + second,
        ),
{
}

/// A task's progress after a focus session.
pub struct TaskProgress {
    pub spent_minutes: i64,
    pub status: String,
}

/// The progress of a task that had `spent_minutes` spent on it, after a focus
/// session of `minutes`: the session's minutes are added and the task is in
/// progress. `None` where the new total does not fit an `i64`.
pub fn after_focus(spent_minutes: i64, minutes: i64) -> (r: Option<TaskProgress>)
    ensures
        r is Some <==> spent_after(spent_minutes as int, minutes as int) is Some,
        r matches Some(p) ==> spent_after(spent_minutes as int, minutes as int) == Some(
            p.spent_minutes as int,
        ) && p.status@ == "Doing"@,
        r is Some <==> i64::MIN <= spent_minutes + minutes <= i64::MAX,
        r matches Some(p) ==> p.spent_minutes == spent_minutes + minutes,
{
    proof {
        law_spent_after(spent_minutes as int, minutes as int);
    }
    match spent_minutes.checked_add(minutes) {
        Some(total) => Some(TaskProgress { spent_minutes: total, status: String::from_str("Doing") }),
        None => None,
    }
}

} // verus!
