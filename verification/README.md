# timeblocks

The planning logic of a local-first desktop task planner, verified with Verus.

- `src/text.rs` — substring search, the byte-wise text order that the task
  store uses for timestamps, and integer numerals as `str::parse` reads them.
- `src/calendar.rs` — `CalendarDate`, dates as `chrono` represents them, with
  next day, days back, day of the week, week start and `YYYY-MM-DD` text,
  and the laws that relate them to a day count.
- `src/intake.rs` — reading a free-text note (`4月10日前交图论作业 预计6小时`)
  into a task kind, a time estimate and a due time; the note is always kept.
- `src/blocks.rs` — splitting an estimate into time blocks, with the laws that
  the blocks add up to the estimate and keep to the size rules.
- `src/tasks.rs` — the record stored for a captured task, and a task's progress
  after a focus session.
- `src/review.rs` — the weekly review: finished tasks, focus minutes, habit
  counts and the conclusion.
- `app/main.rs` — the Tauri shell: SQLite storage, the clock, and the commands.
