//! Planning logic of a local-first task planner: turning free-text task
//! notes into structured tasks, splitting estimates into time blocks,
//! calendar arithmetic for due dates and week boundaries, and the weekly
//! review that summarises a week of work.

pub mod text;
pub mod calendar;
pub mod intake;
pub mod blocks;
pub mod review;
pub mod tasks;
