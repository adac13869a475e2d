//! The values that the timeline computations produce.

use vstd::prelude::*;

verus! {

/// One recorded span of work as stored, by its id.
pub struct TimelineJson {
    pub id: i32,
    pub timestamp: i64,
    pub time: i64,
}

/// One interval of a timeline: `[start, end]` in UNIX seconds, the seconds
/// of work recorded in it and the users who recorded them, each once, in
/// the order in which they first appear.
pub struct Interval {
    pub start: i64,
    pub end: i64,
    pub time: i64,
    pub users: Vec<String>,
}

/// One slot of an activity profile (an hour of the day, a day of the week,
/// of the month, or a month of the year) with what was recorded in it.
/// `users` holds each user once.
pub struct Activity {
    pub id: i32,
    pub label: String,
    pub time: i64,
    pub lines_added: i64,
    pub lines_removed: i64,
    pub users: Vec<String>,
}

/// What was recorded under one directory within an interval. `commits`
/// and `users` hold each hash and each user once.
pub struct SubdirLevelTimelineEntry {
    pub path: String,
    pub time: i64,
    pub commits: Vec<String>,
    pub lines_added: i64,
    pub lines_removed: i64,
    pub users: Vec<String>,
}

/// One interval of the sub-directory timeline: its bounds in UNIX seconds
/// and one entry per directory, each directory once.
pub struct SubdirLevelTimeline {
    pub start: i64,
    pub end: i64,
    pub directories: Vec<SubdirLevelTimelineEntry>,
}

} // verus!
