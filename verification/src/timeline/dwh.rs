//! The rows that the timeline queries read from the database.

use vstd::prelude::*;

verus! {

/// One recorded span of work: who, how many seconds, when (UNIX seconds),
/// and the lines of the file it belongs to.
pub struct TimelineDWH {
    pub user: String,
    pub time: i64,
    pub timestamp: i64,
    pub lines_added: i64,
    pub lines_removed: i64,
}

/// One recorded span of work on a file, without the file's path.
pub struct PathlessFileEditDWH {
    pub user: String,
    pub time: i64,
    pub lines_added: i64,
    pub lines_deleted: i64,
    pub timestamp: i64,
}

/// One recorded span of work on a file, with its path and commit.
pub struct FileEditDWH {
    pub user: String,
    pub path: String,
    pub time: i64,
    pub lines_added: i64,
    pub lines_deleted: i64,
    pub timestamp: i64,
    pub commit_hash: String,
}

} // verus!
