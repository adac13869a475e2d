//! Files of a commit: their records, their JSON form and their input.

use vstd::prelude::*;

use crate::errors::{no_codes, with_min_length_check, FieldErrorList, Validate};
use crate::timeline::resources::TimelineJson;
use crate::timeline::routes::NewTimelineData;

verus! {

/// A file changed in a commit, as stored.
pub struct File {
    pub id: i32,
    pub commit: i32,
    pub path: String,
    pub status: String,
    pub time: i64,
    pub lines_added: i64,
    pub lines_deleted: i64,
}

/// A file changed in a commit, with the spans of work recorded on it.
pub struct FileJson {
    pub id: i32,
    pub path: String,
    pub status: String,
    pub time: i64,
    pub lines_added: i64,
    pub lines_deleted: i64,
    pub timeline: Vec<TimelineJson>,
}

impl File {
    /// The file with the spans of work recorded on it.
    pub fn attach(self, timeline: Vec<TimelineJson>) -> (res: FileJson)
        ensures
            res.id == self.id,
            res.path == self.path,
            res.status == self.status,
            res.time == self.time,
            res.lines_added == self.lines_added,
            res.lines_deleted == self.lines_deleted,
            res.timeline == timeline,
    {
        FileJson {
            id: self.id,
            path: self.path,
            status: self.status,
            time: self.time,
            lines_added: self.lines_added,
            lines_deleted: self.lines_deleted,
            timeline,
        }
    }
}

/// A changed file as a client reports it. `path` and `status`, where
/// given, must not be empty.
pub struct NewFileData {
    pub path: Option<String>,
    pub status: Option<String>,
    pub time_total: Option<i64>,
    pub added_lines: Option<i64>,
    pub deleted_lines: Option<i64>,
    pub timeline: Vec<NewTimelineData>,
}

impl Validate for NewFileData {
    open spec fn spec_field_errors(&self) -> Map<Seq<char>, Seq<Seq<char>>> {
        with_min_length_check(with_min_length_check(no_codes(), "path"@, self.path), "status"@, self.status)
    }

    fn validate(&self) -> (res: Result<(), validator::ValidationErrors>) {
        let mut errors = FieldErrorList::new();
        errors.check_min_length("path", &self.path);
        errors.check_min_length("status", &self.status);
        errors.into_result()
    }
}

/// The columns a changed file is stored with.
pub struct NewFileRecord {
    pub path: String,
    pub status: String,
    pub time: i64,
    pub lines_added: i64,
    pub lines_deleted: i64,
}

/// The text of an optional string, empty where it is missing.
pub open spec fn text_or_empty(s: Option<String>) -> Seq<char> {
    match s {
        Some(v) => v@,
        None => Seq::empty(),
    }
}

/// An optional number, 0 where it is missing.
pub open spec fn number_or_zero(n: Option<i64>) -> i64 {
    match n {
        Some(v) => v,
        None => 0,
    }
}

impl NewFileData {
    /// The columns the file is stored with: each field as given, or its
    /// default (empty, 0) where it is missing. The errors found while
    /// reading the fields are not reported.
    pub fn record(&self) -> (res: NewFileRecord)
        ensures
            res.path@ == text_or_empty(self.path),
            res.status@ == text_or_empty(self.status),
            res.time == number_or_zero(self.time_total),
            res.lines_added == number_or_zero(self.added_lines),
            res.lines_deleted == number_or_zero(self.deleted_lines),
    {
        NewFileRecord {
            path: string_or_empty(&self.path),
            status: string_or_empty(&self.status),
            time: match self.time_total {
                Some(v) => v,
                None => 0,
            },
            lines_added: match self.added_lines {
                Some(v) => v,
                None => 0,
            },
            lines_deleted: match self.deleted_lines {
                Some(v) => v,
                None => 0,
            },
        }
    }
}

/// A copy of an optional string, empty where it is missing.
pub fn string_or_empty(s: &Option<String>) -> (res: String)
    ensures
        res@ == text_or_empty(*s),
{
    match s {
        Some(v) => v.clone(),
        None => String::new(),
    }
}

} // verus!
