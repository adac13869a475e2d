//! The inputs of the timeline requests and how they are read.

use vstd::prelude::*;

use crate::errors::{no_codes, period_errors, with_code, Error, FieldValidator, Validate,
    STATUS_UNPROCESSABLE_ENTITY};
use crate::file::{string_or_empty, text_or_empty};
use crate::repository::with_blank_check;
use crate::text::{lowercase, parse_i32, spec_parse_i32, split_commas, split_on};

verus! {

/// One span of work on a file as a client reports it.
pub struct NewTimelineData {
    pub timestamp: Option<i64>,
    pub time: Option<i64>,
}

impl Validate for NewTimelineData {
    open spec fn spec_field_errors(&self) -> Map<Seq<char>, Seq<Seq<char>>> {
        no_codes()
    }

    fn validate(&self) -> (res: Result<(), validator::ValidationErrors>) {
        Ok(())
    }
}

/// The field errors of a reported span of work: each missing field
/// cannot be blank.
pub open spec fn timeline_data_errors(d: NewTimelineData) -> Map<Seq<char>, Seq<Seq<char>>> {
    let m1 = if d.timestamp is None {
        with_code(no_codes(), "timestamp"@, "can't be blank"@)
    } else {
        no_codes()
    };
    if d.time is None {
        with_code(m1, "time"@, "can't be blank"@)
    } else {
        m1
    }
}

impl NewTimelineData {
    /// The `(timestamp, time)` a reported span of work is stored with;
    /// a validation error naming each missing field where one is missing.
    pub fn record(&self) -> (res: Result<(i64, i64), Error>)
        ensures
            res is Ok <==> self.timestamp is Some && self.time is Some,
            res matches Ok(r) ==> r == (self.timestamp->0, self.time->0),
            res is Err ==> (res->Err_0 matches Error::ValidationError(v) && v.codes()
                == timeline_data_errors(*self) && v.spec_status() == STATUS_UNPROCESSABLE_ENTITY && v.flat()),
    {
        let mut extractor = FieldValidator::validate(self);
        let timestamp = extractor.extract("timestamp", self.timestamp);
        let time = extractor.extract("time", self.time);
        match extractor.check() {
            Ok(()) => Ok((timestamp, time)),
            Err(e) => Err(e),
        }
    }
}

/// The query parameters of a timeline request.
pub struct TimelineParams {
    pub start: Option<i64>,
    pub end: Option<i64>,
    pub interval: Option<String>,
    pub timezone: Option<String>,
    pub cumulative: Option<bool>,
}

impl Validate for TimelineParams {
    open spec fn spec_field_errors(&self) -> Map<Seq<char>, Seq<Seq<char>>> {
        no_codes()
    }

    fn validate(&self) -> (res: Result<(), validator::ValidationErrors>) {
        Ok(())
    }
}

/// A read timeline request.
pub struct TimelineQuery {
    pub start: i64,
    pub end: i64,
    pub interval: String,
    pub timezone: String,
    pub cumulative: bool,
}

/// An optional number, 0 where it is missing.
pub open spec fn or_zero(n: Option<i64>) -> i64 {
    match n {
        Some(v) => v,
        None => 0,
    }
}

/// The field errors of timeline parameters: each missing one of start,
/// end, interval and timezone cannot be blank, then the period checks.
pub open spec fn timeline_params_errors(p: TimelineParams) -> Map<Seq<char>, Seq<Seq<char>>> {
    period_errors(
        with_blank_check(
            with_blank_check(with_blank_check(with_blank_check(no_codes(), "start"@, p.start), "end"@, p.end), "interval"@, p.interval),
            "timezone"@,
            p.timezone,
        ),
        or_zero(p.start) as int,
        or_zero(p.end) as int,
        lowercase(text_or_empty(p.interval)),
    )
}

impl TimelineParams {
    /// The request as read: every parameter present and the period valid,
    /// `cumulative` false where it is missing; else a validation error
    /// holding every field error.
    pub fn read(&self) -> (res: Result<TimelineQuery, Error>)
        requires
            i64::MIN <= or_zero(self.end) - or_zero(self.start) <= i64::MAX,
        ensures
            res is Ok <==> timeline_params_errors(*self).dom() == Set::<Seq<char>>::empty(),
            res matches Ok(q) ==> {
                &&& Some(q.start) == self.start
                &&& Some(q.end) == self.end
                &&& Some(q.interval) == self.interval
                &&& Some(q.timezone) == self.timezone
                &&& q.cumulative == match self.cumulative {
                    Some(c) => c,
                    None => false,
                }
            },
            res is Err ==> (res->Err_0 matches Error::ValidationError(v) && v.codes()
                == timeline_params_errors(*self) && v.spec_status() == STATUS_UNPROCESSABLE_ENTITY && v.flat()),
    {
        let mut validator = FieldValidator::validate(self);
        let start = validator.extract("start", self.start);
        let end = validator.extract("end", self.end);
        let interval = validator.extract("interval", self.interval.clone());
        let timezone = validator.extract("timezone", self.timezone.clone());
        let cumulative = match self.cumulative {
            Some(c) => c,
            None => false,
        };
        proof {
            if self.interval is None {
                assert(interval@ == text_or_empty(self.interval));
            }
        }
        validator.validate_timeline_period(start, end, interval.as_str());
        match validator.check() {
            Ok(()) => Ok(TimelineQuery { start, end, interval, timezone, cumulative }),
            Err(e) => Err(e),
        }
    }
}

/// The query parameters of a sub-directory timeline request, but for its
/// time threshold, a floating-point number that the answer's thresholds
/// are computed from outside the library.
pub struct SubdirTimelineParams {
    pub start: Option<i64>,
    pub end: Option<i64>,
    pub interval: Option<String>,
    pub timezone: Option<String>,
    pub depth: Option<i32>,
    pub lines_threshold: Option<i64>,
    pub cumulative: Option<bool>,
}

impl Validate for SubdirTimelineParams {
    open spec fn spec_field_errors(&self) -> Map<Seq<char>, Seq<Seq<char>>> {
        no_codes()
    }

    fn validate(&self) -> (res: Result<(), validator::ValidationErrors>) {
        Ok(())
    }
}

/// A read sub-directory timeline request.
pub struct SubdirTimelineQuery {
    pub start: i64,
    pub end: i64,
    pub interval: String,
    pub timezone: String,
    pub depth: i32,
    pub lines_threshold: Option<i64>,
    pub cumulative: bool,
}

/// The field errors of sub-directory timeline parameters: each missing one
/// of start, end, interval, timezone and depth cannot be blank, then the
/// period checks.
pub open spec fn subdir_params_errors(p: SubdirTimelineParams) -> Map<Seq<char>, Seq<Seq<char>>> {
    period_errors(
        with_blank_check(
            with_blank_check(
                with_blank_check(with_blank_check(with_blank_check(no_codes(), "start"@, p.start), "end"@, p.end), "interval"@, p.interval),
                "timezone"@,
                p.timezone,
            ),
            "depth"@,
            p.depth,
        ),
        or_zero(p.start) as int,
        or_zero(p.end) as int,
        lowercase(text_or_empty(p.interval)),
    )
}

impl SubdirTimelineParams {
    /// The request as read: every parameter but the thresholds present and
    /// the period valid, `cumulative` false where it is missing; else a
    /// validation error, answered with 422, holding every field error.
    pub fn read(&self) -> (res: Result<SubdirTimelineQuery, Error>)
        requires
            i64::MIN <= or_zero(self.end) - or_zero(self.start) <= i64::MAX,
        ensures
            res is Ok <==> subdir_params_errors(*self).dom() == Set::<Seq<char>>::empty(),
            res matches Ok(q) ==> {
                &&& Some(q.start) == self.start
                &&& Some(q.end) == self.end
                &&& Some(q.interval) == self.interval
                &&& Some(q.timezone) == self.timezone
                &&& Some(q.depth) == self.depth
                &&& q.lines_threshold == self.lines_threshold
                &&& q.cumulative == match self.cumulative {
                    Some(c) => c,
                    None => false,
                }
            },
            res is Err ==> (res->Err_0 matches Error::ValidationError(v) && v.codes()
                == subdir_params_errors(*self) && v.spec_status() == STATUS_UNPROCESSABLE_ENTITY && v.flat()),
    {
        let mut validator = FieldValidator::validate(self);
        let start = validator.extract("start", self.start);
        let end = validator.extract("end", self.end);
        let interval = validator.extract("interval", self.interval.clone());
        let timezone = validator.extract("timezone", self.timezone.clone());
        let depth = validator.extract("depth", self.depth);
        let cumulative = match self.cumulative {
            Some(c) => c,
            None => false,
        };
        proof {
            if self.interval is None {
                assert(interval@ == text_or_empty(self.interval));
            }
        }
        validator.validate_timeline_period(start, end, interval.as_str());
        match validator.check() {
            Ok(()) => Ok(
                SubdirTimelineQuery {
                    start,
                    end,
                    interval,
                    timezone,
                    depth,
                    lines_threshold: self.lines_threshold,
                    cumulative,
                },
            ),
            Err(e) => Err(e),
        }
    }
}

/// The query parameters of a timeline comparison request; groups,
/// repositories, branches and users are comma-separated lists.
pub struct ComparisonParams {
    pub groups: Option<String>,
    pub repo: Option<String>,
    pub branch: Option<String>,
    pub user: Option<String>,
    pub start: Option<i64>,
    pub end: Option<i64>,
    pub interval: Option<String>,
    pub timezone: Option<String>,
}

impl Validate for ComparisonParams {
    open spec fn spec_field_errors(&self) -> Map<Seq<char>, Seq<Seq<char>>> {
        no_codes()
    }

    fn validate(&self) -> (res: Result<(), validator::ValidationErrors>) {
        Ok(())
    }
}

/// A read timeline comparison request.
pub struct ComparisonQuery {
    pub groups: Vec<String>,
    pub repos: Vec<i32>,
    pub branches: Vec<String>,
    pub users: Vec<String>,
    pub start: i64,
    pub end: i64,
    pub interval: String,
    pub timezone: String,
}

/// The texts of a list of strings.
pub open spec fn texts(v: Seq<String>) -> Seq<Seq<char>> {
    v.map_values(|p: String| p@)
}

/// The repository ids of a list: each piece as an `i32`, -1 where it is
/// not one.
pub open spec fn repo_ids(pieces: Seq<Seq<char>>) -> Seq<int> {
    pieces.map_values(|p: Seq<char>| match spec_parse_i32(p) {
        Some(v) => v,
        None => -1,
    })
}

/// The values of a list of `i32`.
pub open spec fn as_ints(v: Seq<i32>) -> Seq<int> {
    v.map_values(|x: i32| x as int)
}

/// The non-empty pieces of a list, in order.
pub open spec fn nonempty_pieces(pieces: Seq<Seq<char>>) -> Seq<Seq<char>>
    decreases pieces.len(),
{
    if pieces.len() == 0 {
        Seq::empty()
    } else if pieces.last().len() > 0 {
        nonempty_pieces(pieces.drop_last()).push(pieces.last())
    } else {
        nonempty_pieces(pieces.drop_last())
    }
}

/// The field errors of comparison parameters: each missing one of
/// groups, start, end, interval and timezone cannot be blank, then the
/// period checks.
pub open spec fn comparison_params_errors(p: ComparisonParams) -> Map<Seq<char>, Seq<Seq<char>>> {
    period_errors(
        with_blank_check(
            with_blank_check(
                with_blank_check(
                    with_blank_check(with_blank_check(no_codes(), "groups"@, p.groups), "start"@, p.start),
                    "end"@,
                    p.end,
                ),
                "interval"@,
                p.interval,
            ),
            "timezone"@,
            p.timezone,
        ),
        or_zero(p.start) as int,
        or_zero(p.end) as int,
        lowercase(text_or_empty(p.interval)),
    )
}

fn parse_repo_ids(pieces: &Vec<String>) -> (res: Vec<i32>)
    ensures
        as_ints(res@) == repo_ids(texts(pieces@)),
{
    let mut res: Vec<i32> = Vec::new();
    let mut i: usize = 0;
    while i < pieces.len()
        invariant
            0 <= i <= pieces@.len(),
            res@.len() == i,
            as_ints(res@) == repo_ids(texts(pieces@)).take(i as int),
        decreases pieces@.len() - i,
    {
        let v = match parse_i32(pieces[i].as_str()) {
            Some(v) => v,
            None => -1,
        };
        let ghost before = res@;
        res.push(v);
        proof {
            assert(res@ == before.push(v));
            assert forall|k: int| 0 <= k < i implies as_ints(res@)[k] == as_ints(before)[k] by {}
            assert(texts(pieces@)[i as int] == pieces@[i as int]@);
            assert(repo_ids(texts(pieces@))[i as int] == v as int);
            assert(as_ints(res@) =~= repo_ids(texts(pieces@)).take(i + 1));
        }
        i = i + 1;
    }
    proof {
        assert(repo_ids(texts(pieces@)).take(i as int) =~= repo_ids(texts(pieces@)));
    }
    res
}

fn keep_nonempty(pieces: Vec<String>) -> (res: Vec<String>)
    ensures
        texts(res@) == nonempty_pieces(texts(pieces@)),
{
    let mut res: Vec<String> = Vec::new();
    let mut i: usize = 0;
    assert(texts(pieces@).take(0) =~= Seq::<Seq<char>>::empty());
    while i < pieces.len()
        invariant
            0 <= i <= pieces@.len(),
            texts(res@) == nonempty_pieces(texts(pieces@).take(i as int)),
        decreases pieces@.len() - i,
    {
        proof {
            assert(texts(pieces@).take(i + 1).drop_last() =~= texts(pieces@).take(i as int));
        }
        if !pieces[i].as_str().is_empty() {
            res.push(pieces[i].clone());
            proof {
                assert(texts(res@) =~= nonempty_pieces(texts(pieces@).take(i as int)).push(pieces@[i as int]@));
            }
        }
        i = i + 1;
    }
    proof {
        assert(texts(pieces@).take(i as int) =~= texts(pieces@));
    }
    res
}

impl ComparisonParams {
    /// The request as read: the lists split at commas (groups required,
    /// the others empty where missing), repository ids parsed (-1 where a
    /// piece is not a number), empty branch names dropped, every other
    /// parameter present and the period valid; else a validation error
    /// holding every field error.
    pub fn read(&self) -> (res: Result<ComparisonQuery, Error>)
        requires
            i64::MIN <= or_zero(self.end) - or_zero(self.start) <= i64::MAX,
        ensures
            res is Ok <==> comparison_params_errors(*self).dom() == Set::<Seq<char>>::empty(),
            res matches Ok(q) ==> {
                &&& texts(q.groups@) == split_on(text_or_empty(self.groups), ',')
                &&& as_ints(q.repos@) == repo_ids(split_on(text_or_empty(self.repo), ','))
                &&& texts(q.branches@) == nonempty_pieces(split_on(text_or_empty(self.branch), ','))
                &&& texts(q.users@) == split_on(text_or_empty(self.user), ',')
                &&& Some(q.start) == self.start
                &&& Some(q.end) == self.end
                &&& Some(q.interval) == self.interval
                &&& Some(q.timezone) == self.timezone
            },
            res is Err ==> (res->Err_0 matches Error::ValidationError(v) && v.codes()
                == comparison_params_errors(*self) && v.spec_status() == STATUS_UNPROCESSABLE_ENTITY && v.flat()),
    {
        let mut validator = FieldValidator::validate(self);
        let groups_text = validator.extract("groups", self.groups.clone());
        proof {
            if self.groups is None {
                assert(groups_text@ == text_or_empty(self.groups));
            }
        }
        let groups = split_commas(groups_text.as_str());
        let repos = parse_repo_ids(&split_commas(string_or_empty(&self.repo).as_str()));
        let branches = keep_nonempty(split_commas(string_or_empty(&self.branch).as_str()));
        let users = split_commas(string_or_empty(&self.user).as_str());
        let start = validator.extract("start", self.start);
        let end = validator.extract("end", self.end);
        let interval = validator.extract("interval", self.interval.clone());
        let timezone = validator.extract("timezone", self.timezone.clone());
        proof {
            if self.interval is None {
                assert(interval@ == text_or_empty(self.interval));
            }
        }
        validator.validate_timeline_period(start, end, interval.as_str());
        match validator.check() {
            Ok(()) => Ok(
                ComparisonQuery { groups, repos, branches, users, start, end, interval, timezone },
            ),
            Err(e) => Err(e),
        }
    }
}

} // verus!
