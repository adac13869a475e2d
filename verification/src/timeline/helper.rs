//! Interval kinds, calendar steps, the intervals of a period and the slots
//! of an activity profile.

use vstd::prelude::*;

use crate::clock::{
    add_seconds, local_month, local_with_month, local_with_year, local_year, month_in,
    utc_add_seconds, with_month_in, with_year_in, year_in,
};
use crate::text::{push_char, str_eq, to_lowercase, lowercase};
use crate::timeline::resources::Activity;

verus! {

/// How an interval name is read once lowercased.
#[derive(PartialEq, Eq, Structural, Clone, Copy, Debug)]
pub enum IntervalKind {
    Hour,
    Day,
    Week,
    Month,
    Year,
    /// Any other name.
    Other,
}

/// The kind that a lowercased interval name stands for.
pub open spec fn kind_of(lowered: Seq<char>) -> IntervalKind {
    if lowered == "hour"@ {
        IntervalKind::Hour
    } else if lowered == "day"@ {
        IntervalKind::Day
    } else if lowered == "week"@ {
        IntervalKind::Week
    } else if lowered == "month"@ {
        IntervalKind::Month
    } else if lowered == "year"@ {
        IntervalKind::Year
    } else {
        IntervalKind::Other
    }
}

/// The kind of an already lowercased interval name.
pub fn classify_interval(lowered: &str) -> (res: IntervalKind)
    ensures
        res == kind_of(lowered@),
{
    if str_eq(lowered, "hour") {
        IntervalKind::Hour
    } else if str_eq(lowered, "day") {
        IntervalKind::Day
    } else if str_eq(lowered, "week") {
        IntervalKind::Week
    } else if str_eq(lowered, "month") {
        IntervalKind::Month
    } else if str_eq(lowered, "year") {
        IntervalKind::Year
    } else {
        IntervalKind::Other
    }
}

/// The kind of an interval name in any case.
pub fn interval_kind(interval: &str) -> (res: IntervalKind)
    ensures
        res == kind_of(lowercase(interval@)),
{
    let lowered = to_lowercase(interval);
    classify_interval(lowered.as_str())
}

/// The fixed length in seconds of an hourly, daily or weekly step, read
/// from a lowercased name: an hour, a day, and a week for any other name.
pub open spec fn spec_interval_duration(lowered: Seq<char>) -> int {
    if lowered == "hour"@ {
        3600
    } else if lowered == "day"@ {
        86400
    } else {
        604800
    }
}

/// The length in seconds of one step of a lowercased interval name.
pub fn get_interval_duration(interval: &str) -> (res: i64)
    ensures
        res == spec_interval_duration(interval@),
{
    if str_eq(interval, "hour") {
        3600
    } else if str_eq(interval, "day") {
        86400
    } else {
        604800
    }
}

/// The same local date and time one month later. Both the next month and
/// January of the following year are computed; the latter must exist, and
/// is taken where the next month does not have the date (after December,
/// or on a day the next month lacks).
pub open spec fn spec_next_month(tz: Seq<char>, ts: int) -> Option<int> {
    match (local_month(tz, ts), local_year(tz, ts)) {
        (Some(m), Some(y)) => match local_with_year(tz, ts, y + 1) {
            Some(a) => match local_with_month(tz, a, 1) {
                Some(b) => match local_with_month(tz, ts, m + 1) {
                    Some(c) => Some(c),
                    None => Some(b),
                },
                None => None,
            },
            None => None,
        },
        _ => None,
    }
}

/// The same local date and time one year later.
pub open spec fn spec_next_year(tz: Seq<char>, ts: int) -> Option<int> {
    match local_year(tz, ts) {
        Some(y) => local_with_year(tz, ts, y + 1),
        None => None,
    }
}

/// The start of the interval that follows the one starting at `ts`.
pub open spec fn spec_next_start(tz: Seq<char>, ts: int, kind: IntervalKind) -> Option<int> {
    match kind {
        IntervalKind::Hour => utc_add_seconds(ts, 3600),
        IntervalKind::Day => utc_add_seconds(ts, 86400),
        IntervalKind::Week => utc_add_seconds(ts, 604800),
        IntervalKind::Month => spec_next_month(tz, ts),
        _ => spec_next_year(tz, ts),
    }
}

/// Whether `b`, read in zone `tz`, lies in the calendar month after that
/// of `a`: the next month of the same year, or January of the next year.
pub open spec fn month_step(tz: Seq<char>, a: int, b: int) -> bool {
    local_month(tz, a) matches Some(m) && local_year(tz, a) matches Some(y) && (
    (local_month(tz, b) == Some(m + 1) && local_year(tz, b) == Some(y)) || (local_month(tz, b) == Some(
        1int,
    ) && local_year(tz, b) == Some(y + 1)))
}

/// Whether `b`, read in zone `tz`, lies in the same month of the year
/// after that of `a`.
pub open spec fn year_step(tz: Seq<char>, a: int, b: int) -> bool {
    local_year(tz, a) matches Some(y) && local_year(tz, b) == Some(y + 1) && local_month(tz, b)
        == local_month(tz, a)
}

/// Whether `b` is where an interval of this kind starting at `a` ends (the
/// next one starts): an hour, a day or a week of seconds later, the next
/// calendar month, or the same month a year later.
pub open spec fn kind_step(tz: Seq<char>, kind: IntervalKind, a: int, b: int) -> bool {
    match kind {
        IntervalKind::Hour => b == a + 3600,
        IntervalKind::Day => b == a + 86400,
        IntervalKind::Week => b == a + 604800,
        IntervalKind::Month => month_step(tz, a, b),
        _ => year_step(tz, a, b),
    }
}

/// `ts` moved one month on in zone `tz`; `None` where a step it takes fails.
pub fn next_month(tz: &str, ts: i64) -> (res: Option<i64>)
    ensures
        res is Some <==> spec_next_month(tz@, ts as int) is Some,
        res matches Some(r) ==> spec_next_month(tz@, ts as int) == Some(r as int),
        res matches Some(r) ==> month_step(tz@, ts as int, r as int),
{
    let m = match month_in(tz, ts) {
        Some(m) => m,
        None => return None,
    };
    let same_day_next_month = with_month_in(tz, ts, m + 1);
    let y = match year_in(tz, ts) {
        Some(y) => y,
        None => return None,
    };
    let a = match with_year_in(tz, ts, y + 1) {
        Some(a) => a,
        None => return None,
    };
    let january = match with_month_in(tz, a, 1) {
        Some(b) => b,
        None => return None,
    };
    match same_day_next_month {
        Some(c) => Some(c),
        None => Some(january),
    }
}

/// `ts` moved one year on in zone `tz`; `None` where that date does not exist.
pub fn next_year(tz: &str, ts: i64) -> (res: Option<i64>)
    ensures
        res is Some <==> spec_next_year(tz@, ts as int) is Some,
        res matches Some(r) ==> spec_next_year(tz@, ts as int) == Some(r as int),
        res matches Some(r) ==> year_step(tz@, ts as int, r as int),
{
    let y = match year_in(tz, ts) {
        Some(y) => y,
        None => return None,
    };
    with_year_in(tz, ts, y + 1)
}

/// The start of the next interval of the given kind after `ts`.
pub fn next_start(tz: &str, ts: i64, kind: IntervalKind) -> (res: Option<i64>)
    ensures
        res is Some <==> spec_next_start(tz@, ts as int, kind) is Some,
        res matches Some(r) ==> spec_next_start(tz@, ts as int, kind) == Some(r as int),
        res matches Some(r) ==> kind_step(tz@, kind, ts as int, r as int),
{
    match kind {
        IntervalKind::Hour => add_seconds(ts, 3600),
        IntervalKind::Day => add_seconds(ts, 86400),
        IntervalKind::Week => add_seconds(ts, 604800),
        IntervalKind::Month => next_month(tz, ts),
        _ => next_year(tz, ts),
    }
}

/// The start of the interval after the one starting at `ts`, for an
/// interval name in any case: `"hour"`, `"day"` and `"week"` step by their
/// length, `"month"` by a month and any other name by a year.
pub fn get_next_interval_start(tz: &str, ts: i64, interval: &str) -> (res: Option<i64>)
    ensures
        res is Some <==> spec_next_start(tz@, ts as int, kind_of(lowercase(interval@))) is Some,
        res matches Some(r) ==> spec_next_start(tz@, ts as int, kind_of(lowercase(interval@)))
            == Some(r as int),
        res matches Some(r) ==> kind_step(tz@, kind_of(lowercase(interval@)), ts as int, r as int),
{
    let lowered = to_lowercase(interval);
    let kind = classify_interval(lowered.as_str());
    if str_eq(lowered.as_str(), "hour") || str_eq(lowered.as_str(), "day") || str_eq(
        lowered.as_str(),
        "week",
    ) {
        return add_seconds(ts, get_interval_duration(lowered.as_str()));
    }
    if str_eq(lowered.as_str(), "month") {
        return next_month(tz, ts);
    }
    next_year(tz, ts)
}

/// The start of the `k`-th interval of a period that begins at `start`.
pub open spec fn nth_start(tz: Seq<char>, kind: IntervalKind, start: int, k: nat) -> Option<int>
    decreases k,
{
    if k == 0 {
        Some(start)
    } else {
        match nth_start(tz, kind, start, (k - 1) as nat) {
            Some(s) => spec_next_start(tz, s, kind),
            None => None,
        }
    }
}

/// Whether `bounds` lists, as `(start, end)` pairs, every interval of the
/// period `[start, end]`: each interval starts where the previous one
/// ended plus one second, ends one second before the next start, starts
/// no later than `end`, and the one after the last starts after `end`.
/// Each step moves forward, and the start after the next one exists too.
pub open spec fn is_interval_run(
    tz: Seq<char>,
    kind: IntervalKind,
    start: int,
    end: int,
    bounds: Seq<(i64, i64)>,
) -> bool {
    &&& forall|i: int|
        #![trigger bounds[i]]
        0 <= i < bounds.len() ==> {
            &&& nth_start(tz, kind, start, i as nat) == Some(bounds[i].0 as int)
            &&& bounds[i].0 <= end
            &&& nth_start(tz, kind, start, (i + 1) as nat) == Some(bounds[i].1 + 1)
            &&& utc_add_seconds(bounds[i].1 + 1, -1) == Some(bounds[i].1 as int)
            &&& bounds[i].0 < bounds[i].1 + 1
        }
    &&& nth_start(tz, kind, start, bounds.len()) matches Some(s) && s > end
    &&& nth_start(tz, kind, start, bounds.len() + 1) is Some
}

proof fn lemma_nth_none_stays(tz: Seq<char>, kind: IntervalKind, start: int, i: nat, j: nat)
    requires
        i <= j,
        nth_start(tz, kind, start, i) is None,
    ensures
        nth_start(tz, kind, start, j) is None,
    decreases j - i,
{
    if i < j {
        lemma_nth_none_stays(tz, kind, start, i, (j - 1) as nat);
    }
}

/// The intervals of the period from `start` to `end` (UNIX seconds, read in
/// zone `tz`), as `(start, end)` pairs: the first starts at `start`, each
/// ends one second before the next starts, and intervals follow while
/// their start is not after `end`. `None` where a calendar step that the
/// computation takes fails, or where a step does not move forward.
pub fn generate_intervals(tz: &str, start: i64, end: i64, kind: IntervalKind) -> (res: Option<
    Vec<(i64, i64)>,
>)
    ensures
        res matches Some(b) ==> is_interval_run(tz@, kind, start as int, end as int, b@),
        res matches Some(b) ==> forall|i: int|
            0 <= i < b@.len() ==> kind_step(tz@, kind, #[trigger] b@[i].0 as int, b@[i].1 + 1),
        res is None ==> forall|b: Seq<(i64, i64)>|
            !is_interval_run(tz@, kind, start as int, end as int, b),
{
    let ghost t = tz@;
    let mut bounds: Vec<(i64, i64)> = Vec::new();
    let mut cur_start = start;
    let mut cur_end = match next_start(tz, start, kind) {
        Some(e) => e,
        None => {
            proof {
                assert(nth_start(t, kind, start as int, 1) is None);
                assert forall|b: Seq<(i64, i64)>|
                    !is_interval_run(t, kind, start as int, end as int, b) by {
                    lemma_nth_none_stays(t, kind, start as int, 1, b.len() + 1);
                }
            }
            return None;
        },
    };
    assert(nth_start(t, kind, start as int, 1) == Some(cur_end as int));
    while cur_start <= end
        invariant
            t == tz@,
            nth_start(t, kind, start as int, bounds@.len()) == Some(cur_start as int),
            nth_start(t, kind, start as int, bounds@.len() + 1) == Some(cur_end as int),
            kind_step(t, kind, cur_start as int, cur_end as int),
            forall|i: int| 0 <= i < bounds@.len() ==> kind_step(t, kind, #[trigger] bounds@[i].0 as int, bounds@[i].1 + 1),
            forall|i: int|
                #![trigger bounds@[i]]
                0 <= i < bounds@.len() ==> {
                    &&& nth_start(t, kind, start as int, i as nat) == Some(bounds@[i].0 as int)
                    &&& bounds@[i].0 <= end
                    &&& nth_start(t, kind, start as int, (i + 1) as nat) == Some(bounds@[i].1 + 1)
                    &&& utc_add_seconds(bounds@[i].1 + 1, -1) == Some(bounds@[i].1 as int)
                    &&& bounds@[i].0 < bounds@[i].1 + 1
                },
        decreases if cur_start <= end { end - cur_start + 1 } else { 0 },
    {
        let k = Ghost(bounds@.len());
        let last = match add_seconds(cur_end, -1) {
            Some(e) => e,
            None => {
                proof {
                    assert forall|b: Seq<(i64, i64)>|
                        !is_interval_run(t, kind, start as int, end as int, b) by {
                        if is_interval_run(t, kind, start as int, end as int, b) {
                            if b.len() <= k@ {
                                if b.len() < k@ {
                                    let w = bounds@[b.len() as int];
                                    assert(w.0 <= end);
                                }
                            } else {
                                let w = b[k@ as int];
                            }
                        }
                    }
                }
                return None;
            },
        };
        let following = match next_start(tz, cur_end, kind) {
            Some(f) => f,
            None => {
                proof {
                    assert(nth_start(t, kind, start as int, k@ + 2) is None);
                    assert forall|b: Seq<(i64, i64)>|
                        !is_interval_run(t, kind, start as int, end as int, b) by {
                        if is_interval_run(t, kind, start as int, end as int, b) {
                            if b.len() <= k@ {
                                if b.len() < k@ {
                                    let w = bounds@[b.len() as int];
                                    assert(w.0 <= end);
                                }
                            } else {
                                lemma_nth_none_stays(t, kind, start as int, k@ + 2, b.len() + 1);
                            }
                        }
                    }
                }
                return None;
            },
        };
        if cur_end <= cur_start {
            proof {
                assert forall|b: Seq<(i64, i64)>|
                    !is_interval_run(t, kind, start as int, end as int, b) by {
                    if is_interval_run(t, kind, start as int, end as int, b) {
                        if b.len() <= k@ {
                            if b.len() < k@ {
                                let w = bounds@[b.len() as int];
                                assert(w.0 <= end);
                            }
                        } else {
                            let w = b[k@ as int];
                        }
                    }
                }
            }
            return None;
        }
        bounds.push((cur_start, last));
        proof {
            assert(nth_start(t, kind, start as int, k@ + 2) == Some(following as int));
        }
        cur_start = cur_end;
        cur_end = following;
    }
    Some(bounds)
}

/// The decimal digit character of `d`.
pub open spec fn digit_char(d: int) -> char {
    if d == 0 {
        '0'
    } else if d == 1 {
        '1'
    } else if d == 2 {
        '2'
    } else if d == 3 {
        '3'
    } else if d == 4 {
        '4'
    } else if d == 5 {
        '5'
    } else if d == 6 {
        '6'
    } else if d == 7 {
        '7'
    } else if d == 8 {
        '8'
    } else {
        '9'
    }
}

/// The decimal text of `n`, as `format!("{}", n)` writes it.
pub open spec fn decimal(n: nat) -> Seq<char>
    decreases n,
{
    if n < 10 {
        seq![digit_char(n as int)]
    } else {
        decimal(n / 10).push(digit_char((n % 10) as int))
    }
}

fn digit(d: u32) -> (c: char)
    requires
        d < 10,
    ensures
        c == digit_char(d as int),
{
    match d {
        0 => '0',
        1 => '1',
        2 => '2',
        3 => '3',
        4 => '4',
        5 => '5',
        6 => '6',
        7 => '7',
        8 => '8',
        _ => '9',
    }
}

/// The decimal text of `n`.
pub fn decimal_string(n: u32) -> (res: String)
    ensures
        res@ == decimal(n as nat),
    decreases n,
{
    if n < 10 {
        let mut s = String::new();
        push_char(&mut s, digit(n));
        assert(s@ =~= seq![digit_char(n as int)]);
        s
    } else {
        let mut s = decimal_string(n / 10);
        push_char(&mut s, digit(n % 10));
        s
    }
}

/// The English name of the `i`-th day of the week, Monday first.
pub open spec fn weekday_name(i: int) -> Seq<char> {
    if i == 0 {
        "Monday"@
    } else if i == 1 {
        "Tuesday"@
    } else if i == 2 {
        "Wednesday"@
    } else if i == 3 {
        "Thursday"@
    } else if i == 4 {
        "Friday"@
    } else if i == 5 {
        "Saturday"@
    } else {
        "Sunday"@
    }
}

/// How many slots an activity profile of this kind has: the hours of a
/// day, the days of a week, of a month (31) and the months of a year; none
/// for any other kind.
pub open spec fn slot_count(kind: IntervalKind) -> nat {
    match kind {
        IntervalKind::Day => 24,
        IntervalKind::Week => 7,
        IntervalKind::Month => 31,
        IntervalKind::Year => 12,
        _ => 0,
    }
}

/// The id of the `i`-th slot: the weekdays are numbered from 1 (Monday),
/// the others from 0.
pub open spec fn slot_id(kind: IntervalKind, i: int) -> int {
    match kind {
        IntervalKind::Week => i + 1,
        _ => i,
    }
}

/// The label of the `i`-th slot: the hour for a day, the weekday's name
/// for a week, the day of the month or the month counted from 1.
pub open spec fn slot_label(kind: IntervalKind, i: int) -> Seq<char> {
    match kind {
        IntervalKind::Day => decimal(i as nat),
        IntervalKind::Week => weekday_name(i),
        _ => decimal((i + 1) as nat),
    }
}

/// Whether `slots` is the empty activity profile of this kind: one slot
/// per `slot_count`, with its id and label, nothing recorded and no users.
pub open spec fn is_empty_profile(kind: IntervalKind, slots: Seq<Activity>) -> bool {
    &&& slots.len() == slot_count(kind)
    &&& forall|i: int|
        #![trigger slots[i]]
        0 <= i < slots.len() ==> {
            &&& slots[i].id == slot_id(kind, i)
            &&& slots[i].label@ == slot_label(kind, i)
            &&& slots[i].time == 0
            &&& slots[i].lines_added == 0
            &&& slots[i].lines_removed == 0
            &&& slots[i].users@.len() == 0
        }
}

fn empty_slot(id: i32, label: String) -> (res: Activity)
    ensures
        res.id == id,
        res.label == label,
        res.time == 0,
        res.lines_added == 0,
        res.lines_removed == 0,
        res.users@.len() == 0,
{
    Activity { id, label, time: 0, lines_added: 0, lines_removed: 0, users: Vec::new() }
}

/// The empty activity profile of an interval kind.
pub fn activity_slots(kind: IntervalKind) -> (res: Vec<Activity>)
    ensures
        is_empty_profile(kind, res@),
{
    let mut res: Vec<Activity> = Vec::new();
    match kind {
        IntervalKind::Day => {
            let mut i: u32 = 0;
            while i < 24
                invariant
                    0 <= i <= 24,
                    res@.len() == i,
                    forall|k: int|
                        #![trigger res@[k]]
                        0 <= k < i ==> {
                            &&& res@[k].id == slot_id(kind, k)
                            &&& res@[k].label@ == slot_label(kind, k)
                            &&& res@[k].time == 0
                            &&& res@[k].lines_added == 0
                            &&& res@[k].lines_removed == 0
                            &&& res@[k].users@.len() == 0
                        },
                    kind == IntervalKind::Day,
                decreases 24 - i,
            {
                res.push(empty_slot(i as i32, decimal_string(i)));
                i = i + 1;
            }
        },
        IntervalKind::Week => {
            let days = [
                "Monday",
                "Tuesday",
                "Wednesday",
                "Thursday",
                "Friday",
                "Saturday",
                "Sunday",
            ];
            let mut i: usize = 0;
            while i < 7
                invariant
                    0 <= i <= 7,
                    res@.len() == i,
                    days@.len() == 7,
                    forall|k: int| 0 <= k < 7 ==> #[trigger] days@[k]@ == weekday_name(k),
                    forall|k: int|
                        #![trigger res@[k]]
                        0 <= k < i ==> {
                            &&& res@[k].id == slot_id(kind, k)
                            &&& res@[k].label@ == slot_label(kind, k)
                            &&& res@[k].time == 0
                            &&& res@[k].lines_added == 0
                            &&& res@[k].lines_removed == 0
                            &&& res@[k].users@.len() == 0
                        },
                    kind == IntervalKind::Week,
                decreases 7 - i,
            {
                res.push(empty_slot((i + 1) as i32, String::from_str(days[i])));
                i = i + 1;
            }
        },
        IntervalKind::Month | IntervalKind::Year => {
            let n: u32 = if kind == IntervalKind::Month {
                31
            } else {
                12
            };
            let mut i: u32 = 0;
            while i < n
                invariant
                    0 <= i <= n,
                    n == slot_count(kind),
                    kind == IntervalKind::Month || kind == IntervalKind::Year,
                    res@.len() == i,
                    forall|k: int|
                        #![trigger res@[k]]
                        0 <= k < i ==> {
                            &&& res@[k].id == slot_id(kind, k)
                            &&& res@[k].label@ == slot_label(kind, k)
                            &&& res@[k].time == 0
                            &&& res@[k].lines_added == 0
                            &&& res@[k].lines_removed == 0
                            &&& res@[k].users@.len() == 0
                        },
                decreases n - i,
            {
                res.push(empty_slot(i as i32, decimal_string(i + 1)));
                i = i + 1;
            }
        },
        _ => {},
    }
    res
}

/// The empty activity profile for an interval name in any case: 24 hours
/// for `"day"`, 7 weekdays for `"week"`, 31 days for `"month"`, 12 months
/// for `"year"`, and no slot for any other name.
pub fn generate_activity_interval(interval: &str) -> (res: Vec<Activity>)
    ensures
        is_empty_profile(kind_of(lowercase(interval@)), res@),
{
    activity_slots(interval_kind(interval))
}

proof fn lemma_interval_order(
    tz: Seq<char>,
    kind: IntervalKind,
    start: int,
    end: int,
    b: Seq<(i64, i64)>,
    i: int,
    k: int,
)
    requires
        is_interval_run(tz, kind, start, end, b),
        0 <= i < k < b.len(),
    ensures
        b[i].1 < b[k].0,
    decreases k - i,
{
    let x = b[i];
    let y = b[i + 1];
    if k > i + 1 {
        lemma_interval_order(tz, kind, start, end, b, i + 1, k);
    }
}

/// The intervals of a period follow one another without gap or overlap:
/// the first starts at the period's start, each ends one second before
/// the next starts, and each is at least a second long.
pub proof fn law_intervals_contiguous(
    tz: Seq<char>,
    kind: IntervalKind,
    start: int,
    end: int,
    b: Seq<(i64, i64)>,
)
    requires
        is_interval_run(tz, kind, start, end, b),
    ensures
        b.len() > 0 ==> b[0].0 == start,
        forall|i: int| 0 <= i < b.len() ==> #[trigger] b[i].0 <= b[i].1,
        forall|i: int| 0 <= i < b.len() - 1 ==> #[trigger] b[i].1 + 1 == b[i + 1].0,
{
    if b.len() > 0 {
        let x = b[0];
    }
    assert forall|i: int| 0 <= i < b.len() - 1 implies #[trigger] b[i].1 + 1 == b[i + 1].0 by {
        let x = b[i];
        let y = b[i + 1];
    }
}

/// A period has intervals exactly when it is not empty.
pub proof fn law_intervals_exist_iff_period_nonempty(
    tz: Seq<char>,
    kind: IntervalKind,
    start: int,
    end: int,
    b: Seq<(i64, i64)>,
)
    requires
        is_interval_run(tz, kind, start, end, b),
    ensures
        b.len() > 0 <==> start <= end,
{
    if b.len() > 0 {
        let x = b[0];
    }
}

proof fn lemma_last_start_at_most(
    tz: Seq<char>,
    kind: IntervalKind,
    start: int,
    end: int,
    b: Seq<(i64, i64)>,
    t: int,
    i: int,
) -> (k: int)
    requires
        is_interval_run(tz, kind, start, end, b),
        0 <= i < b.len(),
        b[i].0 <= t <= end,
    ensures
        i <= k < b.len(),
        b[k].0 <= t <= b[k].1,
    decreases b.len() - i,
{
    let x = b[i];
    if i + 1 < b.len() {
        let y = b[i + 1];
        if y.0 <= t {
            return lemma_last_start_at_most(tz, kind, start, end, b, t, i + 1);
        }
    }
    i
}

/// Every second of a period lies in exactly one of its intervals.
pub proof fn law_intervals_cover_period(
    tz: Seq<char>,
    kind: IntervalKind,
    start: int,
    end: int,
    b: Seq<(i64, i64)>,
    t: int,
)
    requires
        is_interval_run(tz, kind, start, end, b),
        start <= t <= end,
    ensures
        exists|i: int| 0 <= i < b.len() && #[trigger] b[i].0 <= t <= b[i].1,
        forall|i: int, k: int|
            0 <= i < b.len() && 0 <= k < b.len() && #[trigger] b[i].0 <= t <= b[i].1
                && #[trigger] b[k].0 <= t <= b[k].1 ==> i == k,
{
    law_intervals_exist_iff_period_nonempty(tz, kind, start, end, b);
    let x = b[0];
    let k = lemma_last_start_at_most(tz, kind, start, end, b, t, 0);
    assert forall|i: int, j: int|
        0 <= i < b.len() && 0 <= j < b.len() && #[trigger] b[i].0 <= t <= b[i].1
            && #[trigger] b[j].0 <= t <= b[j].1 implies i == j by {
        if i < j {
            lemma_interval_order(tz, kind, start, end, b, i, j);
        } else if j < i {
            lemma_interval_order(tz, kind, start, end, b, j, i);
        }
    }
}

/// A period has one run of intervals: any two runs for the same zone,
/// kind and period are the same.
pub proof fn law_interval_run_unique(
    tz: Seq<char>,
    kind: IntervalKind,
    start: int,
    end: int,
    b1: Seq<(i64, i64)>,
    b2: Seq<(i64, i64)>,
)
    requires
        is_interval_run(tz, kind, start, end, b1),
        is_interval_run(tz, kind, start, end, b2),
    ensures
        b1 == b2,
{
    if b1.len() < b2.len() {
        let y = b2[b1.len() as int];
        assert(false);
    }
    if b2.len() < b1.len() {
        let x = b1[b2.len() as int];
        assert(false);
    }
    assert forall|i: int| 0 <= i < b1.len() implies b1[i] == b2[i] by {
        let x = b1[i];
        let y = b2[i];
    }
    assert(b1 =~= b2);
}

} // verus!
