//! Turning recorded work into timelines: by interval, by activity slot and
//! by directory.

use vstd::prelude::*;

use crate::clock::{
    day0_in, hour_in, in_chrono_range, is_tz_name, local_day0, local_hour, local_month0,
    local_weekday, month0_in, timestamp_in_range, tz_name_is_valid, weekday_in,
};
use crate::tally::{
    distinct_of, lemma_distinct_step,
    lemma_sum_step, lemma_take_all, push_if_absent, sum_of, views, lemma_absent_key,
    lemma_distinct_unique, lemma_sum_mono, keyed, sum_by_keys, lemma_sum_by_distinct_keys, either, lemma_sum_disjoint, lemma_sum_none,
    kept, lemma_kept_same, lemma_kept_running_sums, every, lemma_sum_same_on, lemma_distinct_same_on,
};
use crate::text::{cut_path, ends_with, has_suffix, lowercase, spec_cut_path, to_lowercase};
use crate::timeline::dwh::{FileEditDWH, PathlessFileEditDWH, TimelineDWH};
use crate::timeline::helper::{
    activity_slots, classify_interval, generate_intervals, interval_kind,
    is_interval_run, kind_of, kind_step, law_intervals_contiguous, law_interval_run_unique, slot_count, slot_id, slot_label,
    IntervalKind,
};
use crate::timeline::resources::{Activity, Interval, SubdirLevelTimeline, SubdirLevelTimelineEntry};

verus! {

/// Whether an item recorded at `ts` falls in the interval `b`: before its
/// end, and not before its start unless the timeline is cumulative.
pub open spec fn within(b: (i64, i64), ts: int, cumulative: bool) -> bool {
    (b.0 <= ts || cumulative) && ts < b.1
}

/// Whether the `i`-th interval takes an item recorded at `ts`: a
/// cumulative timeline counts it in every interval it falls in, another
/// only in the first.
pub open spec fn takes(bounds: Seq<(i64, i64)>, i: int, ts: int, cumulative: bool) -> bool {
    within(bounds[i], ts, cumulative) && (cumulative || forall|k: int|
        0 <= k < i ==> !within(#[trigger] bounds[k], ts, cumulative))
}

/// The rows that the `i`-th interval of a timeline takes.
pub open spec fn timeline_sel(bounds: Seq<(i64, i64)>, i: int, cumulative: bool) -> spec_fn(
    TimelineDWH,
) -> bool {
    |x: TimelineDWH| takes(bounds, i, x.timestamp as int, cumulative)
}

/// The seconds of work of a row.
pub open spec fn timeline_time() -> spec_fn(TimelineDWH) -> int {
    |x: TimelineDWH| x.time as int
}

/// The user of a row.
pub open spec fn timeline_user() -> spec_fn(TimelineDWH) -> Seq<char> {
    |x: TimelineDWH| x.user@
}

/// The `(start, end)` pairs of a list of intervals.
pub open spec fn interval_bounds(v: Seq<Interval>) -> Seq<(i64, i64)> {
    v.map_values(|iv: Interval| (iv.start, iv.end))
}

/// Whether `res` is the timeline of `data` over the intervals `bounds`:
/// one interval per pair, holding the seconds of work and the users, each
/// once in order of first appearance, of the rows it takes.
pub open spec fn is_timeline(
    data: Seq<TimelineDWH>,
    bounds: Seq<(i64, i64)>,
    cumulative: bool,
    res: Seq<Interval>,
) -> bool {
    &&& res.len() == bounds.len()
    &&& forall|i: int|
        #![trigger res[i]]
        0 <= i < res.len() ==> {
            &&& res[i].start == bounds[i].0
            &&& res[i].end == bounds[i].1
            &&& res[i].time == sum_of(data, timeline_sel(bounds, i, cumulative), timeline_time())
            &&& views(res[i].users@) == distinct_of(
                data,
                timeline_sel(bounds, i, cumulative),
                timeline_user(),
            )
        }
}

/// Whether a value fits in an `i64`.
pub open spec fn in_i64(v: int) -> bool {
    i64::MIN <= v <= i64::MAX
}

/// Whether the running seconds of work of every interval fit in an `i64`
/// over the first `m` rows, that is, each sum the intervals pass through
/// while the rows are added in order.
pub open spec fn timeline_fits_upto(
    data: Seq<TimelineDWH>,
    bounds: Seq<(i64, i64)>,
    cumulative: bool,
    m: int,
) -> bool {
    forall|i: int, j: int|
        0 <= i < bounds.len() && 0 <= j <= m ==> in_i64(
            #[trigger] sum_of(data.take(j), timeline_sel(bounds, i, cumulative), timeline_time()),
        )
}

/// Whether every running sum of a timeline fits in an `i64`.
pub open spec fn timeline_sums_fit(data: Seq<TimelineDWH>, bounds: Seq<(i64, i64)>, cumulative: bool) -> bool {
    timeline_fits_upto(data, bounds, cumulative, data.len() as int)
}

/// The timeline of `data` over the given intervals; `None` where a running
/// sum of an interval would leave the `i64` range.
pub fn fill_timeline(data: &Vec<TimelineDWH>, bounds: &Vec<(i64, i64)>, cumulative: bool) -> (res:
    Option<Vec<Interval>>)
    ensures
        res is Some <==> timeline_sums_fit(data@, bounds@, cumulative),
        res matches Some(v) ==> is_timeline(data@, bounds@, cumulative, v@),
{
    let n = bounds.len();
    let mut intervals: Vec<Interval> = Vec::new();
    let mut i: usize = 0;
    while i < n
        invariant
            n == bounds@.len(),
            0 <= i <= n,
            intervals@.len() == i,
            forall|k: int|
                #![trigger intervals@[k]]
                0 <= k < i ==> {
                    &&& intervals@[k].start == bounds@[k].0
                    &&& intervals@[k].end == bounds@[k].1
                    &&& intervals@[k].time == 0
                    &&& intervals@[k].users@.len() == 0
                },
        decreases n - i,
    {
        intervals.push(Interval { start: bounds[i].0, end: bounds[i].1, time: 0, users: Vec::new() });
        i = i + 1;
    }
    proof {
        assert forall|k: int| 0 <= k < n implies {
            &&& intervals@[k].time == sum_of(
                data@.take(0),
                timeline_sel(bounds@, k, cumulative),
                timeline_time(),
            )
            &&& views(intervals@[k].users@) == distinct_of(
                data@.take(0),
                timeline_sel(bounds@, k, cumulative),
                timeline_user(),
            )
        } by {
            assert(data@.take(0).len() == 0);
            assert(views(intervals@[k].users@) =~= Seq::<Seq<char>>::empty());
        }
    }
    let mut j: usize = 0;
    while j < data.len()
        invariant
            n == bounds@.len(),
            0 <= j <= data@.len(),
            timeline_fits_upto(data@, bounds@, cumulative, j as int),
            intervals@.len() == n,
            forall|k: int|
                #![trigger intervals@[k]]
                0 <= k < n ==> {
                    &&& intervals@[k].start == bounds@[k].0
                    &&& intervals@[k].end == bounds@[k].1
                    &&& intervals@[k].time == sum_of(
                        data@.take(j as int),
                        timeline_sel(bounds@, k, cumulative),
                        timeline_time(),
                    )
                    &&& views(intervals@[k].users@) == distinct_of(
                        data@.take(j as int),
                        timeline_sel(bounds@, k, cumulative),
                        timeline_user(),
                    )
                },
        decreases data@.len() - j,
    {
        let x = &data[j];
        let mut i: usize = 0;
        let mut taken = false;
        while i < n && !taken
            invariant
                n == bounds@.len(),
                0 <= j < data@.len(),
                *x == data@[j as int],
                0 <= i <= n,
                intervals@.len() == n,
                taken ==> !cumulative && i > 0 && within(bounds@[i - 1], x.timestamp as int, cumulative),
                !taken && !cumulative ==> forall|k: int|
                    0 <= k < i ==> !within(#[trigger] bounds@[k], x.timestamp as int, cumulative),
                forall|k: int|
                    #![trigger intervals@[k]]
                    0 <= k < n ==> {
                        &&& intervals@[k].start == bounds@[k].0
                        &&& intervals@[k].end == bounds@[k].1
                        &&& intervals@[k].time == sum_of(
                            data@.take(if k < i { j + 1 } else { j as int }),
                            timeline_sel(bounds@, k, cumulative),
                            timeline_time(),
                        )
                        &&& views(intervals@[k].users@) == distinct_of(
                            data@.take(if k < i { j + 1 } else { j as int }),
                            timeline_sel(bounds@, k, cumulative),
                            timeline_user(),
                        )
                    },
            decreases n - i,
        {
            proof {
                lemma_sum_step(data@, j as int, timeline_sel(bounds@, i as int, cumulative), timeline_time());
                lemma_distinct_step(data@, j as int, timeline_sel(bounds@, i as int, cumulative), timeline_user());
            }
            if (intervals[i].start <= x.timestamp || cumulative) && x.timestamp < intervals[i].end {
                let t = match intervals[i].time.checked_add(x.time) {
                    Some(t) => t,
                    None => {
                        proof {
                            assert(takes(bounds@, i as int, x.timestamp as int, cumulative));
                            assert(!in_i64(
                                sum_of(data@.take(j + 1), timeline_sel(bounds@, i as int, cumulative), timeline_time()),
                            ));
                        }
                        return None;
                    },
                };
                intervals[i].time = t;
                push_if_absent(&mut intervals[i].users, &x.user);
                if !cumulative {
                    taken = true;
                }
            }
            i = i + 1;
        }
        proof {
            assert forall|k: int| 0 <= k < n implies {
                &&& intervals@[k].time == sum_of(
                    data@.take(j + 1),
                    timeline_sel(bounds@, k, cumulative),
                    timeline_time(),
                )
                &&& views(intervals@[k].users@) == distinct_of(
                    data@.take(j + 1),
                    timeline_sel(bounds@, k, cumulative),
                    timeline_user(),
                )
            } by {
                if k >= i {
                    lemma_sum_step(data@, j as int, timeline_sel(bounds@, k, cumulative), timeline_time());
                    lemma_distinct_step(data@, j as int, timeline_sel(bounds@, k, cumulative), timeline_user());
                    assert(!within(bounds@[i - 1], x.timestamp as int, cumulative) ==> false);
                    assert(!takes(bounds@, k, x.timestamp as int, cumulative));
                }
            }
            assert forall|k: int, q: int| 0 <= k < n && 0 <= q <= j + 1 implies in_i64(
                #[trigger] sum_of(data@.take(q), timeline_sel(bounds@, k, cumulative), timeline_time()),
            ) by {
                if q == j + 1 {
                    assert(intervals@[k].time == sum_of(
                        data@.take(j + 1),
                        timeline_sel(bounds@, k, cumulative),
                        timeline_time(),
                    ));
                }
            }
        }
        j = j + 1;
    }
    proof {
        lemma_take_all(data@);
    }
    Some(intervals)
}

/// Whether a period can be read in a zone: the zone name parses, and both
/// ends are timestamps from the epoch on that `chrono` can represent.
pub open spec fn period_readable(tz: Seq<char>, start: int, end: int) -> bool {
    &&& is_tz_name(tz)
    &&& 0 <= start && in_chrono_range(start)
    &&& 0 <= end && in_chrono_range(end)
}

/// The date-time `seconds` after the epoch in the named zone, as a
/// timestamp: `None` for a zone name that does not parse, a negative
/// count, or one beyond `chrono`'s range.
pub fn get_datetime_tz_from_seconds(seconds: i64, timezone: &str) -> (res: Option<i64>)
    ensures
        res == (if 0 <= seconds && is_tz_name(timezone@) && in_chrono_range(seconds as int) {
            Some(seconds)
        } else {
            None
        }),
{
    if seconds < 0 || !tz_name_is_valid(timezone) || !timestamp_in_range(seconds) {
        None
    } else {
        Some(seconds)
    }
}

/// The rows that an interval from `start` to `end` of a timeline counts:
/// those recorded before its end, and in a timeline that is not
/// cumulative not before its start.
pub open spec fn rows_recorded_in(start: int, end: int, cumulative: bool) -> spec_fn(TimelineDWH) -> bool {
    |x: TimelineDWH| (cumulative || start <= x.timestamp) && x.timestamp < end
}

/// The user a row was recorded by.
pub open spec fn recorded_by() -> spec_fn(TimelineDWH) -> Seq<char> {
    |x: TimelineDWH| x.user@
}

/// What each interval of a timeline holds, by time: a cumulative timeline
/// counts in an interval every row recorded before its end; one that is
/// not cumulative, over intervals each of which ends before the next
/// starts, counts the rows recorded from its start to before its end. The
/// interval holds their seconds of work and their users, each once, in
/// order of first appearance.
pub proof fn law_timeline_interval_rows(
    data: Seq<TimelineDWH>,
    bounds: Seq<(i64, i64)>,
    cumulative: bool,
    res: Seq<Interval>,
    i: int,
)
    requires
        is_timeline(data, bounds, cumulative, res),
        0 <= i < res.len(),
        !cumulative ==> forall|k: int| 0 <= k < i ==> #[trigger] bounds[k].1 <= bounds[i].0,
    ensures
        res[i].time == sum_of(
            data,
            rows_recorded_in(bounds[i].0 as int, bounds[i].1 as int, cumulative),
            timeline_time(),
        ),
        views(res[i].users@) == distinct_of(
            data,
            rows_recorded_in(bounds[i].0 as int, bounds[i].1 as int, cumulative),
            recorded_by(),
        ),
{
    let r = res[i];
    let sel = timeline_sel(bounds, i, cumulative);
    let mine = rows_recorded_in(bounds[i].0 as int, bounds[i].1 as int, cumulative);
    assert forall|j: int| 0 <= j < data.len() implies sel(#[trigger] data[j]) == mine(data[j]) by {
        let x = data[j];
        if !cumulative && mine(x) {
            assert forall|k: int| 0 <= k < i implies !within(#[trigger] bounds[k], x.timestamp as int, cumulative) by {
                assert(bounds[k].1 <= bounds[i].0);
            }
        }
    }
    lemma_sum_same_on(data, sel, mine, timeline_time());
    lemma_distinct_same_on(data, sel, mine, timeline_user(), recorded_by());
}

/// The timeline of `data` over the period from `start` to `end`, cut into
/// intervals of the named length and read in the named zone. `None` where
/// the period cannot be read there, its intervals cannot be formed, or a
/// running sum of an interval would leave the `i64` range.
pub fn map_timeline(
    data: Vec<TimelineDWH>,
    start: i64,
    end: i64,
    timezone: &str,
    interval: &str,
    cumulative: bool,
) -> (res: Option<Vec<Interval>>)
    ensures
        res is Some <==> period_readable(timezone@, start as int, end as int) && exists|
            b: Seq<(i64, i64)>,
        | is_interval_run(timezone@, kind_of(lowercase(interval@)), start as int, end as int, b)
            && timeline_sums_fit(data@, b, cumulative),
        res matches Some(v) ==> {
            &&& is_interval_run(
                timezone@,
                kind_of(lowercase(interval@)),
                start as int,
                end as int,
                interval_bounds(v@),
            )
            &&& is_timeline(data@, interval_bounds(v@), cumulative, v@)
        },
        res matches Some(v) ==> forall|i: int|
            0 <= i < v@.len() ==> kind_step(
                timezone@,
                kind_of(lowercase(interval@)),
                #[trigger] v@[i].start as int,
                v@[i].end + 1,
            ),
{
    if !tz_name_is_valid(timezone) {
        return None;
    }
    let start_tz = match get_datetime_tz_from_seconds(start, timezone) {
        Some(s) => s,
        None => return None,
    };
    let end_tz = match get_datetime_tz_from_seconds(end, timezone) {
        Some(e) => e,
        None => return None,
    };
    let kind = interval_kind(interval);
    let bounds = match generate_intervals(timezone, start_tz, end_tz, kind) {
        Some(b) => b,
        None => return None,
    };
    let res = match fill_timeline(&data, &bounds, cumulative) {
        Some(r) => r,
        None => {
            proof {
                let ghost t = timezone@;
                let ghost k = kind_of(lowercase(interval@));
                assert forall|b: Seq<(i64, i64)>|
                    is_interval_run(t, k, start as int, end as int, b) implies !timeline_sums_fit(
                    data@,
                    b,
                    cumulative,
                ) by {
                    law_interval_run_unique(t, k, start as int, end as int, b, bounds@);
                }
            }
            return None;
        },
    };
    assert(interval_bounds(res@) =~= bounds@);
    Some(res)
}

/// The slot id that an item recorded at `ts` belongs to, read in zone
/// `tz`: its hour for a day profile, its weekday (Monday is 1) for a week,
/// its day of the month from 0 for a month, its month from 0 for a year,
/// and 0 for any other kind.
pub open spec fn activity_id(tz: Seq<char>, ts: int, kind: IntervalKind) -> Option<int> {
    match kind {
        IntervalKind::Day => local_hour(tz, ts),
        IntervalKind::Week => local_weekday(tz, ts),
        IntervalKind::Month => local_day0(tz, ts),
        IntervalKind::Year => local_month0(tz, ts),
        _ => Some(0),
    }
}

/// Whether a slot with id `slot` counts an item whose id is `id`: the
/// same slot, or in a cumulative profile every slot from it on.
pub open spec fn slot_counts(slot: int, id: int, cumulative: bool) -> bool {
    if cumulative {
        slot >= id
    } else {
        slot == id
    }
}

/// The rows that the `a`-th slot of a profile counts.
pub open spec fn activity_sel(
    tz: Seq<char>,
    id_kind: IntervalKind,
    slot_kind: IntervalKind,
    a: int,
    cumulative: bool,
) -> spec_fn(PathlessFileEditDWH) -> bool {
    |x: PathlessFileEditDWH|
        slot_counts(
            slot_id(slot_kind, a),
            activity_id(tz, x.timestamp as int, id_kind)->0,
            cumulative,
        )
}

/// The seconds of work of a row.
pub open spec fn edit_time() -> spec_fn(PathlessFileEditDWH) -> int {
    |x: PathlessFileEditDWH| x.time as int
}

/// The lines added in a row.
pub open spec fn edit_added() -> spec_fn(PathlessFileEditDWH) -> int {
    |x: PathlessFileEditDWH| x.lines_added as int
}

/// The lines deleted in a row.
pub open spec fn edit_deleted() -> spec_fn(PathlessFileEditDWH) -> int {
    |x: PathlessFileEditDWH| x.lines_deleted as int
}

/// The user of a row.
pub open spec fn edit_user() -> spec_fn(PathlessFileEditDWH) -> Seq<char> {
    |x: PathlessFileEditDWH| x.user@
}

/// Whether an activity profile can be computed: the zone name parses and
/// every row's timestamp can be read in it, down to the slot id where the
/// profile has slots.
pub open spec fn activity_readable(
    tz: Seq<char>,
    data: Seq<PathlessFileEditDWH>,
    id_kind: IntervalKind,
    slot_kind: IntervalKind,
) -> bool {
    &&& is_tz_name(tz)
    &&& forall|j: int|
        #![trigger data[j]]
        0 <= j < data.len() ==> {
            &&& 0 <= data[j].timestamp && in_chrono_range(data[j].timestamp as int)
            &&& slot_count(slot_kind) > 0 ==> activity_id(
                tz,
                data[j].timestamp as int,
                id_kind,
            ) is Some
        }
}

/// Whether `res` is the activity profile of `data`: the slots of
/// `slot_kind`, each holding the work, the lines and the users (each once)
/// of the rows it counts.
pub open spec fn is_activity_profile(
    tz: Seq<char>,
    data: Seq<PathlessFileEditDWH>,
    id_kind: IntervalKind,
    slot_kind: IntervalKind,
    cumulative: bool,
    res: Seq<Activity>,
) -> bool {
    &&& res.len() == slot_count(slot_kind)
    &&& forall|a: int|
        #![trigger res[a]]
        0 <= a < res.len() ==> {
            &&& res[a].id == slot_id(slot_kind, a)
            &&& res[a].label@ == slot_label(slot_kind, a)
            &&& res[a].time == sum_of(
                data,
                activity_sel(tz, id_kind, slot_kind, a, cumulative),
                edit_time(),
            )
            &&& res[a].lines_added == sum_of(
                data,
                activity_sel(tz, id_kind, slot_kind, a, cumulative),
                edit_added(),
            )
            &&& res[a].lines_removed == sum_of(
                data,
                activity_sel(tz, id_kind, slot_kind, a, cumulative),
                edit_deleted(),
            )
            &&& views(res[a].users@) == distinct_of(
                data,
                activity_sel(tz, id_kind, slot_kind, a, cumulative),
                edit_user(),
            )
        }
}

fn activity_id_of(tz: &str, ts: i64, kind: IntervalKind) -> (res: Option<i32>)
    ensures
        res is Some <==> activity_id(tz@, ts as int, kind) is Some,
        res matches Some(r) ==> activity_id(tz@, ts as int, kind) == Some(r as int),
        res matches Some(r) ==> (slot_count(kind) > 0 ==> id_in_slots(kind, r as int)),
{
    let id = match kind {
        IntervalKind::Day => hour_in(tz, ts),
        IntervalKind::Week => weekday_in(tz, ts),
        IntervalKind::Month => day0_in(tz, ts),
        IntervalKind::Year => month0_in(tz, ts),
        _ => Some(0),
    };
    match id {
        Some(v) => Some(v as i32),
        None => None,
    }
}

/// Whether the running sums of every slot (seconds of work, lines added,
/// lines removed) fit in an `i64` over the first `m` rows.
pub open spec fn activity_fits_upto(
    tz: Seq<char>,
    data: Seq<PathlessFileEditDWH>,
    id_kind: IntervalKind,
    slot_kind: IntervalKind,
    cumulative: bool,
    m: int,
) -> bool {
    &&& forall|a: int, j: int|
        0 <= a < slot_count(slot_kind) && 0 <= j <= m ==> in_i64(
            #[trigger] sum_of(data.take(j), activity_sel(tz, id_kind, slot_kind, a, cumulative), edit_time()),
        )
    &&& forall|a: int, j: int|
        0 <= a < slot_count(slot_kind) && 0 <= j <= m ==> in_i64(
            #[trigger] sum_of(data.take(j), activity_sel(tz, id_kind, slot_kind, a, cumulative), edit_added()),
        )
    &&& forall|a: int, j: int|
        0 <= a < slot_count(slot_kind) && 0 <= j <= m ==> in_i64(
            #[trigger] sum_of(data.take(j), activity_sel(tz, id_kind, slot_kind, a, cumulative), edit_deleted()),
        )
}

/// Whether every running sum of an activity profile fits in an `i64`.
pub open spec fn activity_sums_fit(
    tz: Seq<char>,
    data: Seq<PathlessFileEditDWH>,
    id_kind: IntervalKind,
    slot_kind: IntervalKind,
    cumulative: bool,
) -> bool {
    activity_fits_upto(tz, data, id_kind, slot_kind, cumulative, data.len() as int)
}

/// The activity profile of `data` for a lowercased interval name, read in
/// zone `tz`. Each row is counted, by the slot id of its timestamp, in its
/// slot, or in a cumulative profile in every slot from it on. `None`
/// where the zone name does not parse, a row's time cannot be read, or a
/// running sum of a slot would leave the `i64` range.
pub fn map_activity(data: Vec<PathlessFileEditDWH>, timezone: &str, interval: &str, cumulative: bool) -> (res:
    Option<Vec<Activity>>)
    ensures
        res is Some <==> activity_readable(
            timezone@,
            data@,
            kind_of(lowercase(interval@)),
            kind_of(lowercase(interval@)),
        ) && activity_sums_fit(
            timezone@,
            data@,
            kind_of(lowercase(interval@)),
            kind_of(lowercase(interval@)),
            cumulative,
        ),
        res matches Some(v) ==> is_activity_profile(
            timezone@,
            data@,
            kind_of(lowercase(interval@)),
            kind_of(lowercase(interval@)),
            cumulative,
            v@,
        ),
        res is Some ==> rows_in_slots(timezone@, data@, kind_of(lowercase(interval@))),
{
    let ghost tz = timezone@;
    if !tz_name_is_valid(timezone) {
        return None;
    }
    let lowered = to_lowercase(interval);
    let id_kind = classify_interval(lowered.as_str());
    let mut slots = activity_slots(id_kind);
    let ghost slot_kind = id_kind;
    let n = slots.len();
    proof {
        assert forall|a: int| 0 <= a < n implies {
            &&& slots@[a].time == sum_of(data@.take(0), activity_sel(tz, id_kind, slot_kind, a, cumulative), edit_time())
            &&& slots@[a].lines_added == sum_of(data@.take(0), activity_sel(tz, id_kind, slot_kind, a, cumulative), edit_added())
            &&& slots@[a].lines_removed == sum_of(data@.take(0), activity_sel(tz, id_kind, slot_kind, a, cumulative), edit_deleted())
            &&& views(slots@[a].users@) == distinct_of(data@.take(0), activity_sel(tz, id_kind, slot_kind, a, cumulative), edit_user())
        } by {
            assert(data@.take(0).len() == 0);
            assert(views(slots@[a].users@) =~= Seq::<Seq<char>>::empty());
        }
    }
    let mut j: usize = 0;
    while j < data.len()
        invariant
            tz == timezone@,
            is_tz_name(tz),
            id_kind == kind_of(lowercase(interval@)),
            slot_kind == kind_of(lowercase(interval@)),
            n == slots@.len(),
            n == slot_count(slot_kind),
            0 <= j <= data@.len(),
            activity_fits_upto(tz, data@, id_kind, slot_kind, cumulative, j as int),
            rows_in_slots(tz, data@.take(j as int), id_kind),
            forall|q: int|
                #![trigger data@[q]]
                0 <= q < j ==> {
                    &&& 0 <= data@[q].timestamp && in_chrono_range(data@[q].timestamp as int)
                    &&& slot_count(slot_kind) > 0 ==> activity_id(
                        tz,
                        data@[q].timestamp as int,
                        id_kind,
                    ) is Some
                },
            forall|a: int|
                #![trigger slots@[a]]
                0 <= a < n ==> {
                    &&& slots@[a].id == slot_id(slot_kind, a)
                    &&& slots@[a].label@ == slot_label(slot_kind, a)
                    &&& slots@[a].time == sum_of(data@.take(j as int), activity_sel(tz, id_kind, slot_kind, a, cumulative), edit_time())
                    &&& slots@[a].lines_added == sum_of(data@.take(j as int), activity_sel(tz, id_kind, slot_kind, a, cumulative), edit_added())
                    &&& slots@[a].lines_removed == sum_of(data@.take(j as int), activity_sel(tz, id_kind, slot_kind, a, cumulative), edit_deleted())
                    &&& views(slots@[a].users@) == distinct_of(data@.take(j as int), activity_sel(tz, id_kind, slot_kind, a, cumulative), edit_user())
                },
        decreases data@.len() - j,
    {
        let x = &data[j];
        if get_datetime_tz_from_seconds(x.timestamp, timezone).is_none() {
            assert(data@[j as int] == *x);
            return None;
        }
        if n > 0 {
            let id = match activity_id_of(timezone, x.timestamp, id_kind) {
                Some(id) => id,
                None => {
                    proof {
                        assert(data@[j as int] == *x);
                        assert(slot_count(slot_kind) > 0);
                        assert(activity_id(tz, data@[j as int].timestamp as int, id_kind) is None);
                        assert(!activity_readable(tz, data@, id_kind, slot_kind));
                    }
                    return None;
                },
            };
            let mut a: usize = 0;
            while a < n
                invariant
                    tz == timezone@,
                    n == slots@.len(),
                    0 <= j < data@.len(),
                    *x == data@[j as int],
                    activity_id(tz, x.timestamp as int, id_kind) == Some(id as int),
                    0 <= a <= n,
                    id_kind == kind_of(lowercase(interval@)),
                    slot_kind == kind_of(lowercase(interval@)),
                    n == slot_count(slot_kind),
                    activity_fits_upto(tz, data@, id_kind, slot_kind, cumulative, j as int),
                    rows_in_slots(tz, data@.take(j as int), id_kind),
                    slot_count(slot_kind) > 0 ==> id_in_slots(id_kind, id as int),
                    forall|b: int|
                        #![trigger slots@[b]]
                        0 <= b < n ==> {
                            &&& slots@[b].id == slot_id(slot_kind, b)
                            &&& slots@[b].label@ == slot_label(slot_kind, b)
                            &&& slots@[b].time == sum_of(data@.take(if b < a { j + 1 } else { j as int }), activity_sel(tz, id_kind, slot_kind, b, cumulative), edit_time())
                            &&& slots@[b].lines_added == sum_of(data@.take(if b < a { j + 1 } else { j as int }), activity_sel(tz, id_kind, slot_kind, b, cumulative), edit_added())
                            &&& slots@[b].lines_removed == sum_of(data@.take(if b < a { j + 1 } else { j as int }), activity_sel(tz, id_kind, slot_kind, b, cumulative), edit_deleted())
                            &&& views(slots@[b].users@) == distinct_of(data@.take(if b < a { j + 1 } else { j as int }), activity_sel(tz, id_kind, slot_kind, b, cumulative), edit_user())
                        },
                decreases n - a,
            {
                let ghost sel = activity_sel(tz, id_kind, slot_kind, a as int, cumulative);
                proof {
                    lemma_sum_step(data@, j as int, sel, edit_time());
                    lemma_sum_step(data@, j as int, sel, edit_added());
                    lemma_sum_step(data@, j as int, sel, edit_deleted());
                    lemma_distinct_step(data@, j as int, sel, edit_user());
                }
                if !cumulative && slots[a].id == id || cumulative && slots[a].id >= id {
                    proof {
                        assert(sel(data@[j as int]));
                    }
                    let t = match slots[a].time.checked_add(x.time) {
                        Some(t) => t,
                        None => {
                            assert(!in_i64(sum_of(data@.take(j + 1), activity_sel(tz, id_kind, slot_kind, a as int, cumulative), edit_time())));
                            return None;
                        },
                    };
                    let la = match slots[a].lines_added.checked_add(x.lines_added) {
                        Some(v) => v,
                        None => {
                            assert(!in_i64(sum_of(data@.take(j + 1), activity_sel(tz, id_kind, slot_kind, a as int, cumulative), edit_added())));
                            return None;
                        },
                    };
                    let lr = match slots[a].lines_removed.checked_add(x.lines_deleted) {
                        Some(v) => v,
                        None => {
                            assert(!in_i64(sum_of(data@.take(j + 1), activity_sel(tz, id_kind, slot_kind, a as int, cumulative), edit_deleted())));
                            return None;
                        },
                    };
                    slots[a].time = t;
                    slots[a].lines_added = la;
                    slots[a].lines_removed = lr;
                    push_if_absent(&mut slots[a].users, &x.user);
                }
                a = a + 1;
            }
            proof {
                assert forall|q: int| 0 <= q < j + 1 implies id_in_slots(
                    id_kind,
                    activity_id(tz, #[trigger] data@.take(j + 1)[q].timestamp as int, id_kind)->0,
                ) by {
                    if q < j {
                        assert(data@.take(j + 1)[q] == data@.take(j as int)[q]);
                    }
                }
            }
        }
        proof {
            assert forall|b: int, q: int| 0 <= b < slot_count(slot_kind) && 0 <= q <= j + 1 implies in_i64(
                #[trigger] sum_of(data@.take(q), activity_sel(tz, id_kind, slot_kind, b, cumulative), edit_time()),
            ) by {
                if q == j + 1 {
                    let s = slots@[b];
                }
            }
            assert forall|b: int, q: int| 0 <= b < slot_count(slot_kind) && 0 <= q <= j + 1 implies in_i64(
                #[trigger] sum_of(data@.take(q), activity_sel(tz, id_kind, slot_kind, b, cumulative), edit_added()),
            ) by {
                if q == j + 1 {
                    let s = slots@[b];
                }
            }
            assert forall|b: int, q: int| 0 <= b < slot_count(slot_kind) && 0 <= q <= j + 1 implies in_i64(
                #[trigger] sum_of(data@.take(q), activity_sel(tz, id_kind, slot_kind, b, cumulative), edit_deleted()),
            ) by {
                if q == j + 1 {
                    let s = slots@[b];
                }
            }
        }
        j = j + 1;
    }
    proof {
        lemma_take_all(data@);
    }
    Some(slots)
}

/// The rows that the `i`-th interval of a sub-directory timeline takes:
/// those it takes by time, except files whose path ends in `".app"`.
pub open spec fn subdir_sel(bounds: Seq<(i64, i64)>, i: int, cumulative: bool) -> spec_fn(
    FileEditDWH,
) -> bool {
    |x: FileEditDWH|
        !has_suffix(x.path@, ".app"@) && takes(bounds, i, x.timestamp as int, cumulative)
}

/// The directory a row is counted under at the given depth.
pub open spec fn subdir_key(depth: i32) -> spec_fn(FileEditDWH) -> Seq<char> {
    |x: FileEditDWH| spec_cut_path(x.path@, depth as int)
}

/// The rows that the entry for directory `p` of the `i`-th interval counts.
pub open spec fn dir_sel(
    bounds: Seq<(i64, i64)>,
    i: int,
    cumulative: bool,
    depth: i32,
    p: Seq<char>,
) -> spec_fn(FileEditDWH) -> bool {
    |x: FileEditDWH|
        !has_suffix(x.path@, ".app"@) && takes(bounds, i, x.timestamp as int, cumulative)
            && spec_cut_path(x.path@, depth as int) == p
}

/// The seconds of work of a row.
pub open spec fn file_time() -> spec_fn(FileEditDWH) -> int {
    |x: FileEditDWH| x.time as int
}

/// The lines added in a row.
pub open spec fn file_added() -> spec_fn(FileEditDWH) -> int {
    |x: FileEditDWH| x.lines_added as int
}

/// The lines deleted in a row.
pub open spec fn file_deleted() -> spec_fn(FileEditDWH) -> int {
    |x: FileEditDWH| x.lines_deleted as int
}

/// The commit of a row.
pub open spec fn file_commit() -> spec_fn(FileEditDWH) -> Seq<char> {
    |x: FileEditDWH| x.commit_hash@
}

/// The user of a row.
pub open spec fn file_user() -> spec_fn(FileEditDWH) -> Seq<char> {
    |x: FileEditDWH| x.user@
}

/// The directories of a list of entries, in order.
pub open spec fn dir_paths(v: Seq<SubdirLevelTimelineEntry>) -> Seq<Seq<char>> {
    v.map_values(|e: SubdirLevelTimelineEntry| e.path@)
}

/// Whether `e` holds the work, lines, commits and users (each once) of the
/// rows of `data` that `sel` selects.
pub open spec fn is_dir_entry(
    e: SubdirLevelTimelineEntry,
    data: Seq<FileEditDWH>,
    sel: spec_fn(FileEditDWH) -> bool,
) -> bool {
    &&& e.time == sum_of(data, sel, file_time())
    &&& e.lines_added == sum_of(data, sel, file_added())
    &&& e.lines_removed == sum_of(data, sel, file_deleted())
    &&& views(e.commits@) == distinct_of(data, sel, file_commit())
    &&& views(e.users@) == distinct_of(data, sel, file_user())
}

/// Whether `dirs` are the directory entries of the `i`-th interval over
/// `data`: one per directory, in order of first appearance, each with
/// what its rows hold.
pub open spec fn dirs_ok(
    data: Seq<FileEditDWH>,
    bounds: Seq<(i64, i64)>,
    i: int,
    cumulative: bool,
    depth: i32,
    dirs: Seq<SubdirLevelTimelineEntry>,
) -> bool {
    &&& dir_paths(dirs) == distinct_of(data, subdir_sel(bounds, i, cumulative), subdir_key(depth))
    &&& forall|q: int|
        #![trigger dirs[q]]
        0 <= q < dirs.len() ==> is_dir_entry(
            dirs[q],
            data,
            dir_sel(bounds, i, cumulative, depth, dirs[q].path@),
        )
}

/// Whether `res` is the sub-directory timeline of `data` over `bounds`.
pub open spec fn is_subdir_timeline(
    data: Seq<FileEditDWH>,
    bounds: Seq<(i64, i64)>,
    cumulative: bool,
    depth: i32,
    res: Seq<SubdirLevelTimeline>,
) -> bool {
    &&& res.len() == bounds.len()
    &&& forall|i: int|
        #![trigger res[i]]
        0 <= i < res.len() ==> {
            &&& res[i].start == bounds[i].0
            &&& res[i].end == bounds[i].1
            &&& dirs_ok(data, bounds, i, cumulative, depth, res[i].directories@)
        }
}

/// `s` with `k` added at its end unless it holds it already.
pub open spec fn with_key(s: Seq<Seq<char>>, k: Seq<char>) -> Seq<Seq<char>> {
    if s.contains(k) {
        s
    } else {
        s.push(k)
    }
}

/// Whether `n` is the entry `o` with one more row `x` counted in it.
pub open spec fn entry_added(
    o: SubdirLevelTimelineEntry,
    n: SubdirLevelTimelineEntry,
    x: FileEditDWH,
) -> bool {
    &&& n.path@ == o.path@
    &&& n.time == o.time + x.time
    &&& n.lines_added == o.lines_added + x.lines_added
    &&& n.lines_removed == o.lines_removed + x.lines_deleted
    &&& views(n.commits@) == with_key(views(o.commits@), x.commit_hash@)
    &&& views(n.users@) == with_key(views(o.users@), x.user@)
}

/// Whether `e` is a new entry for directory `c` counting the single row `x`.
pub open spec fn entry_of(e: SubdirLevelTimelineEntry, c: Seq<char>, x: FileEditDWH) -> bool {
    &&& e.path@ == c
    &&& e.time == x.time
    &&& e.lines_added == x.lines_added
    &&& e.lines_removed == x.lines_deleted
    &&& views(e.commits@) == seq![x.commit_hash@]
    &&& views(e.users@) == seq![x.user@]
}

/// Whether the entry `e` can count one more row `x`: its sums stay in the
/// `i64` range.
pub open spec fn entry_can_add(e: SubdirLevelTimelineEntry, x: FileEditDWH) -> bool {
    &&& in_i64(e.time + x.time)
    &&& in_i64(e.lines_added + x.lines_added)
    &&& in_i64(e.lines_removed + x.lines_deleted)
}

/// Counts the row `x` in the entry for directory `cut`, adding the entry
/// where there is none yet. Where the entry's sums would leave the `i64`
/// range, nothing changes and `false` is returned.
fn record_edit(dirs: &mut Vec<SubdirLevelTimelineEntry>, cut: String, x: &FileEditDWH) -> (ok: bool)
    requires
        dir_paths(old(dirs)@).no_duplicates(),
    ensures
        ok <==> forall|q: int|
            #![trigger old(dirs)@[q]]
            0 <= q < old(dirs)@.len() && old(dirs)@[q].path@ == cut@ ==> entry_can_add(old(dirs)@[q], *x),
        !ok ==> final(dirs)@ == old(dirs)@,
        ok ==> dir_paths(final(dirs)@) == with_key(dir_paths(old(dirs)@), cut@),
        ok ==> final(dirs)@.len() == dir_paths(final(dirs)@).len(),
        ok ==> forall|q: int|
            #![trigger final(dirs)@[q]]
            0 <= q < old(dirs)@.len() ==> if old(dirs)@[q].path@ == cut@ {
                entry_added(old(dirs)@[q], final(dirs)@[q], *x)
            } else {
                final(dirs)@[q] == old(dirs)@[q]
            },
        ok && !dir_paths(old(dirs)@).contains(cut@) ==> entry_of(
            final(dirs)@[old(dirs)@.len() as int],
            cut@,
            *x,
        ),
{
    let n = dirs.len();
    let mut q: usize = 0;
    while q < n
        invariant
            n == dirs@.len(),
            dirs@ == old(dirs)@,
            0 <= q <= n,
            forall|k: int| 0 <= k < q ==> dirs@[k].path@ != cut@,
            dir_paths(old(dirs)@).no_duplicates(),
        decreases n - q,
    {
        if dirs[q].path == cut {
            proof {
                assert(dir_paths(old(dirs)@)[q as int] == cut@);
                assert forall|k: int| 0 <= k < n && k != q implies old(dirs)@[k].path@ != cut@ by {
                    if k > q {
                        assert(dir_paths(old(dirs)@)[k] != dir_paths(old(dirs)@)[q as int]);
                    }
                }
            }
            let t = match dirs[q].time.checked_add(x.time) {
                Some(v) => v,
                None => return false,
            };
            let la = match dirs[q].lines_added.checked_add(x.lines_added) {
                Some(v) => v,
                None => return false,
            };
            let lr = match dirs[q].lines_removed.checked_add(x.lines_deleted) {
                Some(v) => v,
                None => return false,
            };
            dirs[q].time = t;
            dirs[q].lines_added = la;
            dirs[q].lines_removed = lr;
            push_if_absent(&mut dirs[q].commits, &x.commit_hash);
            push_if_absent(&mut dirs[q].users, &x.user);
            proof {
                assert(dir_paths(dirs@) =~= dir_paths(old(dirs)@));
            }
            return true;
        }
        q = q + 1;
    }
    proof {
        assert(!dir_paths(old(dirs)@).contains(cut@)) by {
            if dir_paths(old(dirs)@).contains(cut@) {
                let k = choose|k: int| 0 <= k < n && dir_paths(old(dirs)@)[k] == cut@;
                assert(dirs@[k].path@ == cut@);
            }
        }
    }
    let mut commits: Vec<String> = Vec::new();
    commits.push(x.commit_hash.clone());
    let mut users: Vec<String> = Vec::new();
    users.push(x.user.clone());
    dirs.push(
        SubdirLevelTimelineEntry {
            path: cut,
            time: x.time,
            commits,
            lines_added: x.lines_added,
            lines_removed: x.lines_deleted,
            users,
        },
    );
    proof {
        assert(dir_paths(dirs@) =~= dir_paths(old(dirs)@).push(cut@));
        assert(views(dirs@[n as int].commits@) =~= seq![x.commit_hash@]);
        assert(views(dirs@[n as int].users@) =~= seq![x.user@]);
    }
    true
}

proof fn lemma_dirs_skip(
    data: Seq<FileEditDWH>,
    j: int,
    bounds: Seq<(i64, i64)>,
    i: int,
    cumulative: bool,
    depth: i32,
    dirs: Seq<SubdirLevelTimelineEntry>,
)
    requires
        0 <= j < data.len(),
        !subdir_sel(bounds, i, cumulative)(data[j]),
        dirs_ok(data.take(j), bounds, i, cumulative, depth, dirs),
    ensures
        dirs_ok(data.take(j + 1), bounds, i, cumulative, depth, dirs),
{
    lemma_distinct_step(data, j, subdir_sel(bounds, i, cumulative), subdir_key(depth));
    assert forall|q: int| 0 <= q < dirs.len() implies is_dir_entry(
        #[trigger] dirs[q],
        data.take(j + 1),
        dir_sel(bounds, i, cumulative, depth, dirs[q].path@),
    ) by {
        let sel = dir_sel(bounds, i, cumulative, depth, dirs[q].path@);
        lemma_sum_step(data, j, sel, file_time());
        lemma_sum_step(data, j, sel, file_added());
        lemma_sum_step(data, j, sel, file_deleted());
        lemma_distinct_step(data, j, sel, file_commit());
        lemma_distinct_step(data, j, sel, file_user());
    }
}

/// Whether the running sums of every directory entry of every interval
/// (seconds of work, lines added, lines removed) fit in an `i64` over the
/// first `m` rows.
pub open spec fn subdir_fits_upto(
    data: Seq<FileEditDWH>,
    bounds: Seq<(i64, i64)>,
    cumulative: bool,
    depth: i32,
    m: int,
) -> bool {
    &&& forall|i: int, p: Seq<char>, j: int|
        0 <= i < bounds.len() && 0 <= j <= m ==> in_i64(
            #[trigger] sum_of(data.take(j), dir_sel(bounds, i, cumulative, depth, p), file_time()),
        )
    &&& forall|i: int, p: Seq<char>, j: int|
        0 <= i < bounds.len() && 0 <= j <= m ==> in_i64(
            #[trigger] sum_of(data.take(j), dir_sel(bounds, i, cumulative, depth, p), file_added()),
        )
    &&& forall|i: int, p: Seq<char>, j: int|
        0 <= i < bounds.len() && 0 <= j <= m ==> in_i64(
            #[trigger] sum_of(data.take(j), dir_sel(bounds, i, cumulative, depth, p), file_deleted()),
        )
}

/// Whether every running sum of a sub-directory timeline fits in an `i64`.
pub open spec fn subdir_sums_fit(
    data: Seq<FileEditDWH>,
    bounds: Seq<(i64, i64)>,
    cumulative: bool,
    depth: i32,
) -> bool {
    subdir_fits_upto(data, bounds, cumulative, depth, data.len() as int)
}

proof fn lemma_dirs_fit(
    data: Seq<FileEditDWH>,
    bounds: Seq<(i64, i64)>,
    i: int,
    cumulative: bool,
    depth: i32,
    dirs: Seq<SubdirLevelTimelineEntry>,
    p: Seq<char>,
)
    requires
        dirs_ok(data, bounds, i, cumulative, depth, dirs),
    ensures
        dir_paths(dirs).no_duplicates(),
        in_i64(sum_of(data, dir_sel(bounds, i, cumulative, depth, p), file_time())),
        in_i64(sum_of(data, dir_sel(bounds, i, cumulative, depth, p), file_added())),
        in_i64(sum_of(data, dir_sel(bounds, i, cumulative, depth, p), file_deleted())),
{
    lemma_distinct_unique(data, subdir_sel(bounds, i, cumulative), subdir_key(depth));
    if dir_paths(dirs).contains(p) {
        let q = choose|q: int| 0 <= q < dir_paths(dirs).len() && dir_paths(dirs)[q] == p;
        assert(dirs[q].path@ == p);
    } else {
        let sel = subdir_sel(bounds, i, cumulative);
        let key = subdir_key(depth);
        let narrow = dir_sel(bounds, i, cumulative, depth, p);
        lemma_absent_key(data, sel, key, p, narrow, file_time(), file_user());
        lemma_absent_key(data, sel, key, p, narrow, file_added(), file_user());
        lemma_absent_key(data, sel, key, p, narrow, file_deleted(), file_user());
    }
}

proof fn lemma_dirs_record(
    data: Seq<FileEditDWH>,
    j: int,
    bounds: Seq<(i64, i64)>,
    i: int,
    cumulative: bool,
    depth: i32,
    before: Seq<SubdirLevelTimelineEntry>,
    after: Seq<SubdirLevelTimelineEntry>,
)
    requires
        0 <= j < data.len(),
        subdir_sel(bounds, i, cumulative)(data[j]),
        dirs_ok(data.take(j), bounds, i, cumulative, depth, before),
        dir_paths(after) == with_key(dir_paths(before), spec_cut_path(data[j].path@, depth as int)),
        after.len() == dir_paths(after).len(),
        forall|q: int|
            #![trigger after[q]]
            0 <= q < before.len() ==> if before[q].path@ == spec_cut_path(data[j].path@, depth as int) {
                entry_added(before[q], after[q], data[j])
            } else {
                after[q] == before[q]
            },
        !dir_paths(before).contains(spec_cut_path(data[j].path@, depth as int)) ==> entry_of(
            after[before.len() as int],
            spec_cut_path(data[j].path@, depth as int),
            data[j],
        ),
    ensures
        dirs_ok(data.take(j + 1), bounds, i, cumulative, depth, after),
{
    let x = data[j];
    let c = spec_cut_path(x.path@, depth as int);
    lemma_distinct_step(data, j, subdir_sel(bounds, i, cumulative), subdir_key(depth));
    assert(dir_paths(after) == distinct_of(
        data.take(j + 1),
        subdir_sel(bounds, i, cumulative),
        subdir_key(depth),
    ));
    assert forall|q: int| 0 <= q < after.len() implies is_dir_entry(
        #[trigger] after[q],
        data.take(j + 1),
        dir_sel(bounds, i, cumulative, depth, after[q].path@),
    ) by {
        if q < before.len() {
            assert(after[q].path@ == before[q].path@);
            let sel = dir_sel(bounds, i, cumulative, depth, before[q].path@);
            lemma_sum_step(data, j, sel, file_time());
            lemma_sum_step(data, j, sel, file_added());
            lemma_sum_step(data, j, sel, file_deleted());
            lemma_distinct_step(data, j, sel, file_commit());
            lemma_distinct_step(data, j, sel, file_user());
        } else {
            assert(dir_paths(after).len() == dir_paths(before).len() + 1);
            assert(q == before.len());
            assert(dir_paths(after)[q] == c);
            let sel = dir_sel(bounds, i, cumulative, depth, c);
            lemma_absent_key(
                data.take(j),
                subdir_sel(bounds, i, cumulative),
                subdir_key(depth),
                c,
                sel,
                file_time(),
                file_commit(),
            );
            lemma_absent_key(
                data.take(j),
                subdir_sel(bounds, i, cumulative),
                subdir_key(depth),
                c,
                sel,
                file_added(),
                file_user(),
            );
            lemma_absent_key(
                data.take(j),
                subdir_sel(bounds, i, cumulative),
                subdir_key(depth),
                c,
                sel,
                file_deleted(),
                file_user(),
            );
            lemma_sum_step(data, j, sel, file_time());
            lemma_sum_step(data, j, sel, file_added());
            lemma_sum_step(data, j, sel, file_deleted());
            lemma_distinct_step(data, j, sel, file_commit());
            lemma_distinct_step(data, j, sel, file_user());
            assert(distinct_of(data.take(j + 1), sel, file_commit()) =~= seq![x.commit_hash@]);
            assert(distinct_of(data.take(j + 1), sel, file_user()) =~= seq![x.user@]);
        }
    }
}

/// The sub-directory timeline of `data` over the given intervals.
pub fn fill_subdir_timeline(
    data: &Vec<FileEditDWH>,
    bounds: &Vec<(i64, i64)>,
    depth: i32,
    cumulative: bool,
) -> (res: Option<Vec<SubdirLevelTimeline>>)
    ensures
        res is Some <==> subdir_sums_fit(data@, bounds@, cumulative, depth),
        res matches Some(v) ==> is_subdir_timeline(data@, bounds@, cumulative, depth, v@),
{
    let n = bounds.len();
    let mut intervals: Vec<SubdirLevelTimeline> = Vec::new();
    let mut i: usize = 0;
    while i < n
        invariant
            n == bounds@.len(),
            0 <= i <= n,
            intervals@.len() == i,
            forall|k: int|
                #![trigger intervals@[k]]
                0 <= k < i ==> {
                    &&& intervals@[k].start == bounds@[k].0
                    &&& intervals@[k].end == bounds@[k].1
                    &&& intervals@[k].directories@.len() == 0
                },
        decreases n - i,
    {
        intervals.push(
            SubdirLevelTimeline { start: bounds[i].0, end: bounds[i].1, directories: Vec::new() },
        );
        i = i + 1;
    }
    proof {
        assert forall|k: int| 0 <= k < n implies dirs_ok(
            data@.take(0),
            bounds@,
            k,
            cumulative,
            depth,
            #[trigger] intervals@[k].directories@,
        ) by {
            assert(data@.take(0).len() == 0);
            assert(dir_paths(intervals@[k].directories@) =~= Seq::<Seq<char>>::empty());
        }
    }
    let mut j: usize = 0;
    while j < data.len()
        invariant
            n == bounds@.len(),
            0 <= j <= data@.len(),
            subdir_fits_upto(data@, bounds@, cumulative, depth, j as int),
            intervals@.len() == n,
            forall|k: int|
                #![trigger intervals@[k]]
                0 <= k < n ==> {
                    &&& intervals@[k].start == bounds@[k].0
                    &&& intervals@[k].end == bounds@[k].1
                    &&& dirs_ok(data@.take(j as int), bounds@, k, cumulative, depth, intervals@[k].directories@)
                },
        decreases data@.len() - j,
    {
        let x = &data[j];
        if ends_with(x.path.as_str(), ".app") {
            proof {
                assert forall|k: int| 0 <= k < n implies dirs_ok(
                    data@.take(j + 1),
                    bounds@,
                    k,
                    cumulative,
                    depth,
                    #[trigger] intervals@[k].directories@,
                ) by {
                    lemma_dirs_skip(data@, j as int, bounds@, k, cumulative, depth, intervals@[k].directories@);
                }
            }
        } else {
            let mut i: usize = 0;
            let mut taken = false;
            while i < n && !taken
                invariant
                    n == bounds@.len(),
                    0 <= j < data@.len(),
                    *x == data@[j as int],
                    !has_suffix(x.path@, ".app"@),
                    0 <= i <= n,
                    subdir_fits_upto(data@, bounds@, cumulative, depth, j as int),
                    intervals@.len() == n,
                    taken ==> !cumulative && i > 0 && within(bounds@[i - 1], x.timestamp as int, cumulative),
                    !taken && !cumulative ==> forall|k: int|
                        0 <= k < i ==> !within(#[trigger] bounds@[k], x.timestamp as int, cumulative),
                    forall|k: int|
                        #![trigger intervals@[k]]
                        0 <= k < n ==> {
                            &&& intervals@[k].start == bounds@[k].0
                            &&& intervals@[k].end == bounds@[k].1
                            &&& dirs_ok(
                                data@.take(if k < i { j + 1 } else { j as int }),
                                bounds@,
                                k,
                                cumulative,
                                depth,
                                intervals@[k].directories@,
                            )
                        },
                decreases n - i,
            {
                if (intervals[i].start <= x.timestamp || cumulative) && x.timestamp < intervals[i].end {
                    let cut = cut_path(x.path.as_str(), depth);
                    let ghost before = intervals@[i as int].directories@;
                    proof {
                        lemma_dirs_fit(data@.take(j as int), bounds@, i as int, cumulative, depth, before, cut@);
                    }
                    let ok = record_edit(&mut intervals[i].directories, cut, x);
                    if !ok {
                        proof {
                            let q = choose|q: int|
                                0 <= q < before.len() && before[q].path@ == cut@ && !entry_can_add(
                                    before[q],
                                    *x,
                                );
                            let sel = dir_sel(bounds@, i as int, cumulative, depth, cut@);
                            assert(is_dir_entry(before[q], data@.take(j as int), sel));
                            assert(sel(data@[j as int]));
                            lemma_sum_step(data@, j as int, sel, file_time());
                            lemma_sum_step(data@, j as int, sel, file_added());
                            lemma_sum_step(data@, j as int, sel, file_deleted());
                            if !in_i64(before[q].time + x.time) {
                                assert(!in_i64(sum_of(data@.take(j + 1), sel, file_time())));
                            } else if !in_i64(before[q].lines_added + x.lines_added) {
                                assert(!in_i64(sum_of(data@.take(j + 1), sel, file_added())));
                            } else {
                                assert(!in_i64(sum_of(data@.take(j + 1), sel, file_deleted())));
                            }
                        }
                        return None;
                    }
                    proof {
                        lemma_dirs_record(
                            data@,
                            j as int,
                            bounds@,
                            i as int,
                            cumulative,
                            depth,
                            before,
                            intervals@[i as int].directories@,
                        );
                    }
                    if !cumulative {
                        taken = true;
                    }
                } else {
                    proof {
                        lemma_dirs_skip(data@, j as int, bounds@, i as int, cumulative, depth, intervals@[i as int].directories@);
                    }
                }
                i = i + 1;
            }
            proof {
                assert forall|k: int| i <= k < n implies dirs_ok(
                    data@.take(j + 1),
                    bounds@,
                    k,
                    cumulative,
                    depth,
                    #[trigger] intervals@[k].directories@,
                ) by {
                    assert(!takes(bounds@, k, x.timestamp as int, cumulative));
                    lemma_dirs_skip(data@, j as int, bounds@, k, cumulative, depth, intervals@[k].directories@);
                }
            }
        }
        proof {
            assert forall|k: int, p: Seq<char>, q: int| 0 <= k < n && 0 <= q <= j + 1 implies {
                &&& in_i64(sum_of(data@.take(q), dir_sel(bounds@, k, cumulative, depth, p), file_time()))
                &&& in_i64(sum_of(data@.take(q), dir_sel(bounds@, k, cumulative, depth, p), file_added()))
                &&& in_i64(sum_of(data@.take(q), dir_sel(bounds@, k, cumulative, depth, p), file_deleted()))
            } by {
                if q == j + 1 {
                    lemma_dirs_fit(data@.take(j + 1), bounds@, k, cumulative, depth, intervals@[k].directories@, p);
                }
            }
        }
        j = j + 1;
    }
    proof {
        lemma_take_all(data@);
    }
    Some(intervals)
}

/// The rows, other than files whose path ends in `".app"`, that an
/// interval from `start` to `end` counts: those recorded before its end,
/// and in a timeline that is not cumulative not before its start.
pub open spec fn rows_of_interval(start: int, end: int, cumulative: bool) -> spec_fn(FileEditDWH) -> bool {
    |x: FileEditDWH|
        !has_suffix(x.path@, ".app"@) && (cumulative || start <= x.timestamp) && x.timestamp < end
}

/// The directory a file path falls under at the given depth.
pub open spec fn directory_of(depth: i32) -> spec_fn(FileEditDWH) -> Seq<char> {
    |x: FileEditDWH| spec_cut_path(x.path@, depth as int)
}

/// The rows of an interval under directory `p`.
pub open spec fn rows_of_interval_in(start: int, end: int, cumulative: bool, depth: i32, p: Seq<char>) -> spec_fn(
    FileEditDWH,
) -> bool {
    |x: FileEditDWH|
        !has_suffix(x.path@, ".app"@) && (cumulative || start <= x.timestamp) && x.timestamp < end
            && spec_cut_path(x.path@, depth as int) == p
}

/// What each interval of a sub-directory timeline holds, by time: a
/// cumulative timeline counts in an interval every row (but `.app` files)
/// recorded before its end; one that is not cumulative, over intervals
/// each of which ends before the next starts, counts the rows recorded
/// from its start to before its end. The interval lists each directory of
/// those rows once, in order of first appearance, with their work and
/// lines.
pub proof fn law_subdir_interval_rows(
    data: Seq<FileEditDWH>,
    bounds: Seq<(i64, i64)>,
    cumulative: bool,
    depth: i32,
    res: Seq<SubdirLevelTimeline>,
    i: int,
)
    requires
        is_subdir_timeline(data, bounds, cumulative, depth, res),
        0 <= i < res.len(),
        !cumulative ==> forall|k: int| 0 <= k < i ==> #[trigger] bounds[k].1 <= bounds[i].0,
    ensures
        dir_paths(res[i].directories@) == distinct_of(
            data,
            rows_of_interval(bounds[i].0 as int, bounds[i].1 as int, cumulative),
            directory_of(depth),
        ),
        forall|q: int|
            #![trigger res[i].directories@[q]]
            0 <= q < res[i].directories@.len() ==> {
                let e = res[i].directories@[q];
                let sel = rows_of_interval_in(bounds[i].0 as int, bounds[i].1 as int, cumulative, depth, e.path@);
                &&& e.time == sum_of(data, sel, file_time())
                &&& e.lines_added == sum_of(data, sel, file_added())
                &&& e.lines_removed == sum_of(data, sel, file_deleted())
            },
{
    let b = bounds[i];
    let dirs = res[i].directories@;
    assert(dirs_ok(data, bounds, i, cumulative, depth, dirs));
    let sel = subdir_sel(bounds, i, cumulative);
    let mine = rows_of_interval(b.0 as int, b.1 as int, cumulative);
    assert forall|j: int| 0 <= j < data.len() implies sel(#[trigger] data[j]) == mine(data[j]) by {
        let x = data[j];
        if !cumulative && mine(x) {
            assert forall|k: int| 0 <= k < i implies !within(#[trigger] bounds[k], x.timestamp as int, cumulative) by {
                assert(bounds[k].1 <= bounds[i].0);
            }
        }
    }
    lemma_distinct_same_on(data, sel, mine, subdir_key(depth), directory_of(depth));
    assert forall|q: int| 0 <= q < dirs.len() implies {
        let e = #[trigger] dirs[q];
        let s2 = rows_of_interval_in(b.0 as int, b.1 as int, cumulative, depth, e.path@);
        &&& e.time == sum_of(data, s2, file_time())
        &&& e.lines_added == sum_of(data, s2, file_added())
        &&& e.lines_removed == sum_of(data, s2, file_deleted())
    } by {
        let e = dirs[q];
        let ds = dir_sel(bounds, i, cumulative, depth, e.path@);
        let s2 = rows_of_interval_in(b.0 as int, b.1 as int, cumulative, depth, e.path@);
        assert forall|j: int| 0 <= j < data.len() implies ds(#[trigger] data[j]) == s2(data[j]) by {
            assert(sel(data[j]) == mine(data[j]));
        }
        lemma_sum_same_on(data, ds, s2, file_time());
        lemma_sum_same_on(data, ds, s2, file_added());
        lemma_sum_same_on(data, ds, s2, file_deleted());
    }
}

/// The rows whose path does not end in `".app"`.
pub open spec fn not_app() -> spec_fn(FileEditDWH) -> bool {
    |x: FileEditDWH| !has_suffix(x.path@, ".app"@)
}

proof fn lemma_dirs_ok_kept(
    data: Seq<FileEditDWH>,
    bounds: Seq<(i64, i64)>,
    i: int,
    cumulative: bool,
    depth: i32,
    dirs: Seq<SubdirLevelTimelineEntry>,
)
    ensures
        dirs_ok(data, bounds, i, cumulative, depth, dirs) == dirs_ok(
            kept(data, not_app()),
            bounds,
            i,
            cumulative,
            depth,
            dirs,
        ),
{
    let f = kept(data, not_app());
    let sel = subdir_sel(bounds, i, cumulative);
    assert forall|x: FileEditDWH| #[trigger] sel(x) implies not_app()(x) by {}
    lemma_kept_same(data, not_app(), sel, file_time(), subdir_key(depth));
    assert forall|q: int| 0 <= q < dirs.len() implies is_dir_entry(
        #[trigger] dirs[q],
        data,
        dir_sel(bounds, i, cumulative, depth, dirs[q].path@),
    ) == is_dir_entry(dirs[q], f, dir_sel(bounds, i, cumulative, depth, dirs[q].path@)) by {
        let ds = dir_sel(bounds, i, cumulative, depth, dirs[q].path@);
        assert forall|x: FileEditDWH| #[trigger] ds(x) implies not_app()(x) by {}
        lemma_kept_same(data, not_app(), ds, file_time(), file_commit());
        lemma_kept_same(data, not_app(), ds, file_added(), file_user());
        lemma_kept_same(data, not_app(), ds, file_deleted(), file_user());
    }
}

proof fn lemma_fits_kept(
    data: Seq<FileEditDWH>,
    bounds: Seq<(i64, i64)>,
    cumulative: bool,
    depth: i32,
    val: spec_fn(FileEditDWH) -> int,
)
    ensures
        (forall|i: int, p: Seq<char>, j: int|
            0 <= i < bounds.len() && 0 <= j <= data.len() ==> in_i64(
                #[trigger] sum_of(data.take(j), dir_sel(bounds, i, cumulative, depth, p), val),
            )) <==> (forall|i: int, p: Seq<char>, j: int|
            0 <= i < bounds.len() && 0 <= j <= kept(data, not_app()).len() ==> in_i64(
                #[trigger] sum_of(
                    kept(data, not_app()).take(j),
                    dir_sel(bounds, i, cumulative, depth, p),
                    val,
                ),
            )),
{
    let f = kept(data, not_app());
    assert forall|i: int, p: Seq<char>|
        #![trigger dir_sel(bounds, i, cumulative, depth, p)]
        0 <= i < bounds.len() implies ((forall|j: int|
        0 <= j <= data.len() ==> i64::MIN <= #[trigger] sum_of(
            data.take(j),
            dir_sel(bounds, i, cumulative, depth, p),
            val,
        ) <= i64::MAX) <==> (forall|k: int|
        0 <= k <= f.len() ==> i64::MIN <= #[trigger] sum_of(
            f.take(k),
            dir_sel(bounds, i, cumulative, depth, p),
            val,
        ) <= i64::MAX)) by {
        let ds = dir_sel(bounds, i, cumulative, depth, p);
        assert forall|x: FileEditDWH| #[trigger] ds(x) implies not_app()(x) by {}
        lemma_kept_running_sums(data, not_app(), ds, val, i64::MIN as int, i64::MAX as int);
    }
}

/// Rows of files whose path ends in `".app"` leave the sub-directory
/// timeline as it is: whether its sums fit, and which timelines it is,
/// are the same with those rows removed from the data.
pub proof fn law_subdir_ignores_app_files(
    data: Seq<FileEditDWH>,
    bounds: Seq<(i64, i64)>,
    cumulative: bool,
    depth: i32,
    res: Seq<SubdirLevelTimeline>,
)
    ensures
        subdir_sums_fit(data, bounds, cumulative, depth) <==> subdir_sums_fit(
            kept(data, not_app()),
            bounds,
            cumulative,
            depth,
        ),
        is_subdir_timeline(data, bounds, cumulative, depth, res) <==> is_subdir_timeline(
            kept(data, not_app()),
            bounds,
            cumulative,
            depth,
            res,
        ),
{
    lemma_fits_kept(data, bounds, cumulative, depth, file_time());
    lemma_fits_kept(data, bounds, cumulative, depth, file_added());
    lemma_fits_kept(data, bounds, cumulative, depth, file_deleted());
    assert forall|i: int| 0 <= i < res.len() implies dirs_ok(
        data,
        bounds,
        i,
        cumulative,
        depth,
        #[trigger] res[i].directories@,
    ) == dirs_ok(kept(data, not_app()), bounds, i, cumulative, depth, res[i].directories@) by {
        lemma_dirs_ok_kept(data, bounds, i, cumulative, depth, res[i].directories@);
    }
}

/// The sub-directory timeline of `data`: the period from `start` to `end`
/// cut into intervals of the named length and read in the named zone; in
/// each, what was recorded per directory (the first `depth` segments of
/// the path), skipping paths that end in `".app"`. `None` where the period
/// cannot be read there, its intervals cannot be formed, or a running sum
/// of a directory would leave the `i64` range.
pub fn map_subdir_level_timeline(
    data: Vec<FileEditDWH>,
    depth: i32,
    start: i64,
    end: i64,
    timezone: &str,
    interval: &str,
    cumulative: bool,
) -> (res: Option<Vec<SubdirLevelTimeline>>)
    ensures
        res is Some <==> period_readable(timezone@, start as int, end as int) && exists|
            b: Seq<(i64, i64)>,
        | is_interval_run(timezone@, kind_of(lowercase(interval@)), start as int, end as int, b)
            && subdir_sums_fit(data@, b, cumulative, depth),
        res matches Some(v) ==> {
            &&& is_interval_run(
                timezone@,
                kind_of(lowercase(interval@)),
                start as int,
                end as int,
                subdir_bounds(v@),
            )
            &&& is_subdir_timeline(data@, subdir_bounds(v@), cumulative, depth, v@)
        },
        res matches Some(v) ==> forall|i: int|
            0 <= i < v@.len() ==> kind_step(
                timezone@,
                kind_of(lowercase(interval@)),
                #[trigger] v@[i].start as int,
                v@[i].end + 1,
            ),
{
    if !tz_name_is_valid(timezone) {
        return None;
    }
    let start_tz = match get_datetime_tz_from_seconds(start, timezone) {
        Some(s) => s,
        None => return None,
    };
    let end_tz = match get_datetime_tz_from_seconds(end, timezone) {
        Some(e) => e,
        None => return None,
    };
    let kind = interval_kind(interval);
    let bounds = match generate_intervals(timezone, start_tz, end_tz, kind) {
        Some(b) => b,
        None => return None,
    };
    let res = match fill_subdir_timeline(&data, &bounds, depth, cumulative) {
        Some(r) => r,
        None => {
            proof {
                let ghost t = timezone@;
                let ghost k = kind_of(lowercase(interval@));
                assert forall|b: Seq<(i64, i64)>|
                    is_interval_run(t, k, start as int, end as int, b) implies !subdir_sums_fit(
                    data@,
                    b,
                    cumulative,
                    depth,
                ) by {
                    law_interval_run_unique(t, k, start as int, end as int, b, bounds@);
                }
            }
            return None;
        },
    };
    assert(subdir_bounds(res@) =~= bounds@);
    Some(res)
}

/// The `(start, end)` pairs of a sub-directory timeline.
pub open spec fn subdir_bounds(v: Seq<SubdirLevelTimeline>) -> Seq<(i64, i64)> {
    v.map_values(|t: SubdirLevelTimeline| (t.start, t.end))
}

proof fn lemma_ends_grow(
    tz: Seq<char>,
    kind: IntervalKind,
    start: int,
    end: int,
    b: Seq<(i64, i64)>,
    i: int,
    k: int,
)
    requires
        is_interval_run(tz, kind, start, end, b),
        0 <= i <= k < b.len(),
    ensures
        b[i].1 <= b[k].1,
    decreases k - i,
{
    law_intervals_contiguous(tz, kind, start, end, b);
    if i < k {
        lemma_ends_grow(tz, kind, start, end, b, i + 1, k);
        assert(b[i].1 + 1 == b[i + 1].0);
        assert(b[i + 1].0 <= b[i + 1].1);
    }
}

/// A cumulative timeline never shrinks from one interval to a later one,
/// where no recorded span of work is negative.
pub proof fn law_cumulative_timeline_grows(
    data: Seq<TimelineDWH>,
    tz: Seq<char>,
    kind: IntervalKind,
    start: int,
    end: int,
    res: Seq<Interval>,
    i: int,
    k: int,
)
    requires
        is_interval_run(tz, kind, start, end, interval_bounds(res)),
        is_timeline(data, interval_bounds(res), true, res),
        forall|j: int| 0 <= j < data.len() ==> #[trigger] data[j].time >= 0,
        0 <= i <= k < res.len(),
    ensures
        res[i].time <= res[k].time,
{
    let b = interval_bounds(res);
    lemma_ends_grow(tz, kind, start, end, b, i, k);
    let x = res[i];
    let y = res[k];
    lemma_sum_mono(data, timeline_sel(b, i, true), timeline_sel(b, k, true), timeline_time());
}

/// A cumulative activity profile never shrinks from one slot to a later
/// one, where no recorded span of work is negative.
pub proof fn law_cumulative_activity_grows(
    tz: Seq<char>,
    data: Seq<PathlessFileEditDWH>,
    id_kind: IntervalKind,
    slot_kind: IntervalKind,
    res: Seq<Activity>,
    a: int,
    c: int,
)
    requires
        is_activity_profile(tz, data, id_kind, slot_kind, true, res),
        forall|j: int| 0 <= j < data.len() ==> #[trigger] data[j].time >= 0,
        0 <= a <= c < res.len(),
    ensures
        res[a].time <= res[c].time,
{
    let x = res[a];
    let y = res[c];
    lemma_sum_mono(
        data,
        activity_sel(tz, id_kind, slot_kind, a, true),
        activity_sel(tz, id_kind, slot_kind, c, true),
        edit_time(),
    );
}

/// The sum of a numeric field over the first `n` slots of a profile.
pub open spec fn profile_sum(res: Seq<Activity>, n: nat, field: spec_fn(Activity) -> int) -> int
    decreases n,
{
    if n == 0 {
        0
    } else {
        profile_sum(res, (n - 1) as nat, field) + field(res[n - 1])
    }
}

/// The seconds of work of a slot.
pub open spec fn slot_time() -> spec_fn(Activity) -> int {
    |a: Activity| a.time as int
}

/// The lines added in a slot.
pub open spec fn slot_added() -> spec_fn(Activity) -> int {
    |a: Activity| a.lines_added as int
}

/// The lines removed in a slot.
pub open spec fn slot_removed() -> spec_fn(Activity) -> int {
    |a: Activity| a.lines_removed as int
}

/// The position among the slots of the slot with id `id`.
pub open spec fn slot_index(kind: IntervalKind, id: int) -> int {
    match kind {
        IntervalKind::Week => id - 1,
        _ => id,
    }
}

/// Whether `id` is the id of one of the slots of a profile of this kind.
pub open spec fn id_in_slots(kind: IntervalKind, id: int) -> bool {
    0 <= slot_index(kind, id) < slot_count(kind)
}

/// Whether every row's slot id, read in zone `tz`, is the id of one of the
/// slots of a profile of this kind (where it has slots).
pub open spec fn rows_in_slots(tz: Seq<char>, data: Seq<PathlessFileEditDWH>, kind: IntervalKind) -> bool {
    slot_count(kind) > 0 ==> forall|j: int|
        #![trigger data[j]]
        0 <= j < data.len() ==> id_in_slots(kind, activity_id(tz, data[j].timestamp as int, kind)->0)
}

/// The rows whose slot id is that of one of the first `n` slots.
pub open spec fn in_first_slots(
    tz: Seq<char>,
    id_kind: IntervalKind,
    slot_kind: IntervalKind,
    n: nat,
) -> spec_fn(PathlessFileEditDWH) -> bool {
    |x: PathlessFileEditDWH|
        0 <= slot_index(slot_kind, activity_id(tz, x.timestamp as int, id_kind)->0) < n
}

proof fn lemma_profile_sum(
    tz: Seq<char>,
    data: Seq<PathlessFileEditDWH>,
    id_kind: IntervalKind,
    slot_kind: IntervalKind,
    res: Seq<Activity>,
    n: nat,
    field: spec_fn(Activity) -> int,
    val: spec_fn(PathlessFileEditDWH) -> int,
)
    requires
        n <= res.len(),
        forall|a: int|
            0 <= a < res.len() ==> field(#[trigger] res[a]) == sum_of(
                data,
                activity_sel(tz, id_kind, slot_kind, a, false),
                val,
            ),
    ensures
        profile_sum(res, n, field) == sum_of(data, in_first_slots(tz, id_kind, slot_kind, n), val),
    decreases n,
{
    if n == 0 {
        lemma_sum_none(data, in_first_slots(tz, id_kind, slot_kind, 0), val);
    } else {
        let m = (n - 1) as nat;
        lemma_profile_sum(tz, data, id_kind, slot_kind, res, m, field, val);
        let before = in_first_slots(tz, id_kind, slot_kind, m);
        let last = activity_sel(tz, id_kind, slot_kind, m as int, false);
        assert(field(res[m as int]) == sum_of(data, last, val));
        assert forall|x: PathlessFileEditDWH| !(#[trigger] before(x) && last(x)) by {}
        lemma_sum_disjoint(data, before, last, val);
        assert(either(before, last) =~= in_first_slots(tz, id_kind, slot_kind, n));
    }
}

/// A profile that is not cumulative counts each row once: its slots
/// together hold exactly the work and the lines of the rows whose slot id
/// is that of one of its slots.
pub proof fn law_activity_counts_work_once(
    tz: Seq<char>,
    data: Seq<PathlessFileEditDWH>,
    id_kind: IntervalKind,
    slot_kind: IntervalKind,
    res: Seq<Activity>,
)
    requires
        is_activity_profile(tz, data, id_kind, slot_kind, false, res),
    ensures
        profile_sum(res, res.len(), slot_time()) == sum_of(
            data,
            in_first_slots(tz, id_kind, slot_kind, res.len()),
            edit_time(),
        ),
        profile_sum(res, res.len(), slot_added()) == sum_of(
            data,
            in_first_slots(tz, id_kind, slot_kind, res.len()),
            edit_added(),
        ),
        profile_sum(res, res.len(), slot_removed()) == sum_of(
            data,
            in_first_slots(tz, id_kind, slot_kind, res.len()),
            edit_deleted(),
        ),
{
    lemma_profile_sum(tz, data, id_kind, slot_kind, res, res.len(), slot_time(), edit_time());
    lemma_profile_sum(tz, data, id_kind, slot_kind, res, res.len(), slot_added(), edit_added());
    lemma_profile_sum(tz, data, id_kind, slot_kind, res, res.len(), slot_removed(), edit_deleted());
}

/// A profile with slots that is not cumulative, over rows whose slot ids
/// are all among its slots (as `map_activity` ensures of every profile it
/// returns), holds every row exactly once: its slots add up to the work,
/// the lines added and the lines removed of all the rows.
pub proof fn law_activity_counts_every_row(
    tz: Seq<char>,
    data: Seq<PathlessFileEditDWH>,
    kind: IntervalKind,
    res: Seq<Activity>,
)
    requires
        is_activity_profile(tz, data, kind, kind, false, res),
        rows_in_slots(tz, data, kind),
        slot_count(kind) > 0,
    ensures
        profile_sum(res, res.len(), slot_time()) == sum_of(data, every(), edit_time()),
        profile_sum(res, res.len(), slot_added()) == sum_of(data, every(), edit_added()),
        profile_sum(res, res.len(), slot_removed()) == sum_of(data, every(), edit_deleted()),
{
    law_activity_counts_work_once(tz, data, kind, kind, res);
    let sel = in_first_slots(tz, kind, kind, res.len());
    lemma_sum_same_on(data, sel, every(), edit_time());
    lemma_sum_same_on(data, sel, every(), edit_added());
    lemma_sum_same_on(data, sel, every(), edit_deleted());
}

/// The rows that a slot with id `id` counts by their hour of the day (0 to 23), read in zone `tz`:
/// those with that one, or in a cumulative profile any one up to it.
pub open spec fn rows_by_hour(tz: Seq<char>, id: int, cumulative: bool) -> spec_fn(PathlessFileEditDWH) -> bool {
    |x: PathlessFileEditDWH|
        local_hour(tz, x.timestamp as int) matches Some(v) && (if cumulative {
            v <= id
        } else {
            v == id
        })
}

/// The rows that a slot with id `id` counts by their weekday (Monday is 1), read in zone `tz`:
/// those with that one, or in a cumulative profile any one up to it.
pub open spec fn rows_by_weekday(tz: Seq<char>, id: int, cumulative: bool) -> spec_fn(PathlessFileEditDWH) -> bool {
    |x: PathlessFileEditDWH|
        local_weekday(tz, x.timestamp as int) matches Some(v) && (if cumulative {
            v <= id
        } else {
            v == id
        })
}

/// The rows that a slot with id `id` counts by their day of the month counted from 0, read in zone `tz`:
/// those with that one, or in a cumulative profile any one up to it.
pub open spec fn rows_by_day_of_month(tz: Seq<char>, id: int, cumulative: bool) -> spec_fn(PathlessFileEditDWH) -> bool {
    |x: PathlessFileEditDWH|
        local_day0(tz, x.timestamp as int) matches Some(v) && (if cumulative {
            v <= id
        } else {
            v == id
        })
}

/// The rows that a slot with id `id` counts by their month counted from 0, read in zone `tz`:
/// those with that one, or in a cumulative profile any one up to it.
pub open spec fn rows_by_month(tz: Seq<char>, id: int, cumulative: bool) -> spec_fn(PathlessFileEditDWH) -> bool {
    |x: PathlessFileEditDWH|
        local_month0(tz, x.timestamp as int) matches Some(v) && (if cumulative {
            v <= id
        } else {
            v == id
        })
}

/// What each slot of an activity profile holds, by the calendar: a day
/// profile counts a row in the slot of its local hour, a week profile in
/// that of its weekday (Monday is 1), a month profile in that of its day
/// of the month counted from 0, a year profile in that of its month
/// counted from 0; a cumulative profile counts it in every slot from that
/// one on.
pub proof fn law_activity_slots_by_calendar(
    tz: Seq<char>,
    data: Seq<PathlessFileEditDWH>,
    kind: IntervalKind,
    cumulative: bool,
    res: Seq<Activity>,
    a: int,
)
    requires
        is_activity_profile(tz, data, kind, kind, cumulative, res),
        activity_readable(tz, data, kind, kind),
        0 <= a < res.len(),
    ensures
        kind == IntervalKind::Day ==> {
            &&& res[a].time == sum_of(data, rows_by_hour(tz, res[a].id as int, cumulative), edit_time())
            &&& res[a].lines_added == sum_of(data, rows_by_hour(tz, res[a].id as int, cumulative), edit_added())
            &&& res[a].lines_removed == sum_of(data, rows_by_hour(tz, res[a].id as int, cumulative), edit_deleted())
        },
        kind == IntervalKind::Week ==> {
            &&& res[a].time == sum_of(data, rows_by_weekday(tz, res[a].id as int, cumulative), edit_time())
            &&& res[a].lines_added == sum_of(data, rows_by_weekday(tz, res[a].id as int, cumulative), edit_added())
            &&& res[a].lines_removed == sum_of(data, rows_by_weekday(tz, res[a].id as int, cumulative), edit_deleted())
        },
        kind == IntervalKind::Month ==> {
            &&& res[a].time == sum_of(data, rows_by_day_of_month(tz, res[a].id as int, cumulative), edit_time())
            &&& res[a].lines_added == sum_of(data, rows_by_day_of_month(tz, res[a].id as int, cumulative), edit_added())
            &&& res[a].lines_removed == sum_of(data, rows_by_day_of_month(tz, res[a].id as int, cumulative), edit_deleted())
        },
        kind == IntervalKind::Year ==> {
            &&& res[a].time == sum_of(data, rows_by_month(tz, res[a].id as int, cumulative), edit_time())
            &&& res[a].lines_added == sum_of(data, rows_by_month(tz, res[a].id as int, cumulative), edit_added())
            &&& res[a].lines_removed == sum_of(data, rows_by_month(tz, res[a].id as int, cumulative), edit_deleted())
        },
{
    let sel = activity_sel(tz, kind, kind, a, cumulative);
    let r = res[a];
    if kind == IntervalKind::Day {
        let other = rows_by_hour(tz, res[a].id as int, cumulative);
        assert forall|j: int| 0 <= j < data.len() implies sel(#[trigger] data[j]) == other(data[j]) by {}
        lemma_sum_same_on(data, sel, other, edit_time());
        lemma_sum_same_on(data, sel, other, edit_added());
        lemma_sum_same_on(data, sel, other, edit_deleted());
    }
    if kind == IntervalKind::Week {
        let other = rows_by_weekday(tz, res[a].id as int, cumulative);
        assert forall|j: int| 0 <= j < data.len() implies sel(#[trigger] data[j]) == other(data[j]) by {}
        lemma_sum_same_on(data, sel, other, edit_time());
        lemma_sum_same_on(data, sel, other, edit_added());
        lemma_sum_same_on(data, sel, other, edit_deleted());
    }
    if kind == IntervalKind::Month {
        let other = rows_by_day_of_month(tz, res[a].id as int, cumulative);
        assert forall|j: int| 0 <= j < data.len() implies sel(#[trigger] data[j]) == other(data[j]) by {}
        lemma_sum_same_on(data, sel, other, edit_time());
        lemma_sum_same_on(data, sel, other, edit_added());
        lemma_sum_same_on(data, sel, other, edit_deleted());
    }
    if kind == IntervalKind::Year {
        let other = rows_by_month(tz, res[a].id as int, cumulative);
        assert forall|j: int| 0 <= j < data.len() implies sel(#[trigger] data[j]) == other(data[j]) by {}
        lemma_sum_same_on(data, sel, other, edit_time());
        lemma_sum_same_on(data, sel, other, edit_added());
        lemma_sum_same_on(data, sel, other, edit_deleted());
    }
}

/// How many of the first `n` intervals take an item recorded at `ts`.
pub open spec fn takers(bounds: Seq<(i64, i64)>, n: nat, ts: int, cumulative: bool) -> int
    decreases n,
{
    if n == 0 {
        0
    } else {
        takers(bounds, (n - 1) as nat, ts, cumulative) + if takes(bounds, n - 1, ts, cumulative) {
            1int
        } else {
            0
        }
    }
}

/// Whether one of the first `n` intervals holds `ts`.
pub open spec fn any_within(bounds: Seq<(i64, i64)>, n: nat, ts: int) -> bool {
    exists|i: int| 0 <= i < n && within(#[trigger] bounds[i], ts, false)
}

/// The rows that some interval of a timeline holds.
pub open spec fn held_sel(bounds: Seq<(i64, i64)>) -> spec_fn(TimelineDWH) -> bool {
    |x: TimelineDWH| any_within(bounds, bounds.len(), x.timestamp as int)
}

/// The seconds of work in the first `n` intervals, summed.
pub open spec fn timeline_total(res: Seq<Interval>, n: nat) -> int
    decreases n,
{
    if n == 0 {
        0
    } else {
        timeline_total(res, (n - 1) as nat) + res[n - 1].time
    }
}

/// The selected sums of the first `n` intervals, summed.
pub open spec fn selected_total(data: Seq<TimelineDWH>, bounds: Seq<(i64, i64)>, n: nat) -> int
    decreases n,
{
    if n == 0 {
        0
    } else {
        selected_total(data, bounds, (n - 1) as nat) + sum_of(
            data,
            timeline_sel(bounds, n - 1, false),
            timeline_time(),
        )
    }
}

proof fn lemma_takers_one(bounds: Seq<(i64, i64)>, n: nat, ts: int)
    requires
        n <= bounds.len(),
    ensures
        takers(bounds, n, ts, false) == if any_within(bounds, n, ts) {
            1int
        } else {
            0
        },
    decreases n,
{
    if n > 0 {
        lemma_takers_one(bounds, (n - 1) as nat, ts);
        if any_within(bounds, (n - 1) as nat, ts) {
            let i = choose|i: int| 0 <= i < n - 1 && within(#[trigger] bounds[i], ts, false);
            assert(!takes(bounds, n - 1, ts, false));
        }
        if within(bounds[n - 1], ts, false) {
            assert(any_within(bounds, n, ts));
        } else if any_within(bounds, n, ts) {
            let i = choose|i: int| 0 <= i < n && within(#[trigger] bounds[i], ts, false);
            assert(any_within(bounds, (n - 1) as nat, ts));
        }
    }
}

proof fn lemma_selected_total_step(data: Seq<TimelineDWH>, bounds: Seq<(i64, i64)>, n: nat)
    requires
        data.len() > 0,
    ensures
        selected_total(data, bounds, n) == selected_total(data.drop_last(), bounds, n) + takers(
            bounds,
            n,
            data.last().timestamp as int,
            false,
        ) * data.last().time,
    decreases n,
{
    if n > 0 {
        lemma_selected_total_step(data, bounds, (n - 1) as nat);
        let t = data.last().time as int;
        let before = takers(bounds, (n - 1) as nat, data.last().timestamp as int, false);
        let hit: int = if takes(bounds, n - 1, data.last().timestamp as int, false) {
            1
        } else {
            0
        };
        assert((before + hit) * t == before * t + hit * t) by (nonlinear_arith);
    }
}

proof fn lemma_selected_total(data: Seq<TimelineDWH>, bounds: Seq<(i64, i64)>)
    ensures
        selected_total(data, bounds, bounds.len()) == sum_of(data, held_sel(bounds), timeline_time()),
    decreases data.len(),
{
    if data.len() > 0 {
        lemma_selected_total(data.drop_last(), bounds);
        lemma_selected_total_step(data, bounds, bounds.len());
        lemma_takers_one(bounds, bounds.len(), data.last().timestamp as int);
    } else {
        lemma_selected_zero(data, bounds, bounds.len());
    }
}

proof fn lemma_selected_zero(data: Seq<TimelineDWH>, bounds: Seq<(i64, i64)>, n: nat)
    requires
        data.len() == 0,
    ensures
        selected_total(data, bounds, n) == 0,
    decreases n,
{
    if n > 0 {
        lemma_selected_zero(data, bounds, (n - 1) as nat);
    }
}

proof fn lemma_totals_agree(data: Seq<TimelineDWH>, bounds: Seq<(i64, i64)>, res: Seq<Interval>, n: nat)
    requires
        is_timeline(data, bounds, false, res),
        n <= res.len(),
    ensures
        timeline_total(res, n) == selected_total(data, bounds, n),
    decreases n,
{
    if n > 0 {
        lemma_totals_agree(data, bounds, res, (n - 1) as nat);
        let x = res[n - 1];
    }
}

/// A timeline that is not cumulative counts each span of work once: its
/// intervals together hold exactly the work recorded within some
/// interval.
pub proof fn law_timeline_counts_work_once(data: Seq<TimelineDWH>, bounds: Seq<(i64, i64)>, res: Seq<
    Interval,
>)
    requires
        is_timeline(data, bounds, false, res),
    ensures
        timeline_total(res, res.len()) == sum_of(data, held_sel(bounds), timeline_time()),
{
    lemma_totals_agree(data, bounds, res, res.len());
    lemma_selected_total(data, bounds);
}

/// The sum of a numeric field over a list of directory entries.
pub open spec fn entries_total(
    dirs: Seq<SubdirLevelTimelineEntry>,
    field: spec_fn(SubdirLevelTimelineEntry) -> int,
) -> int
    decreases dirs.len(),
{
    if dirs.len() == 0 {
        0
    } else {
        entries_total(dirs.drop_last(), field) + field(dirs.last())
    }
}

/// The seconds of work of a directory entry.
pub open spec fn entry_time() -> spec_fn(SubdirLevelTimelineEntry) -> int {
    |e: SubdirLevelTimelineEntry| e.time as int
}

/// The lines added in a directory entry.
pub open spec fn entry_lines_added() -> spec_fn(SubdirLevelTimelineEntry) -> int {
    |e: SubdirLevelTimelineEntry| e.lines_added as int
}

/// The lines removed in a directory entry.
pub open spec fn entry_lines_removed() -> spec_fn(SubdirLevelTimelineEntry) -> int {
    |e: SubdirLevelTimelineEntry| e.lines_removed as int
}

proof fn lemma_entries_by_keys(
    data: Seq<FileEditDWH>,
    bounds: Seq<(i64, i64)>,
    i: int,
    cumulative: bool,
    depth: i32,
    dirs: Seq<SubdirLevelTimelineEntry>,
    field: spec_fn(SubdirLevelTimelineEntry) -> int,
    val: spec_fn(FileEditDWH) -> int,
    m: int,
)
    requires
        0 <= m <= dirs.len(),
        forall|q: int|
            0 <= q < dirs.len() ==> field(#[trigger] dirs[q]) == sum_of(
                data,
                dir_sel(bounds, i, cumulative, depth, dirs[q].path@),
                val,
            ),
    ensures
        entries_total(dirs.take(m), field) == sum_by_keys(
            data,
            dir_paths(dirs).take(m),
            subdir_sel(bounds, i, cumulative),
            subdir_key(depth),
            val,
        ),
    decreases m,
{
    if m > 0 {
        lemma_entries_by_keys(data, bounds, i, cumulative, depth, dirs, field, val, m - 1);
        assert(dirs.take(m).drop_last() =~= dirs.take(m - 1));
        assert(dir_paths(dirs).take(m).drop_last() =~= dir_paths(dirs).take(m - 1));
        let p = dirs[m - 1].path@;
        assert(dir_paths(dirs).take(m).last() == p);
        assert(dir_sel(bounds, i, cumulative, depth, p) =~= keyed(
            subdir_sel(bounds, i, cumulative),
            subdir_key(depth),
            p,
        ));
    }
}

/// The directory entries of an interval share its work out: their seconds
/// of work, lines added and lines removed add up to those of all the rows
/// the interval takes, each row counted under exactly one directory.
pub proof fn law_subdir_entries_partition_work(
    data: Seq<FileEditDWH>,
    bounds: Seq<(i64, i64)>,
    cumulative: bool,
    depth: i32,
    res: Seq<SubdirLevelTimeline>,
    i: int,
)
    requires
        is_subdir_timeline(data, bounds, cumulative, depth, res),
        0 <= i < res.len(),
    ensures
        entries_total(res[i].directories@, entry_time()) == sum_of(
            data,
            subdir_sel(bounds, i, cumulative),
            file_time(),
        ),
        entries_total(res[i].directories@, entry_lines_added()) == sum_of(
            data,
            subdir_sel(bounds, i, cumulative),
            file_added(),
        ),
        entries_total(res[i].directories@, entry_lines_removed()) == sum_of(
            data,
            subdir_sel(bounds, i, cumulative),
            file_deleted(),
        ),
{
    let dirs = res[i].directories@;
    let sel = subdir_sel(bounds, i, cumulative);
    let key = subdir_key(depth);
    assert(dir_paths(dirs).len() == dirs.len());
    lemma_take_all(dirs);
    lemma_take_all(dir_paths(dirs));
    lemma_entries_by_keys(data, bounds, i, cumulative, depth, dirs, entry_time(), file_time(), dirs.len() as int);
    lemma_entries_by_keys(data, bounds, i, cumulative, depth, dirs, entry_lines_added(), file_added(), dirs.len() as int);
    lemma_entries_by_keys(data, bounds, i, cumulative, depth, dirs, entry_lines_removed(), file_deleted(), dirs.len() as int);
    lemma_sum_by_distinct_keys(data, sel, key, file_time());
    lemma_sum_by_distinct_keys(data, sel, key, file_added());
    lemma_sum_by_distinct_keys(data, sel, key, file_deleted());
}

/// The distinct ids of a list, by increasing value, as sorting and then
/// dropping repeats gives them.
pub fn sorted_unique_ids(ids: &Vec<i32>) -> (res: Vec<i32>)
    ensures
        forall|i: int, j: int| 0 <= i < j < res@.len() ==> #[trigger] res@[i] < #[trigger] res@[j],
        forall|x: i32| res@.contains(x) <==> ids@.contains(x),
{
    let mut res: Vec<i32> = Vec::new();
    let mut k: usize = 0;
    while k < ids.len()
        invariant
            0 <= k <= ids@.len(),
            forall|i: int, j: int| 0 <= i < j < res@.len() ==> #[trigger] res@[i] < #[trigger] res@[j],
            forall|x: i32| res@.contains(x) <==> ids@.take(k as int).contains(x),
        decreases ids@.len() - k,
    {
        let x = ids[k];
        let n = res.len();
        let mut p: usize = 0;
        while p < n && res[p] < x
            invariant
                n == res@.len(),
                0 <= p <= n,
                forall|q: int| 0 <= q < p ==> #[trigger] res@[q] < x,
            decreases n - p,
        {
            p = p + 1;
        }
        let ghost before = res@;
        let ghost t0 = ids@.take(k as int);
        let ghost t1 = ids@.take(k + 1);
        proof {
            assert(t1 =~= t0.push(x));
            assert forall|y: i32| t1.contains(y) <==> (t0.contains(y) || y == x) by {
                if t1.contains(y) {
                    let q = choose|q: int| 0 <= q < t1.len() && t1[q] == y;
                    if q < k {
                        assert(t0[q] == y);
                    }
                }
                if t0.contains(y) {
                    let q = choose|q: int| 0 <= q < t0.len() && t0[q] == y;
                    assert(t1[q] == y);
                }
                if y == x {
                    assert(t1[k as int] == y);
                }
            }
        }
        if !(p < n && res[p] == x) {
            res.insert(p, x);
            proof {
                assert(res@ == before.insert(p as int, x));
                assert forall|i: int, j: int| 0 <= i < j < res@.len() implies #[trigger] res@[i]
                    < #[trigger] res@[j] by {
                    if j < p {
                        assert(res@[i] == before[i] && res@[j] == before[j]);
                    } else if j == p {
                        assert(res@[i] == before[i]);
                    } else if i > p {
                        assert(res@[i] == before[i - 1] && res@[j] == before[j - 1]);
                    } else if i == p {
                        assert(res@[j] == before[j - 1]);
                        assert(before[p as int] > x);
                        if j - 1 > p {
                            assert(before[p as int] < before[j - 1]);
                        }
                    } else {
                        assert(res@[i] == before[i] && res@[j] == before[j - 1]);
                    }
                }
                assert forall|y: i32| res@.contains(y) <==> (before.contains(y) || y == x) by {
                    if res@.contains(y) {
                        let q = choose|q: int| 0 <= q < res@.len() && res@[q] == y;
                        if q < p {
                            assert(before[q] == y);
                        } else if q > p {
                            assert(before[q - 1] == y);
                        }
                    }
                    if before.contains(y) {
                        let q = choose|q: int| 0 <= q < before.len() && before[q] == y;
                        if q < p {
                            assert(res@[q] == y);
                        } else {
                            assert(res@[q + 1] == y);
                        }
                    }
                    if y == x {
                        assert(res@[p as int] == x);
                    }
                }
                assert forall|y: i32| res@.contains(y) <==> t1.contains(y) by {
                    assert(res@.contains(y) <==> (before.contains(y) || y == x));
                    assert(before.contains(y) <==> t0.contains(y));
                    assert(t1.contains(y) <==> (t0.contains(y) || y == x));
                }
            }
        } else {
            proof {
                assert(before[p as int] == x);
                assert(before.contains(x));
                assert forall|y: i32| res@.contains(y) <==> t1.contains(y) by {
                    assert(before.contains(y) <==> t0.contains(y));
                    assert(t1.contains(y) <==> (t0.contains(y) || y == x));
                }
            }
        }
        k = k + 1;
    }
    proof {
        assert(ids@.take(k as int) =~= ids@);
    }
    res
}

/// How many different users recorded the rows of `data`.
pub fn distinct_user_count(data: &Vec<FileEditDWH>) -> (res: usize)
    ensures
        res == distinct_of(data@, crate::tally::every(), file_user()).len(),
{
    let mut users: Vec<String> = Vec::new();
    let mut j: usize = 0;
    assert(data@.take(0).len() == 0);
    assert(views(users@) =~= Seq::<Seq<char>>::empty());
    while j < data.len()
        invariant
            0 <= j <= data@.len(),
            views(users@) == distinct_of(data@.take(j as int), crate::tally::every(), file_user()),
        decreases data@.len() - j,
    {
        proof {
            lemma_distinct_step(data@, j as int, crate::tally::every(), file_user());
        }
        push_if_absent(&mut users, &data[j].user);
        j = j + 1;
    }
    proof {
        lemma_take_all(data@);
    }
    users.len()
}

} // verus!
