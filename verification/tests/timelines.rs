use gtm_api::timeline::dwh::{FileEditDWH, PathlessFileEditDWH, TimelineDWH};
use gtm_api::timeline::mapper::{
    distinct_user_count, get_datetime_tz_from_seconds, map_activity, map_subdir_level_timeline,
    map_timeline, sorted_unique_ids,
};

const JAN_1_2021: i64 = 1609459200; // a Friday
const DAY: i64 = 86400;

fn row(user: &str, time: i64, timestamp: i64) -> TimelineDWH {
    TimelineDWH { user: user.to_string(), time, timestamp, lines_added: 0, lines_removed: 0 }
}

fn edit(user: &str, time: i64, added: i64, deleted: i64, timestamp: i64) -> PathlessFileEditDWH {
    PathlessFileEditDWH { user: user.to_string(), time, lines_added: added, lines_deleted: deleted, timestamp }
}

fn file_edit(user: &str, path: &str, time: i64, timestamp: i64, hash: &str) -> FileEditDWH {
    FileEditDWH {
        user: user.to_string(),
        path: path.to_string(),
        time,
        lines_added: 10,
        lines_deleted: 1,
        timestamp,
        commit_hash: hash.to_string(),
    }
}

#[test]
fn timeline_by_day() {
    let data = vec![
        row("ann", 100, JAN_1_2021 + 10),
        row("bob", 50, JAN_1_2021 + 20),
        row("ann", 30, JAN_1_2021 + DAY + 5),
        row("ann", 7, JAN_1_2021 + 2 * DAY + 5),
    ];
    let res = map_timeline(data, JAN_1_2021, JAN_1_2021 + DAY + 100, "UTC", "day", false).unwrap();
    assert_eq!(res.len(), 2);
    assert_eq!((res[0].start, res[0].end), (JAN_1_2021, JAN_1_2021 + DAY - 1));
    assert_eq!(res[0].time, 150);
    assert_eq!(res[0].users, vec!["ann".to_string(), "bob".to_string()]);
    assert_eq!(res[1].time, 30);
    assert_eq!(res[1].users, vec!["ann".to_string()]);
}

#[test]
fn cumulative_timeline_grows() {
    let data = vec![
        row("ann", 100, JAN_1_2021 + 10),
        row("bob", 50, JAN_1_2021 + DAY + 20),
        row("cid", 5, JAN_1_2021 - 20),
    ];
    let res = map_timeline(data, JAN_1_2021, JAN_1_2021 + 2 * DAY, "UTC", "Day", true).unwrap();
    let times: Vec<i64> = res.iter().map(|i| i.time).collect();
    assert_eq!(times, vec![105, 155, 155]);
    assert!(times.windows(2).all(|w| w[0] <= w[1]));
    assert_eq!(res[2].users, vec!["ann".to_string(), "bob".to_string(), "cid".to_string()]);
}

#[test]
fn timeline_counts_work_once() {
    let data = vec![
        row("ann", 1, JAN_1_2021),
        row("ann", 2, JAN_1_2021 + 3600),
        row("ann", 4, JAN_1_2021 + 7200 - 1),
        row("ann", 8, JAN_1_2021 + 5 * 3600),
        row("ann", 16, JAN_1_2021 - 1),
    ];
    let res = map_timeline(data, JAN_1_2021, JAN_1_2021 + 3 * 3600, "UTC", "hour", false).unwrap();
    // the span recorded in the last second of an hour falls in no interval
    let total: i64 = res.iter().map(|i| i.time).sum();
    assert_eq!(total, 3);
}

#[test]
fn timeline_refuses_unreadable_periods() {
    assert!(map_timeline(vec![], JAN_1_2021, JAN_1_2021 + DAY, "Mars/Olympus", "day", false).is_none());
    assert!(map_timeline(vec![], -5, JAN_1_2021, "UTC", "day", false).is_none());
    assert_eq!(get_datetime_tz_from_seconds(-1, "UTC"), None);
    assert_eq!(get_datetime_tz_from_seconds(5, "UTC"), Some(5));
    assert_eq!(get_datetime_tz_from_seconds(5, "Mars/Olympus"), None);
}

#[test]
fn activity_by_hour_and_weekday() {
    let data = vec![
        edit("ann", 10, 1, 2, JAN_1_2021 + 3 * 3600),
        edit("bob", 20, 3, 4, JAN_1_2021 + 3 * 3600 + 60),
        edit("ann", 40, 5, 6, JAN_1_2021 + 5 * 3600),
    ];
    let by_hour = map_activity(data, "UTC", "DAY", false).unwrap();
    assert_eq!(by_hour.len(), 24);
    assert_eq!(by_hour[3].time, 30);
    assert_eq!((by_hour[3].lines_added, by_hour[3].lines_removed), (4, 6));
    assert_eq!(by_hour[3].users.len(), 2);
    assert_eq!(by_hour[5].time, 40);
    assert_eq!(by_hour[4].time, 0);

    let data = vec![edit("ann", 10, 0, 0, JAN_1_2021), edit("ann", 5, 0, 0, JAN_1_2021 + 3 * DAY)];
    let by_weekday = map_activity(data, "UTC", "week", false).unwrap();
    // Friday is the fifth weekday, Monday the eighth after it
    assert_eq!(by_weekday[4].time, 10);
    assert_eq!(by_weekday[4].id, 5);
    assert_eq!(by_weekday[0].time, 5);
}

#[test]
fn cumulative_activity_grows() {
    let data = vec![
        edit("ann", 10, 0, 0, JAN_1_2021 + 2 * 3600),
        edit("bob", 20, 0, 0, JAN_1_2021 + 20 * 3600),
    ];
    let res = map_activity(data, "UTC", "day", true).unwrap();
    assert_eq!(res[1].time, 0);
    assert_eq!(res[2].time, 10);
    assert_eq!(res[23].time, 30);
    assert!(res.windows(2).all(|w| w[0].time <= w[1].time));
}

#[test]
fn activity_in_a_zone_and_failures() {
    let data = vec![edit("ann", 10, 0, 0, JAN_1_2021)];
    let res = map_activity(data, "Europe/Tallinn", "day", false).unwrap();
    assert_eq!(res[2].time, 10);
    assert!(map_activity(vec![], "Mars/Olympus", "day", false).is_none());
    assert!(map_activity(vec![edit("ann", 1, 0, 0, -1)], "UTC", "day", false).is_none());
    // with no slots no item is placed, but every timestamp is still read
    assert_eq!(map_activity(vec![edit("ann", 1, 0, 0, 5)], "UTC", "hour", false).unwrap().len(), 0);
}

#[test]
fn subdirectory_timeline() {
    let data = vec![
        file_edit("ann", "src/a/x.rs", 10, JAN_1_2021 + 1, "c1"),
        file_edit("bob", "./src/a/y.rs", 20, JAN_1_2021 + 2, "c2"),
        file_edit("ann", "docs/readme.md", 5, JAN_1_2021 + 3, "c1"),
        file_edit("ann", "build/Tool.app", 99, JAN_1_2021 + 4, "c3"),
        file_edit("ann", "src/b/z.rs", 1, JAN_1_2021 + DAY + 4, "c4"),
    ];
    let res = map_subdir_level_timeline(data, 2, JAN_1_2021, JAN_1_2021 + DAY, "UTC", "day", false).unwrap();
    assert_eq!(res.len(), 2);
    let dirs = &res[0].directories;
    assert_eq!(dirs.len(), 2);
    assert_eq!(dirs[0].path, "/src/a");
    assert_eq!(dirs[0].time, 30);
    assert_eq!(dirs[0].lines_added, 20);
    assert_eq!(dirs[0].lines_removed, 2);
    assert_eq!(dirs[0].commits, vec!["c1".to_string(), "c2".to_string()]);
    assert_eq!(dirs[0].users, vec!["ann".to_string(), "bob".to_string()]);
    assert_eq!(dirs[1].path, "/docs/readme.md");
    assert_eq!(dirs[1].time, 5);
    assert_eq!(res[1].directories.len(), 1);
    assert_eq!(res[1].directories[0].path, "/src/b");
    // the entries of an interval hold its work exactly once
    let total: i64 = res[0].directories.iter().map(|d| d.time).sum();
    assert_eq!(total, 35);
}

#[test]
fn distinct_ids_and_users() {
    assert_eq!(sorted_unique_ids(&vec![5, 3, 5, -1, 3]), vec![-1, 3, 5]);
    assert_eq!(sorted_unique_ids(&vec![]), Vec::<i32>::new());
    let data = vec![
        file_edit("ann", "a", 1, 0, "h"),
        file_edit("bob", "a", 1, 0, "h"),
        file_edit("ann", "b", 1, 0, "h"),
    ];
    assert_eq!(distinct_user_count(&data), 2);
}

#[test]
fn activity_profile_counts_each_row_once() {
    let data = vec![
        edit("ann", 100, 1, 0, JAN_1_2021 + 10),
        edit("bob", 50, 2, 1, JAN_1_2021 + 3 * 3600),
        edit("ann", 25, 0, 0, JAN_1_2021 + DAY + 23 * 3600),
        edit("cid", 5, 0, 4, JAN_1_2021 + 9 * DAY),
    ];
    for interval in ["day", "week", "month", "year"] {
        let res = map_activity(data.iter().map(|e| edit(&e.user, e.time, e.lines_added, e.lines_deleted, e.timestamp)).collect(), "Europe/Tallinn", interval, false).unwrap();
        let total: i64 = res.iter().map(|a| a.time).sum();
        assert_eq!(total, 180, "{}", interval);
        let added: i64 = res.iter().map(|a| a.lines_added).sum();
        let removed: i64 = res.iter().map(|a| a.lines_removed).sum();
        assert_eq!((added, removed), (3, 5), "{}", interval);
    }
}

#[test]
fn large_sums_in_different_intervals_are_kept() {
    let big = i64::MAX - 10;
    let data = vec![row("ann", big, JAN_1_2021 + 10), row("bob", big, JAN_1_2021 + DAY + 10)];
    let res = map_timeline(data, JAN_1_2021, JAN_1_2021 + DAY + 100, "UTC", "day", false).unwrap();
    assert_eq!((res[0].time, res[1].time), (big, big));
    let back_and_forth = vec![
        row("ann", big, JAN_1_2021 + 10),
        row("ann", -big, JAN_1_2021 + 20),
        row("ann", 5, JAN_1_2021 + 30),
    ];
    let res = map_timeline(back_and_forth, JAN_1_2021, JAN_1_2021 + 100, "UTC", "day", false).unwrap();
    assert_eq!(res[0].time, 5);
}

#[test]
fn overflowing_sums_are_refused() {
    let big = i64::MAX - 10;
    let data = vec![row("ann", big, JAN_1_2021 + 10), row("bob", big, JAN_1_2021 + 20)];
    assert!(map_timeline(data, JAN_1_2021, JAN_1_2021 + 100, "UTC", "day", false).is_none());
    let edits = vec![edit("ann", 1, big, 0, JAN_1_2021), edit("bob", 1, big, 0, JAN_1_2021 + 5)];
    assert!(map_activity(edits, "UTC", "day", false).is_none());
    let files = vec![
        file_edit("ann", "src/a.rs", big, JAN_1_2021 + 1, "c1"),
        file_edit("bob", "src/b.rs", big, JAN_1_2021 + 2, "c2"),
    ];
    assert!(map_subdir_level_timeline(files, 1, JAN_1_2021, JAN_1_2021 + 100, "UTC", "day", false).is_none());
    let split = vec![
        file_edit("ann", "src/a.rs", big, JAN_1_2021 + 1, "c1"),
        file_edit("bob", "docs/b.md", big, JAN_1_2021 + 2, "c2"),
    ];
    let res = map_subdir_level_timeline(split, 1, JAN_1_2021, JAN_1_2021 + 100, "UTC", "day", false).unwrap();
    assert_eq!(res[0].directories.len(), 2);
}

#[test]
fn app_files_change_nothing() {
    let with_app = vec![
        file_edit("ann", "src/a/x.rs", 10, JAN_1_2021 + 1, "c1"),
        file_edit("ann", "build/Tool.app", i64::MAX, JAN_1_2021 + 2, "c2"),
        file_edit("bob", "src/a/y.rs", 20, JAN_1_2021 + 3, "c3"),
        file_edit("bob", "more/Other.app", i64::MAX, JAN_1_2021 + 4, "c4"),
    ];
    let without: Vec<FileEditDWH> = with_app
        .iter()
        .filter(|e| !e.path.ends_with(".app"))
        .map(|e| file_edit(&e.user, &e.path, e.time, e.timestamp, &e.commit_hash))
        .collect();
    let a = map_subdir_level_timeline(with_app, 2, JAN_1_2021, JAN_1_2021 + 100, "UTC", "day", false).unwrap();
    let b = map_subdir_level_timeline(without, 2, JAN_1_2021, JAN_1_2021 + 100, "UTC", "day", false).unwrap();
    assert_eq!(a.len(), b.len());
    for (x, y) in a.iter().zip(b.iter()) {
        assert_eq!((x.start, x.end, x.directories.len()), (y.start, y.end, y.directories.len()));
        for (d, e) in x.directories.iter().zip(y.directories.iter()) {
            assert_eq!((&d.path, d.time, d.lines_added, d.lines_removed), (&e.path, e.time, e.lines_added, e.lines_removed));
            assert_eq!((&d.commits, &d.users), (&e.commits, &e.users));
        }
    }
}
