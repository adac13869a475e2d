use gtm_api::tally::sorted_unique_strings;
use gtm_api::clock::period_labels;
use gtm_api::timeline::mapper::get_datetime_tz_from_seconds;
use gtm_api::text::{
    contains_str, cut_path, ends_with, parse_i32, split_commas, str_eq,
};
use gtm_api::timeline::helper::{
    decimal_string, generate_activity_interval, generate_intervals, get_interval_duration,
    get_next_interval_start, interval_kind, next_month, next_start, next_year, IntervalKind,
};

const JAN_1_2021: i64 = 1609459200;
const DAY: i64 = 86400;

#[test]
fn cut_path_keeps_first_segments() {
    assert_eq!(cut_path("./src/main/foo.rs", 2), "/src/main");
    assert_eq!(cut_path("src/main/foo.rs", 1), "/src");
    assert_eq!(cut_path("src/main/foo.rs", 3), "/src/main/foo.rs");
    assert_eq!(cut_path("src/main/foo.rs", 9), "/src/main/foo.rs");
}

#[test]
fn cut_path_edge_cases() {
    assert_eq!(cut_path("src/main/foo.rs", 0), "/");
    assert_eq!(cut_path("src/main/foo.rs", -1), "/src/main/foo.rs");
    assert_eq!(cut_path("a//b", 2), "/a");
    assert_eq!(cut_path("./././x/y", 5), "/x/y");
    assert_eq!(cut_path("", 3), "/");
    assert_eq!(cut_path("dir/", 3), "/dir");
}

#[test]
fn cut_path_has_one_leading_slash_and_no_trailing_one() {
    for (p, d) in [("a/b/c/", 2), ("x", 1), ("./y//", 4), ("/abs/path", 2)] {
        let r = cut_path(p, d);
        assert!(r.starts_with('/'));
        assert!(r == "/" || !r.ends_with('/'));
    }
}

#[test]
fn string_helpers() {
    assert!(ends_with("project.app", ".app"));
    assert!(!ends_with("app", ".app"));
    assert!(contains_str("owner/repository", "repo"));
    assert!(contains_str("abc", ""));
    assert!(!contains_str("abc", "abd"));
    assert!(str_eq("day", "day"));
    assert!(!str_eq("day", "Day"));
    assert_eq!(split_commas("a,,b"), vec!["a".to_string(), "".to_string(), "b".to_string()]);
    assert_eq!(split_commas(""), vec!["".to_string()]);
    assert_eq!(interval_kind("MoNtH"), IntervalKind::Month);
}

#[test]
fn parse_i32_reads_signed_decimals() {
    assert_eq!(parse_i32("42"), Some(42));
    assert_eq!(parse_i32("-7"), Some(-7));
    assert_eq!(parse_i32("+3"), Some(3));
    assert_eq!(parse_i32("007"), Some(7));
    assert_eq!(parse_i32("-2147483648"), Some(i32::MIN));
    assert_eq!(parse_i32("2147483647"), Some(i32::MAX));
    assert_eq!(parse_i32("2147483648"), None);
    assert_eq!(parse_i32("99999999999999999999"), None);
    assert_eq!(parse_i32(""), None);
    assert_eq!(parse_i32("-"), None);
    assert_eq!(parse_i32("12a"), None);
    assert_eq!(parse_i32(" 1"), None);
}

#[test]
fn decimal_strings() {
    assert_eq!(decimal_string(0), "0");
    assert_eq!(decimal_string(7), "7");
    assert_eq!(decimal_string(1234), "1234");
}

#[test]
fn interval_names_in_any_case() {
    assert_eq!(interval_kind("DAY"), IntervalKind::Day);
    assert_eq!(interval_kind("Hour"), IntervalKind::Hour);
    assert_eq!(interval_kind("week"), IntervalKind::Week);
    assert_eq!(interval_kind("MONTH"), IntervalKind::Month);
    assert_eq!(interval_kind("year"), IntervalKind::Year);
    assert_eq!(interval_kind("fortnight"), IntervalKind::Other);
    assert_eq!(get_interval_duration("hour"), 3600);
    assert_eq!(get_interval_duration("day"), 86400);
    assert_eq!(get_interval_duration("week"), 604800);
    assert_eq!(get_interval_duration("anything"), 604800);
}

#[test]
fn activity_profiles() {
    let day = generate_activity_interval("Day");
    assert_eq!(day.len(), 24);
    assert_eq!(day[0].id, 0);
    assert_eq!(day[0].label, "0");
    assert_eq!(day[23].label, "23");
    let week = generate_activity_interval("week");
    assert_eq!(week.len(), 7);
    assert_eq!(week[0].id, 1);
    assert_eq!(week[0].label, "Monday");
    assert_eq!(week[6].id, 7);
    assert_eq!(week[6].label, "Sunday");
    let month = generate_activity_interval("month");
    assert_eq!(month.len(), 31);
    assert_eq!(month[0].id, 0);
    assert_eq!(month[0].label, "1");
    assert_eq!(month[30].label, "31");
    let year = generate_activity_interval("YEAR");
    assert_eq!(year.len(), 12);
    assert_eq!(year[11].id, 11);
    assert_eq!(year[11].label, "12");
    for a in day.iter().chain(week.iter()).chain(month.iter()).chain(year.iter()) {
        assert_eq!((a.time, a.lines_added, a.lines_removed), (0, 0, 0));
        assert!(a.users.is_empty());
    }
    assert!(generate_activity_interval("hour").is_empty());
    assert!(generate_activity_interval("decade").is_empty());
}

#[test]
fn time_zones_and_ranges() {
    assert_eq!(get_datetime_tz_from_seconds(JAN_1_2021, "Europe/Tallinn"), Some(JAN_1_2021));
    assert_eq!(get_datetime_tz_from_seconds(JAN_1_2021, "UTC"), Some(JAN_1_2021));
    assert_eq!(get_datetime_tz_from_seconds(JAN_1_2021, "Mars/Olympus"), None);
    assert_eq!(get_datetime_tz_from_seconds(-1, "UTC"), None);
    assert_eq!(get_datetime_tz_from_seconds(i64::MAX, "UTC"), None);
    assert_eq!(get_next_interval_start("UTC", JAN_1_2021, "hour"), Some(JAN_1_2021 + 3600));
    assert_eq!(get_next_interval_start("UTC", i64::MAX - 10, "hour"), None);
    assert_eq!(
        period_labels("UTC", JAN_1_2021, JAN_1_2021 + DAY),
        Some(("2021-01-01T00:00:00+00:00".to_string(), "2021-01-02T00:00:00+00:00".to_string()))
    );
    assert_eq!(
        period_labels("Europe/Tallinn", JAN_1_2021, JAN_1_2021),
        Some(("2021-01-01T02:00:00+02:00".to_string(), "2021-01-01T02:00:00+02:00".to_string()))
    );
    assert_eq!(period_labels("Nowhere/Else", JAN_1_2021, JAN_1_2021), None);
}

#[test]
fn calendar_steps() {
    // January 15th to February 15th
    assert_eq!(next_month("UTC", JAN_1_2021 + 14 * DAY), Some(JAN_1_2021 + 45 * DAY));
    // December moves to January of the next year
    let dec_10_2020 = 1607558400;
    assert_eq!(next_month("UTC", dec_10_2020), Some(JAN_1_2021 + 9 * DAY));
    // January 31st has no February counterpart: January of the next year is taken
    let jan_31_2021 = JAN_1_2021 + 30 * DAY;
    let jan_31_2022 = 1640995200 + 30 * DAY;
    assert_eq!(next_month("UTC", jan_31_2021), Some(jan_31_2022));
    assert_eq!(next_year("UTC", JAN_1_2021), Some(1640995200));
    // February 29th has no counterpart a year later
    let feb_29_2020 = 1582934400;
    assert_eq!(next_year("UTC", feb_29_2020), None);
    assert_eq!(next_month("UTC", feb_29_2020), None);
    assert_eq!(next_month("Nowhere/Else", JAN_1_2021), None);
    assert_eq!(get_next_interval_start("UTC", JAN_1_2021, "HOUR"), Some(JAN_1_2021 + 3600));
    assert_eq!(get_next_interval_start("UTC", JAN_1_2021, "day"), Some(JAN_1_2021 + DAY));
    assert_eq!(get_next_interval_start("UTC", JAN_1_2021, "Week"), Some(JAN_1_2021 + 7 * DAY));
    assert_eq!(get_next_interval_start("UTC", JAN_1_2021, "month"), Some(JAN_1_2021 + 31 * DAY));
    assert_eq!(get_next_interval_start("UTC", JAN_1_2021, "other"), Some(1640995200));
    assert_eq!(next_start("UTC", JAN_1_2021, IntervalKind::Year), Some(1640995200));
}

#[test]
fn intervals_of_a_period() {
    let b = generate_intervals("UTC", JAN_1_2021, JAN_1_2021 + 2 * DAY, IntervalKind::Day).unwrap();
    assert_eq!(
        b,
        vec![
            (JAN_1_2021, JAN_1_2021 + DAY - 1),
            (JAN_1_2021 + DAY, JAN_1_2021 + 2 * DAY - 1),
            (JAN_1_2021 + 2 * DAY, JAN_1_2021 + 3 * DAY - 1),
        ]
    );
    let empty = generate_intervals("UTC", JAN_1_2021 + 1, JAN_1_2021, IntervalKind::Hour).unwrap();
    assert!(empty.is_empty());
    let months =
        generate_intervals("UTC", JAN_1_2021, JAN_1_2021 + 40 * DAY, IntervalKind::Month).unwrap();
    assert_eq!(months.len(), 2);
    assert_eq!(months[0], (JAN_1_2021, JAN_1_2021 + 31 * DAY - 1));
    assert_eq!(months[1].0, JAN_1_2021 + 31 * DAY);
    assert_eq!(generate_intervals("Nowhere/Else", JAN_1_2021, JAN_1_2021, IntervalKind::Month), None);
}

#[test]
fn intervals_cover_the_period_once() {
    let start = JAN_1_2021 + 5000;
    let end = start + 30 * DAY;
    for kind in [IntervalKind::Hour, IntervalKind::Day, IntervalKind::Week, IntervalKind::Month, IntervalKind::Year] {
        let b = generate_intervals("Europe/Tallinn", start, end, kind).unwrap();
        assert_eq!(b[0].0, start);
        for w in b.windows(2) {
            assert_eq!(w[0].1 + 1, w[1].0);
        }
        for t in [start, start + 1, start + 12345, end - 1, end] {
            assert_eq!(b.iter().filter(|(s, e)| *s <= t && t <= *e).count(), 1);
        }
    }
}


#[test]
fn cut_path_prefixes_grow_with_depth() {
    for p in ["./src/main/foo.rs", "a//b/c", "/abs/path/x", "dir/", "", "x"] {
        assert_eq!(cut_path(p, 0), "/");
        for d1 in 0..5 {
            for d2 in d1..6 {
                let (a, b) = (cut_path(p, d1), cut_path(p, d2));
                assert!(b.starts_with(&a), "{} {} {}", p, d1, d2);
                assert!(a.starts_with('/'));
                assert!(a == "/" || !a.ends_with('/'));
            }
        }
    }
}

#[test]
fn strings_sorted_and_unique() {
    let v: Vec<String> = ["other", "/src", "/docs", "/src", "/src/a", "/Zeta", "", "other"]
        .iter()
        .map(|s| s.to_string())
        .collect();
    let mut expected = v.clone();
    expected.sort();
    expected.dedup();
    assert_eq!(sorted_unique_strings(&v), expected);
    assert!(sorted_unique_strings(&vec![]).is_empty());
    let unicode: Vec<String> = ["é", "e", "z", "ä"].iter().map(|s| s.to_string()).collect();
    let mut u = unicode.clone();
    u.sort();
    assert_eq!(sorted_unique_strings(&unicode), u);
}

#[test]
fn labels_at_the_end_of_time() {
    let last = chrono::DateTime::<chrono::Utc>::MAX_UTC.timestamp();
    assert!(period_labels("UTC", last, last).is_some());
    assert_eq!(period_labels("Asia/Tokyo", last, last), None);
    assert_eq!(period_labels("Asia/Tokyo", JAN_1_2021, last), None);
    let first = chrono::DateTime::<chrono::Utc>::MIN_UTC.timestamp();
    assert_eq!(period_labels("America/New_York", first, JAN_1_2021), None);
}
