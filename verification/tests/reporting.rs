//! Sizes, dates, text and the report.

use media_purger::model::GroupedItem;
use media_purger::model::MatchedItem;
use media_purger::order::merge_sort;
use media_purger::report::dry_run_report;
use media_purger::size::format_size;
use media_purger::text::is_less;
use media_purger::text::is_same;
use media_purger::text::join;
use media_purger::text::push_decimal;
use media_purger::text::push_signed_decimal;
use media_purger::text::push_two_digits;
use media_purger::time::current_instant;
use media_purger::time::days_ago;
use media_purger::time::format_age;
use media_purger::time::format_days_ago;
use media_purger::time::format_days_ago_at;
use media_purger::time::parse_date;
use media_purger::time::Instant;

fn by_float(size: u64) -> String {
    let units = [("TB", 1u64 << 40), ("GB", 1 << 30), ("MB", 1 << 20), ("KB", 1 << 10)];
    for (name, unit) in units {
        if size >= unit {
            return format!("{:.2} {}", size as f64 / unit as f64, name);
        }
    }
    format!("{} B", size)
}

fn film(id: &str, size: u64, date: Option<&str>) -> MatchedItem {
    MatchedItem {
        id: id.to_string(),
        name: format!("Film {}", id),
        item_type: "Movie".to_string(),
        path: format!("/films/{}", id),
        last_played_date: date.map(|d| d.to_string()),
        played_by: vec!["alice".to_string(), "bob".to_string()],
        protected_by: Vec::new(),
        size,
        series_name: None,
        season_number: None,
        episode_number: None,
        series_id: None,
        season_id: None,
    }
}

#[test]
fn sizes_take_the_largest_unit() {
    assert_eq!(format_size(0), "0 B");
    assert_eq!(format_size(1023), "1023 B");
    assert_eq!(format_size(1024), "1.00 KB");
    assert_eq!(format_size(1536), "1.50 KB");
    assert_eq!(format_size(1024 * 1024 - 1), "1024.00 KB");
    assert_eq!(format_size(1024 * 1024), "1.00 MB");
    assert_eq!(format_size(5 * 1024 * 1024 * 1024 + 300 * 1024 * 1024), "5.29 GB");
    assert_eq!(format_size(1024 * 1024 * 1024 * 1024), "1.00 TB");
    assert_eq!(format_size(u64::MAX), "16777216.00 TB");
}

#[test]
fn halves_go_to_the_even_hundredth() {
    assert_eq!(format_size(1152), "1.12 KB");
    assert_eq!(format_size(1408), "1.38 KB");
    assert_eq!(format_size(1664), "1.62 KB");
    assert_eq!(format_size(1920), "1.88 KB");
}

#[test]
fn sizes_agree_with_floating_point() {
    let mut size: u64 = 1;
    for step in 0..4000u64 {
        assert_eq!(format_size(size), by_float(size));
        size = size.wrapping_mul(6364136223846793005).wrapping_add(1442695040888963407) >> (step % 50);
    }
    for power in 0..64 {
        let base = 1u64 << power;
        for near in [base.wrapping_sub(1), base, base + base / 8, base + base / 2 + base / 8, base | 1] {
            assert_eq!(format_size(near), by_float(near));
        }
    }
    for n in 0..2000u64 {
        assert_eq!(format_size(n * 7), by_float(n * 7));
        assert_eq!(format_size(u64::MAX - n * 511), by_float(u64::MAX - n * 511));
    }
}

#[test]
fn dates_are_read() {
    assert_eq!(parse_date("1970-01-02T00:00:00Z"), Some(Instant { seconds: 86400, nanos: 0 }));
    assert_eq!(
        parse_date("1970-01-01T01:00:00.25+01:00"),
        Some(Instant { seconds: 0, nanos: 250_000_000 })
    );
    assert_eq!(
        parse_date("2016-12-31T23:59:60.5Z"),
        Some(Instant { seconds: 1483228799, nanos: 1_500_000_000 })
    );
    assert_eq!(parse_date("2016-12-31"), None);
    assert_eq!(parse_date(""), None);
}

#[test]
fn days_are_counted_whole() {
    let now = parse_date("2024-03-10T12:00:00Z").unwrap();
    assert_eq!(days_ago("2024-03-10T12:00:00Z", now), Some(0));
    assert_eq!(days_ago("2024-03-09T12:00:01Z", now), Some(0));
    assert_eq!(days_ago("2024-03-09T12:00:00Z", now), Some(1));
    assert_eq!(days_ago("2024-03-09T12:00:00.000000001Z", now), Some(0));
    assert_eq!(days_ago("2023-03-10T12:00:00Z", now), Some(366));
    assert_eq!(days_ago("2024-03-11T11:59:59Z", now), Some(0));
    assert_eq!(days_ago("2024-03-12T12:00:00Z", now), Some(-2));
    assert_eq!(days_ago("2024-03-09T14:00:00+02:00", now), Some(1));
    assert_eq!(days_ago("yesterday", now), None);
}

#[test]
fn leap_seconds_count() {
    let now = parse_date("2017-01-01T23:59:59Z").unwrap();
    assert_eq!(days_ago("2016-12-31T23:59:59Z", now), Some(1));
    assert_eq!(days_ago("2016-12-31T23:59:60Z", now), Some(0));
    let noon = parse_date("2017-01-02T00:00:00Z").unwrap();
    assert_eq!(days_ago("2016-12-31T23:59:60Z", noon), Some(1));
    let leap = parse_date("2016-12-31T23:59:60Z").unwrap();
    assert_eq!(days_ago("2016-12-30T23:59:59Z", leap), Some(1));
    assert_eq!(days_ago("2016-12-31T00:00:00Z", leap), Some(1));
    let early = parse_date("2017-06-01T00:00:59Z").unwrap();
    let early_leap = Instant { seconds: early.seconds, nanos: 1_000_000_000 };
    assert_eq!(days_ago("2017-05-31T00:01:00Z", early_leap), Some(0));
    assert_eq!(days_ago("2017-05-31T00:00:59Z", early_leap), Some(1));
    let before = parse_date("2017-05-31T00:01:00Z").unwrap();
    assert_eq!(days_ago("2017-06-01T00:00:60Z", before), Some(0));
    assert_eq!(days_ago("2017-06-01T00:01:00Z", before), Some(-1));
}

#[test]
fn ages_are_put_in_words() {
    assert_eq!(format_age(0), "Today");
    assert_eq!(format_age(1), "Yesterday");
    assert_eq!(format_age(2), "2 days ago");
    assert_eq!(format_age(-1), "-1 days ago");
    assert_eq!(format_age(i64::MIN), "-9223372036854775808 days ago");
    let now = parse_date("2024-03-10T12:00:00Z").unwrap();
    assert_eq!(format_days_ago_at("2024-03-10T01:00:00Z", now), "Today");
    assert_eq!(format_days_ago_at("2024-03-09T01:00:00Z", now), "Yesterday");
    assert_eq!(format_days_ago_at("2024-02-09T01:00:00Z", now), "30 days ago");
    assert_eq!(format_days_ago_at("long ago", now), "long ago");
}

#[test]
fn the_clock_runs() {
    let now = current_instant();
    assert!(now.seconds > 1_600_000_000);
    assert!(now.nanos < 1_000_000_000);
    let days = days_ago("1970-01-01T00:00:00Z", now).unwrap();
    let text = format_days_ago("1970-01-01T00:00:00Z");
    assert!(text == format_age(days) || text == format_age(days + 1));
    assert_eq!(format_days_ago("never"), "never");
}

#[test]
fn numbers_are_written_in_decimal() {
    let mut text = String::from("n=");
    push_decimal(&mut text, 0);
    push_decimal(&mut text, 1234567890);
    push_signed_decimal(&mut text, -30);
    push_signed_decimal(&mut text, 4);
    push_two_digits(&mut text, 7);
    push_two_digits(&mut text, 10);
    push_two_digits(&mut text, 345);
    assert_eq!(text, "n=01234567890-3040710345");
    let mut largest = String::new();
    push_decimal(&mut largest, u128::MAX);
    assert_eq!(largest, u128::MAX.to_string());
}

#[test]
fn text_is_compared_as_usual() {
    let texts = ["", "a", "ab", "b", "B", "é", "日本", "\u{10000}", "\u{ffff}", "2024-01-01T00:00:00Z", "2024"];
    for a in texts {
        for b in texts {
            assert_eq!(is_less(a, b), a < b);
            assert_eq!(is_same(a, b), a == b);
        }
    }
}

#[test]
fn parts_are_joined() {
    assert_eq!(join(&[], ", "), "");
    assert_eq!(join(&["a".to_string()], ", "), "a");
    assert_eq!(join(&["a".to_string(), "b".to_string(), "".to_string()], ", "), "a, b, ");
}

#[test]
fn sorting_is_stable() {
    let films: Vec<MatchedItem> =
        (0..50u64).map(|n| film(&n.to_string(), (n * 37) % 7, None)).collect();
    let mut expected = films.clone();
    expected.sort_by(|a, b| b.size.cmp(&a.size));
    let sorted = merge_sort(films);
    let ids: Vec<&String> = sorted.iter().map(|f| &f.id).collect();
    let expected_ids: Vec<&String> = expected.iter().map(|f| &f.id).collect();
    assert_eq!(ids, expected_ids);
}

#[test]
fn the_report_lists_the_groups() {
    let now = parse_date("2024-03-10T12:00:00Z").unwrap();
    let groups = vec![
        GroupedItem::Individual(film("1", 2048, Some("2024-03-01T00:00:00Z"))),
        GroupedItem::Individual(film("2", 10, None)),
        GroupedItem::Season {
            series_name: "Show".to_string(),
            season_number: 1,
            items: vec![film("3", 5, Some("2024-03-01T00:00:00Z")), film("4", 6, None)],
        },
        GroupedItem::Season { series_name: "Empty".to_string(), season_number: 0, items: Vec::new() },
        GroupedItem::Series {
            series_name: "Long".to_string(),
            total_episodes: 1,
            seasons: vec![1],
            items: vec![film("5", 7, None)],
        },
    ];
    let expected = "\n=== Items to be deleted (dry-run) ===\n\n\
        Film 1\n    Path: /films/1\n    Last played: 9 days ago\n    Watched by: alice, bob\n\n\
        Film 2\n    Path: /films/2\n    Watched by: alice, bob\n\n\
        Show - Season 1 (2 episodes, 11 B)\n    Path: /films/3\n    Watched by: alice, bob\n\n\
        Empty - Season 0 (0 episodes, 0 B)\n\n\
        Long (1 seasons, 1 episodes, 7 B)\n\n\
        Total: 5 items\n";
    assert_eq!(dry_run_report(&groups, now), expected);
    assert_eq!(
        dry_run_report(&[], now),
        "\n=== Items to be deleted (dry-run) ===\n\nTotal: 0 items\n"
    );
}
