use search_api::cache::{encode_record, parse_record, record_path, ColorCache};
use search_api::color::Color;

fn c(l: i32, a: i32, b: i32) -> Color {
    Color::new(l, a, b).unwrap()
}

#[test]
fn record_round_trips_through_text() {
    let color = c(52_340, -12_000, 7_771);
    let text = encode_record(&color);
    assert_eq!(text, "52340\n-12000\n7771\n");
    assert_eq!(parse_record(&text), Some(color));
}

#[test]
fn record_round_trips_at_the_extremes() {
    for &color in &[c(0, 0, 0), c(1_000_000, -1_000_000, 1), c(-1, -1, -1)] {
        assert_eq!(parse_record(&encode_record(&color)), Some(color));
    }
}

#[test]
fn corrupt_records_read_as_a_miss() {
    assert_eq!(parse_record(""), None);
    assert_eq!(parse_record("12\n34"), None);
    assert_eq!(parse_record("12\n34\nxy\n"), None);
    assert_eq!(parse_record("12\n3.5\n9\n"), None);
    assert_eq!(parse_record("9999999999\n0\n0\n"), None);
    // in range for an i32 but outside the component range
    assert_eq!(parse_record("2000000\n0\n0\n"), None);
}

#[test]
fn record_path_is_the_hex_digest_of_the_key() {
    let url = "https://imgur.com/sunset.png";
    let expected = format!(".cache/{:x}.txt", md5::compute(url));
    assert_eq!(record_path(url), expected);
    // two keys differing only by a trailing slash name different records
    assert_ne!(record_path("a/"), record_path("a"));
}

#[test]
fn memory_read_after_write_returns_the_written_color() {
    let mut cache = ColorCache::new();
    let color = c(10, 20, 30);
    assert_eq!(cache.lookup("k"), None);
    cache.store("k", color);
    assert_eq!(cache.lookup("k"), Some(color));
}

#[test]
fn cold_memory_warm_disk_read_returns_the_written_color() {
    // one process writes the record out
    let color = c(77_000, -3, 450);
    let body = encode_record(&color);
    // a fresh process: empty memory, the persisted body handed back in
    let mut fresh = ColorCache::new();
    assert_eq!(fresh.lookup("k"), None);
    assert_eq!(fresh.absorb_record("k", Some(&body)), Some(color));
    // and the record now also lives in memory
    assert_eq!(fresh.lookup("k"), Some(color));
}

#[test]
fn reads_are_idempotent_across_writes_to_other_keys() {
    let mut cache = ColorCache::new();
    let color = c(1, 2, 3);
    cache.store("stable", color);
    let first = cache.lookup("stable");
    cache.store("other", c(9, 9, 9));
    cache.store("another", c(8, 8, 8));
    let second = cache.lookup("stable");
    assert_eq!(first, Some(color));
    assert_eq!(first, second);
}

#[test]
fn a_missing_or_unreadable_record_changes_nothing() {
    let mut cache = ColorCache::new();
    cache.store("kept", c(5, 5, 5));
    assert_eq!(cache.absorb_record("missing", None), None);
    assert_eq!(cache.absorb_record("corrupt", Some("not a record")), None);
    assert_eq!(cache.lookup("kept"), Some(c(5, 5, 5)));
    assert_eq!(cache.lookup("missing"), None);
}

#[test]
fn later_writes_to_the_same_key_win() {
    let mut cache = ColorCache::new();
    cache.store("k", c(1, 1, 1));
    cache.store("k", c(2, 2, 2));
    assert_eq!(cache.lookup("k"), Some(c(2, 2, 2)));
}
