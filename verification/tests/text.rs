use midnight::math::mode;
use midnight::models::{BeatmapStatus, OsuGamemode};
use midnight::text::{
    find_subrange, format_bytes, format_duration, format_uptime, parse_i32_digits, trim_ascii,
    u64_to_dec,
};

#[test]
fn decimal_rendering() {
    assert_eq!(u64_to_dec(0), "0");
    assert_eq!(u64_to_dec(7), "7");
    assert_eq!(u64_to_dec(1234567890), "1234567890");
    assert_eq!(u64_to_dec(u64::MAX), "18446744073709551615");
}

#[test]
fn byte_formatting() {
    assert_eq!(format_bytes(0), "0.00 B");
    assert_eq!(format_bytes(512), "512.00 B");
    assert_eq!(format_bytes(1024), "1.00 KB");
    assert_eq!(format_bytes(1536), "1.50 KB");
    assert_eq!(format_bytes(10 * 1024 * 1024), "10.00 MB");
    assert_eq!(format_bytes(3 * 1024 * 1024 * 1024 / 2), "1.50 GB");
}

#[test]
fn duration_formatting() {
    assert_eq!(format_duration(0, 0, 0, 5), "5 seconds");
    assert_eq!(format_duration(0, 0, 2, 5), "2 minutes, 5 seconds");
    assert_eq!(format_duration(0, 3, 2, 5), "3 hours, 2 minutes, 5 seconds");
    assert_eq!(format_duration(1, 3, 2, 5), "1 days, 3 hours, 2 minutes, 5 seconds");
}

#[test]
fn uptime_formatting() {
    assert_eq!(format_uptime(59), "59 seconds");
    assert_eq!(format_uptime(90061), "1 days, 1 hours, 1 minutes, 1 seconds");
}

#[test]
fn digit_parsing() {
    assert_eq!(parse_i32_digits("123"), Some(123));
    assert_eq!(parse_i32_digits("0"), Some(0));
    assert_eq!(parse_i32_digits("2147483647"), Some(i32::MAX));
    assert_eq!(parse_i32_digits("2147483648"), None);
    assert_eq!(parse_i32_digits(""), None);
    assert_eq!(parse_i32_digits("12a"), None);
    assert_eq!(parse_i32_digits("-5"), None);
}

#[test]
fn substring_search() {
    assert_eq!(find_subrange(b"hello world", b"world", 0), Some(6));
    assert_eq!(find_subrange(b"hello world", b"world", 7), None);
    assert_eq!(find_subrange(b"aaa", b"aa", 0), Some(0));
    assert_eq!(find_subrange(b"aaa", b"aa", 1), Some(1));
    assert_eq!(find_subrange(b"abc", b"xyz", 0), None);
}

#[test]
fn ascii_trimming() {
    assert_eq!(trim_ascii(b"  x "), b"x".to_vec());
    assert_eq!(trim_ascii(b"\n\t data \r\n"), b"data".to_vec());
    assert_eq!(trim_ascii(b"   "), Vec::<u8>::new());
    assert_eq!(trim_ascii(b"tight"), b"tight".to_vec());
}

#[test]
fn most_frequent_element() {
    assert_eq!(mode(&vec![]), None);
    assert_eq!(
        mode(&vec![OsuGamemode::Osu, OsuGamemode::Taiko, OsuGamemode::Osu]),
        Some(OsuGamemode::Osu)
    );
    let tie = mode(&vec![OsuGamemode::Mania, OsuGamemode::Fruits]);
    assert!(tie == Some(OsuGamemode::Mania) || tie == Some(OsuGamemode::Fruits));
}

#[test]
fn status_codes_decode() {
    assert_eq!(BeatmapStatus::from_code(1), BeatmapStatus::Ranked);
    assert_eq!(BeatmapStatus::from_code(3), BeatmapStatus::Qualified);
    assert_eq!(BeatmapStatus::from_code(4), BeatmapStatus::Loved);
    assert_eq!(BeatmapStatus::from_code(0), BeatmapStatus::Pending);
    assert_eq!(BeatmapStatus::from_code(-1), BeatmapStatus::Wip);
    assert_eq!(BeatmapStatus::from_code(-2), BeatmapStatus::Graveyard);
    assert_eq!(BeatmapStatus::from_code(77), BeatmapStatus::Qualified);
}

#[test]
fn display_labels() {
    assert_eq!(BeatmapStatus::Qualified.display_name(), "Qualified");
    assert_eq!(BeatmapStatus::Graveyard.display_name(), "Disqualified");
    assert_eq!(OsuGamemode::Fruits.display_name(), "osu!Catch");
}
