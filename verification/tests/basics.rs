use kaic_backend::clock::{elapsed_ms, elapsed_seconds, Timestamp};
use kaic_backend::numbers::{parse_i64, parse_u32};
use kaic_backend::text;

fn at(seconds: i64, nanos: u32) -> Timestamp {
    Timestamp { seconds, nanos }
}

#[test]
fn white_space_is_that_of_the_standard_library() {
    for c in '\0'..=char::MAX {
        assert_eq!(text::white_space(c), c.is_whitespace(), "U+{:04X}", c as u32);
    }
}

#[test]
fn texts_are_cut_as_the_standard_library_cuts_them() {
    for s in ["", "  ", " а б\tв ", "x\u{2003}y\u{a0}", "a\r\nb\n\nc\r", "\n", "a\n", "один"] {
        assert_eq!(text::trim(s), s.trim());
        assert_eq!(text::trim_front(s), s.trim_start());
        assert_eq!(text::blank(s), s.trim().is_empty());
        let words: Vec<&str> = s.split_whitespace().collect();
        assert_eq!(text::split_words(s), words);
        let lines: Vec<&str> = s.lines().collect();
        assert_eq!(text::split_lines(s), lines);
    }
}

#[test]
fn numbers_are_written_as_the_standard_library_writes_them() {
    for n in [0, 1, 9, 10, 99, 100, 12_345, u64::MAX] {
        assert_eq!(text::show(n), n.to_string());
    }
    for n in [0, 10, u64::MAX as u128 + 1, u128::MAX] {
        assert_eq!(text::show_wide(n), n.to_string());
    }
    for n in [0, 7, -1, -10, i64::MAX, i64::MIN] {
        assert_eq!(text::show_signed(n), n.to_string());
    }
}

#[test]
fn numbers_are_read_as_the_standard_library_reads_them() {
    let texts = [
        "", "+", "-", "0", "-0", "+7", "007", "4294967295", "4294967296", "99999999999999999999",
        "9223372036854775807", "9223372036854775808", "-9223372036854775808",
        "-9223372036854775809", " 1", "1 ", "1_0", "--1", "+-1", "٣", "12a",
    ];
    for s in texts {
        assert_eq!(parse_u32(s), s.parse::<u32>().ok(), "{s:?}");
        assert_eq!(parse_i64(s), s.parse::<i64>().ok(), "{s:?}");
    }
}

#[test]
fn a_written_number_is_read_back() {
    for n in [0, 5, -5, 1001, i64::MAX, i64::MIN] {
        assert_eq!(parse_i64(&text::show_signed(n)), Some(n));
    }
    for n in [0, 10, u32::MAX] {
        assert_eq!(parse_u32(&text::show(n as u64)), Some(n));
    }
}

#[test]
fn texts_are_searched_and_compared() {
    assert!(text::contains("горное озеро", "озер") && !text::contains("озеро", "гора"));
    assert!(text::contains("x", "") && text::starts_with("x", ""));
    assert!(text::starts_with("Bearer abc", "Bearer ") && !text::starts_with("Bea", "Bearer"));
    assert_eq!(
        text::split_once("snd:1:2", ':'),
        Some(("snd".to_string(), "1:2".to_string()))
    );
    assert_eq!(text::split_once("snd", ':'), None);
    assert!(text::same_letters("Mp4", "mP4") && !text::same_letters("Ж", "ж"));
    let words = vec!["б".to_string(), "a".to_string(), "aa".to_string(), "Z".to_string()];
    let mut sorted = words.clone();
    sorted.sort();
    assert_eq!(text::sort(words), sorted);
    assert!(text::comes_before("a", "aa") && !text::comes_before("aa", "a"));
    assert_eq!(text::join(&vec!["a".to_string(), "b".to_string()], ", "), "a, b");
}

#[test]
fn spans_of_time_are_counted_toward_zero() {
    assert_eq!(elapsed_ms(at(1, 0), at(2, 500_000_000)), 1500);
    assert_eq!(elapsed_ms(at(1, 999_999_999), at(2, 0)), 0);
    assert_eq!(elapsed_ms(at(2, 1), at(1, 0)), -1000);
    assert_eq!(elapsed_seconds(at(10, 0), at(11, 999_999_999)), 1);
    assert_eq!(elapsed_seconds(at(10, 1), at(10, 0)), 0);
    assert!(at(1, 5).is_before(at(1, 6)) && !at(1, 6).is_before(at(1, 6)));
}
