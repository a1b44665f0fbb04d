use asus_backlight_idle::decimal::{parse_number, render_number};
use asus_backlight_idle::path::{join_path, same_path};
use asus_backlight_idle::text::{chars_of, is_text_le, same_text, sort_texts, starts_with, trim};
use std::path::Path;

#[test]
fn trimming_agrees_with_the_standard_library_on_every_character() {
    for code in 0..=0x10FFFFu32 {
        if let Some(c) = char::from_u32(code) {
            if c.is_whitespace() || code < 0x3100 {
                let sample = format!("{c}x{c}");
                let trimmed: String = trim(&sample).into_iter().collect();
                assert_eq!(trimmed, sample.trim(), "{code:x}");
            }
        }
    }
}

#[test]
fn a_text_of_white_space_trims_to_nothing() {
    assert!(trim(" \n\t ").is_empty());
    assert!(trim("").is_empty());
}

#[test]
fn prefixes() {
    assert!(starts_with("event12", "event"));
    assert!(starts_with("event", "event"));
    assert!(!starts_with("even", "event"));
    assert!(!starts_with("mouse0", "event"));
    assert!(starts_with("anything", ""));
}

#[test]
fn equal_texts() {
    assert!(same_text("--idle", "--idle"));
    assert!(!same_text("--idle", "--idl"));
}

#[test]
fn texts_are_ordered_like_strings() {
    let samples = ["", "event", "event0", "event1", "event10", "event2", "eventé", "event\u{1f600}", "event\u{ffff}"];
    for a in samples {
        for b in samples {
            assert_eq!(is_text_le(a, b), a <= b, "{a:?} {b:?}");
        }
    }
}

#[test]
fn sorting() {
    let list: Vec<String> =
        ["event3", "event10", "event2", "event2", "event\u{e9}", "event"].iter().map(|s| s.to_string()).collect();
    let mut expected = list.clone();
    expected.sort();
    assert_eq!(sort_texts(list), expected);
    assert!(sort_texts(Vec::new()).is_empty());
}

#[test]
fn numbers_read_back() {
    for n in [0, 1, 9, 10, 99, 100, 12345, u64::MAX - 1, u64::MAX] {
        let text = render_number(n);
        assert_eq!(text, n.to_string());
        assert_eq!(parse_number(&chars_of(&text), u64::MAX), Some(n));
    }
}

#[test]
fn numbers_beyond_the_bound_are_refused() {
    assert_eq!(parse_number(&chars_of("18446744073709551615"), u64::MAX), Some(u64::MAX));
    assert_eq!(parse_number(&chars_of("18446744073709551616"), u64::MAX), None);
    assert_eq!(parse_number(&chars_of("184467440737095516150"), u64::MAX), None);
    assert_eq!(parse_number(&chars_of("5"), 4), None);
    assert_eq!(parse_number(&chars_of("4"), 4), Some(4));
}

#[test]
fn paths_are_joined_like_the_standard_library_joins_them() {
    for dir in ["/dev/input", "/dev/input/", "", "/", "rel"] {
        assert_eq!(join_path(dir, "event0"), Path::new(dir).join("event0").to_str().unwrap());
    }
}

#[test]
fn different_names_have_different_paths() {
    assert_ne!(join_path("/dev/input", "event1"), join_path("/dev/input", "event10"));
}

#[test]
fn paths_compare_as_in_the_standard_library() {
    let samples = [
        "", ".", "./", "..", "../", "/", "//", "/.", "/./", "/..", "a", "a/", "a//", "./a", ".//a", "././a",
        "a/.", "a/./", "a/b", "a//b", "a/./b", "a/../b", "a/b/..", "/a", "//a", "/./a", "/a/", "/a/.", "/a/b",
        "/a//b", "/a/./b", "/a/.b", "/a/b.", "/a/...", "...", ".a", "a.", "/dev/input/event0",
        "/dev//input/event0", "/dev/input/./event0/", "/dev/input/event00", "dev/input/event0", "/é/ü", "/é//ü",
    ];
    for left in samples {
        for right in samples {
            assert_eq!(same_path(left, right), Path::new(left) == Path::new(right), "{left:?} {right:?}");
        }
    }
}
