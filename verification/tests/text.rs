use lorn::sorted::insert_in_order;
use lorn::string_map::StringMap;
use lorn::text::{
    comes_before, contains, decimal_text, eq_ignore_ascii_case, lower, parse_i32, same,
    signed_decimal_text, starts_with, trim,
};

#[test]
fn order_is_that_of_str() {
    let samples = ["", "a", "b", "ab", "abc", "B", "\u{e9}", "\u{ffff}", "\u{10000}", "z\u{fe}"];
    for a in samples {
        for b in samples {
            assert_eq!(comes_before(a, b), a < b, "{a:?} {b:?}");
            assert_eq!(same(a, b), a == b, "{a:?} {b:?}");
        }
    }
}

#[test]
fn search_is_that_of_str() {
    let samples = ["", "a", "ab", "aab", "aaab", "caab", "connection refused", "\u{e9}a\u{e9}"];
    for whole in samples {
        for part in samples {
            assert_eq!(contains(whole, part), whole.contains(part), "{whole:?} {part:?}");
            assert_eq!(starts_with(whole, part), whole.starts_with(part), "{whole:?} {part:?}");
        }
    }
}

#[test]
fn ascii_case_is_ignored_beyond_ascii_it_counts() {
    assert!(eq_ignore_ascii_case("TCP", "tcp"));
    assert!(eq_ignore_ascii_case("tCp", "TcP"));
    assert!(!eq_ignore_ascii_case("TCP", "UDP"));
    assert!(!eq_ignore_ascii_case("TCP", "TCP "));
    assert!(!eq_ignore_ascii_case("\u{c9}", "\u{e9}"));
    assert!(!eq_ignore_ascii_case("@[", "`{"));
}

#[test]
fn trim_is_that_of_str() {
    for code in 0..0x11_0000u32 {
        if let Some(c) = char::from_u32(code) {
            let padded = format!("{c}x{c}");
            assert_eq!(trim(&padded), padded.trim(), "{code:x}");
        }
    }
    assert_eq!(trim(" \t 80 81 \n"), "80 81");
    assert_eq!(trim("  "), "");
    assert_eq!(trim(""), "");
}

#[test]
fn integers_are_read_as_str_reads_them() {
    let samples = [
        "", "+", "-", "0", "-0", "+0", "7", "+7", "-7", "007", "1024", "2147483647", "2147483648",
        "-2147483648", "-2147483649", "4294967296", "4294967297", "99999999999999999999999999",
        "1 ", " 1", "1x", "0x1", "1.0", "--1", "+-1", "\u{661}",
    ];
    for sample in samples {
        assert_eq!(parse_i32(sample), sample.parse::<i32>().ok(), "{sample:?}");
    }
    assert_eq!(parse_i32("-2147483648"), Some(i32::MIN));
}

#[test]
fn integers_are_written_in_decimal() {
    for n in [0, 1, 9, 10, 99, 100, 1024, 65_535, u64::MAX] {
        assert_eq!(decimal_text(n), n.to_string());
    }
    for n in [0, 7, -7, 443, -1024, i32::MIN, i32::MAX] {
        assert_eq!(signed_decimal_text(n), n.to_string());
    }
}

#[test]
fn lower_case_follows_unicode() {
    assert_eq!(lower("DaemonSet"), "daemonset");
    assert_eq!(lower("Connection Refused [0]"), "connection refused [0]");
    assert_eq!(lower("\u{c9}T\u{c9}"), "\u{e9}t\u{e9}");
}

#[test]
fn the_last_binding_of_a_key_counts() {
    let map = StringMap::new()
        .with("a".to_string(), 1)
        .with("b".to_string(), 2)
        .with("a".to_string(), 3);
    assert_eq!(map.get("a"), Some(&3));
    assert_eq!(map.get("b"), Some(&2));
    assert_eq!(map.get("c"), None);
    assert!(!map.is_empty());
    assert!(StringMap::<u8>::new().is_empty());
}

#[test]
fn a_map_matches_labels_that_have_all_of_it() {
    let text = |s: &str| s.to_string();
    let selector =
        StringMap::new().with(text("app"), text("web")).with(text("tier"), text("front"));
    let more = StringMap::new()
        .with(text("tier"), text("front"))
        .with(text("zone"), text("a"))
        .with(text("app"), text("web"));
    let other = StringMap::new().with(text("tier"), text("back")).with(text("app"), text("web"));
    let fewer = StringMap::new().with(text("app"), text("web"));
    assert!(selector.matches(&more));
    assert!(!selector.matches(&other));
    assert!(!selector.matches(&fewer));
    assert!(fewer.matches(&selector));
    assert!(StringMap::new().matches(&fewer));
}

#[test]
fn rows_stay_in_order() {
    let mut row = Vec::new();
    for text in ["v2", "v10", "", "v2", "V3"] {
        row = insert_in_order(row, text.to_string());
    }
    assert_eq!(row, ["", "V3", "v10", "v2", "v2"]);
}
