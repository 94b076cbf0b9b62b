use mu_core::digits::parse_usize;
use mu_core::double::Double;
use mu_core::json::{signed, text_or_null};
use mu_core::paths;
use mu_core::string_map::StringMap;
use mu_core::text;

#[test]
fn numbers_are_read_as_the_standard_library_reads_them() {
    for s in ["0", "7", "+7", "007", "", "+", "-1", "1a", " 1", "18446744073709551615",
        "18446744073709551616", "99999999999999999999999999"]
    {
        assert_eq!(parse_usize(s), s.parse::<usize>().ok(), "{s:?}");
    }
}

#[test]
fn trimming_and_splitting_follow_the_standard_library() {
    for s in ["", " a b ", "\u{a0}\u{2003}x\t\r\n", "no"] {
        assert_eq!(text::trim(s), s.trim());
        assert_eq!(text::trim_start(s), s.trim_start());
    }
    assert_eq!(text::split_once("a=b=c", '='), Some(("a", "b=c")));
    assert_eq!(text::split_once("abc", '='), None);
    assert_eq!(text::strip_prefix("file://x", "file://"), Some("x"));
    assert_eq!(text::strip_suffix("x.toml", ".toml"), Some("x"));
    assert_eq!(text::find("a\n---\nb", "\n---"), Some(1));
    assert_eq!(text::find("abc", "d"), None);
}

#[test]
fn texts_are_cut_between_characters() {
    assert_eq!(text::cap_bytes("abc", 2), "ab");
    assert_eq!(text::cap_bytes("aäb", 2), "a");
    assert_eq!(text::cap_bytes("aäb", 3), "aä");
    assert_eq!(text::cap_bytes("abc", 9), "abc");
    assert_eq!(text::byte_len("aä€"), 6);
}

#[test]
fn texts_are_laid_out_by_characters() {
    assert_eq!(text::pad("äb", 4), format!("{:<4}", "äb"));
    assert_eq!(text::pad("abc", 2), "abc");
    assert_eq!(text::align_right("äb", 4), format!("{:>4}", "äb"));
    assert_eq!(text::repeat("ab", 3), "ababab");
    assert_eq!(text::decimal(0), "0");
    assert_eq!(text::decimal(18446744073709551615), "18446744073709551615");
    assert_eq!(signed(-32700), "-32700");
    assert_eq!(signed(i32::MIN), "-2147483648");
}

#[test]
fn texts_are_ordered_as_strings_are() {
    for (a, b) in [("a", "b"), ("a", "a"), ("a", "aa"), ("é", "z"), ("", "a"), ("\u{10000}", "\u{ffff}")] {
        assert_eq!(text::precedes(a, b), a < b);
        assert_eq!(text::precedes(b, a), b < a);
    }
}

#[test]
fn paths_are_joined_as_the_standard_library_joins_them() {
    for (dir, name) in [("/a", "b"), ("/a/", "b"), ("", "b"), ("/", "b"), ("a", "b/c")] {
        let want = std::path::Path::new(dir).join(name);
        assert_eq!(paths::join(dir, name), want.to_str().unwrap(), "{dir:?} {name:?}");
    }
}

#[test]
fn missing_json_is_null() {
    assert_eq!(text_or_null(None), "null");
    assert_eq!(text_or_null(Some("1".to_string())), "1");
}

#[test]
fn doubles_are_ordered_as_numbers_are() {
    let d = |x: f64| Double { bits: x.to_bits() };
    let all = [
        f64::NEG_INFINITY,
        -2.5,
        -0.0,
        0.0,
        f64::MIN_POSITIVE,
        1.0,
        1.5,
        f64::MAX,
        f64::INFINITY,
        f64::NAN,
    ];
    for a in all {
        for b in all {
            assert_eq!(d(a).is_at_least(d(b)), a >= b, "{a} {b}");
        }
        assert_eq!(d(a).is_finite_nonnegative(), a.is_finite() && a >= 0.0, "{a}");
        assert_eq!(d(a).is_finite_positive(), a.is_finite() && a > 0.0, "{a}");
        assert_eq!(d(a).is_unit_range(), (0.0..=1.0).contains(&a), "{a}");
        assert_eq!(d(a).is_finite_from_one(), a.is_finite() && a >= 1.0, "{a}");
    }
}

#[test]
fn maps_keep_their_keys_in_order() {
    let mut m = StringMap::new();
    assert_eq!(m.insert("b".to_string(), 1), None);
    assert_eq!(m.insert("a".to_string(), 2), None);
    assert_eq!(m.insert("b".to_string(), 3), Some(1));
    assert_eq!(m.keys(), vec!["a", "b"]);
    assert_eq!(m.get("b"), Some(&3));
    assert_eq!(m.remove("a"), Some(2));
    assert_eq!(m.remove("a"), None);
    assert_eq!(m.len(), 1);
    assert_eq!(m.into_values(), vec![3]);
}
