use rusty_collars::http::accepts_gzip;
use rusty_collars::quality::parse_positive;
use rusty_collars::text::{
    blank, chars_of, decimal_text, equal_ignoring_case, find, parse_unsigned, push_hex,
    split_text, string_of, strip_prefix, strip_suffix, text_before, trim,
};

fn positive(s: &str) -> Option<bool> {
    parse_positive(&chars_of(s))
}

#[test]
fn trim_takes_space_off_both_ends() {
    assert_eq!(trim("  \tRex \n"), "Rex");
    assert_eq!(trim("\u{3000}a b\u{85}"), "a b");
    assert_eq!(trim(""), "");
    assert_eq!(trim(&trim("  x  ")), trim("  x  "));
}

#[test]
fn blank_is_trimmed_empty() {
    for s in ["", "   ", "\t\n", " a ", "a"] {
        assert_eq!(blank(s), trim(s).is_empty());
    }
}

#[test]
fn decimals_are_read_back() {
    for n in [0u32, 7, 10, 255, 4_294_967_295] {
        assert_eq!(parse_unsigned(&decimal_text(n as u64), u32::MAX), Some(n));
    }
    assert_eq!(decimal_text(18_446_744_073_709_551_615), "18446744073709551615");
}

#[test]
fn unsigned_numbers_are_read_as_std_reads_them() {
    for s in ["", "+", "-1", "+5", "007", "256", "255", " 1", "1 ", "12a", "99999999999"] {
        assert_eq!(
            parse_unsigned(s, 255),
            s.parse::<u8>().ok().map(|n| n as u32),
            "{s:?}"
        );
    }
}

#[test]
fn bytes_are_written_in_upper_case() {
    let mut s = String::new();
    push_hex(&mut s, 0x0a);
    push_hex(&mut s, 0xf9);
    assert_eq!(s, "0AF9");
}

#[test]
fn text_is_ordered_as_std_orders_it() {
    let words = ["", "a", "ab", "b", "B", "\u{e9}", "\u{1f600}"];
    for a in words {
        for b in words {
            assert_eq!(text_before(a, b), a < b);
        }
    }
}

#[test]
fn splitting_takes_apart_what_was_joined() {
    let parts: Vec<String> = split_text(&chars_of("collar/rex/shock"), '/')
        .iter()
        .map(|p| string_of(p, 0, p.len()))
        .collect();
    assert_eq!(parts, vec!["collar", "rex", "shock"]);
    assert_eq!(split_text(&chars_of(""), '/').len(), 1);
    assert_eq!(split_text(&chars_of("/"), '/').len(), 2);
    assert_eq!(find(&chars_of("abc"), 'c'), 2);
    assert_eq!(find(&chars_of("abc"), 'x'), 3);
}

#[test]
fn prefixes_and_suffixes_are_taken_off() {
    let s = chars_of("rusty/x/set");
    assert_eq!(strip_prefix(&s, "rusty/"), Some(chars_of("x/set")));
    assert_eq!(strip_prefix(&s, "dusty/"), None);
    assert_eq!(strip_suffix(&s, "/set"), Some(chars_of("rusty/x")));
    assert_eq!(strip_suffix(&s, "/get"), None);
    assert_eq!(strip_prefix(&chars_of("a"), "ab"), None);
}

#[test]
fn letters_are_matched_in_either_case() {
    assert!(equal_ignoring_case(&chars_of("GzIp"), "gzip"));
    assert!(!equal_ignoring_case(&chars_of("gzi"), "gzip"));
    assert!(!equal_ignoring_case(&chars_of("\u{212a}"), "k"));
}

#[test]
fn weights_are_read_as_std_reads_them() {
    let texts = [
        "0", "1", "0.0", "0.5", ".5", "5.", ".", "", "-1", "+1", "-0", "1e0", "1e-400", "1E5",
        "1e-46", "1e-45", "7e-46", "8e-46", "0e9", "inf", "-inf", "nan", "NaN", "infinity",
        "INFINITY", "infinit", "1e", "1e+", "e5", "garbage", " 1", "0x1", "1_0", "1e99999999999",
        "0.0000000000000000000000000000000000000000000001", "00000000000001", "1e-0",
    ];
    for s in texts {
        assert_eq!(positive(s), s.parse::<f32>().ok().map(|q| q > 0.0), "{s:?}");
    }
}

#[test]
fn gzip_weight_edges() {
    assert!(!accepts_gzip(Some("gzip;q=1e-60")));
    assert!(accepts_gzip(Some("gzip;q=1e-40")));
    assert!(!accepts_gzip(Some("gzip;q=nan")));
    assert!(!accepts_gzip(Some("gzip;q=-1")));
    assert!(accepts_gzip(Some("gzip;level=9;q=1")));
    assert!(!accepts_gzip(Some("")));
    assert!(!accepts_gzip(Some(" , ,")));
}
