use kriya::text::{
    chars_of, contains, decimal_string, entries, eq_ignore_ascii_case, trim, white_space,
};
use kriya::Duration;

#[test]
fn white_space_is_that_of_unicode() {
    for code in 0u32..=0x10ffff {
        if let Some(c) = char::from_u32(code) {
            assert_eq!(white_space(c), c.is_whitespace(), "{:x}", code);
        }
    }
}

#[test]
fn trim_removes_white_space_at_both_ends() {
    for s in ["", " ", "a", " a ", "\t\r\n a b \u{3000}\u{85}", "\u{200b}x", "x \u{2003}"] {
        assert_eq!(trim(s), s.trim());
    }
}

#[test]
fn entries_are_the_trimmed_lines_that_are_not_blank() {
    let texts = [
        "",
        "\n",
        "a",
        "a\n",
        "a\r\nb\rc\r",
        "\n\n a \n\u{2028}\n\u{a0}b\t\n \r\n",
        "a\n\nb",
        "\u{2014}\n\r",
    ];
    for text in texts {
        let expected: Vec<String> = text
            .lines()
            .map(|line| line.trim().to_string())
            .filter(|line| !line.is_empty())
            .collect();
        assert_eq!(entries(text.as_bytes()), expected, "{:?}", text);
    }
}

#[test]
fn lines_that_do_not_decode_are_no_entries() {
    assert_eq!(entries(b"a\n\xff\n b \n"), vec!["a", "b"]);
    // A surrogate, an overlong form, a code point out of range and a cut sequence.
    assert_eq!(
        entries(b"\xed\xa0\x80\n\xc0\x8a\n\xf4\x90\x80\x80\n\xe2\x82\n\xe2\x82\xac"),
        vec!["\u{20ac}"]
    );
    assert_eq!(entries(b"\xf0\x9f\x98\x80\n\xf4\x8f\xbf\xbf"), vec!["\u{1f600}", "\u{10ffff}"]);
}

#[test]
fn case_is_ignored_for_ascii_only() {
    let pairs = [("", ""), ("y", "Y"), ("YeS", "yes"), ("yes", "ye"), ("@", "`"), ("[", "{"),
        ("\u{c9}", "\u{e9}"), ("k", "\u{212a}"), ("Z", "z")];
    for (a, b) in pairs {
        assert_eq!(eq_ignore_ascii_case(a, b), a.eq_ignore_ascii_case(b), "{:?} {:?}", a, b);
    }
}

#[test]
fn substrings_are_found_anywhere() {
    let pairs = [("", ""), ("a", ""), ("", "a"), ("abc", "abc"), ("aab", "ab"), ("aaab", "aab"),
        ("abc", "bc"), ("abc", "cd"), ("\u{2014}x", "x"), ("ab", "abc"), ("ababac", "abac")];
    for (hay, needle) in pairs {
        assert_eq!(contains(hay, needle), hay.contains(needle), "{:?} {:?}", hay, needle);
    }
}

#[test]
fn numbers_are_written_in_decimal() {
    for n in [0u64, 7, 9, 10, 11, 99, 100, 300, 1_000_000, u32::MAX as u64, u64::MAX] {
        assert_eq!(decimal_string(n), n.to_string());
    }
}

#[test]
fn characters_are_kept_in_order() {
    assert_eq!(chars_of("a\u{1f600}\u{2014}"), vec!['a', '\u{1f600}', '\u{2014}']);
}

#[test]
fn durations_split_into_seconds_and_nanoseconds() {
    let d = Duration::from_parts(3, 250_000_001);
    assert_eq!(d.as_secs(), 3);
    assert_eq!(d.subsec_nanos(), 250_000_001);
    assert_eq!(d.as_millis(), 3250);
    assert_eq!(Duration::from_millis(1500), Duration::from_parts(1, 500_000_000));
    assert_eq!(Duration::from_secs(u64::MAX).as_secs(), u64::MAX);
}

#[test]
fn durations_add_up_to_the_longest() {
    let longest = Duration::from_parts(u64::MAX, 999_999_999);
    let nano = Duration::from_parts(0, 1);
    assert_eq!(longest.checked_add(&nano), None);
    assert_eq!(
        Duration::from_parts(u64::MAX, 999_999_998).checked_add(&nano),
        Some(longest)
    );
    assert_eq!(nano.plus(&nano), Duration::from_parts(0, 2));
    assert!(longest.at_least(&nano));
    assert!(nano.at_least(&nano));
    assert!(!nano.at_least(&longest));
}

#[test]
fn durations_stop_at_a_limit() {
    let second = Duration::from_secs(1);
    let limit = Duration::from_millis(2500);
    assert_eq!(second.plus_up_to(&second, &limit), Duration::from_secs(2));
    assert_eq!(second.plus_up_to(&Duration::from_secs(2), &limit), limit);
    assert_eq!(second.plus_up_to(&Duration::from_millis(1500), &limit), limit);
    let longest = Duration::from_parts(u64::MAX, 999_999_999);
    assert_eq!(longest.plus_up_to(&longest, &limit), limit);
    assert_eq!(limit.saturating_sub(&second), Duration::from_millis(1500));
    assert_eq!(second.saturating_sub(&limit), Duration::from_secs(0));
}
