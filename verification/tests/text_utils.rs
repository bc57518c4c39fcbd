use glancelog::number::{decimal_digits, push_padded, push_signed_padded, read_i32, read_u32};
use glancelog::order::{rank_texts, Rank};
use glancelog::text::{
    join_from, split_chars, split_whitespace, starts_with, take_before, to_chars, trim,
    trim_trailing,
};

fn chars(s: &str) -> Vec<char> {
    s.chars().collect()
}

fn text(v: &[char]) -> String {
    v.iter().collect()
}

#[test]
fn to_chars_keeps_every_character() {
    assert_eq!(to_chars("a\u{e9}z"), vec!['a', '\u{e9}', 'z']);
    assert_eq!(to_chars(""), Vec::<char>::new());
}

#[test]
fn tokens_are_runs_without_white_space() {
    let parts = split_whitespace(&chars("  Jan  5\t10:00:00 host1\u{3000}sshd:  "));
    let got: Vec<String> = parts.iter().map(|p| text(p)).collect();
    assert_eq!(got, vec!["Jan", "5", "10:00:00", "host1", "sshd:"]);
}

#[test]
fn blank_text_has_no_tokens() {
    assert!(split_whitespace(&chars("")).is_empty());
    assert!(split_whitespace(&chars(" \t\r\n\u{a0}")).is_empty());
}

#[test]
fn splitting_keeps_empty_fields() {
    let parts = split_chars(&chars("10:00:"), ':');
    let got: Vec<String> = parts.iter().map(|p| text(p)).collect();
    assert_eq!(got, vec!["10", "00", ""]);
    let one = split_chars(&chars(""), ':');
    assert_eq!(one.len(), 1);
    assert!(one[0].is_empty());
}

#[test]
fn prefix_before_a_separator() {
    assert_eq!(text(&take_before(&chars("1.2.3.4:80"), ':')), "1.2.3.4");
    assert_eq!(text(&take_before(&chars("no-colon"), ':')), "no-colon");
    assert_eq!(text(&take_before(&chars(":x"), ':')), "");
}

#[test]
fn joining_puts_the_separator_between() {
    let parts = vec![chars("a"), chars("b"), chars("c"), chars("d")];
    assert_eq!(text(&join_from(&parts, 1, &[' '])), "b c d");
    assert_eq!(text(&join_from(&parts, 3, &[' '])), "d");
    assert_eq!(text(&join_from(&parts, 4, &[' '])), "");
}

#[test]
fn prefixes_and_trimming() {
    assert!(starts_with(&chars("pam_unix(sshd:auth)"), &chars("pam_")));
    assert!(!starts_with(&chars("pa"), &chars("pam_")));
    assert_eq!(text(&trim_trailing(&chars("kernel:::"), ':')), "kernel");
    assert_eq!(text(&trim_trailing(&chars(":::"), ':')), "");
    assert_eq!(text(&trim(&chars(" \t ^[0-9]+$ \r"))), "^[0-9]+$");
    assert_eq!(text(&trim(&chars("   "))), "");
}

#[test]
fn unsigned_numbers_are_read_as_the_standard_library_reads_them() {
    for s in ["0", "7", "007", "+5", "4294967295", "4294967296", "", "+", "-", "-5", "5x", " 5", "٣"] {
        assert_eq!(read_u32(&chars(s)), s.parse::<u32>().ok(), "{:?}", s);
    }
    assert_eq!(read_u32(&chars("4294967295")), Some(u32::MAX));
    assert_eq!(read_u32(&chars("99999999999999999999999999")), None);
}

#[test]
fn signed_numbers_are_read_as_the_standard_library_reads_them() {
    for s in ["0", "-0", "+0", "2024", "-2147483648", "2147483647", "2147483648", "-2147483649",
        "", "+", "-", "--5", "+-5", "1_000"] {
        assert_eq!(read_i32(&chars(s)), s.parse::<i32>().ok(), "{:?}", s);
    }
    assert_eq!(read_i32(&chars("-2147483648")), Some(i32::MIN));
}

#[test]
fn numbers_are_written_as_format_writes_them() {
    for n in [0u64, 5, 9, 10, 59, 100, 2024, u64::MAX] {
        assert_eq!(text(&decimal_digits(n)), format!("{}", n));
        let mut out = Vec::new();
        push_padded(&mut out, n, 2);
        assert_eq!(text(&out), format!("{:02}", n));
    }
    for n in [0i64, 5, -5, -1, 123, -123, 2024, 12345, -12345] {
        let mut out = Vec::new();
        push_signed_padded(&mut out, n, 4);
        assert_eq!(text(&out), format!("{:04}", n));
        let mut plain = Vec::new();
        push_signed_padded(&mut plain, n, 0);
        assert_eq!(text(&plain), format!("{}", n));
    }
}

#[test]
fn texts_are_ranked_as_strings_compare() {
    let words = ["", "a", "ab", "b", "B", "10", "9", "\u{e9}", "z", "ab"];
    for a in words {
        for b in words {
            let expected = if a < b {
                Rank::Before
            } else if a > b {
                Rank::After
            } else {
                Rank::Same
            };
            assert_eq!(rank_texts(&chars(a), &chars(b)), expected, "{:?} {:?}", a, b);
        }
    }
}

#[test]
fn white_space_is_what_the_standard_library_takes_for_it() {
    for code in 0u32..=0x3400 {
        if let Some(c) = char::from_u32(code) {
            let tokens = split_whitespace(&[c]);
            assert_eq!(tokens.is_empty(), c.is_whitespace(), "U+{:04X}", code);
        }
    }
    for c in ['\u{feff}', '\u{200b}', '\u{e000}', '\u{10ffff}'] {
        assert_eq!(split_whitespace(&[c]).is_empty(), c.is_whitespace());
    }
}

#[test]
fn tokens_and_trimming_agree_with_the_standard_library() {
    let samples = [
        "",
        " ",
        "one",
        " lead",
        "trail ",
        "a  b\tc\r\nd",
        "\u{2003}wide\u{2003}blanks\u{3000}",
        "x\u{85}y\u{a0}z",
        "caf\u{e9} cr\u{e8}me",
    ];
    for s in samples {
        let got: Vec<String> = split_whitespace(&chars(s)).iter().map(|p| text(p)).collect();
        let expected: Vec<String> = s.split_whitespace().map(|p| p.to_string()).collect();
        assert_eq!(got, expected, "{:?}", s);
        assert_eq!(text(&trim(&chars(s))), s.trim(), "{:?}", s);
        let fields: Vec<String> = split_chars(&chars(s), 'a').iter().map(|p| text(p)).collect();
        let split: Vec<String> = s.split('a').map(|p| p.to_string()).collect();
        assert_eq!(fields, split, "{:?}", s);
    }
}
