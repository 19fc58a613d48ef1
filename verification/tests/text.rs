use wm_busbridge::text::{
    chars_of, first_word, is_in_order, is_white, lines, pad_left, pad_right, parse_number,
    same_ignoring_case, same_text, split, starts_with, strip_prefix, text_of, to_decimal, trim,
};

fn samples() -> Vec<&'static str> {
    vec![
        "", " ", "a", " a", "a ", "\t a b \n", "a\nb", "a\r\nb\r\n", "\n", "\r", "\r\n\n", "a\n\nb",
        "a\rb", "a\r\r\n", "x,y,", ",", "é ü", "\u{a0}x\u{3000}", "\u{200b}x", "MemTotal: 5 kB",
        "#c", "aa", "ab", "AB", "Ab", "\u{2028}", "\u{85}q\u{85}", "z",
    ]
}

#[test]
fn white_space_is_the_standard_one() {
    for code in 0..=0x10_ffffu32 {
        if let Some(c) = char::from_u32(code) {
            assert_eq!(is_white(c), c.is_whitespace(), "{code:#x}");
        }
    }
}

#[test]
fn parts_agree_with_the_standard_ones() {
    for s in samples() {
        assert_eq!(trim(s), s.trim());
        assert_eq!(lines(s), s.lines().collect::<Vec<_>>(), "{s:?}");
        assert_eq!(split(s, ','), s.split(',').collect::<Vec<_>>());
        assert_eq!(first_word(s).as_deref(), s.split_whitespace().next());
        let chars = chars_of(s);
        assert_eq!(chars, s.chars().collect::<Vec<_>>());
        assert_eq!(text_of(&chars, 0, chars.len()), s);
        for p in samples() {
            assert_eq!(starts_with(s, p), s.starts_with(p));
            assert_eq!(strip_prefix(s, p).as_deref(), s.strip_prefix(p));
            assert_eq!(same_text(s, p), s == p);
            assert_eq!(same_ignoring_case(s, p), s.eq_ignore_ascii_case(p));
            assert_eq!(is_in_order(s, p), s <= p);
        }
        for width in [0usize, 1, 4, 9] {
            assert_eq!(pad_right(s, width), format!("{s:<width$}"));
            assert_eq!(pad_left(s, width), format!("{s:>width$}"));
        }
    }
}

#[test]
fn numbers_agree_with_the_standard_ones() {
    for s in [
        "", "+", "-", "0", "00", "+7", "-7", "-0", " 1", "1 ", "1_000", "4294967295", "4294967296",
        "+4294967295", "18446744073709551615", "18446744073709551616", "99999999999999999999999",
        "000000000000000000000000000001", "٣", "1.0", "0x10", "++1",
    ] {
        assert_eq!(parse_number(s, u64::MAX), s.parse::<u64>().ok(), "{s:?}");
        assert_eq!(parse_number(s, u32::MAX as u64), s.parse::<u32>().ok().map(u64::from), "{s:?}");
    }
    for n in [0u64, 1, 9, 10, 99, 100, 65537, u64::MAX] {
        assert_eq!(to_decimal(n), n.to_string());
        assert_eq!(parse_number(&to_decimal(n), u64::MAX), Some(n));
    }
}
