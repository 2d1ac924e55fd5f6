use makepad_platform::text::{
    after_prefix, append_dec, append_hex, append_six, append_text, chars_of, owned, parse_i32,
    parse_unsigned, same_text, split_chars, string_of, text_occurs, trim_end_text, trim_text,
};

fn chars(s: &str) -> Vec<char> {
    s.chars().collect()
}

#[test]
fn texts_and_characters() {
    assert_eq!(chars_of("añ«"), chars("añ«"));
    assert_eq!(string_of(&chars("añ«")), "añ«");
    assert_eq!(owned("«x»"), "«x»");
    assert!(same_text("ab", "ab"));
    assert!(!same_text("ab", "aB"));
    assert!(!same_text("ab", "abc"));
    let mut s = owned("a");
    append_text(&mut s, "ñb");
    assert_eq!(s, "añb");
}

#[test]
fn white_space_is_trimmed() {
    for t in ["", " ", " a ", "\t a b\r\n", "\u{2003}x\u{3000}", "\u{200b}x", "a"] {
        assert_eq!(trim_text(t), t.trim());
        assert_eq!(trim_end_text(t), t.trim_end());
    }
}

#[test]
fn texts_are_searched_and_split() {
    assert_eq!(after_prefix("--port=80", "--port="), Some("80".to_string()));
    assert_eq!(after_prefix("--por", "--port="), None);
    assert_eq!(after_prefix("x", ""), Some("x".to_string()));
    for (hay, needle) in [("abc", "bc"), ("abc", "bd"), ("abc", ""), ("", "a"), ("aab", "ab")] {
        assert_eq!(text_occurs(hay, needle), hay.contains(needle));
    }
    for t in ["", ",", "a,b", ",a,,b,"] {
        let want: Vec<Vec<char>> = t.split(',').map(chars).collect();
        assert_eq!(split_chars(&chars(t), ','), want);
    }
}

#[test]
fn numerals_are_read() {
    for t in ["0", "+7", "007", "", "+", "-1", "1 ", "18446744073709551615", "18446744073709551616", "9x"] {
        assert_eq!(parse_unsigned(&chars(t), u64::MAX), t.parse::<u64>().ok());
        assert_eq!(parse_unsigned(&chars(t), u16::MAX as u64), t.parse::<u16>().ok().map(|n| n as u64));
    }
    for t in ["0", "-0", "+5", "-5", "2147483647", "2147483648", "-2147483648", "-2147483649", "", "-", "--1"] {
        assert_eq!(parse_i32(&chars(t)), t.parse::<i32>().ok());
    }
}

#[test]
fn numerals_are_written() {
    for n in [0u64, 7, 10, 999999, 1000000, u64::MAX] {
        let mut d = String::new();
        append_dec(&mut d, n);
        assert_eq!(d, format!("{n}"));
        let mut six = String::new();
        append_six(&mut six, n);
        assert_eq!(six, format!("{n:06}"));
        let mut hex = String::new();
        append_hex(&mut hex, n);
        assert_eq!(hex, format!("{n:016x}"));
        assert_eq!(parse_unsigned(&chars(&d), u64::MAX), Some(n));
    }
}
