//! Text, character by character.

use guanqi::text::{
    chars_of, decimal_text, find_char, find_text, has, has_prefix, has_suffix, hex_digit_value,
    is_float_text, is_white, less_text, lower_chars, parse_unsigned, push_hex, run_of_digits,
    same_chars, same_text, slice_chars, split_on, string_of, strip_prefix, to_lower, trim,
    trim_end, trim_start, word_of,
};

fn c(s: &str) -> Vec<char> {
    chars_of(s)
}

#[test]
fn characters_and_back() {
    assert_eq!(c("棋a"), vec!['棋', 'a']);
    assert_eq!(string_of(&c("围棋 x")), "围棋 x");
    assert!(same_text("a", "a") && !same_text("a", "A"));
    assert!(same_chars(&c("ab"), &['a', 'b']) && !same_chars(&c("ab"), &['a']));
    assert_eq!(slice_chars(&c("abcd"), 1, 3), vec!['b', 'c']);
}

#[test]
fn white_space_goes() {
    assert_eq!(string_of(&trim(&c(" \t\u{3000}a b\r\n"))), "a b");
    assert_eq!(string_of(&trim_start(&c("  a "))), "a ");
    assert_eq!(string_of(&trim_end(&c("  a "))), "  a");
    assert!(is_white('\u{00a0}') && !is_white('\u{200b}'));
}

#[test]
fn numbers_in_text() {
    for n in [0u64, 9, 10, 12345, u64::MAX] {
        assert_eq!(decimal_text(n), format!("{}", n));
        assert_eq!(parse_unsigned(&c(&format!("{}", n)), u64::MAX), Some(n));
    }
    assert_eq!(parse_unsigned(&c("256"), 255), None);
    assert_eq!(parse_unsigned(&c("+7"), 255), Some(7));
    assert_eq!(parse_unsigned(&c("-7"), 255), None);
    assert_eq!(parse_unsigned(&c(""), 255), None);
    assert_eq!(parse_unsigned(&c("18446744073709551616"), u64::MAX), None);
    for s in ["1", "-1.5", "+.5", "1.", "1e5", "2E-3", "inf", "NaN", "infinity"] {
        assert!(is_float_text(&c(s)));
        assert!(s.parse::<f64>().is_ok());
    }
    for s in ["", ".", "1e", "a", "1 ", "--1", "0x1"] {
        assert!(!is_float_text(&c(s)));
        assert!(s.parse::<f64>().is_err());
    }
}

#[test]
fn hexadecimal() {
    let mut s = String::new();
    push_hex(&mut s, 0x0f);
    push_hex(&mut s, 0xa0);
    assert_eq!(s, "0fa0");
    assert_eq!(hex_digit_value(b'f'), Some(15));
    assert_eq!(hex_digit_value(b'F'), Some(15));
    assert_eq!(hex_digit_value(b'g'), None);
}

#[test]
fn finding_in_text() {
    assert_eq!(find_char(&c("abc"), 'c'), Some(2));
    assert_eq!(find_char(&c("abc"), 'd'), None);
    assert_eq!(find_text(&c("xabab"), "ab"), Some(1));
    assert_eq!(find_text(&c("x"), "ab"), None);
    assert!(has(&c("xab"), "ab") && !has(&c("xa"), "ab"));
    assert!(has_prefix(&c("abc"), "ab") && !has_prefix(&c("a"), "ab"));
    assert!(has_suffix(&c("abc"), "bc") && !has_suffix(&c("abc"), "ab"));
    assert_eq!(strip_prefix(&c("abc"), "ab"), Some(vec!['c']));
    assert_eq!(strip_prefix(&c("abc"), "b"), None);
    assert_eq!(run_of_digits(&c("a12b"), 1), 3);
    assert_eq!(word_of(&c("  ab c")), Some(vec!['a', 'b']));
    assert_eq!(word_of(&c("  ")), None);
}

#[test]
fn pieces_of_text() {
    let p = split_on(&c("a;;b"), ';');
    assert_eq!(p, vec![vec!['a'], vec![], vec!['b']]);
    assert_eq!(split_on(&c(""), ';').len(), 1);
    assert_eq!(to_lower('Q'), 'q');
    assert_eq!(string_of(&lower_chars(&c("AbÄ"))), "abÄ");
    assert!(less_text("a", "b") && less_text("", "a") && !less_text("b", "a"));
}
