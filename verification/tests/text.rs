use fast_yaml::parser::{peek, string_of};
use fast_yaml::text::{chars_of, check_fraction, read_decimal, scan_run, CharClass};

fn chars(text: &str) -> Vec<char> {
    text.chars().collect()
}

#[test]
fn characters_of_a_string() {
    assert_eq!(chars_of(""), Vec::<char>::new());
    assert_eq!(chars_of("a\u{e9}\u{1F600}z"), vec!['a', '\u{e9}', '\u{1F600}', 'z']);
}

#[test]
fn string_of_a_range() {
    let input = chars("h\u{e9}llo");
    assert_eq!(string_of(&input, 0, 5), "h\u{e9}llo");
    assert_eq!(string_of(&input, 1, 3), "\u{e9}l");
    assert_eq!(string_of(&input, 2, 2), "");
}

#[test]
fn peek_inside_and_outside() {
    let input = chars("ab");
    assert_eq!(peek(&input, 0), Some('a'));
    assert_eq!(peek(&input, 1), Some('b'));
    assert_eq!(peek(&input, 2), None);
    assert_eq!(peek(&input, usize::MAX), None);
}

#[test]
fn white_space_is_what_unicode_says() {
    for code in 0..=0x10FFFFu32 {
        if let Some(c) = char::from_u32(code) {
            assert_eq!(CharClass::Space.contains(c), c.is_whitespace(), "{:?}", c);
        }
    }
}

#[test]
fn digits_are_the_ascii_digits() {
    for code in 0..=0x10FFFFu32 {
        if let Some(c) = char::from_u32(code) {
            assert_eq!(CharClass::Digit.contains(c), c.is_ascii_digit(), "{:?}", c);
        }
    }
}

#[test]
fn name_characters_are_ascii_letters_digits_and_underscore() {
    for code in 0..=0x10FFFFu32 {
        if let Some(c) = char::from_u32(code) {
            assert_eq!(
                CharClass::Word.contains(c),
                c.is_ascii_alphanumeric() || c == '_',
                "{:?}",
                c
            );
        }
    }
}

#[test]
fn the_other_classes() {
    for code in 0..=0x10FFFFu32 {
        if let Some(c) = char::from_u32(code) {
            assert_eq!(CharClass::Sign.contains(c), "=!<>&|".contains(c), "{:?}", c);
            assert_eq!(CharClass::Numeral.contains(c), "0123456789.".contains(c), "{:?}", c);
            assert_eq!(CharClass::Unquoted.contains(c), c != '"', "{:?}", c);
        }
    }
}

#[test]
fn a_run_ends_at_the_first_character_outside_the_class() {
    let input = chars("123abc  ==x");
    assert_eq!(scan_run(&input, 0, CharClass::Digit), 3);
    assert_eq!(scan_run(&input, 1, CharClass::Digit), 3);
    assert_eq!(scan_run(&input, 3, CharClass::Digit), 3);
    assert_eq!(scan_run(&input, 0, CharClass::Word), 6);
    assert_eq!(scan_run(&input, 6, CharClass::Space), 8);
    assert_eq!(scan_run(&input, 8, CharClass::Sign), 10);
    assert_eq!(scan_run(&input, 0, CharClass::Unquoted), 11);
    assert_eq!(scan_run(&input, 11, CharClass::Unquoted), 11);
    assert_eq!(scan_run(&input, 50, CharClass::Unquoted), 50);
}

#[test]
fn decimal_digits_spell_a_number() {
    let input = chars("x0120y");
    assert_eq!(read_decimal(&input, 1, 5, u64::MAX), Some(120));
    assert_eq!(read_decimal(&input, 1, 5, 120), Some(120));
    assert_eq!(read_decimal(&input, 1, 5, 119), None);
    assert_eq!(read_decimal(&input, 2, 4, 12), Some(12));
    assert_eq!(read_decimal(&input, 3, 3, 0), Some(0));
    assert_eq!(read_decimal(&input, 1, 2, 0), Some(0));
}

#[test]
fn decimal_digits_up_to_the_limit() {
    let input = chars("18446744073709551615");
    assert_eq!(read_decimal(&input, 0, 20, u64::MAX), Some(u64::MAX));
    let input = chars("18446744073709551616");
    assert_eq!(read_decimal(&input, 0, 20, u64::MAX), None);
    let input = chars("000000000000000000000000000000000000007");
    assert_eq!(read_decimal(&input, 0, input.len(), 7), Some(7));
    assert_eq!(read_decimal(&input, 0, input.len(), 6), None);
    let input = chars("99999999999999999999999999999999999999999999999999");
    assert_eq!(read_decimal(&input, 0, input.len(), u64::MAX), None);
    let input = chars("9");
    assert_eq!(read_decimal(&input, 0, 1, 5), None);
}

#[test]
fn what_is_no_digit_spells_no_number() {
    let input = chars("12a4");
    assert_eq!(read_decimal(&input, 0, 4, u64::MAX), None);
    assert_eq!(read_decimal(&input, 0, 3, u64::MAX), None);
    assert_eq!(read_decimal(&input, 0, 2, u64::MAX), Some(12));
    assert_eq!(read_decimal(&input, 3, 4, u64::MAX), Some(4));
    let input = chars("-1");
    assert_eq!(read_decimal(&input, 0, 2, u64::MAX), None);
    let input = chars("\u{661}");
    assert_eq!(read_decimal(&input, 0, 1, u64::MAX), None);
}

#[test]
fn decimal_fractions() {
    for (written, expected) in [
        ("1.5", true),
        ("5.", false),
        (".5", false),
        ("05.50", true),
        ("0.0", true),
        ("123.456", true),
        (".", false),
        ("", false),
        ("5", false),
        ("55", false),
        ("1.2.3", false),
        ("..", false),
        ("1..", false),
        ("..1", false),
        ("1.a", false),
        ("-1.5", false),
        ("1e5", false),
        ("1.5 ", false),
    ] {
        let input = chars(written);
        assert_eq!(check_fraction(&input, 0, input.len()), expected, "{:?}", written);
    }
    let input = chars("x1.5y");
    assert!(check_fraction(&input, 1, 4));
    assert!(!check_fraction(&input, 0, 4));
    assert!(!check_fraction(&input, 1, 5));
}

#[test]
fn decimal_fractions_are_digits_dot_digits() {
    let alphabet = ['0', '7', '.', 'x'];
    let mut texts = vec![String::new()];
    for _ in 0..5 {
        let mut longer = Vec::new();
        for t in &texts {
            for c in alphabet {
                let mut next = t.clone();
                next.push(c);
                longer.push(next);
            }
        }
        texts.extend(longer);
    }
    for written in texts {
        let parts: Vec<&str> = written.split('.').collect();
        let expected = parts.len() == 2
            && parts.iter().all(|p| !p.is_empty() && p.chars().all(|c| c.is_ascii_digit()));
        let input = chars(&written);
        assert_eq!(check_fraction(&input, 0, input.len()), expected, "{:?}", written);
        if expected {
            assert!(written.parse::<f64>().is_ok());
        }
    }
}
