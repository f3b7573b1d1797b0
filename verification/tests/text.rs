use systems_toolkit::text::number::{parse_numeral, push_digits, push_signed};
use systems_toolkit::text::words::split_words;

fn numeral(s: &str, radix: usize) -> Option<usize> {
    let chars: Vec<char> = s.chars().collect();
    parse_numeral(&chars, 0, radix)
}

#[test]
fn decimal_numerals() {
    assert_eq!(numeral("0", 10), Some(0));
    assert_eq!(numeral("007", 10), Some(7));
    assert_eq!(numeral("+42", 10), Some(42));
    assert_eq!(numeral("18446744073709551615", 10), Some(18446744073709551615));
}

#[test]
fn what_is_no_decimal_numeral() {
    assert_eq!(numeral("", 10), None);
    assert_eq!(numeral("+", 10), None);
    assert_eq!(numeral("++1", 10), None);
    assert_eq!(numeral("-1", 10), None);
    assert_eq!(numeral("1a", 10), None);
    assert_eq!(numeral(" 1", 10), None);
    assert_eq!(numeral("18446744073709551616", 10), None);
    assert_eq!(numeral("99999999999999999999999", 10), None);
}

#[test]
fn numerals_are_those_of_the_standard_library() {
    let samples = [
        "", "+", "-", "0", "+0", "-0", "00", "ff", "FF", "fG", "+ff", "0x1", "1 ", "dead", "٣", "é",
        "ffffffffffffffff", "10000000000000000", "99999999999999999999",
    ];
    for s in samples {
        assert_eq!(numeral(s, 10), s.parse::<usize>().ok());
        assert_eq!(numeral(s, 10), usize::from_str_radix(s, 10).ok());
        assert_eq!(numeral(s, 16), usize::from_str_radix(s, 16).ok());
    }
}

#[test]
fn numbers_are_written_out() {
    for n in [0usize, 1, 9, 10, 15, 16, 255, 4096, 0x401a2b, usize::MAX] {
        let mut hex = String::from("<");
        push_digits(&mut hex, n, 16);
        assert_eq!(hex, format!("<{:x}", n));
        let mut decimal = String::new();
        push_digits(&mut decimal, n, 10);
        assert_eq!(decimal, format!("{}", n));
        assert_eq!(numeral(&decimal, 10), Some(n));
    }
    for n in [0i32, 7, -1, 137, i32::MIN, i32::MAX] {
        let mut text = String::new();
        push_signed(&mut text, n);
        assert_eq!(text, format!("{}", n));
    }
}

#[test]
fn lines_are_split_at_white_space() {
    assert_eq!(split_words("run  a\tb "), vec!["run", "a", "b"]);
    assert_eq!(split_words(" break\u{3000}*0x10"), vec!["break", "*0x10"]);
    assert_eq!(split_words("x"), vec!["x"]);
    assert!(split_words("").is_empty());
    assert!(split_words(" \t\u{a0}\n").is_empty());
}

#[test]
fn words_are_those_of_the_standard_library() {
    for code in 0..0x11000u32 {
        if let Some(c) = char::from_u32(code) {
            let line = format!("a{}b", c);
            let expected: Vec<&str> = line.split_whitespace().collect();
            assert_eq!(split_words(&line), expected);
        }
    }
}
