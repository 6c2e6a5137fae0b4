use duifene::cookies::split_segments;
use duifene::number::{decimal, float_text, integer, padded, read_integer};
use duifene::text::{
    alphanumeric, chars_of, comes_before, concat2, concat3, digit, find_char, find_from,
    has_prefix, has_text, is_empty, join, same_text, skip_white_space, split_at_char,
    text_between, trimmed, white_space, width_of_char,
};

#[test]
fn characters_are_classed_as_unicode_classes_them() {
    for code in 0..=0x10ffffu32 {
        if let Some(c) = char::from_u32(code) {
            assert_eq!(white_space(c), c.is_whitespace());
            assert_eq!(digit(c), c.is_ascii_digit());
            assert_eq!(alphanumeric(c), c.is_ascii_alphanumeric());
            assert_eq!(width_of_char(c), c.len_utf8());
        }
    }
}

#[test]
fn texts_are_searched() {
    assert!(has_text("活动已结束", "已结束"));
    assert!(!has_text("活动", "已结束"));
    assert!(has_text("abc", ""));
    assert!(has_text("", ""));
    assert!(has_prefix("//a", "//"));
    assert!(!has_prefix("/", "//"));
    let text = chars_of("abcabc");
    assert_eq!(find_from(&text, &chars_of("bc"), 0), Some(1));
    assert_eq!(find_from(&text, &chars_of("bc"), 2), Some(4));
    assert_eq!(find_from(&text, &chars_of("bc"), 5), None);
    assert_eq!(find_from(&text, &chars_of(""), 6), Some(6));
    assert_eq!(find_from(&text, &chars_of(""), 7), None);
    assert_eq!(find_char(&text, 'c', 3), 5);
    assert_eq!(find_char(&text, 'x', 3), 6);
}

#[test]
fn texts_are_trimmed_and_parted() {
    assert_eq!(trimmed(" \t\u{3000}a b\n"), "a b");
    assert_eq!(trimmed("  "), "");
    assert_eq!(skip_white_space(&chars_of("  a"), 0), 2);
    assert_eq!(split_at_char("a=b=c", '='), Some(("a".to_string(), "b=c".to_string())));
    assert_eq!(split_at_char("abc", '='), None);
    assert_eq!(split_segments("a;b;;c;", ';'), ["a", "b", "", "c", ""]);
    assert_eq!(split_segments("", ';'), [""]);
    assert_eq!(text_between(&chars_of("距离十米"), 1, 3), "离十");
}

#[test]
fn texts_are_put_together() {
    assert_eq!(join(&vec!["a".to_string(), "b".to_string(), "c".to_string()], "; "), "a; b; c");
    assert_eq!(join(&Vec::new(), "; "), "");
    assert_eq!(concat2("a", "b"), "ab");
    assert_eq!(concat3("a", "", "c"), "ac");
    assert!(is_empty(""));
    assert!(!is_empty(" "));
    assert!(same_text("课", "课"));
    assert!(!same_text("课", "课 "));
}

#[test]
fn texts_are_ordered_as_strings_are() {
    let texts = ["", "a", "ab", "b", "B", "课", "课A", "\u{10000}", "\u{ffff}"];
    for a in texts {
        for b in texts {
            assert_eq!(comes_before(a, b), a < b);
        }
    }
}

#[test]
fn numbers_are_written() {
    for number in [0u64, 7, 10, 99, 100, 12345, u64::MAX] {
        assert_eq!(decimal(number), number.to_string());
        assert_eq!(padded(number), format!("{:02}", number));
    }
    for number in [0i64, 5, -5, i64::MIN, i64::MAX] {
        assert_eq!(integer(number), number.to_string());
    }
}

#[test]
fn integers_are_read_as_the_language_reads_them() {
    let texts = [
        "0", "7", "+7", "-7", "-0", "", "+", "-", "--1", "1 ", " 1", "1.0", "００",
        "9223372036854775807", "9223372036854775808", "-9223372036854775808",
        "-9223372036854775809", "18446744073709551615", "18446744073709551616",
        "000000000000000000000000000000000000000000000001",
        "99999999999999999999999999999999999999999999",
    ];
    for text in texts {
        assert_eq!(
            read_integer(text, true, i64::MIN as i128, i64::MAX as i128),
            text.parse::<i64>().ok().map(|value| value as i128),
            "{}",
            text
        );
        assert_eq!(
            read_integer(text, false, 0, u64::MAX as i128),
            text.parse::<u64>().ok().map(|value| value as i128),
            "{}",
            text
        );
        assert_eq!(
            read_integer(text, true, i32::MIN as i128, i32::MAX as i128),
            text.parse::<i32>().ok().map(|value| value as i128),
            "{}",
            text
        );
    }
}

#[test]
fn float_texts_are_those_that_the_language_reads() {
    let pieces = ["", "+", "-", "0", "12", ".", "e", "E", "inf", "NaN", "infinity", "x", " "];
    for a in pieces {
        for b in pieces {
            for c in pieces {
                for d in pieces {
                    let text = format!("{a}{b}{c}{d}");
                    assert_eq!(float_text(&text), text.parse::<f64>().is_ok(), "{}", text);
                }
            }
        }
    }
    for text in ["1e+5", "1e-5", "1.e5", ".5e5", "1e5.", "1e", "１", "iNfInItY", "1_0", "0x1"] {
        assert_eq!(float_text(text), text.parse::<f64>().is_ok(), "{}", text);
    }
}
