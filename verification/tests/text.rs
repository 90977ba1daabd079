use exam_codes::decimal::format_code;
use exam_codes::distance::{chars_of, distance_of, hamming_distance};
use exam_codes::request::{CountError, WantedPrefix};
use std::num::IntErrorKind;

#[test]
fn seven_in_four_digits() {
    assert_eq!(format_code("", 7, 4), "0007");
}

#[test]
fn codes_are_prefix_then_padded_number() {
    assert_eq!(format_code("AB", 123, 6), "AB000123");
    assert_eq!(format_code("", 0, 1), "0");
    assert_eq!(format_code("", 0, 3), "000");
    assert_eq!(format_code("x", 9, 1), "x9");
    assert_eq!(format_code("", 10, 2), "10");
    assert_eq!(format_code("", 99, 2), "99");
    assert_eq!(format_code("S0", 999_999, 6), "S0999999");
    assert_eq!(format_code("é", 5, 2), "é05");
    assert_eq!(format_code("", 9_999_999_999_999_999_999, 19), "9999999999999999999");
    assert_eq!(format_code("", 1_000_000_000_000_000_000, 19), "1000000000000000000");
    assert_eq!(format_code("", 1234567890, 12), "001234567890");
}

#[test]
fn a_number_wider_than_the_width_is_written_whole() {
    assert_eq!(format_code("", 12345, 3), "12345");
    assert_eq!(format_code("", 7, 0), "7");
    assert_eq!(format_code("", 0, 0), "0");
    assert_eq!(format_code("", u64::MAX, 5), "18446744073709551615");
    assert_eq!(format_code("", u64::MAX, 22), "0018446744073709551615");
}

#[test]
fn formatting_agrees_with_the_standard_formatter() {
    let values = [0u64, 1, 9, 10, 11, 99, 100, 101, 4096, 65535, 999_999, 1_000_000, u64::MAX];
    for value in values {
        for width in 0..25usize {
            assert_eq!(format_code("p", value, width), format!("p{:01$}", value, width));
        }
    }
}

#[test]
fn distance_counts_differing_positions() {
    assert_eq!(hamming_distance("1234", "1234"), 0);
    assert_eq!(hamming_distance("1234", "1235"), 1);
    assert_eq!(hamming_distance("1234", "4321"), 4);
    assert_eq!(hamming_distance("0000", "0101"), 2);
    assert_eq!(hamming_distance("A123", "B123"), 1);
    assert_eq!(hamming_distance("", ""), 0);
}

#[test]
fn distance_stops_at_the_shorter_code() {
    assert_eq!(hamming_distance("123", "12"), 0);
    assert_eq!(hamming_distance("12", "123"), 0);
    assert_eq!(hamming_distance("923", "12"), 1);
    assert_eq!(hamming_distance("", "12345"), 0);
    assert_eq!(hamming_distance("AB12", "A12"), 2);
    assert_eq!(hamming_distance("x", "yyyyyyyy"), 1);
}

#[test]
fn distance_is_symmetric() {
    let codes = ["", "1", "12", "21", "A12", "B21", "0000", "00010", "é1"];
    for a in codes {
        for b in codes {
            assert_eq!(hamming_distance(a, b), hamming_distance(b, a));
            assert!(hamming_distance(a, b) <= a.chars().count().min(b.chars().count()));
        }
        assert_eq!(hamming_distance(a, a), 0);
    }
}

#[test]
fn distance_is_counted_in_characters() {
    assert_eq!(hamming_distance("é1", "e1"), 1);
    assert_eq!(hamming_distance("é1", "é2"), 1);
    assert_eq!(hamming_distance("日本1", "日本1"), 0);
    assert_eq!(hamming_distance("日本1", "日木2"), 2);
}

#[test]
fn distance_agrees_with_zipping_the_characters() {
    let codes = ["", "7", "0007", "0070", "A0007", "B0070", "00070", "čb", "cb"];
    for a in codes {
        for b in codes {
            let zipped = a.chars().zip(b.chars()).filter(|(x, y)| x != y).count();
            assert_eq!(hamming_distance(a, b), zipped);
            assert_eq!(distance_of(&chars_of(a), &chars_of(b)), zipped);
        }
    }
}

#[test]
fn characters_are_taken_in_order() {
    assert_eq!(chars_of("A:12"), vec!['A', ':', '1', '2']);
    assert_eq!(chars_of(""), Vec::<char>::new());
    assert_eq!(chars_of("é日"), vec!['é', '日']);
}

fn wanted(text: &str) -> (String, usize) {
    match WantedPrefix::from_str(text) {
        Ok(w) => (w.prefix, w.number),
        Err(e) => panic!("{:?} is no request: {:?}", text, e),
    }
}

fn refused(text: &str) -> CountError {
    match WantedPrefix::from_str(text) {
        Ok(w) => panic!("{:?} was read as {:?}", text, w),
        Err(e) => e,
    }
}

#[test]
fn a_plain_number_has_no_prefix() {
    assert_eq!(wanted("78"), (String::new(), 78));
    assert_eq!(wanted("0"), (String::new(), 0));
    assert_eq!(wanted("007"), (String::new(), 7));
    assert_eq!(wanted("+5"), (String::new(), 5));
}

#[test]
fn a_colon_divides_prefix_and_number() {
    assert_eq!(wanted("AB3:78"), ("AB3".to_string(), 78));
    assert_eq!(wanted("A:500"), ("A".to_string(), 500));
    assert_eq!(wanted("B:200"), ("B".to_string(), 200));
    assert_eq!(wanted(":5"), (String::new(), 5));
    assert_eq!(wanted("é日:12"), ("é日".to_string(), 12));
    assert_eq!(wanted("12:34"), ("12".to_string(), 34));
    assert_eq!(wanted("S0:+600"), ("S0".to_string(), 600));
}

#[test]
fn only_the_first_colon_divides() {
    assert_eq!(refused("A:B:5"), CountError::InvalidDigit);
    assert_eq!(refused("A::5"), CountError::InvalidDigit);
    assert_eq!(refused("::"), CountError::InvalidDigit);
}

#[test]
fn a_missing_number_is_refused_as_empty() {
    assert_eq!(refused(""), CountError::Empty);
    assert_eq!(refused("A:"), CountError::Empty);
    assert_eq!(refused(":"), CountError::Empty);
}

#[test]
fn what_is_no_digit_is_refused() {
    assert_eq!(refused("abc"), CountError::InvalidDigit);
    assert_eq!(refused("12x"), CountError::InvalidDigit);
    assert_eq!(refused("-5"), CountError::InvalidDigit);
    assert_eq!(refused("+"), CountError::InvalidDigit);
    assert_eq!(refused("-"), CountError::InvalidDigit);
    assert_eq!(refused("++5"), CountError::InvalidDigit);
    assert_eq!(refused(" 5"), CountError::InvalidDigit);
    assert_eq!(refused("5 "), CountError::InvalidDigit);
    assert_eq!(refused("1_000"), CountError::InvalidDigit);
    assert_eq!(refused("A:x"), CountError::InvalidDigit);
    assert_eq!(refused("٣"), CountError::InvalidDigit);
    assert_eq!(refused("1.5"), CountError::InvalidDigit);
}

#[test]
fn a_number_beyond_usize_is_refused() {
    let max = usize::MAX.to_string();
    assert_eq!(wanted(&max), (String::new(), usize::MAX));
    assert_eq!(wanted(&format!("T:{}", max)), ("T".to_string(), usize::MAX));
    assert_eq!(wanted(&format!("000{}", max)), (String::new(), usize::MAX));
    let beyond = format!("{}", usize::MAX as u128 + 1);
    assert_eq!(refused(&beyond), CountError::TooLarge);
    assert_eq!(refused(&format!("{}0", max)), CountError::TooLarge);
    assert_eq!(refused("A:99999999999999999999999999999999"), CountError::TooLarge);
}

#[test]
fn the_first_character_that_fails_decides() {
    assert_eq!(refused("99999999999999999999999999999999x"), CountError::TooLarge);
    assert_eq!(refused("x99999999999999999999999999999999"), CountError::InvalidDigit);
    assert_eq!(refused("9x999999999999999999999999999999"), CountError::InvalidDigit);
}

#[test]
fn counts_are_read_as_the_standard_parser_reads_them() {
    let max = usize::MAX.to_string();
    let beyond = format!("{}", usize::MAX as u128 + 1);
    let long = format!("{}9x", max);
    let texts = [
        "", "0", "7", "78", "007", "+5", "+", "-", "-5", "++5", "+-5", " 5", "5 ", "12x", "x12",
        "1_000", "٣", "1.5", "0x10", &max, &beyond, &long, "99999999999999999999999999999999",
        "99999999999999999999999999999999x", "00000000000000000000000000000000001",
    ];
    for text in texts {
        let expected = match text.parse::<usize>() {
            Ok(n) => Ok(n),
            Err(e) => Err(match e.kind() {
                IntErrorKind::Empty => CountError::Empty,
                IntErrorKind::InvalidDigit => CountError::InvalidDigit,
                IntErrorKind::PosOverflow => CountError::TooLarge,
                other => panic!("unexpected kind {:?} for {:?}", other, text),
            }),
        };
        let got = WantedPrefix::from_str(text).map(|w| w.number);
        assert_eq!(got, expected, "on {:?}", text);
        let with_prefix = WantedPrefix::from_str(&format!("AB3:{}", text)).map(|w| (w.prefix, w.number));
        assert_eq!(with_prefix, expected.map(|n| ("AB3".to_string(), n)), "on AB3:{:?}", text);
    }
}

#[test]
fn a_written_count_is_read_back() {
    for n in [0usize, 1, 9, 10, 600, 12345, usize::MAX] {
        assert_eq!(wanted(&format_code("", n as u64, 0)), (String::new(), n));
        assert_eq!(wanted(&format_code("S1:", n as u64, 30)), ("S1".to_string(), n));
    }
}
