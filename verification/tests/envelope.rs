use rds::envelope::{
    default_0_0_100_0, format_envelope, parse_envelope, EnvelopeError, NumberErrorKind, Point,
};
use rds::point_list::{format_point_list, parse_point_list};

fn pts(v: &[(i32, i32)]) -> Vec<Point> {
    v.iter().map(|&(t, x)| Point::new(t, x)).collect()
}

#[test]
fn point_new_keeps_coordinates() {
    let p = Point::new(-3, 7);
    assert_eq!(p.time_level, -3);
    assert_eq!(p.value, 7);
}

#[test]
fn parse_two_pairs() {
    assert_eq!(parse_envelope("0,0 100,0"), Ok(pts(&[(0, 0), (100, 0)])));
}

#[test]
fn parse_many_pairs() {
    assert_eq!(
        parse_envelope("0,100 250,60 1000,0"),
        Ok(pts(&[(0, 100), (250, 60), (1000, 0)]))
    );
}

#[test]
fn parse_single_pair_is_refused() {
    assert_eq!(parse_envelope("5,6"), Err(EnvelopeError::Pattern));
}

#[test]
fn parse_empty_is_refused() {
    assert_eq!(parse_envelope(""), Err(EnvelopeError::Pattern));
}

#[test]
fn parse_bad_start_is_refused() {
    assert_eq!(parse_envelope(" 1,2 3,4"), Err(EnvelopeError::Pattern));
    assert_eq!(parse_envelope("1,2  3,4"), Err(EnvelopeError::Pattern));
    assert_eq!(parse_envelope("1,2 3,"), Err(EnvelopeError::Pattern));
    assert_eq!(parse_envelope("-1,2 3,4"), Err(EnvelopeError::Pattern));
}

#[test]
fn parse_reads_pairs_after_other_text() {
    assert_eq!(
        parse_envelope("1,2 3,4 junk 5,6 7,"),
        Ok(pts(&[(1, 2), (3, 4), (5, 6)]))
    );
    assert_eq!(parse_envelope("1,2 3,4x"), Ok(pts(&[(1, 2), (3, 4)])));
}

#[test]
fn parse_leading_zeros() {
    assert_eq!(parse_envelope("01,002 3,4"), Ok(pts(&[(1, 2), (3, 4)])));
}

#[test]
fn parse_largest_number() {
    assert_eq!(
        parse_envelope("2147483647,0 0,2147483647"),
        Ok(pts(&[(i32::MAX, 0), (0, i32::MAX)]))
    );
}

#[test]
fn parse_overflow_is_an_error() {
    assert_eq!(
        parse_envelope("2147483648,0 0,0"),
        Err(EnvelopeError::Number(NumberErrorKind::PosOverflow))
    );
    assert_eq!(
        parse_envelope("1,2 3,4 5,99999999999"),
        Err(EnvelopeError::Number(NumberErrorKind::PosOverflow))
    );
}

#[test]
fn parse_unicode_digits_are_digits_of_the_pattern() {
    // U+0663 ARABIC-INDIC DIGIT THREE is in `\d`, but not an ASCII digit.
    assert_eq!(
        parse_envelope("1,2 3,4 \u{663},5"),
        Err(EnvelopeError::Number(NumberErrorKind::InvalidDigit))
    );
    assert_eq!(
        parse_envelope("\u{663},5 1,2"),
        Err(EnvelopeError::Number(NumberErrorKind::InvalidDigit))
    );
    // U+00B2 SUPERSCRIPT TWO is a number but not a decimal digit.
    assert_eq!(parse_envelope("1,2 3,4 \u{b2},5"), Ok(pts(&[(1, 2), (3, 4)])));
}

#[test]
fn format_joins_with_spaces() {
    assert_eq!(format_envelope(&pts(&[(0, 0), (100, 0)])), "0,0 100,0");
    assert_eq!(format_envelope(&pts(&[(1, 2)])), "1,2");
    assert_eq!(format_envelope(&Vec::new()), "");
}

#[test]
fn format_negative_numbers() {
    assert_eq!(format_envelope(&pts(&[(-5, 3), (i32::MIN, i32::MAX)])), "-5,3 -2147483648,2147483647");
}

#[test]
fn round_trip_of_a_written_envelope() {
    let e = pts(&[(0, 0), (12, 3400), (2147483647, 9)]);
    assert_eq!(parse_envelope(&format_envelope(&e)), Ok(e));
}

#[test]
fn rewriting_a_read_envelope_is_stable() {
    let e = parse_envelope("007,1 2,3 and 4,5").unwrap();
    let text = format_envelope(&e);
    assert_eq!(text, "7,1 2,3 4,5");
    assert_eq!(parse_envelope(&text), Ok(e));
}

#[test]
fn default_envelope() {
    assert_eq!(default_0_0_100_0(), pts(&[(0, 0), (100, 0)]));
    assert_eq!(rds::point_list::default_0_0_100_0(), vec![(0, 0), (100, 0)]);
}

#[test]
fn point_list_reading_and_writing() {
    assert_eq!(parse_point_list("10,20 30,40"), Ok(vec![(10, 20), (30, 40)]));
    assert_eq!(parse_point_list("10,20"), Err(EnvelopeError::Pattern));
    assert_eq!(format_point_list(&vec![(10, 20), (30, 40)]), "10,20 30,40");
}

#[test]
fn parse_invalid_digit_where_overflow_would_follow() {
    // 214748365 * 10 no longer fits an i32, but the next character is not
    // an ASCII digit: the invalid digit is what is reported.
    assert_eq!(
        parse_envelope("1,2 3,4 214748365\u{663},1"),
        Err(EnvelopeError::Number(NumberErrorKind::InvalidDigit))
    );
}

#[test]
fn numbers_read_as_std_reads_them() {
    let runs = [
        "0",
        "42",
        "0000000000000000007",
        "2147483647",
        "2147483648",
        "99999999999",
        "214748365\u{663}",
        "21474836\u{663}9",
        "\u{663}",
        "1\u{663}2",
        "2147483650\u{663}",
    ];
    for run in runs.iter() {
        let text = format!("1,2 3,4 {},1", run);
        let expected = match i32::from_str_radix(run, 10) {
            Ok(v) => Ok(pts(&[(1, 2), (3, 4), (v, 1)])),
            Err(e) => match e.kind() {
                std::num::IntErrorKind::InvalidDigit => {
                    Err(EnvelopeError::Number(NumberErrorKind::InvalidDigit))
                }
                std::num::IntErrorKind::PosOverflow => {
                    Err(EnvelopeError::Number(NumberErrorKind::PosOverflow))
                }
                _ => panic!("unexpected error kind"),
            },
        };
        assert_eq!(parse_envelope(&text), expected, "run {:?}", run);
    }
}

/// The reading of an envelope as the `regex` crate itself does it.
fn read_with_regex(
    full_re: &regex::Regex,
    re: &regex::Regex,
    s: &str,
) -> Result<Vec<Point>, EnvelopeError> {
    if !full_re.is_match(s) {
        return Err(EnvelopeError::Pattern);
    }
    let number = |t: &str| {
        i32::from_str_radix(t, 10).map_err(|e| match e.kind() {
            std::num::IntErrorKind::PosOverflow => {
                EnvelopeError::Number(NumberErrorKind::PosOverflow)
            }
            _ => EnvelopeError::Number(NumberErrorKind::InvalidDigit),
        })
    };
    let mut list = vec![];
    for caps in re.captures_iter(s) {
        list.push(Point::new(number(&caps[1])?, number(&caps[2])?));
    }
    Ok(list)
}

#[test]
fn reading_agrees_with_the_regex_crate() {
    let full_re = regex::Regex::new(r"^(\d+,\d+ )+(\d+,\d+)").unwrap();
    let re = regex::Regex::new(r"(\d+),(\d+)").unwrap();
    let alphabet = ['0', '7', '9', '1', '3', ',', ',', ' ', ' ', 'x', '\u{663}', '\u{b2}'];
    let mut accepted = 0;
    let mut state: u64 = 0x2545F4914F6CDD1D;
    for _ in 0..1500 {
        state = state.wrapping_mul(6364136223846793005).wrapping_add(1442695040888963407);
        let len = (state >> 59) as usize + 3;
        let mut s = String::new();
        if state & 1 == 0 {
            s.push_str("1,2 34,5");
        }
        for k in 0..len {
            let r = state.rotate_left(7 * k as u32 + 3);
            s.push(alphabet[(r % alphabet.len() as u64) as usize]);
        }
        let r = parse_envelope(&s);
        if r.is_ok() {
            accepted += 1;
        }
        assert_eq!(r, read_with_regex(&full_re, &re, &s), "text {:?}", s);
    }
    assert!(accepted > 100);
    for s in ["1,2 3,4", "12,34 56,7 x 8,9", "1,2 3,4 ,5 6, 7,8", "99999999999,1 2,3", "1,2 3,99999999999"].iter() {
        assert_eq!(parse_envelope(s), read_with_regex(&full_re, &re, s), "text {:?}", s);
    }
}
