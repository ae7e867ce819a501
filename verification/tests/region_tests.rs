use region_palette::region::{ParseError, Point, Region};
use region_palette::text::{
    chars_of, decimal_string, find_char, is_space_char, parse_u32, sub_chars, trim_chars,
};

fn chars(s: &str) -> Vec<char> {
    s.chars().collect()
}

fn region(label: Option<&str>, x1: u32, y1: u32, x2: u32, y2: u32) -> Region {
    Region {
        label: label.map(|l| l.to_string()),
        start: Point { x: x1, y: y1 },
        end: Point { x: x2, y: y2 },
    }
}

#[test]
fn point_parses_plain() {
    assert_eq!(Point::from_str("3,4"), Ok(Point { x: 3, y: 4 }));
    assert_eq!(Point::from_str("0,0"), Ok(Point { x: 0, y: 0 }));
    assert_eq!(
        Point::from_str("4294967295,12"),
        Ok(Point { x: 4294967295, y: 12 })
    );
}

#[test]
fn point_ignores_space_around_numbers() {
    let expected = Ok(Point { x: 3, y: 4 });
    assert_eq!(Point::from_str("3,4"), expected);
    assert_eq!(Point::from_str(" 3, 4 "), expected);
    assert_eq!(Point::from_str("3 ,4"), expected);
    assert_eq!(Point::from_str("\t3\u{a0},\u{3000}4\n"), expected);
}

#[test]
fn point_rejects_space_inside_a_number() {
    assert_eq!(Point::from_str("1 2,3"), Err(ParseError::InvalidX));
    assert_eq!(Point::from_str("1,2 3"), Err(ParseError::InvalidY));
}

#[test]
fn point_without_comma() {
    assert_eq!(Point::from_str("34"), Err(ParseError::MissingSeparator));
    assert_eq!(Point::from_str(""), Err(ParseError::MissingSeparator));
}

#[test]
fn point_with_bad_x() {
    assert_eq!(Point::from_str("a,4"), Err(ParseError::InvalidX));
    assert_eq!(Point::from_str(",4"), Err(ParseError::InvalidX));
    assert_eq!(Point::from_str("-1,4"), Err(ParseError::InvalidX));
    assert_eq!(Point::from_str("4294967296,4"), Err(ParseError::InvalidX));
    assert_eq!(Point::from_str("x,y"), Err(ParseError::InvalidX));
}

#[test]
fn point_with_bad_y() {
    assert_eq!(Point::from_str("3,"), Err(ParseError::InvalidY));
    assert_eq!(Point::from_str("3,b"), Err(ParseError::InvalidY));
    assert_eq!(Point::from_str("3,4,5"), Err(ParseError::InvalidY));
    assert_eq!(
        Point::from_str("3,99999999999999999999999"),
        Err(ParseError::InvalidY)
    );
}

#[test]
fn point_writes_as_x_comma_y() {
    assert_eq!(Point { x: 3, y: 4 }.to_string(), "3,4");
    assert_eq!(Point { x: 0, y: 4294967295 }.to_string(), "0,4294967295");
    assert_eq!(Point { x: 120, y: 1005 }.to_string(), "120,1005");
}

#[test]
fn region_without_label() {
    assert_eq!(Region::from_str("0,0-1,1"), Ok(region(None, 0, 0, 1, 1)));
    assert_eq!(
        Region::from_str(" 10 , 20 - 30 , 40 "),
        Ok(region(None, 10, 20, 30, 40))
    );
}

#[test]
fn region_with_label() {
    assert_eq!(
        Region::from_str("red=0,0-1,1"),
        Ok(region(Some("red"), 0, 0, 1, 1))
    );
    assert_eq!(
        Region::from_str("sky blue=5,6-7,8"),
        Ok(region(Some("sky blue"), 5, 6, 7, 8))
    );
    assert_eq!(
        Region::from_str("a-b=5,6-7,8"),
        Ok(region(Some("a-b"), 5, 6, 7, 8))
    );
}

#[test]
fn region_keeps_an_empty_label() {
    assert_eq!(Region::from_str("=0,0-1,1"), Ok(region(Some(""), 0, 0, 1, 1)));
}

#[test]
fn region_label_ends_at_first_equals_sign() {
    assert_eq!(Region::from_str("a=b=0,0-1,1"), Err(ParseError::InvalidX));
}

#[test]
fn region_keeps_corners_in_textual_order() {
    assert_eq!(Region::from_str("5,5-1,1"), Ok(region(None, 5, 5, 1, 1)));
}

#[test]
fn region_without_dash_is_rejected() {
    assert_eq!(
        Region::from_str("abc"),
        Err(ParseError::MissingRangeSeparator)
    );
    assert_eq!(
        Region::from_str("name=0,0"),
        Err(ParseError::MissingRangeSeparator)
    );
    assert_eq!(Region::from_str(""), Err(ParseError::MissingRangeSeparator));
}

#[test]
fn region_passes_point_errors_on() {
    assert_eq!(Region::from_str("0-1,1"), Err(ParseError::MissingSeparator));
    assert_eq!(Region::from_str("0,0-1"), Err(ParseError::MissingSeparator));
    assert_eq!(Region::from_str("x,0-1,1"), Err(ParseError::InvalidX));
    assert_eq!(Region::from_str("0,y-1,1"), Err(ParseError::InvalidY));
    assert_eq!(Region::from_str("0,0-x,1"), Err(ParseError::InvalidX));
    assert_eq!(Region::from_str("0,0-1,y"), Err(ParseError::InvalidY));
    assert_eq!(Region::from_str("0,0--1,1"), Err(ParseError::InvalidX));
    assert_eq!(Region::from_str("x,y-z"), Err(ParseError::InvalidX));
}

#[test]
fn region_writes_label_then_range() {
    assert_eq!(region(None, 0, 0, 1, 1).to_string(), "0,0-1,1");
    assert_eq!(region(Some("red"), 3, 4, 50, 60).to_string(), "red=3,4-50,60");
    assert_eq!(region(Some(""), 3, 4, 50, 60).to_string(), "=3,4-50,60");
}

#[test]
fn region_round_trips() {
    let inputs = [
        "0,0-1,1",
        "red=0,0-1,1",
        "=7,8-9,10",
        " 1 , 2 - 3 , 4 ",
        "top left=0,0-4294967295,4294967295",
        "9,9-1,1",
        "a-b, c=007,08-0009,10",
    ];
    for input in inputs {
        let first = Region::from_str(input).unwrap();
        let written = first.to_string();
        let second = Region::from_str(&written).unwrap();
        assert_eq!(second, first);
        assert_eq!(second.to_string(), written);
    }
}

#[test]
fn space_test_agrees_with_std() {
    let mut n: u32 = 0;
    while n <= 0x10FFFF {
        if let Some(c) = char::from_u32(n) {
            assert_eq!(is_space_char(c), c.is_whitespace(), "U+{:04X}", n);
        }
        n += 1;
    }
}

#[test]
fn numerals_are_digits_only() {
    assert_eq!(parse_u32(&chars("0")), Some(0));
    assert_eq!(parse_u32(&chars("007")), Some(7));
    assert_eq!(parse_u32(&chars("4294967295")), Some(4294967295));
    assert_eq!(parse_u32(&chars("0000000004294967295")), Some(4294967295));
    assert_eq!(parse_u32(&chars("4294967296")), None);
    assert_eq!(parse_u32(&chars("18446744073709551616")), None);
    assert_eq!(parse_u32(&chars("184467440737095516160")), None);
    assert_eq!(parse_u32(&chars("")), None);
    assert_eq!(parse_u32(&chars("+5")), None);
    assert_eq!(parse_u32(&chars("-5")), None);
    assert_eq!(parse_u32(&chars("5 ")), None);
    assert_eq!(parse_u32(&chars("1_000")), None);
    assert_eq!(parse_u32(&chars("\u{0663}")), None);
}

#[test]
fn decimal_string_has_no_leading_zeros() {
    assert_eq!(decimal_string(0), "0");
    assert_eq!(decimal_string(9), "9");
    assert_eq!(decimal_string(10), "10");
    assert_eq!(decimal_string(4294967295), "4294967295");
    assert_eq!(decimal_string(u64::MAX), "18446744073709551615");
}

#[test]
fn trimming_and_searching() {
    assert_eq!(trim_chars(&chars("  a b\t\n")), chars("a b"));
    assert_eq!(trim_chars(&chars(" \t ")), chars(""));
    assert_eq!(trim_chars(&chars("")), chars(""));
    assert_eq!(trim_chars(&chars("x")), chars("x"));
    assert_eq!(find_char(&chars("a=b=c"), '='), 1);
    assert_eq!(find_char(&chars("abc"), '='), 3);
    assert_eq!(find_char(&chars(""), '='), 0);
    assert_eq!(sub_chars(&chars("hello"), 1, 3), chars("el"));
    assert_eq!(chars_of("h\u{e9}llo"), chars("h\u{e9}llo"));
}
