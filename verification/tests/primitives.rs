use substation::color::{
    from_hex, full_color, hex_primary, inline_color, partial_color, Color, HexError,
};
use substation::number::{
    decimal, decimal_or_float, is_positive, signed, truncate, unsigned, Number,
};
use substation::scan::{is_hex_digit, literal, run, to_chars, to_text, ws, CharClass};
use substation::time::{duration, timestamp, Clock, Millis};

fn cs(text: &str) -> Vec<char> {
    to_chars(text)
}

#[test]
fn chars_and_text_round_trip() {
    assert_eq!(cs("a\u{e9}z"), vec!['a', '\u{e9}', 'z']);
    assert_eq!(to_text(&cs("a\u{e9}z")), "a\u{e9}z");
    assert_eq!(to_text(&[]), "");
}

#[test]
fn hex_digits_in_either_case() {
    for c in ['0', '9', 'a', 'f', 'A', 'F'] {
        assert!(is_hex_digit(c));
    }
    for c in ['g', 'G', ' ', '/', ':', '@', '`', '\u{ff11}'] {
        assert!(!is_hex_digit(c));
    }
}

#[test]
fn from_hex_reads_a_byte() {
    assert_eq!(from_hex("ff"), Ok(255));
    assert_eq!(from_hex("C0"), Ok(0xC0));
    assert_eq!(from_hex("+7"), Ok(7));
    assert_eq!(from_hex("000ff"), Ok(255));
}

#[test]
fn from_hex_names_each_failure() {
    assert_eq!(from_hex(""), Err(HexError::Empty));
    assert_eq!(from_hex("+"), Err(HexError::InvalidDigit));
    assert_eq!(from_hex("-1"), Err(HexError::InvalidDigit));
    assert_eq!(from_hex("1g"), Err(HexError::InvalidDigit));
    assert_eq!(from_hex("100"), Err(HexError::Overflow));
    assert_eq!(from_hex("100g"), Err(HexError::Overflow));
    assert_eq!(from_hex("g100"), Err(HexError::InvalidDigit));
}

#[test]
fn hex_primary_takes_exactly_two_digits() {
    assert_eq!(hex_primary(&cs("ff80")), Some((255, 2)));
    assert_eq!(hex_primary(&cs("0a")), Some((10, 2)));
    assert_eq!(hex_primary(&cs("f")), None);
    assert_eq!(hex_primary(&cs("fg")), None);
    assert_eq!(hex_primary(&cs("")), None);
}

#[test]
fn full_color_is_alpha_blue_green_red() {
    let expected = Color { alpha: Some(0xFF), blue: 0x80, green: 0x40, red: 0xC0 };
    assert_eq!(full_color(&cs("&HFF8040C0")), Some((expected, 10)));
    assert_eq!(full_color(&cs("&HFF8040C0,rest")), Some((expected, 10)));
    assert_eq!(full_color(&cs("&HFF8040C")), None);
    assert_eq!(full_color(&cs("FF8040C0")), None);
    assert_eq!(full_color(&cs("&hFF8040C0")), None);
}

#[test]
fn partial_color_is_red_green_blue() {
    let expected = Color { alpha: None, red: 0xC0, green: 0x80, blue: 0x40 };
    assert_eq!(partial_color(&cs("C08040")), Some((expected, 6)));
    assert_eq!(partial_color(&cs("C0804")), None);
}

#[test]
fn inline_color_reverses_and_pads() {
    assert_eq!(
        inline_color(&cs("C08040")),
        Some(Color { alpha: None, red: 0x04, green: 0x08, blue: 0x0C })
    );
    assert_eq!(
        inline_color(&cs("FF")),
        Some(Color { alpha: None, red: 0xFF, green: 0, blue: 0 })
    );
    assert_eq!(
        inline_color(&cs("12345678")),
        Some(Color { alpha: None, red: 0x87, green: 0x65, blue: 0x43 })
    );
    assert_eq!(inline_color(&cs("GG")), None);
}

#[test]
fn decimal_reads_digits() {
    assert_eq!(decimal(&cs("123abc")), Some((123, 3)));
    assert_eq!(decimal(&cs("007")), Some((7, 3)));
    assert_eq!(decimal(&cs("18446744073709551615")), Some((u64::MAX, 20)));
    assert_eq!(decimal(&cs("18446744073709551616")), None);
    assert_eq!(decimal(&cs("+1")), None);
    assert_eq!(decimal(&cs("")), None);
}

#[test]
fn unsigned_reads_a_whole_text() {
    assert_eq!(unsigned(&cs("20")), Some(20));
    assert_eq!(unsigned(&cs("+20")), Some(20));
    assert_eq!(unsigned(&cs("-0")), None);
    assert_eq!(unsigned(&cs("20 ")), None);
    assert_eq!(unsigned(&cs("")), None);
    assert_eq!(unsigned(&cs("+")), None);
    assert_eq!(unsigned(&cs("99999999999999999999999")), None);
}

#[test]
fn signed_reads_a_whole_text() {
    assert_eq!(signed(&cs("-3")), Some(-3));
    assert_eq!(signed(&cs("+3")), Some(3));
    assert_eq!(signed(&cs("3")), Some(3));
    assert_eq!(signed(&cs(&isize::MIN.to_string())), Some(isize::MIN));
    assert_eq!(signed(&cs(&isize::MAX.to_string())), Some(isize::MAX));
    assert_eq!(signed(&cs("99999999999999999999999")), None);
    assert_eq!(signed(&cs("-")), None);
    assert_eq!(signed(&cs("3x")), None);
}

fn read_number(text: &str) -> Option<(String, f64, usize)> {
    decimal_or_float(&cs(text))
        .map(|(number, n)| (number.text().to_string(), f64::from_bits(number.bits()), n))
}

#[test]
fn numbers_are_read_as_written() {
    assert_eq!(read_number("30"), Some(("30".to_string(), 30.0, 2)));
    assert_eq!(read_number("-1.5rest"), Some(("-1.5".to_string(), -1.5, 4)));
    assert_eq!(read_number("+.5"), Some(("+.5".to_string(), 0.5, 3)));
    assert_eq!(read_number("5."), Some(("5.".to_string(), 5.0, 2)));
    assert_eq!(read_number("11e-1"), Some(("11e-1".to_string(), 1.1, 5)));
    assert_eq!(read_number("123E-02"), Some(("123E-02".to_string(), 1.23, 7)));
    assert_eq!(read_number("123K-01"), Some(("123".to_string(), 123.0, 3)));
    assert_eq!(read_number("abc"), None);
    assert_eq!(read_number("."), None);
    assert_eq!(read_number("-"), None);
    assert_eq!(read_number(""), None);
}

#[test]
fn an_exponent_mark_without_digits_is_no_number() {
    assert_eq!(read_number("12em"), None);
    assert_eq!(read_number("1e"), None);
    assert_eq!(read_number("1e+"), None);
}

#[test]
fn words_for_infinity_and_nan() {
    let (text, value, n) = read_number("inf").unwrap();
    assert_eq!((text.as_str(), n), ("inf", 3));
    assert!(value.is_infinite() && value > 0.0);
    let (text, value, n) = read_number("NaN1").unwrap();
    assert_eq!((text.as_str(), n), ("NaN", 3));
    assert!(value.is_nan());
    assert_eq!(read_number("infinity").map(|r| r.2), Some(3));
    assert_eq!(read_number("+inf"), None);
}

#[test]
fn number_new_takes_whole_literals_only() {
    assert_eq!(Number::new("30").map(|n| n.text().to_string()), Some("30".to_string()));
    assert!(Number::new("30 ").is_none());
    assert!(Number::new("").is_none());
    assert!(Number::new("1e").is_none());
    let n = Number::new("2.5").unwrap();
    assert_eq!(n.clone(), n);
    assert_eq!(f64::from_bits(n.bits()), 2.5);
}

#[test]
fn the_recogniser_agrees_with_nom() {
    let samples = [
        "0", "1", "-1", "+1", "1.", ".1", "1.5", "-.5e3", "1e5", "1E+5", "1e-5x", "1e", "1ex",
        "e5", ".", "-", "+", "", "nan", "NAN", "inf", "Inf", "infinity", "-inf", "12 34", "1,2",
        "0x10", "1.2.3", "1..2", "--1", "007", "1e5e5", "\u{661}", "1\u{661}",
    ];
    for text in samples {
        let ours = decimal_or_float(&cs(text)).map(|(number, n)| (number.text().to_string(), n));
        let theirs = nom::combinator::recognize(
            nom::number::complete::double::<&str, nom::error::Error<&str>>,
        )(text)
        .ok()
        .map(|(_, taken)| (taken.to_string(), taken.chars().count()));
        assert_eq!(ours, theirs, "on {:?}", text);
    }
}

#[test]
fn decimal_agrees_with_nom() {
    let samples = ["0", "12", "12a", "a", "", "18446744073709551615", "18446744073709551616", "+1"];
    for text in samples {
        let ours = decimal(&cs(text));
        let theirs = nom::character::complete::u64::<&str, nom::error::Error<&str>>(text)
            .ok()
            .map(|(rest, value)| (value, text.len() - rest.len()));
        assert_eq!(ours, theirs, "on {:?}", text);
    }
}

#[test]
fn positive_is_positive() {
    assert!(is_positive(1.0f64.to_bits()));
    assert!(is_positive(f64::MIN_POSITIVE.to_bits()));
    assert!(is_positive(5e-324f64.to_bits()));
    assert!(is_positive(f64::INFINITY.to_bits()));
    assert!(!is_positive(0.0f64.to_bits()));
    assert!(!is_positive((-0.0f64).to_bits()));
    assert!(!is_positive((-1.0f64).to_bits()));
    assert!(!is_positive(f64::NAN.to_bits()));
    assert!(!is_positive(f64::NEG_INFINITY.to_bits()));
}

#[test]
fn truncate_cuts_like_a_cast() {
    let samples = [
        0.0, -0.0, 0.5, 0.999, 1.0, 1.5, 2.0, 10.0, 255.9, 1e10, 4503599627370496.0,
        4503599627370497.0, 9007199254740992.0, 1e18, 1.8e19, 1.8446744073709552e19, 1e20, 1e300,
        -1.0, -1e30, f64::INFINITY, f64::NEG_INFINITY, f64::NAN, f64::MIN_POSITIVE, 5e-324,
        f64::MAX,
    ];
    for value in samples {
        assert_eq!(truncate(value.to_bits()), value as u64, "on {:?}", value);
    }
}

#[test]
fn duration_counts_hundredths() {
    assert_eq!(duration(&cs("0:01:02.50")), Some((Millis(62500), 10)));
    assert_eq!(duration(&cs("0:01:02:50")), Some((Millis(62500), 10)));
    assert_eq!(duration(&cs("1:00:00.00,")), Some((Millis(3_600_000), 10)));
    assert_eq!(duration(&cs("0:01:02,50")), None);
    assert_eq!(duration(&cs("0:01:02")), None);
    assert_eq!(duration(&cs("0:01:02.")), None);
    assert_eq!(duration(&cs("")), None);
}

#[test]
fn subrip_timestamp_counts_milliseconds() {
    assert_eq!(timestamp(&cs("00:01:02,500"), Clock::Milliseconds), Some((Millis(62500), 12)));
    assert_eq!(timestamp(&cs("00:01:02.500"), Clock::Milliseconds), None);
    assert_eq!(
        timestamp(&cs("0:01:02.50"), Clock::Hundredths),
        timestamp(&cs("00:01:02,500"), Clock::Milliseconds).map(|(t, _)| (t, 10))
    );
}

#[test]
fn a_time_past_the_range_is_none() {
    assert_eq!(duration(&cs("18446744073709551615:00:00.00")), None);
    assert_eq!(
        duration(&cs("0:0:0.1844674407370955161")),
        Some((Millis(18446744073709551610), 25))
    );
    assert_eq!(duration(&cs("0:0:0.1844674407370955162")), None);
}

#[test]
fn millis_round_trip() {
    assert_eq!(Millis::from_millis(62500).as_millis(), 62500);
    assert_eq!(Millis::from_millis(7), Millis(7));
}

#[test]
fn runs_and_literals() {
    assert_eq!(run(&cs("123abc"), CharClass::Digit), 3);
    assert_eq!(run(&cs(" \t\r\nx"), CharClass::LineSpace), 4);
    assert_eq!(run(&cs(" \t\r\nx"), CharClass::Blank), 2);
    assert_eq!(run(&cs("\u{3000}\u{a0} x"), CharClass::Whitespace), 3);
    assert_eq!(run(&cs("ab,cd"), CharClass::Except(',', ',', ',')), 2);
    assert_eq!(run(&cs(""), CharClass::Digit), 0);
    assert!(CharClass::HexDigit.contains('c'));
    assert_eq!(literal(&cs("Format: a"), "Format:"), Some(7));
    assert_eq!(literal(&cs("Format"), "Format:"), None);
    assert_eq!(literal(&cs("x"), ""), Some(0));
}

#[test]
fn ws_passes_over_the_space_around() {
    let comma = |rest: &[char]| {
        if !rest.is_empty() && rest[0] == ',' {
            Some(((), 1usize))
        } else {
            None
        }
    };
    assert_eq!(ws(comma, &cs(" \n , \tx")), Some(((), 6)));
    assert_eq!(ws(comma, &cs(",x")), Some(((), 1)));
    assert_eq!(ws(comma, &cs("  x")), None);
    let liar = |_: &[char]| Some(((), 99usize));
    assert_eq!(ws(liar, &cs(" ,")), None);
}

#[test]
fn character_classes_agree_with_std() {
    for code in 0..=0x10FFFFu32 {
        if let Some(c) = char::from_u32(code) {
            assert_eq!(CharClass::Whitespace.contains(c), c.is_whitespace(), "on {:?}", c);
            assert_eq!(is_hex_digit(c), c.is_digit(16), "on {:?}", c);
            assert_eq!(CharClass::HexDigit.contains(c), c.is_digit(16), "on {:?}", c);
            assert_eq!(CharClass::Digit.contains(c), c.is_digit(10), "on {:?}", c);
        }
    }
}

#[test]
fn from_hex_agrees_with_std() {
    let samples = [
        "", "+", "-", "0", "7", "f", "F", "ff", "FF", "100", "0ff", "+ff", "-ff", "fg", "g", " f",
        "f ", "00000000ff", "1234", "+0", "++1", "\u{ff11}",
    ];
    for text in samples {
        let ours = from_hex(text).ok();
        let theirs = u8::from_str_radix(text, 16).ok();
        assert_eq!(ours, theirs, "on {:?}", text);
    }
}

#[test]
fn whole_integers_agree_with_std() {
    let samples = [
        "", "+", "-", "0", "-0", "+0", "12", "+12", "-12", " 12", "12 ", "1_000", "0x10",
        "18446744073709551615", "18446744073709551616", "9223372036854775807",
        "9223372036854775808", "-9223372036854775808", "-9223372036854775809", "00012", "--1",
    ];
    for text in samples {
        assert_eq!(unsigned(&cs(text)), text.parse::<usize>().ok(), "on {:?}", text);
        assert_eq!(signed(&cs(text)), text.parse::<isize>().ok(), "on {:?}", text);
    }
}
