use delta::text::{
    chars_of, i64_text, is_blank, parse_i64, parse_u64, split_on, string_from_chars, text_less_eq,
    u64_text, IntParseError,
};

fn kind_of(e: &std::num::ParseIntError) -> IntParseError {
    match e.kind() {
        std::num::IntErrorKind::Empty => IntParseError::Empty,
        std::num::IntErrorKind::InvalidDigit => IntParseError::InvalidDigit,
        std::num::IntErrorKind::PosOverflow => IntParseError::PosOverflow,
        std::num::IntErrorKind::NegOverflow => IntParseError::NegOverflow,
        _ => panic!("unexpected kind"),
    }
}

const SAMPLES: &[&str] = &[
    "", "0", "7", "+7", "-7", "+", "-", "00012", "12a", "a12", "18446744073709551615",
    "18446744073709551616", "99999999999999999999x", "9223372036854775807", "9223372036854775808",
    "-9223372036854775808", "-9223372036854775809", "1_000", " 5", "5 ", "+-3", "٣",
];

#[test]
fn parse_u64_agrees_with_std() {
    for s in SAMPLES {
        let expected = s.parse::<u64>().map_err(|e| kind_of(&e));
        assert_eq!(parse_u64(s), expected, "input {:?}", s);
    }
}

#[test]
fn parse_i64_agrees_with_std() {
    for s in SAMPLES {
        let expected = s.parse::<i64>().map_err(|e| kind_of(&e));
        assert_eq!(parse_i64(s), expected, "input {:?}", s);
    }
}

#[test]
fn decimal_texts_match_to_string() {
    for n in [0u64, 9, 10, 1234, u64::MAX] {
        assert_eq!(u64_text(n), n.to_string());
        assert_eq!(parse_u64(&u64_text(n)), Ok(n));
    }
    for n in [0i64, -1, 42, -42, i64::MIN, i64::MAX] {
        assert_eq!(i64_text(n), n.to_string());
        assert_eq!(parse_i64(&i64_text(n)), Ok(n));
    }
}

#[test]
fn split_on_agrees_with_std() {
    for s in ["", "_", "a", "a_b", "C_202401011200_5", "__x_", "é_ü"] {
        let expected: Vec<String> = s.split('_').map(|p| p.to_string()).collect();
        assert_eq!(split_on(s, '_'), expected, "input {:?}", s);
    }
}

#[test]
fn blank_agrees_with_trim() {
    for s in ["", " ", "\t\n", "\u{3000}\u{a0}", " a ", "x", "\u{200b}"] {
        assert_eq!(is_blank(s), s.trim().is_empty(), "input {:?}", s);
    }
}

#[test]
fn text_order_agrees_with_string_order() {
    let samples = ["", "a", "ab", "b", "2024-01-01", "2024-01-02", "é", "z", "Z"];
    for a in samples {
        for b in samples {
            assert_eq!(text_less_eq(a, b), a <= b, "{:?} <= {:?}", a, b);
        }
    }
}

#[test]
fn chars_round_trip() {
    let s = "héllo_wörld";
    let cs = chars_of(s);
    assert_eq!(cs, s.chars().collect::<Vec<_>>());
    assert_eq!(string_from_chars(&cs), s);
}
