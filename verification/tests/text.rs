use boardswarm_qdl::text::{
    decimal_text, eq_ignore_ascii_case, is_whitespace, same_text, starts_with, trim,
    trim_end_dots, Decimal, NumberError,
};

#[test]
fn whitespace_is_what_unicode_says() {
    for n in 0u32..0x11_0000 {
        if let Some(c) = char::from_u32(n) {
            assert_eq!(is_whitespace(c), c.is_whitespace(), "{n:#x}");
        }
    }
}

const SAMPLES: [&str; 16] = [
    "",
    " ",
    "a",
    " a",
    "a ",
    "\u{3000} a b \u{2003}",
    ".",
    "..a..",
    "a. .",
    " . ",
    "\u{e9}\u{a0}",
    "A",
    "\u{c9}",
    "ab",
    "aB",
    "a\u{200b}",
];

#[test]
fn trimming_agrees_with_str() {
    for s in SAMPLES {
        assert_eq!(trim(s), s.trim());
        assert_eq!(trim_end_dots(s), s.trim_end_matches('.'));
    }
}

#[test]
fn comparing_agrees_with_str() {
    for a in SAMPLES {
        for b in SAMPLES {
            assert_eq!(same_text(a, b), a == b);
            assert_eq!(starts_with(a, b), a.starts_with(b));
            assert_eq!(eq_ignore_ascii_case(a, b), a.eq_ignore_ascii_case(b));
        }
    }
    assert!(eq_ignore_ascii_case("PROGRAM", "program"));
    assert!(!eq_ignore_ascii_case("@", "`"));
    assert!(!eq_ignore_ascii_case("[", "{"));
}

fn std_kind(e: std::num::ParseIntError) -> NumberError {
    match e.kind() {
        std::num::IntErrorKind::Empty => NumberError::Empty,
        std::num::IntErrorKind::InvalidDigit => NumberError::InvalidDigit,
        std::num::IntErrorKind::PosOverflow => NumberError::TooLarge,
        other => panic!("{other:?}"),
    }
}

#[test]
fn numbers_are_read_as_std_reads_them() {
    let samples = [
        "",
        "+",
        "-",
        "0",
        "-0",
        "+0",
        "++1",
        "007",
        "255",
        "256",
        "300x",
        "25x",
        "x300",
        "1 ",
        "0x10",
        "\u{664}",
        "18446744073709551615",
        "18446744073709551616",
        "00000000000000000000000000000000000001",
        "99999999999999999999999",
        "99999999999999999999999x",
    ];
    for s in samples {
        assert_eq!(u64::from_decimal(s), s.parse::<u64>().map_err(std_kind), "{s:?}");
        assert_eq!(u8::from_decimal(s), s.parse::<u8>().map_err(std_kind), "{s:?}");
    }
}

#[test]
fn numbers_are_spelled_as_std_spells_them() {
    for n in [0, 7, 9, 10, 42, 100, 255, 1234567890, u64::MAX] {
        assert_eq!(decimal_text(n), n.to_string());
        assert_eq!(u64::from_decimal(&decimal_text(n)), Ok(n));
    }
}
