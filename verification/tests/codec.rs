use kudos::codec::{parse_count, render_count, Count, DEFAULT_COUNT};
use kudos::error::StoreError;

#[test]
fn parses_plain_digits() {
    assert_eq!(parse_count("0"), Ok(0));
    assert_eq!(parse_count("1"), Ok(1));
    assert_eq!(parse_count("42"), Ok(42));
    assert_eq!(parse_count("1234567890"), Ok(1_234_567_890));
}

#[test]
fn parses_leading_zeros() {
    assert_eq!(parse_count("007"), Ok(7));
    assert_eq!(parse_count("0000000000000000000000000000012"), Ok(12));
}

#[test]
fn parses_a_leading_plus_sign() {
    assert_eq!(parse_count("+5"), Ok(5));
    assert_eq!(parse_count("+0"), Ok(0));
}

#[test]
fn parses_the_largest_count() {
    assert_eq!(parse_count("18446744073709551615"), Ok(Count::MAX));
    assert_eq!(parse_count("+18446744073709551615"), Ok(Count::MAX));
}

#[test]
fn rejects_a_number_beyond_the_largest_count() {
    assert_eq!(parse_count("18446744073709551616"), Err(StoreError::MalformedValue));
    assert_eq!(parse_count("18446744073709551620"), Err(StoreError::MalformedValue));
    assert_eq!(parse_count("99999999999999999999"), Err(StoreError::MalformedValue));
    assert_eq!(parse_count("184467440737095516150"), Err(StoreError::MalformedValue));
}

#[test]
fn rejects_empty_text_and_a_bare_sign() {
    assert_eq!(parse_count(""), Err(StoreError::MalformedValue));
    assert_eq!(parse_count("+"), Err(StoreError::MalformedValue));
}

#[test]
fn rejects_text_that_is_no_number() {
    assert_eq!(parse_count("Kudos"), Err(StoreError::MalformedValue));
    assert_eq!(parse_count("abc"), Err(StoreError::MalformedValue));
    assert_eq!(parse_count("12a"), Err(StoreError::MalformedValue));
    assert_eq!(parse_count("a12"), Err(StoreError::MalformedValue));
    assert_eq!(parse_count("1 2"), Err(StoreError::MalformedValue));
    assert_eq!(parse_count(" 12"), Err(StoreError::MalformedValue));
    assert_eq!(parse_count("12\n"), Err(StoreError::MalformedValue));
    assert_eq!(parse_count("1.5"), Err(StoreError::MalformedValue));
    assert_eq!(parse_count("0x10"), Err(StoreError::MalformedValue));
    assert_eq!(parse_count("++1"), Err(StoreError::MalformedValue));
    assert_eq!(parse_count("1+"), Err(StoreError::MalformedValue));
}

#[test]
fn rejects_negative_numbers() {
    assert_eq!(parse_count("-1"), Err(StoreError::MalformedValue));
    assert_eq!(parse_count("-0"), Err(StoreError::MalformedValue));
}

#[test]
fn rejects_digits_outside_ascii() {
    assert_eq!(parse_count("١٢"), Err(StoreError::MalformedValue));
    assert_eq!(parse_count("１２"), Err(StoreError::MalformedValue));
    assert_eq!(parse_count("12é"), Err(StoreError::MalformedValue));
    assert_eq!(parse_count("👋 3"), Err(StoreError::MalformedValue));
}

#[test]
fn renders_decimal_text() {
    assert_eq!(render_count(0), "0");
    assert_eq!(render_count(1), "1");
    assert_eq!(render_count(9), "9");
    assert_eq!(render_count(10), "10");
    assert_eq!(render_count(99), "99");
    assert_eq!(render_count(100), "100");
    assert_eq!(render_count(1_234_567_890), "1234567890");
    assert_eq!(render_count(Count::MAX), "18446744073709551615");
}

#[test]
fn renders_as_the_standard_library_does() {
    let mut count: Count = 1;
    for _ in 0..64 {
        assert_eq!(render_count(count), count.to_string());
        assert_eq!(render_count(count - 1), (count - 1).to_string());
        count = count.wrapping_mul(2);
    }
}

#[test]
fn text_round_trips_to_the_same_count() {
    let samples: Vec<Count> = vec![
        0,
        1,
        2,
        9,
        10,
        11,
        99,
        100,
        101,
        255,
        256,
        65_535,
        4_294_967_295,
        4_294_967_296,
        9_223_372_036_854_775_807,
        Count::MAX - 1,
        Count::MAX,
    ];
    for count in samples {
        assert_eq!(parse_count(&render_count(count)), Ok(count));
    }
    for count in 0..2000u64 {
        assert_eq!(parse_count(&render_count(count)), Ok(count));
    }
}

#[test]
fn the_default_count_is_zero() {
    assert_eq!(DEFAULT_COUNT, 0);
}

#[test]
fn parses_as_the_standard_library_does() {
    let samples = [
        "",
        "+",
        "-",
        "0",
        "00",
        "+0",
        "-0",
        "7",
        "+7",
        "-7",
        "++7",
        "+-7",
        "7+",
        "42",
        "042",
        " 42",
        "42 ",
        "4 2",
        "4_2",
        "4,2",
        "4.2",
        "4e2",
        "0x2a",
        "Kudos",
        "١٢",
        "18446744073709551614",
        "18446744073709551615",
        "18446744073709551616",
        "+18446744073709551615",
        "+18446744073709551616",
        "000018446744073709551615",
        "28446744073709551615",
        "99999999999999999999999999",
    ];
    for text in samples {
        assert_eq!(parse_count(text).ok(), text.parse::<Count>().ok(), "text {:?}", text);
    }
}
