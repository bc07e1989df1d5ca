use shvcall::number::{parse_i32, parse_u64, IntError};

const TEXTS: [&str; 26] = [
    "",
    "+",
    "-",
    "0",
    "-0",
    "+0",
    "007",
    "42",
    "+42",
    "-42",
    "--1",
    "+-1",
    " 1",
    "1 ",
    "x",
    "12x",
    "18446744073709551615",
    "18446744073709551616",
    "99999999999999999999999x",
    "2147483647",
    "2147483648",
    "-2147483648",
    "-2147483649",
    "-99999999999999999999",
    "٣",
    "+18446744073709551615",
];

#[test]
fn reads_unsigned_numbers_as_std_does() {
    for s in TEXTS {
        match (parse_u64(s), s.parse::<u64>()) {
            (Ok(a), Ok(b)) => assert_eq!(a, b),
            (Err(a), Err(b)) => assert_eq!(a.message(), b.to_string(), "{s}"),
            (a, b) => panic!("{s}: {a:?} {b:?}"),
        }
    }
}

#[test]
fn reads_signed_numbers_as_std_does() {
    for s in TEXTS {
        match (parse_i32(s), s.parse::<i32>()) {
            (Ok(a), Ok(b)) => assert_eq!(a, b),
            (Err(a), Err(b)) => assert_eq!(a.message(), b.to_string(), "{s}"),
            (a, b) => panic!("{s}: {a:?} {b:?}"),
        }
    }
}

#[test]
fn tells_why_a_number_is_refused() {
    assert_eq!(parse_u64(""), Err(IntError::Empty));
    assert_eq!(parse_u64("1a"), Err(IntError::InvalidDigit));
    assert_eq!(parse_i32("2147483648"), Err(IntError::PosOverflow));
    assert_eq!(parse_i32("-2147483649"), Err(IntError::NegOverflow));
    assert_eq!(IntError::Empty.message(), "cannot parse integer from empty string");
}

#[test]
fn decimal_notation_reads_back() {
    for n in [0u64, 1, 10, 12345678901234567890, u64::MAX] {
        assert_eq!(parse_u64(&n.to_string()), Ok(n));
    }
    for n in [0i32, -1, 2222, i32::MIN, i32::MAX] {
        assert_eq!(parse_i32(&n.to_string()), Ok(n));
    }
}
