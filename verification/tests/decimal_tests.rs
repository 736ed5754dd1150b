use range_fetch::decimal::parse_u64;
use range_fetch::decimal::push_decimal;

fn written(number: u64) -> String {
    let mut out = String::new();
    push_decimal(&mut out, number);
    out
}

#[test]
fn reads_plain_numbers() {
    assert_eq!(parse_u64(b"0"), Some(0));
    assert_eq!(parse_u64(b"7"), Some(7));
    assert_eq!(parse_u64(b"1000"), Some(1000));
    assert_eq!(parse_u64(b"18446744073709551615"), Some(u64::MAX));
}

#[test]
fn reads_leading_zeros_and_plus_sign() {
    assert_eq!(parse_u64(b"007"), Some(7));
    assert_eq!(parse_u64(b"+5"), Some(5));
    assert_eq!(parse_u64(b"+0"), Some(0));
    assert_eq!(parse_u64(b"000000000000000000000000018446744073709551615"), Some(u64::MAX));
}

#[test]
fn refuses_what_is_no_number() {
    assert_eq!(parse_u64(b""), None);
    assert_eq!(parse_u64(b"+"), None);
    assert_eq!(parse_u64(b"++1"), None);
    assert_eq!(parse_u64(b"-1"), None);
    assert_eq!(parse_u64(b"-0"), None);
    assert_eq!(parse_u64(b"12a"), None);
    assert_eq!(parse_u64(b"a12"), None);
    assert_eq!(parse_u64(b" 12"), None);
    assert_eq!(parse_u64(b"12 "), None);
    assert_eq!(parse_u64(b"1_000"), None);
    assert_eq!(parse_u64(b"1.5"), None);
    assert_eq!(parse_u64(b"0x10"), None);
    assert_eq!(parse_u64(&[0x31, 0xff]), None);
    assert_eq!(parse_u64(b"/"), None);
    assert_eq!(parse_u64(b":"), None);
}

#[test]
fn refuses_numbers_that_do_not_fit() {
    assert_eq!(parse_u64(b"18446744073709551616"), None);
    assert_eq!(parse_u64(b"18446744073709551620"), None);
    assert_eq!(parse_u64(b"99999999999999999999"), None);
    assert_eq!(parse_u64(b"184467440737095516150"), None);
    assert_eq!(parse_u64(b"100000000000000000000000000000000000000000"), None);
}

#[test]
fn reads_as_the_standard_library_does() {
    let texts: Vec<&str> = vec![
        "", "0", "1", "+", "-", "+1", "-1", "00", "0009", "42", "4 2", "42\n", "\t42",
        "18446744073709551615", "18446744073709551616", "+18446744073709551615", "1e3", "\u{663}",
    ];
    for text in texts {
        assert_eq!(parse_u64(text.as_bytes()), text.parse::<u64>().ok());
    }
}

#[test]
fn writes_numbers_in_base_ten() {
    assert_eq!(written(0), "0");
    assert_eq!(written(7), "7");
    assert_eq!(written(10), "10");
    assert_eq!(written(1000), "1000");
    assert_eq!(written(9876543210), "9876543210");
    assert_eq!(written(u64::MAX), "18446744073709551615");
}

#[test]
fn writes_behind_what_is_there() {
    let mut out = String::from("bytes=");
    push_decimal(&mut out, 251);
    assert_eq!(out, "bytes=251");
    push_decimal(&mut out, 0);
    assert_eq!(out, "bytes=2510");
}

#[test]
fn what_is_written_reads_back() {
    let numbers: Vec<u64> = vec![0, 1, 9, 10, 99, 100, 12345, u64::MAX - 1, u64::MAX];
    for number in numbers {
        assert_eq!(parse_u64(written(number).as_bytes()), Some(number));
    }
}
