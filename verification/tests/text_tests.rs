use rasterizer::text::{parse_fixed, parse_index, split_at, NumberError, UNIT};

const LIMIT: i64 = 0x2000_0000;

#[test]
fn split_keeps_empty_pieces() {
    assert_eq!(split_at(b"a  b", b' '), vec![b"a".to_vec(), b"".to_vec(), b"b".to_vec()]);
    assert_eq!(split_at(b"", b' '), vec![b"".to_vec()]);
    assert_eq!(split_at(b"/", b'/'), vec![b"".to_vec(), b"".to_vec()]);
    assert_eq!(split_at(b"1/2/3", b'/'), vec![b"1".to_vec(), b"2".to_vec(), b"3".to_vec()]);
    assert_eq!(split_at(b"x\ny\n", b'\n'), vec![b"x".to_vec(), b"y".to_vec(), b"".to_vec()]);
}

#[test]
fn index_is_positive_decimal() {
    assert_eq!(parse_index(b"12"), Some(12));
    assert_eq!(parse_index(b"+7"), Some(7));
    assert_eq!(parse_index(b"007"), Some(7));
    assert_eq!(parse_index(b"4294967295"), Some(u32::MAX));
    assert_eq!(parse_index(b"4294967296"), None);
    assert_eq!(parse_index(b"99999999999999999999999999"), None);
    assert_eq!(parse_index(b"0"), None);
    assert_eq!(parse_index(b""), None);
    assert_eq!(parse_index(b"+"), None);
    assert_eq!(parse_index(b"-1"), None);
    assert_eq!(parse_index(b"1a"), None);
    assert_eq!(parse_index(b" 1"), None);
}

#[test]
fn fixed_reads_millionths() {
    assert_eq!(UNIT, 1_000_000);
    assert_eq!(parse_fixed(b"0.482", LIMIT), Ok(482_000));
    assert_eq!(parse_fixed(b"-1.5", LIMIT), Ok(-1_500_000));
    assert_eq!(parse_fixed(b"1", LIMIT), Ok(1_000_000));
    assert_eq!(parse_fixed(b"+.5", LIMIT), Ok(500_000));
    assert_eq!(parse_fixed(b"5.", LIMIT), Ok(5_000_000));
    assert_eq!(parse_fixed(b"0.000001", LIMIT), Ok(1));
    assert_eq!(parse_fixed(b"0.1234567", LIMIT), Ok(123_456));
    assert_eq!(parse_fixed(b"-0.0000009", LIMIT), Ok(0));
    assert_eq!(parse_fixed(b"000.25", LIMIT), Ok(250_000));
}

#[test]
fn fixed_reads_exponents() {
    assert_eq!(parse_fixed(b"1e-3", LIMIT), Ok(1_000));
    assert_eq!(parse_fixed(b"1.5e2", LIMIT), Ok(150_000_000));
    assert_eq!(parse_fixed(b"2.5E-1", LIMIT), Ok(250_000));
    assert_eq!(parse_fixed(b"1e0", LIMIT), Ok(1_000_000));
    assert_eq!(parse_fixed(b"-1.5e+1", LIMIT), Ok(-15_000_000));
    assert_eq!(parse_fixed(b".5e1", LIMIT), Ok(5_000_000));
    assert_eq!(parse_fixed(b"1.e1", LIMIT), Ok(10_000_000));
    assert_eq!(parse_fixed(b"0.000001e6", LIMIT), Ok(1_000_000));
    assert_eq!(parse_fixed(b"123456789e-9", LIMIT), Ok(123_456));
    assert_eq!(parse_fixed(b"-6.47e-05", LIMIT), Ok(-64));
    assert_eq!(parse_fixed(b"1e-6", LIMIT), Ok(1));
    assert_eq!(parse_fixed(b"9e-7", LIMIT), Ok(0));
    assert_eq!(parse_fixed(b"1e5", i64::MAX), Ok(100_000_000_000));
    assert_eq!(parse_fixed(b"1e5", LIMIT), Err(NumberError::TooLarge));
}

#[test]
fn fixed_reads_exponents_of_any_size() {
    assert_eq!(parse_fixed(b"0e99999999999999999999999999999999999999999999", LIMIT), Ok(0));
    assert_eq!(parse_fixed(b"0.000e340282366920938463463374607431768211456", LIMIT), Ok(0));
    assert_eq!(parse_fixed(b"1e-99999999999999999999999999999999999999999999", LIMIT), Ok(0));
    assert_eq!(
        parse_fixed(b"1e99999999999999999999999999999999999999999999", i64::MAX),
        Err(NumberError::TooLarge)
    );
    assert_eq!(parse_fixed(b"0.00000000000000000000000001e26", LIMIT), Ok(1_000_000));
    assert_eq!(parse_fixed(b"10000000000000000000000000e-25", LIMIT), Ok(1_000_000));
    assert_eq!(parse_fixed(b"00000000000000000000000000000001", LIMIT), Ok(1_000_000));
}

#[test]
fn fixed_rejects_other_text() {
    let bad: [&[u8]; 22] = [
        b"", b".", b"-", b"+", b"--1", b"1.2.3", b"abc", b"1 ", b"0x10", b"1,5", b"1e", b"e5",
        b"1e+", b"1e-", b"1e5.0", b"1e5x", b".e5", b"1ee5", b"1e 5", b"inf", b"NaN", b"1f",
    ];
    for text in bad {
        assert_eq!(parse_fixed(text, LIMIT), Err(NumberError::Malformed), "{:?}", text);
    }
}

#[test]
fn fixed_checks_the_limit() {
    assert_eq!(parse_fixed(b"536.870912", LIMIT), Ok(536_870_912));
    assert_eq!(parse_fixed(b"-536.870912", LIMIT), Ok(-536_870_912));
    assert_eq!(parse_fixed(b"536.870913", LIMIT), Err(NumberError::TooLarge));
    assert_eq!(parse_fixed(b"537", LIMIT), Err(NumberError::TooLarge));
    assert_eq!(parse_fixed(b"-99999999999999999999999999999", LIMIT), Err(NumberError::TooLarge));
    assert_eq!(parse_fixed(b"0.5", 499_999), Err(NumberError::TooLarge));
    assert_eq!(parse_fixed(b"0.5", 500_000), Ok(500_000));
    assert_eq!(parse_fixed(b"0", 0), Ok(0));
    assert_eq!(parse_fixed(b"9223372036854.775807", i64::MAX), Ok(i64::MAX));
    assert_eq!(parse_fixed(b"-9223372036854.775807", i64::MAX), Ok(-i64::MAX));
    assert_eq!(parse_fixed(b"9223372036854.775808", i64::MAX), Err(NumberError::TooLarge));
    assert_eq!(parse_fixed(b"9223372036854775807e-6", i64::MAX), Ok(i64::MAX));
    // a malformed text is malformed whatever its size
    assert_eq!(parse_fixed(b"99999999999999999999x", LIMIT), Err(NumberError::Malformed));
}
