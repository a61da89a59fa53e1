use uciengine::number::{parse_i32, parse_u64, parse_usize, render_u64, render_usize};

#[test]
fn parse_u64_reads_decimal_numbers() {
    assert_eq!(parse_u64("0".as_bytes()), Some(0));
    assert_eq!(parse_u64("+5".as_bytes()), Some(5));
    assert_eq!(parse_u64("007".as_bytes()), Some(7));
    assert_eq!(parse_u64("3000000000".as_bytes()), Some(3000000000));
    assert_eq!(parse_u64("18446744073709551615".as_bytes()), Some(u64::MAX));
}

#[test]
fn parse_u64_refuses_what_is_no_number() {
    for text in ["", "+", "-", "-1", "-0", "12a", "a12", " 1", "1 ", "++1", "1.5", "0x10",
        "18446744073709551616", "99999999999999999999999", "\u{664}"]
    {
        assert_eq!(parse_u64(text.as_bytes()), None);
    }
}

#[test]
fn parse_i32_reads_signed_numbers() {
    assert_eq!(parse_i32("12".as_bytes()), Some(12));
    assert_eq!(parse_i32("-12".as_bytes()), Some(-12));
    assert_eq!(parse_i32("+7".as_bytes()), Some(7));
    assert_eq!(parse_i32("-0".as_bytes()), Some(0));
    assert_eq!(parse_i32("2147483647".as_bytes()), Some(i32::MAX));
    assert_eq!(parse_i32("-2147483648".as_bytes()), Some(i32::MIN));
    assert_eq!(parse_i32("2147483648".as_bytes()), None);
    assert_eq!(parse_i32("-2147483649".as_bytes()), None);
    assert_eq!(parse_i32("-".as_bytes()), None);
    assert_eq!(parse_i32("+-1".as_bytes()), None);
    assert_eq!(parse_i32("-+1".as_bytes()), None);
    assert_eq!(parse_i32("".as_bytes()), None);
}

#[test]
fn parse_usize_reads_numbers_of_the_word_size() {
    assert_eq!(parse_usize("3000".as_bytes()), Some(3000));
    assert_eq!(parse_usize(usize::MAX.to_string().as_bytes()), Some(usize::MAX));
    assert_eq!(parse_usize("340282366920938463463374607431768211456".as_bytes()), None);
    assert_eq!(parse_usize("x".as_bytes()), None);
}

#[test]
fn parsing_agrees_with_std() {
    for text in ["", "0", "1", "+1", "-1", "+", "-", "00", "+00", "-00", "9", "10", "255",
        "4294967295", "4294967296", "2147483647", "2147483648", "-2147483648", "-2147483649",
        "18446744073709551615", "18446744073709551616", "1a", "a", "1 ", " 1", "1_000", "+-1"]
    {
        assert_eq!(parse_u64(text.as_bytes()), text.parse::<u64>().ok());
        assert_eq!(parse_usize(text.as_bytes()), text.parse::<usize>().ok());
        assert_eq!(parse_i32(text.as_bytes()), text.parse::<i32>().ok());
    }
}

#[test]
fn render_writes_decimal_numbers() {
    assert_eq!(render_u64(0), "0");
    assert_eq!(render_u64(7), "7");
    assert_eq!(render_u64(10), "10");
    assert_eq!(render_u64(60000), "60000");
    assert_eq!(render_u64(u64::MAX), "18446744073709551615");
    assert_eq!(render_usize(1234567890), "1234567890");
    for n in [0u64, 9, 10, 99, 100, 12345, 3000000000, u64::MAX] {
        assert_eq!(render_u64(n), n.to_string());
        assert_eq!(parse_u64(render_u64(n).as_bytes()), Some(n));
    }
}
