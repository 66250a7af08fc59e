use collection_db::decimal::{format_u32, parse_u32, parse_u32_chars};

#[test]
fn reads_plain_numbers() {
    assert_eq!(parse_u32("0"), Some(0));
    assert_eq!(parse_u32("7"), Some(7));
    assert_eq!(parse_u32("129891"), Some(129891));
    assert_eq!(parse_u32("4294967295"), Some(u32::MAX));
}

#[test]
fn takes_leading_zeros_and_one_plus() {
    assert_eq!(parse_u32("007"), Some(7));
    assert_eq!(parse_u32("00000000000000000000000042"), Some(42));
    assert_eq!(parse_u32("+42"), Some(42));
    assert_eq!(parse_u32("+0"), Some(0));
}

#[test]
fn refuses_what_is_no_number() {
    for s in ["", "+", "-", "-1", "++1", "+-1", "1+", " 1", "1 ", "1_000", "0x10", "12a", "a12",
        "1.0", "١٢٣", "４２", "1\n"]
    {
        assert_eq!(parse_u32(s), None, "{:?}", s);
    }
}

#[test]
fn refuses_what_does_not_fit() {
    assert_eq!(parse_u32("4294967296"), None);
    assert_eq!(parse_u32("4294967300"), None);
    assert_eq!(parse_u32("42949672950"), None);
    assert_eq!(parse_u32("99999999999999999999999999"), None);
    assert_eq!(parse_u32("+4294967296"), None);
}

#[test]
fn agrees_with_the_standard_parser() {
    let samples = ["", "+", "0", "+0", "-0", "1", "42", "+42", "-42", "0042", "4294967295",
        "4294967296", "04294967295", "18446744073709551616", "12 ", " 12", "1e3", "٣", "+ 1",
        "++1", "b", "123abc", "/", ":", "0/", "9:"];
    for s in samples {
        assert_eq!(parse_u32(s), s.parse::<u32>().ok(), "{:?}", s);
    }
    let mut n: u64 = 0;
    while n <= u32::MAX as u64 + 5000 {
        let s = n.to_string();
        assert_eq!(parse_u32(&s), s.parse::<u32>().ok());
        n += 9973 * 431;
    }
}

#[test]
fn reads_characters_as_it_reads_strings() {
    let chars: Vec<char> = "+123".chars().collect();
    assert_eq!(parse_u32_chars(&chars), Some(123));
    assert_eq!(parse_u32_chars(&[]), None);
    assert_eq!(parse_u32_chars(&['+']), None);
    assert_eq!(parse_u32_chars(&['9', 'x']), None);
}

#[test]
fn writes_without_leading_zeros() {
    assert_eq!(format_u32(0), "0");
    assert_eq!(format_u32(9), "9");
    assert_eq!(format_u32(10), "10");
    assert_eq!(format_u32(1234567890), "1234567890");
    assert_eq!(format_u32(u32::MAX), "4294967295");
}

#[test]
fn written_numbers_are_read_back() {
    let mut n: u32 = 0;
    loop {
        assert_eq!(format_u32(n), n.to_string());
        assert_eq!(parse_u32(&format_u32(n)), Some(n));
        match n.checked_add(7_654_321) {
            Some(next) => n = next,
            None => break,
        }
    }
    assert_eq!(parse_u32(&format_u32(u32::MAX)), Some(u32::MAX));
}
