use sword::text::{append_decimal, append_hex, decimal_string, parse_u32_str, ParseIdError};

#[test]
fn decimal_and_hex_rendering() {
    assert_eq!(decimal_string(0), "0");
    assert_eq!(decimal_string(1234567890), "1234567890");
    let mut s = String::from("x=");
    append_decimal(&mut s, u64::MAX);
    assert_eq!(s, "x=18446744073709551615");
    let mut h = String::new();
    append_hex(&mut h, 0xdead_beef);
    assert_eq!(h, "deadbeef");
}

#[test]
fn u32_parsing_follows_std() {
    for text in ["0", "42", "+42", "4294967295", "", "+", "-", "-1", "4294967296", "12a", "99999999999x", " 1", "007"] {
        let ours = parse_u32_str(text);
        let std_result = text.parse::<u32>();
        match (ours, std_result) {
            (Ok(a), Ok(b)) => assert_eq!(a, b, "{text}"),
            (Err(e), Err(s)) => assert_eq!(e.message(), s.to_string(), "{text}"),
            (a, b) => panic!("{text}: {a:?} vs {b:?}"),
        }
    }
    assert_eq!(parse_u32_str(""), Err(ParseIdError::Empty));
    assert_eq!(parse_u32_str("99999999999x"), Err(ParseIdError::PosOverflow));
}
