use bbp_claim::parse::{
    addr_to_20, left_pad_32, parse_balance_word, parse_calldata, parse_code_blob, parse_hex_u64,
    ParseError,
};

#[test]
fn address_decodes_to_its_twenty_bytes() {
    let got = addr_to_20("0x00000000000000000000000000000000deadbeef").unwrap();
    let mut want = [0u8; 20];
    want[16..20].copy_from_slice(&[0xde, 0xad, 0xbe, 0xef]);
    assert_eq!(got, want);
}

#[test]
fn malformed_addresses_are_rejected() {
    assert!(matches!(addr_to_20("deadbeef"), Err(ParseError::BadAddress)));
    assert!(matches!(addr_to_20("0xdeadbeef"), Err(ParseError::BadAddress)));
    assert!(matches!(
        addr_to_20("0x00000000000000000000000000000000deadbee"),
        Err(ParseError::BadAddress)
    ));
    assert!(matches!(
        addr_to_20("0x00000000000000000000000000000000deadbeeg"),
        Err(ParseError::InvalidHexDigit)
    ));
}

#[test]
fn padding_widens_and_lowercases() {
    let got = left_pad_32("0x00000000000000000000000000000000DeadBEEF").unwrap();
    let mut want = String::new();
    for _ in 0..24 {
        want.push('0');
    }
    want.push_str("00000000000000000000000000000000deadbeef");
    assert_eq!(got, want);
    assert_eq!(got.len(), 64);
}

#[test]
fn padding_rejects_malformed_addresses() {
    assert!(matches!(left_pad_32("0xdeadbeef"), Err(ParseError::BadAddress)));
    assert!(matches!(
        left_pad_32("00000000000000000000000000000000deadbeefxx"),
        Err(ParseError::BadAddress)
    ));
}

#[test]
fn block_numbers_parse_from_hex() {
    assert_eq!(parse_hex_u64("0x10"), Ok(16));
    assert_eq!(parse_hex_u64("ff"), Ok(255));
    assert_eq!(parse_hex_u64("0xDEADbeef"), Ok(0xdeadbeef));
    assert_eq!(parse_hex_u64("0xffffffffffffffff"), Ok(u64::MAX));
    assert!(matches!(parse_hex_u64("0x"), Err(ParseError::EmptyNumber)));
    assert!(matches!(parse_hex_u64(""), Err(ParseError::EmptyNumber)));
    assert!(matches!(parse_hex_u64("0xzz"), Err(ParseError::InvalidHexDigit)));
    assert!(matches!(parse_hex_u64("0x10000000000000000"), Err(ParseError::NumberTooLarge)));
}

#[test]
fn balance_words_must_hold_thirty_two_bytes() {
    let word = parse_balance_word(
        "0x0000000000000000000000000000000000000000000000000000000000001388",
    )
    .unwrap();
    let mut want = [0u8; 32];
    want[30] = 0x13;
    want[31] = 0x88;
    assert_eq!(word, want);
    assert!(matches!(parse_balance_word("0x1388"), Err(ParseError::WrongWordLength)));
    assert!(matches!(parse_balance_word("0x138"), Err(ParseError::OddHexLength)));
}

#[test]
fn code_blobs_decode_from_hex() {
    assert_eq!(parse_code_blob("0x60016002").unwrap(), vec![0x60, 0x01, 0x60, 0x02]);
    assert!(matches!(parse_code_blob("0x600160025"), Err(ParseError::OddHexLength)));
    assert_eq!(parse_code_blob("0x").unwrap(), Vec::<u8>::new());
    // hex text decodes to different bytes, never to itself
    assert_eq!(parse_code_blob("0x48656c6c6f").unwrap(), b"Hello".to_vec());
}

#[test]
fn calldata_files_holding_hex_text_are_decoded() {
    let got = parse_calldata(b"0xdeadbeefcafe\n".to_vec()).unwrap();
    assert_eq!(got, vec![0xde, 0xad, 0xbe, 0xef, 0xca, 0xfe]);
    let got = parse_calldata(b"  0xdeadbeefcafe  ".to_vec()).unwrap();
    assert_eq!(got, vec![0xde, 0xad, 0xbe, 0xef, 0xca, 0xfe]);
}

#[test]
fn calldata_files_holding_raw_bytes_pass_through() {
    // raw binary: not printable hex text
    let raw = vec![0xde, 0xad, 0xbe, 0xef];
    assert_eq!(parse_calldata(raw.clone()).unwrap(), raw);
    // 0x-prefixed but too short to be treated as hex text
    let short = b"0xdead".to_vec();
    assert_eq!(parse_calldata(short.clone()).unwrap(), short);
}

#[test]
fn calldata_hex_text_with_bad_digits_is_rejected() {
    assert!(matches!(
        parse_calldata(b"0xgggggggggg".to_vec()),
        Err(ParseError::InvalidHexDigit)
    ));
    assert!(matches!(
        parse_calldata(b"0xdeadbeefcaf".to_vec()),
        Err(ParseError::OddHexLength)
    ));
}
