use bmvs_verifier::Bytes;

#[test]
fn hex_round_trip() {
    let b = Bytes::new(vec![0x00, 0x01, 0xab, 0xff]);
    assert_eq!(b.to_hex(), "0001abff");
    assert_eq!(Bytes::from_hex("0001abff").expect("valid hex"), b);
    assert_eq!(Bytes::from_hex("0001ABFF").expect("valid hex"), b);
}

#[test]
fn hex_rejects_bad_input() {
    assert!(Bytes::from_hex("abc").is_err(), "odd length must fail");
    assert!(Bytes::from_hex("zz").is_err(), "non-hex must fail");
}

#[test]
fn hex_odd_length_error_names_the_length() {
    assert_eq!(
        Bytes::from_hex("abc"),
        Err("odd-length hex string (3 chars)".to_string())
    );
}

#[test]
fn hex_bad_character_error_names_the_offset() {
    assert_eq!(
        Bytes::from_hex("zz"),
        Err("invalid hex character at offset 0 in \"zz\"".to_string())
    );
    assert_eq!(
        Bytes::from_hex("0g"),
        Err("invalid hex character at offset 1 in \"0g\"".to_string())
    );
    assert_eq!(
        Bytes::from_hex("00ff1x"),
        Err("invalid hex character at offset 5 in \"00ff1x\"".to_string())
    );
}

#[test]
fn hex_of_empty_bytes_is_empty() {
    assert_eq!(Bytes::new(Vec::new()).to_hex(), "");
    assert_eq!(Bytes::from_hex(""), Ok(Bytes::new(Vec::new())));
}

#[test]
fn hex_round_trip_over_every_byte_value() {
    let all: Vec<u8> = (0..=255u8).collect();
    let b = Bytes::new(all);
    let hex = b.to_hex();
    assert_eq!(hex.len(), 512);
    assert_eq!(&hex[..8], "00010203");
    assert_eq!(&hex[504..], "fcfdfeff");
    assert_eq!(Bytes::from_hex(&hex), Ok(b.clone()));
    assert_eq!(Bytes::from_hex(&hex.to_uppercase()), Ok(b));
}

#[test]
fn bytes_as_slice_and_duplicate_keep_the_bytes() {
    let b = Bytes::new(vec![7, 8, 9]);
    assert_eq!(b.as_slice(), &[7u8, 8, 9][..]);
    assert_eq!(b.duplicate(), b);
    assert_ne!(b, Bytes::new(vec![7, 8]));
}
