use ct_codecs::{Base32, Base32Hex, Base32HexNoPadding, Base32NoPadding, Decoder, Encoder};

#[test]
fn test_base32() {
    // Simple test string
    let bin = b"Hello";
    let expected = "JBSWY3DP";
    let b32 = Base32::encode_to_string(bin).unwrap();
    assert_eq!(b32, expected);

    // A padded spelling accepted when decoding
    let padded = "JBSWY3DP======";
    let bin2 = Base32::decode_to_vec(padded.as_bytes(), None).unwrap();
    assert_eq!(bin, &bin2[..]);
}

#[test]
fn test_base32_no_padding() {
    let bin = b"Hello";
    let expected = "JBSWY3DP";
    let b32 = Base32NoPadding::encode_to_string(bin).unwrap();
    assert_eq!(b32, expected);
    let bin2 = Base32NoPadding::decode_to_vec(b32.as_bytes(), None).unwrap();
    assert_eq!(bin, &bin2[..]);
}

#[test]
fn test_base32_hex() {
    let bin = b"Hello";
    let expected = "91IMOR3F";
    let b32 = Base32Hex::encode_to_string(bin).unwrap();
    assert_eq!(b32, expected);

    let padded = "91IMOR3F======";
    let bin2 = Base32Hex::decode_to_vec(padded.as_bytes(), None).unwrap();
    assert_eq!(bin, &bin2[..]);
}

#[test]
fn test_base32_hex_no_padding() {
    let bin = b"Hello";
    let expected = "91IMOR3F";
    let b32 = Base32HexNoPadding::encode_to_string(bin).unwrap();
    assert_eq!(b32, expected);
    let bin2 = Base32HexNoPadding::decode_to_vec(b32.as_bytes(), None).unwrap();
    assert_eq!(bin, &bin2[..]);
}

#[test]
fn test_base32_no_std() {
    let bin = b"Hello";
    let expected = b"JBSWY3DP";
    let mut b32 = [0u8; 16];
    let b32 = Base32::encode(&mut b32, bin).unwrap();
    assert_eq!(b32, expected);

    let padded = b"JBSWY3DP======";
    let mut bin2 = [0u8; 5];
    let bin2 = Base32::decode(&mut bin2, padded, None).unwrap();
    assert_eq!(bin, bin2);
}

#[test]
fn test_base32_invalid_padding() {
    // A six-character pad run after a whole block is accepted
    let valid_padding = "JBSWY3DP======";
    assert!(Base32::decode_to_vec(valid_padding.as_bytes(), None).is_ok());

    // A wrong pad count is not
    let invalid_padding = "JBSWY3DP===";
    assert!(Base32::decode_to_vec(invalid_padding.as_bytes(), None).is_err());
}

#[test]
fn test_base32_partial_group_padding() {
    // one byte leaves two data characters and six pads
    let one = Base32::encode_to_string(&[0xFFu8]).unwrap();
    assert_eq!(one, "74======");
    assert_eq!(Base32::decode_to_vec(one.as_bytes(), None).unwrap(), vec![0xFFu8]);
    // wrong pad counts for a partial group fail
    assert!(Base32::decode_to_vec(b"74=====", None).is_err());
    assert!(Base32::decode_to_vec(b"74=======", None).is_err());
    assert!(Base32::decode_to_vec(b"74", None).is_err());
    // the unpadded variant takes the bare form and rejects the padded one
    assert_eq!(Base32NoPadding::encode_to_string(&[0xFFu8]).unwrap(), "74");
    assert_eq!(Base32NoPadding::decode_to_vec(b"74", None).unwrap(), vec![0xFFu8]);
    assert!(Base32NoPadding::decode_to_vec(b"74======", None).is_err());
}

#[test]
fn test_base32_hex_lowercase_accepted() {
    // extended-hex decoding accepts both letter cases
    let upper = Base32Hex::decode_to_vec(b"91IMOR3F", None).unwrap();
    let lower = Base32Hex::decode_to_vec(b"91imor3f", None).unwrap();
    assert_eq!(upper, b"Hello");
    assert_eq!(lower, b"Hello");
    // the standard alphabet does not
    assert!(Base32::decode_to_vec(b"jbswy3dp", None).is_err());
}

#[test]
fn test_base32_nonzero_trailing_bits_rejected() {
    // "74" decodes to [0xFF]; "75" carries a non-zero trailing bit
    assert!(Base32NoPadding::decode_to_vec(b"75", None).is_err());
    assert!(Base32::decode_to_vec(b"75======", None).is_err());
}

#[test]
fn test_base32_encoded_len_exact() {
    for (n, padded, unpadded) in [
        (0usize, 0usize, 0usize),
        (1, 8, 2),
        (2, 8, 4),
        (3, 8, 5),
        (4, 8, 7),
        (5, 8, 8),
        (6, 16, 10),
    ] {
        assert_eq!(Base32::encoded_len(n).unwrap(), padded);
        assert_eq!(Base32NoPadding::encoded_len(n).unwrap(), unpadded);
        let data = vec![0x5eu8; n];
        assert_eq!(Base32::encode_to_string(&data).unwrap().len(), padded);
        assert_eq!(Base32NoPadding::encode_to_string(&data).unwrap().len(), unpadded);
    }
}

#[test]
fn test_base32_ignore_set() {
    let with_breaks = b"JBSW\nY3DP";
    assert_eq!(
        Base32NoPadding::decode_to_vec(with_breaks, Some(b"\n")).unwrap(),
        b"Hello"
    );
    assert!(Base32NoPadding::decode_to_vec(with_breaks, None).is_err());
}

#[test]
fn test_base32_round_trip_all_lengths() {
    let sample: Vec<u8> = (0u8..=30).map(|x| x.wrapping_mul(11).wrapping_add(3)).collect();
    for n in 0..sample.len() {
        let data = &sample[..n];
        assert_eq!(
            Base32::decode_to_vec(Base32::encode_to_string(data).unwrap().as_bytes(), None)
                .unwrap(),
            data
        );
        assert_eq!(
            Base32NoPadding::decode_to_vec(
                Base32NoPadding::encode_to_string(data).unwrap().as_bytes(),
                None
            )
            .unwrap(),
            data
        );
        assert_eq!(
            Base32Hex::decode_to_vec(
                Base32Hex::encode_to_string(data).unwrap().as_bytes(),
                None
            )
            .unwrap(),
            data
        );
        assert_eq!(
            Base32HexNoPadding::decode_to_vec(
                Base32HexNoPadding::encode_to_string(data).unwrap().as_bytes(),
                None
            )
            .unwrap(),
            data
        );
    }
}
