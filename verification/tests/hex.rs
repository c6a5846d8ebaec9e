use ct_codecs::{Decoder, Encoder, Error, Hex};

#[test]
fn test_hex() {
    let bin = [1u8, 5, 11, 15, 19, 131];
    let hex = Hex::encode_to_string(&bin).unwrap();
    let expected = "01050b0f1383";
    assert_eq!(hex, expected);
    let bin2 = Hex::decode_to_vec(hex.as_bytes(), None).unwrap();
    assert_eq!(bin, &bin2[..]);
}

#[test]
fn test_hex_no_std() {
    let bin = [1u8, 5, 11, 15, 19, 131];
    let expected = "01050b0f1383";
    let mut hex = [0u8; 12];
    let hex = Hex::encode_to_str(&mut hex, &bin).unwrap();
    assert_eq!(&hex, &expected);
    let mut bin2 = [0u8; 6];
    let bin2 = Hex::decode(&mut bin2, hex.as_bytes(), None).unwrap();
    assert_eq!(bin, bin2);
}

#[test]
fn test_hex_uppercase_accepted() {
    let bin = Hex::decode_to_vec(b"01050B0F1383", None).unwrap();
    assert_eq!(bin, vec![1u8, 5, 11, 15, 19, 131]);
    let mixed = Hex::decode_to_vec(b"DeadBeef", None).unwrap();
    assert_eq!(mixed, vec![0xDEu8, 0xAD, 0xBE, 0xEF]);
}

#[test]
fn test_hex_odd_length_rejected() {
    assert_eq!(Hex::decode_to_vec(b"abc", None).unwrap_err(), Error::InvalidInput);
    assert_eq!(Hex::decode_to_vec(b"0", None).unwrap_err(), Error::InvalidInput);
}

#[test]
fn test_hex_invalid_characters() {
    assert_eq!(Hex::decode_to_vec(b"0g", None).unwrap_err(), Error::InvalidInput);
    assert_eq!(Hex::decode_to_vec(b"zz", None).unwrap_err(), Error::InvalidInput);
    assert_eq!(Hex::decode_to_vec(b"01 23", None).unwrap_err(), Error::InvalidInput);
}

#[test]
fn test_hex_ignore_set() {
    let spaced = b"01 05 0b 0f 13 83";
    let bin = Hex::decode_to_vec(spaced, Some(b" ")).unwrap();
    assert_eq!(bin, vec![1u8, 5, 11, 15, 19, 131]);
}

#[test]
fn test_hex_buffer_too_small() {
    let bin = [1u8, 5, 11];
    let mut small = [0u8; 5];
    assert_eq!(Hex::encode(&mut small, &bin).unwrap_err(), Error::Overflow);
    assert_eq!(small, [0u8; 5]);
    let mut tiny = [0u8; 2];
    assert_eq!(Hex::decode(&mut tiny, b"01050b", None).unwrap_err(), Error::Overflow);
}

#[test]
fn test_hex_encoded_len_exact() {
    for n in 0usize..10 {
        assert_eq!(Hex::encoded_len(n).unwrap(), 2 * n);
        let data = vec![0x31u8; n];
        assert_eq!(Hex::encode_to_string(&data).unwrap().len(), 2 * n);
    }
}

#[test]
fn test_hex_round_trip_all_lengths() {
    let sample: Vec<u8> = (0u8..=50).map(|x| x.wrapping_mul(5).wrapping_add(1)).collect();
    for n in 0..sample.len() {
        let data = &sample[..n];
        let hex = Hex::encode_to_string(data).unwrap();
        assert_eq!(Hex::decode_to_vec(hex.as_bytes(), None).unwrap(), data);
    }
}
