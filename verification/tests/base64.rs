use ct_codecs::{Base64, Base64NoPadding, Base64UrlSafe, Base64UrlSafeNoPadding, Decoder, Encoder};

#[test]
fn test_base64() {
    let bin = [1u8, 5, 11, 15, 19, 131, 122];
    let expected = "AQULDxODeg==";
    let b64 = Base64::encode_to_string(&bin).unwrap();
    assert_eq!(b64, expected);
    let bin2 = Base64::decode_to_vec(b64.as_bytes(), None).unwrap();
    assert_eq!(bin, &bin2[..]);
}

#[test]
fn test_base64_mising_padding() {
    let missing_padding = "AA";
    assert!(Base64::decode_to_vec(missing_padding.as_bytes(), None).is_err());
    assert!(Base64NoPadding::decode_to_vec(missing_padding.as_bytes(), None).is_ok());
    let missing_padding = "AAA";
    assert!(Base64::decode_to_vec(missing_padding.as_bytes(), None).is_err());
    assert!(Base64NoPadding::decode_to_vec(missing_padding.as_bytes(), None).is_ok());
}

#[test]
fn test_base64_no_std() {
    let bin = [1u8, 5, 11, 15, 19, 131, 122];
    let expected = [65, 81, 85, 76, 68, 120, 79, 68, 101, 103, 61, 61];
    let mut b64 = [0u8; 12];
    let b64 = Base64::encode(&mut b64, &bin).unwrap();
    assert_eq!(b64, expected);
    let mut bin2 = [0u8; 7];
    let bin2 = Base64::decode(&mut bin2, b64, None).unwrap();
    assert_eq!(bin, bin2);
}

#[test]
fn test_base64_url_safe_alphabet() {
    let bin = [255u8, 255];
    let std = Base64::encode_to_string(&bin).unwrap();
    assert_eq!(std, "//8=");
    let url = Base64UrlSafe::encode_to_string(&bin).unwrap();
    assert_eq!(url, "__8=");
    let url_np = Base64UrlSafeNoPadding::encode_to_string(&bin).unwrap();
    assert_eq!(url_np, "__8");
    let back = Base64UrlSafe::decode_to_vec(url.as_bytes(), None).unwrap();
    assert_eq!(&back[..], &bin[..]);
    let back_np = Base64UrlSafeNoPadding::decode_to_vec(url_np.as_bytes(), None).unwrap();
    assert_eq!(&back_np[..], &bin[..]);
}

#[test]
fn test_base64_nonzero_trailing_bits_rejected() {
    // "AQ==" decodes to [1]; "AR==" carries the same byte but a non-zero
    // trailing bit pattern and must be rejected.
    assert_eq!(Base64::decode_to_vec(b"AQ==", None).unwrap(), vec![1u8]);
    assert!(Base64::decode_to_vec(b"AR==", None).is_err());
    assert!(Base64NoPadding::decode_to_vec(b"AR", None).is_err());
}

#[test]
fn test_base64_invalid_characters() {
    assert!(Base64::decode_to_vec(b"AQ!L", None).is_err());
    assert!(Base64::decode_to_vec(b"AQUL@xODeg==", None).is_err());
    // URL-safe characters are not part of the standard alphabet
    assert!(Base64::decode_to_vec(b"__8=", None).is_err());
    assert!(Base64UrlSafe::decode_to_vec(b"//8=", None).is_err());
}

#[test]
fn test_base64_padding_exactness() {
    // too few, too many, or misplaced pad characters all fail
    assert!(Base64::decode_to_vec(b"AQ=", None).is_err());
    assert!(Base64::decode_to_vec(b"AQ===", None).is_err());
    assert!(Base64::decode_to_vec(b"AQULDxODeg=", None).is_err());
    assert!(Base64::decode_to_vec(b"AQULDxODeg===", None).is_err());
    assert!(Base64::decode_to_vec(b"AQ=L", None).is_err());
    assert!(Base64NoPadding::decode_to_vec(b"AQ==", None).is_err());
}

#[test]
fn test_base64_no_padding_round_trip_small() {
    let bin = [0u8, 0];
    let encoded = Base64NoPadding::encode_to_string(&bin).unwrap();
    assert_eq!(encoded, "AAA");
    let back = Base64NoPadding::decode_to_vec(encoded.as_bytes(), None).unwrap();
    assert_eq!(&back[..], &bin[..]);
    // the padded variant rejects the bare spelling and takes its own
    assert!(Base64::decode_to_vec(encoded.as_bytes(), None).is_err());
    assert_eq!(Base64::encode_to_string(&bin).unwrap(), "AAA=");
}

#[test]
fn test_base64_exact_buffer() {
    // decoding into a buffer of exactly the decoded size succeeds
    let mut buf = [0u8; 7];
    let out = Base64::decode(&mut buf, b"AQULDxODeg==", None).unwrap();
    assert_eq!(out, [1u8, 5, 11, 15, 19, 131, 122]);
}

#[test]
fn test_base64_empty() {
    assert_eq!(Base64::encode_to_string(&[]).unwrap(), "");
    assert_eq!(Base64::decode_to_vec(b"", None).unwrap(), Vec::<u8>::new());
    assert_eq!(Base64NoPadding::encode_to_string(&[]).unwrap(), "");
}

#[test]
fn test_base64_encoded_len_exact() {
    for (n, padded, unpadded) in [
        (0usize, 0usize, 0usize),
        (1, 4, 2),
        (2, 4, 3),
        (3, 4, 4),
        (4, 8, 6),
        (5, 8, 7),
        (6, 8, 8),
    ] {
        assert_eq!(Base64::encoded_len(n).unwrap(), padded);
        assert_eq!(Base64NoPadding::encoded_len(n).unwrap(), unpadded);
        let data = vec![0xa7u8; n];
        assert_eq!(Base64::encode_to_string(&data).unwrap().len(), padded);
        assert_eq!(Base64NoPadding::encode_to_string(&data).unwrap().len(), unpadded);
    }
}

#[test]
fn test_base64_buffer_too_small() {
    let bin = [1u8, 5, 11, 15, 19, 131, 122];
    let mut small = [0u8; 11];
    assert_eq!(
        Base64::encode(&mut small, &bin).unwrap_err(),
        ct_codecs::Error::Overflow
    );
    // a failed encode leaves the buffer untouched
    assert_eq!(small, [0u8; 11]);
    let mut tiny = [0u8; 6];
    assert_eq!(
        Base64::decode(&mut tiny, b"AQULDxODeg==", None).unwrap_err(),
        ct_codecs::Error::Overflow
    );
}

#[test]
fn test_base64_ignore_set() {
    let with_breaks = b"AQUL\r\nDxOD eg==";
    let decoded = Base64::decode_to_vec(with_breaks, Some(b" \r\n")).unwrap();
    assert_eq!(decoded, vec![1u8, 5, 11, 15, 19, 131, 122]);
    // the same bytes without an ignore set are invalid
    assert!(Base64::decode_to_vec(with_breaks, None).is_err());
    // ignored characters may split the pad run
    let padded_breaks = b"AQULDxODeg=\n=";
    assert_eq!(
        Base64::decode_to_vec(padded_breaks, Some(b"\n")).unwrap(),
        vec![1u8, 5, 11, 15, 19, 131, 122]
    );
}

#[test]
fn test_base64_round_trip_all_lengths() {
    let sample: Vec<u8> = (0u8..=41).map(|x| x.wrapping_mul(7).wrapping_add(13)).collect();
    for n in 0..sample.len() {
        let data = &sample[..n];
        assert_eq!(
            Base64::decode_to_vec(Base64::encode_to_string(data).unwrap().as_bytes(), None)
                .unwrap(),
            data
        );
        assert_eq!(
            Base64NoPadding::decode_to_vec(
                Base64NoPadding::encode_to_string(data).unwrap().as_bytes(),
                None
            )
            .unwrap(),
            data
        );
        assert_eq!(
            Base64UrlSafe::decode_to_vec(
                Base64UrlSafe::encode_to_string(data).unwrap().as_bytes(),
                None
            )
            .unwrap(),
            data
        );
        assert_eq!(
            Base64UrlSafeNoPadding::decode_to_vec(
                Base64UrlSafeNoPadding::encode_to_string(data).unwrap().as_bytes(),
                None
            )
            .unwrap(),
            data
        );
    }
}
