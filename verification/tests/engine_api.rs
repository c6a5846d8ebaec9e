use ct_codecs::base32::{Base32Impl, Base32Variant};
use ct_codecs::base64::{Base64Impl, Base64Variant};
use ct_codecs::{Error, Hex};

#[test]
fn test_base64_impl_entry_points() {
    let bin = [1u8, 5, 11, 15, 19, 131, 122];
    assert_eq!(Base64Impl::encoded_len(7, Base64Variant::Original).unwrap(), 12);
    assert_eq!(Base64Impl::encoded_len(7, Base64Variant::OriginalNoPadding).unwrap(), 10);
    let mut buf = [0u8; 12];
    let out = Base64Impl::encode(&mut buf, &bin, Base64Variant::Original).unwrap();
    assert_eq!(out, b"AQULDxODeg==");
    let mut dec = [0u8; 7];
    let back = Base64Impl::decode(&mut dec, b"AQULDxODeg==", None, Base64Variant::Original)
        .unwrap();
    assert_eq!(back, bin);
    let mut url = [0u8; 4];
    let out = Base64Impl::encode(&mut url, &[255u8, 255], Base64Variant::UrlSafe).unwrap();
    assert_eq!(out, b"__8=");
    let mut url_np = [0u8; 3];
    let out = Base64Impl::encode(&mut url_np, &[255u8, 255], Base64Variant::UrlSafeNoPadding)
        .unwrap();
    assert_eq!(out, b"__8");
}

#[test]
fn test_base32_impl_entry_points() {
    assert_eq!(Base32Impl::encoded_len(5, Base32Variant::Standard).unwrap(), 8);
    assert_eq!(Base32Impl::encoded_len(1, Base32Variant::Standard).unwrap(), 8);
    assert_eq!(Base32Impl::encoded_len(1, Base32Variant::StandardNoPadding).unwrap(), 2);
    let mut buf = [0u8; 8];
    let out = Base32Impl::encode(&mut buf, b"Hello", Base32Variant::Standard).unwrap();
    assert_eq!(out, b"JBSWY3DP");
    let mut hexed = [0u8; 8];
    let out = Base32Impl::encode(&mut hexed, b"Hello", Base32Variant::Hex).unwrap();
    assert_eq!(out, b"91IMOR3F");
    let mut dec = [0u8; 5];
    let back = Base32Impl::decode(&mut dec, b"91imor3f", None, Base32Variant::HexNoPadding)
        .unwrap();
    assert_eq!(back, b"Hello");
}

#[test]
fn test_error_messages() {
    assert_eq!(
        Error::Overflow.message(),
        "output buffer too small or calculation overflow"
    );
    assert_eq!(
        Error::InvalidInput.message(),
        "invalid input for the given encoding"
    );
    let mut tiny = [0u8; 1];
    let e = <Hex as ct_codecs::Encoder>::encode(&mut tiny, &[1u8, 2]).unwrap_err();
    assert_eq!(e, Error::Overflow);
}
