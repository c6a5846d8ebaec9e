use ct_codecs::verify;

#[test]
fn test_verify_equal() {
    assert!(verify(b"", b""));
    assert!(verify(b"a", b"a"));
    assert!(verify(b"constant time", b"constant time"));
    assert!(verify(&[0u8; 64], &[0u8; 64]));
}

#[test]
fn test_verify_unequal() {
    assert!(!verify(b"a", b"b"));
    assert!(!verify(b"constant time", b"constant tim3"));
    let mut x = [0u8; 64];
    let y = [0u8; 64];
    x[63] = 1;
    assert!(!verify(&x, &y));
    x[63] = 0;
    x[0] = 128;
    assert!(!verify(&x, &y));
}

#[test]
fn test_verify_length_mismatch() {
    assert!(!verify(b"", b"a"));
    assert!(!verify(b"abc", b"abcd"));
}
