//! Codec variants and their mathematical models.
//!
//! A [`Variant`] selects an alphabet and a padding policy.  This module
//! holds the specification-level description of every codec: the value to
//! character tables, the exact encoded length, the encoded character
//! sequence, and the full decoding relation (including the ignore set and
//! both error outcomes).

use vstd::prelude::*;
use vstd::arithmetic::power2::pow2;

verus! {

/// The alphabet families supported by the engine.
#[derive(Debug, Copy, Clone, Eq, PartialEq, Structural)]
pub enum Alphabet {
    /// Base64 with `+` and `/` (RFC 4648 section 4).
    Base64Standard,
    /// Base64 with `-` and `_` (RFC 4648 section 5).
    Base64UrlSafe,
    /// Base32 with `A`..`Z` and `2`..`7` (RFC 4648 section 6).
    Base32Standard,
    /// Base32 with `0`..`9` and `A`..`V` (RFC 4648 section 7).
    Base32ExtendedHex,
    /// Lowercase hexadecimal.
    LowerHex,
}

/// A codec configuration: an alphabet plus a padding policy.
#[derive(Debug, Copy, Clone, Eq, PartialEq, Structural)]
pub struct Variant {
    pub alphabet: Alphabet,
    pub padded: bool,
}

/// Number of bits one character of the alphabet carries.
pub open spec fn width(a: Alphabet) -> nat {
    match a {
        Alphabet::Base64Standard => 6,
        Alphabet::Base64UrlSafe => 6,
        Alphabet::Base32Standard => 5,
        Alphabet::Base32ExtendedHex => 5,
        Alphabet::LowerHex => 4,
    }
}

/// Number of characters in one padded block.
pub open spec fn block_chars(a: Alphabet) -> int {
    match a {
        Alphabet::Base64Standard => 4,
        Alphabet::Base64UrlSafe => 4,
        Alphabet::Base32Standard => 8,
        Alphabet::Base32ExtendedHex => 8,
        Alphabet::LowerHex => 1,
    }
}

pub open spec fn is_base64(a: Alphabet) -> bool {
    a is Base64Standard || a is Base64UrlSafe
}

pub open spec fn is_base32(a: Alphabet) -> bool {
    a is Base32Standard || a is Base32ExtendedHex
}

/// The character that encodes value `v`, for `v < pow2(width(a))`.
pub open spec fn val_char(a: Alphabet, v: nat) -> u8 {
    match a {
        Alphabet::Base64Standard => if v < 26 {
            (v + 65) as u8  // 'A'..'Z'
        } else if v < 52 {
            (v - 26 + 97) as u8  // 'a'..'z'
        } else if v < 62 {
            (v - 52 + 48) as u8  // '0'..'9'
        } else if v == 62 {
            43u8  // '+'
        } else {
            47u8  // '/'
        },
        Alphabet::Base64UrlSafe => if v < 26 {
            (v + 65) as u8
        } else if v < 52 {
            (v - 26 + 97) as u8
        } else if v < 62 {
            (v - 52 + 48) as u8
        } else if v == 62 {
            45u8  // '-'
        } else {
            95u8  // '_'
        },
        Alphabet::Base32Standard => if v < 26 {
            (v + 65) as u8  // 'A'..'Z'
        } else {
            (v - 26 + 50) as u8  // '2'..'7'
        },
        Alphabet::Base32ExtendedHex => if v < 10 {
            (v + 48) as u8  // '0'..'9'
        } else {
            (v - 10 + 65) as u8  // 'A'..'V'
        },
        Alphabet::LowerHex => if v < 10 {
            (v + 48) as u8  // '0'..'9'
        } else {
            (v - 10 + 97) as u8  // 'a'..'f'
        },
    }
}

/// Whether the decoder accepts `c` as a data character of alphabet `a`.
pub open spec fn in_alphabet(a: Alphabet, c: u8) -> bool {
    match a {
        Alphabet::Base64Standard => (65 <= c <= 90) || (97 <= c <= 122) || (48 <= c <= 57)
            || c == 43 || c == 47,
        Alphabet::Base64UrlSafe => (65 <= c <= 90) || (97 <= c <= 122) || (48 <= c <= 57)
            || c == 45 || c == 95,
        Alphabet::Base32Standard => (65 <= c <= 90) || (50 <= c <= 55),
        Alphabet::Base32ExtendedHex => (48 <= c <= 57) || (65 <= c <= 86) || (97 <= c <= 118),
        Alphabet::LowerHex => (48 <= c <= 57) || (97 <= c <= 102) || (65 <= c <= 70),
    }
}

/// The value carried by data character `c`; meaningful when `in_alphabet(a, c)`.
pub open spec fn char_val(a: Alphabet, c: u8) -> nat {
    match a {
        Alphabet::Base64Standard => if 65 <= c <= 90 {
            (c - 65) as nat
        } else if 97 <= c <= 122 {
            (c - 97 + 26) as nat
        } else if 48 <= c <= 57 {
            (c - 48 + 52) as nat
        } else if c == 43 {
            62
        } else {
            63
        },
        Alphabet::Base64UrlSafe => if 65 <= c <= 90 {
            (c - 65) as nat
        } else if 97 <= c <= 122 {
            (c - 97 + 26) as nat
        } else if 48 <= c <= 57 {
            (c - 48 + 52) as nat
        } else if c == 45 {
            62
        } else {
            63
        },
        Alphabet::Base32Standard => if 65 <= c <= 90 {
            (c - 65) as nat
        } else {
            (c - 50 + 26) as nat
        },
        Alphabet::Base32ExtendedHex => if 48 <= c <= 57 {
            (c - 48) as nat
        } else if 65 <= c <= 86 {
            (c - 65 + 10) as nat
        } else {
            (c - 97 + 10) as nat
        },
        Alphabet::LowerHex => if 48 <= c <= 57 {
            (c - 48) as nat
        } else if 97 <= c <= 102 {
            (c - 97 + 10) as nat
        } else {
            (c - 65 + 10) as nat
        },
    }
}

/// Encoding maps each value to a character of the alphabet, and decoding
/// that character gives the value back.
pub proof fn lemma_val_char_roundtrip(a: Alphabet, v: nat)
    requires
        v < pow2(width(a)),
    ensures
        in_alphabet(a, val_char(a, v)),
        char_val(a, val_char(a, v)) == v,
        val_char(a, v) != 61,
{
    vstd::arithmetic::power2::lemma2_to64();
}

/// For the strict alphabets — both Base64 alphabets and standard Base32,
/// which accept one spelling per value — decoding then encoding a data
/// character gives the character back.
pub proof fn lemma_char_val_char(a: Alphabet, c: u8)
    requires
        in_alphabet(a, c),
        is_base64(a) || a is Base32Standard,
    ensures
        val_char(a, char_val(a, c)) == c,
{
}

/// Decoded values fit in the character width, and the pad byte is not data.
pub proof fn lemma_char_val_bound(a: Alphabet, c: u8)
    requires
        in_alphabet(a, c),
    ensures
        char_val(a, c) < pow2(width(a)),
        c != 61,
{
    vstd::arithmetic::power2::lemma2_to64();
}

} // verus!
