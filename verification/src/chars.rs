//! Branchless character maps.
//!
//! For each alphabet, a value-to-character map used by the encoder and a
//! character-to-value map used by the decoder.  Both directions are
//! masked-OR combinations of the comparator masks of [`crate::mask`]:
//! exactly one sub-range mask is all-ones for a valid input, so the OR
//! yields the mapped value without any branch.  The decoding maps track a
//! separate validity mask and return the sentinel `0xFF` for a byte
//! outside the alphabet.

use vstd::prelude::*;
use crate::mask::{
    mask_eq, mask_in_range, mask_lt, lemma_mask_flip, lemma_mask_select, lemma_or_zero,
    lemma_mask_or,
};
use crate::variant::{Alphabet, char_val, in_alphabet, val_char};

verus! {

/// Character for value `x` in the standard Base64 alphabet.
pub(crate) fn b64_val_to_char(x: u8) -> (r: u8)
    requires
        x < 64,
    ensures
        r == val_char(Alphabet::Base64Standard, x as nat),
{
    let m_up = mask_lt(x, 26);
    let m_lo = mask_in_range(x, 26, 51);
    let m_di = mask_in_range(x, 52, 61);
    let m_pl = mask_eq(x, 62);
    let m_sl = mask_eq(x, 63);
    let a_up = x.wrapping_add(65);
    let a_lo = x.wrapping_add(71);
    let a_di = x.wrapping_sub(4);
    let r = (m_up & a_up) | (m_lo & a_lo) | (m_di & a_di) | (m_pl & 43) | (m_sl & 47);
    proof {
        lemma_mask_select(m_up, a_up);
        lemma_mask_select(m_lo, a_lo);
        lemma_mask_select(m_di, a_di);
        lemma_mask_select(m_pl, 43);
        lemma_mask_select(m_sl, 47);
        lemma_or_zero(a_up);
        lemma_or_zero(a_lo);
        lemma_or_zero(a_di);
        lemma_or_zero(43);
        lemma_or_zero(47);
        lemma_or_zero(0);
    }
    r
}

/// Character for value `x` in the URL-safe Base64 alphabet.
pub(crate) fn b64_url_val_to_char(x: u8) -> (r: u8)
    requires
        x < 64,
    ensures
        r == val_char(Alphabet::Base64UrlSafe, x as nat),
{
    let m_up = mask_lt(x, 26);
    let m_lo = mask_in_range(x, 26, 51);
    let m_di = mask_in_range(x, 52, 61);
    let m_mi = mask_eq(x, 62);
    let m_un = mask_eq(x, 63);
    let a_up = x.wrapping_add(65);
    let a_lo = x.wrapping_add(71);
    let a_di = x.wrapping_sub(4);
    let r = (m_up & a_up) | (m_lo & a_lo) | (m_di & a_di) | (m_mi & 45) | (m_un & 95);
    proof {
        lemma_mask_select(m_up, a_up);
        lemma_mask_select(m_lo, a_lo);
        lemma_mask_select(m_di, a_di);
        lemma_mask_select(m_mi, 45);
        lemma_mask_select(m_un, 95);
        lemma_or_zero(a_up);
        lemma_or_zero(a_lo);
        lemma_or_zero(a_di);
        lemma_or_zero(45);
        lemma_or_zero(95);
        lemma_or_zero(0);
    }
    r
}

/// Character for value `x` in the standard Base32 alphabet.
pub(crate) fn b32_val_to_char(x: u8) -> (r: u8)
    requires
        x < 32,
    ensures
        r == val_char(Alphabet::Base32Standard, x as nat),
{
    let m_up = mask_lt(x, 26);
    let m_di = mask_in_range(x, 26, 31);
    let a_up = x.wrapping_add(65);
    let a_di = x.wrapping_add(24);
    let r = (m_up & a_up) | (m_di & a_di);
    proof {
        lemma_mask_select(m_up, a_up);
        lemma_mask_select(m_di, a_di);
        lemma_or_zero(a_up);
        lemma_or_zero(a_di);
        lemma_or_zero(0);
    }
    r
}

/// Character for value `x` in the extended-hex Base32 alphabet.
pub(crate) fn b32_hex_val_to_char(x: u8) -> (r: u8)
    requires
        x < 32,
    ensures
        r == val_char(Alphabet::Base32ExtendedHex, x as nat),
{
    let m_di = mask_lt(x, 10);
    let m_up = mask_in_range(x, 10, 31);
    let a_di = x.wrapping_add(48);
    let a_up = x.wrapping_add(55);
    let r = (m_di & a_di) | (m_up & a_up);
    proof {
        lemma_mask_select(m_di, a_di);
        lemma_mask_select(m_up, a_up);
        lemma_or_zero(a_di);
        lemma_or_zero(a_up);
        lemma_or_zero(0);
    }
    r
}

/// Character for value `x` in the lowercase hex alphabet.
pub(crate) fn hex_val_to_char(x: u8) -> (r: u8)
    requires
        x < 16,
    ensures
        r == val_char(Alphabet::LowerHex, x as nat),
{
    let m_di = mask_lt(x, 10);
    let m_lo = mask_in_range(x, 10, 15);
    let a_di = x.wrapping_add(48);
    let a_lo = x.wrapping_add(87);
    let r = (m_di & a_di) | (m_lo & a_lo);
    proof {
        lemma_mask_select(m_di, a_di);
        lemma_mask_select(m_lo, a_lo);
        lemma_or_zero(a_di);
        lemma_or_zero(a_lo);
        lemma_or_zero(0);
    }
    r
}

/// Value of character `c` in the standard Base64 alphabet, or the
/// sentinel `0xFF` when `c` is outside it.
pub(crate) fn b64_char_to_val(c: u8) -> (r: u8)
    ensures
        r == (if in_alphabet(Alphabet::Base64Standard, c) {
            char_val(Alphabet::Base64Standard, c) as u8
        } else {
            0xFFu8
        }),
{
    let m_up = mask_in_range(c, 65, 90);
    let m_lo = mask_in_range(c, 97, 122);
    let m_di = mask_in_range(c, 48, 57);
    let m_pl = mask_eq(c, 43);
    let m_sl = mask_eq(c, 47);
    let a_up = c.wrapping_sub(65);
    let a_lo = c.wrapping_sub(71);
    let a_di = c.wrapping_add(4);
    let x = (m_up & a_up) | (m_lo & a_lo) | (m_di & a_di) | (m_pl & 62) | (m_sl & 63);
    let v1 = m_up | m_lo;
    let v2 = v1 | m_di;
    let v3 = v2 | m_pl;
    let valid = v3 | m_sl;
    let flip = valid ^ 0xFF;
    proof {
        lemma_mask_select(m_up, a_up);
        lemma_mask_select(m_lo, a_lo);
        lemma_mask_select(m_di, a_di);
        lemma_mask_select(m_pl, 62);
        lemma_mask_select(m_sl, 63);
        lemma_or_zero(a_up);
        lemma_or_zero(a_lo);
        lemma_or_zero(a_di);
        lemma_or_zero(62);
        lemma_or_zero(63);
        lemma_or_zero(0);
        lemma_mask_or(m_up, m_lo);
        lemma_mask_or(v1, m_di);
        lemma_mask_or(v2, m_pl);
        lemma_mask_or(v3, m_sl);
        lemma_mask_flip(valid);
        lemma_or_zero(x);
        lemma_or_zero(0xFF);
    }
    x | flip
}

/// Value of character `c` in the URL-safe Base64 alphabet, or `0xFF`.
pub(crate) fn b64_url_char_to_val(c: u8) -> (r: u8)
    ensures
        r == (if in_alphabet(Alphabet::Base64UrlSafe, c) {
            char_val(Alphabet::Base64UrlSafe, c) as u8
        } else {
            0xFFu8
        }),
{
    let m_up = mask_in_range(c, 65, 90);
    let m_lo = mask_in_range(c, 97, 122);
    let m_di = mask_in_range(c, 48, 57);
    let m_mi = mask_eq(c, 45);
    let m_un = mask_eq(c, 95);
    let a_up = c.wrapping_sub(65);
    let a_lo = c.wrapping_sub(71);
    let a_di = c.wrapping_add(4);
    let x = (m_up & a_up) | (m_lo & a_lo) | (m_di & a_di) | (m_mi & 62) | (m_un & 63);
    let v1 = m_up | m_lo;
    let v2 = v1 | m_di;
    let v3 = v2 | m_mi;
    let valid = v3 | m_un;
    let flip = valid ^ 0xFF;
    proof {
        lemma_mask_select(m_up, a_up);
        lemma_mask_select(m_lo, a_lo);
        lemma_mask_select(m_di, a_di);
        lemma_mask_select(m_mi, 62);
        lemma_mask_select(m_un, 63);
        lemma_or_zero(a_up);
        lemma_or_zero(a_lo);
        lemma_or_zero(a_di);
        lemma_or_zero(62);
        lemma_or_zero(63);
        lemma_or_zero(0);
        lemma_mask_or(m_up, m_lo);
        lemma_mask_or(v1, m_di);
        lemma_mask_or(v2, m_mi);
        lemma_mask_or(v3, m_un);
        lemma_mask_flip(valid);
        lemma_or_zero(x);
        lemma_or_zero(0xFF);
    }
    x | flip
}

/// Value of character `c` in the standard Base32 alphabet, or `0xFF`.
pub(crate) fn b32_char_to_val(c: u8) -> (r: u8)
    ensures
        r == (if in_alphabet(Alphabet::Base32Standard, c) {
            char_val(Alphabet::Base32Standard, c) as u8
        } else {
            0xFFu8
        }),
{
    let m_up = mask_in_range(c, 65, 90);
    let m_di = mask_in_range(c, 50, 55);
    let a_up = c.wrapping_sub(65);
    let a_di = c.wrapping_sub(24);
    let x = (m_up & a_up) | (m_di & a_di);
    let valid = m_up | m_di;
    let flip = valid ^ 0xFF;
    proof {
        lemma_mask_select(m_up, a_up);
        lemma_mask_select(m_di, a_di);
        lemma_or_zero(a_up);
        lemma_or_zero(a_di);
        lemma_or_zero(0);
        lemma_mask_or(m_up, m_di);
        lemma_mask_flip(valid);
        lemma_or_zero(x);
        lemma_or_zero(0xFF);
    }
    x | flip
}

/// Value of character `c` in the extended-hex Base32 alphabet, or `0xFF`.
/// Both letter cases are accepted.
pub(crate) fn b32_hex_char_to_val(c: u8) -> (r: u8)
    ensures
        r == (if in_alphabet(Alphabet::Base32ExtendedHex, c) {
            char_val(Alphabet::Base32ExtendedHex, c) as u8
        } else {
            0xFFu8
        }),
{
    let m_di = mask_in_range(c, 48, 57);
    let m_up = mask_in_range(c, 65, 86);
    let m_lo = mask_in_range(c, 97, 118);
    let a_di = c.wrapping_sub(48);
    let a_up = c.wrapping_sub(55);
    let a_lo = c.wrapping_sub(87);
    let x = (m_di & a_di) | (m_up & a_up) | (m_lo & a_lo);
    let v1 = m_di | m_up;
    let valid = v1 | m_lo;
    let flip = valid ^ 0xFF;
    proof {
        lemma_mask_select(m_di, a_di);
        lemma_mask_select(m_up, a_up);
        lemma_mask_select(m_lo, a_lo);
        lemma_or_zero(a_di);
        lemma_or_zero(a_up);
        lemma_or_zero(a_lo);
        lemma_or_zero(0);
        lemma_mask_or(m_di, m_up);
        lemma_mask_or(v1, m_lo);
        lemma_mask_flip(valid);
        lemma_or_zero(x);
        lemma_or_zero(0xFF);
    }
    x | flip
}

/// Value of hex digit `c`, or `0xFF`.  Both letter cases are accepted.
pub(crate) fn hex_char_to_val(c: u8) -> (r: u8)
    ensures
        r == (if in_alphabet(Alphabet::LowerHex, c) {
            char_val(Alphabet::LowerHex, c) as u8
        } else {
            0xFFu8
        }),
{
    let m_di = mask_in_range(c, 48, 57);
    let m_lo = mask_in_range(c, 97, 102);
    let m_up = mask_in_range(c, 65, 70);
    let a_di = c.wrapping_sub(48);
    let a_lo = c.wrapping_sub(87);
    let a_up = c.wrapping_sub(55);
    let x = (m_di & a_di) | (m_lo & a_lo) | (m_up & a_up);
    let v1 = m_di | m_lo;
    let valid = v1 | m_up;
    let flip = valid ^ 0xFF;
    proof {
        lemma_mask_select(m_di, a_di);
        lemma_mask_select(m_lo, a_lo);
        lemma_mask_select(m_up, a_up);
        lemma_or_zero(a_di);
        lemma_or_zero(a_lo);
        lemma_or_zero(a_up);
        lemma_or_zero(0);
        lemma_mask_or(m_di, m_lo);
        lemma_mask_or(v1, m_up);
        lemma_mask_flip(valid);
        lemma_or_zero(x);
        lemma_or_zero(0xFF);
    }
    x | flip
}

} // verus!
