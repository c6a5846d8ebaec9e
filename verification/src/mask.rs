//! Branchless byte comparators.
//!
//! Each comparator returns an all-ones mask (`0xFF`) when the relation
//! holds and an all-zeros mask otherwise, using only arithmetic and
//! bitwise operations.  Every decision the engine takes over a data byte
//! is an AND/OR combination of such masks, never a conditional branch, so
//! that execution time does not depend on data values.

use vstd::prelude::*;
use vstd::arithmetic::div_mod::lemma_fundamental_div_mod_converse;
use vstd::bits::lemma_u16_shr_is_div;
use vstd::arithmetic::power2::lemma2_to64;

verus! {

/// High byte of the u16 `d`, as a byte.
fn high_byte(d: u16) -> (r: u8)
    ensures
        r == d / 256,
{
    proof {
        lemma_u16_shr_is_div(d, 8);
        lemma2_to64();
        assert(d / 256 < 256);
    }
    (d >> 8u16) as u8
}

/// `0xFF` when `x == y`, `0x00` otherwise, without branching.
pub(crate) fn mask_eq(x: u8, y: u8) -> (r: u8)
    ensures
        r == (if x == y {
            0xFFu8
        } else {
            0u8
        }),
{
    let e = (x ^ y) as u16;
    proof {
        assert(x ^ y == 0 <==> x == y) by (bit_vector);
        assert(x ^ y <= 255) by (bit_vector);
    }
    let d = 0u16.wrapping_sub(e);
    let h = high_byte(d);
    proof {
        if x != y {
            assert(d == 65536 - e);
            assert((65536 - e) / 256 == 255) by {
                lemma_fundamental_div_mod_converse(65536 - e, 256, 255, 256 - e);
            }
        }
        assert(!255u8 == 0 && !0u8 == 255) by (bit_vector);
    }
    !h
}

/// `0xFF` when `x > y`, `0x00` otherwise, without branching.
pub(crate) fn mask_gt(x: u8, y: u8) -> (r: u8)
    ensures
        r == (if x > y {
            0xFFu8
        } else {
            0u8
        }),
{
    let d = (y as u16).wrapping_sub(x as u16);
    let h = high_byte(d);
    proof {
        if x > y {
            assert(d == y - x + 65536);
            assert((y - x + 65536) / 256 == 255) by {
                lemma_fundamental_div_mod_converse(y - x + 65536, 256, 255, 256 + y - x);
            }
        } else {
            assert(d == y - x);
            assert(d / 256 == 0);
        }
    }
    h
}

/// `0xFF` when `x >= y`, `0x00` otherwise.
pub(crate) fn mask_ge(x: u8, y: u8) -> (r: u8)
    ensures
        r == (if x >= y {
            0xFFu8
        } else {
            0u8
        }),
{
    let m = mask_gt(y, x);
    proof {
        assert(!255u8 == 0 && !0u8 == 255) by (bit_vector);
    }
    !m
}

/// `0xFF` when `x < y`, `0x00` otherwise.
pub(crate) fn mask_lt(x: u8, y: u8) -> (r: u8)
    ensures
        r == (if x < y {
            0xFFu8
        } else {
            0u8
        }),
{
    mask_gt(y, x)
}

/// `0xFF` when `lo <= x <= hi`, `0x00` otherwise.
pub(crate) fn mask_in_range(x: u8, lo: u8, hi: u8) -> (r: u8)
    ensures
        r == (if lo <= x <= hi {
            0xFFu8
        } else {
            0u8
        }),
{
    let a = mask_ge(x, lo);
    let b = mask_gt(hi, x);
    let c = mask_eq(x, hi);
    proof {
        lemma_mask_or(b, c);
        lemma_mask_and(a, b | c);
    }
    a & (b | c)
}

/// AND of two masks.
pub(crate) proof fn lemma_mask_and(m1: u8, m2: u8)
    requires
        m1 == 0 || m1 == 0xFF,
        m2 == 0 || m2 == 0xFF,
    ensures
        (m1 & m2) == (if m1 == 0xFF && m2 == 0xFF {
            0xFFu8
        } else {
            0u8
        }),
{
    assert((m1 == 0 || m1 == 0xFF) && (m2 == 0 || m2 == 0xFF) ==> (m1 & m2) == (if m1 == 0xFF
        && m2 == 0xFF {
        0xFFu8
    } else {
        0u8
    })) by (bit_vector);
}

/// OR of two masks.
pub(crate) proof fn lemma_mask_or(m1: u8, m2: u8)
    requires
        m1 == 0 || m1 == 0xFF,
        m2 == 0 || m2 == 0xFF,
    ensures
        (m1 | m2) == (if m1 == 0xFF || m2 == 0xFF {
            0xFFu8
        } else {
            0u8
        }),
{
    assert((m1 == 0 || m1 == 0xFF) && (m2 == 0 || m2 == 0xFF) ==> (m1 | m2) == (if m1 == 0xFF
        || m2 == 0xFF {
        0xFFu8
    } else {
        0u8
    })) by (bit_vector);
}

/// A mask selects its operand or zero.
pub(crate) proof fn lemma_mask_select(m: u8, v: u8)
    requires
        m == 0 || m == 0xFF,
    ensures
        (m & v) == (if m == 0xFF {
            v
        } else {
            0u8
        }),
{
    assert((m == 0 || m == 0xFF) ==> (m & v) == (if m == 0xFF {
        v
    } else {
        0u8
    })) by (bit_vector);
}

/// OR with zero on either side is the identity.
pub(crate) proof fn lemma_or_zero(v: u8)
    ensures
        (v | 0) == v,
        (0 | v) == v,
{
    assert((v | 0) == v && (0 | v) == v) by (bit_vector);
}

/// Complementing a mask swaps all-ones and all-zeros.
pub(crate) proof fn lemma_mask_flip(m: u8)
    requires
        m == 0 || m == 0xFF,
    ensures
        (m ^ 0xFF) == (if m == 0 {
            0xFFu8
        } else {
            0u8
        }),
{
    assert((m == 0 || m == 0xFF) ==> (m ^ 0xFF) == (if m == 0 {
        0xFFu8
    } else {
        0u8
    })) by (bit_vector);
}

} // verus!
