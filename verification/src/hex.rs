//! The hexadecimal codec.
//!
//! Encoding emits two lowercase hex digits per byte; decoding accepts
//! both letter cases and rejects inputs with an odd number of digits.
//! Both directions go through the branchless maps of [`crate::chars`].

use vstd::prelude::*;
use vstd::arithmetic::power2::lemma2_to64;
use vstd::arithmetic::div_mod::lemma_fundamental_div_mod_converse;
use vstd::bits::{
    lemma_low_bits_mask_values, lemma_u8_low_bits_mask_is_mod, lemma_u8_shl_is_mul,
    lemma_u8_shr_is_div,
};
use vstd::slice::slice_subrange;
use crate::bitstream::{
    lemma_sbits_bound, lemma_sbits_push, lemma_sbits_split, lemma_symbol_value, sbits,
};
use crate::chars::{hex_char_to_val, hex_val_to_char};
use crate::error::Error;
use crate::model::{
    char_val_at, data_vals, decoded_bytes, encode_spec, ig_view,
    lemma_data_prefix_len_ge, lemma_data_prefix_len_is, lemma_len_closed, lemma_strip_add,
    lemma_strip_single, lemma_strip_step, seq_vals, strip,
};
use crate::variant::{Alphabet, Variant, in_alphabet, lemma_char_val_bound, val_char};
use crate::{Decoder, Encoder};

verus! {

/// The lowercase hexadecimal codec.
pub struct Hex;

impl Encoder for Hex {
    open spec fn spec_variant() -> Variant {
        Variant { alphabet: Alphabet::LowerHex, padded: false }
    }

    fn encoded_len(bin_len: usize) -> (r: Result<usize, Error>) {
        proof {
            lemma_len_closed(<Hex as Encoder>::spec_variant(), bin_len as nat);
        }
        match bin_len.checked_mul(2) {
            Some(l) => Ok(l),
            None => Err(Error::Overflow),
        }
    }

    fn encode<'a>(encoded: &'a mut [u8], bin: &[u8]) -> (r: Result<&'a [u8], Error>) {
        let ghost v = <Hex as Encoder>::spec_variant();
        let n = bin.len();
        let olen = encoded.len();
        proof {
            lemma_len_closed(v, n as nat);
        }
        let elen = match n.checked_mul(2) {
            Some(l) => l,
            None => {
                return Err(Error::Overflow);
            },
        };
        if olen < elen {
            return Err(Error::Overflow);
        }
        let mut i: usize = 0;
        while i < n
            invariant
                n == bin@.len(),
                encoded@.len() == old(encoded)@.len(),
                elen == 2 * n <= encoded@.len(),
                0 <= i <= n,
                forall|k: int|
                    0 <= k < 2 * i ==> encoded@[k] == val_char(
                        Alphabet::LowerHex,
                        char_val_at(bin@, 4, k),
                    ),
                forall|j: int| 2 * i <= j < encoded@.len() ==> encoded@[j] == old(encoded)@[j],
            decreases n - i,
        {
            let b = bin[i];
            proof {
                lemma2_to64();
                lemma_low_bits_mask_values();
                lemma_symbol_value(bin@, 8, i as int);
                lemma_sbits_split(bin@, 8, 8 * (i as int), 8 * (i as int) + 4, 8 * (i as int) + 8);
                lemma_sbits_bound(bin@, 8, 8 * (i as int), 8 * (i as int) + 4);
                lemma_sbits_bound(bin@, 8, 8 * (i as int) + 4, 8 * (i as int) + 8);
                lemma_fundamental_div_mod_converse(
                    b as int,
                    16,
                    sbits(bin@, 8, 8 * (i as int), 8 * (i as int) + 4) as int,
                    sbits(bin@, 8, 8 * (i as int) + 4, 8 * (i as int) + 8) as int,
                );
                lemma_u8_shr_is_div(b, 4);
                lemma_u8_low_bits_mask_is_mod(b, 4);
            }
            let hi = hex_val_to_char(b >> 4u8);
            let lo = hex_val_to_char(b & 15);
            encoded[2 * i] = hi;
            encoded[2 * i + 1] = lo;
            i += 1;
        }
        proof {
            assert(encoded@.subrange(0, elen as int) =~= encode_spec(v, bin@));
            assert(encoded@.skip(elen as int) =~= old(encoded)@.skip(elen as int));
        }
        Ok(slice_subrange(encoded, 0, elen))
    }
}

impl Decoder for Hex {
    open spec fn spec_variant() -> Variant {
        Variant { alphabet: Alphabet::LowerHex, padded: false }
    }

    fn decode<'a>(bin: &'a mut [u8], encoded: &[u8], ignore: Option<&[u8]>) -> (r: Result<
        &'a [u8],
        Error,
    >) {
        let ghost a = Alphabet::LowerHex;
        let ghost igv = ig_view(ignore);
        let n = encoded.len();
        let maxlen = bin.len();
        let mut bin_pos: usize = 0;
        let mut have_hi = false;
        let mut c_acc: u8 = 0;
        let mut i: usize = 0;
        let ghost mut g: Seq<u8> = Seq::empty();
        let ghost mut gv: Seq<u8> = Seq::empty();
        proof {
            lemma2_to64();
            assert(encoded@.subrange(0, 0) =~= Seq::<u8>::empty());
            assert(g =~= strip(encoded@.subrange(0, 0), igv));
            assert(gv =~= seq_vals(a, g));
        }
        while i < n
            invariant
                n == encoded@.len(),
                bin@.len() == old(bin)@.len(),
                maxlen == bin@.len(),
                a == Alphabet::LowerHex,
                igv == ig_view(ignore),
                0 <= i <= n,
                g == strip(encoded@.subrange(0, i as int), igv),
                gv == seq_vals(a, g),
                forall|k: int| 0 <= k < g.len() ==> in_alphabet(a, g[k]),
                g.len() == 2 * bin_pos + (if have_hi {
                    1int
                } else {
                    0int
                }),
                bin_pos <= maxlen,
                have_hi ==> bin_pos < maxlen,
                have_hi ==> (c_acc as nat) == (gv[g.len() - 1] as nat) * 16,
                forall|j: int|
                    0 <= j < bin_pos ==> bin@[j] == sbits(gv, 4, 8 * j, 8 * j + 8) as u8,
                forall|j: int| bin_pos <= j < maxlen ==> bin@[j] == old(bin)@[j],
            decreases n - i,
        {
            let c = encoded[i];
            let ign = crate::engine::is_ignored_byte(ignore, c);
            if ign {
                proof {
                    lemma_strip_step(encoded@, igv, i as int);
                }
                i += 1;
            } else {
                let d = hex_char_to_val(c);
                proof {
                    lemma2_to64();
                    if in_alphabet(a, c) {
                        lemma_char_val_bound(a, c);
                    }
                }
                if d == 255 {
                    proof {
                        // a stray byte ends the digit run: the decode is
                        // invalid, and cannot have overflowed first
                        assert(encoded@ =~= encoded@.subrange(0, i as int) + encoded@.subrange(
                            i as int,
                            n as int,
                        ));
                        lemma_strip_add(
                            encoded@.subrange(0, i as int),
                            encoded@.subrange(i as int, n as int),
                            igv,
                        );
                        let rest = encoded@.subrange(i as int, n as int);
                        assert(rest =~= seq![c] + encoded@.subrange(i as int + 1, n as int));
                        lemma_strip_add(seq![c], encoded@.subrange(i as int + 1, n as int), igv);
                        lemma_strip_single(c, igv);
                        let t = strip(encoded@, igv);
                        assert(forall|k: int| 0 <= k < g.len() ==> t[k] == g[k]);
                        assert(t[g.len() as int] == c);
                        lemma_data_prefix_len_is(a, t, g.len() as int);
                    }
                    return Err(Error::InvalidInput);
                }
                if bin_pos >= maxlen {
                    proof {
                        // another digit would complete a byte past the
                        // buffer, so the full decode overflows
                        lemma_strip_step(encoded@, igv, i as int);
                        assert(encoded@ =~= encoded@.subrange(0, i as int + 1) + encoded@.subrange(
                            i as int + 1,
                            n as int,
                        ));
                        lemma_strip_add(
                            encoded@.subrange(0, i as int + 1),
                            encoded@.subrange(i as int + 1, n as int),
                            igv,
                        );
                        let t = strip(encoded@, igv);
                        let g2 = g.push(c);
                        assert(forall|k: int| 0 <= k < g2.len() ==> t[k] == g2[k]);
                        lemma_data_prefix_len_ge(a, t, g2.len() as int);
                    }
                    return Err(Error::Overflow);
                }
                proof {
                    lemma_strip_step(encoded@, igv, i as int);
                    let g2 = g.push(c);
                    let gv2 = gv.push(d);
                    assert(gv2 =~= seq_vals(a, g2));
                    // bytes already written keep their values
                    assert forall|j: int| 0 <= j < bin_pos implies bin@[j] == sbits(
                        gv2,
                        4,
                        8 * j,
                        8 * j + 8,
                    ) as u8 by {
                        lemma_sbits_push(gv, 4, d, 8 * j, 8 * j + 8);
                    }
                    g = g2;
                    gv = gv2;
                }
                if !have_hi {
                    proof {
                        lemma_u8_shl_is_mul(d, 4);
                    }
                    c_acc = d << 4u8;
                    have_hi = true;
                } else {
                    proof {
                        lemma2_to64();
                        let dc = g.len() as int;
                        let bp = bin_pos as int;
                        lemma_symbol_value(gv, 4, dc - 2);
                        lemma_symbol_value(gv, 4, dc - 1);
                        lemma_sbits_split(gv, 4, 8 * bp, 8 * bp + 4, 8 * bp + 8);
                        assert((gv[dc - 2] as nat) * 16 % 16 == 0) by (nonlinear_arith);
                        assert((c_acc | d) == c_acc + d && c_acc + d < 256) by (bit_vector)
                            requires
                                c_acc % 16 == 0,
                                d < 16,
                        ;
                    }
                    let b = c_acc | d;
                    bin[bin_pos] = b;
                    bin_pos += 1;
                    have_hi = false;
                }
                i += 1;
            }
        }
        proof {
            lemma2_to64();
            assert(encoded@.subrange(0, i as int) =~= encoded@);
            let t = strip(encoded@, igv);
            lemma_data_prefix_len_is(a, t, g.len() as int);
            assert(data_vals(a, t) =~= gv);
            let h: int = if have_hi {
                1
            } else {
                0
            };
            lemma_fundamental_div_mod_converse(
                4 * (g.len() as int),
                8,
                bin_pos as int,
                4 * h,
            );
        }
        if have_hi {
            return Err(Error::InvalidInput);
        }
        proof {
            assert(bin@.subrange(0, bin_pos as int) =~= decoded_bytes(gv, 4));
        }
        Ok(slice_subrange(bin, 0, bin_pos))
    }
}

} // verus!
