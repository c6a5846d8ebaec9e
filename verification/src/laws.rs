//! Crate-wide laws relating encoding and decoding.
//!
//! These proof functions state, once and for all variants, the properties
//! the codecs are built for: encoding is deterministic and of exactly the
//! predicted length; decoding inverts encoding; an accepted input carries
//! exactly the data-character values of the canonical encoding of its
//! decoded bytes (malleability rejection); and the decoder sees through
//! ignored bytes.

use vstd::prelude::*;
use vstd::arithmetic::power2::{lemma2_to64, pow2};
use vstd::arithmetic::div_mod::{
    lemma_fundamental_div_mod, lemma_fundamental_div_mod_converse, lemma_mod_bound,
};
use crate::bitstream::{
    lemma_sbits_bound, lemma_sbits_congruence, lemma_sbits_zero, lemma_sbits_zero_bits,
    lemma_stream_eq, lemma_symbol_value, sbits,
};
use crate::error::Error;
use crate::model::{
    char_val_at, data_char_count, data_prefix_len, data_vals, decode_result, decoded_bytes,
    encode_spec, encoded_len_spec, expected_pads, is_ignored, lemma_data_char_count_bounds,
    lemma_data_prefix_len_bounds, lemma_data_prefix_len_is, lemma_encoded_len_ge,
    lemma_len_closed, lemma_strip_add, lemma_strip_none, padding_ok, strip,
};
use crate::variant::{
    Variant, char_val, in_alphabet, is_base64, lemma_char_val_bound, lemma_char_val_char,
    lemma_val_char_roundtrip, width,
};

verus! {

/// Length exactness: the encoded text has exactly the predicted length,
/// for every variant and every input.
pub proof fn lemma_encoded_len_exact(v: Variant, bin: Seq<u8>)
    ensures
        encode_spec(v, bin).len() == encoded_len_spec(v, bin.len()),
{
    lemma_encoded_len_ge(v, bin.len());
}

/// Determinism: the encoder's contract pins its output to `encode_spec`,
/// a function of the variant and the input bytes alone, so two encodings
/// of the same input under the same variant are byte-identical.
pub proof fn lemma_encode_deterministic(v: Variant, bin: Seq<u8>, r1: Seq<u8>, r2: Seq<u8>)
    requires
        r1 == encode_spec(v, bin),
        r2 == encode_spec(v, bin),
    ensures
        r1 == r2,
{
}

/// The leftover-bit count and pad run of a canonical encoding: `w m - 8 n`
/// trailing bits, at most four, and exactly the mandated pad characters.
proof fn lemma_encode_shape(v: Variant, n: nat)
    ensures
        0 <= width(v.alphabet) * data_char_count(v.alphabet, n) - 8 * n <= 4,
        !v.padded ==> encoded_len_spec(v, n) == data_char_count(v.alphabet, n),
        v.padded && width(v.alphabet) * data_char_count(v.alphabet, n) - 8 * n == 0
            ==> encoded_len_spec(v, n) == data_char_count(v.alphabet, n),
        v.padded && width(v.alphabet) * data_char_count(v.alphabet, n) - 8 * n != 0
            ==> encoded_len_spec(v, n) == data_char_count(v.alphabet, n) + expected_pads(
            v.alphabet,
            width(v.alphabet) * data_char_count(v.alphabet, n) - 8 * n,
        ),
{
    let a = v.alphabet;
    let w = width(a) as int;
    lemma_len_closed(v, n);
    lemma_len_closed(Variant { alphabet: a, padded: true }, n);
    lemma_len_closed(Variant { alphabet: a, padded: false }, n);
    let d: int = if w == 6 {
        3
    } else if w == 5 {
        5
    } else {
        1
    };
    lemma_fundamental_div_mod(n as int, d);
    lemma_mod_bound(n as int, d);
}

/// Round trip: decoding a canonical encoding, under the same variant and
/// with no ignore set, yields exactly the original bytes, whenever the
/// output buffer holds at least the input length.
pub proof fn lemma_round_trip(v: Variant, bin: Seq<u8>, maxlen: nat)
    requires
        maxlen >= bin.len(),
    ensures
        decode_result(v, encode_spec(v, bin), Option::None, maxlen) == Result::<Seq<u8>,
        Error>::Ok(bin),
{
    let a = v.alphabet;
    let w = width(a);
    let wi = w as int;
    let n = bin.len();
    let enc = encode_spec(v, bin);
    let m = data_char_count(a, n);
    lemma2_to64();
    lemma_strip_none(enc);
    lemma_data_char_count_bounds(a, n);
    lemma_encoded_len_ge(v, n);
    lemma_encode_shape(v, n);
    let e = wi * m - 8 * n;
    // every data character is an alphabet character carrying its bits
    assert forall|k: int| 0 <= k < m implies in_alphabet(a, enc[k]) && char_val(a, enc[k])
        == char_val_at(bin, w, k) by {
        lemma_sbits_bound(bin, 8, w * k, w * k + w);
        lemma_val_char_roundtrip(a, char_val_at(bin, w, k));
    }
    if m < enc.len() {
        assert(enc[m] == 61);
    }
    lemma_data_prefix_len_is(a, enc, m);
    let vals = data_vals(a, enc);
    assert forall|k: int| 0 <= k < m implies (vals[k] as nat) == sbits(bin, 8, w * k, w * k
        + w) by {
        lemma_sbits_bound(bin, 8, w * k, w * k + w);
    }
    // the decoder recovers n bytes with e leftover bits
    lemma_fundamental_div_mod_converse(wi * m, 8, n as int, e);
    // the character stream carries exactly the byte stream's bits
    lemma_stream_eq(vals, w, bin, 8);
    assert forall|p: int| 8 * n <= p < wi * m implies crate::bitstream::bit_at(vals, w, p)
        == 0 by {
        assert(crate::bitstream::bit_at(vals, w, p) == crate::bitstream::bit_at(bin, 8, p));
        assert(bin.len() * 8 == 8 * n);
    }
    lemma_sbits_zero(vals, w, 8 * (n as int), wi * m);
    // each decoded byte is the original byte
    assert forall|j: int| 0 <= j < n implies sbits(vals, w, 8 * j, 8 * j + 8) == bin[j] by {
        lemma_sbits_congruence(vals, w, bin, 8, 8 * j, 8 * j + 8);
        lemma_symbol_value(bin, 8, j);
    }
    assert(decoded_bytes(vals, w) =~= bin);
    // the pad run is exactly what the variant mandates
    assert(padding_ok(v, enc, m, e));
}

/// Malleability rejection: an input accepted with no ignore set carries
/// exactly the data-character values of the canonical encoding of its
/// decoded bytes.  In particular all trailing bits of the last data
/// character are zero: no input differing from the canonical encoding
/// only in padding-bit content is accepted.
pub proof fn lemma_decode_data_canonical(v: Variant, s: Seq<u8>, maxlen: nat, bin: Seq<u8>)
    requires
        decode_result(v, s, Option::None, maxlen) == Result::<Seq<u8>, Error>::Ok(bin),
    ensures
        data_prefix_len(v.alphabet, s) == data_char_count(v.alphabet, bin.len()),
        forall|k: int|
            0 <= k < data_prefix_len(v.alphabet, s) ==> char_val(v.alphabet, s[k])
                == char_val_at(bin, width(v.alphabet), k),
{
    let a = v.alphabet;
    let w = width(a);
    let wi = w as int;
    lemma2_to64();
    lemma_strip_none(s);
    let q = data_prefix_len(a, s);
    lemma_data_prefix_len_bounds(a, s);
    let vals = data_vals(a, s);
    let nb = (wi * q) / 8;
    let l = (wi * q) % 8;
    let n = bin.len();
    assert(bin == decoded_bytes(vals, w));
    assert(n == nb);
    lemma_fundamental_div_mod(wi * q, 8);
    // q is the data-character count of the decoded bytes
    assert(wi * q == 8 * n + l);
    lemma_fundamental_div_mod_converse(
        8 * (n as int) + wi - 1,
        wi,
        q,
        wi - 1 - l,
    );
    assert(data_char_count(a, n) == q);
    // character values are in range
    assert forall|k: int| 0 <= k < q implies (vals[k] as nat) < pow2(w) by {
        lemma_char_val_bound(a, s[k]);
    }
    // bytes carry the character stream's bits
    assert forall|j: int| 0 <= j < n implies (bin[j] as nat) == sbits(vals, w, 8 * j, 8 * j
        + 8) by {
        lemma_sbits_bound(vals, w, 8 * j, 8 * j + 8);
        assert(bin[j] == decoded_bytes(vals, w)[j]);
    }
    lemma_stream_eq(bin, 8, vals, w);
    // past the decoded bytes, every bit of the character stream is zero
    if a is LowerHex {
        assert(l == 0);
    } else {
        lemma_sbits_zero_bits(vals, w, 8 * (n as int), wi * q);
    }
    // so each data character's value equals the canonical one
    assert forall|k: int| 0 <= k < q implies char_val(a, s[k]) == char_val_at(bin, w, k) by {
        assert forall|p: int| w * k <= p < w * k + w implies crate::bitstream::bit_at(
            bin,
            8,
            p,
        ) == crate::bitstream::bit_at(vals, w, p) by {
            assert(0 <= p < wi * q) by (nonlinear_arith)
                requires
                    0 <= k < q,
                    w * k <= p < w * k + w,
                    wi == w,
                    w >= 1,
            ;
            if p < 8 * n {
                assert(crate::bitstream::bit_at(bin, 8, p) == crate::bitstream::bit_at(
                    vals,
                    w,
                    p,
                ));
            } else {
                assert(bin.len() * 8 == 8 * n);
            }
        }
        lemma_sbits_congruence(bin, 8, vals, w, w * k, w * k + w);
        lemma_symbol_value(vals, w, k);
    }
}

/// Full canonicity for Base64: with no ignore set, the only accepted
/// spelling of a value is its canonical encoding, padding included.
pub proof fn lemma_decode_canonical_base64(v: Variant, s: Seq<u8>, maxlen: nat, bin: Seq<u8>)
    requires
        is_base64(v.alphabet),
        decode_result(v, s, Option::None, maxlen) == Result::<Seq<u8>, Error>::Ok(bin),
    ensures
        s == encode_spec(v, bin),
{
    let a = v.alphabet;
    let w = width(a);
    let wi = w as int;
    lemma2_to64();
    lemma_strip_none(s);
    lemma_decode_data_canonical(v, s, maxlen, bin);
    let q = data_prefix_len(a, s);
    lemma_data_prefix_len_bounds(a, s);
    let n = bin.len();
    let l = (wi * q) % 8;
    let enc = encode_spec(v, bin);
    lemma_encode_shape(v, n);
    lemma_fundamental_div_mod(wi * q, 8);
    assert(n == (wi * q) / 8);
    // the canonical encoding leaves the same leftover-bit count
    assert(wi * data_char_count(a, n) - 8 * n == l);
    assert(s.len() == enc.len());
    assert forall|k: int| 0 <= k < s.len() implies s[k] == enc[k] by {
        if k < q {
            lemma_char_val_char(a, s[k]);
        }
    }
    assert(s =~= enc);
}

/// Full canonicity for unpadded standard-alphabet Base32: with no ignore
/// set, the only accepted spelling of a value is its canonical encoding.
/// (The extended-hex alphabet also accepts lowercase letters, and the
/// padded decoders accept a pad run after a whole block, so only the
/// data-character values are canonical there.)
pub proof fn lemma_decode_canonical_base32_standard(
    v: Variant,
    s: Seq<u8>,
    maxlen: nat,
    bin: Seq<u8>,
)
    requires
        v.alphabet is Base32Standard,
        !v.padded,
        decode_result(v, s, Option::None, maxlen) == Result::<Seq<u8>, Error>::Ok(bin),
    ensures
        s == encode_spec(v, bin),
{
    let a = v.alphabet;
    lemma2_to64();
    lemma_strip_none(s);
    lemma_decode_data_canonical(v, s, maxlen, bin);
    let q = data_prefix_len(a, s);
    lemma_data_prefix_len_bounds(a, s);
    let enc = encode_spec(v, bin);
    lemma_encode_shape(v, bin.len());
    lemma_encoded_len_ge(v, bin.len());
    assert(s.len() == q);
    assert(enc.len() == q);
    assert forall|k: int| 0 <= k < s.len() implies s[k] == enc[k] by {
        lemma_char_val_char(a, s[k]);
    }
    assert(s =~= enc);
}

/// Ignore-set transparency: the decoding outcome depends only on the
/// input with its ignored bytes removed, so inserting ignored bytes at
/// any positions of a valid input changes nothing.
pub proof fn lemma_ignored_transparent(
    v: Variant,
    s1: Seq<u8>,
    s2: Seq<u8>,
    ig: Option<Seq<u8>>,
    maxlen: nat,
)
    requires
        strip(s1, ig) == strip(s2, ig),
    ensures
        decode_result(v, s1, ig, maxlen) == decode_result(v, s2, ig, maxlen),
{
}

/// Inserting one ignored byte at any position leaves the stripped input,
/// and with it the decoding outcome, unchanged.
pub proof fn lemma_strip_insert(s: Seq<u8>, pos: int, c: u8, ig: Option<Seq<u8>>)
    requires
        0 <= pos <= s.len(),
        is_ignored(ig, c),
    ensures
        strip(s.insert(pos, c), ig) == strip(s, ig),
{
    let front = s.subrange(0, pos);
    let back = s.subrange(pos, s.len() as int);
    assert(s.insert(pos, c) =~= front.push(c) + back);
    lemma_strip_add(front.push(c), back, ig);
    assert(front.push(c).drop_last() =~= front);
    assert(strip(front.push(c), ig) == strip(front, ig));
    lemma_strip_add(front, back, ig);
    assert(front + back =~= s);
}

} // verus!
