//! The encoding and decoding relations.
//!
//! [`encode_spec`] is the exact encoded character sequence of a byte
//! sequence under a [`Variant`].  [`decode_result`] is the exact outcome of
//! decoding a character sequence: the decoded bytes, or the error, for a
//! given ignore set and output-buffer size.  The executable engine is
//! specified against these two functions.

use vstd::prelude::*;
use vstd::arithmetic::power2::lemma2_to64;
use vstd::arithmetic::div_mod::{
    lemma_fundamental_div_mod, lemma_fundamental_div_mod_converse, lemma_mod_bound,
};
use crate::bitstream::{lemma_sbits_bound, sbits};
use crate::variant::{
    Alphabet, Variant, width, block_chars, is_base64, val_char, char_val, in_alphabet,
};
use crate::error::Error;

verus! {

/// The value of data character `k` of the encoding of `bin`: bits
/// `[w k, w k + w)` of the byte stream, zero-padded past the end.
pub open spec fn char_val_at(bin: Seq<u8>, w: nat, k: int) -> nat {
    sbits(bin, 8, w * k, w * k + w)
}

/// Number of data characters in the encoding of `n` bytes: `ceil(8 n / w)`.
pub open spec fn data_char_count(a: Alphabet, n: nat) -> int {
    (8 * n + width(a) - 1) / (width(a) as int)
}

/// Exact encoded length in characters: the data characters, rounded up to
/// a whole block when the variant pads.
pub open spec fn encoded_len_spec(v: Variant, n: nat) -> int {
    let m = data_char_count(v.alphabet, n);
    let b = block_chars(v.alphabet);
    if v.padded {
        ((m + b - 1) / b) * b
    } else {
        m
    }
}

/// The encoded text: data characters, then pad characters up to the
/// encoded length.
pub open spec fn encode_spec(v: Variant, bin: Seq<u8>) -> Seq<u8> {
    let a = v.alphabet;
    let m = data_char_count(a, bin.len());
    Seq::new(
        encoded_len_spec(v, bin.len()) as nat,
        |k: int|
            if k < m {
                val_char(a, char_val_at(bin, width(a), k))
            } else {
                61u8  // '='
            },
    )
}

/// Whether the decoder skips `c` without treating it as data.
pub open spec fn is_ignored(ig: Option<Seq<u8>>, c: u8) -> bool {
    match ig {
        Option::Some(s) => s.contains(c),
        Option::None => false,
    }
}

/// `s` with every ignored byte removed.
pub open spec fn strip(s: Seq<u8>, ig: Option<Seq<u8>>) -> Seq<u8>
    decreases s.len(),
{
    if s.len() == 0 {
        Seq::empty()
    } else if is_ignored(ig, s.last()) {
        strip(s.drop_last(), ig)
    } else {
        strip(s.drop_last(), ig).push(s.last())
    }
}

/// Length of the maximal alphabet prefix of `s`: the data characters that
/// the decoder consumes before the first terminator.
pub open spec fn data_prefix_len(a: Alphabet, s: Seq<u8>) -> int
    decreases s.len(),
{
    if s.len() == 0 {
        0
    } else if !in_alphabet(a, s[0]) {
        0
    } else {
        1 + data_prefix_len(a, s.drop_first())
    }
}

/// The values of the data characters of `s`.
pub open spec fn data_vals(a: Alphabet, s: Seq<u8>) -> Seq<u8> {
    Seq::new(data_prefix_len(a, s) as nat, |k: int| char_val(a, s[k]) as u8)
}

/// The values of every character of `s` (used for all-alphabet prefixes).
pub open spec fn seq_vals(a: Alphabet, s: Seq<u8>) -> Seq<u8> {
    Seq::new(s.len(), |k: int| char_val(a, s[k]) as u8)
}

/// The view of an optional ignore-set slice.
pub open spec fn ig_view(ignore: Option<&[u8]>) -> Option<Seq<u8>> {
    match ignore {
        Option::Some(s) => Option::Some(s@),
        Option::None => Option::None,
    }
}

/// Pad characters expected after a data run that leaves `l` trailing bits.
///
/// For Base64 this is `l / 2`.  For Base32 the partial-group cases demand
/// six, four, three, or one pad character; a pad run that follows a
/// block-aligned data run is accepted when it has six pad characters.
pub open spec fn expected_pads(a: Alphabet, l: int) -> int {
    if is_base64(a) {
        l / 2
    } else {
        if l == 0 {
            6
        } else if l == 1 {
            3
        } else if l == 2 {
            6
        } else if l == 3 {
            1
        } else {
            4
        }
    }
}

/// Validity of what follows the data characters, for the stripped input
/// `t` with data prefix `q` and `l` trailing bits.
pub open spec fn padding_ok(v: Variant, t: Seq<u8>, q: int, l: int) -> bool {
    if !v.padded {
        q == t.len()
    } else if is_base64(v.alphabet) {
        t.len() == q + expected_pads(v.alphabet, l) && (forall|k: int|
            q <= k < t.len() ==> t[k] == 61u8)
    } else {
        (q == t.len() && l == 0) || (t.len() == q + expected_pads(v.alphabet, l) && q < t.len()
            && (forall|k: int| q <= k < t.len() ==> t[k] == 61u8))
    }
}

/// The decoded bytes of the data-character values `vals`.
pub open spec fn decoded_bytes(vals: Seq<u8>, w: nat) -> Seq<u8> {
    Seq::new(
        ((w * vals.len()) / 8) as nat,
        |j: int| sbits(vals, w, 8 * j, 8 * j + 8) as u8,
    )
}

/// The exact outcome of decoding `s` under variant `v` with ignore set
/// `ig` into a buffer of `maxlen` bytes.
pub open spec fn decode_result(
    v: Variant,
    s: Seq<u8>,
    ig: Option<Seq<u8>>,
    maxlen: nat,
) -> Result<Seq<u8>, Error> {
    let a = v.alphabet;
    let wi = width(a) as int;
    let t = strip(s, ig);
    let q = data_prefix_len(a, t);
    let vals = data_vals(a, t);
    let nb = (wi * q) / 8;
    let l = (wi * q) % 8;
    if a is LowerHex {
        if q > 2 * maxlen {
            Result::Err(Error::Overflow)
        } else if q < t.len() || l != 0 {
            Result::Err(Error::InvalidInput)
        } else {
            Result::Ok(decoded_bytes(vals, width(a)))
        }
    } else {
        if nb > maxlen {
            Result::Err(Error::Overflow)
        } else if l > 4 || sbits(vals, width(a), 8 * nb, wi * q) != 0 {
            Result::Err(Error::InvalidInput)
        } else if !padding_ok(v, t, q, l) {
            Result::Err(Error::InvalidInput)
        } else {
            Result::Ok(decoded_bytes(vals, width(a)))
        }
    }
}

/// A byte sequence read as characters, for text-producing wrappers.
pub open spec fn ascii_view(s: Seq<u8>) -> Seq<char> {
    Seq::new(s.len(), |i: int| s[i] as char)
}

/// Every encoded character is an ASCII byte.
pub proof fn lemma_encode_ascii(v: Variant, bin: Seq<u8>)
    ensures
        forall|k: int|
            0 <= k < encode_spec(v, bin).len() ==> #[trigger] encode_spec(v, bin)[k] < 128,
{
    let a = v.alphabet;
    let w = width(a);
    let m = data_char_count(a, bin.len());
    assert forall|k: int| 0 <= k < encode_spec(v, bin).len() implies #[trigger] encode_spec(
        v,
        bin,
    )[k] < 128 by {
        if k < m {
            lemma_sbits_bound(bin, 8, w * k, w * k + w);
            lemma2_to64();
        }
    }
}

/// `data_char_count` is the ceiling of `8 n / w`.
pub proof fn lemma_data_char_count_bounds(a: Alphabet, n: nat)
    ensures
        data_char_count(a, n) >= 0,
        data_char_count(a, n) * width(a) >= 8 * n,
        data_char_count(a, n) * width(a) <= 8 * n + width(a) - 1,
{
    let w = width(a) as int;
    let x = 8 * n + w - 1;
    lemma_fundamental_div_mod(x, w);
    lemma_mod_bound(x, w);
    let q = x / w;
    assert(x == w * q + x % w);
    assert(w * q == q * w) by (nonlinear_arith);
    vstd::arithmetic::div_mod::lemma_div_pos_is_pos(x, w);
}

/// The encoded length is at least the data-character count.
pub proof fn lemma_encoded_len_ge(v: Variant, n: nat)
    ensures
        encoded_len_spec(v, n) >= data_char_count(v.alphabet, n),
        encoded_len_spec(v, n) >= 0,
{
    lemma_data_char_count_bounds(v.alphabet, n);
    if v.padded {
        let m = data_char_count(v.alphabet, n);
        let b = block_chars(v.alphabet);
        let x = m + b - 1;
        lemma_fundamental_div_mod(x, b);
        lemma_mod_bound(x, b);
        let q = x / b;
        assert(b * q == q * b) by (nonlinear_arith);
        vstd::arithmetic::div_mod::lemma_div_pos_is_pos(x, b);
        assert(q * b >= 0) by (nonlinear_arith)
            requires
                q >= 0,
                b > 0,
        ;
    }
}

/// Closed forms of the data-character count and the padded length, fit
/// for `usize` computation from `n / d` and `n % d`.
pub proof fn lemma_len_closed(v: Variant, n: nat)
    ensures
        width(v.alphabet) == 6 ==> data_char_count(v.alphabet, n) == 4 * (n / 3) + (if n % 3 == 0 {
            0int
        } else if n % 3 == 1 {
            2int
        } else {
            3int
        }),
        width(v.alphabet) == 6 && v.padded ==> encoded_len_spec(v, n) == 4 * (n / 3) + (if n % 3
            == 0 {
            0int
        } else {
            4int
        }),
        width(v.alphabet) == 5 ==> data_char_count(v.alphabet, n) == 8 * (n / 5) + (if n % 5 == 0 {
            0int
        } else if n % 5 == 1 {
            2int
        } else if n % 5 == 2 {
            4int
        } else if n % 5 == 3 {
            5int
        } else {
            7int
        }),
        width(v.alphabet) == 5 && v.padded ==> encoded_len_spec(v, n) == 8 * (n / 5) + (if n % 5
            == 0 {
            0int
        } else {
            8int
        }),
        v.alphabet is LowerHex ==> data_char_count(v.alphabet, n) == 2 * n,
{
    let a = v.alphabet;
    let w = width(a) as int;
    let d: int = if w == 6 {
        3
    } else if w == 5 {
        5
    } else {
        1
    };
    // n == d t + r
    lemma_fundamental_div_mod(n as int, d);
    lemma_mod_bound(n as int, d);
    let t = n as int / d;
    let r = n as int % d;
    vstd::arithmetic::div_mod::lemma_div_pos_is_pos(n as int, d);
    if w == 6 {
        let u = 8 * r + 5;
        lemma_fundamental_div_mod(u, 6);
        lemma_mod_bound(u, 6);
        assert(8 * n + 5 == 6 * (4 * t + u / 6) + u % 6);
        lemma_fundamental_div_mod_converse(8 * n as int + 5, 6, 4 * t + u / 6, u % 6);
        assert(data_char_count(a, n) == 4 * t + u / 6);
        if v.padded {
            let m = data_char_count(a, n);
            let e = u / 6;
            // m == 4 t + e with e in {0, 2, 3}
            let x = m + 3;
            assert(x == 4 * (t + (e + 3) / 4) + (e + 3) % 4);
            lemma_fundamental_div_mod_converse(x, 4, t + (e + 3) / 4, (e + 3) % 4);
            assert(encoded_len_spec(v, n) == (t + (e + 3) / 4) * 4);
            assert((t + (e + 3) / 4) * 4 == 4 * t + ((e + 3) / 4) * 4) by (nonlinear_arith);
        }
    } else if w == 5 {
        let u = 8 * r + 4;
        lemma_fundamental_div_mod(u, 5);
        lemma_mod_bound(u, 5);
        assert(8 * n + 4 == 5 * (8 * t + u / 5) + u % 5);
        lemma_fundamental_div_mod_converse(8 * n as int + 4, 5, 8 * t + u / 5, u % 5);
        assert(data_char_count(a, n) == 8 * t + u / 5);
        if v.padded {
            let m = data_char_count(a, n);
            let e = u / 5;
            let x = m + 7;
            assert(x == 8 * (t + (e + 7) / 8) + (e + 7) % 8);
            lemma_fundamental_div_mod_converse(x, 8, t + (e + 7) / 8, (e + 7) % 8);
            assert(encoded_len_spec(v, n) == (t + (e + 7) / 8) * 8);
            assert((t + (e + 7) / 8) * 8 == 8 * t + ((e + 7) / 8) * 8) by (nonlinear_arith);
        }
    } else if a is LowerHex {
        assert(8 * n + 3 == 4 * (2 * n) + 3);
        lemma_fundamental_div_mod_converse(8 * n as int + 3, 4, 2 * n as int, 3);
    }
}

pub proof fn lemma_data_prefix_len_bounds(a: Alphabet, s: Seq<u8>)
    ensures
        0 <= data_prefix_len(a, s) <= s.len(),
        forall|k: int| 0 <= k < data_prefix_len(a, s) ==> in_alphabet(a, s[k]),
        data_prefix_len(a, s) < s.len() ==> !in_alphabet(a, s[data_prefix_len(a, s)]),
    decreases s.len(),
{
    if s.len() != 0 && in_alphabet(a, s[0]) {
        lemma_data_prefix_len_bounds(a, s.drop_first());
        assert forall|k: int| 0 <= k < data_prefix_len(a, s) implies in_alphabet(a, s[k]) by {
            if k > 0 {
                assert(s.drop_first()[k - 1] == s[k]);
            }
        }
        if data_prefix_len(a, s) < s.len() {
            assert(s.drop_first()[data_prefix_len(a, s) - 1] == s[data_prefix_len(a, s)]);
        }
    }
}

/// A prefix of alphabet characters, closed off by the end of the sequence
/// or a non-alphabet character, is exactly the data prefix.
pub proof fn lemma_data_prefix_len_is(a: Alphabet, s: Seq<u8>, n: int)
    requires
        0 <= n <= s.len(),
        forall|k: int| 0 <= k < n ==> in_alphabet(a, s[k]),
        n < s.len() ==> !in_alphabet(a, s[n]),
    ensures
        data_prefix_len(a, s) == n,
    decreases s.len(),
{
    if s.len() != 0 && in_alphabet(a, s[0]) {
        assert(forall|k: int| 0 <= k < s.len() - 1 ==> s.drop_first()[k] == s[k + 1]);
        lemma_data_prefix_len_is(a, s.drop_first(), n - 1);
    }
}

/// A prefix of alphabet characters bounds the data prefix from below.
pub proof fn lemma_data_prefix_len_ge(a: Alphabet, s: Seq<u8>, j: int)
    requires
        0 <= j <= s.len(),
        forall|k: int| 0 <= k < j ==> in_alphabet(a, s[k]),
    ensures
        data_prefix_len(a, s) >= j,
    decreases s.len(),
{
    if j > 0 {
        assert(forall|k: int| 0 <= k < s.len() - 1 ==> s.drop_first()[k] == s[k + 1]);
        lemma_data_prefix_len_ge(a, s.drop_first(), j - 1);
    } else {
        lemma_data_prefix_len_bounds(a, s);
    }
}

/// One step of `strip` along a growing prefix.
pub proof fn lemma_strip_step(s: Seq<u8>, ig: Option<Seq<u8>>, i: int)
    requires
        0 <= i < s.len(),
    ensures
        strip(s.subrange(0, i + 1), ig) == if is_ignored(ig, s[i]) {
            strip(s.subrange(0, i), ig)
        } else {
            strip(s.subrange(0, i), ig).push(s[i])
        },
{
    let p = s.subrange(0, i + 1);
    assert(p.drop_last() =~= s.subrange(0, i));
    assert(p.last() == s[i]);
}

/// With no ignore set, stripping keeps the input unchanged.
pub proof fn lemma_strip_none(s: Seq<u8>)
    ensures
        strip(s, Option::None) == s,
    decreases s.len(),
{
    if s.len() != 0 {
        lemma_strip_none(s.drop_last());
        assert(s.drop_last().push(s.last()) =~= s);
    }
}

/// A single byte outside the ignore set survives stripping.
pub proof fn lemma_strip_single(c: u8, ig: Option<Seq<u8>>)
    requires
        !is_ignored(ig, c),
    ensures
        strip(seq![c], ig) == seq![c],
{
    let s = seq![c];
    assert(s.len() == 1);
    assert(s.last() == c);
    assert(s.drop_last() =~= Seq::<u8>::empty());
    assert(strip(s, ig) == strip(Seq::<u8>::empty(), ig).push(c));
    assert(strip(Seq::<u8>::empty(), ig) == Seq::<u8>::empty());
    assert(Seq::<u8>::empty().push(c) =~= seq![c]);
}

/// `strip` distributes over concatenation.
pub proof fn lemma_strip_add(x: Seq<u8>, y: Seq<u8>, ig: Option<Seq<u8>>)
    ensures
        strip(x + y, ig) == strip(x, ig) + strip(y, ig),
    decreases y.len(),
{
    if y.len() == 0 {
        assert(x + y =~= x);
        assert(strip(x, ig) + strip(y, ig) =~= strip(x, ig));
    } else {
        lemma_strip_add(x, y.drop_last(), ig);
        assert((x + y).drop_last() =~= x + y.drop_last());
        assert((x + y).last() == y.last());
        if !is_ignored(ig, y.last()) {
            assert((strip(x, ig) + strip(y.drop_last(), ig)).push(y.last()) =~= strip(x, ig)
                + strip(y.drop_last(), ig).push(y.last()));
        }
    }
}

} // verus!
