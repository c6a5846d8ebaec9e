//! Constant-time codecs: Base64 (standard and URL-safe, padded and
//! unpadded), Base32 (standard and extended-hex alphabets, padded and
//! unpadded), and hexadecimal.
//!
//! Every decision over a data byte is made with branchless mask
//! arithmetic, so that execution time and memory access patterns depend
//! only on input lengths, never on input contents.  Decoding is strict:
//! characters outside the alphabet (and outside a caller-supplied ignore
//! set), non-zero trailing bits, and wrong padding are rejected, so that
//! an encoded value has no accepted malleable forms.
//!
//! The contracts of every encoder and decoder are stated against the
//! mathematical models in [`model`]: [`model::encode_spec`] gives the
//! exact encoded text and [`model::decode_result`] the exact decoding
//! outcome, error cases included.

use vstd::prelude::*;

pub mod base32;
pub mod base64;
pub mod bitstream;
mod chars;
mod engine;
pub mod error;
pub mod hex;
pub mod laws;
mod mask;
pub mod model;
mod strings;
pub mod variant;

pub use base32::{Base32, Base32Hex, Base32HexNoPadding, Base32NoPadding};
pub use base64::{Base64, Base64NoPadding, Base64UrlSafe, Base64UrlSafeNoPadding};
pub use error::Error;
pub use hex::Hex;
pub use variant::{Alphabet, Variant};

use crate::model::{ascii_view, decode_result, encode_spec, encoded_len_spec, ig_view};

verus! {

/// Encoding binary data into a text representation.
///
/// Implementors fix one [`Variant`]; every method's contract is stated
/// against [`encode_spec`] for that variant.
pub trait Encoder {
    /// The variant this encoder implements.
    spec fn spec_variant() -> Variant;

    /// The exact length of the encoding of `bin_len` bytes, or
    /// `Overflow` when that length does not fit in `usize`.
    fn encoded_len(bin_len: usize) -> (r: Result<usize, Error>)
        ensures
            match r {
                Ok(l) => l == encoded_len_spec(Self::spec_variant(), bin_len as nat),
                Err(e) => e == Error::Overflow && encoded_len_spec(
                    Self::spec_variant(),
                    bin_len as nat,
                ) > usize::MAX,
            },
    ;

    /// Encode `bin` into a prefix of `encoded` and return that prefix.
    ///
    /// The returned slice is exactly `encode_spec` of the input; bytes of
    /// `encoded` past it keep their old values.  Fails with `Overflow`,
    /// writing nothing, exactly when `encoded` is shorter than the
    /// encoded length.
    fn encode<'a>(encoded: &'a mut [u8], bin: &[u8]) -> (r: Result<&'a [u8], Error>)
        ensures
            final(encoded)@.len() == old(encoded)@.len(),
            match r {
                Ok(s) => {
                    &&& encoded_len_spec(Self::spec_variant(), bin@.len()) <= old(encoded)@.len()
                    &&& s@ == encode_spec(Self::spec_variant(), bin@)
                    &&& final(encoded)@.subrange(
                        0,
                        encoded_len_spec(Self::spec_variant(), bin@.len()),
                    ) == encode_spec(Self::spec_variant(), bin@)
                    &&& final(encoded)@.skip(encoded_len_spec(Self::spec_variant(), bin@.len()))
                        == old(encoded)@.skip(encoded_len_spec(Self::spec_variant(), bin@.len()))
                },
                Err(e) => {
                    &&& e == Error::Overflow
                    &&& encoded_len_spec(Self::spec_variant(), bin@.len()) > old(encoded)@.len()
                    &&& final(encoded)@ == old(encoded)@
                },
            },
    ;

    /// Encode `bin` and return the written prefix as text.
    fn encode_to_str<'a>(encoded: &'a mut [u8], bin: &[u8]) -> (r: Result<&'a str, Error>)
        ensures
            final(encoded)@.len() == old(encoded)@.len(),
            match r {
                Ok(s) => s@ == ascii_view(encode_spec(Self::spec_variant(), bin@)),
                Err(e) => {
                    &&& e == Error::Overflow
                    &&& encoded_len_spec(Self::spec_variant(), bin@.len()) > old(encoded)@.len()
                    &&& final(encoded)@ == old(encoded)@
                },
            },
    {
        let s = match Self::encode(encoded, bin) {
            Ok(s) => s,
            Err(e) => {
                return Err(e);
            },
        };
        proof {
            crate::model::lemma_encode_ascii(Self::spec_variant(), bin@);
        }
        Ok(crate::strings::ascii_str(s))
    }

    /// Encode `bin` into a freshly allocated string.
    fn encode_to_string(bin: &[u8]) -> (r: Result<String, Error>)
        ensures
            match r {
                Ok(s) => s@ == ascii_view(encode_spec(Self::spec_variant(), bin@)),
                Err(e) => e == Error::Overflow && encoded_len_spec(
                    Self::spec_variant(),
                    bin@.len(),
                ) > usize::MAX,
            },
    {
        let l = match Self::encoded_len(bin.len()) {
            Ok(l) => l,
            Err(e) => {
                return Err(e);
            },
        };
        let mut buf: Vec<u8> = vec![0u8; l];
        let written = match Self::encode(buf.as_mut_slice(), bin) {
            Ok(s) => s.len(),
            Err(_) => {
                return Err(Error::Overflow);
            },
        };
        buf.truncate(written);
        proof {
            crate::model::lemma_encode_ascii(Self::spec_variant(), bin@);
            assert(buf@.subrange(0, written as int) =~= buf@);
        }
        Ok(crate::strings::ascii_string(buf))
    }
}

/// Decoding a text representation back into binary data.
///
/// Implementors fix one [`Variant`]; the outcome of every method is
/// exactly [`decode_result`] for that variant.
pub trait Decoder {
    /// The variant this decoder implements.
    spec fn spec_variant() -> Variant;

    /// Decode `encoded` into a prefix of `bin` and return that prefix,
    /// skipping bytes of `ignore`.
    ///
    /// The outcome — the decoded prefix, or the error — is exactly
    /// `decode_result` for this variant, the input, the ignore set, and
    /// the buffer size.
    fn decode<'a>(bin: &'a mut [u8], encoded: &[u8], ignore: Option<&[u8]>) -> (r: Result<
        &'a [u8],
        Error,
    >)
        ensures
            final(bin)@.len() == old(bin)@.len(),
            match r {
                Ok(s) => {
                    &&& decode_result(
                        Self::spec_variant(),
                        encoded@,
                        ig_view(ignore),
                        old(bin)@.len(),
                    ) == Result::<_, Error>::Ok(s@)
                    &&& s@.len() <= old(bin)@.len()
                    &&& s@ == final(bin)@.subrange(0, s@.len() as int)
                    &&& final(bin)@.skip(s@.len() as int) == old(bin)@.skip(s@.len() as int)
                },
                Err(e) => decode_result(
                    Self::spec_variant(),
                    encoded@,
                    ig_view(ignore),
                    old(bin)@.len(),
                ) == Result::<Seq<u8>, Error>::Err(e),
            },
    ;

    /// Decode `encoded` into a freshly allocated byte vector.
    fn decode_to_vec(encoded: &[u8], ignore: Option<&[u8]>) -> (r: Result<Vec<u8>, Error>)
        ensures
            match r {
                Ok(ve) => decode_result(
                    Self::spec_variant(),
                    encoded@,
                    ig_view(ignore),
                    encoded@.len(),
                ) == Result::<_, Error>::Ok(ve@),
                Err(e) => decode_result(
                    Self::spec_variant(),
                    encoded@,
                    ig_view(ignore),
                    encoded@.len(),
                ) == Result::<Seq<u8>, Error>::Err(e),
            },
    {
        let mut bin: Vec<u8> = vec![0u8; encoded.len()];
        let written = match Self::decode(bin.as_mut_slice(), encoded, ignore) {
            Ok(s) => s.len(),
            Err(e) => {
                return Err(e);
            },
        };
        bin.truncate(written);
        Ok(bin)
    }
}

/// Constant-time equality check for two byte slices.
///
/// Returns `true` exactly when the two slices have the same length and
/// the same contents; the comparison inspects every byte pair without a
/// data-dependent branch.
pub fn verify(x: &[u8], y: &[u8]) -> (r: bool)
    ensures
        r == (x@ == y@),
{
    if x.len() != y.len() {
        proof {
            assert(x@.len() != y@.len());
        }
        return false;
    }
    let n = x.len();
    let mut v: u32 = 0;
    // Mix both inputs through a scrambling pass first, so that a compiler
    // cannot collapse the comparison below into an early-exit loop.
    let mut h1: u32 = 0;
    let mut h2: u32 = 0;
    let mut i: usize = 0;
    while i < n
        invariant
            n == x@.len() == y@.len(),
            0 <= i <= n,
            (forall|j: int| 0 <= j < i ==> x@[j] == y@[j]) ==> h1 == h2,
        decreases n - i,
    {
        let b1 = x[i];
        let b2 = y[i];
        h1 = h1 ^ (h1 << 5u32).wrapping_add((h1 >> 2u32) ^ (b1 as u32));
        h2 = h2 ^ (h2 << 5u32).wrapping_add((h2 >> 2u32) ^ (b2 as u32));
        i += 1;
    }
    proof {
        assert((h1 ^ h2) == 0 <==> h1 == h2) by (bit_vector);
        assert((0u32 | (h1 ^ h2)) == (h1 ^ h2)) by (bit_vector);
    }
    v = v | (h1 ^ h2);
    let ghost v0 = v;
    let mut i: usize = 0;
    while i < n
        invariant
            n == x@.len() == y@.len(),
            0 <= i <= n,
            (forall|j: int| 0 <= j < n ==> x@[j] == y@[j]) ==> h1 == h2,
            v0 == 0 <==> h1 == h2,
            v == 0 <==> (v0 == 0 && (forall|j: int| 0 <= j < i ==> x@[j] == y@[j])),
        decreases n - i,
    {
        let xi = x[i];
        let yi = y[i];
        let d = (xi ^ yi) as u32;
        proof {
            assert(d == 0 <==> xi == yi) by (bit_vector)
                requires
                    d == (xi ^ yi) as u32,
            ;
            assert((v | d) == 0 <==> v == 0 && d == 0) by (bit_vector);
        }
        v = v | d;
        i += 1;
    }
    proof {
        if v == 0 {
            assert(x@ =~= y@);
        }
        if x@ == y@ {
            assert(forall|j: int| 0 <= j < n ==> x@[j] == y@[j]);
        }
    }
    v == 0
}

} // verus!
