//! The Base32 codecs: standard and extended-hex alphabets, each with and
//! without padding.

use vstd::prelude::*;
use crate::engine::{engine_decode, engine_encode, engine_encoded_len};
use crate::error::Error;
use crate::variant::{Alphabet, Variant};
use crate::{Decoder, Encoder};

verus! {

/// Selector for the four Base32 configurations.
#[derive(Debug, Copy, Clone, Eq, PartialEq, Structural)]
pub enum Base32Variant {
    /// Standard alphabet, padded.
    Standard,
    /// Standard alphabet, no padding.
    StandardNoPadding,
    /// Extended-hex alphabet, padded.
    Hex,
    /// Extended-hex alphabet, no padding.
    HexNoPadding,
}

impl Base32Variant {
    /// The engine configuration this selector stands for.
    pub open spec fn spec_config(self) -> Variant {
        match self {
            Base32Variant::Standard => Variant {
                alphabet: Alphabet::Base32Standard,
                padded: true,
            },
            Base32Variant::StandardNoPadding => Variant {
                alphabet: Alphabet::Base32Standard,
                padded: false,
            },
            Base32Variant::Hex => Variant { alphabet: Alphabet::Base32ExtendedHex, padded: true },
            Base32Variant::HexNoPadding => Variant {
                alphabet: Alphabet::Base32ExtendedHex,
                padded: false,
            },
        }
    }

    /// The engine configuration, as a value.
    pub fn config(self) -> (r: Variant)
        ensures
            r == self.spec_config(),
    {
        match self {
            Base32Variant::Standard => Variant {
                alphabet: Alphabet::Base32Standard,
                padded: true,
            },
            Base32Variant::StandardNoPadding => Variant {
                alphabet: Alphabet::Base32Standard,
                padded: false,
            },
            Base32Variant::Hex => Variant { alphabet: Alphabet::Base32ExtendedHex, padded: true },
            Base32Variant::HexNoPadding => Variant {
                alphabet: Alphabet::Base32ExtendedHex,
                padded: false,
            },
        }
    }
}

/// The shared Base32 engine entry points.
pub struct Base32Impl;

impl Base32Impl {
    /// Exact encoded length of `bin_len` bytes under `variant`.
    pub fn encoded_len(bin_len: usize, variant: Base32Variant) -> (r: Result<usize, Error>)
        ensures
            match r {
                Ok(l) => l == crate::model::encoded_len_spec(variant.spec_config(), bin_len as nat),
                Err(e) => e == Error::Overflow && crate::model::encoded_len_spec(
                    variant.spec_config(),
                    bin_len as nat,
                ) > usize::MAX,
            },
    {
        engine_encoded_len(bin_len, variant.config())
    }

    /// Encode `bin` into a prefix of `b32` under `variant`.
    pub fn encode<'a>(b32: &'a mut [u8], bin: &[u8], variant: Base32Variant) -> (r: Result<
        &'a [u8],
        Error,
    >)
        ensures
            final(b32)@.len() == old(b32)@.len(),
            match r {
                Ok(s) => {
                    &&& crate::model::encoded_len_spec(variant.spec_config(), bin@.len()) <= old(
                        b32,
                    )@.len()
                    &&& s@ == crate::model::encode_spec(variant.spec_config(), bin@)
                    &&& final(b32)@.subrange(
                        0,
                        crate::model::encoded_len_spec(variant.spec_config(), bin@.len()),
                    ) == crate::model::encode_spec(variant.spec_config(), bin@)
                    &&& final(b32)@.skip(
                        crate::model::encoded_len_spec(variant.spec_config(), bin@.len()),
                    ) == old(b32)@.skip(
                        crate::model::encoded_len_spec(variant.spec_config(), bin@.len()),
                    )
                },
                Err(e) => {
                    &&& e == Error::Overflow
                    &&& crate::model::encoded_len_spec(variant.spec_config(), bin@.len()) > old(
                        b32,
                    )@.len()
                    &&& final(b32)@ == old(b32)@
                },
            },
    {
        engine_encode(b32, bin, variant.config())
    }

    /// Decode `b32` into a prefix of `bin` under `variant`.
    pub fn decode<'a>(
        bin: &'a mut [u8],
        b32: &[u8],
        ignore: Option<&[u8]>,
        variant: Base32Variant,
    ) -> (r: Result<&'a [u8], Error>)
        ensures
            final(bin)@.len() == old(bin)@.len(),
            match r {
                Ok(s) => {
                    &&& crate::model::decode_result(
                        variant.spec_config(),
                        b32@,
                        crate::model::ig_view(ignore),
                        old(bin)@.len(),
                    ) == Result::<_, Error>::Ok(s@)
                    &&& s@.len() <= old(bin)@.len()
                    &&& s@ == final(bin)@.subrange(0, s@.len() as int)
                    &&& final(bin)@.skip(s@.len() as int) == old(bin)@.skip(s@.len() as int)
                },
                Err(e) => crate::model::decode_result(
                    variant.spec_config(),
                    b32@,
                    crate::model::ig_view(ignore),
                    old(bin)@.len(),
                ) == Result::<Seq<u8>, Error>::Err(e),
            },
    {
        engine_decode(bin, b32, ignore, variant.config())
    }
}

/// Base32 with the standard alphabet and padding.
pub struct Base32;

/// Base32 with the standard alphabet, without padding.
pub struct Base32NoPadding;

/// Base32 with the extended-hex alphabet and padding.
pub struct Base32Hex;

/// Base32 with the extended-hex alphabet, without padding.
pub struct Base32HexNoPadding;

impl Encoder for Base32 {
    open spec fn spec_variant() -> Variant {
        Variant { alphabet: Alphabet::Base32Standard, padded: true }
    }

    fn encoded_len(bin_len: usize) -> Result<usize, Error> {
        Base32Impl::encoded_len(bin_len, Base32Variant::Standard)
    }

    fn encode<'a>(encoded: &'a mut [u8], bin: &[u8]) -> Result<&'a [u8], Error> {
        Base32Impl::encode(encoded, bin, Base32Variant::Standard)
    }
}

impl Decoder for Base32 {
    open spec fn spec_variant() -> Variant {
        Variant { alphabet: Alphabet::Base32Standard, padded: true }
    }

    fn decode<'a>(bin: &'a mut [u8], encoded: &[u8], ignore: Option<&[u8]>) -> Result<
        &'a [u8],
        Error,
    > {
        Base32Impl::decode(bin, encoded, ignore, Base32Variant::Standard)
    }
}

impl Encoder for Base32NoPadding {
    open spec fn spec_variant() -> Variant {
        Variant { alphabet: Alphabet::Base32Standard, padded: false }
    }

    fn encoded_len(bin_len: usize) -> Result<usize, Error> {
        Base32Impl::encoded_len(bin_len, Base32Variant::StandardNoPadding)
    }

    fn encode<'a>(encoded: &'a mut [u8], bin: &[u8]) -> Result<&'a [u8], Error> {
        Base32Impl::encode(encoded, bin, Base32Variant::StandardNoPadding)
    }
}

impl Decoder for Base32NoPadding {
    open spec fn spec_variant() -> Variant {
        Variant { alphabet: Alphabet::Base32Standard, padded: false }
    }

    fn decode<'a>(bin: &'a mut [u8], encoded: &[u8], ignore: Option<&[u8]>) -> Result<
        &'a [u8],
        Error,
    > {
        Base32Impl::decode(bin, encoded, ignore, Base32Variant::StandardNoPadding)
    }
}

impl Encoder for Base32Hex {
    open spec fn spec_variant() -> Variant {
        Variant { alphabet: Alphabet::Base32ExtendedHex, padded: true }
    }

    fn encoded_len(bin_len: usize) -> Result<usize, Error> {
        Base32Impl::encoded_len(bin_len, Base32Variant::Hex)
    }

    fn encode<'a>(encoded: &'a mut [u8], bin: &[u8]) -> Result<&'a [u8], Error> {
        Base32Impl::encode(encoded, bin, Base32Variant::Hex)
    }
}

impl Decoder for Base32Hex {
    open spec fn spec_variant() -> Variant {
        Variant { alphabet: Alphabet::Base32ExtendedHex, padded: true }
    }

    fn decode<'a>(bin: &'a mut [u8], encoded: &[u8], ignore: Option<&[u8]>) -> Result<
        &'a [u8],
        Error,
    > {
        Base32Impl::decode(bin, encoded, ignore, Base32Variant::Hex)
    }
}

impl Encoder for Base32HexNoPadding {
    open spec fn spec_variant() -> Variant {
        Variant { alphabet: Alphabet::Base32ExtendedHex, padded: false }
    }

    fn encoded_len(bin_len: usize) -> Result<usize, Error> {
        Base32Impl::encoded_len(bin_len, Base32Variant::HexNoPadding)
    }

    fn encode<'a>(encoded: &'a mut [u8], bin: &[u8]) -> Result<&'a [u8], Error> {
        Base32Impl::encode(encoded, bin, Base32Variant::HexNoPadding)
    }
}

impl Decoder for Base32HexNoPadding {
    open spec fn spec_variant() -> Variant {
        Variant { alphabet: Alphabet::Base32ExtendedHex, padded: false }
    }

    fn decode<'a>(bin: &'a mut [u8], encoded: &[u8], ignore: Option<&[u8]>) -> Result<
        &'a [u8],
        Error,
    > {
        Base32Impl::decode(bin, encoded, ignore, Base32Variant::HexNoPadding)
    }
}

} // verus!
