//! The Base64 codecs: standard and URL-safe alphabets, each with and
//! without padding.

use vstd::prelude::*;
use crate::engine::{engine_decode, engine_encode, engine_encoded_len};
use crate::error::Error;
use crate::variant::{Alphabet, Variant};
use crate::{Decoder, Encoder};

verus! {

/// Selector for the four Base64 configurations.
#[derive(Debug, Copy, Clone, Eq, PartialEq, Structural)]
pub enum Base64Variant {
    /// Standard alphabet, padded.
    Original,
    /// Standard alphabet, no padding.
    OriginalNoPadding,
    /// URL-safe alphabet, padded.
    UrlSafe,
    /// URL-safe alphabet, no padding.
    UrlSafeNoPadding,
}

impl Base64Variant {
    /// The engine configuration this selector stands for.
    pub open spec fn spec_config(self) -> Variant {
        match self {
            Base64Variant::Original => Variant {
                alphabet: Alphabet::Base64Standard,
                padded: true,
            },
            Base64Variant::OriginalNoPadding => Variant {
                alphabet: Alphabet::Base64Standard,
                padded: false,
            },
            Base64Variant::UrlSafe => Variant { alphabet: Alphabet::Base64UrlSafe, padded: true },
            Base64Variant::UrlSafeNoPadding => Variant {
                alphabet: Alphabet::Base64UrlSafe,
                padded: false,
            },
        }
    }

    /// The engine configuration, as a value.
    pub fn config(self) -> (r: Variant)
        ensures
            r == self.spec_config(),
    {
        match self {
            Base64Variant::Original => Variant { alphabet: Alphabet::Base64Standard, padded: true },
            Base64Variant::OriginalNoPadding => Variant {
                alphabet: Alphabet::Base64Standard,
                padded: false,
            },
            Base64Variant::UrlSafe => Variant { alphabet: Alphabet::Base64UrlSafe, padded: true },
            Base64Variant::UrlSafeNoPadding => Variant {
                alphabet: Alphabet::Base64UrlSafe,
                padded: false,
            },
        }
    }
}

/// The shared Base64 engine entry points.
pub struct Base64Impl;

impl Base64Impl {
    /// Exact encoded length of `bin_len` bytes under `variant`.
    pub fn encoded_len(bin_len: usize, variant: Base64Variant) -> (r: Result<usize, Error>)
        ensures
            match r {
                Ok(l) => l == crate::model::encoded_len_spec(variant.spec_config(), bin_len as nat),
                Err(e) => e == Error::Overflow && crate::model::encoded_len_spec(
                    variant.spec_config(),
                    bin_len as nat,
                ) > usize::MAX,
            },
    {
        engine_encoded_len(bin_len, variant.config())
    }

    /// Encode `bin` into a prefix of `b64` under `variant`.
    pub fn encode<'a>(b64: &'a mut [u8], bin: &[u8], variant: Base64Variant) -> (r: Result<
        &'a [u8],
        Error,
    >)
        ensures
            final(b64)@.len() == old(b64)@.len(),
            match r {
                Ok(s) => {
                    &&& crate::model::encoded_len_spec(variant.spec_config(), bin@.len()) <= old(
                        b64,
                    )@.len()
                    &&& s@ == crate::model::encode_spec(variant.spec_config(), bin@)
                    &&& final(b64)@.subrange(
                        0,
                        crate::model::encoded_len_spec(variant.spec_config(), bin@.len()),
                    ) == crate::model::encode_spec(variant.spec_config(), bin@)
                    &&& final(b64)@.skip(
                        crate::model::encoded_len_spec(variant.spec_config(), bin@.len()),
                    ) == old(b64)@.skip(
                        crate::model::encoded_len_spec(variant.spec_config(), bin@.len()),
                    )
                },
                Err(e) => {
                    &&& e == Error::Overflow
                    &&& crate::model::encoded_len_spec(variant.spec_config(), bin@.len()) > old(
                        b64,
                    )@.len()
                    &&& final(b64)@ == old(b64)@
                },
            },
    {
        engine_encode(b64, bin, variant.config())
    }

    /// Decode `b64` into a prefix of `bin` under `variant`.
    pub fn decode<'a>(
        bin: &'a mut [u8],
        b64: &[u8],
        ignore: Option<&[u8]>,
        variant: Base64Variant,
    ) -> (r: Result<&'a [u8], Error>)
        ensures
            final(bin)@.len() == old(bin)@.len(),
            match r {
                Ok(s) => {
                    &&& crate::model::decode_result(
                        variant.spec_config(),
                        b64@,
                        crate::model::ig_view(ignore),
                        old(bin)@.len(),
                    ) == Result::<_, Error>::Ok(s@)
                    &&& s@.len() <= old(bin)@.len()
                    &&& s@ == final(bin)@.subrange(0, s@.len() as int)
                    &&& final(bin)@.skip(s@.len() as int) == old(bin)@.skip(s@.len() as int)
                },
                Err(e) => crate::model::decode_result(
                    variant.spec_config(),
                    b64@,
                    crate::model::ig_view(ignore),
                    old(bin)@.len(),
                ) == Result::<Seq<u8>, Error>::Err(e),
            },
    {
        engine_decode(bin, b64, ignore, variant.config())
    }
}

/// Base64 with the standard alphabet and padding.
pub struct Base64;

/// Base64 with the standard alphabet, without padding.
pub struct Base64NoPadding;

/// Base64 with the URL-safe alphabet and padding.
pub struct Base64UrlSafe;

/// Base64 with the URL-safe alphabet, without padding.
pub struct Base64UrlSafeNoPadding;

impl Encoder for Base64 {
    open spec fn spec_variant() -> Variant {
        Variant { alphabet: Alphabet::Base64Standard, padded: true }
    }

    fn encoded_len(bin_len: usize) -> Result<usize, Error> {
        Base64Impl::encoded_len(bin_len, Base64Variant::Original)
    }

    fn encode<'a>(encoded: &'a mut [u8], bin: &[u8]) -> Result<&'a [u8], Error> {
        Base64Impl::encode(encoded, bin, Base64Variant::Original)
    }
}

impl Decoder for Base64 {
    open spec fn spec_variant() -> Variant {
        Variant { alphabet: Alphabet::Base64Standard, padded: true }
    }

    fn decode<'a>(bin: &'a mut [u8], encoded: &[u8], ignore: Option<&[u8]>) -> Result<
        &'a [u8],
        Error,
    > {
        Base64Impl::decode(bin, encoded, ignore, Base64Variant::Original)
    }
}

impl Encoder for Base64NoPadding {
    open spec fn spec_variant() -> Variant {
        Variant { alphabet: Alphabet::Base64Standard, padded: false }
    }

    fn encoded_len(bin_len: usize) -> Result<usize, Error> {
        Base64Impl::encoded_len(bin_len, Base64Variant::OriginalNoPadding)
    }

    fn encode<'a>(encoded: &'a mut [u8], bin: &[u8]) -> Result<&'a [u8], Error> {
        Base64Impl::encode(encoded, bin, Base64Variant::OriginalNoPadding)
    }
}

impl Decoder for Base64NoPadding {
    open spec fn spec_variant() -> Variant {
        Variant { alphabet: Alphabet::Base64Standard, padded: false }
    }

    fn decode<'a>(bin: &'a mut [u8], encoded: &[u8], ignore: Option<&[u8]>) -> Result<
        &'a [u8],
        Error,
    > {
        Base64Impl::decode(bin, encoded, ignore, Base64Variant::OriginalNoPadding)
    }
}

impl Encoder for Base64UrlSafe {
    open spec fn spec_variant() -> Variant {
        Variant { alphabet: Alphabet::Base64UrlSafe, padded: true }
    }

    fn encoded_len(bin_len: usize) -> Result<usize, Error> {
        Base64Impl::encoded_len(bin_len, Base64Variant::UrlSafe)
    }

    fn encode<'a>(encoded: &'a mut [u8], bin: &[u8]) -> Result<&'a [u8], Error> {
        Base64Impl::encode(encoded, bin, Base64Variant::UrlSafe)
    }
}

impl Decoder for Base64UrlSafe {
    open spec fn spec_variant() -> Variant {
        Variant { alphabet: Alphabet::Base64UrlSafe, padded: true }
    }

    fn decode<'a>(bin: &'a mut [u8], encoded: &[u8], ignore: Option<&[u8]>) -> Result<
        &'a [u8],
        Error,
    > {
        Base64Impl::decode(bin, encoded, ignore, Base64Variant::UrlSafe)
    }
}

impl Encoder for Base64UrlSafeNoPadding {
    open spec fn spec_variant() -> Variant {
        Variant { alphabet: Alphabet::Base64UrlSafe, padded: false }
    }

    fn encoded_len(bin_len: usize) -> Result<usize, Error> {
        Base64Impl::encoded_len(bin_len, Base64Variant::UrlSafeNoPadding)
    }

    fn encode<'a>(encoded: &'a mut [u8], bin: &[u8]) -> Result<&'a [u8], Error> {
        Base64Impl::encode(encoded, bin, Base64Variant::UrlSafeNoPadding)
    }
}

impl Decoder for Base64UrlSafeNoPadding {
    open spec fn spec_variant() -> Variant {
        Variant { alphabet: Alphabet::Base64UrlSafe, padded: false }
    }

    fn decode<'a>(bin: &'a mut [u8], encoded: &[u8], ignore: Option<&[u8]>) -> Result<
        &'a [u8],
        Error,
    > {
        Base64Impl::decode(bin, encoded, ignore, Base64Variant::UrlSafeNoPadding)
    }
}

} // verus!
