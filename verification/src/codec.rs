//! Codec selection: which decompression is applied to every loaded file.
use vstd::prelude::*;
use crate::errors::RavroError;

verus! {

/// The supported per-file decompression codecs.
#[derive(Debug, Clone, Copy, PartialEq, Eq, Structural)]
pub enum Codec {
    /// No compression: bytes pass through unchanged.
    Null,
    /// RFC 1951 deflate, applied to the whole file's bytes.
    Deflate,
}

/// Selects the codec from the configured name: no name means no compression,
/// `"deflate"` selects deflate, and any other name fails fast before any
/// decompression is attempted — it is never silently ignored.
pub fn parse_codec(codec: &Option<String>) -> (r: Result<Codec, RavroError>)
    ensures
        match *codec {
            Option::None => r == Ok::<Codec, RavroError>(Codec::Null),
            Option::Some(c) => if c@ == "deflate"@ {
                r == Ok::<Codec, RavroError>(Codec::Deflate)
            } else {
                r == Err::<Codec, RavroError>(RavroError::UnknownCodec(c))
            },
        },
{
    match codec {
        Option::None => Ok(Codec::Null),
        Option::Some(c) => {
            let deflate = "deflate".to_owned();
            if c.eq(&deflate) {
                Ok(Codec::Deflate)
            } else {
                Err(RavroError::UnknownCodec(c.clone()))
            }
        },
    }
}

} // verus!
