use vstd::prelude::*;

verus! {

/// Failure values reported by the decoders. A decode is a single linear
/// pass: the first failure aborts it and is handed to the caller.
#[derive(Clone, Copy, Debug, PartialEq, Eq, Structural)]
pub enum DecodeError {
    /// Bad magic bytes or an unsupported container version.
    FormatError,
    /// A read ran past the end of the stream.
    TruncatedInput,
    /// Non-UTF-8 string payload, an unknown type tag, an unregistered
    /// schema id, or a field shape that does not match its schema slot.
    InvalidEncoding,
    /// A field kind that is declared in the tag space but has no decoding
    /// (nested sequences, 3D vectors, signed 64-bit integers).
    UnsupportedFeature,
}

/// Failure values reported by the encoders.
#[derive(Clone, Copy, Debug, PartialEq, Eq, Structural)]
pub enum EncodeError {
    /// A string or a count is too large for its length prefix.
    TooLarge,
    /// The target container has no encoder (PHXM).
    Unsupported,
}

impl DecodeError {
    /// A human-readable description of the error.
    pub fn describe(&self) -> (r: &'static str)
        ensures
            r@.len() > 0,
    {
        proof {
            reveal_strlit("incorrect signature or unsupported version");
            reveal_strlit("unexpected end of stream");
            reveal_strlit("invalid encoding");
            reveal_strlit("unsupported field kind");
        }
        match self {
            DecodeError::FormatError => "incorrect signature or unsupported version",
            DecodeError::TruncatedInput => "unexpected end of stream",
            DecodeError::InvalidEncoding => "invalid encoding",
            DecodeError::UnsupportedFeature => "unsupported field kind",
        }
    }
}

} // verus!
