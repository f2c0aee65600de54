use vstd::prelude::*;

verus! {

/// The ways an encode or decode operation can fail.
///
/// All failures are reported to the immediate caller as a typed value;
/// decoding malformed or truncated input never panics.
#[derive(Clone, Copy, Debug, PartialEq, Eq, Structural)]
pub enum EncodingError {
    /// Fewer bytes were available than the field requires.
    UnexpectedEndOfStream,
    /// A length field is negative but not the absent sentinel.
    InvalidLength,
    /// An array length, string length, message size, or nesting depth
    /// exceeds the configured `DecodingLimits`.
    LimitExceeded,
    /// A polymorphic container's identifier has no registered handler.
    UnknownTypeIdentifier,
    /// An encoding-kind byte lies outside the defined set.
    MalformedEncoding,
    /// The underlying byte sink or source failed.
    IoFailure,
}

} // verus!
