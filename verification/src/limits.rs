use vstd::prelude::*;

verus! {

/// Decode-time resource limits.
///
/// Every decode operation consults these bounds before allocating storage
/// or recursing, so that a malicious peer cannot exhaust memory or stack
/// by declaring an enormous array length or nesting containers deeply.
#[derive(Clone, Copy, Debug, PartialEq, Eq, Structural)]
pub struct DecodingLimits {
    /// Largest accepted byte length of a string or byte-string body.
    pub max_string_length: usize,
    /// Largest accepted element count of an array.
    pub max_array_length: usize,
    /// Largest accepted total size of a message buffer.
    pub max_message_size: usize,
    /// Deepest accepted nesting of structured records reached during a
    /// single decode call.
    pub max_nesting_level: usize,
}

impl DecodingLimits {
    /// Builds a limits value with the given bounds.
    pub fn new(
        max_string_length: usize,
        max_array_length: usize,
        max_message_size: usize,
        max_nesting_level: usize,
    ) -> (r: DecodingLimits)
        ensures
            r.max_string_length == max_string_length,
            r.max_array_length == max_array_length,
            r.max_message_size == max_message_size,
            r.max_nesting_level == max_nesting_level,
    {
        DecodingLimits { max_string_length, max_array_length, max_message_size, max_nesting_level }
    }
}

} // verus!
