//! Errors of encoding and decoding.
use vstd::prelude::*;

verus! {

/// Why an encode or a decode call stopped.
///
/// Every error is terminal for the call that raised it: no partial result is
/// produced.
#[derive(Debug, Clone, PartialEq, Eq)]
pub enum Error {
    /// The dynamic value's kind cannot satisfy the requested shape.
    TypeMismatch,
    /// An integer does not fit the requested integer type.
    Overflow,
    /// An integer lies outside the safe range and big integers are off.
    UnrepresentableInteger,
    /// A map key did not encode to a string while maps become plain objects.
    NonStringMapKey,
    /// A collection held the given number of entries where another was needed.
    InvalidLength(usize),
    /// An enum tag names no variant of the requested enum.
    UnknownVariant,
    /// No variant of an untagged enum accepts the value.
    NoVariantMatched,
    /// A message raised by the consumer itself.
    Custom(String),
}

impl Error {
    /// An error that carries a free-form message.
    pub fn new(msg: &str) -> (r: Error)
        ensures
            r is Custom,
            r->Custom_0@ == msg@,
    {
        Error::Custom(msg.to_owned())
    }
}

} // verus!
