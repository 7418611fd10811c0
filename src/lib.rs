//! Conversion between a typed data model and a dynamic host value.
//!
//! [`ser`] turns a [`Data`] tree into a [`HostValue`]; [`de`] answers the
//! requests of a decoding consumer against a [`HostValue`], one request shape
//! at a time or a whole [`de::Shape`] at once. [`laws`] proves how the two
//! relate (decoding an encoding gives the data back; encodings stringify as
//! a JSON encoder writes the data), [`json`] describes both JSON texts, and
//! [`records`] holds the record types of the sample payloads.
use vstd::prelude::*;

pub mod de;
pub mod error;
pub mod json;
pub mod laws;
pub mod records;
pub mod ser;
pub mod value;

pub use de::{Deserializer, Shape, VariantShape};
pub use error::Error;
pub use ser::Serializer;
pub use value::{Data, HostValue, Num};

verus! {

/// Decodes a dynamic host value as the requested shape.
pub fn from_value(value: HostValue, shape: &Shape) -> (r: Result<Data, Error>)
    ensures
        de::dec_result(value, *shape, r),
{
    Deserializer::from(value).deserialize(shape)
}

/// Encodes typed data with the default settings: maps become native maps,
/// and integers outside the safe range fail.
pub fn to_value(value: &Data) -> (r: Result<HostValue, Error>)
    ensures
        ser::enc_result(*value, Serializer::spec_default(), r),
{
    Serializer::new().serialize(value)
}

} // verus!
