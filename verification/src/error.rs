use vstd::prelude::*;

verus! {

/// Why a JSON tree is not a document of this format.
#[derive(Copy, Clone, Debug, PartialEq, Eq, Structural)]
pub enum SchemaError {
    /// An object lacks a key that the format requires.
    Missing,
    /// A value has another shape than the format gives it: a text where a
    /// number belongs, a number with a fraction where an integer belongs,
    /// anything but an object where an object belongs.
    Mistyped,
    /// An integer does not fit in 32 bits.
    OutOfRange,
}

/// Why a value has no JSON tree.
#[derive(Copy, Clone, Debug, PartialEq, Eq, Structural)]
pub enum EncodeError {
    /// One of its numbers is infinite or NaN, and JSON has no such number.
    NonFinite,
}

/// Why a text is not a document of this format.
#[derive(Debug)]
pub enum DecodeError {
    /// The text is not JSON. The parser's own account is carried along.
    Syntax(serde_json::Error),
    /// The text is JSON of another shape than the format's.
    Schema(SchemaError),
}

} // verus!
