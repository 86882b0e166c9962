use vstd::prelude::*;

verus! {

/// Errors that can occur during tensor operations.
#[derive(Debug, PartialEq, Eq, Clone)]
pub enum TensorError {
    IdxOutOfBounds(String),
    WrongDims(String),
    InvalidShape(String),
    InvalidDim(String),
    SizeMismatch(String),
    BackendError(String),
    BroadcastError(String),
    ContiguityError(String),
    UnsupportedOperation(String),
    ConversionError(String),
    GradError(String),
}

/// Builds an owned error message from a literal.
pub fn msg(s: &str) -> (r: String)
    ensures
        r@ == s@,
{
    String::from_str(s)
}

} // verus!
