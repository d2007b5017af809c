use vstd::prelude::*;

verus! {

/// The error kinds of the collector: device I/O trouble, text-decoding
/// failure, and anything uncategorized.
#[derive(Debug, PartialEq, Eq)]
pub enum CollectorError {
    /// I/O related errors
    Io(String),
    /// Conversion errors
    Conversion(String),
    /// Unknown errors
    Unknown(String),
}

} // verus!
