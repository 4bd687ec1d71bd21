use vstd::prelude::*;

verus! {

/// Why a message could not be decoded.
#[derive(Clone, Copy, Debug, PartialEq, Eq, Structural)]
pub enum DecodeError {
    /// The buffer ends before a field that must be read.
    BufferUnderrun,
    /// The bytes of a label are not valid UTF-8 text.
    InvalidLabelEncoding,
    /// A label length byte has its top two bits set (a compression pointer).
    UnsupportedCompression,
    /// The header's question count is not exactly one.
    MultipleQuestionsUnsupported,
}

} // verus!
