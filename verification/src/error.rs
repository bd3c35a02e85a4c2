//! The closed set of failure kinds that decoding a schema can produce.

use vstd::prelude::*;

verus! {

/// How decoding a schema from bytes can fail.
///
/// Every decode operation returns one of these on malformed input; decoding
/// never panics.  `UnexpectedEndOfBytes` is reserved for input that ran out
/// before a complete node was read, so truncation is always distinguishable
/// from every other failure.
#[derive(Debug)]
pub enum SpecParsingError {
    /// An underlying byte-source failure other than clean end of input;
    /// decoding from a slice raises it when the length-prefixed bytes of a
    /// name do not hold valid UTF-8.
    ReadError,
    /// The input ended before a complete node could be decoded.
    UnexpectedEndOfBytes,
    /// A top-level tag byte outside the general-or-alias tag table.
    UnknownSpecFlag(u8),
    /// A binary floating-point format byte outside its closed enumeration.
    UnknownBinaryFormatFlag(u8),
    /// A decimal floating-point format byte outside its closed enumeration.
    UnknownDecimalFormatFlag(u8),
    /// A string-encoding format byte outside its closed enumeration.
    UnknownStringFormatFlag(u8),
    /// A size-qualifier byte other than the fixed or variable marker.
    UnknownSizeFormatFlag(u8),
    /// A variable-length integer encoded a value beyond `u64`; the raw,
    /// undecoded bytes are kept for diagnostics.
    IntegerOverflowVariableLengthDecodingError(Vec<u8>),
}

/// The mathematical counterpart of [`SpecParsingError`], used by the
/// specification-level parser: the overflow payload becomes a byte sequence.
pub enum SpecParsingErrorView {
    ReadError,
    UnexpectedEndOfBytes,
    UnknownSpecFlag(u8),
    UnknownBinaryFormatFlag(u8),
    UnknownDecimalFormatFlag(u8),
    UnknownStringFormatFlag(u8),
    UnknownSizeFormatFlag(u8),
    IntegerOverflowVariableLengthDecodingError(Seq<u8>),
}

impl View for SpecParsingError {
    type V = SpecParsingErrorView;

    open spec fn view(&self) -> SpecParsingErrorView {
        match self {
            SpecParsingError::ReadError => SpecParsingErrorView::ReadError,
            SpecParsingError::UnexpectedEndOfBytes => SpecParsingErrorView::UnexpectedEndOfBytes,
            SpecParsingError::UnknownSpecFlag(b) => SpecParsingErrorView::UnknownSpecFlag(*b),
            SpecParsingError::UnknownBinaryFormatFlag(b) => SpecParsingErrorView::UnknownBinaryFormatFlag(
                *b,
            ),
            SpecParsingError::UnknownDecimalFormatFlag(b) => SpecParsingErrorView::UnknownDecimalFormatFlag(
                *b,
            ),
            SpecParsingError::UnknownStringFormatFlag(b) => SpecParsingErrorView::UnknownStringFormatFlag(
                *b,
            ),
            SpecParsingError::UnknownSizeFormatFlag(b) => SpecParsingErrorView::UnknownSizeFormatFlag(
                *b,
            ),
            SpecParsingError::IntegerOverflowVariableLengthDecodingError(raw) => SpecParsingErrorView::IntegerOverflowVariableLengthDecodingError(
                raw@,
            ),
        }
    }
}

} // verus!
