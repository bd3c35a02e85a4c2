//! The closed descriptor enumerations that schema nodes carry: size
//! qualifiers, string character encodings, and binary / decimal
//! floating-point interchange formats.
//!
//! Each descriptor owns a one-byte wire form (`Size::Fixed` adds a
//! variable-length integer for its bound), and a byte outside the closed set
//! fails with the descriptor's own unknown-flag error.

use vstd::prelude::*;

use crate::error::SpecParsingError;
use crate::error::SpecParsingErrorView;
use crate::varint::encode_varint_u64;
use crate::varint::decode_varint_u64;
use crate::varint::parse_u64;
use crate::varint::varint_bytes;

verus! {

/// Whether a container, string or byte-buffer schema declares a fixed
/// element count or leaves its length variable.
#[derive(Debug, Hash, PartialEq, Eq, Structural, Clone)]
pub enum Size {
    Fixed(u64),
    Variable,
}

/// The character encoding a `String` schema declares for its text payload.
#[derive(Debug, Hash, PartialEq, Eq, Structural, Clone)]
pub enum StringEncodingFmt {
    Utf8,
    Utf16,
    Ascii,
}

/// An IEEE-754-style binary floating-point interchange format.
#[derive(Debug, Hash, PartialEq, Eq, Structural, Clone)]
pub enum InterchangeBinaryFloatingPointFormat {
    Half,
    Single,
    Double,
    Quadruple,
    Octuple,
}

/// A decimal floating-point interchange format.
#[derive(Debug, Hash, PartialEq, Eq, Structural, Clone)]
pub enum InterchangeDecimalFloatingPointFormat {
    Dec32,
    Dec64,
    Dec128,
}

impl Default for StringEncodingFmt {
    /// UTF-8 is the preferred encoding, and the one the compact codec
    /// rewards with an alias byte.
    fn default() -> (r: Self)
        ensures
            r == StringEncodingFmt::Utf8,
    {
        StringEncodingFmt::Utf8
    }
}

/// The wire form of a size qualifier: a fixed bound is the marker byte 0
/// followed by the bound, a variable length is the single marker byte 1.
pub open spec fn size_bytes(s: Size) -> Seq<u8> {
    match s {
        Size::Fixed(n) => seq![0u8] + varint_bytes(n as nat),
        Size::Variable => seq![1u8],
    }
}

/// Reads one size qualifier from the front of `bytes`.
pub open spec fn parse_size(bytes: Seq<u8>) -> Result<(Size, int), SpecParsingErrorView> {
    if bytes.len() == 0 {
        Err(SpecParsingErrorView::UnexpectedEndOfBytes)
    } else if bytes[0] == 0 {
        match parse_u64(bytes.skip(1)) {
            Ok((n, used)) => Ok((Size::Fixed(n), 1 + used)),
            Err(e) => Err(e),
        }
    } else if bytes[0] == 1 {
        Ok((Size::Variable, 1))
    } else {
        Err(SpecParsingErrorView::UnknownSizeFormatFlag(bytes[0]))
    }
}

/// The discriminant byte of a binary floating-point format.
pub open spec fn binary_fp_byte(f: InterchangeBinaryFloatingPointFormat) -> u8 {
    match f {
        InterchangeBinaryFloatingPointFormat::Half => 0,
        InterchangeBinaryFloatingPointFormat::Single => 1,
        InterchangeBinaryFloatingPointFormat::Double => 2,
        InterchangeBinaryFloatingPointFormat::Quadruple => 3,
        InterchangeBinaryFloatingPointFormat::Octuple => 4,
    }
}

/// Reads one binary floating-point format byte from the front of `bytes`.
pub open spec fn parse_binary_fp(bytes: Seq<u8>) -> Result<
    (InterchangeBinaryFloatingPointFormat, int),
    SpecParsingErrorView,
> {
    if bytes.len() == 0 {
        Err(SpecParsingErrorView::UnexpectedEndOfBytes)
    } else if bytes[0] == 0 {
        Ok((InterchangeBinaryFloatingPointFormat::Half, 1))
    } else if bytes[0] == 1 {
        Ok((InterchangeBinaryFloatingPointFormat::Single, 1))
    } else if bytes[0] == 2 {
        Ok((InterchangeBinaryFloatingPointFormat::Double, 1))
    } else if bytes[0] == 3 {
        Ok((InterchangeBinaryFloatingPointFormat::Quadruple, 1))
    } else if bytes[0] == 4 {
        Ok((InterchangeBinaryFloatingPointFormat::Octuple, 1))
    } else {
        Err(SpecParsingErrorView::UnknownBinaryFormatFlag(bytes[0]))
    }
}

/// The discriminant byte of a decimal floating-point format.
pub open spec fn decimal_fp_byte(f: InterchangeDecimalFloatingPointFormat) -> u8 {
    match f {
        InterchangeDecimalFloatingPointFormat::Dec32 => 0,
        InterchangeDecimalFloatingPointFormat::Dec64 => 1,
        InterchangeDecimalFloatingPointFormat::Dec128 => 2,
    }
}

/// Reads one decimal floating-point format byte from the front of `bytes`.
pub open spec fn parse_decimal_fp(bytes: Seq<u8>) -> Result<
    (InterchangeDecimalFloatingPointFormat, int),
    SpecParsingErrorView,
> {
    if bytes.len() == 0 {
        Err(SpecParsingErrorView::UnexpectedEndOfBytes)
    } else if bytes[0] == 0 {
        Ok((InterchangeDecimalFloatingPointFormat::Dec32, 1))
    } else if bytes[0] == 1 {
        Ok((InterchangeDecimalFloatingPointFormat::Dec64, 1))
    } else if bytes[0] == 2 {
        Ok((InterchangeDecimalFloatingPointFormat::Dec128, 1))
    } else {
        Err(SpecParsingErrorView::UnknownDecimalFormatFlag(bytes[0]))
    }
}

/// The discriminant byte of a string encoding format.
pub open spec fn string_fmt_byte(f: StringEncodingFmt) -> u8 {
    match f {
        StringEncodingFmt::Utf8 => 0,
        StringEncodingFmt::Utf16 => 1,
        StringEncodingFmt::Ascii => 2,
    }
}

/// Reads one string encoding format byte from the front of `bytes`.
pub open spec fn parse_string_fmt(bytes: Seq<u8>) -> Result<
    (StringEncodingFmt, int),
    SpecParsingErrorView,
> {
    if bytes.len() == 0 {
        Err(SpecParsingErrorView::UnexpectedEndOfBytes)
    } else if bytes[0] == 0 {
        Ok((StringEncodingFmt::Utf8, 1))
    } else if bytes[0] == 1 {
        Ok((StringEncodingFmt::Utf16, 1))
    } else if bytes[0] == 2 {
        Ok((StringEncodingFmt::Ascii, 1))
    } else {
        Err(SpecParsingErrorView::UnknownStringFormatFlag(bytes[0]))
    }
}

impl Size {
    /// Appends the wire form of this size qualifier to `out` and reports how
    /// many bytes that took.
    pub fn encode(&self, out: &mut Vec<u8>) -> (written: usize)
        ensures
            final(out)@ == old(out)@ + size_bytes(*self),
            written == size_bytes(*self).len(),
    {
        let base = out.len();
        match self {
            Size::Fixed(n) => {
                out.push(0);
                encode_varint_u64(*n, out);
                assert(out@ =~= old(out)@ + size_bytes(*self));
            },
            Size::Variable => {
                out.push(1);
                assert(out@ =~= old(out)@ + size_bytes(*self));
            },
        }
        out.len() - base
    }

    /// Reads one size qualifier starting at `pos`.
    pub fn decode(input: &[u8], pos: usize) -> (r: Result<(Size, usize), SpecParsingError>)
        requires
            pos <= input@.len(),
        ensures
            match r {
                Ok((s, end)) => {
                    &&& pos < end <= input@.len()
                    &&& parse_size(input@.skip(pos as int)) == Ok::<(Size, int),
                        SpecParsingErrorView,
                    >((s, end - pos))
                },
                Err(e) => parse_size(input@.skip(pos as int)) == Err::<(Size, int),
                    SpecParsingErrorView,
                >(e@),
            },
    {
        if pos == input.len() {
            return Err(SpecParsingError::UnexpectedEndOfBytes);
        }
        let b = input[pos];
        assert(input@.skip(pos as int)[0] == b);
        assert(input@.skip(pos as int).skip(1) =~= input@.skip(pos as int + 1));
        if b == 0 {
            match decode_varint_u64(input, pos + 1) {
                Ok((n, end)) => Ok((Size::Fixed(n), end)),
                Err(e) => Err(e),
            }
        } else if b == 1 {
            Ok((Size::Variable, pos + 1))
        } else {
            Err(SpecParsingError::UnknownSizeFormatFlag(b))
        }
    }
}

/// The number of significand bits of a binary interchange format.
pub open spec fn spec_binary_significand_bits(f: InterchangeBinaryFloatingPointFormat) -> u64 {
    match f {
        InterchangeBinaryFloatingPointFormat::Half => 11,
        InterchangeBinaryFloatingPointFormat::Single => 24,
        InterchangeBinaryFloatingPointFormat::Double => 53,
        InterchangeBinaryFloatingPointFormat::Quadruple => 113,
        InterchangeBinaryFloatingPointFormat::Octuple => 237,
    }
}

/// The number of exponent bits of a binary interchange format.
pub open spec fn spec_binary_exponent_bits(f: InterchangeBinaryFloatingPointFormat) -> u64 {
    match f {
        InterchangeBinaryFloatingPointFormat::Half => 5,
        InterchangeBinaryFloatingPointFormat::Single => 8,
        InterchangeBinaryFloatingPointFormat::Double => 11,
        InterchangeBinaryFloatingPointFormat::Quadruple => 15,
        InterchangeBinaryFloatingPointFormat::Octuple => 19,
    }
}

impl InterchangeBinaryFloatingPointFormat {
    /// How many significand bits the format carries.
    pub fn significand_bits(&self) -> (r: u64)
        ensures
            r == spec_binary_significand_bits(*self),
    {
        match self {
            InterchangeBinaryFloatingPointFormat::Half => 11,
            InterchangeBinaryFloatingPointFormat::Single => 24,
            InterchangeBinaryFloatingPointFormat::Double => 53,
            InterchangeBinaryFloatingPointFormat::Quadruple => 113,
            InterchangeBinaryFloatingPointFormat::Octuple => 237,
        }
    }

    /// How many exponent bits the format carries.
    pub fn exponent_bits(&self) -> (r: u64)
        ensures
            r == spec_binary_exponent_bits(*self),
    {
        match self {
            InterchangeBinaryFloatingPointFormat::Half => 5,
            InterchangeBinaryFloatingPointFormat::Single => 8,
            InterchangeBinaryFloatingPointFormat::Double => 11,
            InterchangeBinaryFloatingPointFormat::Quadruple => 15,
            InterchangeBinaryFloatingPointFormat::Octuple => 19,
        }
    }

    /// Appends the format's discriminant byte to `out`.
    pub fn encode(&self, out: &mut Vec<u8>) -> (written: usize)
        ensures
            final(out)@ == old(out)@ + seq![binary_fp_byte(*self)],
            written == 1,
    {
        let b: u8 = match self {
            InterchangeBinaryFloatingPointFormat::Half => 0,
            InterchangeBinaryFloatingPointFormat::Single => 1,
            InterchangeBinaryFloatingPointFormat::Double => 2,
            InterchangeBinaryFloatingPointFormat::Quadruple => 3,
            InterchangeBinaryFloatingPointFormat::Octuple => 4,
        };
        out.push(b);
        assert(out@ =~= old(out)@ + seq![binary_fp_byte(*self)]);
        1
    }

    /// Reads one format byte starting at `pos`.
    pub fn decode(input: &[u8], pos: usize) -> (r: Result<
        (InterchangeBinaryFloatingPointFormat, usize),
        SpecParsingError,
    >)
        requires
            pos <= input@.len(),
        ensures
            match r {
                Ok((f, end)) => {
                    &&& pos < end <= input@.len()
                    &&& parse_binary_fp(input@.skip(pos as int)) == Ok::<
                        (InterchangeBinaryFloatingPointFormat, int),
                        SpecParsingErrorView,
                    >((f, end - pos))
                },
                Err(e) => parse_binary_fp(input@.skip(pos as int)) == Err::<
                    (InterchangeBinaryFloatingPointFormat, int),
                    SpecParsingErrorView,
                >(e@),
            },
    {
        if pos == input.len() {
            return Err(SpecParsingError::UnexpectedEndOfBytes);
        }
        let b = input[pos];
        assert(input@.skip(pos as int)[0] == b);
        match b {
            0 => Ok((InterchangeBinaryFloatingPointFormat::Half, pos + 1)),
            1 => Ok((InterchangeBinaryFloatingPointFormat::Single, pos + 1)),
            2 => Ok((InterchangeBinaryFloatingPointFormat::Double, pos + 1)),
            3 => Ok((InterchangeBinaryFloatingPointFormat::Quadruple, pos + 1)),
            4 => Ok((InterchangeBinaryFloatingPointFormat::Octuple, pos + 1)),
            _ => Err(SpecParsingError::UnknownBinaryFormatFlag(b)),
        }
    }
}

/// The significand size of a decimal interchange format, which for these
/// formats coincides with its count of decimal digits.
pub open spec fn spec_decimal_significand_bits(f: InterchangeDecimalFloatingPointFormat) -> u64 {
    match f {
        InterchangeDecimalFloatingPointFormat::Dec32 => 7,
        InterchangeDecimalFloatingPointFormat::Dec64 => 16,
        InterchangeDecimalFloatingPointFormat::Dec128 => 34,
    }
}

impl InterchangeDecimalFloatingPointFormat {
    /// How many significand bits the format carries.
    pub fn significand_bits(&self) -> (r: u64)
        ensures
            r == spec_decimal_significand_bits(*self),
    {
        match self {
            InterchangeDecimalFloatingPointFormat::Dec32 => 7,
            InterchangeDecimalFloatingPointFormat::Dec64 => 16,
            InterchangeDecimalFloatingPointFormat::Dec128 => 34,
        }
    }

    /// How many decimal digits the format represents exactly.
    pub fn decimal_digits(&self) -> (r: u64)
        ensures
            r == spec_decimal_significand_bits(*self),
    {
        match self {
            InterchangeDecimalFloatingPointFormat::Dec32 => 7,
            InterchangeDecimalFloatingPointFormat::Dec64 => 16,
            InterchangeDecimalFloatingPointFormat::Dec128 => 34,
        }
    }

    /// The smallest whole-byte footprint that can hold a value of the
    /// format.
    pub fn minimum_byes_needed(&self) -> (r: usize)
        ensures
            r == match *self {
                InterchangeDecimalFloatingPointFormat::Dec32 => 2usize,
                InterchangeDecimalFloatingPointFormat::Dec64 => 4usize,
                InterchangeDecimalFloatingPointFormat::Dec128 => 8usize,
            },
    {
        match self {
            InterchangeDecimalFloatingPointFormat::Dec32 => 2,
            InterchangeDecimalFloatingPointFormat::Dec64 => 4,
            InterchangeDecimalFloatingPointFormat::Dec128 => 8,
        }
    }

    /// Appends the format's discriminant byte to `out`.
    pub fn encode(&self, out: &mut Vec<u8>) -> (written: usize)
        ensures
            final(out)@ == old(out)@ + seq![decimal_fp_byte(*self)],
            written == 1,
    {
        let b: u8 = match self {
            InterchangeDecimalFloatingPointFormat::Dec32 => 0,
            InterchangeDecimalFloatingPointFormat::Dec64 => 1,
            InterchangeDecimalFloatingPointFormat::Dec128 => 2,
        };
        out.push(b);
        assert(out@ =~= old(out)@ + seq![decimal_fp_byte(*self)]);
        1
    }

    /// Reads one format byte starting at `pos`.
    pub fn decode(input: &[u8], pos: usize) -> (r: Result<
        (InterchangeDecimalFloatingPointFormat, usize),
        SpecParsingError,
    >)
        requires
            pos <= input@.len(),
        ensures
            match r {
                Ok((f, end)) => {
                    &&& pos < end <= input@.len()
                    &&& parse_decimal_fp(input@.skip(pos as int)) == Ok::<
                        (InterchangeDecimalFloatingPointFormat, int),
                        SpecParsingErrorView,
                    >((f, end - pos))
                },
                Err(e) => parse_decimal_fp(input@.skip(pos as int)) == Err::<
                    (InterchangeDecimalFloatingPointFormat, int),
                    SpecParsingErrorView,
                >(e@),
            },
    {
        if pos == input.len() {
            return Err(SpecParsingError::UnexpectedEndOfBytes);
        }
        let b = input[pos];
        assert(input@.skip(pos as int)[0] == b);
        match b {
            0 => Ok((InterchangeDecimalFloatingPointFormat::Dec32, pos + 1)),
            1 => Ok((InterchangeDecimalFloatingPointFormat::Dec64, pos + 1)),
            2 => Ok((InterchangeDecimalFloatingPointFormat::Dec128, pos + 1)),
            _ => Err(SpecParsingError::UnknownDecimalFormatFlag(b)),
        }
    }
}

impl StringEncodingFmt {
    /// Appends the format's discriminant byte to `out`.
    pub fn encode(&self, out: &mut Vec<u8>) -> (written: usize)
        ensures
            final(out)@ == old(out)@ + seq![string_fmt_byte(*self)],
            written == 1,
    {
        let b: u8 = match self {
            StringEncodingFmt::Utf8 => 0,
            StringEncodingFmt::Utf16 => 1,
            StringEncodingFmt::Ascii => 2,
        };
        out.push(b);
        assert(out@ =~= old(out)@ + seq![string_fmt_byte(*self)]);
        1
    }

    /// Reads one format byte starting at `pos`.
    pub fn decode(input: &[u8], pos: usize) -> (r: Result<
        (StringEncodingFmt, usize),
        SpecParsingError,
    >)
        requires
            pos <= input@.len(),
        ensures
            match r {
                Ok((f, end)) => {
                    &&& pos < end <= input@.len()
                    &&& parse_string_fmt(input@.skip(pos as int)) == Ok::<
                        (StringEncodingFmt, int),
                        SpecParsingErrorView,
                    >((f, end - pos))
                },
                Err(e) => parse_string_fmt(input@.skip(pos as int)) == Err::<
                    (StringEncodingFmt, int),
                    SpecParsingErrorView,
                >(e@),
            },
    {
        if pos == input.len() {
            return Err(SpecParsingError::UnexpectedEndOfBytes);
        }
        let b = input[pos];
        assert(input@.skip(pos as int)[0] == b);
        match b {
            0 => Ok((StringEncodingFmt::Utf8, pos + 1)),
            1 => Ok((StringEncodingFmt::Utf16, pos + 1)),
            2 => Ok((StringEncodingFmt::Ascii, pos + 1)),
            _ => Err(SpecParsingError::UnknownStringFormatFlag(b)),
        }
    }
}

/// Round trip for size qualifiers: parsing an encoded qualifier recovers it
/// and consumes exactly its bytes, whatever follows.
pub proof fn lemma_parse_size_bytes(s: Size, rest: Seq<u8>)
    ensures
        parse_size(size_bytes(s) + rest) == Ok::<(Size, int), SpecParsingErrorView>(
            (s, size_bytes(s).len() as int),
        ),
{
    match s {
        Size::Fixed(n) => {
            let enc = size_bytes(s);
            assert((enc + rest)[0] == 0);
            assert((enc + rest).skip(1) =~= varint_bytes(n as nat) + rest);
            crate::varint::lemma_parse_u64_bytes(n, rest);
        },
        Size::Variable => {
            assert((size_bytes(s) + rest)[0] == 1);
        },
    }
}

/// Truncation for size qualifiers: a strict prefix always reports end of
/// input.
pub proof fn lemma_parse_size_bytes_trunc(s: Size, k: int)
    requires
        0 <= k < size_bytes(s).len(),
    ensures
        parse_size(size_bytes(s).take(k)) == Err::<(Size, int), SpecParsingErrorView>(
            SpecParsingErrorView::UnexpectedEndOfBytes,
        ),
{
    let enc = size_bytes(s);
    if k == 0 {
        assert(enc.take(0).len() == 0);
    } else {
        match s {
            Size::Fixed(n) => {
                assert(enc.take(k)[0] == 0);
                assert(enc.take(k).skip(1) =~= varint_bytes(n as nat).take(k - 1));
                crate::varint::lemma_parse_u64_bytes_trunc(n, k - 1);
            },
            Size::Variable => {
                assert(false);
            },
        }
    }
}

} // verus!
