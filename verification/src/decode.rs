//! The one schema decoder, shared by both encoders.
//!
//! Decoding is single-pass recursive descent over a byte slice: one tag byte
//! is read and dispatched against the full general-tag and alias tables,
//! then exactly the bytes of that node's payload are consumed.  The
//! specification-level parser here is the meaning of the wire format; the
//! executable decoder is proved to return exactly what the parser says, for
//! every input.

use vstd::prelude::*;

use crate::descriptor::InterchangeBinaryFloatingPointFormat;
use crate::descriptor::InterchangeDecimalFloatingPointFormat;
use crate::descriptor::Size;
use crate::descriptor::StringEncodingFmt;
use crate::descriptor::parse_binary_fp;
use crate::descriptor::parse_decimal_fp;
use crate::descriptor::parse_size;
use crate::descriptor::parse_string_fmt;
use crate::encode::BOOL;
use crate::encode::UINT;
use crate::encode::NAME;
use crate::encode::INT;
use crate::encode::BINARY_FP;
use crate::encode::DECIMAL_FP;
use crate::encode::REF;
use crate::encode::VOID;
use crate::encode::LIST;
use crate::encode::MAP;
use crate::encode::RECORD;
use crate::encode::ENUM;
use crate::encode::UNION;
use crate::encode::DECIMAL;
use crate::encode::TUPLE;
use crate::encode::BYTES;
use crate::encode::STRING;
use crate::encode::OPTIONAL;
use crate::encode::UINT_0;
use crate::encode::UINT_1;
use crate::encode::UINT_2;
use crate::encode::UINT_3;
use crate::encode::INT_0;
use crate::encode::INT_1;
use crate::encode::INT_2;
use crate::encode::INT_3;
use crate::encode::SINGLE_FP;
use crate::encode::DOUBLE_FP;
use crate::encode::UTF8_STRING;
use crate::error::SpecParsingError;
use crate::error::SpecParsingErrorView;
use crate::schema::Spec;
use crate::schema::SpecView;
use crate::schema::named_views;
use crate::schema::elem_views;
use crate::schema::lemma_wf_named_pointwise;
use crate::schema::lemma_wf_elems_pointwise;
use crate::schema::wf;
use crate::schema::wf_named;
use crate::schema::wf_elems;
use crate::varint::decode_varint_u64;
use crate::varint::parse_u64;
use vstd::utf8::decode_utf8;
use vstd::utf8::encode_utf8;
use vstd::utf8::valid_utf8;

verus! {

/// The bytes left after a parser consumed `used` of them; a `used` outside
/// the input (which no parser here produces) leaves nothing.
pub open spec fn tail_from(bytes: Seq<u8>, used: int) -> Seq<u8> {
    if 0 <= used <= bytes.len() {
        bytes.skip(used)
    } else {
        Seq::empty()
    }
}

/// Reads one length-prefixed UTF-8 name from the front of `bytes`.  Bytes
/// that are not valid UTF-8 fail with `ReadError`.
pub open spec fn parse_name(bytes: Seq<u8>) -> Result<(Seq<char>, int), SpecParsingErrorView> {
    match parse_u64(bytes) {
        Err(e) => Err(e),
        Ok((n, used)) => if bytes.len() - used < n as int {
            Err(SpecParsingErrorView::UnexpectedEndOfBytes)
        } else {
            let content = bytes.subrange(used, used + n as int);
            if valid_utf8(content) {
                Ok((decode_utf8(content), used + n as int))
            } else {
                Err(SpecParsingErrorView::ReadError)
            }
        },
    }
}

/// Reads one schema node from the front of `bytes`: one tag byte —
/// general or alias — then exactly that node's payload.
pub open spec fn parse_spec(bytes: Seq<u8>) -> Result<(SpecView, int), SpecParsingErrorView>
    decreases bytes.len(), 0nat, 0nat,
{
    if bytes.len() == 0 {
        Err(SpecParsingErrorView::UnexpectedEndOfBytes)
    } else {
        let tag = bytes[0];
        let rest = bytes.skip(1);
        if tag == BOOL {
            Ok((SpecView::Bool, 1))
        } else if tag == VOID {
            Ok((SpecView::Void, 1))
        } else if tag == UINT {
            if rest.len() == 0 {
                Err(SpecParsingErrorView::UnexpectedEndOfBytes)
            } else {
                Ok((SpecView::Uint(rest[0]), 2))
            }
        } else if tag == INT {
            if rest.len() == 0 {
                Err(SpecParsingErrorView::UnexpectedEndOfBytes)
            } else {
                Ok((SpecView::Int(rest[0]), 2))
            }
        } else if tag == NAME {
            match parse_name(rest) {
                Err(e) => Err(e),
                Ok((nm, u1)) => match parse_spec(tail_from(rest, u1)) {
                    Err(e) => Err(e),
                    Ok((inner, u2)) => Ok(
                        (SpecView::Name { name: nm, spec: Box::new(inner) }, 1 + u1 + u2),
                    ),
                },
            }
        } else if tag == REF {
            match parse_name(rest) {
                Err(e) => Err(e),
                Ok((nm, u1)) => Ok((SpecView::Ref { name: nm }, 1 + u1)),
            }
        } else if tag == BINARY_FP {
            match parse_binary_fp(rest) {
                Err(e) => Err(e),
                Ok((fmt, u1)) => Ok((SpecView::BinaryFloatingPoint(fmt), 1 + u1)),
            }
        } else if tag == DECIMAL_FP {
            match parse_decimal_fp(rest) {
                Err(e) => Err(e),
                Ok((fmt, u1)) => Ok((SpecView::DecimalFloatingPoint(fmt), 1 + u1)),
            }
        } else if tag == LIST {
            match parse_size(rest) {
                Err(e) => Err(e),
                Ok((size, u1)) => match parse_spec(tail_from(rest, u1)) {
                    Err(e) => Err(e),
                    Ok((v, u2)) => Ok(
                        (SpecView::List { size, value_spec: Box::new(v) }, 1 + u1 + u2),
                    ),
                },
            }
        } else if tag == MAP {
            match parse_size(rest) {
                Err(e) => Err(e),
                Ok((size, u1)) => match parse_spec(tail_from(rest, u1)) {
                    Err(e) => Err(e),
                    Ok((k, u2)) => match parse_spec(tail_from(tail_from(rest, u1), u2)) {
                        Err(e) => Err(e),
                        Ok((v, u3)) => Ok(
                            (
                                SpecView::Mapping {
                                    size,
                                    key_spec: Box::new(k),
                                    value_spec: Box::new(v),
                                },
                                1 + u1 + u2 + u3,
                            ),
                        ),
                    },
                },
            }
        } else if tag == DECIMAL {
            match parse_u64(rest) {
                Err(e) => Err(e),
                Ok((precision, u1)) => match parse_u64(tail_from(rest, u1)) {
                    Err(e) => Err(e),
                    Ok((scale, u2)) => Ok(
                        (SpecView::Decimal { precision, scale }, 1 + u1 + u2),
                    ),
                },
            }
        } else if tag == BYTES {
            match parse_size(rest) {
                Err(e) => Err(e),
                Ok((size, u1)) => Ok((SpecView::Bytes(size), 1 + u1)),
            }
        } else if tag == STRING {
            match parse_size(rest) {
                Err(e) => Err(e),
                Ok((size, u1)) => match parse_string_fmt(tail_from(rest, u1)) {
                    Err(e) => Err(e),
                    Ok((fmt, u2)) => Ok((SpecView::String(size, fmt), 1 + u1 + u2)),
                },
            }
        } else if tag == OPTIONAL {
            match parse_spec(rest) {
                Err(e) => Err(e),
                Ok((inner, u1)) => Ok((SpecView::Optional(Box::new(inner)), 1 + u1)),
            }
        } else if tag == RECORD {
            match parse_u64(rest) {
                Err(e) => Err(e),
                Ok((n, u1)) => match parse_named_list(tail_from(rest, u1), n) {
                    Err(e) => Err(e),
                    Ok((fields, u2)) => Ok((SpecView::Record(fields), 1 + u1 + u2)),
                },
            }
        } else if tag == TUPLE {
            match parse_u64(rest) {
                Err(e) => Err(e),
                Ok((n, u1)) => match parse_elem_list(tail_from(rest, u1), n) {
                    Err(e) => Err(e),
                    Ok((elems, u2)) => Ok((SpecView::Tuple(elems), 1 + u1 + u2)),
                },
            }
        } else if tag == ENUM {
            match parse_u64(rest) {
                Err(e) => Err(e),
                Ok((n, u1)) => match parse_named_list(tail_from(rest, u1), n) {
                    Err(e) => Err(e),
                    Ok((variants, u2)) => Ok((SpecView::Enum(variants), 1 + u1 + u2)),
                },
            }
        } else if tag == UNION {
            match parse_u64(rest) {
                Err(e) => Err(e),
                Ok((n, u1)) => match parse_elem_list(tail_from(rest, u1), n) {
                    Err(e) => Err(e),
                    Ok((variants, u2)) => Ok((SpecView::Union(variants), 1 + u1 + u2)),
                },
            }
        } else if tag == UINT_0 {
            Ok((SpecView::Uint(0), 1))
        } else if tag == UINT_1 {
            Ok((SpecView::Uint(1), 1))
        } else if tag == UINT_2 {
            Ok((SpecView::Uint(2), 1))
        } else if tag == UINT_3 {
            Ok((SpecView::Uint(3), 1))
        } else if tag == INT_0 {
            Ok((SpecView::Int(0), 1))
        } else if tag == INT_1 {
            Ok((SpecView::Int(1), 1))
        } else if tag == INT_2 {
            Ok((SpecView::Int(2), 1))
        } else if tag == INT_3 {
            Ok((SpecView::Int(3), 1))
        } else if tag == SINGLE_FP {
            Ok((SpecView::BinaryFloatingPoint(InterchangeBinaryFloatingPointFormat::Single), 1))
        } else if tag == DOUBLE_FP {
            Ok((SpecView::BinaryFloatingPoint(InterchangeBinaryFloatingPointFormat::Double), 1))
        } else if tag == UTF8_STRING {
            Ok((SpecView::String(Size::Variable, StringEncodingFmt::Utf8), 1))
        } else {
            Err(SpecParsingErrorView::UnknownSpecFlag(tag))
        }
    }
}

/// Reads `n` (name, schema) pairs from the front of `bytes`.
pub open spec fn parse_named_list(bytes: Seq<u8>, n: u64) -> Result<
    (Seq<(Seq<char>, SpecView)>, int),
    SpecParsingErrorView,
>
    decreases bytes.len(), n as nat, 1nat,
{
    if n == 0 {
        Ok((Seq::empty(), 0))
    } else {
        match parse_name(bytes) {
            Err(e) => Err(e),
            Ok((nm, u1)) => match parse_spec(tail_from(bytes, u1)) {
                Err(e) => Err(e),
                Ok((v, u2)) => match parse_named_list(
                    tail_from(tail_from(bytes, u1), u2),
                    (n - 1) as u64,
                ) {
                    Err(e) => Err(e),
                    Ok((fields, u3)) => Ok((seq![(nm, v)] + fields, u1 + u2 + u3)),
                },
            },
        }
    }
}

/// Reads `n` bare child schemas from the front of `bytes`.
pub open spec fn parse_elem_list(bytes: Seq<u8>, n: u64) -> Result<
    (Seq<SpecView>, int),
    SpecParsingErrorView,
>
    decreases bytes.len(), n as nat, 1nat,
{
    if n == 0 {
        Ok((Seq::empty(), 0))
    } else {
        match parse_spec(bytes) {
            Err(e) => Err(e),
            Ok((v, u1)) => match parse_elem_list(tail_from(bytes, u1), (n - 1) as u64) {
                Err(e) => Err(e),
                Ok((elems, u2)) => Ok((seq![v] + elems, u1 + u2)),
            },
        }
    }
}

/// Relies on `String::from_utf8`: it succeeds exactly on input that is
/// valid UTF-8, and then returns the string whose UTF-8 encoding is that
/// input.
#[verifier::external_body]
fn string_from_utf8(v: Vec<u8>) -> (r: Option<String>)
    ensures
        match r {
            Some(s) => valid_utf8(v@) && encode_utf8(s@) == v@,
            None => !valid_utf8(v@),
        },
{
    String::from_utf8(v).ok()
}

/// Reads one length-prefixed UTF-8 name starting at `pos`.
fn read_name(input: &[u8], pos: usize) -> (r: Result<(String, usize), SpecParsingError>)
    requires
        pos <= input@.len(),
    ensures
        match r {
            Ok((nm, end)) => {
                &&& pos < end <= input@.len()
                &&& parse_name(input@.skip(pos as int)) == Ok::<(Seq<char>, int),
                    SpecParsingErrorView,
                >((nm@, end - pos))
                &&& encode_utf8(nm@).len() <= u64::MAX
            },
            Err(e) => parse_name(input@.skip(pos as int)) == Err::<(Seq<char>, int),
                SpecParsingErrorView,
            >(e@),
        },
{
    let ghost bytes0 = input@.skip(pos as int);
    match decode_varint_u64(input, pos) {
        Err(e) => Err(e),
        Ok((n, p1)) => {
            if ((input.len() - p1) as u64) < n {
                Err(SpecParsingError::UnexpectedEndOfBytes)
            } else {
                let n_us = n as usize;
                let content = vstd::slice::slice_subrange(input, p1, p1 + n_us);
                assert(content@ =~= bytes0.subrange(
                    p1 - pos as int,
                    p1 - pos as int + n as int,
                ));
                let content_vec = vstd::slice::slice_to_vec(content);
                match string_from_utf8(content_vec) {
                    Some(s) => {
                        proof {
                            vstd::utf8::encode_utf8_decode_utf8(s@);
                        }
                        Ok((s, p1 + n_us))
                    },
                    None => Err(SpecParsingError::ReadError),
                }
            }
        },
    }
}

/// The contract every node reader meets: its outcome is exactly what the
/// specification-level parser says about the bytes from `pos` on.
pub open spec fn node_parse_matches(
    input: Seq<u8>,
    pos: int,
    r: Result<(Spec, usize), SpecParsingError>,
) -> bool {
    match r {
        Ok((s, end)) => {
            &&& pos < end <= input.len()
            &&& parse_spec(input.skip(pos)) == Ok::<(SpecView, int), SpecParsingErrorView>(
                (s@, end - pos),
            )
            &&& wf(s@)
        },
        Err(e) => parse_spec(input.skip(pos)) == Err::<(SpecView, int), SpecParsingErrorView>(e@),
    }
}

/// Reads a `Name` node: its tag, the bound name, then the inner schema.
fn read_name_node(input: &[u8], pos: usize) -> (r: Result<(Spec, usize), SpecParsingError>)
    requires
        pos < input@.len(),
        input@[pos as int] == NAME,
    ensures
        node_parse_matches(input@, pos as int, r),
    decreases input@.len() - pos, 0nat, 0nat,
{
    proof {
        vstd::slice::axiom_spec_len(input);
    }
    let p1 = pos + 1;
    let ghost bytes0 = input@.skip(pos as int);
    let ghost rest = input@.skip(p1 as int);
    proof {
        assert(bytes0[0] == NAME);
        assert(bytes0.skip(1) =~= rest);
    }
    match read_name(input, p1) {
        Err(e) => Err(e),
        Ok((nm, e1)) => {
            assert(tail_from(rest, e1 - p1) =~= input@.skip(e1 as int));
            match read_spec(input, e1) {
                Err(e) => Err(e),
                Ok((inner, e2)) => Ok((Spec::Name { name: nm, spec: Box::new(inner) }, e2)),
            }
        },
    }
}

/// Reads a `Ref` node: its tag and the referenced name.
fn read_ref_node(input: &[u8], pos: usize) -> (r: Result<(Spec, usize), SpecParsingError>)
    requires
        pos < input@.len(),
        input@[pos as int] == REF,
    ensures
        node_parse_matches(input@, pos as int, r),
{
    proof {
        vstd::slice::axiom_spec_len(input);
    }
    let p1 = pos + 1;
    let ghost bytes0 = input@.skip(pos as int);
    proof {
        assert(bytes0[0] == REF);
        assert(bytes0.skip(1) =~= input@.skip(p1 as int));
    }
    match read_name(input, p1) {
        Err(e) => Err(e),
        Ok((nm, e1)) => Ok((Spec::Ref { name: nm }, e1)),
    }
}

/// Reads a `List` node: its tag, a size qualifier, then the element schema.
fn read_list_node(input: &[u8], pos: usize) -> (r: Result<(Spec, usize), SpecParsingError>)
    requires
        pos < input@.len(),
        input@[pos as int] == LIST,
    ensures
        node_parse_matches(input@, pos as int, r),
    decreases input@.len() - pos, 0nat, 0nat,
{
    proof {
        vstd::slice::axiom_spec_len(input);
    }
    let p1 = pos + 1;
    let ghost bytes0 = input@.skip(pos as int);
    let ghost rest = input@.skip(p1 as int);
    proof {
        assert(bytes0[0] == LIST);
        assert(bytes0.skip(1) =~= rest);
    }
    match Size::decode(input, p1) {
        Err(e) => Err(e),
        Ok((size, e1)) => {
            assert(tail_from(rest, e1 - p1) =~= input@.skip(e1 as int));
            match read_spec(input, e1) {
                Err(e) => Err(e),
                Ok((v, e2)) => Ok((Spec::List { size, value_spec: Box::new(v) }, e2)),
            }
        },
    }
}

/// Reads a `Map` node: its tag, a size qualifier, then the key and value
/// schemas.
#[verifier::rlimit(100)]
fn read_map_node(input: &[u8], pos: usize) -> (r: Result<(Spec, usize), SpecParsingError>)
    requires
        pos < input@.len(),
        input@[pos as int] == MAP,
    ensures
        node_parse_matches(input@, pos as int, r),
    decreases input@.len() - pos, 0nat, 0nat,
{
    proof {
        vstd::slice::axiom_spec_len(input);
    }
    let p1 = pos + 1;
    let ghost bytes0 = input@.skip(pos as int);
    let ghost rest = input@.skip(p1 as int);
    proof {
        assert(bytes0[0] == MAP);
        assert(bytes0.skip(1) =~= rest);
    }
    match Size::decode(input, p1) {
        Err(e) => Err(e),
        Ok((size, e1)) => {
            assert(tail_from(rest, e1 - p1) =~= input@.skip(e1 as int));
            match read_spec(input, e1) {
                Err(e) => Err(e),
                Ok((k, e2)) => {
                    assert(tail_from(tail_from(rest, e1 - p1), e2 - e1) =~= input@.skip(
                        e2 as int,
                    ));
                    match read_spec(input, e2) {
                        Err(e) => Err(e),
                        Ok((v, e3)) => Ok(
                            (
                                Spec::Mapping {
                                    size,
                                    key_spec: Box::new(k),
                                    value_spec: Box::new(v),
                                },
                                e3,
                            ),
                        ),
                    }
                },
            }
        },
    }
}

/// Reads a `Decimal` node: its tag, then precision and scale.
fn read_decimal_node(input: &[u8], pos: usize) -> (r: Result<(Spec, usize), SpecParsingError>)
    requires
        pos < input@.len(),
        input@[pos as int] == DECIMAL,
    ensures
        node_parse_matches(input@, pos as int, r),
{
    proof {
        vstd::slice::axiom_spec_len(input);
    }
    let p1 = pos + 1;
    let ghost bytes0 = input@.skip(pos as int);
    let ghost rest = input@.skip(p1 as int);
    proof {
        assert(bytes0[0] == DECIMAL);
        assert(bytes0.skip(1) =~= rest);
    }
    match decode_varint_u64(input, p1) {
        Err(e) => Err(e),
        Ok((precision, e1)) => {
            assert(tail_from(rest, e1 - p1) =~= input@.skip(e1 as int));
            match decode_varint_u64(input, e1) {
                Err(e) => Err(e),
                Ok((scale, e2)) => Ok((Spec::Decimal { precision, scale }, e2)),
            }
        },
    }
}

/// Reads a `String` node in general form: its tag, a size qualifier, then
/// the character-encoding byte.
fn read_string_node(input: &[u8], pos: usize) -> (r: Result<(Spec, usize), SpecParsingError>)
    requires
        pos < input@.len(),
        input@[pos as int] == STRING,
    ensures
        node_parse_matches(input@, pos as int, r),
{
    proof {
        vstd::slice::axiom_spec_len(input);
    }
    let p1 = pos + 1;
    let ghost bytes0 = input@.skip(pos as int);
    let ghost rest = input@.skip(p1 as int);
    proof {
        assert(bytes0[0] == STRING);
        assert(bytes0.skip(1) =~= rest);
    }
    match Size::decode(input, p1) {
        Err(e) => Err(e),
        Ok((size, e1)) => {
            assert(tail_from(rest, e1 - p1) =~= input@.skip(e1 as int));
            match StringEncodingFmt::decode(input, e1) {
                Err(e) => Err(e),
                Ok((fmt, e2)) => Ok((Spec::String(size, fmt), e2)),
            }
        },
    }
}

/// Reads a `Record` or `Enum` node: its tag, an entry count, then that many
/// (name, schema) pairs.
fn read_named_aggregate(input: &[u8], pos: usize, is_record: bool) -> (r: Result<
    (Spec, usize),
    SpecParsingError,
>)
    requires
        pos < input@.len(),
        is_record ==> input@[pos as int] == RECORD,
        !is_record ==> input@[pos as int] == ENUM,
    ensures
        node_parse_matches(input@, pos as int, r),
    decreases input@.len() - pos, 0nat, 0nat,
{
    proof {
        vstd::slice::axiom_spec_len(input);
    }
    let p1 = pos + 1;
    let ghost bytes0 = input@.skip(pos as int);
    let ghost rest = input@.skip(p1 as int);
    proof {
        assert(bytes0[0] == input@[pos as int]);
        assert(bytes0.skip(1) =~= rest);
    }
    match decode_varint_u64(input, p1) {
        Err(e) => Err(e),
        Ok((n, e1)) => {
            assert(tail_from(rest, e1 - p1) =~= input@.skip(e1 as int));
            match read_named_list(input, e1, n) {
                Err(e) => Err(e),
                Ok((fields, e2)) => {
                    proof {
                        vstd::std_specs::vec::axiom_spec_len(&fields);
                        crate::schema::lemma_named_views_len(fields@);
                    }
                    if is_record {
                        Ok((Spec::Record(fields), e2))
                    } else {
                        Ok((Spec::Enum(fields), e2))
                    }
                },
            }
        },
    }
}

/// Reads a `Tuple` or `Union` node: its tag, an entry count, then that many
/// bare child schemas.
fn read_elem_aggregate(input: &[u8], pos: usize, is_tuple: bool) -> (r: Result<
    (Spec, usize),
    SpecParsingError,
>)
    requires
        pos < input@.len(),
        is_tuple ==> input@[pos as int] == TUPLE,
        !is_tuple ==> input@[pos as int] == UNION,
    ensures
        node_parse_matches(input@, pos as int, r),
    decreases input@.len() - pos, 0nat, 0nat,
{
    proof {
        vstd::slice::axiom_spec_len(input);
    }
    let p1 = pos + 1;
    let ghost bytes0 = input@.skip(pos as int);
    let ghost rest = input@.skip(p1 as int);
    proof {
        assert(bytes0[0] == input@[pos as int]);
        assert(bytes0.skip(1) =~= rest);
    }
    match decode_varint_u64(input, p1) {
        Err(e) => Err(e),
        Ok((n, e1)) => {
            assert(tail_from(rest, e1 - p1) =~= input@.skip(e1 as int));
            match read_elem_list(input, e1, n) {
                Err(e) => Err(e),
                Ok((elems, e2)) => {
                    proof {
                        vstd::std_specs::vec::axiom_spec_len(&elems);
                        crate::schema::lemma_elem_views_len(elems@);
                    }
                    if is_tuple {
                        Ok((Spec::Tuple(elems), e2))
                    } else {
                        Ok((Spec::Union(elems), e2))
                    }
                },
            }
        },
    }
}

/// Reads one schema node starting at `pos`.
#[verifier::rlimit(60)]
fn read_spec(input: &[u8], pos: usize) -> (r: Result<(Spec, usize), SpecParsingError>)
    requires
        pos <= input@.len(),
    ensures
        node_parse_matches(input@, pos as int, r),
    decreases input@.len() - pos, 0nat, 1nat,
{
    if pos == input.len() {
        return Err(SpecParsingError::UnexpectedEndOfBytes);
    }
    let tag = input[pos];
    proof {
        vstd::slice::axiom_spec_len(input);
    }
    let p1 = pos + 1;
    let ghost bytes0 = input@.skip(pos as int);
    let ghost rest = input@.skip(p1 as int);
    proof {
        assert(bytes0[0] == tag);
        assert(bytes0.skip(1) =~= rest);
    }
    match tag {
        BOOL => Ok((Spec::Bool, p1)),
        VOID => Ok((Spec::Void, p1)),
        UINT => {
            if p1 == input.len() {
                Err(SpecParsingError::UnexpectedEndOfBytes)
            } else {
                assert(rest[0] == input@[p1 as int]);
                Ok((Spec::Uint(input[p1]), p1 + 1))
            }
        },
        INT => {
            if p1 == input.len() {
                Err(SpecParsingError::UnexpectedEndOfBytes)
            } else {
                assert(rest[0] == input@[p1 as int]);
                Ok((Spec::Int(input[p1]), p1 + 1))
            }
        },
        NAME => read_name_node(input, pos),
        REF => read_ref_node(input, pos),
        BINARY_FP => {
            match InterchangeBinaryFloatingPointFormat::decode(input, p1) {
                Err(e) => Err(e),
                Ok((fmt, e1)) => Ok((Spec::BinaryFloatingPoint(fmt), e1)),
            }
        },
        DECIMAL_FP => {
            match InterchangeDecimalFloatingPointFormat::decode(input, p1) {
                Err(e) => Err(e),
                Ok((fmt, e1)) => Ok((Spec::DecimalFloatingPoint(fmt), e1)),
            }
        },
        LIST => read_list_node(input, pos),
        MAP => read_map_node(input, pos),
        DECIMAL => read_decimal_node(input, pos),
        BYTES => {
            match Size::decode(input, p1) {
                Err(e) => Err(e),
                Ok((size, e1)) => Ok((Spec::Bytes(size), e1)),
            }
        },
        STRING => read_string_node(input, pos),
        OPTIONAL => {
            match read_spec(input, p1) {
                Err(e) => Err(e),
                Ok((inner, e1)) => Ok((Spec::Optional(Box::new(inner)), e1)),
            }
        },
        RECORD => read_named_aggregate(input, pos, true),
        TUPLE => read_elem_aggregate(input, pos, true),
        ENUM => read_named_aggregate(input, pos, false),
        UNION => read_elem_aggregate(input, pos, false),
        UINT_0 => Ok((Spec::Uint(0), p1)),
        UINT_1 => Ok((Spec::Uint(1), p1)),
        UINT_2 => Ok((Spec::Uint(2), p1)),
        UINT_3 => Ok((Spec::Uint(3), p1)),
        INT_0 => Ok((Spec::Int(0), p1)),
        INT_1 => Ok((Spec::Int(1), p1)),
        INT_2 => Ok((Spec::Int(2), p1)),
        INT_3 => Ok((Spec::Int(3), p1)),
        SINGLE_FP => Ok(
            (Spec::BinaryFloatingPoint(InterchangeBinaryFloatingPointFormat::Single), p1),
        ),
        DOUBLE_FP => Ok(
            (Spec::BinaryFloatingPoint(InterchangeBinaryFloatingPointFormat::Double), p1),
        ),
        UTF8_STRING => Ok((Spec::String(Size::Variable, StringEncodingFmt::Utf8), p1)),
        _ => Err(SpecParsingError::UnknownSpecFlag(tag)),
    }
}

/// How a list parser's outcome changes when an already-parsed prefix and its
/// consumed bytes are put back in front.
pub open spec fn combine_named(
    prefix: Seq<(Seq<char>, SpecView)>,
    used: int,
    r: Result<(Seq<(Seq<char>, SpecView)>, int), SpecParsingErrorView>,
) -> Result<(Seq<(Seq<char>, SpecView)>, int), SpecParsingErrorView> {
    match r {
        Ok((fields, u)) => Ok((prefix + fields, used + u)),
        Err(e) => Err(e),
    }
}

/// The element-list counterpart of [`combine_named`].
pub open spec fn combine_elems(
    prefix: Seq<SpecView>,
    used: int,
    r: Result<(Seq<SpecView>, int), SpecParsingErrorView>,
) -> Result<(Seq<SpecView>, int), SpecParsingErrorView> {
    match r {
        Ok((elems, u)) => Ok((prefix + elems, used + u)),
        Err(e) => Err(e),
    }
}

/// Reads `n` (name, schema) pairs starting at `pos`.
#[verifier::rlimit(60)]
fn read_named_list(input: &[u8], pos: usize, n: u64) -> (r: Result<
    (Vec<(String, Spec)>, usize),
    SpecParsingError,
>)
    requires
        pos <= input@.len(),
    ensures
        match r {
            Ok((fields, end)) => {
                &&& pos <= end <= input@.len()
                &&& parse_named_list(input@.skip(pos as int), n) == Ok::<
                    (Seq<(Seq<char>, SpecView)>, int),
                    SpecParsingErrorView,
                >((named_views(fields@), end - pos))
                &&& wf_named(named_views(fields@))
            },
            Err(e) => parse_named_list(input@.skip(pos as int), n) == Err::<
                (Seq<(Seq<char>, SpecView)>, int),
                SpecParsingErrorView,
            >(e@),
        },
    decreases input@.len() - pos, n as nat, 1nat,
{
    let mut fields: Vec<(String, Spec)> = Vec::new();
    let mut cur = pos;
    let mut i: u64 = 0;
    proof {
        assert(named_views(fields@) =~= Seq::<(Seq<char>, SpecView)>::empty());
    }
    while i < n
        invariant
            i <= n,
            pos <= cur <= input@.len(),
            i > 0 ==> cur > pos,
            named_views(fields@).len() == i,
            forall|j: int|
                0 <= j < i ==> encode_utf8((#[trigger] named_views(fields@)[j]).0).len()
                    <= u64::MAX && wf(named_views(fields@)[j].1),
            parse_named_list(input@.skip(pos as int), n) == combine_named(
                named_views(fields@),
                cur - pos,
                parse_named_list(input@.skip(cur as int), (n - i) as u64),
            ),
        decreases n - i,
    {
        let ghost views_before = named_views(fields@);
        let ghost cur_bytes = input@.skip(cur as int);
        match read_name(input, cur) {
            Err(e) => {
                return Err(e);
            },
            Ok((nm, e1)) => {
                assert(tail_from(cur_bytes, e1 - cur) =~= input@.skip(e1 as int));
                match read_spec(input, e1) {
                    Err(e) => {
                        return Err(e);
                    },
                    Ok((v, e2)) => {
                        assert(tail_from(tail_from(cur_bytes, e1 - cur), e2 - e1) =~= input@.skip(
                            e2 as int,
                        ));
                        proof {
                            crate::schema::lemma_named_views_push(fields@, (nm, v));
                            crate::schema::lemma_named_views_len(fields@);
                        }
                        let ghost inner = parse_named_list(input@.skip(e2 as int), (n - i - 1) as u64);
                        assert(parse_named_list(cur_bytes, (n - i) as u64) == combine_named(
                            seq![(nm@, v@)],
                            (e1 - cur) + (e2 - e1),
                            inner,
                        ));
                        fields.push((nm, v));
                        assert(named_views(fields@) =~= views_before + seq![(fields@.last().0@, fields@.last().1@)]);
                        assert(combine_named(
                            views_before,
                            cur - pos,
                            combine_named(seq![(fields@.last().0@, fields@.last().1@)], e2 - cur, inner),
                        ) == combine_named(named_views(fields@), e2 - pos, inner)) by {
                            match inner {
                                Ok((fs, u)) => {
                                    assert(views_before + (seq![(fields@.last().0@, fields@.last().1@)] + fs)
                                        =~= named_views(fields@) + fs);
                                },
                                Err(_) => {},
                            }
                        }
                        cur = e2;
                        i = i + 1;
                    },
                }
            },
        }
    }
    proof {
        assert(parse_named_list(input@.skip(cur as int), 0) == Ok::<
            (Seq<(Seq<char>, SpecView)>, int),
            SpecParsingErrorView,
        >((Seq::empty(), 0)));
        assert(named_views(fields@) + Seq::<(Seq<char>, SpecView)>::empty() =~= named_views(
            fields@,
        ));
        lemma_wf_named_pointwise(named_views(fields@));
    }
    Ok((fields, cur))
}

/// Reads `n` bare child schemas starting at `pos`.
#[verifier::rlimit(60)]
fn read_elem_list(input: &[u8], pos: usize, n: u64) -> (r: Result<
    (Vec<Spec>, usize),
    SpecParsingError,
>)
    requires
        pos <= input@.len(),
    ensures
        match r {
            Ok((elems, end)) => {
                &&& pos <= end <= input@.len()
                &&& parse_elem_list(input@.skip(pos as int), n) == Ok::<
                    (Seq<SpecView>, int),
                    SpecParsingErrorView,
                >((elem_views(elems@), end - pos))
                &&& wf_elems(elem_views(elems@))
            },
            Err(e) => parse_elem_list(input@.skip(pos as int), n) == Err::<
                (Seq<SpecView>, int),
                SpecParsingErrorView,
            >(e@),
        },
    decreases input@.len() - pos, n as nat, 1nat,
{
    let mut elems: Vec<Spec> = Vec::new();
    let mut cur = pos;
    let mut i: u64 = 0;
    proof {
        assert(elem_views(elems@) =~= Seq::<SpecView>::empty());
    }
    while i < n
        invariant
            i <= n,
            pos <= cur <= input@.len(),
            elem_views(elems@).len() == i,
            forall|j: int| 0 <= j < i ==> wf(#[trigger] elem_views(elems@)[j]),
            parse_elem_list(input@.skip(pos as int), n) == combine_elems(
                elem_views(elems@),
                cur - pos,
                parse_elem_list(input@.skip(cur as int), (n - i) as u64),
            ),
        decreases n - i,
    {
        let ghost views_before = elem_views(elems@);
        let ghost cur_bytes = input@.skip(cur as int);
        match read_spec(input, cur) {
            Err(e) => {
                return Err(e);
            },
            Ok((v, e1)) => {
                assert(tail_from(cur_bytes, e1 - cur) =~= input@.skip(e1 as int));
                proof {
                    crate::schema::lemma_elem_views_push(elems@, v);
                    crate::schema::lemma_elem_views_len(elems@);
                }
                let ghost inner = parse_elem_list(input@.skip(e1 as int), (n - i - 1) as u64);
                assert(parse_elem_list(cur_bytes, (n - i) as u64) == combine_elems(
                    seq![v@],
                    e1 - cur,
                    inner,
                ));
                elems.push(v);
                assert(elem_views(elems@) =~= views_before + seq![elems@.last()@]);
                assert(combine_elems(
                    views_before,
                    cur - pos,
                    combine_elems(seq![elems@.last()@], e1 - cur, inner),
                ) == combine_elems(elem_views(elems@), e1 - pos, inner)) by {
                    match inner {
                        Ok((vs, u)) => {
                            assert(views_before + (seq![elems@.last()@] + vs) =~= elem_views(
                                elems@,
                            ) + vs);
                        },
                        Err(_) => {},
                    }
                }
                cur = e1;
                i = i + 1;
            },
        }
    }
    proof {
        assert(parse_elem_list(input@.skip(cur as int), 0) == Ok::<
            (Seq<SpecView>, int),
            SpecParsingErrorView,
        >((Seq::empty(), 0)));
        assert(elem_views(elems@) + Seq::<SpecView>::empty() =~= elem_views(elems@));
        lemma_wf_elems_pointwise(elem_views(elems@));
    }
    Ok((elems, cur))
}

impl Spec {
    /// Decodes one schema from the front of `input`, accepting alias and
    /// general forms as synonyms; bytes after the complete node are left
    /// unread.
    pub fn read_from_bytes(input: &[u8]) -> (r: Result<Spec, SpecParsingError>)
        ensures
            match r {
                Ok(s) => parse_spec(input@) matches Ok(p) && p.0 == s@ && wf(s@),
                Err(e) => parse_spec(input@) matches Err(pe) && pe == e@,
            },
    {
        proof {
            assert(input@.skip(0) =~= input@);
        }
        match read_spec(input, 0) {
            Ok((s, _)) => Ok(s),
            Err(e) => Err(e),
        }
    }
}

} // verus!
