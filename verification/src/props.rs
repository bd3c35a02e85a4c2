//! The laws of the wire format.
//!
//! Everything here is stated over the specification-level encoders and the
//! one parser, for every well-formed schema model: decoding an encoding —
//! compact or long-form — recovers exactly the schema and consumes exactly
//! its bytes; the long-form encoding is a canonical identity key; and
//! parsing any strict prefix of an encoding fails with
//! `UnexpectedEndOfBytes` and nothing else.

use vstd::prelude::*;

use crate::decode::parse_elem_list;
use crate::decode::parse_name;
use crate::decode::parse_named_list;
use crate::decode::parse_spec;
use crate::decode::tail_from;
use crate::descriptor::Size;
use crate::descriptor::StringEncodingFmt;
use crate::descriptor::lemma_parse_size_bytes;
use crate::descriptor::lemma_parse_size_bytes_trunc;
use crate::descriptor::size_bytes;
use crate::encode::compact_bytes;
use crate::encode::enc_bytes;
use crate::encode::enc_elems_bytes;
use crate::encode::enc_named_bytes;
use crate::encode::longform_bytes;
use crate::encode::name_bytes;
use crate::error::SpecParsingErrorView;
use crate::schema::SpecView;
use crate::schema::wf;
use crate::schema::wf_elems;
use crate::schema::wf_named;
use crate::varint::lemma_parse_u64_bytes;
use crate::varint::lemma_parse_u64_bytes_trunc;
use crate::varint::varint_bytes;
use vstd::utf8::encode_utf8;

verus! {

/// Parsing an encoded name recovers it and consumes exactly its bytes,
/// whatever follows.
proof fn lemma_parse_name_bytes(name: Seq<char>, rest: Seq<u8>)
    requires
        encode_utf8(name).len() <= u64::MAX,
    ensures
        parse_name(name_bytes(name) + rest) == Ok::<(Seq<char>, int), SpecParsingErrorView>(
            (name, name_bytes(name).len() as int),
        ),
{
    broadcast use vstd::utf8::encode_utf8_valid_utf8;
    broadcast use vstd::utf8::encode_utf8_decode_utf8;

    let nb = encode_utf8(name);
    let len_u64: u64 = nb.len() as u64;
    let vb = varint_bytes(len_u64 as nat);
    let whole = name_bytes(name) + rest;
    assert(whole =~= vb + (nb + rest));
    lemma_parse_u64_bytes(len_u64, nb + rest);
    assert(whole.subrange(vb.len() as int, vb.len() + len_u64 as int) =~= nb);
}

/// Parsing any strict prefix of an encoded name reports end of input.
proof fn lemma_parse_name_bytes_trunc(name: Seq<char>, k: int)
    requires
        encode_utf8(name).len() <= u64::MAX,
        0 <= k < name_bytes(name).len(),
    ensures
        parse_name(name_bytes(name).take(k)) == Err::<(Seq<char>, int), SpecParsingErrorView>(
            SpecParsingErrorView::UnexpectedEndOfBytes,
        ),
{
    let nb = encode_utf8(name);
    let len_u64: u64 = nb.len() as u64;
    let vb = varint_bytes(len_u64 as nat);
    let enc = name_bytes(name);
    if k < vb.len() {
        assert(enc.take(k) =~= vb.take(k));
        lemma_parse_u64_bytes_trunc(len_u64, k);
    } else {
        assert(enc.take(k) =~= vb + nb.take(k - vb.len()));
        lemma_parse_u64_bytes(len_u64, nb.take(k - vb.len()));
    }
}

/// Round trip: parsing the encoding of a well-formed schema — compact or
/// long-form — recovers exactly that schema and consumes exactly its bytes,
/// whatever follows them.
#[verifier::rlimit(100)]
pub proof fn lemma_parse_enc(v: SpecView, longform: bool, rest: Seq<u8>)
    requires
        wf(v),
    ensures
        parse_spec(enc_bytes(v, longform) + rest) == Ok::<(SpecView, int), SpecParsingErrorView>(
            (v, enc_bytes(v, longform).len() as int),
        ),
    decreases v, 1nat,
{
    let enc = enc_bytes(v, longform);
    let whole = enc + rest;
    match v {
        SpecView::Bool => {
            assert(whole[0] == crate::encode::BOOL);
        },
        SpecView::Void => {
            assert(whole[0] == crate::encode::VOID);
        },
        SpecView::Uint(scale) => {
            if !longform && scale <= 3 {
                assert(whole[0] == scale);
            } else {
                assert(whole[0] == crate::encode::UINT);
                assert(whole.skip(1)[0] == scale);
            }
        },
        SpecView::Int(scale) => {
            if !longform && scale <= 3 {
                assert(whole[0] == crate::encode::INT_0 + scale);
            } else {
                assert(whole[0] == crate::encode::INT);
                assert(whole.skip(1)[0] == scale);
            }
        },
        SpecView::BinaryFloatingPoint(fmt) => {
            assert(whole[0] == enc[0]);
            if enc.len() == 2 {
                assert(whole.skip(1)[0] == crate::descriptor::binary_fp_byte(fmt));
            }
        },
        SpecView::DecimalFloatingPoint(fmt) => {
            assert(whole[0] == crate::encode::DECIMAL_FP);
            assert(whole.skip(1)[0] == crate::descriptor::decimal_fp_byte(fmt));
        },
        SpecView::Decimal { precision, scale } => {
            lemma_parse_enc_decimal(v, longform, rest);
        },
        SpecView::Mapping { size, key_spec, value_spec } => {
            lemma_parse_enc_mapping(v, longform, rest);
        },
        SpecView::List { size, value_spec } => {
            lemma_parse_enc_list(v, longform, rest);
        },
        SpecView::String(size, fmt) => {
            lemma_parse_enc_string(v, longform, rest);
        },
        SpecView::Bytes(size) => {
            assert(whole[0] == crate::encode::BYTES);
            assert(whole.skip(1) =~= size_bytes(size) + rest);
            lemma_parse_size_bytes(size, rest);
        },
        SpecView::Optional(inner) => {
            assert(whole[0] == crate::encode::OPTIONAL);
            assert(whole.skip(1) =~= enc_bytes(*inner, longform) + rest);
            lemma_parse_enc(*inner, longform, rest);
        },
        SpecView::Name { name, spec } => {
            lemma_parse_enc_name(v, longform, rest);
        },
        SpecView::Ref { name } => {
            assert(whole[0] == crate::encode::REF);
            assert(whole.skip(1) =~= name_bytes(name) + rest);
            lemma_parse_name_bytes(name, rest);
        },
        SpecView::Record(fields) => {
            lemma_parse_enc_record(v, longform, rest);
        },
        SpecView::Tuple(elems) => {
            lemma_parse_enc_tuple(v, longform, rest);
        },
        SpecView::Enum(variants) => {
            lemma_parse_enc_enum(v, longform, rest);
        },
        SpecView::Union(variants) => {
            lemma_parse_enc_union(v, longform, rest);
        },
    }
}

/// The `Decimal` case of [`lemma_parse_enc`].
proof fn lemma_parse_enc_decimal(v: SpecView, longform: bool, rest: Seq<u8>)
    requires
        wf(v),
        v is Decimal,
    ensures
        parse_spec(enc_bytes(v, longform) + rest) == Ok::<(SpecView, int), SpecParsingErrorView>(
            (v, enc_bytes(v, longform).len() as int),
        ),
    decreases v, 0nat,
{
    let enc = enc_bytes(v, longform);
    let whole = enc + rest;
    match v {
        SpecView::Decimal { precision, scale } => {
            assert(whole[0] == crate::encode::DECIMAL);
            let vb1 = varint_bytes(precision as nat);
            let vb2 = varint_bytes(scale as nat);
            assert(whole.skip(1) =~= vb1 + (vb2 + rest));
            lemma_parse_u64_bytes(precision, vb2 + rest);
            assert(tail_from(whole.skip(1), vb1.len() as int) =~= vb2 + rest);
            lemma_parse_u64_bytes(scale, rest);
        },
        _ => {},
    }
}

/// The `Mapping` case of [`lemma_parse_enc`].
proof fn lemma_parse_enc_mapping(v: SpecView, longform: bool, rest: Seq<u8>)
    requires
        wf(v),
        v is Mapping,
    ensures
        parse_spec(enc_bytes(v, longform) + rest) == Ok::<(SpecView, int), SpecParsingErrorView>(
            (v, enc_bytes(v, longform).len() as int),
        ),
    decreases v, 0nat,
{
    let enc = enc_bytes(v, longform);
    let whole = enc + rest;
    match v {
        SpecView::Mapping { size, key_spec, value_spec } => {
            assert(whole[0] == crate::encode::MAP);
            let sb = size_bytes(size);
            let kb = enc_bytes(*key_spec, longform);
            let vb = enc_bytes(*value_spec, longform);
            assert(whole.skip(1) =~= sb + (kb + (vb + rest)));
            lemma_parse_size_bytes(size, kb + (vb + rest));
            assert(tail_from(whole.skip(1), sb.len() as int) =~= kb + (vb + rest));
            lemma_parse_enc(*key_spec, longform, vb + rest);
            assert(tail_from(tail_from(whole.skip(1), sb.len() as int), kb.len() as int) =~= vb
                + rest);
            lemma_parse_enc(*value_spec, longform, rest);
        },
        _ => {},
    }
}

/// The `List` case of [`lemma_parse_enc`].
proof fn lemma_parse_enc_list(v: SpecView, longform: bool, rest: Seq<u8>)
    requires
        wf(v),
        v is List,
    ensures
        parse_spec(enc_bytes(v, longform) + rest) == Ok::<(SpecView, int), SpecParsingErrorView>(
            (v, enc_bytes(v, longform).len() as int),
        ),
    decreases v, 0nat,
{
    let enc = enc_bytes(v, longform);
    let whole = enc + rest;
    match v {
        SpecView::List { size, value_spec } => {
            assert(whole[0] == crate::encode::LIST);
            let sb = size_bytes(size);
            let vb = enc_bytes(*value_spec, longform);
            assert(whole.skip(1) =~= sb + (vb + rest));
            lemma_parse_size_bytes(size, vb + rest);
            assert(tail_from(whole.skip(1), sb.len() as int) =~= vb + rest);
            lemma_parse_enc(*value_spec, longform, rest);
        },
        _ => {},
    }
}

/// The `String` case of [`lemma_parse_enc`].
proof fn lemma_parse_enc_string(v: SpecView, longform: bool, rest: Seq<u8>)
    requires
        wf(v),
        v is String,
    ensures
        parse_spec(enc_bytes(v, longform) + rest) == Ok::<(SpecView, int), SpecParsingErrorView>(
            (v, enc_bytes(v, longform).len() as int),
        ),
    decreases v, 0nat,
{
    let enc = enc_bytes(v, longform);
    let whole = enc + rest;
    match v {
        SpecView::String(size, fmt) => {
            if !longform && size == Size::Variable && fmt == StringEncodingFmt::Utf8 {
                assert(whole[0] == crate::encode::UTF8_STRING);
            } else {
                assert(whole[0] == crate::encode::STRING);
                let sb = size_bytes(size);
                let fb = seq![crate::descriptor::string_fmt_byte(fmt)];
                assert(whole.skip(1) =~= sb + (fb + rest));
                lemma_parse_size_bytes(size, fb + rest);
                assert(tail_from(whole.skip(1), sb.len() as int) =~= fb + rest);
                assert((fb + rest)[0] == crate::descriptor::string_fmt_byte(fmt));
            }
        },
        _ => {},
    }
}

/// The `Name` case of [`lemma_parse_enc`].
proof fn lemma_parse_enc_name(v: SpecView, longform: bool, rest: Seq<u8>)
    requires
        wf(v),
        v is Name,
    ensures
        parse_spec(enc_bytes(v, longform) + rest) == Ok::<(SpecView, int), SpecParsingErrorView>(
            (v, enc_bytes(v, longform).len() as int),
        ),
    decreases v, 0nat,
{
    let enc = enc_bytes(v, longform);
    let whole = enc + rest;
    match v {
        SpecView::Name { name, spec } => {
            assert(whole[0] == crate::encode::NAME);
            let nb = name_bytes(name);
            let eb = enc_bytes(*spec, longform);
            assert(whole.skip(1) =~= nb + (eb + rest));
            lemma_parse_name_bytes(name, eb + rest);
            assert(tail_from(whole.skip(1), nb.len() as int) =~= eb + rest);
            lemma_parse_enc(*spec, longform, rest);
        },
        _ => {},
    }
}

/// The `Record` case of [`lemma_parse_enc`].
proof fn lemma_parse_enc_record(v: SpecView, longform: bool, rest: Seq<u8>)
    requires
        wf(v),
        v is Record,
    ensures
        parse_spec(enc_bytes(v, longform) + rest) == Ok::<(SpecView, int), SpecParsingErrorView>(
            (v, enc_bytes(v, longform).len() as int),
        ),
    decreases v, 0nat,
{
    let enc = enc_bytes(v, longform);
    let whole = enc + rest;
    match v {
        SpecView::Record(fields) => {
            assert(whole[0] == crate::encode::RECORD);
            let n: u64 = fields.len() as u64;
            let vb = varint_bytes(n as nat);
            let fb = enc_named_bytes(fields, longform);
            assert(whole.skip(1) =~= vb + (fb + rest));
            lemma_parse_u64_bytes(n, fb + rest);
            assert(tail_from(whole.skip(1), vb.len() as int) =~= fb + rest);
            lemma_parse_enc_named(fields, longform, rest, n);
        },
        _ => {},
    }
}

/// The `Tuple` case of [`lemma_parse_enc`].
proof fn lemma_parse_enc_tuple(v: SpecView, longform: bool, rest: Seq<u8>)
    requires
        wf(v),
        v is Tuple,
    ensures
        parse_spec(enc_bytes(v, longform) + rest) == Ok::<(SpecView, int), SpecParsingErrorView>(
            (v, enc_bytes(v, longform).len() as int),
        ),
    decreases v, 0nat,
{
    let enc = enc_bytes(v, longform);
    let whole = enc + rest;
    match v {
        SpecView::Tuple(elems) => {
            assert(whole[0] == crate::encode::TUPLE);
            let n: u64 = elems.len() as u64;
            let vb = varint_bytes(n as nat);
            let eb = enc_elems_bytes(elems, longform);
            assert(whole.skip(1) =~= vb + (eb + rest));
            lemma_parse_u64_bytes(n, eb + rest);
            assert(tail_from(whole.skip(1), vb.len() as int) =~= eb + rest);
            lemma_parse_enc_elems(elems, longform, rest, n);
        },
        _ => {},
    }
}

/// The `Enum` case of [`lemma_parse_enc`].
proof fn lemma_parse_enc_enum(v: SpecView, longform: bool, rest: Seq<u8>)
    requires
        wf(v),
        v is Enum,
    ensures
        parse_spec(enc_bytes(v, longform) + rest) == Ok::<(SpecView, int), SpecParsingErrorView>(
            (v, enc_bytes(v, longform).len() as int),
        ),
    decreases v, 0nat,
{
    let enc = enc_bytes(v, longform);
    let whole = enc + rest;
    match v {
        SpecView::Enum(variants) => {
            assert(whole[0] == crate::encode::ENUM);
            let n: u64 = variants.len() as u64;
            let vb = varint_bytes(n as nat);
            let fb = enc_named_bytes(variants, longform);
            assert(whole.skip(1) =~= vb + (fb + rest));
            lemma_parse_u64_bytes(n, fb + rest);
            assert(tail_from(whole.skip(1), vb.len() as int) =~= fb + rest);
            lemma_parse_enc_named(variants, longform, rest, n);
        },
        _ => {},
    }
}

/// The `Union` case of [`lemma_parse_enc`].
proof fn lemma_parse_enc_union(v: SpecView, longform: bool, rest: Seq<u8>)
    requires
        wf(v),
        v is Union,
    ensures
        parse_spec(enc_bytes(v, longform) + rest) == Ok::<(SpecView, int), SpecParsingErrorView>(
            (v, enc_bytes(v, longform).len() as int),
        ),
    decreases v, 0nat,
{
    let enc = enc_bytes(v, longform);
    let whole = enc + rest;
    match v {
        SpecView::Union(variants) => {
            assert(whole[0] == crate::encode::UNION);
            let n: u64 = variants.len() as u64;
            let vb = varint_bytes(n as nat);
            let eb = enc_elems_bytes(variants, longform);
            assert(whole.skip(1) =~= vb + (eb + rest));
            lemma_parse_u64_bytes(n, eb + rest);
            assert(tail_from(whole.skip(1), vb.len() as int) =~= eb + rest);
            lemma_parse_enc_elems(variants, longform, rest, n);
        },
        _ => {},
    }
}

/// Round trip for a named-field list of known count.
#[verifier::rlimit(100)]
proof fn lemma_parse_enc_named(
    fields: Seq<(Seq<char>, SpecView)>,
    longform: bool,
    rest: Seq<u8>,
    n: u64,
)
    requires
        wf_named(fields),
        n as int == fields.len(),
    ensures
        parse_named_list(enc_named_bytes(fields, longform) + rest, n) == Ok::<
            (Seq<(Seq<char>, SpecView)>, int),
            SpecParsingErrorView,
        >((fields, enc_named_bytes(fields, longform).len() as int)),
    decreases fields, 1nat,
{
    let fb = enc_named_bytes(fields, longform);
    let whole = fb + rest;
    if n == 0 {
        assert(fields =~= Seq::<(Seq<char>, SpecView)>::empty());
    } else {
        let tail = fields.subrange(1, fields.len() as int);
        let nb = name_bytes(fields[0].0);
        let eb = enc_bytes(fields[0].1, longform);
        let tb = enc_named_bytes(tail, longform);
        assert(whole =~= nb + (eb + (tb + rest)));
        lemma_parse_name_bytes(fields[0].0, eb + (tb + rest));
        assert(tail_from(whole, nb.len() as int) =~= eb + (tb + rest));
        lemma_parse_enc(fields[0].1, longform, tb + rest);
        assert(tail_from(tail_from(whole, nb.len() as int), eb.len() as int) =~= tb + rest);
        lemma_parse_enc_named(tail, longform, rest, (n - 1) as u64);
        assert(seq![(fields[0].0, fields[0].1)] + tail =~= fields);
    }
}

/// Round trip for a bare child list of known count.
#[verifier::rlimit(100)]
proof fn lemma_parse_enc_elems(elems: Seq<SpecView>, longform: bool, rest: Seq<u8>, n: u64)
    requires
        wf_elems(elems),
        n as int == elems.len(),
    ensures
        parse_elem_list(enc_elems_bytes(elems, longform) + rest, n) == Ok::<
            (Seq<SpecView>, int),
            SpecParsingErrorView,
        >((elems, enc_elems_bytes(elems, longform).len() as int)),
    decreases elems, 1nat,
{
    let eb = enc_elems_bytes(elems, longform);
    let whole = eb + rest;
    if n == 0 {
        assert(elems =~= Seq::<SpecView>::empty());
    } else {
        let tail = elems.subrange(1, elems.len() as int);
        let hb = enc_bytes(elems[0], longform);
        let tb = enc_elems_bytes(tail, longform);
        assert(whole =~= hb + (tb + rest));
        lemma_parse_enc(elems[0], longform, tb + rest);
        assert(tail_from(whole, hb.len() as int) =~= tb + rest);
        lemma_parse_enc_elems(tail, longform, rest, (n - 1) as u64);
        assert(seq![elems[0]] + tail =~= elems);
    }
}

/// Truncation: parsing any strict prefix of an encoding — compact or
/// long-form — of a well-formed schema fails with `UnexpectedEndOfBytes`,
/// never another error and never a spurious success.
pub proof fn lemma_parse_enc_trunc(v: SpecView, longform: bool, k: int)
    requires
        wf(v),
        0 <= k < enc_bytes(v, longform).len(),
    ensures
        parse_spec(enc_bytes(v, longform).take(k)) == Err::<(SpecView, int), SpecParsingErrorView>(
            SpecParsingErrorView::UnexpectedEndOfBytes,
        ),
    decreases v, 1nat,
{
    let enc = enc_bytes(v, longform);
    if k == 0 {
        assert(enc.take(0).len() == 0);
    } else {
        match v {
            SpecView::Bool => {},
            SpecView::Void => {},
            SpecView::Uint(scale) => {
                if !(!longform && scale <= 3) {
                    assert(enc.take(k)[0] == crate::encode::UINT);
                    assert(enc.take(k).skip(1).len() == 0);
                }
            },
            SpecView::Int(scale) => {
                if !(!longform && scale <= 3) {
                    assert(enc.take(k)[0] == crate::encode::INT);
                    assert(enc.take(k).skip(1).len() == 0);
                }
            },
            SpecView::BinaryFloatingPoint(fmt) => {
                if enc.len() == 2 {
                    assert(enc.take(k)[0] == crate::encode::BINARY_FP);
                    assert(enc.take(k).skip(1).len() == 0);
                }
            },
            SpecView::DecimalFloatingPoint(fmt) => {
                assert(enc.take(k)[0] == crate::encode::DECIMAL_FP);
                assert(enc.take(k).skip(1).len() == 0);
            },
            SpecView::Decimal { precision, scale } => {
                lemma_parse_enc_trunc_decimal(v, longform, k);
            },
            SpecView::Mapping { .. } => {
                lemma_parse_enc_trunc_mapping(v, longform, k);
            },
            SpecView::List { .. } => {
                lemma_parse_enc_trunc_list(v, longform, k);
            },
            SpecView::String(size, fmt) => {
                lemma_parse_enc_trunc_string(v, longform, k);
            },
            SpecView::Bytes(size) => {
                assert(enc.take(k)[0] == crate::encode::BYTES);
                assert(enc.take(k).skip(1) =~= size_bytes(size).take(k - 1));
                lemma_parse_size_bytes_trunc(size, k - 1);
            },
            SpecView::Optional(inner) => {
                assert(enc.take(k)[0] == crate::encode::OPTIONAL);
                assert(enc.take(k).skip(1) =~= enc_bytes(*inner, longform).take(k - 1));
                lemma_parse_enc_trunc(*inner, longform, k - 1);
            },
            SpecView::Name { .. } => {
                lemma_parse_enc_trunc_name(v, longform, k);
            },
            SpecView::Ref { name } => {
                assert(enc.take(k)[0] == crate::encode::REF);
                assert(enc.take(k).skip(1) =~= name_bytes(name).take(k - 1));
                lemma_parse_name_bytes_trunc(name, k - 1);
            },
            SpecView::Record(_) => {
                lemma_parse_enc_trunc_record(v, longform, k, crate::encode::RECORD);
            },
            SpecView::Enum(_) => {
                lemma_parse_enc_trunc_record(v, longform, k, crate::encode::ENUM);
            },
            SpecView::Tuple(_) => {
                lemma_parse_enc_trunc_tuple(v, longform, k, crate::encode::TUPLE);
            },
            SpecView::Union(_) => {
                lemma_parse_enc_trunc_tuple(v, longform, k, crate::encode::UNION);
            },
        }
    }
}

/// The `Decimal` case of [`lemma_parse_enc_trunc`].
proof fn lemma_parse_enc_trunc_decimal(v: SpecView, longform: bool, k: int)
    requires
        wf(v),
        v is Decimal,
        1 <= k < enc_bytes(v, longform).len(),
    ensures
        parse_spec(enc_bytes(v, longform).take(k)) == Err::<(SpecView, int), SpecParsingErrorView>(
            SpecParsingErrorView::UnexpectedEndOfBytes,
        ),
    decreases v, 0nat,
{
    let enc = enc_bytes(v, longform);
    match v {
        SpecView::Decimal { precision, scale } => {
            let vb1 = varint_bytes(precision as nat);
            let vb2 = varint_bytes(scale as nat);
            let j = k - 1;
            assert(enc.take(k)[0] == crate::encode::DECIMAL);
            if j < vb1.len() {
                assert(enc.take(k).skip(1) =~= vb1.take(j));
                lemma_parse_u64_bytes_trunc(precision, j);
            } else {
                assert(enc.take(k).skip(1) =~= vb1 + vb2.take(j - vb1.len()));
                lemma_parse_u64_bytes(precision, vb2.take(j - vb1.len()));
                assert(tail_from(enc.take(k).skip(1), vb1.len() as int) =~= vb2.take(
                    j - vb1.len(),
                ));
                lemma_parse_u64_bytes_trunc(scale, j - vb1.len());
            }
        },
        _ => {},
    }
}

/// The `Mapping` case of [`lemma_parse_enc_trunc`].
#[verifier::rlimit(100)]
proof fn lemma_parse_enc_trunc_mapping(v: SpecView, longform: bool, k: int)
    requires
        wf(v),
        v is Mapping,
        1 <= k < enc_bytes(v, longform).len(),
    ensures
        parse_spec(enc_bytes(v, longform).take(k)) == Err::<(SpecView, int), SpecParsingErrorView>(
            SpecParsingErrorView::UnexpectedEndOfBytes,
        ),
    decreases v, 0nat,
{
    let enc = enc_bytes(v, longform);
    match v {
        SpecView::Mapping { size, key_spec, value_spec } => {
            let sb = size_bytes(size);
            let kb = enc_bytes(*key_spec, longform);
            let vb = enc_bytes(*value_spec, longform);
            let j = k - 1;
            assert(enc.take(k)[0] == crate::encode::MAP);
            if j < sb.len() {
                assert(enc.take(k).skip(1) =~= sb.take(j));
                lemma_parse_size_bytes_trunc(size, j);
            } else if j < sb.len() + kb.len() {
                let jk = j - sb.len();
                assert(enc.take(k).skip(1) =~= sb + kb.take(jk));
                lemma_parse_size_bytes(size, kb.take(jk));
                assert(tail_from(enc.take(k).skip(1), sb.len() as int) =~= kb.take(jk));
                lemma_parse_enc_trunc(*key_spec, longform, jk);
            } else {
                let jv = j - sb.len() - kb.len();
                assert(enc.take(k).skip(1) =~= sb + (kb + vb.take(jv)));
                lemma_parse_size_bytes(size, kb + vb.take(jv));
                assert(tail_from(enc.take(k).skip(1), sb.len() as int) =~= kb + vb.take(jv));
                lemma_parse_enc(*key_spec, longform, vb.take(jv));
                assert(tail_from(tail_from(enc.take(k).skip(1), sb.len() as int), kb.len() as int)
                    =~= vb.take(jv));
                lemma_parse_enc_trunc(*value_spec, longform, jv);
            }
        },
        _ => {},
    }
}

/// The `List` case of [`lemma_parse_enc_trunc`].
proof fn lemma_parse_enc_trunc_list(v: SpecView, longform: bool, k: int)
    requires
        wf(v),
        v is List,
        1 <= k < enc_bytes(v, longform).len(),
    ensures
        parse_spec(enc_bytes(v, longform).take(k)) == Err::<(SpecView, int), SpecParsingErrorView>(
            SpecParsingErrorView::UnexpectedEndOfBytes,
        ),
    decreases v, 0nat,
{
    let enc = enc_bytes(v, longform);
    match v {
        SpecView::List { size, value_spec } => {
            let sb = size_bytes(size);
            let vb = enc_bytes(*value_spec, longform);
            let j = k - 1;
            assert(enc.take(k)[0] == crate::encode::LIST);
            if j < sb.len() {
                assert(enc.take(k).skip(1) =~= sb.take(j));
                lemma_parse_size_bytes_trunc(size, j);
            } else {
                let jv = j - sb.len();
                assert(enc.take(k).skip(1) =~= sb + vb.take(jv));
                lemma_parse_size_bytes(size, vb.take(jv));
                assert(tail_from(enc.take(k).skip(1), sb.len() as int) =~= vb.take(jv));
                lemma_parse_enc_trunc(*value_spec, longform, jv);
            }
        },
        _ => {},
    }
}

/// The general-form `String` case of [`lemma_parse_enc_trunc`].
proof fn lemma_parse_enc_trunc_string(v: SpecView, longform: bool, k: int)
    requires
        wf(v),
        v is String,
        1 <= k < enc_bytes(v, longform).len(),
    ensures
        parse_spec(enc_bytes(v, longform).take(k)) == Err::<(SpecView, int), SpecParsingErrorView>(
            SpecParsingErrorView::UnexpectedEndOfBytes,
        ),
    decreases v, 0nat,
{
    let enc = enc_bytes(v, longform);
    match v {
        SpecView::String(size, fmt) => {
            let sb = size_bytes(size);
            let j = k - 1;
            assert(enc.take(k)[0] == crate::encode::STRING);
            if j < sb.len() {
                assert(enc.take(k).skip(1) =~= sb.take(j));
                lemma_parse_size_bytes_trunc(size, j);
            } else {
                assert(j == sb.len());
                assert(enc.take(k).skip(1) =~= sb);
                assert(sb =~= sb + Seq::<u8>::empty());
                lemma_parse_size_bytes(size, Seq::empty());
                assert(tail_from(enc.take(k).skip(1), sb.len() as int).len() == 0);
            }
        },
        _ => {},
    }
}

/// The `Name` case of [`lemma_parse_enc_trunc`].
proof fn lemma_parse_enc_trunc_name(v: SpecView, longform: bool, k: int)
    requires
        wf(v),
        v is Name,
        1 <= k < enc_bytes(v, longform).len(),
    ensures
        parse_spec(enc_bytes(v, longform).take(k)) == Err::<(SpecView, int), SpecParsingErrorView>(
            SpecParsingErrorView::UnexpectedEndOfBytes,
        ),
    decreases v, 0nat,
{
    let enc = enc_bytes(v, longform);
    match v {
        SpecView::Name { name, spec } => {
            let nb = name_bytes(name);
            let eb = enc_bytes(*spec, longform);
            let j = k - 1;
            assert(enc.take(k)[0] == crate::encode::NAME);
            if j < nb.len() {
                assert(enc.take(k).skip(1) =~= nb.take(j));
                lemma_parse_name_bytes_trunc(name, j);
            } else {
                let je = j - nb.len();
                assert(enc.take(k).skip(1) =~= nb + eb.take(je));
                lemma_parse_name_bytes(name, eb.take(je));
                assert(tail_from(enc.take(k).skip(1), nb.len() as int) =~= eb.take(je));
                lemma_parse_enc_trunc(*spec, longform, je);
            }
        },
        _ => {},
    }
}

/// The `Record` and `Enum` cases of [`lemma_parse_enc_trunc`].
#[verifier::rlimit(100)]
proof fn lemma_parse_enc_trunc_record(v: SpecView, longform: bool, k: int, tag: u8)
    requires
        wf(v),
        v is Record || v is Enum,
        v is Record ==> tag == crate::encode::RECORD,
        v is Enum ==> tag == crate::encode::ENUM,
        1 <= k < enc_bytes(v, longform).len(),
    ensures
        parse_spec(enc_bytes(v, longform).take(k)) == Err::<(SpecView, int), SpecParsingErrorView>(
            SpecParsingErrorView::UnexpectedEndOfBytes,
        ),
    decreases v, 0nat,
{
    let enc = enc_bytes(v, longform);
    let fields = if v is Record {
        v->Record_0
    } else {
        v->Enum_0
    };
    let n: u64 = fields.len() as u64;
    let vb = varint_bytes(n as nat);
    let fb = enc_named_bytes(fields, longform);
    let j = k - 1;
    assert(enc =~= seq![tag] + vb + fb);
    assert(enc.take(k)[0] == tag);
    if j < vb.len() {
        assert(enc.take(k).skip(1) =~= vb.take(j));
        lemma_parse_u64_bytes_trunc(n, j);
    } else {
        let jf = j - vb.len();
        assert(enc.take(k).skip(1) =~= vb + fb.take(jf));
        lemma_parse_u64_bytes(n, fb.take(jf));
        assert(tail_from(enc.take(k).skip(1), vb.len() as int) =~= fb.take(jf));
        lemma_parse_enc_named_trunc(fields, longform, jf, n);
    }
}

/// The `Tuple` and `Union` cases of [`lemma_parse_enc_trunc`].
#[verifier::rlimit(100)]
proof fn lemma_parse_enc_trunc_tuple(v: SpecView, longform: bool, k: int, tag: u8)
    requires
        wf(v),
        v is Tuple || v is Union,
        v is Tuple ==> tag == crate::encode::TUPLE,
        v is Union ==> tag == crate::encode::UNION,
        1 <= k < enc_bytes(v, longform).len(),
    ensures
        parse_spec(enc_bytes(v, longform).take(k)) == Err::<(SpecView, int), SpecParsingErrorView>(
            SpecParsingErrorView::UnexpectedEndOfBytes,
        ),
    decreases v, 0nat,
{
    let enc = enc_bytes(v, longform);
    let elems = if v is Tuple {
        v->Tuple_0
    } else {
        v->Union_0
    };
    let n: u64 = elems.len() as u64;
    let vb = varint_bytes(n as nat);
    let eb = enc_elems_bytes(elems, longform);
    let j = k - 1;
    assert(enc =~= seq![tag] + vb + eb);
    assert(enc.take(k)[0] == tag);
    if j < vb.len() {
        assert(enc.take(k).skip(1) =~= vb.take(j));
        lemma_parse_u64_bytes_trunc(n, j);
    } else {
        let je = j - vb.len();
        assert(enc.take(k).skip(1) =~= vb + eb.take(je));
        lemma_parse_u64_bytes(n, eb.take(je));
        assert(tail_from(enc.take(k).skip(1), vb.len() as int) =~= eb.take(je));
        lemma_parse_enc_elems_trunc(elems, longform, je, n);
    }
}

/// Truncation for a named-field list of known count.
#[verifier::rlimit(100)]
proof fn lemma_parse_enc_named_trunc(
    fields: Seq<(Seq<char>, SpecView)>,
    longform: bool,
    k: int,
    n: u64,
)
    requires
        wf_named(fields),
        n as int == fields.len(),
        0 <= k < enc_named_bytes(fields, longform).len(),
    ensures
        parse_named_list(enc_named_bytes(fields, longform).take(k), n) == Err::<
            (Seq<(Seq<char>, SpecView)>, int),
            SpecParsingErrorView,
        >(SpecParsingErrorView::UnexpectedEndOfBytes),
    decreases fields, 1nat,
{
    let fb = enc_named_bytes(fields, longform);
    if fields.len() == 0 {
    } else {
        let tail = fields.subrange(1, fields.len() as int);
        let nb = name_bytes(fields[0].0);
        let eb = enc_bytes(fields[0].1, longform);
        let tb = enc_named_bytes(tail, longform);
        if k < nb.len() {
            assert(fb.take(k) =~= nb.take(k));
            lemma_parse_name_bytes_trunc(fields[0].0, k);
        } else if k < nb.len() + eb.len() {
            let je = k - nb.len();
            assert(fb.take(k) =~= nb + eb.take(je));
            lemma_parse_name_bytes(fields[0].0, eb.take(je));
            assert(tail_from(fb.take(k), nb.len() as int) =~= eb.take(je));
            lemma_parse_enc_trunc(fields[0].1, longform, je);
        } else {
            let jt = k - nb.len() - eb.len();
            assert(fb.take(k) =~= nb + (eb + tb.take(jt)));
            lemma_parse_name_bytes(fields[0].0, eb + tb.take(jt));
            assert(tail_from(fb.take(k), nb.len() as int) =~= eb + tb.take(jt));
            lemma_parse_enc(fields[0].1, longform, tb.take(jt));
            assert(tail_from(tail_from(fb.take(k), nb.len() as int), eb.len() as int) =~= tb.take(
                jt,
            ));
            lemma_parse_enc_named_trunc(tail, longform, jt, (n - 1) as u64);
        }
    }
}

/// Truncation for a bare child list of known count.
#[verifier::rlimit(100)]
proof fn lemma_parse_enc_elems_trunc(elems: Seq<SpecView>, longform: bool, k: int, n: u64)
    requires
        wf_elems(elems),
        n as int == elems.len(),
        0 <= k < enc_elems_bytes(elems, longform).len(),
    ensures
        parse_elem_list(enc_elems_bytes(elems, longform).take(k), n) == Err::<
            (Seq<SpecView>, int),
            SpecParsingErrorView,
        >(SpecParsingErrorView::UnexpectedEndOfBytes),
    decreases elems, 1nat,
{
    let eb = enc_elems_bytes(elems, longform);
    if elems.len() == 0 {
    } else {
        let tail = elems.subrange(1, elems.len() as int);
        let hb = enc_bytes(elems[0], longform);
        let tb = enc_elems_bytes(tail, longform);
        if k < hb.len() {
            assert(eb.take(k) =~= hb.take(k));
            lemma_parse_enc_trunc(elems[0], longform, k);
        } else {
            let jt = k - hb.len();
            assert(eb.take(k) =~= hb + tb.take(jt));
            lemma_parse_enc(elems[0], longform, tb.take(jt));
            assert(tail_from(eb.take(k), hb.len() as int) =~= tb.take(jt));
            lemma_parse_enc_elems_trunc(tail, longform, jt, (n - 1) as u64);
        }
    }
}

/// Truncation failure for the compact form in particular: any strict prefix
/// of `to_bytes` output decodes to `UnexpectedEndOfBytes`.
pub proof fn lemma_compact_truncation(v: SpecView, k: int)
    requires
        wf(v),
        0 <= k < compact_bytes(v).len(),
    ensures
        parse_spec(compact_bytes(v).take(k)) == Err::<(SpecView, int), SpecParsingErrorView>(
            SpecParsingErrorView::UnexpectedEndOfBytes,
        ),
{
    lemma_parse_enc_trunc(v, false, k);
}

/// Round trip, compact form: decoding a compact encoding yields back the
/// schema it encodes, consuming the whole of it.
pub proof fn lemma_compact_round_trip(v: SpecView)
    requires
        wf(v),
    ensures
        parse_spec(compact_bytes(v)) == Ok::<(SpecView, int), SpecParsingErrorView>(
            (v, compact_bytes(v).len() as int),
        ),
{
    lemma_parse_enc(v, false, Seq::empty());
    assert(compact_bytes(v) + Seq::<u8>::empty() =~= compact_bytes(v));
}

/// Round trip, long form: the shared decoder also reads the canonical
/// encoding back to the same schema.
pub proof fn lemma_longform_round_trip(v: SpecView)
    requires
        wf(v),
    ensures
        parse_spec(longform_bytes(v)) == Ok::<(SpecView, int), SpecParsingErrorView>(
            (v, longform_bytes(v).len() as int),
        ),
{
    lemma_parse_enc(v, true, Seq::empty());
    assert(longform_bytes(v) + Seq::<u8>::empty() =~= longform_bytes(v));
}

/// Canonical stability: two well-formed schemas have the same long-form
/// encoding exactly when they are equal.
pub proof fn lemma_longform_canonical(a: SpecView, b: SpecView)
    requires
        wf(a),
        wf(b),
    ensures
        (longform_bytes(a) == longform_bytes(b)) <==> (a == b),
{
    if longform_bytes(a) == longform_bytes(b) {
        lemma_longform_round_trip(a);
        lemma_longform_round_trip(b);
    }
}

} // verus!
