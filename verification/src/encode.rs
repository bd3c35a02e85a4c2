//! The two schema encoders and the mathematical wire format they emit.
//!
//! Every node has a general form: one tag byte followed by the
//! variant-specific payload.  The compact encoder substitutes a reserved
//! single alias byte for a handful of exact special cases; the canonical
//! long-form encoder never does, so that structurally equal schemas — and
//! only those — produce byte-identical output.  Both are instances of one
//! specification-level function, [`enc_bytes`], switched by a long-form
//! flag, and the one decoder accepts the two forms as synonyms.

use vstd::prelude::*;

use crate::descriptor::Size;
use crate::descriptor::StringEncodingFmt;
use crate::descriptor::binary_fp_byte;
use crate::descriptor::decimal_fp_byte;
use crate::descriptor::size_bytes;
use crate::descriptor::string_fmt_byte;
use crate::schema::Spec;
use crate::schema::SpecView;
use crate::schema::lemma_named_views_index;
use crate::schema::lemma_elem_views_index;
use crate::schema::lemma_wf_named_pointwise;
use crate::schema::lemma_wf_elems_pointwise;
use crate::schema::wf;
use crate::schema::wf_named;
use crate::schema::wf_elems;
use crate::schema::named_views;
use crate::schema::elem_views;
use crate::varint::encode_varint_u64;
use crate::varint::varint_bytes;
use vstd::utf8::encode_utf8;

verus! {

// The general wire tags, all at byte value 32 or above.
pub const BOOL: u8 = 32;
pub const UINT: u8 = 33;
pub const NAME: u8 = 34;
pub const INT: u8 = 35;
pub const BINARY_FP: u8 = 36;
pub const DECIMAL_FP: u8 = 37;
pub const REF: u8 = 38;
pub const VOID: u8 = 39;
pub const LIST: u8 = 40;
pub const MAP: u8 = 41;
pub const RECORD: u8 = 42;
pub const ENUM: u8 = 43;
pub const UNION: u8 = 45;
pub const DECIMAL: u8 = 46;
pub const TUPLE: u8 = 47;
pub const BYTES: u8 = 48;
pub const STRING: u8 = 49;
pub const OPTIONAL: u8 = 63;

// The alias bytes of the compact form, at byte values 0 through 10,
// disjoint from the general tags by construction.
pub const UINT_0: u8 = 0;
pub const UINT_1: u8 = 1;
pub const UINT_2: u8 = 2;
pub const UINT_3: u8 = 3;
pub const INT_0: u8 = 4;
pub const INT_1: u8 = 5;
pub const INT_2: u8 = 6;
pub const INT_3: u8 = 7;
pub const SINGLE_FP: u8 = 8;
pub const DOUBLE_FP: u8 = 9;
pub const UTF8_STRING: u8 = 10;

/// The wire form of a name or string literal: a variable-length byte-length
/// prefix followed by that many UTF-8 bytes.
pub open spec fn name_bytes(name: Seq<char>) -> Seq<u8> {
    varint_bytes((encode_utf8(name).len() as u64) as nat) + encode_utf8(name)
}

/// The bytes a schema node encodes to.  With `longform` unset this is the
/// compact form, which uses the alias bytes; with it set, always the general
/// tag-plus-payload form, recursively.
pub open spec fn enc_bytes(v: SpecView, longform: bool) -> Seq<u8>
    decreases v,
{
    match v {
        SpecView::Bool => seq![BOOL],
        SpecView::Uint(scale) => if !longform && scale <= 3 {
            seq![(UINT_0 + scale) as u8]
        } else {
            seq![UINT, scale]
        },
        SpecView::Int(scale) => if !longform && scale <= 3 {
            seq![(INT_0 + scale) as u8]
        } else {
            seq![INT, scale]
        },
        SpecView::BinaryFloatingPoint(fmt) => if !longform && fmt
            == crate::descriptor::InterchangeBinaryFloatingPointFormat::Single {
            seq![SINGLE_FP]
        } else if !longform && fmt
            == crate::descriptor::InterchangeBinaryFloatingPointFormat::Double {
            seq![DOUBLE_FP]
        } else {
            seq![BINARY_FP, binary_fp_byte(fmt)]
        },
        SpecView::DecimalFloatingPoint(fmt) => seq![DECIMAL_FP, decimal_fp_byte(fmt)],
        SpecView::Decimal { precision, scale } => seq![DECIMAL] + varint_bytes(precision as nat)
            + varint_bytes(scale as nat),
        SpecView::Mapping { size, key_spec, value_spec } => seq![MAP] + size_bytes(size)
            + enc_bytes(*key_spec, longform) + enc_bytes(*value_spec, longform),
        SpecView::List { size, value_spec } => seq![LIST] + size_bytes(size) + enc_bytes(
            *value_spec,
            longform,
        ),
        SpecView::String(size, fmt) => if !longform && size == Size::Variable && fmt
            == StringEncodingFmt::Utf8 {
            seq![UTF8_STRING]
        } else {
            seq![STRING] + size_bytes(size) + seq![string_fmt_byte(fmt)]
        },
        SpecView::Bytes(size) => seq![BYTES] + size_bytes(size),
        SpecView::Optional(inner) => seq![OPTIONAL] + enc_bytes(*inner, longform),
        SpecView::Name { name, spec } => seq![NAME] + name_bytes(name) + enc_bytes(
            *spec,
            longform,
        ),
        SpecView::Ref { name } => seq![REF] + name_bytes(name),
        SpecView::Record(fields) => seq![RECORD] + varint_bytes((fields.len() as u64) as nat)
            + enc_named_bytes(fields, longform),
        SpecView::Tuple(elems) => seq![TUPLE] + varint_bytes((elems.len() as u64) as nat)
            + enc_elems_bytes(elems, longform),
        SpecView::Enum(variants) => seq![ENUM] + varint_bytes((variants.len() as u64) as nat)
            + enc_named_bytes(variants, longform),
        SpecView::Union(variants) => seq![UNION] + varint_bytes((variants.len() as u64) as nat)
            + enc_elems_bytes(variants, longform),
        SpecView::Void => seq![VOID],
    }
}

/// The concatenated encodings of a list of named fields: each entry is the
/// name followed by the child schema.
pub open spec fn enc_named_bytes(fields: Seq<(Seq<char>, SpecView)>, longform: bool) -> Seq<u8>
    decreases fields,
{
    if fields.len() == 0 {
        Seq::empty()
    } else {
        name_bytes(fields[0].0) + enc_bytes(fields[0].1, longform) + enc_named_bytes(
            fields.subrange(1, fields.len() as int),
            longform,
        )
    }
}

/// The concatenated encodings of a list of bare child schemas.
pub open spec fn enc_elems_bytes(elems: Seq<SpecView>, longform: bool) -> Seq<u8>
    decreases elems,
{
    if elems.len() == 0 {
        Seq::empty()
    } else {
        enc_bytes(elems[0], longform) + enc_elems_bytes(
            elems.subrange(1, elems.len() as int),
            longform,
        )
    }
}

/// The compact encoding: minimal bytes, alias table applied.
pub open spec fn compact_bytes(v: SpecView) -> Seq<u8> {
    enc_bytes(v, false)
}

/// The canonical encoding: general form throughout, one byte sequence per
/// logical schema regardless of the alias table.
pub open spec fn longform_bytes(v: SpecView) -> Seq<u8> {
    enc_bytes(v, true)
}

/// Extending a field list by one entry appends that entry's bytes.
pub proof fn lemma_enc_named_snoc(fields: Seq<(Seq<char>, SpecView)>, i: int, longform: bool)
    requires
        0 <= i < fields.len(),
    ensures
        enc_named_bytes(fields.take(i + 1), longform) == enc_named_bytes(fields.take(i), longform)
            + name_bytes(fields[i].0) + enc_bytes(fields[i].1, longform),
    decreases i,
{
    if i == 0 {
        assert(fields.take(0) =~= Seq::<(Seq<char>, SpecView)>::empty());
        assert(enc_named_bytes(fields.take(0), longform) =~= Seq::<u8>::empty());
        let t1 = fields.take(1);
        assert(t1[0] == fields[0]);
        assert(t1.subrange(1, 1) =~= Seq::<(Seq<char>, SpecView)>::empty());
        assert(enc_named_bytes(t1.subrange(1, 1), longform) =~= Seq::<u8>::empty());
        assert(enc_named_bytes(t1, longform) =~= enc_named_bytes(fields.take(0), longform)
            + name_bytes(fields[0].0) + enc_bytes(fields[0].1, longform));
    } else {
        let tail = fields.subrange(1, fields.len() as int);
        lemma_enc_named_snoc(tail, i - 1, longform);
        assert(fields.take(i + 1).subrange(1, i + 1) =~= tail.take(i));
        assert(fields.take(i).subrange(1, i) =~= tail.take(i - 1));
        assert(fields.take(i + 1)[0] == fields[0]);
        assert(fields.take(i)[0] == fields[0]);
        assert(tail[i - 1] == fields[i]);
        assert(enc_named_bytes(fields.take(i + 1), longform) =~= enc_named_bytes(
            fields.take(i),
            longform,
        ) + name_bytes(fields[i].0) + enc_bytes(fields[i].1, longform));
    }
}

/// Extending an element list by one entry appends that entry's bytes.
pub proof fn lemma_enc_elems_snoc(elems: Seq<SpecView>, i: int, longform: bool)
    requires
        0 <= i < elems.len(),
    ensures
        enc_elems_bytes(elems.take(i + 1), longform) == enc_elems_bytes(elems.take(i), longform)
            + enc_bytes(elems[i], longform),
    decreases i,
{
    if i == 0 {
        assert(elems.take(0) =~= Seq::<SpecView>::empty());
        assert(enc_elems_bytes(elems.take(0), longform) =~= Seq::<u8>::empty());
        let t1 = elems.take(1);
        assert(t1[0] == elems[0]);
        assert(t1.subrange(1, 1) =~= Seq::<SpecView>::empty());
        assert(enc_elems_bytes(t1.subrange(1, 1), longform) =~= Seq::<u8>::empty());
        assert(enc_elems_bytes(t1, longform) =~= enc_elems_bytes(elems.take(0), longform)
            + enc_bytes(elems[0], longform));
    } else {
        let tail = elems.subrange(1, elems.len() as int);
        lemma_enc_elems_snoc(tail, i - 1, longform);
        assert(elems.take(i + 1).subrange(1, i + 1) =~= tail.take(i));
        assert(elems.take(i).subrange(1, i) =~= tail.take(i - 1));
        assert(elems.take(i + 1)[0] == elems[0]);
        assert(elems.take(i)[0] == elems[0]);
        assert(tail[i - 1] == elems[i]);
        assert(enc_elems_bytes(elems.take(i + 1), longform) =~= enc_elems_bytes(
            elems.take(i),
            longform,
        ) + enc_bytes(elems[i], longform));
    }
}

/// Appends a byte slice to the sink.
fn append_bytes(out: &mut Vec<u8>, bytes: &[u8])
    ensures
        final(out)@ == old(out)@ + bytes@,
{
    let n = bytes.len();
    let mut i: usize = 0;
    while i < n
        invariant
            i <= n,
            n == bytes@.len(),
            out@ == old(out)@ + bytes@.take(i as int),
        decreases n - i,
    {
        out.push(bytes[i]);
        assert(out@ =~= old(out)@ + bytes@.take(i + 1 as int));
        i += 1;
    }
    assert(old(out)@ + bytes@.take(n as int) =~= old(out)@ + bytes@);
}

/// Appends the wire form of a name: its UTF-8 byte length, then its UTF-8
/// bytes.
fn write_name(name: &String, out: &mut Vec<u8>)
    ensures
        final(out)@ == old(out)@ + name_bytes(name@),
        encode_utf8(name@).len() <= u64::MAX,
{
    let bytes = name.as_str().as_bytes();
    encode_varint_u64(bytes.len() as u64, out);
    append_bytes(out, bytes);
    assert(out@ =~= old(out)@ + name_bytes(name@));
}

/// Appends each named field of an aggregate, in declaration order.
fn write_named_fields(fields: &Vec<(String, Spec)>, longform: bool, out: &mut Vec<u8>)
    ensures
        final(out)@ == old(out)@ + enc_named_bytes(named_views(fields@), longform),
        wf_named(named_views(fields@)),
    decreases fields,
{
    let ghost views = named_views(fields@);
    proof {
        crate::schema::lemma_named_views_len(fields@);
    }
    let n = fields.len();
    let mut i: usize = 0;
    while i < n
        invariant
            i <= n,
            n == fields@.len(),
            views == named_views(fields@),
            views.len() == n,
            out@ == old(out)@ + enc_named_bytes(views.take(i as int), longform),
            forall|j: int|
                0 <= j < i ==> encode_utf8((#[trigger] views[j]).0).len() <= u64::MAX && wf(
                    views[j].1,
                ),
        decreases n - i,
    {
        proof {
            lemma_named_views_index(fields@, i as int);
        }
        write_name(&fields[i].0, out);
        fields[i].1.write_node(longform, out);
        proof {
            lemma_enc_named_snoc(views, i as int, longform);
        }
        assert(out@ =~= old(out)@ + enc_named_bytes(views.take(i + 1 as int), longform));
        i += 1;
    }
    assert(views.take(n as int) =~= views);
    proof {
        lemma_wf_named_pointwise(views);
    }
}

/// Appends each bare child of an aggregate, in declaration order.
fn write_elems(elems: &Vec<Spec>, longform: bool, out: &mut Vec<u8>)
    ensures
        final(out)@ == old(out)@ + enc_elems_bytes(elem_views(elems@), longform),
        wf_elems(elem_views(elems@)),
    decreases elems,
{
    let ghost views = elem_views(elems@);
    proof {
        crate::schema::lemma_elem_views_len(elems@);
    }
    let n = elems.len();
    let mut i: usize = 0;
    while i < n
        invariant
            i <= n,
            n == elems@.len(),
            views == elem_views(elems@),
            views.len() == n,
            out@ == old(out)@ + enc_elems_bytes(views.take(i as int), longform),
            forall|j: int| 0 <= j < i ==> wf(#[trigger] views[j]),
        decreases n - i,
    {
        proof {
            lemma_elem_views_index(elems@, i as int);
        }
        elems[i].write_node(longform, out);
        proof {
            lemma_enc_elems_snoc(views, i as int, longform);
        }
        assert(out@ =~= old(out)@ + enc_elems_bytes(views.take(i + 1 as int), longform));
        i += 1;
    }
    assert(views.take(n as int) =~= views);
    proof {
        lemma_wf_elems_pointwise(views);
    }
}

impl Spec {
    /// Appends this node's encoding — compact or long-form — to `out`.
    #[verifier::rlimit(60)]
    fn write_node(&self, longform: bool, out: &mut Vec<u8>)
        ensures
            final(out)@ == old(out)@ + enc_bytes(self@, longform),
            wf(self@),
        decreases self,
    {
        match self {
            Spec::Bool => {
                out.push(BOOL);
                assert(out@ =~= old(out)@ + enc_bytes(self@, longform));
            },
            Spec::Uint(scale) => {
                if !longform && *scale <= 3 {
                    out.push(*scale);
                } else {
                    out.push(UINT);
                    out.push(*scale);
                }
                assert(out@ =~= old(out)@ + enc_bytes(self@, longform));
            },
            Spec::Int(scale) => {
                if !longform && *scale <= 3 {
                    out.push(INT_0 + *scale);
                } else {
                    out.push(INT);
                    out.push(*scale);
                }
                assert(out@ =~= old(out)@ + enc_bytes(self@, longform));
            },
            Spec::BinaryFloatingPoint(fmt) => {
                let alias = !longform && (matches!(
                    fmt,
                    crate::descriptor::InterchangeBinaryFloatingPointFormat::Single,
                ) || matches!(
                    fmt,
                    crate::descriptor::InterchangeBinaryFloatingPointFormat::Double,
                ));
                if alias {
                    if matches!(
                        fmt,
                        crate::descriptor::InterchangeBinaryFloatingPointFormat::Single,
                    ) {
                        out.push(SINGLE_FP);
                    } else {
                        out.push(DOUBLE_FP);
                    }
                } else {
                    out.push(BINARY_FP);
                    fmt.encode(out);
                }
                assert(out@ =~= old(out)@ + enc_bytes(self@, longform));
            },
            Spec::DecimalFloatingPoint(fmt) => {
                out.push(DECIMAL_FP);
                fmt.encode(out);
                assert(out@ =~= old(out)@ + enc_bytes(self@, longform));
            },
            Spec::Decimal { precision, scale } => {
                out.push(DECIMAL);
                encode_varint_u64(*precision, out);
                encode_varint_u64(*scale, out);
                assert(out@ =~= old(out)@ + enc_bytes(self@, longform));
            },
            Spec::Mapping { size, key_spec, value_spec } => {
                out.push(MAP);
                size.encode(out);
                key_spec.write_node(longform, out);
                value_spec.write_node(longform, out);
                assert(out@ =~= old(out)@ + enc_bytes(self@, longform));
            },
            Spec::List { size, value_spec } => {
                out.push(LIST);
                size.encode(out);
                value_spec.write_node(longform, out);
                assert(out@ =~= old(out)@ + enc_bytes(self@, longform));
            },
            Spec::String(size, fmt) => {
                let alias = !longform && matches!(size, Size::Variable) && matches!(
                    fmt,
                    StringEncodingFmt::Utf8,
                );
                if alias {
                    out.push(UTF8_STRING);
                } else {
                    out.push(STRING);
                    size.encode(out);
                    fmt.encode(out);
                }
                assert(out@ =~= old(out)@ + enc_bytes(self@, longform));
            },
            Spec::Bytes(size) => {
                out.push(BYTES);
                size.encode(out);
                assert(out@ =~= old(out)@ + enc_bytes(self@, longform));
            },
            Spec::Optional(inner) => {
                out.push(OPTIONAL);
                inner.write_node(longform, out);
                assert(out@ =~= old(out)@ + enc_bytes(self@, longform));
            },
            Spec::Name { name, spec } => {
                out.push(NAME);
                write_name(name, out);
                spec.write_node(longform, out);
                assert(out@ =~= old(out)@ + enc_bytes(self@, longform));
            },
            Spec::Ref { name } => {
                out.push(REF);
                write_name(name, out);
                assert(out@ =~= old(out)@ + enc_bytes(self@, longform));
            },
            Spec::Record(fields) => {
                proof {
                    crate::schema::lemma_named_views_len(fields@);
                }
                out.push(RECORD);
                encode_varint_u64(fields.len() as u64, out);
                write_named_fields(fields, longform, out);
                assert(out@ =~= old(out)@ + enc_bytes(self@, longform));
            },
            Spec::Tuple(elems) => {
                proof {
                    crate::schema::lemma_elem_views_len(elems@);
                }
                out.push(TUPLE);
                encode_varint_u64(elems.len() as u64, out);
                write_elems(elems, longform, out);
                assert(out@ =~= old(out)@ + enc_bytes(self@, longform));
            },
            Spec::Enum(variants) => {
                proof {
                    crate::schema::lemma_named_views_len(variants@);
                }
                out.push(ENUM);
                encode_varint_u64(variants.len() as u64, out);
                write_named_fields(variants, longform, out);
                assert(out@ =~= old(out)@ + enc_bytes(self@, longform));
            },
            Spec::Union(variants) => {
                proof {
                    crate::schema::lemma_elem_views_len(variants@);
                }
                out.push(UNION);
                encode_varint_u64(variants.len() as u64, out);
                write_elems(variants, longform, out);
                assert(out@ =~= old(out)@ + enc_bytes(self@, longform));
            },
            Spec::Void => {
                out.push(VOID);
                assert(out@ =~= old(out)@ + enc_bytes(self@, longform));
            },
        }
    }

    /// Compact-encodes this schema into a fresh buffer.
    pub fn to_bytes(&self) -> (r: Vec<u8>)
        ensures
            r@ == compact_bytes(self@),
            wf(self@),
    {
        let mut out: Vec<u8> = Vec::new();
        self.write_node(false, &mut out);
        assert(out@ =~= compact_bytes(self@));
        out
    }

    /// Canonically encodes this schema, without any alias bytes, into a
    /// fresh buffer; the result serves as a stable identity key.
    pub fn to_longform_bytes(&self) -> (r: Vec<u8>)
        ensures
            r@ == longform_bytes(self@),
            wf(self@),
    {
        let mut out: Vec<u8> = Vec::new();
        self.write_node(true, &mut out);
        assert(out@ =~= longform_bytes(self@));
        out
    }

    /// Compact-encodes this schema onto the end of a caller-supplied sink,
    /// returning exactly the number of bytes written.
    pub fn write_as_bytes(&self, out: &mut Vec<u8>) -> (written: usize)
        ensures
            final(out)@ == old(out)@ + compact_bytes(self@),
            written == compact_bytes(self@).len(),
            wf(self@),
    {
        let base = out.len();
        self.write_node(false, out);
        out.len() - base
    }
}

} // verus!
