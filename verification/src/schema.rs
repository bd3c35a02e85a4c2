//! The recursive schema tree and its mathematical model.
//!
//! [`Spec`] is the executable type: a closed sum of schema nodes that owns
//! its children through heap indirection.  [`SpecView`] is its ghost
//! counterpart, with names as character sequences and aggregates as
//! mathematical sequences; every contract in the crate speaks of `SpecView`
//! values, reached through the `@` view of a `Spec`.

use vstd::prelude::*;

use crate::descriptor::InterchangeBinaryFloatingPointFormat;
use crate::descriptor::InterchangeDecimalFloatingPointFormat;
use crate::descriptor::Size;
use crate::descriptor::StringEncodingFmt;
use vstd::utf8::encode_utf8;

verus! {

/// A node in the recursive schema-description tree.
///
/// A `Spec` describes the shape of data, not data itself; both codecs in
/// this crate serialize the schema, never instances conforming to it.
/// `Ref` is a name lookup against an enclosing `Name` binding — resolution
/// happens outside this crate — so cyclic schemas are representable without
/// cyclic ownership.
#[derive(Debug, Hash, Eq)]
pub enum Spec {
    Bool,
    Uint(u8),
    Int(u8),
    BinaryFloatingPoint(InterchangeBinaryFloatingPointFormat),
    DecimalFloatingPoint(InterchangeDecimalFloatingPointFormat),
    Decimal { precision: u64, scale: u64 },
    Mapping { size: Size, key_spec: Box<Spec>, value_spec: Box<Spec> },
    List { size: Size, value_spec: Box<Spec> },
    String(Size, StringEncodingFmt),
    Bytes(Size),
    Optional(Box<Spec>),
    Name { name: String, spec: Box<Spec> },
    Ref { name: String },
    Record(Vec<(String, Spec)>),
    Tuple(Vec<Spec>),
    Enum(Vec<(String, Spec)>),
    Union(Vec<Spec>),
    Void,
}

/// The mathematical counterpart of [`Spec`]: names are `Seq<char>`,
/// aggregates are `Seq`, and children sit behind ghost boxes.
pub enum SpecView {
    Bool,
    Uint(u8),
    Int(u8),
    BinaryFloatingPoint(InterchangeBinaryFloatingPointFormat),
    DecimalFloatingPoint(InterchangeDecimalFloatingPointFormat),
    Decimal { precision: u64, scale: u64 },
    Mapping { size: Size, key_spec: Box<SpecView>, value_spec: Box<SpecView> },
    List { size: Size, value_spec: Box<SpecView> },
    String(Size, StringEncodingFmt),
    Bytes(Size),
    Optional(Box<SpecView>),
    Name { name: Seq<char>, spec: Box<SpecView> },
    Ref { name: Seq<char> },
    Record(Seq<(Seq<char>, SpecView)>),
    Tuple(Seq<SpecView>),
    Enum(Seq<(Seq<char>, SpecView)>),
    Union(Seq<SpecView>),
    Void,
}

/// The views of a sequence of named fields, in order.
pub open spec fn named_views(fields: Seq<(String, Spec)>) -> Seq<(Seq<char>, SpecView)>
    decreases fields,
{
    if fields.len() == 0 {
        Seq::empty()
    } else {
        seq![(fields[0].0@, fields[0].1.to_view())] + named_views(
            fields.subrange(1, fields.len() as int),
        )
    }
}

/// The views of a sequence of bare child schemas, in order.
pub open spec fn elem_views(elems: Seq<Spec>) -> Seq<SpecView>
    decreases elems,
{
    if elems.len() == 0 {
        Seq::empty()
    } else {
        seq![elems[0].to_view()] + elem_views(elems.subrange(1, elems.len() as int))
    }
}

impl Spec {
    /// The mathematical model of this schema tree.
    pub open spec fn to_view(&self) -> SpecView
        decreases self,
    {
        match self {
            Spec::Bool => SpecView::Bool,
            Spec::Uint(scale) => SpecView::Uint(*scale),
            Spec::Int(scale) => SpecView::Int(*scale),
            Spec::BinaryFloatingPoint(fmt) => SpecView::BinaryFloatingPoint(*fmt),
            Spec::DecimalFloatingPoint(fmt) => SpecView::DecimalFloatingPoint(*fmt),
            Spec::Decimal { precision, scale } => SpecView::Decimal {
                precision: *precision,
                scale: *scale,
            },
            Spec::Mapping { size, key_spec, value_spec } => SpecView::Mapping {
                size: *size,
                key_spec: Box::new(key_spec.to_view()),
                value_spec: Box::new(value_spec.to_view()),
            },
            Spec::List { size, value_spec } => SpecView::List {
                size: *size,
                value_spec: Box::new(value_spec.to_view()),
            },
            Spec::String(size, fmt) => SpecView::String(*size, *fmt),
            Spec::Bytes(size) => SpecView::Bytes(*size),
            Spec::Optional(inner) => SpecView::Optional(Box::new(inner.to_view())),
            Spec::Name { name, spec } => SpecView::Name {
                name: name@,
                spec: Box::new(spec.to_view()),
            },
            Spec::Ref { name } => SpecView::Ref { name: name@ },
            Spec::Record(fields) => SpecView::Record(named_views(fields@)),
            Spec::Tuple(elems) => SpecView::Tuple(elem_views(elems@)),
            Spec::Enum(variants) => SpecView::Enum(named_views(variants@)),
            Spec::Union(variants) => SpecView::Union(elem_views(variants@)),
            Spec::Void => SpecView::Void,
        }
    }
}

impl View for Spec {
    type V = SpecView;

    open spec fn view(&self) -> SpecView {
        self.to_view()
    }
}

/// A schema model that a machine-held tree can denote: every name's UTF-8
/// form and every aggregate's entry count fits the wire format's `u64`
/// length fields.  The view of any tree built in memory satisfies this; the
/// round-trip and canonicity laws are stated over such models.
pub open spec fn wf(v: SpecView) -> bool
    decreases v,
{
    match v {
        SpecView::Mapping { size, key_spec, value_spec } => wf(*key_spec) && wf(*value_spec),
        SpecView::List { size, value_spec } => wf(*value_spec),
        SpecView::Optional(inner) => wf(*inner),
        SpecView::Name { name, spec } => encode_utf8(name).len() <= u64::MAX && wf(*spec),
        SpecView::Ref { name } => encode_utf8(name).len() <= u64::MAX,
        SpecView::Record(fields) => fields.len() <= u64::MAX && wf_named(fields),
        SpecView::Enum(variants) => variants.len() <= u64::MAX && wf_named(variants),
        SpecView::Tuple(elems) => elems.len() <= u64::MAX && wf_elems(elems),
        SpecView::Union(variants) => variants.len() <= u64::MAX && wf_elems(variants),
        _ => true,
    }
}

/// Well-formedness of a named-field list: every name fits and every child
/// is well-formed.
pub open spec fn wf_named(fields: Seq<(Seq<char>, SpecView)>) -> bool
    decreases fields,
{
    if fields.len() == 0 {
        true
    } else {
        encode_utf8(fields[0].0).len() <= u64::MAX && wf(fields[0].1) && wf_named(
            fields.subrange(1, fields.len() as int),
        )
    }
}

/// Well-formedness of a bare child list.
pub open spec fn wf_elems(elems: Seq<SpecView>) -> bool
    decreases elems,
{
    if elems.len() == 0 {
        true
    } else {
        wf(elems[0]) && wf_elems(elems.subrange(1, elems.len() as int))
    }
}

/// A named-field list each of whose entries has a name that fits the wire
/// format and a well-formed child is well-formed as a list.
pub proof fn lemma_wf_named_pointwise(s: Seq<(Seq<char>, SpecView)>)
    requires
        forall|j: int|
            0 <= j < s.len() ==> encode_utf8((#[trigger] s[j]).0).len() <= u64::MAX && wf(s[j].1),
    ensures
        wf_named(s),
    decreases s,
{
    if s.len() > 0 {
        let tail = s.subrange(1, s.len() as int);
        assert forall|j: int|
            0 <= j < tail.len() implies encode_utf8((#[trigger] tail[j]).0).len() <= u64::MAX
            && wf(tail[j].1) by {
            assert(tail[j] == s[j + 1]);
        }
        lemma_wf_named_pointwise(tail);
    }
}

/// A child list each of whose entries is well-formed is well-formed as a
/// list.
pub proof fn lemma_wf_elems_pointwise(s: Seq<SpecView>)
    requires
        forall|j: int| 0 <= j < s.len() ==> wf(#[trigger] s[j]),
    ensures
        wf_elems(s),
    decreases s,
{
    if s.len() > 0 {
        let tail = s.subrange(1, s.len() as int);
        assert forall|j: int| 0 <= j < tail.len() implies wf(#[trigger] tail[j]) by {
            assert(tail[j] == s[j + 1]);
        }
        lemma_wf_elems_pointwise(tail);
    }
}

/// Structural equality of two schema trees, phrased over their views.
fn deep_eq(a: &Spec, b: &Spec) -> (r: bool)
    ensures
        r == (a@ == b@),
    decreases a,
{
    match (a, b) {
        (Spec::Bool, Spec::Bool) => true,
        (Spec::Uint(x), Spec::Uint(y)) => x == y,
        (Spec::Int(x), Spec::Int(y)) => x == y,
        (Spec::BinaryFloatingPoint(x), Spec::BinaryFloatingPoint(y)) => x == y,
        (Spec::DecimalFloatingPoint(x), Spec::DecimalFloatingPoint(y)) => x == y,
        (
            Spec::Decimal { precision: p1, scale: s1 },
            Spec::Decimal { precision: p2, scale: s2 },
        ) => p1 == p2 && s1 == s2,
        (
            Spec::Mapping { size: z1, key_spec: k1, value_spec: v1 },
            Spec::Mapping { size: z2, key_spec: k2, value_spec: v2 },
        ) => z1 == z2 && deep_eq(k1, k2) && deep_eq(v1, v2),
        (
            Spec::List { size: z1, value_spec: v1 },
            Spec::List { size: z2, value_spec: v2 },
        ) => z1 == z2 && deep_eq(v1, v2),
        (Spec::String(z1, f1), Spec::String(z2, f2)) => z1 == z2 && f1 == f2,
        (Spec::Bytes(z1), Spec::Bytes(z2)) => z1 == z2,
        (Spec::Optional(i1), Spec::Optional(i2)) => deep_eq(i1, i2),
        (
            Spec::Name { name: n1, spec: s1 },
            Spec::Name { name: n2, spec: s2 },
        ) => *n1 == *n2 && deep_eq(s1, s2),
        (Spec::Ref { name: n1 }, Spec::Ref { name: n2 }) => *n1 == *n2,
        (Spec::Record(f1), Spec::Record(f2)) => named_fields_eq(f1, f2),
        (Spec::Tuple(e1), Spec::Tuple(e2)) => elems_eq(e1, e2),
        (Spec::Enum(f1), Spec::Enum(f2)) => named_fields_eq(f1, f2),
        (Spec::Union(e1), Spec::Union(e2)) => elems_eq(e1, e2),
        (Spec::Void, Spec::Void) => true,
        _ => false,
    }
}

/// Pairwise equality of two named-field lists, phrased over their views.
fn named_fields_eq(f1: &Vec<(String, Spec)>, f2: &Vec<(String, Spec)>) -> (r: bool)
    ensures
        r == (named_views(f1@) == named_views(f2@)),
    decreases f1,
{
    proof {
        lemma_named_views_len(f1@);
        lemma_named_views_len(f2@);
    }
    if f1.len() != f2.len() {
        return false;
    }
    let n = f1.len();
    let mut i: usize = 0;
    while i < n
        invariant
            i <= n,
            n == f1@.len() && n == f2@.len(),
            named_views(f1@).len() == n && named_views(f2@).len() == n,
            forall|j: int| 0 <= j < i ==> named_views(f1@)[j] == named_views(f2@)[j],
        decreases n - i,
    {
        proof {
            lemma_named_views_index(f1@, i as int);
            lemma_named_views_index(f2@, i as int);
        }
        if !(f1[i].0 == f2[i].0) {
            return false;
        }
        if !deep_eq(&f1[i].1, &f2[i].1) {
            return false;
        }
        i += 1;
    }
    proof {
        assert(named_views(f1@) =~= named_views(f2@));
    }
    true
}

/// Pairwise equality of two child-schema lists, phrased over their views.
fn elems_eq(e1: &Vec<Spec>, e2: &Vec<Spec>) -> (r: bool)
    ensures
        r == (elem_views(e1@) == elem_views(e2@)),
    decreases e1,
{
    proof {
        lemma_elem_views_len(e1@);
        lemma_elem_views_len(e2@);
    }
    if e1.len() != e2.len() {
        return false;
    }
    let n = e1.len();
    let mut i: usize = 0;
    while i < n
        invariant
            i <= n,
            n == e1@.len() && n == e2@.len(),
            elem_views(e1@).len() == n && elem_views(e2@).len() == n,
            forall|j: int| 0 <= j < i ==> elem_views(e1@)[j] == elem_views(e2@)[j],
        decreases n - i,
    {
        proof {
            lemma_elem_views_index(e1@, i as int);
            lemma_elem_views_index(e2@, i as int);
        }
        if !deep_eq(&e1[i], &e2[i]) {
            return false;
        }
        i += 1;
    }
    proof {
        assert(elem_views(e1@) =~= elem_views(e2@));
    }
    true
}

impl PartialEq for Spec {
    /// Two schema trees are equal exactly when their views are.
    fn eq(&self, other: &Spec) -> bool {
        deep_eq(self, other)
    }
}

impl vstd::std_specs::cmp::PartialEqSpecImpl for Spec {
    open spec fn obeys_eq_spec() -> bool {
        true
    }

    open spec fn eq_spec(&self, other: &Spec) -> bool {
        self@ == other@
    }
}

/// Copies a size qualifier field for field.
fn clone_size(s: &Size) -> (r: Size)
    ensures
        r == *s,
{
    match s {
        Size::Fixed(n) => Size::Fixed(*n),
        Size::Variable => Size::Variable,
    }
}

/// Copies a binary floating-point format tag.
fn clone_binary_fp(f: &InterchangeBinaryFloatingPointFormat) -> (r:
    InterchangeBinaryFloatingPointFormat)
    ensures
        r == *f,
{
    match f {
        InterchangeBinaryFloatingPointFormat::Half => InterchangeBinaryFloatingPointFormat::Half,
        InterchangeBinaryFloatingPointFormat::Single => InterchangeBinaryFloatingPointFormat::Single,
        InterchangeBinaryFloatingPointFormat::Double => InterchangeBinaryFloatingPointFormat::Double,
        InterchangeBinaryFloatingPointFormat::Quadruple => InterchangeBinaryFloatingPointFormat::Quadruple,
        InterchangeBinaryFloatingPointFormat::Octuple => InterchangeBinaryFloatingPointFormat::Octuple,
    }
}

/// Copies a decimal floating-point format tag.
fn clone_decimal_fp(f: &InterchangeDecimalFloatingPointFormat) -> (r:
    InterchangeDecimalFloatingPointFormat)
    ensures
        r == *f,
{
    match f {
        InterchangeDecimalFloatingPointFormat::Dec32 => InterchangeDecimalFloatingPointFormat::Dec32,
        InterchangeDecimalFloatingPointFormat::Dec64 => InterchangeDecimalFloatingPointFormat::Dec64,
        InterchangeDecimalFloatingPointFormat::Dec128 => InterchangeDecimalFloatingPointFormat::Dec128,
    }
}

/// Copies a string encoding format tag.
fn clone_string_fmt(f: &StringEncodingFmt) -> (r: StringEncodingFmt)
    ensures
        r == *f,
{
    match f {
        StringEncodingFmt::Utf8 => StringEncodingFmt::Utf8,
        StringEncodingFmt::Utf16 => StringEncodingFmt::Utf16,
        StringEncodingFmt::Ascii => StringEncodingFmt::Ascii,
    }
}

/// A deep copy of a schema tree, with the same mathematical model.
fn clone_node(s: &Spec) -> (r: Spec)
    ensures
        r@ == s@,
    decreases s,
{
    match s {
        Spec::Bool => Spec::Bool,
        Spec::Uint(x) => Spec::Uint(*x),
        Spec::Int(x) => Spec::Int(*x),
        Spec::BinaryFloatingPoint(f) => Spec::BinaryFloatingPoint(clone_binary_fp(f)),
        Spec::DecimalFloatingPoint(f) => Spec::DecimalFloatingPoint(clone_decimal_fp(f)),
        Spec::Decimal { precision, scale } => Spec::Decimal {
            precision: *precision,
            scale: *scale,
        },
        Spec::Mapping { size, key_spec, value_spec } => Spec::Mapping {
            size: clone_size(size),
            key_spec: Box::new(clone_node(key_spec)),
            value_spec: Box::new(clone_node(value_spec)),
        },
        Spec::List { size, value_spec } => Spec::List {
            size: clone_size(size),
            value_spec: Box::new(clone_node(value_spec)),
        },
        Spec::String(size, fmt) => Spec::String(clone_size(size), clone_string_fmt(fmt)),
        Spec::Bytes(size) => Spec::Bytes(clone_size(size)),
        Spec::Optional(inner) => Spec::Optional(Box::new(clone_node(inner))),
        Spec::Name { name, spec } => Spec::Name {
            name: name.clone(),
            spec: Box::new(clone_node(spec)),
        },
        Spec::Ref { name } => Spec::Ref { name: name.clone() },
        Spec::Record(fields) => Spec::Record(clone_named_fields(fields)),
        Spec::Tuple(elems) => Spec::Tuple(clone_elems(elems)),
        Spec::Enum(variants) => Spec::Enum(clone_named_fields(variants)),
        Spec::Union(variants) => Spec::Union(clone_elems(variants)),
        Spec::Void => Spec::Void,
    }
}

/// A deep copy of a named-field list, with the same views.
fn clone_named_fields(fields: &Vec<(String, Spec)>) -> (r: Vec<(String, Spec)>)
    ensures
        named_views(r@) == named_views(fields@),
    decreases fields,
{
    let n = fields.len();
    let mut out: Vec<(String, Spec)> = Vec::new();
    let mut i: usize = 0;
    while i < n
        invariant
            i <= n,
            n == fields@.len(),
            out@.len() == i,
            forall|j: int|
                0 <= j < i ==> (#[trigger] out@[j]).0@ == fields@[j].0@ && out@[j].1@
                    == fields@[j].1@,
        decreases n - i,
    {
        let nm = fields[i].0.clone();
        let sp = clone_node(&fields[i].1);
        out.push((nm, sp));
        i += 1;
    }
    proof {
        lemma_named_views_len(out@);
        lemma_named_views_len(fields@);
        assert forall|j: int| 0 <= j < fields@.len() implies named_views(out@)[j] == named_views(
            fields@,
        )[j] by {
            lemma_named_views_index(out@, j);
            lemma_named_views_index(fields@, j);
        }
        assert(named_views(out@) =~= named_views(fields@));
    }
    out
}

/// A deep copy of a bare child list, with the same views.
fn clone_elems(elems: &Vec<Spec>) -> (r: Vec<Spec>)
    ensures
        elem_views(r@) == elem_views(elems@),
    decreases elems,
{
    let n = elems.len();
    let mut out: Vec<Spec> = Vec::new();
    let mut i: usize = 0;
    while i < n
        invariant
            i <= n,
            n == elems@.len(),
            out@.len() == i,
            forall|j: int| 0 <= j < i ==> (#[trigger] out@[j])@ == elems@[j]@,
        decreases n - i,
    {
        let sp = clone_node(&elems[i]);
        out.push(sp);
        i += 1;
    }
    proof {
        lemma_elem_views_len(out@);
        lemma_elem_views_len(elems@);
        assert forall|j: int| 0 <= j < elems@.len() implies elem_views(out@)[j] == elem_views(
            elems@,
        )[j] by {
            lemma_elem_views_index(out@, j);
            lemma_elem_views_index(elems@, j);
        }
        assert(elem_views(out@) =~= elem_views(elems@));
    }
    out
}

impl Clone for Spec {
    /// A deep copy; the clone has the same mathematical model as the
    /// original, so it is `==` to it.
    fn clone(&self) -> (r: Self)
        ensures
            r@ == self@,
    {
        clone_node(self)
    }
}

/// `named_views` keeps the length of the field list.
pub proof fn lemma_named_views_len(fields: Seq<(String, Spec)>)
    ensures
        named_views(fields).len() == fields.len(),
    decreases fields,
{
    if fields.len() > 0 {
        lemma_named_views_len(fields.subrange(1, fields.len() as int));
    }
}

/// Each entry of `named_views` is the view of the matching field.
pub proof fn lemma_named_views_index(fields: Seq<(String, Spec)>, i: int)
    requires
        0 <= i < fields.len(),
    ensures
        named_views(fields).len() == fields.len(),
        named_views(fields)[i] == (fields[i].0@, fields[i].1@),
    decreases fields,
{
    lemma_named_views_len(fields);
    if i > 0 {
        lemma_named_views_index(fields.subrange(1, fields.len() as int), i - 1);
    }
}

/// Appending one field appends its view.
pub proof fn lemma_named_views_push(fields: Seq<(String, Spec)>, f: (String, Spec))
    ensures
        named_views(fields.push(f)) == named_views(fields) + seq![(f.0@, f.1@)],
    decreases fields,
{
    let whole = fields.push(f);
    if fields.len() == 0 {
        let tail = whole.subrange(1, whole.len() as int);
        assert(tail =~= Seq::<(String, Spec)>::empty());
        assert(named_views(tail) =~= Seq::<(Seq<char>, SpecView)>::empty());
        assert(whole[0] == f);
        assert(named_views(whole) =~= named_views(fields) + seq![(f.0@, f.1@)]);
    } else {
        lemma_named_views_push(fields.subrange(1, fields.len() as int), f);
        assert(whole.subrange(1, whole.len() as int) =~= fields.subrange(
            1,
            fields.len() as int,
        ).push(f));
        assert(named_views(whole) =~= named_views(fields) + seq![(f.0@, f.1@)]);
    }
}

/// `elem_views` keeps the length of the element list.
pub proof fn lemma_elem_views_len(elems: Seq<Spec>)
    ensures
        elem_views(elems).len() == elems.len(),
    decreases elems,
{
    if elems.len() > 0 {
        lemma_elem_views_len(elems.subrange(1, elems.len() as int));
    }
}

/// Each entry of `elem_views` is the view of the matching element.
pub proof fn lemma_elem_views_index(elems: Seq<Spec>, i: int)
    requires
        0 <= i < elems.len(),
    ensures
        elem_views(elems).len() == elems.len(),
        elem_views(elems)[i] == elems[i]@,
    decreases elems,
{
    lemma_elem_views_len(elems);
    if i > 0 {
        lemma_elem_views_index(elems.subrange(1, elems.len() as int), i - 1);
    }
}

/// Appending one element appends its view.
pub proof fn lemma_elem_views_push(elems: Seq<Spec>, e: Spec)
    ensures
        elem_views(elems.push(e)) == elem_views(elems) + seq![e@],
    decreases elems,
{
    let whole = elems.push(e);
    if elems.len() == 0 {
        let tail = whole.subrange(1, whole.len() as int);
        assert(tail =~= Seq::<Spec>::empty());
        assert(elem_views(tail) =~= Seq::<SpecView>::empty());
        assert(whole[0] == e);
        assert(elem_views(whole) =~= elem_views(elems) + seq![e@]);
    } else {
        lemma_elem_views_push(elems.subrange(1, elems.len() as int), e);
        assert(whole.subrange(1, whole.len() as int) =~= elems.subrange(
            1,
            elems.len() as int,
        ).push(e));
        assert(elem_views(whole) =~= elem_views(elems) + seq![e@]);
    }
}

} // verus!

