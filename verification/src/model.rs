//! The mathematical model of the format.
//!
//! Every executable type of the library has a *view*: a ghost value built
//! from `Seq` and plain scalars that stands for the shape or the contents
//! of the executable value.  All contracts of the library are stated over
//! these views, together with the byte-level encoding functions below,
//! which say exactly which byte sequence a shape or a value serializes to.

use vstd::bytes::{
    spec_u128_to_le_bytes, spec_u16_to_le_bytes, spec_u32_to_le_bytes, spec_u64_to_le_bytes,
};
use vstd::prelude::*;
use vstd::bytes::spec_u16_from_le_bytes;
use vstd::utf8::{encode_utf8, valid_utf8};

use crate::base_metadata::XbfMetadata;
use crate::base_type::XbfType;
use crate::primitive::XbfPrimitive;
use crate::primitive_metadata::XbfPrimitiveMetadata;
use crate::struct_metadata::{XbfStructMetadata, STRUCT_METADATA_DISCRIMINANT};
use crate::struct_type::XbfStruct;
use crate::vec_metadata::VEC_METADATA_DISCRIMINANT;
use crate::vec_type::XbfVec;

verus! {

// ---------------------------------------------------------------------
// Views of metadata
// ---------------------------------------------------------------------
/// The view of a metadata value: one of the three shape families.
#[verifier::ext_equal]
pub enum MetadataView {
    Primitive(XbfPrimitiveMetadata),
    Vec(Box<MetadataView>),
    Struct(StructMetadataView),
}

/// The view of a struct metadata: a name and an ordered list of
/// (field name, field shape) pairs.  Field order is the wire order.
#[verifier::ext_equal]
pub struct StructMetadataView {
    pub name: Seq<char>,
    pub fields: Seq<(Seq<char>, MetadataView)>,
}

/// The view of an [`XbfMetadata`] value.
pub open spec fn mview(m: XbfMetadata) -> MetadataView
    decreases m,
{
    match m {
        XbfMetadata::Primitive(k) => MetadataView::Primitive(k),
        XbfMetadata::Vec(vm) => MetadataView::Vec(Box::new(mview(*vm.inner_type))),
        XbfMetadata::Struct(sm) => MetadataView::Struct(smview(sm)),
    }
}

/// The view of an [`XbfStructMetadata`] value.
pub open spec fn smview(sm: XbfStructMetadata) -> StructMetadataView
    decreases sm,
{
    StructMetadataView { name: sm.name@, fields: fields_view(sm.fields@) }
}

/// The views of a list of declared fields.
pub open spec fn fields_view(fs: Seq<(String, XbfMetadata)>) -> Seq<(Seq<char>, MetadataView)>
    decreases fs,
{
    if fs.len() == 0 {
        Seq::empty()
    } else {
        seq![(fs[0].0@, mview(fs[0].1))] + fields_view(fs.subrange(1, fs.len() as int))
    }
}

/// `fields_view` maps the field list element by element.
pub proof fn lemma_fields_view(fs: Seq<(String, XbfMetadata)>)
    ensures
        fields_view(fs).len() == fs.len(),
        forall|i: int|
            0 <= i < fs.len() ==> #[trigger] fields_view(fs)[i] == (fs[i].0@, mview(fs[i].1)),
    decreases fs,
{
    if fs.len() > 0 {
        lemma_fields_view(fs.subrange(1, fs.len() as int));
    }
}

// ---------------------------------------------------------------------
// Well-formed shapes
// ---------------------------------------------------------------------
/// A piece of text can stand on the wire only when its UTF-8 encoding
/// fits the 16-bit length prefix.
pub open spec fn text_wf(s: Seq<char>) -> bool {
    encode_utf8(s).len() <= 0xffff
}

/// A shape is well formed when every name in it fits the 16-bit text
/// length prefix and every struct has at most 65535 fields.  Only well
/// formed shapes can be serialized.
pub open spec fn meta_wf(m: MetadataView) -> bool
    decreases m,
{
    match m {
        MetadataView::Primitive(_) => true,
        MetadataView::Vec(e) => meta_wf(*e),
        MetadataView::Struct(sm) => struct_meta_wf(sm),
    }
}

/// Well-formedness of a struct shape.
pub open spec fn struct_meta_wf(sm: StructMetadataView) -> bool
    decreases sm,
{
    text_wf(sm.name) && sm.fields.len() <= 0xffff && meta_fields_wf(sm.fields)
}

/// Well-formedness of a declared field list.
pub open spec fn meta_fields_wf(fs: Seq<(Seq<char>, MetadataView)>) -> bool
    decreases fs,
{
    fs.len() == 0 || (text_wf(fs[0].0) && meta_wf(fs[0].1) && meta_fields_wf(
        fs.subrange(1, fs.len() as int),
    ))
}

/// `meta_fields_wf` holds exactly when every field of the list is well
/// formed.
pub proof fn lemma_meta_fields_wf(fs: Seq<(Seq<char>, MetadataView)>)
    ensures
        meta_fields_wf(fs) <==> (forall|i: int|
            #![trigger fs[i]]
            0 <= i < fs.len() ==> text_wf(fs[i].0) && meta_wf(fs[i].1)),
    decreases fs,
{
    if fs.len() > 0 {
        let tail = fs.subrange(1, fs.len() as int);
        lemma_meta_fields_wf(tail);
        assert(forall|j: int| 0 <= j < tail.len() ==> #[trigger] tail[j] == fs[j + 1]);
        if meta_fields_wf(fs) {
            assert(text_wf(fs[0].0) && meta_wf(fs[0].1) && meta_fields_wf(tail));
            assert forall|i: int| #![trigger fs[i]]
                0 <= i < fs.len() implies text_wf(fs[i].0) && meta_wf(fs[i].1) by {
                if i > 0 {
                    assert(fs[i] == tail[i - 1]);
                    assert(text_wf(tail[i - 1].0) && meta_wf(tail[i - 1].1));
                }
            }
        }
        if forall|i: int| #![trigger fs[i]] 0 <= i < fs.len() ==> text_wf(fs[i].0) && meta_wf(fs[i].1) {
            assert(text_wf(fs[0].0) && meta_wf(fs[0].1));
            assert forall|j: int| #![trigger tail[j]]
                0 <= j < tail.len() implies text_wf(tail[j].0) && meta_wf(tail[j].1) by {
                assert(tail[j] == fs[j + 1]);
                assert(text_wf(fs[j + 1].0) && meta_wf(fs[j + 1].1));
            }
            assert(meta_fields_wf(tail));
            assert(meta_fields_wf(fs));
        }
    }
}

// ---------------------------------------------------------------------
// Byte encodings of text and metadata
// ---------------------------------------------------------------------
/// The wire encoding of text: a little-endian 16-bit byte count followed
/// by the raw UTF-8 bytes.
pub open spec fn enc_text(s: Seq<char>) -> Seq<u8> {
    spec_u16_to_le_bytes(encode_utf8(s).len() as u16) + encode_utf8(s)
}

/// The leading tag byte of a shape's encoding.
pub open spec fn meta_disc(m: MetadataView) -> u8 {
    match m {
        MetadataView::Primitive(k) => k.spec_discriminant(),
        MetadataView::Vec(_) => VEC_METADATA_DISCRIMINANT,
        MetadataView::Struct(_) => STRUCT_METADATA_DISCRIMINANT,
    }
}

/// The wire encoding of a shape: its tag byte, then its body.
pub open spec fn enc_meta(m: MetadataView) -> Seq<u8>
    decreases m,
{
    match m {
        MetadataView::Primitive(k) => seq![k.spec_discriminant()],
        MetadataView::Vec(e) => seq![VEC_METADATA_DISCRIMINANT] + enc_meta(*e),
        MetadataView::Struct(sm) => seq![STRUCT_METADATA_DISCRIMINANT] + enc_struct_meta_body(sm),
    }
}

/// The body of a struct shape's encoding: the struct name, a 16-bit
/// field count, then each field's name and shape in declared order.
pub open spec fn enc_struct_meta_body(sm: StructMetadataView) -> Seq<u8>
    decreases sm,
{
    enc_text(sm.name) + spec_u16_to_le_bytes(sm.fields.len() as u16) + enc_meta_fields(sm.fields)
}

/// The encodings of a declared field list, concatenated in order.
pub open spec fn enc_meta_fields(fs: Seq<(Seq<char>, MetadataView)>) -> Seq<u8>
    decreases fs,
{
    if fs.len() == 0 {
        Seq::empty()
    } else {
        enc_text(fs[0].0) + enc_meta(fs[0].1) + enc_meta_fields(fs.subrange(1, fs.len() as int))
    }
}

/// Appending a field to a list appends its encoding.
pub proof fn lemma_enc_meta_fields_push(fs: Seq<(Seq<char>, MetadataView)>, x: (Seq<char>, MetadataView))
    ensures
        enc_meta_fields(fs.push(x)) == enc_meta_fields(fs) + enc_text(x.0) + enc_meta(x.1),
    decreases fs,
{
    let whole = fs.push(x);
    if fs.len() == 0 {
        assert(whole.subrange(1, whole.len() as int) =~= fs);
        assert(enc_meta_fields(whole) =~= enc_meta_fields(fs) + enc_text(x.0) + enc_meta(x.1));
    } else {
        let tail = fs.subrange(1, fs.len() as int);
        assert(whole.subrange(1, whole.len() as int) =~= tail.push(x));
        lemma_enc_meta_fields_push(tail, x);
        assert(enc_meta_fields(whole) =~= enc_meta_fields(fs) + enc_text(x.0) + enc_meta(x.1));
    }
}

/// Appending a declared field to a list appends its view.
pub proof fn lemma_fields_view_push(fs: Seq<(String, XbfMetadata)>, x: (String, XbfMetadata))
    ensures
        fields_view(fs.push(x)) == fields_view(fs).push((x.0@, mview(x.1))),
    decreases fs,
{
    let whole = fs.push(x);
    if fs.len() == 0 {
        assert(whole.subrange(1, whole.len() as int) =~= fs);
        assert(fields_view(whole) =~= fields_view(fs).push((x.0@, mview(x.1))));
    } else {
        let tail = fs.subrange(1, fs.len() as int);
        assert(whole.subrange(1, whole.len() as int) =~= tail.push(x));
        lemma_fields_view_push(tail, x);
        assert(fields_view(whole) =~= fields_view(fs).push((x.0@, mview(x.1))));
    }
}

/// Reading a field list one field at a time: the encoding of the suffix
/// from `i` starts with field `i`'s encoding.
pub proof fn lemma_enc_meta_fields_skip(fs: Seq<(Seq<char>, MetadataView)>, i: int)
    requires
        0 <= i < fs.len(),
    ensures
        enc_meta_fields(fs.skip(i)) == enc_text(fs[i].0) + enc_meta(fs[i].1) + enc_meta_fields(
            fs.skip(i + 1),
        ),
{
    let s = fs.skip(i);
    assert(s[0] == fs[i]);
    assert(s.subrange(1, s.len() as int) =~= fs.skip(i + 1));
    assert(enc_meta_fields(fs.skip(i)) =~= enc_text(fs[i].0) + enc_meta(fs[i].1)
        + enc_meta_fields(fs.skip(i + 1)));
}

/// A shape's encoding starts with its tag byte.
pub proof fn lemma_enc_meta_first(m: MetadataView)
    ensures
        enc_meta(m).len() >= 1,
        enc_meta(m)[0] == meta_disc(m),
{
    match m {
        MetadataView::Primitive(_) => {},
        MetadataView::Vec(_) => {},
        MetadataView::Struct(_) => {},
    }
}

// ---------------------------------------------------------------------
// Views of values
// ---------------------------------------------------------------------
/// The view of a primitive value.  Floating-point values are carried as
/// their raw bit patterns; 256-bit integers as four 64-bit limbs in
/// ascending significance order.
#[verifier::ext_equal]
pub enum PrimitiveView {
    Bool(bool),
    U8(u8),
    U16(u16),
    U32(u32),
    U64(u64),
    U128(u128),
    U256(Seq<u64>),
    I8(i8),
    I16(i16),
    I32(i32),
    I64(i64),
    I128(i128),
    I256(Seq<u64>),
    F32(u32),
    F64(u64),
    String(Seq<char>),
}

/// The view of a value: one of the three families.
#[verifier::ext_equal]
pub enum ValueView {
    Primitive(PrimitiveView),
    Vec(VecValueView),
    Struct(StructValueView),
}

/// The view of a vector value: the declared element type and the
/// elements in order.
#[verifier::ext_equal]
pub struct VecValueView {
    pub elem_type: MetadataView,
    pub elements: Seq<ValueView>,
}

/// The view of a struct value: the declared shape and the field values
/// in declared order.
#[verifier::ext_equal]
pub struct StructValueView {
    pub metadata: StructMetadataView,
    pub fields: Seq<ValueView>,
}

/// The view of an [`XbfPrimitive`] value.
pub open spec fn pview(p: XbfPrimitive) -> PrimitiveView {
    match p {
        XbfPrimitive::Bool(x) => PrimitiveView::Bool(x),
        XbfPrimitive::U8(x) => PrimitiveView::U8(x),
        XbfPrimitive::U16(x) => PrimitiveView::U16(x),
        XbfPrimitive::U32(x) => PrimitiveView::U32(x),
        XbfPrimitive::U64(x) => PrimitiveView::U64(x),
        XbfPrimitive::U128(x) => PrimitiveView::U128(x),
        XbfPrimitive::U256(x) => PrimitiveView::U256(x@),
        XbfPrimitive::I8(x) => PrimitiveView::I8(x),
        XbfPrimitive::I16(x) => PrimitiveView::I16(x),
        XbfPrimitive::I32(x) => PrimitiveView::I32(x),
        XbfPrimitive::I64(x) => PrimitiveView::I64(x),
        XbfPrimitive::I128(x) => PrimitiveView::I128(x),
        XbfPrimitive::I256(x) => PrimitiveView::I256(x@),
        XbfPrimitive::F32(x) => PrimitiveView::F32(x),
        XbfPrimitive::F64(x) => PrimitiveView::F64(x),
        XbfPrimitive::String(x) => PrimitiveView::String(x@),
    }
}

/// The view of an [`XbfType`] value.
pub open spec fn tview(t: XbfType) -> ValueView
    decreases t,
{
    match t {
        XbfType::Primitive(p) => ValueView::Primitive(pview(p)),
        XbfType::Vec(v) => ValueView::Vec(vecview(v)),
        XbfType::Struct(s) => ValueView::Struct(structview(s)),
    }
}

/// The view of an [`XbfVec`] value.
pub open spec fn vecview(v: XbfVec) -> VecValueView
    decreases v,
{
    VecValueView { elem_type: mview(*v.metadata.inner_type), elements: tviews(v.elements@) }
}

/// The view of an [`XbfStruct`] value.
pub open spec fn structview(s: XbfStruct) -> StructValueView
    decreases s,
{
    StructValueView { metadata: smview(s.metadata), fields: tviews(s.fields@) }
}

/// The views of a list of values.
pub open spec fn tviews(vs: Seq<XbfType>) -> Seq<ValueView>
    decreases vs,
{
    if vs.len() == 0 {
        Seq::empty()
    } else {
        seq![tview(vs[0])] + tviews(vs.subrange(1, vs.len() as int))
    }
}

/// `tviews` maps the value list element by element.
pub proof fn lemma_tviews(vs: Seq<XbfType>)
    ensures
        tviews(vs).len() == vs.len(),
        forall|i: int| 0 <= i < vs.len() ==> #[trigger] tviews(vs)[i] == tview(vs[i]),
    decreases vs,
{
    if vs.len() > 0 {
        lemma_tviews(vs.subrange(1, vs.len() as int));
    }
}

/// Appending a value to a list appends its view.
pub proof fn lemma_tviews_push(vs: Seq<XbfType>, x: XbfType)
    ensures
        tviews(vs.push(x)) == tviews(vs).push(tview(x)),
    decreases vs,
{
    let whole = vs.push(x);
    if vs.len() == 0 {
        assert(whole.subrange(1, whole.len() as int) =~= vs);
        assert(tviews(whole) =~= tviews(vs).push(tview(x)));
    } else {
        let tail = vs.subrange(1, vs.len() as int);
        assert(whole.subrange(1, whole.len() as int) =~= tail.push(x));
        lemma_tviews_push(tail, x);
        assert(tviews(whole) =~= tviews(vs).push(tview(x)));
    }
}

// ---------------------------------------------------------------------
// Deriving a shape from a value
// ---------------------------------------------------------------------
/// The kind of a primitive value: a total, side-effect-free projection.
pub open spec fn prim_kind_of(p: PrimitiveView) -> XbfPrimitiveMetadata {
    match p {
        PrimitiveView::Bool(_) => XbfPrimitiveMetadata::Bool,
        PrimitiveView::U8(_) => XbfPrimitiveMetadata::U8,
        PrimitiveView::U16(_) => XbfPrimitiveMetadata::U16,
        PrimitiveView::U32(_) => XbfPrimitiveMetadata::U32,
        PrimitiveView::U64(_) => XbfPrimitiveMetadata::U64,
        PrimitiveView::U128(_) => XbfPrimitiveMetadata::U128,
        PrimitiveView::U256(_) => XbfPrimitiveMetadata::U256,
        PrimitiveView::I8(_) => XbfPrimitiveMetadata::I8,
        PrimitiveView::I16(_) => XbfPrimitiveMetadata::I16,
        PrimitiveView::I32(_) => XbfPrimitiveMetadata::I32,
        PrimitiveView::I64(_) => XbfPrimitiveMetadata::I64,
        PrimitiveView::I128(_) => XbfPrimitiveMetadata::I128,
        PrimitiveView::I256(_) => XbfPrimitiveMetadata::I256,
        PrimitiveView::F32(_) => XbfPrimitiveMetadata::F32,
        PrimitiveView::F64(_) => XbfPrimitiveMetadata::F64,
        PrimitiveView::String(_) => XbfPrimitiveMetadata::String,
    }
}

/// The shape of a value, derived without consuming the value.  A vector
/// carries its declared element type and a struct its declared shape, so
/// no recursion into the contents is needed.
pub open spec fn metadata_of_view(v: ValueView) -> MetadataView {
    match v {
        ValueView::Primitive(p) => MetadataView::Primitive(prim_kind_of(p)),
        ValueView::Vec(vv) => MetadataView::Vec(Box::new(vv.elem_type)),
        ValueView::Struct(sv) => MetadataView::Struct(sv.metadata),
    }
}

// ---------------------------------------------------------------------
// Well-formed and well-typed values
// ---------------------------------------------------------------------
/// A primitive value is well formed when its text fits the 16-bit length
/// prefix; a 256-bit integer always carries exactly four limbs.
pub open spec fn prim_wf(p: PrimitiveView) -> bool {
    match p {
        PrimitiveView::U256(l) => l.len() == 4,
        PrimitiveView::I256(l) => l.len() == 4,
        PrimitiveView::String(s) => text_wf(s),
        _ => true,
    }
}

/// A value is well typed when every composite part agrees with its
/// declared shape: each vector element has exactly the vector's element
/// type and each struct field the shape declared at its position, at
/// every depth.  Checked construction establishes this; unchecked
/// construction trusts the caller to.
pub open spec fn value_wf(v: ValueView) -> bool
    decreases v,
{
    match v {
        ValueView::Primitive(p) => prim_wf(p),
        ValueView::Vec(vv) => meta_wf(vv.elem_type) && vals_wf(vv.elements) && (forall|i: int|
            0 <= i < vv.elements.len() ==> metadata_of_view(#[trigger] vv.elements[i])
                == vv.elem_type),
        ValueView::Struct(sv) => struct_meta_wf(sv.metadata) && sv.fields.len()
            == sv.metadata.fields.len() && vals_wf(sv.fields) && (forall|i: int|
            0 <= i < sv.fields.len() ==> metadata_of_view(#[trigger] sv.fields[i])
                == sv.metadata.fields[i].1),
    }
}

/// Well-typedness of every value of a list.
pub open spec fn vals_wf(vs: Seq<ValueView>) -> bool
    decreases vs,
{
    vs.len() == 0 || (value_wf(vs[0]) && vals_wf(vs.subrange(1, vs.len() as int)))
}

/// `vals_wf` holds exactly when every value of the list is well typed.
pub proof fn lemma_vals_wf(vs: Seq<ValueView>)
    ensures
        vals_wf(vs) <==> (forall|i: int|
            #![trigger vs[i]]
            0 <= i < vs.len() ==> value_wf(vs[i])),
    decreases vs,
{
    if vs.len() > 0 {
        let tail = vs.subrange(1, vs.len() as int);
        lemma_vals_wf(tail);
        assert(forall|j: int| 0 <= j < tail.len() ==> #[trigger] tail[j] == vs[j + 1]);
        if vals_wf(vs) {
            assert(value_wf(vs[0]) && vals_wf(tail));
            assert forall|i: int| #![trigger vs[i]] 0 <= i < vs.len() implies value_wf(vs[i]) by {
                if i > 0 {
                    assert(vs[i] == tail[i - 1]);
                    assert(value_wf(tail[i - 1]));
                }
            }
        }
        if forall|i: int| #![trigger vs[i]] 0 <= i < vs.len() ==> value_wf(vs[i]) {
            assert(value_wf(vs[0]));
            assert forall|j: int| #![trigger tail[j]]
                0 <= j < tail.len() implies value_wf(tail[j]) by {
                assert(tail[j] == vs[j + 1]);
                assert(value_wf(vs[j + 1]));
            }
            assert(vals_wf(tail));
            assert(vals_wf(vs));
        }
    }
}

/// No vector value stands anywhere inside the value.  Vector value
/// encodings carry no element count, so only values free of nested
/// vectors can be decoded back from their bytes; a vector at the root
/// can, when its count is supplied out of band.
pub open spec fn vec_free(v: ValueView) -> bool
    decreases v,
{
    match v {
        ValueView::Primitive(_) => true,
        ValueView::Vec(_) => false,
        ValueView::Struct(sv) => vals_vec_free(sv.fields),
    }
}

/// Freedom from vectors for every value of a list.
pub open spec fn vals_vec_free(vs: Seq<ValueView>) -> bool
    decreases vs,
{
    vs.len() == 0 || (vec_free(vs[0]) && vals_vec_free(vs.subrange(1, vs.len() as int)))
}

/// `vals_vec_free` holds exactly when every value of the list is free of
/// vectors.
pub proof fn lemma_vals_vec_free(vs: Seq<ValueView>)
    ensures
        vals_vec_free(vs) <==> (forall|i: int|
            #![trigger vs[i]]
            0 <= i < vs.len() ==> vec_free(vs[i])),
    decreases vs,
{
    if vs.len() > 0 {
        let tail = vs.subrange(1, vs.len() as int);
        lemma_vals_vec_free(tail);
        assert(forall|j: int| 0 <= j < tail.len() ==> #[trigger] tail[j] == vs[j + 1]);
        if vals_vec_free(vs) {
            assert(vec_free(vs[0]) && vals_vec_free(tail));
            assert forall|i: int| #![trigger vs[i]] 0 <= i < vs.len() implies vec_free(vs[i]) by {
                if i > 0 {
                    assert(vs[i] == tail[i - 1]);
                    assert(vec_free(tail[i - 1]));
                }
            }
        }
        if forall|i: int| #![trigger vs[i]] 0 <= i < vs.len() ==> vec_free(vs[i]) {
            assert(vec_free(vs[0]));
            assert forall|j: int| #![trigger tail[j]]
                0 <= j < tail.len() implies vec_free(tail[j]) by {
                assert(tail[j] == vs[j + 1]);
                assert(vec_free(vs[j + 1]));
            }
            assert(vals_vec_free(tail));
            assert(vals_vec_free(vs));
        }
    }
}

/// Every piece of text inside the value fits the 16-bit length prefix.
/// Only such values can be serialized; nothing else about the value is
/// needed for serialization.
pub open spec fn value_strings_ok(v: ValueView) -> bool
    decreases v,
{
    match v {
        ValueView::Primitive(p) => prim_wf(p),
        ValueView::Vec(vv) => vals_strings_ok(vv.elements),
        ValueView::Struct(sv) => vals_strings_ok(sv.fields),
    }
}

/// Serializability of every value of a list.
pub open spec fn vals_strings_ok(vs: Seq<ValueView>) -> bool
    decreases vs,
{
    vs.len() == 0 || (value_strings_ok(vs[0]) && vals_strings_ok(vs.subrange(1, vs.len() as int)))
}

/// `vals_strings_ok` holds exactly when every value of the list can be
/// serialized.
pub proof fn lemma_vals_strings_ok(vs: Seq<ValueView>)
    ensures
        vals_strings_ok(vs) <==> (forall|i: int|
            #![trigger vs[i]]
            0 <= i < vs.len() ==> value_strings_ok(vs[i])),
    decreases vs,
{
    if vs.len() > 0 {
        let tail = vs.subrange(1, vs.len() as int);
        lemma_vals_strings_ok(tail);
        assert(forall|j: int| 0 <= j < tail.len() ==> #[trigger] tail[j] == vs[j + 1]);
        if vals_strings_ok(vs) {
            assert(value_strings_ok(vs[0]) && vals_strings_ok(tail));
            assert forall|i: int| #![trigger vs[i]]
                0 <= i < vs.len() implies value_strings_ok(vs[i]) by {
                if i > 0 {
                    assert(vs[i] == tail[i - 1]);
                    assert(value_strings_ok(tail[i - 1]));
                }
            }
        }
        if forall|i: int| #![trigger vs[i]] 0 <= i < vs.len() ==> value_strings_ok(vs[i]) {
            assert(value_strings_ok(vs[0]));
            assert forall|j: int| #![trigger tail[j]]
                0 <= j < tail.len() implies value_strings_ok(tail[j]) by {
                assert(tail[j] == vs[j + 1]);
                assert(value_strings_ok(vs[j + 1]));
            }
            assert(vals_strings_ok(tail));
            assert(vals_strings_ok(vs));
        }
    }
}

/// The elements a vector value decoder can reconstruct: each is well
/// typed with the vector's element type and free of nested vectors.
pub open spec fn decodable_elems(es: Seq<ValueView>, et: MetadataView) -> bool {
    forall|i: int|
        #![trigger es[i]]
        0 <= i < es.len() ==> value_wf(es[i]) && vec_free(es[i]) && metadata_of_view(es[i]) == et
}

// ---------------------------------------------------------------------
// Byte encodings of values
// ---------------------------------------------------------------------
/// The wire encoding of a primitive value: the scalar's raw little-endian
/// representation, at the kind's fixed width; text is length-prefixed.
/// No tag byte is written: a value can only be decoded with its shape
/// already known.
pub open spec fn enc_prim(p: PrimitiveView) -> Seq<u8> {
    match p {
        PrimitiveView::Bool(b) => seq![
            if b {
                1u8
            } else {
                0u8
            },
        ],
        PrimitiveView::U8(x) => seq![x],
        PrimitiveView::U16(x) => spec_u16_to_le_bytes(x),
        PrimitiveView::U32(x) => spec_u32_to_le_bytes(x),
        PrimitiveView::U64(x) => spec_u64_to_le_bytes(x),
        PrimitiveView::U128(x) => spec_u128_to_le_bytes(x),
        PrimitiveView::U256(l) => spec_u64_to_le_bytes(l[0]) + spec_u64_to_le_bytes(l[1])
            + spec_u64_to_le_bytes(l[2]) + spec_u64_to_le_bytes(l[3]),
        PrimitiveView::I8(x) => seq![x as u8],
        PrimitiveView::I16(x) => spec_u16_to_le_bytes(x as u16),
        PrimitiveView::I32(x) => spec_u32_to_le_bytes(x as u32),
        PrimitiveView::I64(x) => spec_u64_to_le_bytes(x as u64),
        PrimitiveView::I128(x) => spec_u128_to_le_bytes(x as u128),
        PrimitiveView::I256(l) => spec_u64_to_le_bytes(l[0]) + spec_u64_to_le_bytes(l[1])
            + spec_u64_to_le_bytes(l[2]) + spec_u64_to_le_bytes(l[3]),
        PrimitiveView::F32(x) => spec_u32_to_le_bytes(x),
        PrimitiveView::F64(x) => spec_u64_to_le_bytes(x),
        PrimitiveView::String(s) => enc_text(s),
    }
}

/// The wire encoding of a value: element and field encodings are
/// concatenated back to back with no framing and no count prefix.
pub open spec fn enc_value(v: ValueView) -> Seq<u8>
    decreases v,
{
    match v {
        ValueView::Primitive(p) => enc_prim(p),
        ValueView::Vec(vv) => enc_values(vv.elements),
        ValueView::Struct(sv) => enc_values(sv.fields),
    }
}

/// The encodings of a list of values, concatenated in order.
pub open spec fn enc_values(vs: Seq<ValueView>) -> Seq<u8>
    decreases vs,
{
    if vs.len() == 0 {
        Seq::empty()
    } else {
        enc_value(vs[0]) + enc_values(vs.subrange(1, vs.len() as int))
    }
}

/// Whether a text encoding can be decoded from the front of the bytes:
/// the 16-bit length prefix is present, that many bytes follow, and they
/// are valid UTF-8.
pub open spec fn text_decode_ok(bytes: Seq<u8>) -> bool {
    &&& bytes.len() >= 2
    &&& bytes.len() >= 2 + spec_u16_from_le_bytes(bytes.take(2))
    &&& valid_utf8(bytes.subrange(2, 2 + spec_u16_from_le_bytes(bytes.take(2)) as int))
}

/// Whether a primitive value of the given kind can be decoded from the
/// front of the bytes.  Every kind but text has a fixed width, and every
/// bit pattern of that width is a valid value: decoding fails only when
/// the source is exhausted early.  Text additionally needs valid UTF-8.
pub open spec fn prim_decode_ok(k: XbfPrimitiveMetadata, bytes: Seq<u8>) -> bool {
    match k {
        XbfPrimitiveMetadata::Bool => bytes.len() >= 1,
        XbfPrimitiveMetadata::U8 => bytes.len() >= 1,
        XbfPrimitiveMetadata::U16 => bytes.len() >= 2,
        XbfPrimitiveMetadata::U32 => bytes.len() >= 4,
        XbfPrimitiveMetadata::U64 => bytes.len() >= 8,
        XbfPrimitiveMetadata::U128 => bytes.len() >= 16,
        XbfPrimitiveMetadata::U256 => bytes.len() >= 32,
        XbfPrimitiveMetadata::I8 => bytes.len() >= 1,
        XbfPrimitiveMetadata::I16 => bytes.len() >= 2,
        XbfPrimitiveMetadata::I32 => bytes.len() >= 4,
        XbfPrimitiveMetadata::I64 => bytes.len() >= 8,
        XbfPrimitiveMetadata::I128 => bytes.len() >= 16,
        XbfPrimitiveMetadata::I256 => bytes.len() >= 32,
        XbfPrimitiveMetadata::F32 => bytes.len() >= 4,
        XbfPrimitiveMetadata::F64 => bytes.len() >= 8,
        XbfPrimitiveMetadata::String => text_decode_ok(bytes),
    }
}

/// Appending a value to a list appends its encoding.
pub proof fn lemma_enc_values_push(vs: Seq<ValueView>, x: ValueView)
    ensures
        enc_values(vs.push(x)) == enc_values(vs) + enc_value(x),
    decreases vs,
{
    let whole = vs.push(x);
    if vs.len() == 0 {
        assert(whole.subrange(1, whole.len() as int) =~= vs);
        assert(enc_values(whole) =~= enc_values(vs) + enc_value(x));
    } else {
        let tail = vs.subrange(1, vs.len() as int);
        assert(whole.subrange(1, whole.len() as int) =~= tail.push(x));
        lemma_enc_values_push(tail, x);
        assert(enc_values(whole) =~= enc_values(vs) + enc_value(x));
    }
}

/// Reading a value list one value at a time: the encoding of the suffix
/// from `i` starts with value `i`'s encoding.
pub proof fn lemma_enc_values_skip(vs: Seq<ValueView>, i: int)
    requires
        0 <= i < vs.len(),
    ensures
        enc_values(vs.skip(i)) == enc_value(vs[i]) + enc_values(vs.skip(i + 1)),
{
    let s = vs.skip(i);
    assert(s[0] == vs[i]);
    assert(s.subrange(1, s.len() as int) =~= vs.skip(i + 1));
    assert(enc_values(vs.skip(i)) =~= enc_value(vs[i]) + enc_values(vs.skip(i + 1)));
}

} // verus!
