//! Metadata for the struct family: a named, ordered list of typed fields.

use vstd::prelude::*;

use vstd::bytes::{lemma_auto_spec_u16_to_from_le_bytes, spec_u16_to_le_bytes, u16_to_le_bytes};

use crate::base_metadata::XbfMetadata;
use crate::model::{
    enc_meta, enc_meta_fields, enc_struct_meta_body, enc_text, fields_view,
    lemma_enc_meta_fields_push, lemma_enc_meta_fields_skip, lemma_fields_view,
    lemma_fields_view_push, lemma_meta_fields_wf, meta_fields_wf, meta_wf, mview, smview,
    struct_meta_wf, text_wf, MetadataView, StructMetadataView,
};
use crate::stream::{
    lemma_consumed_chain, lemma_reader_skip, write_text, DecodeError, Reader,
};
use crate::vec_metadata::VEC_METADATA_DISCRIMINANT;

verus! {

/// The metadata discriminant for a struct type.
///
/// This is the same for all structs regardless of their contents.  Its
/// value is always the discriminant of the vector type plus one.
pub const STRUCT_METADATA_DISCRIMINANT: u8 = VEC_METADATA_DISCRIMINANT + 1;

/// Metadata for a struct type: a name and an ordered list of
/// (field name, field shape) pairs.  Field order is significant and is
/// the wire order.
#[derive(Debug, PartialEq)]
pub struct XbfStructMetadata {
    pub name: String,
    pub fields: Vec<(String, XbfMetadata)>,
}

impl Clone for XbfStructMetadata {
    /// A deep copy with the same view.
    fn clone(&self) -> (r: Self)
        ensures
            r@ == self@,
        decreases self,
    {
        let mut fields: Vec<(String, XbfMetadata)> = Vec::new();
        let mut i: usize = 0;
        while i < self.fields.len()
            invariant
                i <= self.fields@.len(),
                fields@.len() == i,
                forall|j: int|
                    0 <= j < i ==> #[trigger] fields@[j].0 == self.fields@[j].0 && mview(
                        fields@[j].1,
                    ) == mview(self.fields@[j].1),
            decreases self.fields@.len() - i,
        {
            let name = self.fields[i].0.clone();
            let meta = self.fields[i].1.clone();
            fields.push((name, meta));
            i = i + 1;
        }
        let r = XbfStructMetadata { name: self.name.clone(), fields };
        proof {
            lemma_fields_view(r.fields@);
            lemma_fields_view(self.fields@);
            assert(fields_view(r.fields@) =~= fields_view(self.fields@));
            assert(r@ =~= self@);
        }
        r
    }
}

impl View for XbfStructMetadata {
    type V = StructMetadataView;

    open spec fn view(&self) -> StructMetadataView {
        smview(*self)
    }
}

impl XbfStructMetadata {
    /// Creates a new [`XbfStructMetadata`] with the given name and
    /// declared fields.
    pub fn new(name: String, fields: Vec<(String, XbfMetadata)>) -> (r: Self)
        ensures
            r@ == (StructMetadataView { name: name@, fields: fields_view(fields@) }),
    {
        Self { name, fields }
    }

    /// Serialize a struct shape as defined by the XBF specification: the
    /// struct tag byte, the struct name, a 16-bit field count, then each
    /// field's name and shape in declared order.
    pub fn serialize_struct_metadata(&self, out: &mut Vec<u8>)
        requires
            meta_wf(MetadataView::Struct(self@)),
        ensures
            final (out)@ == old(out)@ + enc_meta(MetadataView::Struct(self@)),
        decreases *self,
    {
        proof {
            lemma_fields_view(self.fields@);
            lemma_meta_fields_wf(self@.fields);
            assert(struct_meta_wf(self@));
            assert(text_wf(self@.name));
        }
        out.push(STRUCT_METADATA_DISCRIMINANT);
        write_text(out, self.name.as_str());
        let n: u16 = self.fields.len() as u16;
        let mut lenb = u16_to_le_bytes(n);
        out.append(&mut lenb);
        let ghost head = old(out)@ + seq![STRUCT_METADATA_DISCRIMINANT] + enc_text(self@.name)
            + spec_u16_to_le_bytes(self@.fields.len() as u16);
        proof {
            assert(self@.fields.take(0) =~= Seq::<(Seq<char>, MetadataView)>::empty());
            assert(out@ =~= head + enc_meta_fields(self@.fields.take(0)));
        }
        let mut i: usize = 0;
        while i < self.fields.len()
            invariant
                i <= self.fields@.len(),
                meta_wf(MetadataView::Struct(self@)),
                self@.fields.len() == self.fields@.len(),
                forall|j: int|
                    0 <= j < self.fields@.len() ==> #[trigger] self@.fields[j] == (
                    self.fields@[j].0@,
                    mview(self.fields@[j].1),
                    ),
                forall|j: int|
                    #![trigger self@.fields[j]]
                    0 <= j < self@.fields.len() ==> text_wf(self@.fields[j].0) && meta_wf(
                        self@.fields[j].1,
                    ),
                out@ == head + enc_meta_fields(self@.fields.take(i as int)),
            decreases self.fields@.len() - i,
        {
            proof {
                assert(self@.fields[i as int] == (
                    self.fields@[i as int].0@,
                    mview(self.fields@[i as int].1),
                ));
                assert(text_wf(self@.fields[i as int].0) && meta_wf(self@.fields[i as int].1));
            }
            write_text(out, self.fields[i].0.as_str());
            self.fields[i].1.serialize_base_metadata(out);
            proof {
                assert(self@.fields.take(i + 1) =~= self@.fields.take(i as int).push(
                    self@.fields[i as int],
                ));
                lemma_enc_meta_fields_push(self@.fields.take(i as int), self@.fields[i as int]);
                assert(out@ =~= head + enc_meta_fields(self@.fields.take(i + 1)));
            }
            i = i + 1;
        }
        proof {
            assert(self@.fields.take(i as int) =~= self@.fields);
            assert(out@ == head + enc_meta_fields(self@.fields));
            assert(enc_meta(MetadataView::Struct(self@)) == seq![STRUCT_METADATA_DISCRIMINANT]
                + enc_struct_meta_body(self@));
            assert(enc_struct_meta_body(self@) == enc_text(self@.name) + spec_u16_to_le_bytes(
                self@.fields.len() as u16,
            ) + enc_meta_fields(self@.fields));
            assert(out@ =~= old(out)@ + enc_meta(MetadataView::Struct(self@)));
        }
    }

    /// Deserialize a struct shape as defined by the XBF specification.
    ///
    /// This method assumes the struct tag byte has already been consumed:
    /// it reads the struct name, a 16-bit field count, and then each
    /// field's name and shape.  When the family of the shape is not known
    /// in advance, use
    /// [`deserialize_base_metadata`](XbfMetadata::deserialize_base_metadata).
    pub fn deserialize_struct_metadata<'a>(r: &mut Reader<'a>) -> (res: Result<
        XbfStructMetadata,
        DecodeError,
    >)
        requires
            old(r).wf(),
        ensures
            final (r).wf(),
            final (r).bytes() == old(r).bytes(),
            final (r).position() >= old(r).position(),
            res matches Ok(sm) ==> {
                &&& struct_meta_wf(sm@)
                &&& final (r).position() == old(r).position() + enc_struct_meta_body(sm@).len()
                &&& old(r).remaining().take(enc_struct_meta_body(sm@).len() as int)
                    == enc_struct_meta_body(sm@)
            },
            forall|sv: StructMetadataView, rest: Seq<u8>|
                struct_meta_wf(sv) && old(r).remaining() == #[trigger] (enc_struct_meta_body(sv)
                    + rest) ==> (res matches Ok(sm) && sm@ == sv),
        decreases old(r).remaining().len(), 1int,
    {
        proof {
            lemma_auto_spec_u16_to_from_le_bytes();
        }
        let name = match r.read_text() {
            Ok(s) => s,
            Err(e) => {
                proof {
                    assert forall|sv: StructMetadataView, rest: Seq<u8>|
                        struct_meta_wf(sv) && old(r).remaining() == #[trigger] (
                        enc_struct_meta_body(sv) + rest) implies false by {
                        assert(old(r).remaining() =~= enc_text(sv.name) + (spec_u16_to_le_bytes(
                            sv.fields.len() as u16,
                        ) + (enc_meta_fields(sv.fields) + rest)));
                    }
                }
                return Err(e);
            },
        };
        let ghost r1 = *r;
        let count = match r.read_u16() {
            Ok(c) => c,
            Err(e) => {
                proof {
                    assert forall|sv: StructMetadataView, rest: Seq<u8>|
                        struct_meta_wf(sv) && old(r).remaining() == #[trigger] (
                        enc_struct_meta_body(sv) + rest) implies false by {
                        assert(old(r).remaining() =~= enc_text(sv.name) + (spec_u16_to_le_bytes(
                            sv.fields.len() as u16,
                        ) + (enc_meta_fields(sv.fields) + rest)));
                        lemma_reader_skip(*old(r), r1);
                        assert(r1.remaining() =~= spec_u16_to_le_bytes(sv.fields.len() as u16) + (
                        enc_meta_fields(sv.fields) + rest));
                    }
                }
                return Err(e);
            },
        };
        let ghost r2 = *r;
        let ghost namev = name@;
        proof {
            lemma_reader_skip(*old(r), r1);
            lemma_reader_skip(r1, r2);
            lemma_consumed_chain(
                *old(r),
                r1,
                r2,
                enc_text(namev),
                spec_u16_to_le_bytes(count),
            );
        }
        let mut fields: Vec<(String, XbfMetadata)> = Vec::new();
        let mut i: usize = 0;
        proof {
            lemma_auto_spec_u16_to_from_le_bytes();
            assert(fields_view(fields@) =~= Seq::<(Seq<char>, MetadataView)>::empty());
            assert(enc_meta_fields(fields_view(fields@)) =~= Seq::<u8>::empty());
            assert(r2.remaining().take(0) =~= Seq::<u8>::empty());
            assert forall|sv: StructMetadataView, rest: Seq<u8>|
                struct_meta_wf(sv) && old(r).remaining() == #[trigger] (enc_struct_meta_body(sv)
                    + rest) implies {
                &&& sv.name == namev
                &&& sv.fields.len() == count as int
                &&& fields_view(fields@) == sv.fields.take(0)
                &&& r.remaining() == enc_meta_fields(sv.fields.skip(0)) + rest
            } by {
                assert(old(r).remaining() =~= enc_text(sv.name) + (spec_u16_to_le_bytes(
                    sv.fields.len() as u16,
                ) + (enc_meta_fields(sv.fields) + rest)));
                assert(namev == sv.name);
                assert(r1.remaining() =~= spec_u16_to_le_bytes(sv.fields.len() as u16) + (
                enc_meta_fields(sv.fields) + rest));
                assert(r1.remaining().take(2) =~= spec_u16_to_le_bytes(sv.fields.len() as u16));
                assert(count == sv.fields.len() as u16);
                assert(sv.fields.len() <= 0xffff);
                assert(sv.fields.take(0) =~= fields_view(fields@));
                assert(sv.fields.skip(0) =~= sv.fields);
                assert(r.remaining() =~= enc_meta_fields(sv.fields.skip(0)) + rest);
            }
        }
        while i < count as usize
            invariant
                r.wf(),
                r2.wf(),
                r.bytes() == old(r).bytes(),
                r2.bytes() == old(r).bytes(),
                old(r).position() <= r2.position() <= r.position(),
                text_wf(namev),
                name@ == namev,
                r2.position() == old(r).position() + enc_text(namev).len() + 2,
                old(r).remaining().take(r2.position() - old(r).position()) == enc_text(namev)
                    + spec_u16_to_le_bytes(count),
                fields@.len() == i as int,
                i <= count as int,
                meta_fields_wf(fields_view(fields@)),
                r.position() == r2.position() + enc_meta_fields(fields_view(fields@)).len(),
                r2.remaining().take(r.position() - r2.position()) == enc_meta_fields(
                    fields_view(fields@),
                ),
                forall|sv: StructMetadataView, rest: Seq<u8>|
                    struct_meta_wf(sv) && old(r).remaining() == #[trigger] (enc_struct_meta_body(
                        sv,
                    ) + rest) ==> {
                        &&& sv.name == namev
                        &&& sv.fields.len() == count as int
                        &&& fields_view(fields@) == sv.fields.take(i as int)
                        &&& r.remaining() == enc_meta_fields(sv.fields.skip(i as int)) + rest
                    },
            decreases count as int - i,
        {
            let ghost rit = *r;
            proof {
                assert forall|sv: StructMetadataView, rest: Seq<u8>|
                    struct_meta_wf(sv) && old(r).remaining() == #[trigger] (enc_struct_meta_body(
                        sv,
                    ) + rest) implies {
                    &&& text_wf(sv.fields[i as int].0)
                    &&& meta_wf(sv.fields[i as int].1)
                    &&& rit.remaining() == enc_text(sv.fields[i as int].0) + (enc_meta(
                        sv.fields[i as int].1,
                    ) + (enc_meta_fields(sv.fields.skip(i as int + 1)) + rest))
                } by {
                    lemma_meta_fields_wf(sv.fields);
                    assert(sv.fields[i as int] == sv.fields[i as int]);
                    lemma_enc_meta_fields_skip(sv.fields, i as int);
                    assert(rit.remaining() =~= enc_text(sv.fields[i as int].0) + (enc_meta(
                        sv.fields[i as int].1,
                    ) + (enc_meta_fields(sv.fields.skip(i as int + 1)) + rest)));
                }
            }
            let fname = match r.read_text() {
                Ok(s) => s,
                Err(e) => {
                    return Err(e);
                },
            };
            let ghost ra = *r;
            let fmeta = match XbfMetadata::deserialize_base_metadata(r) {
                Ok(m) => m,
                Err(e) => {
                    proof {
                        assert forall|sv: StructMetadataView, rest: Seq<u8>|
                            struct_meta_wf(sv) && old(r).remaining() == #[trigger] (
                            enc_struct_meta_body(sv) + rest) implies false by {
                            assert(fname@ == sv.fields[i as int].0);
                            lemma_reader_skip(rit, ra);
                            assert(ra.remaining() =~= enc_meta(sv.fields[i as int].1) + (
                            enc_meta_fields(sv.fields.skip(i as int + 1)) + rest));
                        }
                    }
                    return Err(e);
                },
            };
            let ghost rb = *r;
            let ghost fnv = fname@;
            let ghost fmv = fmeta@;
            let ghost fsv0 = fields@;
            proof {
                lemma_reader_skip(rit, ra);
                lemma_consumed_chain(rit, ra, rb, enc_text(fnv), enc_meta(fmv));
                lemma_consumed_chain(
                    r2,
                    rit,
                    rb,
                    enc_meta_fields(fields_view(fields@)),
                    enc_text(fnv) + enc_meta(fmv),
                );
                lemma_fields_view(fields@);
                lemma_fields_view_push(fields@, (fname, fmeta));
                lemma_enc_meta_fields_push(fields_view(fields@), (fnv, fmv));
                lemma_meta_fields_wf(fields_view(fields@));
                lemma_meta_fields_wf(fields_view(fields@).push((fnv, fmv)));
            }
            fields.push((fname, fmeta));
            i = i + 1;
            proof {
                assert(fields_view(fields@) == fields_view(fsv0).push((fnv, fmv)));
                assert(r2.remaining().take(r.position() - r2.position()) =~= enc_meta_fields(
                    fields_view(fields@),
                ));
                assert forall|j: int|
                    #![trigger fields_view(fields@)[j]]
                    0 <= j < fields_view(fields@).len() implies text_wf(fields_view(fields@)[j].0)
                    && meta_wf(fields_view(fields@)[j].1) by {
                    if j < fields_view(fields@).len() - 1 {
                        assert(fields_view(fields@)[j] == fields_view(fsv0)[j]);
                        assert(text_wf(fields_view(fsv0)[j].0) && meta_wf(fields_view(fsv0)[j].1));
                    } else {
                        assert(fields_view(fields@)[j] == (fnv, fmv));
                    }
                }
                assert(meta_fields_wf(fields_view(fields@)));
                assert forall|sv: StructMetadataView, rest: Seq<u8>|
                    struct_meta_wf(sv) && old(r).remaining() == #[trigger] (enc_struct_meta_body(
                        sv,
                    ) + rest) implies {
                        &&& fields_view(fields@) == sv.fields.take(i as int)
                        &&& r.remaining() == enc_meta_fields(sv.fields.skip(i as int)) + rest
                    } by {
                    assert(fnv == sv.fields[i as int - 1].0);
                    assert(ra.remaining() =~= enc_meta(sv.fields[i as int - 1].1) + (
                    enc_meta_fields(sv.fields.skip(i as int)) + rest));
                    assert(fmv == sv.fields[i as int - 1].1);
                    assert(sv.fields.take(i as int) =~= sv.fields.take(i as int - 1).push(
                        sv.fields[i as int - 1],
                    ));
                    assert(fields_view(fields@) =~= sv.fields.take(i as int));
                    lemma_reader_skip(ra, rb);
                    assert(r.remaining() =~= enc_meta_fields(sv.fields.skip(i as int)) + rest);
                }
            }
        }
        let sm = XbfStructMetadata { name, fields };
        proof {
            lemma_fields_view(sm.fields@);
            assert(sm@.name == namev);
            assert(sm@.fields == fields_view(sm.fields@));
            assert(sm@.fields.len() == count as int);
            assert(struct_meta_wf(sm@));
            lemma_consumed_chain(
                *old(r),
                r2,
                *r,
                enc_text(namev) + spec_u16_to_le_bytes(count),
                enc_meta_fields(sm@.fields),
            );
            assert(enc_struct_meta_body(sm@) =~= (enc_text(namev) + spec_u16_to_le_bytes(count))
                + enc_meta_fields(sm@.fields));
            assert forall|sv: StructMetadataView, rest: Seq<u8>|
                struct_meta_wf(sv) && old(r).remaining() == #[trigger] (enc_struct_meta_body(sv)
                    + rest) implies sm@ == sv by {
                assert(sv.fields.take(count as int) =~= sv.fields);
                assert(sm@ =~= sv);
            }
        }
        Ok(sm)
    }

    /// Whether this shape can be serialized: the struct name and every
    /// field name fit the 16-bit text length prefix, the struct declares
    /// at most 65535 fields, and every field's shape is serializable.
    pub fn is_serializable(&self) -> (b: bool)
        ensures
            b == meta_wf(MetadataView::Struct(self@)),
        decreases *self,
    {
        proof {
            lemma_fields_view(self.fields@);
            lemma_meta_fields_wf(self@.fields);
            assert(self@.name == self.name@);
            assert(meta_wf(MetadataView::Struct(self@)) == struct_meta_wf(self@));
        }
        if self.name.as_str().as_bytes().len() > 0xffff {
            proof {
                assert(!text_wf(self@.name));
            }
            return false;
        }
        if self.fields.len() > 0xffff {
            return false;
        }
        let mut i: usize = 0;
        while i < self.fields.len()
            invariant
                i <= self.fields@.len(),
                self@.fields.len() == self.fields@.len(),
                text_wf(self@.name),
                self@.fields.len() <= 0xffff,
                meta_wf(MetadataView::Struct(self@)) == struct_meta_wf(self@),
                meta_fields_wf(self@.fields) <==> (forall|j: int|
                    #![trigger self@.fields[j]]
                    0 <= j < self@.fields.len() ==> text_wf(self@.fields[j].0) && meta_wf(
                        self@.fields[j].1,
                    )),
                forall|j: int|
                    0 <= j < self.fields@.len() ==> #[trigger] self@.fields[j] == (
                    self.fields@[j].0@,
                    mview(self.fields@[j].1),
                    ),
                forall|j: int|
                    #![trigger self@.fields[j]]
                    0 <= j < i ==> text_wf(self@.fields[j].0) && meta_wf(self@.fields[j].1),
            decreases self.fields@.len() - i,
        {
            proof {
                assert(self@.fields[i as int] == (
                    self.fields@[i as int].0@,
                    mview(self.fields@[i as int].1),
                ));
            }
            if self.fields[i].0.as_str().as_bytes().len() > 0xffff {
                proof {
                    assert(!text_wf(self@.fields[i as int].0));
                    assert(!meta_fields_wf(self@.fields));
                }
                return false;
            }
            if !self.fields[i].1.is_serializable() {
                proof {
                    assert(!meta_wf(self@.fields[i as int].1));
                    assert(!meta_fields_wf(self@.fields));
                }
                return false;
            }
            proof {
                assert(text_wf(self@.fields[i as int].0));
                assert(meta_wf(self@.fields[i as int].1));
            }
            i = i + 1;
        }
        proof {
            assert(meta_fields_wf(self@.fields));
            assert(struct_meta_wf(self@));
        }
        true
    }

    /// Structural equality of two struct shapes: the names, the field
    /// names and the field shapes all agree, in order.  Two struct
    /// shapes are equal exactly when their views are.
    pub fn shape_eq(&self, other: &XbfStructMetadata) -> (r: bool)
        ensures
            r == (self@ == other@),
        decreases *self,
    {
        proof {
            lemma_fields_view(self.fields@);
            lemma_fields_view(other.fields@);
        }
        if !(self.name == other.name) {
            return false;
        }
        if self.fields.len() != other.fields.len() {
            return false;
        }
        let mut i: usize = 0;
        while i < self.fields.len()
            invariant
                i <= self.fields@.len(),
                self.fields@.len() == other.fields@.len(),
                self@.name == other@.name,
                self@.fields.len() == self.fields@.len(),
                other@.fields.len() == other.fields@.len(),
                forall|j: int|
                    0 <= j < self.fields@.len() ==> #[trigger] self@.fields[j] == (
                    self.fields@[j].0@,
                    mview(self.fields@[j].1),
                    ),
                forall|j: int|
                    0 <= j < other.fields@.len() ==> #[trigger] other@.fields[j] == (
                    other.fields@[j].0@,
                    mview(other.fields@[j].1),
                    ),
                forall|j: int| 0 <= j < i ==> #[trigger] self@.fields[j] == other@.fields[j],
            decreases self.fields@.len() - i,
        {
            if !(self.fields[i].0 == other.fields[i].0) {
                proof {
                    assert(self@.fields[i as int] != other@.fields[i as int]);
                }
                return false;
            }
            if !self.fields[i].1.shape_eq(&other.fields[i].1) {
                proof {
                    assert(self@.fields[i as int] != other@.fields[i as int]);
                }
                return false;
            }
            proof {
                assert(self@.fields[i as int] == other@.fields[i as int]);
            }
            i = i + 1;
        }
        proof {
            assert(self@.fields =~= other@.fields);
            assert(self@ =~= other@);
        }
        true
    }

    /// Upcast into the unified metadata union, leaving this shape in
    /// place.
    pub fn to_base_metadata(&self) -> (m: XbfMetadata)
        ensures
            m@ == MetadataView::Struct(self@),
    {
        XbfMetadata::Struct(self.clone())
    }

    /// Upcast into the unified metadata union.
    pub fn into_base_metadata(self) -> (m: XbfMetadata)
        ensures
            m@ == MetadataView::Struct(self@),
    {
        XbfMetadata::Struct(self)
    }

    /// How many fields the struct declares.
    pub fn field_count(&self) -> (n: usize)
        ensures
            n == self@.fields.len(),
    {
        proof {
            lemma_fields_view(self.fields@);
        }
        self.fields.len()
    }
}

impl From<XbfStructMetadata> for XbfMetadata {
    /// Upcast of a struct shape into the unified metadata union.
    fn from(sm: XbfStructMetadata) -> (m: XbfMetadata) {
        XbfMetadata::Struct(sm)
    }
}

impl vstd::std_specs::convert::FromSpecImpl<XbfStructMetadata> for XbfMetadata {
    open spec fn obeys_from_spec() -> bool {
        true
    }

    open spec fn from_spec(sm: XbfStructMetadata) -> XbfMetadata {
        XbfMetadata::Struct(sm)
    }
}

} // verus!
