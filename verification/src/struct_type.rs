//! Struct values: named, ordered collections of typed fields.

use vstd::prelude::*;

use crate::base_metadata::XbfMetadata;
use crate::base_type::XbfType;
use crate::model::{
    enc_value, enc_values, lemma_enc_values_push, lemma_enc_values_skip, lemma_fields_view,
    lemma_meta_fields_wf, lemma_tviews, lemma_tviews_push, lemma_vals_strings_ok,
    lemma_vals_vec_free, lemma_vals_wf, meta_wf, metadata_of_view, mview, struct_meta_wf,
    structview, tview, tviews, vals_strings_ok, vals_wf, value_strings_ok, value_wf, vec_free,
    StructMetadataView, StructValueView, ValueView,
};
use crate::stream::{lemma_reader_skip, DecodeError, Reader};
use crate::struct_metadata::XbfStructMetadata;

verus! {

/// A struct value: its declared shape, owned, and the field values,
/// positionally aligned with the shape's field list.  Checked
/// construction enforces the alignment; unchecked construction trusts
/// the caller.
#[derive(Debug, PartialEq)]
pub struct XbfStruct {
    pub metadata: XbfStructMetadata,
    pub fields: Vec<XbfType>,
}

impl View for XbfStruct {
    type V = StructValueView;

    open spec fn view(&self) -> StructValueView {
        structview(*self)
    }
}

impl Clone for XbfStruct {
    /// A deep copy with the same view.
    fn clone(&self) -> (r: Self)
        ensures
            r@ == self@,
        decreases self,
    {
        let mut fields: Vec<XbfType> = Vec::new();
        let mut i: usize = 0;
        while i < self.fields.len()
            invariant
                i <= self.fields@.len(),
                fields@.len() == i,
                forall|j: int|
                    0 <= j < i ==> #[trigger] tview(fields@[j]) == tview(self.fields@[j]),
            decreases self.fields@.len() - i,
        {
            let f = self.fields[i].clone();
            fields.push(f);
            i = i + 1;
        }
        let r = XbfStruct { metadata: self.metadata.clone(), fields };
        proof {
            lemma_tviews(r.fields@);
            lemma_tviews(self.fields@);
            assert(tviews(r.fields@) =~= tviews(self.fields@));
            assert(r@ =~= self@);
        }
        r
    }
}

/// All positions before `n` of the supplied values match the declared
/// field shapes.
pub open spec fn fields_match_up_to(mv: StructMetadataView, vs: Seq<ValueView>, n: int) -> bool {
    forall|i: int| 0 <= i < n ==> metadata_of_view(#[trigger] vs[i]) == mv.fields[i].1
}

/// The number of positions the checked constructor examines: the
/// supplied values are zipped against the declared fields, so the
/// shorter list bounds the walk.
pub open spec fn zipped_len(mv: StructMetadataView, vs: Seq<ValueView>) -> int {
    if mv.fields.len() <= vs.len() {
        mv.fields.len() as int
    } else {
        vs.len() as int
    }
}

impl XbfStruct {
    /// Tries to create a new [`XbfStruct`] based on the supplied
    /// metadata.
    ///
    /// The declared fields and the supplied values are walked pairwise;
    /// the first position whose value's shape differs from the declared
    /// one fails the construction, and the error names the field and
    /// both shapes.  Positions beyond the shorter of the two lists are
    /// not examined.
    pub fn new(metadata: XbfStructMetadata, fields: Vec<XbfType>) -> (res: Result<
        XbfStruct,
        StructFieldMismatchError,
    >)
        ensures
            res is Ok <==> fields_match_up_to(
                metadata@,
                tviews(fields@),
                zipped_len(metadata@, tviews(fields@)),
            ),
            res matches Ok(s) ==> s@ == (StructValueView {
                metadata: metadata@,
                fields: tviews(fields@),
            }),
            res matches Err(e) ==> exists|i: int|
                {
                    &&& 0 <= i < zipped_len(metadata@, tviews(fields@))
                    &&& fields_match_up_to(metadata@, tviews(fields@), i)
                    &&& metadata_of_view(#[trigger] tviews(fields@)[i]) != metadata@.fields[i].1
                    &&& e.field_name@ == metadata@.fields[i].0
                    &&& mview(e.expected) == metadata@.fields[i].1
                    &&& mview(e.actual) == metadata_of_view(tviews(fields@)[i])
                },
    {
        proof {
            lemma_tviews(fields@);
            lemma_fields_view(metadata.fields@);
        }
        let n = if metadata.fields.len() <= fields.len() {
            metadata.fields.len()
        } else {
            fields.len()
        };
        let mut i: usize = 0;
        while i < n
            invariant
                i <= n,
                n as int == zipped_len(metadata@, tviews(fields@)),
                n <= metadata.fields@.len(),
                n <= fields@.len(),
                tviews(fields@).len() == fields@.len(),
                metadata@.fields.len() == metadata.fields@.len(),
                forall|j: int|
                    0 <= j < fields@.len() ==> #[trigger] tviews(fields@)[j] == tview(fields@[j]),
                forall|j: int|
                    0 <= j < metadata.fields@.len() ==> #[trigger] metadata@.fields[j] == (
                    metadata.fields@[j].0@,
                    mview(metadata.fields@[j].1),
                    ),
                fields_match_up_to(metadata@, tviews(fields@), i as int),
            decreases n - i,
        {
            let actual = fields[i].metadata_of();
            if !actual.shape_eq(&metadata.fields[i].1) {
                let e = StructFieldMismatchError::new(
                    metadata.fields[i].0.as_str(),
                    &metadata.fields[i].1,
                    &actual,
                );
                proof {
                    assert(metadata_of_view(tviews(fields@)[i as int]) != metadata@.fields[
                        i as int].1);
                }
                return Err(e);
            }
            i = i + 1;
        }
        Ok(XbfStruct { metadata, fields })
    }


    /// Serialize a struct value as defined by the XBF specification: each
    /// field's value encoding back to back, in order, with no framing
    /// and no count prefix.
    ///
    /// The metadata is not written.  To write it out, get it with
    /// [`Self::get_metadata`] and serialize that with
    /// [`XbfStructMetadata::serialize_struct_metadata`].
    pub fn serialize_struct_type(&self, out: &mut Vec<u8>)
        requires
            value_strings_ok(ValueView::Struct(self@)),
        ensures
            final (out)@ == old(out)@ + enc_value(ValueView::Struct(self@)),
        decreases *self,
    {
        proof {
            lemma_tviews(self.fields@);
            lemma_vals_strings_ok(self@.fields);
            assert(self@.fields.take(0) =~= Seq::<ValueView>::empty());
            assert(enc_values(self@.fields.take(0)) =~= Seq::<u8>::empty());
        }
        let mut i: usize = 0;
        while i < self.fields.len()
            invariant
                i <= self.fields@.len(),
                self@.fields.len() == self.fields@.len(),
                forall|j: int|
                    0 <= j < self.fields@.len() ==> #[trigger] self@.fields[j] == tview(
                        self.fields@[j],
                    ),
                forall|j: int|
                    #![trigger self@.fields[j]]
                    0 <= j < self@.fields.len() ==> value_strings_ok(self@.fields[j]),
                out@ == old(out)@ + enc_values(self@.fields.take(i as int)),
            decreases self.fields@.len() - i,
        {
            proof {
                assert(self@.fields[i as int] == tview(self.fields@[i as int]));
                assert(value_strings_ok(self@.fields[i as int]));
            }
            self.fields[i].serialize_base_type(out);
            proof {
                assert(self@.fields.take(i + 1) =~= self@.fields.take(i as int).push(
                    self@.fields[i as int],
                ));
                lemma_enc_values_push(self@.fields.take(i as int), self@.fields[i as int]);
                assert(out@ =~= old(out)@ + enc_values(self@.fields.take(i + 1)));
            }
            i = i + 1;
        }
        proof {
            assert(self@.fields.take(i as int) =~= self@.fields);
            assert(out@ =~= old(out)@ + enc_value(ValueView::Struct(self@)));
        }
    }

    /// Whether this value can be serialized: every piece of text inside
    /// it fits the 16-bit length prefix.
    pub fn is_serializable(&self) -> (b: bool)
        ensures
            b == value_strings_ok(ValueView::Struct(self@)),
        decreases *self,
    {
        proof {
            lemma_tviews(self.fields@);
            lemma_vals_strings_ok(self@.fields);
        }
        let mut i: usize = 0;
        while i < self.fields.len()
            invariant
                i <= self.fields@.len(),
                self@.fields.len() == self.fields@.len(),
                vals_strings_ok(self@.fields) <==> (forall|j: int|
                    #![trigger self@.fields[j]]
                    0 <= j < self@.fields.len() ==> value_strings_ok(self@.fields[j])),
                forall|j: int|
                    0 <= j < self.fields@.len() ==> #[trigger] self@.fields[j] == tview(
                        self.fields@[j],
                    ),
                forall|j: int|
                    #![trigger self@.fields[j]]
                    0 <= j < i ==> value_strings_ok(self@.fields[j]),
            decreases self.fields@.len() - i,
        {
            proof {
                assert(self@.fields[i as int] == tview(self.fields@[i as int]));
            }
            if !self.fields[i].is_serializable() {
                proof {
                    assert(!value_strings_ok(self@.fields[i as int]));
                    assert(!vals_strings_ok(self@.fields));
                }
                return false;
            }
            proof {
                assert(value_strings_ok(self@.fields[i as int]));
            }
            i = i + 1;
        }
        proof {
            assert(vals_strings_ok(self@.fields));
        }
        true
    }


    /// Deserialize a struct value as defined by the XBF specification.
    ///
    /// The metadata is not read from the source: it must already be
    /// known, be that from
    /// [`deserialize_base_metadata`](XbfMetadata::deserialize_base_metadata)
    /// or from elsewhere.  Exactly one value per declared field is
    /// decoded, in order, each with the corresponding field's shape, and
    /// the result trusts its positional alignment with the given
    /// metadata.
    pub fn deserialize_struct_type<'a>(metadata: &XbfStructMetadata, r: &mut Reader<'a>) -> (res:
        Result<XbfStruct, DecodeError>)
        requires
            old(r).wf(),
        ensures
            final (r).wf(),
            final (r).bytes() == old(r).bytes(),
            final (r).position() >= old(r).position(),
            res matches Ok(s) ==> {
                &&& s@.metadata == metadata@
                &&& s@.fields.len() == metadata@.fields.len()
                &&& value_strings_ok(ValueView::Struct(s@))
                &&& vec_free(ValueView::Struct(s@))
                &&& (forall|j: int|
                    0 <= j < s@.fields.len() ==> metadata_of_view(#[trigger] s@.fields[j])
                        == metadata@.fields[j].1)
                &&& (struct_meta_wf(metadata@) ==> value_wf(ValueView::Struct(s@)))
                &&& final (r).position() == old(r).position() + enc_value(
                    ValueView::Struct(s@),
                ).len()
            },
            forall|sv: StructValueView, rest: Seq<u8>|
                value_wf(ValueView::Struct(sv)) && vec_free(ValueView::Struct(sv)) && sv.metadata
                    == metadata@ && old(r).remaining() == #[trigger] (enc_values(sv.fields)
                    + rest) ==> (res matches Ok(s) && s@ == sv && final (r).position() == old(
                    r,
                ).position() + enc_values(sv.fields).len()),
            res matches Err(e) ==> e == DecodeError::UnexpectedEnd || e == DecodeError::InvalidText
                || e == DecodeError::MissingVecLength,
        decreases old(r).remaining().len(), *metadata,
    {
        proof {
            lemma_fields_view(metadata.fields@);
        }
        let mut fields: Vec<XbfType> = Vec::new();
        let mut i: usize = 0;
        proof {
            assert(tviews(fields@) =~= Seq::<ValueView>::empty());
            assert(enc_values(tviews(fields@)) =~= Seq::<u8>::empty());
            assert forall|sv: StructValueView, rest: Seq<u8>|
                value_wf(ValueView::Struct(sv)) && vec_free(ValueView::Struct(sv)) && sv.metadata
                    == metadata@ && old(r).remaining() == #[trigger] (enc_values(sv.fields)
                    + rest) implies {
                &&& sv.fields.len() == metadata@.fields.len()
                &&& tviews(fields@) == sv.fields.take(0)
                &&& r.remaining() == enc_values(sv.fields.skip(0)) + rest
            } by {
                assert(sv.fields.take(0) =~= tviews(fields@));
                assert(sv.fields.skip(0) =~= sv.fields);
            }
        }
        while i < metadata.fields.len()
            invariant
                r.wf(),
                r.bytes() == old(r).bytes(),
                old(r).position() <= r.position(),
                i <= metadata.fields@.len(),
                metadata@.fields.len() == metadata.fields@.len(),
                forall|j: int|
                    0 <= j < metadata.fields@.len() ==> #[trigger] metadata@.fields[j] == (
                    metadata.fields@[j].0@,
                    mview(metadata.fields@[j].1),
                    ),
                fields@.len() == i as int,
                tviews(fields@).len() == i as int,
                forall|j: int|
                    0 <= j < fields@.len() ==> #[trigger] tviews(fields@)[j] == tview(fields@[j]),
                forall|j: int|
                    #![trigger tviews(fields@)[j]]
                    0 <= j < i ==> {
                        &&& value_strings_ok(tviews(fields@)[j])
                        &&& vec_free(tviews(fields@)[j])
                        &&& metadata_of_view(tviews(fields@)[j]) == metadata@.fields[j].1
                        &&& (meta_wf(metadata@.fields[j].1) ==> value_wf(tviews(fields@)[j]))
                    },
                r.position() == old(r).position() + enc_values(tviews(fields@)).len(),
                forall|sv: StructValueView, rest: Seq<u8>|
                    value_wf(ValueView::Struct(sv)) && vec_free(ValueView::Struct(sv))
                        && sv.metadata == metadata@ && old(r).remaining() == #[trigger] (
                    enc_values(sv.fields) + rest) ==> {
                        &&& sv.fields.len() == metadata@.fields.len()
                        &&& tviews(fields@) == sv.fields.take(i as int)
                        &&& r.remaining() == enc_values(sv.fields.skip(i as int)) + rest
                    },
            decreases metadata.fields@.len() - i,
        {
            let ghost rit = *r;
            proof {
                assert forall|sv: StructValueView, rest: Seq<u8>|
                    value_wf(ValueView::Struct(sv)) && vec_free(ValueView::Struct(sv))
                        && sv.metadata == metadata@ && old(r).remaining() == #[trigger] (
                    enc_values(sv.fields) + rest) implies {
                    &&& value_wf(sv.fields[i as int])
                    &&& vec_free(sv.fields[i as int])
                    &&& metadata_of_view(sv.fields[i as int]) == mview(metadata.fields@[i as int].1)
                    &&& rit.remaining() == enc_value(sv.fields[i as int]) + (enc_values(
                        sv.fields.skip(i as int + 1),
                    ) + rest)
                } by {
                    lemma_vals_wf(sv.fields);
                    lemma_vals_vec_free(sv.fields);
                    assert(value_wf(sv.fields[i as int]));
                    assert(vec_free(sv.fields[i as int]));
                    assert(metadata_of_view(sv.fields[i as int]) == sv.metadata.fields[i as int].1);
                    lemma_enc_values_skip(sv.fields, i as int);
                    assert(rit.remaining() =~= enc_value(sv.fields[i as int]) + (enc_values(
                        sv.fields.skip(i as int + 1),
                    ) + rest));
                }
            }
            let val = match XbfType::deserialize_base_type(&metadata.fields[i].1, r) {
                Ok(v) => v,
                Err(e) => {
                    proof {
                        assert forall|sv: StructValueView, rest: Seq<u8>|
                            value_wf(ValueView::Struct(sv)) && vec_free(ValueView::Struct(sv))
                                && sv.metadata == metadata@ && old(r).remaining() == #[trigger] (
                        enc_values(sv.fields) + rest) implies false by {
                            assert(rit.remaining() == enc_value(sv.fields[i as int]) + (enc_values(
                                sv.fields.skip(i as int + 1),
                            ) + rest));
                        }
                    }
                    return Err(e);
                },
            };
            let ghost rb = *r;
            let ghost vv = val@;
            let ghost fsv0 = fields@;
            proof {
                lemma_tviews_push(fields@, val);
                lemma_enc_values_push(tviews(fields@), vv);
            }
            fields.push(val);
            i = i + 1;
            proof {
                assert(tviews(fields@) == tviews(fsv0).push(vv));
                assert forall|sv: StructValueView, rest: Seq<u8>|
                    value_wf(ValueView::Struct(sv)) && vec_free(ValueView::Struct(sv))
                        && sv.metadata == metadata@ && old(r).remaining() == #[trigger] (
                enc_values(sv.fields) + rest) implies {
                    &&& tviews(fields@) == sv.fields.take(i as int)
                    &&& r.remaining() == enc_values(sv.fields.skip(i as int)) + rest
                } by {
                    assert(rit.remaining() == enc_value(sv.fields[i as int - 1]) + (enc_values(
                        sv.fields.skip(i as int),
                    ) + rest));
                    assert(vv == sv.fields[i as int - 1]);
                    assert(sv.fields.take(i as int) =~= sv.fields.take(i as int - 1).push(
                        sv.fields[i as int - 1],
                    ));
                    assert(tviews(fields@) =~= sv.fields.take(i as int));
                    lemma_reader_skip(rit, rb);
                    assert(r.remaining() =~= enc_values(sv.fields.skip(i as int)) + rest);
                }
            }
        }
        let s = XbfStruct { metadata: metadata.clone(), fields };
        proof {
            lemma_vals_strings_ok(s@.fields);
            lemma_vals_vec_free(s@.fields);
            assert(s@.fields == tviews(s.fields@));
            assert(s@.metadata == metadata@);
            if struct_meta_wf(metadata@) {
                lemma_meta_fields_wf(metadata@.fields);
                lemma_vals_wf(s@.fields);
                assert forall|j: int| #![trigger s@.fields[j]]
                    0 <= j < s@.fields.len() implies value_wf(s@.fields[j]) by {
                    assert(metadata@.fields[j].0 == metadata@.fields[j].0);
                    assert(meta_wf(metadata@.fields[j].1));
                }
                assert(vals_wf(s@.fields));
                assert(value_wf(ValueView::Struct(s@)));
            }
            assert forall|sv: StructValueView, rest: Seq<u8>|
                value_wf(ValueView::Struct(sv)) && vec_free(ValueView::Struct(sv)) && sv.metadata
                    == metadata@ && old(r).remaining() == #[trigger] (enc_values(sv.fields)
                    + rest) implies s@ == sv by {
                assert(sv.fields.take(i as int) =~= sv.fields);
                assert(s@ =~= sv);
            }
        }
        Ok(s)
    }

    /// Creates a new [`XbfStruct`] with the supplied metadata and fields
    /// without checking that the fields have the declared shapes.
    pub fn new_unchecked(metadata: XbfStructMetadata, fields: Vec<XbfType>) -> (s: XbfStruct)
        ensures
            s@ == (StructValueView { metadata: metadata@, fields: tviews(fields@) }),
    {
        XbfStruct { metadata, fields }
    }

    /// Upcast into the unified value union, leaving this value in
    /// place.
    pub fn to_base_type(&self) -> (t: XbfType)
        ensures
            t@ == ValueView::Struct(self@),
    {
        XbfType::Struct(self.clone())
    }

    /// Upcast into the unified value union.
    pub fn into_base_type(self) -> (t: XbfType)
        ensures
            t@ == ValueView::Struct(self@),
    {
        XbfType::Struct(self)
    }

    /// Returns the metadata of the struct, as an owned copy.
    pub fn get_metadata(&self) -> (m: XbfStructMetadata)
        ensures
            m@ == self@.metadata,
    {
        self.metadata.clone()
    }
}

/// The failure of checked struct construction: the supplied value at
/// some position does not have the shape declared there.  The field
/// name and both shapes are carried for diagnostics.
#[derive(Debug)]
pub struct StructFieldMismatchError {
    pub field_name: String,
    pub expected: XbfMetadata,
    pub actual: XbfMetadata,
}

impl StructFieldMismatchError {
    /// Creates a mismatch error for the named field, with the declared
    /// and the actual shape.
    pub fn new(
        field_name: &str,
        expected_field_type: &XbfMetadata,
        actual_field_type: &XbfMetadata,
    ) -> (e: StructFieldMismatchError)
        ensures
            e.field_name@ == field_name@,
            mview(e.expected) == mview(*expected_field_type),
            mview(e.actual) == mview(*actual_field_type),
    {
        StructFieldMismatchError {
            field_name: field_name.to_owned(),
            expected: expected_field_type.clone(),
            actual: actual_field_type.clone(),
        }
    }

    /// The diagnostic text: it names the field and describes the actual
    /// and the expected shape.
    ///
    /// Relies on `format!` to render the text.
    #[verifier::external_body]
    pub fn message(&self) -> String {
        format!(
            "provided value for field {} is of type {:?}, expected {:?}",
            self.field_name, self.actual, self.expected,
        )
    }
}

} // verus!
