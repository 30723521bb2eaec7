//! Vector values: homogeneous ordered sequences of values.

use vstd::prelude::*;

use crate::base_metadata::XbfMetadata;
use crate::base_type::XbfType;
use crate::model::{
    decodable_elems, enc_value, enc_values, lemma_enc_values_push, lemma_enc_values_skip,
    lemma_tviews, lemma_tviews_push, lemma_vals_strings_ok, lemma_vals_vec_free, lemma_vals_wf,
    meta_wf, metadata_of_view, mview, tview, tviews, vals_strings_ok, vals_vec_free,
    value_strings_ok, value_wf, vec_free, vecview, ValueView, VecValueView,
};
use crate::stream::{lemma_reader_skip, DecodeError, Reader};
use crate::vec_metadata::XbfVecMetadata;

verus! {

/// A vector value: the declared element type and the elements, owned, in
/// order.  Every element must match the declared element type; checked
/// construction enforces this and unchecked construction trusts the
/// caller.
#[derive(Debug, PartialEq)]
pub struct XbfVec {
    pub metadata: XbfVecMetadata,
    pub elements: Vec<XbfType>,
}

impl View for XbfVec {
    type V = VecValueView;

    open spec fn view(&self) -> VecValueView {
        vecview(*self)
    }
}

impl Clone for XbfVec {
    /// A deep copy with the same view.
    fn clone(&self) -> (r: Self)
        ensures
            r@ == self@,
        decreases self,
    {
        let mut elements: Vec<XbfType> = Vec::new();
        let mut i: usize = 0;
        while i < self.elements.len()
            invariant
                i <= self.elements@.len(),
                elements@.len() == i,
                forall|j: int|
                    0 <= j < i ==> #[trigger] tview(elements@[j]) == tview(self.elements@[j]),
            decreases self.elements@.len() - i,
        {
            let e = self.elements[i].clone();
            elements.push(e);
            i = i + 1;
        }
        let r = XbfVec { metadata: self.metadata.clone(), elements };
        proof {
            lemma_tviews(r.elements@);
            lemma_tviews(self.elements@);
            assert(tviews(r.elements@) =~= tviews(self.elements@));
            assert(r@ =~= self@);
        }
        r
    }
}

/// The failure of checked vector construction: some supplied element's
/// shape is not a match of the declared element type.  The offending
/// shapes are carried for diagnostics.
#[derive(Debug)]
pub struct VecElementMismatchError {
    pub expected: XbfMetadata,
    pub actual: XbfMetadata,
}

impl XbfVec {
    /// Tries to create a new [`XbfVec`] with the given element type.
    ///
    /// Fails with a uniform mismatch error if any supplied element's
    /// shape is not an exact structural match of the declared element
    /// type.
    pub fn new(metadata: XbfVecMetadata, elements: Vec<XbfType>) -> (res: Result<
        XbfVec,
        VecElementMismatchError,
    >)
        ensures
            res is Ok <==> (forall|i: int|
                0 <= i < elements@.len() ==> metadata_of_view(#[trigger] tviews(elements@)[i])
                    == metadata.elem_view()),
            res matches Ok(v) ==> v@ == (VecValueView {
                elem_type: metadata.elem_view(),
                elements: tviews(elements@),
            }),
            res matches Err(e) ==> {
                &&& mview(e.expected) == metadata.elem_view()
                &&& exists|i: int|
                    0 <= i < elements@.len() && mview(e.actual) == metadata_of_view(
                        #[trigger] tviews(elements@)[i],
                    ) && metadata_of_view(tviews(elements@)[i]) != metadata.elem_view()
            },
    {
        proof {
            lemma_tviews(elements@);
        }
        let mut i: usize = 0;
        while i < elements.len()
            invariant
                i <= elements@.len(),
                tviews(elements@).len() == elements@.len(),
                forall|j: int|
                    0 <= j < elements@.len() ==> #[trigger] tviews(elements@)[j] == tview(
                        elements@[j],
                    ),
                forall|j: int|
                    0 <= j < i ==> metadata_of_view(#[trigger] tviews(elements@)[j])
                        == metadata.elem_view(),
            decreases elements@.len() - i,
        {
            let actual = elements[i].metadata_of();
            if !actual.shape_eq(&metadata.inner_type) {
                let e = VecElementMismatchError {
                    expected: (*metadata.inner_type).clone(),
                    actual,
                };
                proof {
                    assert(tviews(elements@)[i as int] == tview(elements@[i as int]));
                    assert(mview(e.expected) == metadata.elem_view());
                    assert(mview(e.actual) == metadata_of_view(tviews(elements@)[i as int]));
                    assert(metadata_of_view(tviews(elements@)[i as int]) != metadata.elem_view());
                }
                return Err(e);
            }
            i = i + 1;
        }
        Ok(XbfVec { metadata, elements })
    }


    /// Serialize a vec value as defined by the XBF specification: each
    /// element's value encoding back to back, in order, with no framing
    /// and no count prefix.
    ///
    /// The element count is not written: it must already be known
    /// structurally, and the decoder reads exactly as many elements as
    /// the caller requests.
    pub fn serialize_vec_type(&self, out: &mut Vec<u8>)
        requires
            value_strings_ok(ValueView::Vec(self@)),
        ensures
            final (out)@ == old(out)@ + enc_value(ValueView::Vec(self@)),
        decreases *self,
    {
        proof {
            lemma_tviews(self.elements@);
            lemma_vals_strings_ok(self@.elements);
            assert(self@.elements.take(0) =~= Seq::<ValueView>::empty());
            assert(enc_values(self@.elements.take(0)) =~= Seq::<u8>::empty());
        }
        let mut i: usize = 0;
        while i < self.elements.len()
            invariant
                i <= self.elements@.len(),
                self@.elements.len() == self.elements@.len(),
                forall|j: int|
                    0 <= j < self.elements@.len() ==> #[trigger] self@.elements[j] == tview(
                        self.elements@[j],
                    ),
                forall|j: int|
                    #![trigger self@.elements[j]]
                    0 <= j < self@.elements.len() ==> value_strings_ok(self@.elements[j]),
                out@ == old(out)@ + enc_values(self@.elements.take(i as int)),
            decreases self.elements@.len() - i,
        {
            proof {
                assert(self@.elements[i as int] == tview(self.elements@[i as int]));
                assert(value_strings_ok(self@.elements[i as int]));
            }
            self.elements[i].serialize_base_type(out);
            proof {
                assert(self@.elements.take(i + 1) =~= self@.elements.take(i as int).push(
                    self@.elements[i as int],
                ));
                lemma_enc_values_push(self@.elements.take(i as int), self@.elements[i as int]);
                assert(out@ =~= old(out)@ + enc_values(self@.elements.take(i + 1)));
            }
            i = i + 1;
        }
        proof {
            assert(self@.elements.take(i as int) =~= self@.elements);
            assert(out@ =~= old(out)@ + enc_value(ValueView::Vec(self@)));
        }
    }

    /// Whether this value can be serialized: every piece of text inside
    /// it fits the 16-bit length prefix.
    pub fn is_serializable(&self) -> (b: bool)
        ensures
            b == value_strings_ok(ValueView::Vec(self@)),
        decreases *self,
    {
        proof {
            lemma_tviews(self.elements@);
            lemma_vals_strings_ok(self@.elements);
        }
        let mut i: usize = 0;
        while i < self.elements.len()
            invariant
                i <= self.elements@.len(),
                self@.elements.len() == self.elements@.len(),
                vals_strings_ok(self@.elements) <==> (forall|j: int|
                    #![trigger self@.elements[j]]
                    0 <= j < self@.elements.len() ==> value_strings_ok(self@.elements[j])),
                forall|j: int|
                    0 <= j < self.elements@.len() ==> #[trigger] self@.elements[j] == tview(
                        self.elements@[j],
                    ),
                forall|j: int|
                    #![trigger self@.elements[j]]
                    0 <= j < i ==> value_strings_ok(self@.elements[j]),
            decreases self.elements@.len() - i,
        {
            proof {
                assert(self@.elements[i as int] == tview(self.elements@[i as int]));
            }
            if !self.elements[i].is_serializable() {
                proof {
                    assert(!value_strings_ok(self@.elements[i as int]));
                    assert(!vals_strings_ok(self@.elements));
                }
                return false;
            }
            proof {
                assert(value_strings_ok(self@.elements[i as int]));
            }
            i = i + 1;
        }
        proof {
            assert(vals_strings_ok(self@.elements));
        }
        true
    }


    /// Deserialize a vector value as defined by the XBF specification.
    ///
    /// A vector's value encoding carries no count and no terminator, so
    /// the element count must be supplied out of band; exactly that many
    /// elements are decoded, each with the declared element shape.
    pub fn deserialize_vec_type<'a>(
        metadata: &XbfVecMetadata,
        count: usize,
        r: &mut Reader<'a>,
    ) -> (res: Result<XbfVec, DecodeError>)
        requires
            old(r).wf(),
        ensures
            final (r).wf(),
            final (r).bytes() == old(r).bytes(),
            final (r).position() >= old(r).position(),
            res matches Ok(v) ==> {
                &&& v@.elem_type == metadata.elem_view()
                &&& v@.elements.len() == count as int
                &&& value_strings_ok(ValueView::Vec(v@))
                &&& vals_vec_free(v@.elements)
                &&& (forall|j: int|
                    0 <= j < v@.elements.len() ==> metadata_of_view(#[trigger] v@.elements[j])
                        == metadata.elem_view())
                &&& (meta_wf(metadata.elem_view()) ==> value_wf(ValueView::Vec(v@)))
                &&& final (r).position() == old(r).position() + enc_values(v@.elements).len()
            },
            forall|es: Seq<ValueView>, rest: Seq<u8>|
                decodable_elems(es, metadata.elem_view()) && es.len() == count as int && old(
                    r,
                ).remaining() == #[trigger] (enc_values(es) + rest) ==> (res matches Ok(v)
                    && v@.elements == es && final (r).position() == old(r).position() + enc_values(
                    es,
                ).len()),
            res matches Err(e) ==> e == DecodeError::UnexpectedEnd || e == DecodeError::InvalidText
                || e == DecodeError::MissingVecLength,
        decreases old(r).remaining().len(), *metadata,
    {
        let mut elements: Vec<XbfType> = Vec::new();
        let mut i: usize = 0;
        proof {
            assert(tviews(elements@) =~= Seq::<ValueView>::empty());
            assert(enc_values(tviews(elements@)) =~= Seq::<u8>::empty());
            assert forall|es: Seq<ValueView>, rest: Seq<u8>|
                decodable_elems(es, metadata.elem_view()) && es.len() == count as int && old(
                    r,
                ).remaining() == #[trigger] (enc_values(es) + rest) implies {
                &&& tviews(elements@) == es.take(0)
                &&& r.remaining() == enc_values(es.skip(0)) + rest
            } by {
                assert(es.take(0) =~= tviews(elements@));
                assert(es.skip(0) =~= es);
            }
        }
        while i < count
            invariant
                r.wf(),
                r.bytes() == old(r).bytes(),
                old(r).position() <= r.position(),
                i <= count,
                elements@.len() == i as int,
                tviews(elements@).len() == i as int,
                forall|j: int|
                    0 <= j < elements@.len() ==> #[trigger] tviews(elements@)[j] == tview(
                        elements@[j],
                    ),
                forall|j: int|
                    #![trigger tviews(elements@)[j]]
                    0 <= j < i ==> {
                        &&& value_strings_ok(tviews(elements@)[j])
                        &&& vec_free(tviews(elements@)[j])
                        &&& metadata_of_view(tviews(elements@)[j]) == metadata.elem_view()
                        &&& (meta_wf(metadata.elem_view()) ==> value_wf(tviews(elements@)[j]))
                    },
                r.position() == old(r).position() + enc_values(tviews(elements@)).len(),
                forall|es: Seq<ValueView>, rest: Seq<u8>|
                    decodable_elems(es, metadata.elem_view()) && es.len() == count as int && old(
                        r,
                    ).remaining() == #[trigger] (enc_values(es) + rest) ==> {
                        &&& tviews(elements@) == es.take(i as int)
                        &&& r.remaining() == enc_values(es.skip(i as int)) + rest
                    },
            decreases count - i,
        {
            let ghost rit = *r;
            proof {
                assert forall|es: Seq<ValueView>, rest: Seq<u8>|
                    decodable_elems(es, metadata.elem_view()) && es.len() == count as int && old(
                        r,
                    ).remaining() == #[trigger] (enc_values(es) + rest) implies {
                    &&& value_wf(es[i as int])
                    &&& vec_free(es[i as int])
                    &&& metadata_of_view(es[i as int]) == mview(*metadata.inner_type)
                    &&& rit.remaining() == enc_value(es[i as int]) + (enc_values(
                        es.skip(i as int + 1),
                    ) + rest)
                } by {
                    assert(es[i as int] == es[i as int]);
                    lemma_enc_values_skip(es, i as int);
                    assert(rit.remaining() =~= enc_value(es[i as int]) + (enc_values(
                        es.skip(i as int + 1),
                    ) + rest));
                }
            }
            let val = match XbfType::deserialize_base_type(&metadata.inner_type, r) {
                Ok(v) => v,
                Err(e) => {
                    proof {
                        assert forall|es: Seq<ValueView>, rest: Seq<u8>|
                            decodable_elems(es, metadata.elem_view()) && es.len() == count as int
                                && old(r).remaining() == #[trigger] (enc_values(es)
                                + rest) implies false by {
                            assert(rit.remaining() == enc_value(es[i as int]) + (enc_values(
                                es.skip(i as int + 1),
                            ) + rest));
                        }
                    }
                    return Err(e);
                },
            };
            let ghost rb = *r;
            let ghost vv = val@;
            let ghost esv0 = elements@;
            proof {
                lemma_tviews_push(elements@, val);
                lemma_enc_values_push(tviews(elements@), vv);
            }
            elements.push(val);
            i = i + 1;
            proof {
                assert(tviews(elements@) == tviews(esv0).push(vv));
                assert forall|es: Seq<ValueView>, rest: Seq<u8>|
                    decodable_elems(es, metadata.elem_view()) && es.len() == count as int && old(
                        r,
                    ).remaining() == #[trigger] (enc_values(es) + rest) implies {
                    &&& tviews(elements@) == es.take(i as int)
                    &&& r.remaining() == enc_values(es.skip(i as int)) + rest
                } by {
                    assert(rit.remaining() == enc_value(es[i as int - 1]) + (enc_values(
                        es.skip(i as int),
                    ) + rest));
                    assert(vv == es[i as int - 1]);
                    assert(es.take(i as int) =~= es.take(i as int - 1).push(es[i as int - 1]));
                    assert(tviews(elements@) =~= es.take(i as int));
                    lemma_reader_skip(rit, rb);
                    assert(r.remaining() =~= enc_values(es.skip(i as int)) + rest);
                }
            }
        }
        let v = XbfVec { metadata: metadata.clone(), elements };
        proof {
            lemma_vals_strings_ok(v@.elements);
            lemma_vals_vec_free(v@.elements);
            assert(v@.elements == tviews(v.elements@));
            assert(v@.elem_type == metadata.elem_view());
            if meta_wf(metadata.elem_view()) {
                lemma_vals_wf(v@.elements);
                assert(value_wf(ValueView::Vec(v@)));
            }
            assert forall|es: Seq<ValueView>, rest: Seq<u8>|
                decodable_elems(es, metadata.elem_view()) && es.len() == count as int && old(
                    r,
                ).remaining() == #[trigger] (enc_values(es) + rest) implies v@.elements == es by {
                assert(es.take(i as int) =~= es);
            }
        }
        Ok(v)
    }

    /// Upcast into the unified value union, leaving this value in
    /// place.
    pub fn to_base_type(&self) -> (t: XbfType)
        ensures
            t@ == ValueView::Vec(self@),
    {
        XbfType::Vec(self.clone())
    }

    /// Upcast into the unified value union.
    pub fn into_base_type(self) -> (t: XbfType)
        ensures
            t@ == ValueView::Vec(self@),
    {
        XbfType::Vec(self)
    }

    /// Creates a new [`XbfVec`] with the supplied element type and
    /// elements without checking that the elements have that type.
    pub fn new_unchecked(metadata: XbfVecMetadata, elements: Vec<XbfType>) -> (v: XbfVec)
        ensures
            v@ == (VecValueView { elem_type: metadata.elem_view(), elements: tviews(elements@) }),
    {
        XbfVec { metadata, elements }
    }
}

} // verus!
