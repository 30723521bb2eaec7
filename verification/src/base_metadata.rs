//! The unified metadata union over the three shape families.

use vstd::prelude::*;

use crate::model::{
    enc_meta, enc_struct_meta_body, lemma_enc_meta_first, meta_disc, meta_wf, mview, MetadataView,
};
use crate::primitive_metadata::{
    lemma_primitive_discriminant_injective, XbfPrimitiveMetadata,
};
use crate::stream::{lemma_consumed_chain, lemma_reader_skip, DecodeError, Reader};
use crate::struct_metadata::{XbfStructMetadata, STRUCT_METADATA_DISCRIMINANT};
use crate::vec_metadata::{XbfVecMetadata, VEC_METADATA_DISCRIMINANT};

verus! {

/// The discriminated union over the three metadata families.  Every
/// concrete shape converts into this union for storage or transmission,
/// and the single tag byte at the front of an encoded shape lets a
/// decoder recover the exact family.
#[derive(Debug, PartialEq)]
pub enum XbfMetadata {
    Primitive(XbfPrimitiveMetadata),
    Vec(XbfVecMetadata),
    Struct(XbfStructMetadata),
}

impl Clone for XbfMetadata {
    /// A deep copy with the same view.
    fn clone(&self) -> (r: Self)
        ensures
            r@ == self@,
        decreases self,
    {
        match self {
            XbfMetadata::Primitive(k) => XbfMetadata::Primitive(*k),
            XbfMetadata::Vec(vm) => XbfMetadata::Vec(vm.clone()),
            XbfMetadata::Struct(sm) => XbfMetadata::Struct(sm.clone()),
        }
    }
}

impl View for XbfMetadata {
    type V = MetadataView;

    open spec fn view(&self) -> MetadataView {
        mview(*self)
    }
}

impl XbfMetadata {
    /// Serialize a shape as defined by the XBF specification: one tag
    /// byte out of the shared tag space, then the family's body.
    pub fn serialize_base_metadata(&self, out: &mut Vec<u8>)
        requires
            meta_wf(self@),
        ensures
            final (out)@ == old(out)@ + enc_meta(self@),
        decreases *self,
    {
        match self {
            XbfMetadata::Primitive(k) => {
                out.push(k.discriminant());
                proof {
                    assert(out@ =~= old(out)@ + enc_meta(self@));
                }
            },
            XbfMetadata::Vec(vm) => {
                vm.serialize_vec_metadata(out);
            },
            XbfMetadata::Struct(sm) => {
                sm.serialize_struct_metadata(out);
            },
        }
    }

    /// Deserialize a shape as defined by the XBF specification.
    ///
    /// This is the single entry point for decoding unknown metadata: it
    /// reads one tag byte and routes to the family the byte names.  A tag
    /// byte outside the tag space is a fatal format error, never coerced
    /// into a known shape.
    ///
    /// On success the consumed bytes are exactly the encoding of the
    /// result; and whenever the stream starts with the encoding of some
    /// well-formed shape `mv`, the result is exactly `mv` — together,
    /// decoding inverts encoding.
    pub fn deserialize_base_metadata<'a>(r: &mut Reader<'a>) -> (res: Result<
        XbfMetadata,
        DecodeError,
    >)
        requires
            old(r).wf(),
        ensures
            final (r).wf(),
            final (r).bytes() == old(r).bytes(),
            final (r).position() >= old(r).position(),
            res matches Ok(m) ==> {
                &&& meta_wf(m@)
                &&& final (r).position() == old(r).position() + enc_meta(m@).len()
                &&& old(r).remaining().take(enc_meta(m@).len() as int) == enc_meta(m@)
            },
            forall|mv: MetadataView, rest: Seq<u8>|
                meta_wf(mv) && old(r).remaining() == #[trigger] (enc_meta(mv) + rest) ==> (res
                    matches Ok(m) && m@ == mv),
        decreases old(r).remaining().len(), 0int,
    {
        let d = match r.read_u8() {
            Ok(b) => b,
            Err(e) => {
                proof {
                    assert forall|mv: MetadataView, rest: Seq<u8>|
                        meta_wf(mv) && old(r).remaining() == #[trigger] (enc_meta(mv)
                            + rest) implies false by {
                        lemma_enc_meta_first(mv);
                    }
                }
                return Err(e);
            },
        };
        let ghost r1 = *r;
        proof {
            lemma_reader_skip(*old(r), r1);
        }
        if let Option::Some(k) = XbfPrimitiveMetadata::from_discriminant(d) {
            let m = XbfMetadata::Primitive(k);
            proof {
                assert(enc_meta(m@) =~= seq![d]);
                assert(old(r).remaining().take(1) =~= seq![d]);
                assert forall|mv: MetadataView, rest: Seq<u8>|
                    meta_wf(mv) && old(r).remaining() == #[trigger] (enc_meta(mv)
                        + rest) implies m@ == mv by {
                    lemma_enc_meta_first(mv);
                    assert((enc_meta(mv) + rest)[0] == enc_meta(mv)[0]);
                    assert(meta_disc(mv) == d);
                    match mv {
                        MetadataView::Primitive(k2) => {
                            lemma_primitive_discriminant_injective(k, k2);
                        },
                        MetadataView::Vec(_) => {
                            assert(false);
                        },
                        MetadataView::Struct(_) => {
                            assert(false);
                        },
                    }
                }
            }
            Ok(m)
        } else if d == VEC_METADATA_DISCRIMINANT {
            match XbfVecMetadata::deserialize_vec_metadata(r) {
                Ok(vm) => {
                    let ghost ev = vm.elem_view();
                    let ghost r2 = *r;
                    let m = XbfMetadata::Vec(vm);
                    proof {
                        assert(m@ =~= MetadataView::Vec(Box::new(ev)));
                        assert(old(r).remaining().take(1) =~= seq![d]);
                        lemma_consumed_chain(*old(r), r1, r2, seq![d], enc_meta(ev));
                        assert(enc_meta(m@) =~= seq![VEC_METADATA_DISCRIMINANT] + enc_meta(ev));
                        assert forall|mv: MetadataView, rest: Seq<u8>|
                            meta_wf(mv) && old(r).remaining() == #[trigger] (enc_meta(mv)
                                + rest) implies m@ == mv by {
                            lemma_enc_meta_first(mv);
                            assert((enc_meta(mv) + rest)[0] == enc_meta(mv)[0]);
                            assert(meta_disc(mv) == d);
                            match mv {
                                MetadataView::Vec(e) => {
                                    assert(old(r).remaining() == (seq![VEC_METADATA_DISCRIMINANT]
                                        + enc_meta(*e)) + rest);
                                    assert(r1.remaining() =~= enc_meta(*e) + rest);
                                    assert(vm.elem_view() == *e);
                                    assert(m@ =~= mv);
                                },
                                MetadataView::Primitive(_) => {
                                    assert(false);
                                },
                                MetadataView::Struct(_) => {
                                    assert(false);
                                },
                            }
                        }
                    }
                    Ok(m)
                },
                Err(e) => {
                    proof {
                        assert forall|mv: MetadataView, rest: Seq<u8>|
                            meta_wf(mv) && old(r).remaining() == #[trigger] (enc_meta(mv)
                                + rest) implies false by {
                            lemma_enc_meta_first(mv);
                            assert((enc_meta(mv) + rest)[0] == enc_meta(mv)[0]);
                            assert(meta_disc(mv) == d);
                            match mv {
                                MetadataView::Vec(e) => {
                                    assert(old(r).remaining() == (seq![VEC_METADATA_DISCRIMINANT]
                                        + enc_meta(*e)) + rest);
                                    assert(r1.remaining() =~= enc_meta(*e) + rest);
                                },
                                MetadataView::Primitive(_) => {
                                    assert(false);
                                },
                                MetadataView::Struct(_) => {
                                    assert(false);
                                },
                            }
                        }
                    }
                    Err(e)
                },
            }
        } else if d == STRUCT_METADATA_DISCRIMINANT {
            match XbfStructMetadata::deserialize_struct_metadata(r) {
                Ok(sm) => {
                    let ghost sv = sm@;
                    let ghost r2 = *r;
                    let m = XbfMetadata::Struct(sm);
                    proof {
                        assert(old(r).remaining().take(1) =~= seq![d]);
                        lemma_consumed_chain(*old(r), r1, r2, seq![d], enc_struct_meta_body(sv));
                        assert(enc_meta(m@) =~= seq![STRUCT_METADATA_DISCRIMINANT]
                            + enc_struct_meta_body(sv));
                        assert forall|mv: MetadataView, rest: Seq<u8>|
                            meta_wf(mv) && old(r).remaining() == #[trigger] (enc_meta(mv)
                                + rest) implies m@ == mv by {
                            lemma_enc_meta_first(mv);
                            assert((enc_meta(mv) + rest)[0] == enc_meta(mv)[0]);
                            assert(meta_disc(mv) == d);
                            match mv {
                                MetadataView::Struct(sv2) => {
                                    assert(old(r).remaining() == (seq![STRUCT_METADATA_DISCRIMINANT]
                                        + enc_struct_meta_body(sv2)) + rest);
                                    assert(r1.remaining() =~= enc_struct_meta_body(sv2) + rest);
                                    assert(sv == sv2);
                                    assert(m@ =~= mv);
                                },
                                MetadataView::Primitive(_) => {
                                    assert(false);
                                },
                                MetadataView::Vec(_) => {
                                    assert(false);
                                },
                            }
                        }
                    }
                    Ok(m)
                },
                Err(e) => {
                    proof {
                        assert forall|mv: MetadataView, rest: Seq<u8>|
                            meta_wf(mv) && old(r).remaining() == #[trigger] (enc_meta(mv)
                                + rest) implies false by {
                            lemma_enc_meta_first(mv);
                            assert((enc_meta(mv) + rest)[0] == enc_meta(mv)[0]);
                            assert(meta_disc(mv) == d);
                            match mv {
                                MetadataView::Struct(sv2) => {
                                    assert(old(r).remaining() == (seq![STRUCT_METADATA_DISCRIMINANT]
                                        + enc_struct_meta_body(sv2)) + rest);
                                    assert(r1.remaining() =~= enc_struct_meta_body(sv2) + rest);
                                },
                                MetadataView::Primitive(_) => {
                                    assert(false);
                                },
                                MetadataView::Vec(_) => {
                                    assert(false);
                                },
                            }
                        }
                    }
                    Err(e)
                },
            }
        } else {
            proof {
                assert forall|mv: MetadataView, rest: Seq<u8>|
                    meta_wf(mv) && old(r).remaining() == #[trigger] (enc_meta(mv)
                        + rest) implies false by {
                    lemma_enc_meta_first(mv);
                    assert((enc_meta(mv) + rest)[0] == enc_meta(mv)[0]);
                    assert(meta_disc(mv) == d);
                }
            }
            Err(DecodeError::UnrecognizedDiscriminant(d))
        }
    }

    /// Structural equality of two shapes, at every depth.  Two shapes
    /// are equal exactly when their views are.
    pub fn shape_eq(&self, other: &XbfMetadata) -> (r: bool)
        ensures
            r == (self@ == other@),
        decreases *self,
    {
        match (self, other) {
            (XbfMetadata::Primitive(a), XbfMetadata::Primitive(b)) => *a == *b,
            (XbfMetadata::Vec(a), XbfMetadata::Vec(b)) => {
                let r = a.inner_type.shape_eq(&b.inner_type);
                proof {
                    if r {
                        assert(self@ =~= other@);
                    }
                }
                r
            },
            (XbfMetadata::Struct(a), XbfMetadata::Struct(b)) => a.shape_eq(b),
            _ => false,
        }
    }

    /// Whether this shape can be serialized: every name in it fits the
    /// 16-bit text length prefix and every struct declares at most 65535
    /// fields.
    pub fn is_serializable(&self) -> (b: bool)
        ensures
            b == meta_wf(self@),
        decreases *self,
    {
        match self {
            XbfMetadata::Primitive(_) => true,
            XbfMetadata::Vec(vm) => vm.inner_type.is_serializable(),
            XbfMetadata::Struct(sm) => sm.is_serializable(),
        }
    }
}

/// The tag space is one ordered registry: the sixteen primitive kinds
/// come first in declaration order, then the vector tag, then the struct
/// tag.  No two tags collide, and the struct tag is exactly one greater
/// than the vector tag.
pub proof fn lemma_discriminant_space()
    ensures
        forall|a: XbfPrimitiveMetadata, b: XbfPrimitiveMetadata|
            a.spec_discriminant() == b.spec_discriminant() ==> a == b,
        forall|a: XbfPrimitiveMetadata| a.spec_discriminant() < VEC_METADATA_DISCRIMINANT,
        VEC_METADATA_DISCRIMINANT != STRUCT_METADATA_DISCRIMINANT,
        STRUCT_METADATA_DISCRIMINANT == VEC_METADATA_DISCRIMINANT + 1,
        forall|m1: MetadataView, m2: MetadataView|
            meta_disc(m1) == meta_disc(m2) ==> ((m1 is Primitive <==> m2 is Primitive) && (m1
                is Vec <==> m2 is Vec) && (m1 is Struct <==> m2 is Struct)),
{
}

} // verus!
