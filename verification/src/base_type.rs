//! The unified value union over the three families.

use vstd::prelude::*;

use crate::base_metadata::XbfMetadata;
use crate::model::{
    enc_prim, enc_value, enc_values, meta_wf, metadata_of_view, tview, value_strings_ok, value_wf,
    vec_free, MetadataView, ValueView,
};
use crate::stream::{DecodeError, Reader};
use crate::primitive::XbfPrimitive;
use crate::primitive_metadata::XbfPrimitiveMetadata;
use crate::struct_type::XbfStruct;
use crate::vec_type::XbfVec;

verus! {

/// The discriminated union over the three value families.  Every
/// concrete value converts into this union for storage or transmission.
/// A value's bytes carry no tag of their own: decoding one always
/// requires its metadata.
#[derive(Debug, PartialEq)]
pub enum XbfType {
    Primitive(XbfPrimitive),
    Vec(XbfVec),
    Struct(XbfStruct),
}

impl View for XbfType {
    type V = ValueView;

    open spec fn view(&self) -> ValueView {
        tview(*self)
    }
}

impl Clone for XbfType {
    /// A deep copy with the same view.
    fn clone(&self) -> (r: Self)
        ensures
            r@ == self@,
        decreases self,
    {
        match self {
            XbfType::Primitive(p) => XbfType::Primitive(p.clone()),
            XbfType::Vec(v) => XbfType::Vec(v.clone()),
            XbfType::Struct(s) => XbfType::Struct(s.clone()),
        }
    }
}

impl XbfType {
    /// The metadata of this value, derived without consuming it: the
    /// kind of a primitive, or an owned copy of the shape a composite
    /// value was declared with.
    pub fn metadata_of(&self) -> (m: XbfMetadata)
        ensures
            m@ == metadata_of_view(self@),
    {
        match self {
            XbfType::Primitive(p) => XbfType::kind_to_metadata(XbfPrimitiveMetadata::from(p)),
            XbfType::Vec(v) => XbfMetadata::Vec(v.metadata.clone()),
            XbfType::Struct(s) => XbfMetadata::Struct(s.metadata.clone()),
        }
    }

    /// Serialize a value as defined by the XBF specification: the
    /// family bodies are written with no tag byte and no framing.  A
    /// value's bytes can only be decoded with its metadata in hand.
    pub fn serialize_base_type(&self, out: &mut Vec<u8>)
        requires
            value_strings_ok(self@),
        ensures
            final (out)@ == old(out)@ + enc_value(self@),
        decreases *self,
    {
        match self {
            XbfType::Primitive(p) => {
                p.serialize_primitive_type(out);
                proof {
                    assert(out@ =~= old(out)@ + enc_value(self@));
                }
            },
            XbfType::Vec(v) => {
                v.serialize_vec_type(out);
                proof {
                    assert(out@ =~= old(out)@ + enc_value(self@));
                }
            },
            XbfType::Struct(s) => {
                s.serialize_struct_type(out);
                proof {
                    assert(out@ =~= old(out)@ + enc_value(self@));
                }
            },
        }
    }

    /// Whether this value can be serialized: every piece of text inside
    /// it fits the 16-bit length prefix.
    pub fn is_serializable(&self) -> (b: bool)
        ensures
            b == value_strings_ok(self@),
        decreases *self,
    {
        match self {
            XbfType::Primitive(p) => p.is_serializable(),
            XbfType::Vec(v) => v.is_serializable(),
            XbfType::Struct(s) => s.is_serializable(),
        }
    }


    /// Deserialize a value as defined by the XBF specification, with its
    /// metadata already in hand.
    ///
    /// There is no value-only self-describing decode path, by design: a
    /// primitive's byte length is ambiguous without its kind, and
    /// composite values carry no tag of their own.  A vector value
    /// cannot be decoded through this entry point at all — its encoding
    /// carries no element count — so vector metadata yields
    /// [`DecodeError::MissingVecLength`]; use
    /// [`XbfVec::deserialize_vec_type`] with an out-of-band count
    /// instead.
    ///
    /// On success, deriving the result's metadata gives back exactly the
    /// metadata that was supplied; and whenever the stream starts with
    /// the encoding of a well-typed, vector-free value of that shape,
    /// the result is exactly that value.
    pub fn deserialize_base_type<'a>(metadata: &XbfMetadata, r: &mut Reader<'a>) -> (res: Result<
        XbfType,
        DecodeError,
    >)
        requires
            old(r).wf(),
        ensures
            final (r).wf(),
            final (r).bytes() == old(r).bytes(),
            final (r).position() >= old(r).position(),
            res matches Ok(t) ==> {
                &&& metadata_of_view(t@) == metadata@
                &&& value_strings_ok(t@)
                &&& vec_free(t@)
                &&& (meta_wf(metadata@) ==> value_wf(t@))
                &&& final (r).position() == old(r).position() + enc_value(t@).len()
            },
            forall|vv: ValueView, rest: Seq<u8>|
                value_wf(vv) && vec_free(vv) && metadata_of_view(vv) == metadata@ && old(
                    r,
                ).remaining() == #[trigger] (enc_value(vv) + rest) ==> (res matches Ok(t) && t@
                    == vv && final (r).position() == old(r).position() + enc_value(vv).len()),
            metadata@ is Vec ==> res == Err::<XbfType, DecodeError>(
                DecodeError::MissingVecLength,
            ),
            res matches Err(e) ==> e == DecodeError::UnexpectedEnd || e == DecodeError::InvalidText
                || e == DecodeError::MissingVecLength,
        decreases old(r).remaining().len(), *metadata,
    {
        match metadata {
            XbfMetadata::Primitive(k) => {
                match XbfPrimitive::deserialize_primitive_type(k, r) {
                    Ok(p) => {
                        let t = XbfType::Primitive(p);
                        proof {
                            assert forall|vv: ValueView, rest: Seq<u8>|
                                value_wf(vv) && vec_free(vv) && metadata_of_view(vv) == metadata@
                                    && old(r).remaining() == #[trigger] (enc_value(vv)
                                    + rest) implies t@ == vv by {
                                match vv {
                                    ValueView::Primitive(pv) => {
                                        assert(old(r).remaining() == enc_prim(pv) + rest);
                                    },
                                    _ => {},
                                }
                            }
                        }
                        Ok(t)
                    },
                    Err(e) => {
                        proof {
                            assert forall|vv: ValueView, rest: Seq<u8>|
                                value_wf(vv) && vec_free(vv) && metadata_of_view(vv) == metadata@
                                    && old(r).remaining() == #[trigger] (enc_value(vv)
                                    + rest) implies false by {
                                match vv {
                                    ValueView::Primitive(pv) => {
                                        assert(old(r).remaining() == enc_prim(pv) + rest);
                                    },
                                    _ => {},
                                }
                            }
                        }
                        Err(e)
                    },
                }
            },
            XbfMetadata::Vec(_) => {
                Err(DecodeError::MissingVecLength)
            },
            XbfMetadata::Struct(sm) => {
                match XbfStruct::deserialize_struct_type(sm, r) {
                    Ok(s) => {
                        let t = XbfType::Struct(s);
                        proof {
                            assert forall|vv: ValueView, rest: Seq<u8>|
                                value_wf(vv) && vec_free(vv) && metadata_of_view(vv) == metadata@
                                    && old(r).remaining() == #[trigger] (enc_value(vv)
                                    + rest) implies t@ == vv by {
                                match vv {
                                    ValueView::Struct(sv) => {
                                        assert(old(r).remaining() == enc_values(sv.fields) + rest);
                                        assert(t@ =~= vv);
                                    },
                                    _ => {},
                                }
                            }
                        }
                        Ok(t)
                    },
                    Err(e) => {
                        proof {
                            assert forall|vv: ValueView, rest: Seq<u8>|
                                value_wf(vv) && vec_free(vv) && metadata_of_view(vv) == metadata@
                                    && old(r).remaining() == #[trigger] (enc_value(vv)
                                    + rest) implies false by {
                                match vv {
                                    ValueView::Struct(sv) => {
                                        assert(old(r).remaining() == enc_values(sv.fields) + rest);
                                    },
                                    _ => {},
                                }
                            }
                        }
                        Err(e)
                    },
                }
            },
        }
    }

    /// The kind of a primitive, as unified metadata.
    fn kind_to_metadata(k: XbfPrimitiveMetadata) -> (m: XbfMetadata)
        ensures
            m@ == MetadataView::Primitive(k),
    {
        XbfMetadata::Primitive(k)
    }
}

impl From<XbfPrimitive> for XbfType {
    /// Upcast of a primitive value into the unified union.
    fn from(p: XbfPrimitive) -> (t: XbfType) {
        XbfType::Primitive(p)
    }
}

impl vstd::std_specs::convert::FromSpecImpl<XbfPrimitive> for XbfType {
    open spec fn obeys_from_spec() -> bool {
        true
    }

    open spec fn from_spec(p: XbfPrimitive) -> XbfType {
        XbfType::Primitive(p)
    }
}

impl From<XbfVec> for XbfType {
    /// Upcast of a vector value into the unified union.
    fn from(v: XbfVec) -> (t: XbfType) {
        XbfType::Vec(v)
    }
}

impl vstd::std_specs::convert::FromSpecImpl<XbfVec> for XbfType {
    open spec fn obeys_from_spec() -> bool {
        true
    }

    open spec fn from_spec(v: XbfVec) -> XbfType {
        XbfType::Vec(v)
    }
}

impl From<XbfStruct> for XbfType {
    /// Upcast of a struct value into the unified union.
    fn from(s: XbfStruct) -> (t: XbfType) {
        XbfType::Struct(s)
    }
}

impl vstd::std_specs::convert::FromSpecImpl<XbfStruct> for XbfType {
    open spec fn obeys_from_spec() -> bool {
        true
    }

    open spec fn from_spec(s: XbfStruct) -> XbfType {
        XbfType::Struct(s)
    }
}

} // verus!
