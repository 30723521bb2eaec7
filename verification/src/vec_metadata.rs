//! Metadata for the vector family: a homogeneous element type.

use vstd::prelude::*;

use crate::base_metadata::XbfMetadata;
use crate::model::{enc_meta, meta_wf, mview, MetadataView};
use crate::primitive_metadata::PRIMITIVE_KIND_COUNT;
use crate::stream::{DecodeError, Reader};

verus! {

/// The metadata discriminant for a vector type.
///
/// This is the same for all vectors regardless of their element type.
/// It sits immediately after the primitive discriminant space, so the
/// whole tag space stays contiguous and collision-free.
pub const VEC_METADATA_DISCRIMINANT: u8 = PRIMITIVE_KIND_COUNT;

/// Metadata for a vector type: the declared element type, which may
/// itself be a vector or struct metadata, nested arbitrarily deep.
#[derive(Debug, PartialEq)]
pub struct XbfVecMetadata {
    pub inner_type: Box<XbfMetadata>,
}

impl Clone for XbfVecMetadata {
    /// A deep copy with the same view.
    fn clone(&self) -> (r: Self)
        ensures
            r@ == self@,
        decreases self,
    {
        XbfVecMetadata { inner_type: Box::new((&*self.inner_type).clone()) }
    }
}

impl XbfVecMetadata {
    /// The view of the declared element type.
    pub open spec fn elem_view(self) -> MetadataView {
        mview(*self.inner_type)
    }

    /// Deserialize a vector shape as defined by the XBF specification.
    ///
    /// This method assumes the vector tag byte has already been consumed:
    /// it reads the element shape.  When the family of the shape is not
    /// known in advance, use
    /// [`deserialize_base_metadata`](XbfMetadata::deserialize_base_metadata).
    pub fn deserialize_vec_metadata<'a>(r: &mut Reader<'a>) -> (res: Result<
        XbfVecMetadata,
        DecodeError,
    >)
        requires
            old(r).wf(),
        ensures
            final (r).wf(),
            final (r).bytes() == old(r).bytes(),
            final (r).position() >= old(r).position(),
            res matches Ok(vm) ==> {
                &&& meta_wf(vm@)
                &&& final (r).position() == old(r).position() + enc_meta(vm.elem_view()).len()
                &&& old(r).remaining().take(enc_meta(vm.elem_view()).len() as int) == enc_meta(
                    vm.elem_view(),
                )
            },
            forall|ev: MetadataView, rest: Seq<u8>|
                meta_wf(ev) && old(r).remaining() == #[trigger] (enc_meta(ev) + rest) ==> (res
                    matches Ok(vm) && vm.elem_view() == ev),
        decreases old(r).remaining().len(), 1int,
    {
        match XbfMetadata::deserialize_base_metadata(r) {
            Ok(inner) => {
                let ghost iv = inner@;
                let vm = XbfVecMetadata::new(inner);
                Ok(vm)
            },
            Err(e) => Err(e),
        }
    }

    /// Creates a new [`XbfVecMetadata`] with the given element type.
    pub fn new(inner_type: XbfMetadata) -> (r: Self)
        ensures
            r.elem_view() == inner_type@,
    {
        XbfVecMetadata { inner_type: Box::new(inner_type) }
    }
}

impl XbfVecMetadata {
    /// Serialize a vector shape as defined by the XBF specification: the
    /// vector tag byte, then the element shape, recursively.
    pub fn serialize_vec_metadata(&self, out: &mut Vec<u8>)
        requires
            meta_wf(self@),
        ensures
            final (out)@ == old(out)@ + enc_meta(self@),
        decreases *self,
    {
        out.push(VEC_METADATA_DISCRIMINANT);
        self.inner_type.serialize_base_metadata(out);
        proof {
            assert(out@ =~= old(out)@ + enc_meta(self@));
        }
    }
}

impl View for XbfVecMetadata {
    type V = MetadataView;

    open spec fn view(&self) -> MetadataView {
        MetadataView::Vec(Box::new(self.elem_view()))
    }
}

impl XbfVecMetadata {
    /// Upcast into the unified metadata union, leaving this shape in
    /// place.
    pub fn to_base_metadata(&self) -> (m: XbfMetadata)
        ensures
            m@ == self@,
    {
        XbfMetadata::Vec(self.clone())
    }

    /// Upcast into the unified metadata union.
    pub fn into_base_metadata(self) -> (m: XbfMetadata)
        ensures
            m@ == self@,
    {
        XbfMetadata::Vec(self)
    }
}

impl From<XbfVecMetadata> for XbfMetadata {
    /// Upcast of a vector shape into the unified metadata union.
    fn from(vm: XbfVecMetadata) -> (m: XbfMetadata) {
        XbfMetadata::Vec(vm)
    }
}

impl vstd::std_specs::convert::FromSpecImpl<XbfVecMetadata> for XbfMetadata {
    open spec fn obeys_from_spec() -> bool {
        true
    }

    open spec fn from_spec(vm: XbfVecMetadata) -> XbfMetadata {
        XbfMetadata::Vec(vm)
    }
}

} // verus!
