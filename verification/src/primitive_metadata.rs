//! The closed set of scalar kinds and their wire discriminants.

use vstd::prelude::*;

verus! {

/// The metadata of a primitive value: one of sixteen fixed scalar kinds.
///
/// The declaration order is part of the wire contract: each kind's
/// discriminant is its position in this list, starting at 0.  Reordering
/// the list would silently corrupt stored data, so it must never change.
#[derive(Clone, Copy, Debug, PartialEq, Eq, Structural)]
pub enum XbfPrimitiveMetadata {
    Bool,
    U8,
    U16,
    U32,
    U64,
    U128,
    U256,
    I8,
    I16,
    I32,
    I64,
    I128,
    I256,
    F32,
    F64,
    String,
}

/// How many primitive kinds there are; the first discriminant after the
/// primitive space belongs to the vector family.
pub const PRIMITIVE_KIND_COUNT: u8 = 16;

impl XbfPrimitiveMetadata {
    /// The kind's wire discriminant: its 0-based position in the
    /// declaration order.
    pub open spec fn spec_discriminant(self) -> u8 {
        match self {
            XbfPrimitiveMetadata::Bool => 0u8,
            XbfPrimitiveMetadata::U8 => 1u8,
            XbfPrimitiveMetadata::U16 => 2u8,
            XbfPrimitiveMetadata::U32 => 3u8,
            XbfPrimitiveMetadata::U64 => 4u8,
            XbfPrimitiveMetadata::U128 => 5u8,
            XbfPrimitiveMetadata::U256 => 6u8,
            XbfPrimitiveMetadata::I8 => 7u8,
            XbfPrimitiveMetadata::I16 => 8u8,
            XbfPrimitiveMetadata::I32 => 9u8,
            XbfPrimitiveMetadata::I64 => 10u8,
            XbfPrimitiveMetadata::I128 => 11u8,
            XbfPrimitiveMetadata::I256 => 12u8,
            XbfPrimitiveMetadata::F32 => 13u8,
            XbfPrimitiveMetadata::F64 => 14u8,
            XbfPrimitiveMetadata::String => 15u8,
        }
    }

    /// The wire discriminant of this kind.
    pub fn discriminant(&self) -> (d: u8)
        ensures
            d == self.spec_discriminant(),
    {
        match self {
            XbfPrimitiveMetadata::Bool => 0u8,
            XbfPrimitiveMetadata::U8 => 1u8,
            XbfPrimitiveMetadata::U16 => 2u8,
            XbfPrimitiveMetadata::U32 => 3u8,
            XbfPrimitiveMetadata::U64 => 4u8,
            XbfPrimitiveMetadata::U128 => 5u8,
            XbfPrimitiveMetadata::U256 => 6u8,
            XbfPrimitiveMetadata::I8 => 7u8,
            XbfPrimitiveMetadata::I16 => 8u8,
            XbfPrimitiveMetadata::I32 => 9u8,
            XbfPrimitiveMetadata::I64 => 10u8,
            XbfPrimitiveMetadata::I128 => 11u8,
            XbfPrimitiveMetadata::I256 => 12u8,
            XbfPrimitiveMetadata::F32 => 13u8,
            XbfPrimitiveMetadata::F64 => 14u8,
            XbfPrimitiveMetadata::String => 15u8,
        }
    }

    /// The kind with the given wire discriminant, or `None` when the byte
    /// lies outside the primitive discriminant space.
    pub fn from_discriminant(d: u8) -> (r: Option<XbfPrimitiveMetadata>)
        ensures
            r matches Some(k) ==> k.spec_discriminant() == d,
            r is None <==> d >= PRIMITIVE_KIND_COUNT,
    {
        match d {
            0u8 => Some(XbfPrimitiveMetadata::Bool),
            1u8 => Some(XbfPrimitiveMetadata::U8),
            2u8 => Some(XbfPrimitiveMetadata::U16),
            3u8 => Some(XbfPrimitiveMetadata::U32),
            4u8 => Some(XbfPrimitiveMetadata::U64),
            5u8 => Some(XbfPrimitiveMetadata::U128),
            6u8 => Some(XbfPrimitiveMetadata::U256),
            7u8 => Some(XbfPrimitiveMetadata::I8),
            8u8 => Some(XbfPrimitiveMetadata::I16),
            9u8 => Some(XbfPrimitiveMetadata::I32),
            10u8 => Some(XbfPrimitiveMetadata::I64),
            11u8 => Some(XbfPrimitiveMetadata::I128),
            12u8 => Some(XbfPrimitiveMetadata::I256),
            13u8 => Some(XbfPrimitiveMetadata::F32),
            14u8 => Some(XbfPrimitiveMetadata::F64),
            15u8 => Some(XbfPrimitiveMetadata::String),
            _ => None,
        }
    }
}

impl XbfPrimitiveMetadata {
    /// Upcast into the unified metadata union, leaving this kind in
    /// place.
    pub fn to_base_metadata(&self) -> (m: crate::base_metadata::XbfMetadata)
        ensures
            m@ == crate::model::MetadataView::Primitive(*self),
    {
        crate::base_metadata::XbfMetadata::Primitive(*self)
    }

    /// Upcast into the unified metadata union.
    pub fn into_base_metadata(self) -> (m: crate::base_metadata::XbfMetadata)
        ensures
            m@ == crate::model::MetadataView::Primitive(self),
    {
        crate::base_metadata::XbfMetadata::Primitive(self)
    }
}

impl From<XbfPrimitiveMetadata> for crate::base_metadata::XbfMetadata {
    /// Upcast of a primitive kind into the unified metadata union.
    fn from(k: XbfPrimitiveMetadata) -> (m: crate::base_metadata::XbfMetadata) {
        crate::base_metadata::XbfMetadata::Primitive(k)
    }
}

impl vstd::std_specs::convert::FromSpecImpl<XbfPrimitiveMetadata> for crate::base_metadata::XbfMetadata {
    open spec fn obeys_from_spec() -> bool {
        true
    }

    open spec fn from_spec(k: XbfPrimitiveMetadata) -> crate::base_metadata::XbfMetadata {
        crate::base_metadata::XbfMetadata::Primitive(k)
    }
}

/// Discriminants are injective over the primitive kinds: no two kinds
/// share a tag byte.
pub proof fn lemma_primitive_discriminant_injective(a: XbfPrimitiveMetadata, b: XbfPrimitiveMetadata)
    requires
        a.spec_discriminant() == b.spec_discriminant(),
    ensures
        a == b,
{
}

} // verus!
