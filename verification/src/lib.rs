//! XBF: a self-describing binary encoding for structured data.
//!
//! Every value of the format can be paired with a compact metadata
//! descriptor that fully reconstructs the value's shape: a primitive
//! kind, a vector element type, or a named record ("struct") with typed
//! fields.  Metadata is self-delimiting on the wire and starts with one
//! discriminant byte drawn from a single collision-free tag space shared
//! by all three families; values carry no framing of their own and can
//! only be decoded with their metadata in hand.

pub mod base_metadata;
pub mod base_type;
pub mod model;
pub mod primitive;
pub mod primitive_metadata;
pub mod stream;
pub mod struct_metadata;
pub mod struct_type;
pub mod vec_metadata;
pub mod vec_type;

pub use base_metadata::XbfMetadata;
pub use base_type::XbfType;
pub use primitive::XbfPrimitive;
pub use primitive_metadata::XbfPrimitiveMetadata;
pub use stream::DecodeError;
pub use stream::Reader;
pub use struct_metadata::XbfStructMetadata;
pub use struct_type::StructFieldMismatchError;
pub use struct_type::XbfStruct;
pub use struct_metadata::STRUCT_METADATA_DISCRIMINANT;
pub use vec_metadata::XbfVecMetadata;
pub use vec_type::VecElementMismatchError;
pub use vec_type::XbfVec;
pub use vec_metadata::VEC_METADATA_DISCRIMINANT;
