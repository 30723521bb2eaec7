//! Primitive values: the sixteen scalar kinds and their byte encodings.

use vstd::bytes::{
    spec_u128_to_le_bytes, spec_u16_to_le_bytes, spec_u32_to_le_bytes, spec_u64_to_le_bytes,
    u128_to_le_bytes, u16_to_le_bytes, u32_to_le_bytes, u64_to_le_bytes,
};
use vstd::prelude::*;

use crate::model::{
    enc_prim, enc_text, prim_decode_ok, prim_kind_of, prim_wf, pview, text_decode_ok,
    PrimitiveView,
};
use crate::primitive_metadata::XbfPrimitiveMetadata;
use crate::stream::{lemma_consumed_chain, lemma_reader_skip, write_text, DecodeError, Reader};

verus! {

/// A primitive value: a scalar tagged with its kind.  The tag always
/// matches the kind used to decode it; there is no untagged variant.
///
/// Floating-point values are carried as their raw little-endian bit
/// patterns (`f32::to_bits` / `f64::to_bits`), which is exactly what the
/// wire holds; 256-bit integers as four 64-bit limbs in ascending
/// significance order.
#[derive(Debug, PartialEq)]
pub enum XbfPrimitive {
    Bool(bool),
    U8(u8),
    U16(u16),
    U32(u32),
    U64(u64),
    U128(u128),
    U256([u64; 4]),
    I8(i8),
    I16(i16),
    I32(i32),
    I64(i64),
    I128(i128),
    I256([u64; 4]),
    F32(u32),
    F64(u64),
    String(String),
}

impl View for XbfPrimitive {
    type V = PrimitiveView;

    open spec fn view(&self) -> PrimitiveView {
        pview(*self)
    }
}

impl Clone for XbfPrimitive {
    /// A copy equal to the original.
    fn clone(&self) -> (r: Self)
        ensures
            r == *self,
    {
        match self {
            XbfPrimitive::Bool(x) => XbfPrimitive::Bool(*x),
            XbfPrimitive::U8(x) => XbfPrimitive::U8(*x),
            XbfPrimitive::U16(x) => XbfPrimitive::U16(*x),
            XbfPrimitive::U32(x) => XbfPrimitive::U32(*x),
            XbfPrimitive::U64(x) => XbfPrimitive::U64(*x),
            XbfPrimitive::U128(x) => XbfPrimitive::U128(*x),
            XbfPrimitive::U256(x) => XbfPrimitive::U256(*x),
            XbfPrimitive::I8(x) => XbfPrimitive::I8(*x),
            XbfPrimitive::I16(x) => XbfPrimitive::I16(*x),
            XbfPrimitive::I32(x) => XbfPrimitive::I32(*x),
            XbfPrimitive::I64(x) => XbfPrimitive::I64(*x),
            XbfPrimitive::I128(x) => XbfPrimitive::I128(*x),
            XbfPrimitive::I256(x) => XbfPrimitive::I256(*x),
            XbfPrimitive::F32(x) => XbfPrimitive::F32(*x),
            XbfPrimitive::F64(x) => XbfPrimitive::F64(*x),
            XbfPrimitive::String(x) => XbfPrimitive::String(x.clone()),
        }
    }
}

impl From<&XbfPrimitive> for XbfPrimitiveMetadata {
    /// The kind of a primitive value: a total projection.
    fn from(p: &XbfPrimitive) -> (k: XbfPrimitiveMetadata) {
        match p {
            XbfPrimitive::Bool(_) => XbfPrimitiveMetadata::Bool,
            XbfPrimitive::U8(_) => XbfPrimitiveMetadata::U8,
            XbfPrimitive::U16(_) => XbfPrimitiveMetadata::U16,
            XbfPrimitive::U32(_) => XbfPrimitiveMetadata::U32,
            XbfPrimitive::U64(_) => XbfPrimitiveMetadata::U64,
            XbfPrimitive::U128(_) => XbfPrimitiveMetadata::U128,
            XbfPrimitive::U256(_) => XbfPrimitiveMetadata::U256,
            XbfPrimitive::I8(_) => XbfPrimitiveMetadata::I8,
            XbfPrimitive::I16(_) => XbfPrimitiveMetadata::I16,
            XbfPrimitive::I32(_) => XbfPrimitiveMetadata::I32,
            XbfPrimitive::I64(_) => XbfPrimitiveMetadata::I64,
            XbfPrimitive::I128(_) => XbfPrimitiveMetadata::I128,
            XbfPrimitive::I256(_) => XbfPrimitiveMetadata::I256,
            XbfPrimitive::F32(_) => XbfPrimitiveMetadata::F32,
            XbfPrimitive::F64(_) => XbfPrimitiveMetadata::F64,
            XbfPrimitive::String(_) => XbfPrimitiveMetadata::String,
        }
    }
}

impl vstd::std_specs::convert::FromSpecImpl<&XbfPrimitive> for XbfPrimitiveMetadata {
    open spec fn obeys_from_spec() -> bool {
        true
    }

    open spec fn from_spec(p: &XbfPrimitive) -> XbfPrimitiveMetadata {
        prim_kind_of(pview(*p))
    }
}

/// Truncating to the unsigned type of the same width and back returns
/// the original signed value, and the other way around.
proof fn lemma_i8_cast(x: i8, u: u8)
    ensures
        (x as u8) as i8 == x,
        (u as i8) as u8 == u,
{
    assert((x as u8) as i8 == x && (u as i8) as u8 == u) by (bit_vector);
}

/// As [`lemma_i8_cast`], at 16 bits.
proof fn lemma_i16_cast(x: i16, u: u16)
    ensures
        (x as u16) as i16 == x,
        (u as i16) as u16 == u,
{
    assert((x as u16) as i16 == x && (u as i16) as u16 == u) by (bit_vector);
}

/// As [`lemma_i8_cast`], at 32 bits.
proof fn lemma_i32_cast(x: i32, u: u32)
    ensures
        (x as u32) as i32 == x,
        (u as i32) as u32 == u,
{
    assert((x as u32) as i32 == x && (u as i32) as u32 == u) by (bit_vector);
}

/// As [`lemma_i8_cast`], at 64 bits.
proof fn lemma_i64_cast(x: i64, u: u64)
    ensures
        (x as u64) as i64 == x,
        (u as i64) as u64 == u,
{
    assert((x as u64) as i64 == x && (u as i64) as u64 == u) by (bit_vector);
}

/// As [`lemma_i8_cast`], at 128 bits.
proof fn lemma_i128_cast(x: i128, u: u128)
    ensures
        (x as u128) as i128 == x,
        (u as i128) as u128 == u,
{
    assert((x as u128) as i128 == x && (u as i128) as u128 == u) by (bit_vector);
}

impl XbfPrimitive {
    /// Serialize a primitive value as defined by the XBF specification:
    /// the scalar's raw little-endian representation at the kind's fixed
    /// width; `Bool` as one byte; text as a 16-bit byte count followed
    /// by the raw UTF-8 bytes.  No tag byte is written.
    pub fn serialize_primitive_type(&self, out: &mut Vec<u8>)
        requires
            prim_wf(self@),
        ensures
            final (out)@ == old(out)@ + enc_prim(self@),
    {
        match self {
            XbfPrimitive::Bool(x) => {
                out.push(
                    if *x {
                        1u8
                    } else {
                        0u8
                    },
                );
                proof {
                    assert(out@ =~= old(out)@ + enc_prim(self@));
                }
            },
            XbfPrimitive::U8(x) => {
                out.push(*x);
                proof {
                    assert(out@ =~= old(out)@ + enc_prim(self@));
                }
            },
            XbfPrimitive::U16(x) => {
                let mut b = u16_to_le_bytes(*x);
                out.append(&mut b);
                proof {
                    assert(out@ =~= old(out)@ + enc_prim(self@));
                }
            },
            XbfPrimitive::U32(x) => {
                let mut b = u32_to_le_bytes(*x);
                out.append(&mut b);
                proof {
                    assert(out@ =~= old(out)@ + enc_prim(self@));
                }
            },
            XbfPrimitive::U64(x) => {
                let mut b = u64_to_le_bytes(*x);
                out.append(&mut b);
                proof {
                    assert(out@ =~= old(out)@ + enc_prim(self@));
                }
            },
            XbfPrimitive::U128(x) => {
                let mut b = u128_to_le_bytes(*x);
                out.append(&mut b);
                proof {
                    assert(out@ =~= old(out)@ + enc_prim(self@));
                }
            },
            XbfPrimitive::U256(l) => {
                write_limbs(out, l);
                proof {
                    assert(out@ =~= old(out)@ + enc_prim(self@));
                }
            },
            XbfPrimitive::I8(x) => {
                out.push(#[verifier::truncate] (*x as u8));
                proof {
                    assert(out@ =~= old(out)@ + enc_prim(self@));
                }
            },
            XbfPrimitive::I16(x) => {
                let mut b = u16_to_le_bytes(#[verifier::truncate] (*x as u16));
                out.append(&mut b);
                proof {
                    assert(out@ =~= old(out)@ + enc_prim(self@));
                }
            },
            XbfPrimitive::I32(x) => {
                let mut b = u32_to_le_bytes(#[verifier::truncate] (*x as u32));
                out.append(&mut b);
                proof {
                    assert(out@ =~= old(out)@ + enc_prim(self@));
                }
            },
            XbfPrimitive::I64(x) => {
                let mut b = u64_to_le_bytes(#[verifier::truncate] (*x as u64));
                out.append(&mut b);
                proof {
                    assert(out@ =~= old(out)@ + enc_prim(self@));
                }
            },
            XbfPrimitive::I128(x) => {
                let mut b = u128_to_le_bytes(#[verifier::truncate] (*x as u128));
                out.append(&mut b);
                proof {
                    assert(out@ =~= old(out)@ + enc_prim(self@));
                }
            },
            XbfPrimitive::I256(l) => {
                write_limbs(out, l);
                proof {
                    assert(out@ =~= old(out)@ + enc_prim(self@));
                }
            },
            XbfPrimitive::F32(x) => {
                let mut b = u32_to_le_bytes(*x);
                out.append(&mut b);
                proof {
                    assert(out@ =~= old(out)@ + enc_prim(self@));
                }
            },
            XbfPrimitive::F64(x) => {
                let mut b = u64_to_le_bytes(*x);
                out.append(&mut b);
                proof {
                    assert(out@ =~= old(out)@ + enc_prim(self@));
                }
            },
            XbfPrimitive::String(x) => {
                write_text(out, x.as_str());
                proof {
                    assert(out@ =~= old(out)@ + enc_prim(self@));
                }
            },
        }
    }

    /// Upcast into the unified value union, leaving this value in
    /// place.
    pub fn to_base_type(&self) -> (t: crate::base_type::XbfType)
        ensures
            t@ == crate::model::ValueView::Primitive(self@),
    {
        crate::base_type::XbfType::Primitive(self.clone())
    }

    /// Upcast into the unified value union.
    pub fn into_base_type(self) -> (t: crate::base_type::XbfType)
        ensures
            t@ == crate::model::ValueView::Primitive(self@),
    {
        crate::base_type::XbfType::Primitive(self)
    }

    /// Whether this value can be serialized: text must fit the 16-bit
    /// length prefix; every other kind always can.
    pub fn is_serializable(&self) -> (b: bool)
        ensures
            b == prim_wf(self@),
    {
        match self {
            XbfPrimitive::String(x) => x.as_str().as_bytes().len() <= 0xffff,
            _ => true,
        }
    }

    /// Deserialize a primitive value as defined by the XBF
    /// specification: consume exactly the bytes `serialize` would have
    /// produced for the given kind.
    ///
    /// Reading fails only when the source is exhausted early — every
    /// bit pattern is a valid value of its kind — except for text,
    /// whose bytes must be valid UTF-8.  For `Bool`, any non-zero byte
    /// reads as `true`.
    pub fn deserialize_primitive_type<'a>(
        primitive_metadata: &XbfPrimitiveMetadata,
        r: &mut Reader<'a>,
    ) -> (res: Result<XbfPrimitive, DecodeError>)
        requires
            old(r).wf(),
        ensures
            res is Ok <==> prim_decode_ok(*primitive_metadata, old(r).remaining()),
            final (r).wf(),
            final (r).bytes() == old(r).bytes(),
            final (r).position() >= old(r).position(),
            res matches Ok(p) ==> {
                &&& prim_wf(p@)
                &&& prim_kind_of(p@) == *primitive_metadata
                &&& final (r).position() == old(r).position() + enc_prim(p@).len()
                &&& (*primitive_metadata != XbfPrimitiveMetadata::Bool ==> old(
                    r,
                ).remaining().take(enc_prim(p@).len() as int) == enc_prim(p@))
                &&& (*primitive_metadata == XbfPrimitiveMetadata::Bool ==> p@
                    == PrimitiveView::Bool(old(r).remaining()[0] != 0))
            },
            forall|pv: PrimitiveView, rest: Seq<u8>|
                prim_wf(pv) && prim_kind_of(pv) == *primitive_metadata && old(r).remaining()
                    == #[trigger] (enc_prim(pv) + rest) ==> (res matches Ok(p) && p@ == pv
                    && final (r).position() == old(r).position() + enc_prim(pv).len()),
            res matches Err(e) ==> e == DecodeError::UnexpectedEnd || e
                == DecodeError::InvalidText,
    {
        match primitive_metadata {
            XbfPrimitiveMetadata::Bool => decode_bool(r),
            XbfPrimitiveMetadata::U8 => decode_u8(r),
            XbfPrimitiveMetadata::U16 => decode_u16(r),
            XbfPrimitiveMetadata::U32 => decode_u32(r),
            XbfPrimitiveMetadata::U64 => decode_u64(r),
            XbfPrimitiveMetadata::U128 => decode_u128(r),
            XbfPrimitiveMetadata::U256 => decode_u256(r),
            XbfPrimitiveMetadata::I8 => decode_i8(r),
            XbfPrimitiveMetadata::I16 => decode_i16(r),
            XbfPrimitiveMetadata::I32 => decode_i32(r),
            XbfPrimitiveMetadata::I64 => decode_i64(r),
            XbfPrimitiveMetadata::I128 => decode_i128(r),
            XbfPrimitiveMetadata::I256 => decode_i256(r),
            XbfPrimitiveMetadata::F32 => decode_f32(r),
            XbfPrimitiveMetadata::F64 => decode_f64(r),
            XbfPrimitiveMetadata::String => decode_string(r),
        }
    }
}

/// Decode one value of the `Bool` kind.
fn decode_bool<'a>(r: &mut Reader<'a>) -> (res: Result<XbfPrimitive, DecodeError>)
    requires
        old(r).wf(),
    ensures
        res is Ok <==> old(r).remaining().len() >= 1,
        final (r).wf(),
        final (r).bytes() == old(r).bytes(),
        final (r).position() >= old(r).position(),
        res matches Ok(p) ==> {
            &&& prim_wf(p@)
            &&& prim_kind_of(p@) == XbfPrimitiveMetadata::Bool
            &&& final (r).position() == old(r).position() + enc_prim(p@).len()
        },
        res matches Ok(p) ==> (old(r).remaining().len() >= 1 && p@ == PrimitiveView::Bool(
            old(r).remaining()[0] != 0,
        )),
        forall|pv: PrimitiveView, rest: Seq<u8>|
            prim_wf(pv) && prim_kind_of(pv) == XbfPrimitiveMetadata::Bool && old(r).remaining()
                == #[trigger] (enc_prim(pv) + rest) ==> (res matches Ok(p) && p@ == pv
                && final (r).position() == old(r).position() + enc_prim(pv).len()),
        res matches Err(e) ==> e == DecodeError::UnexpectedEnd || e == DecodeError::InvalidText,
{
            let b = match r.read_u8() {
                Ok(b) => b,
                Err(e) => {
                    return Err(e);
                },
            };
            let p = XbfPrimitive::Bool(b != 0);
            proof {
                assert(enc_prim(p@).len() == 1);
                assert forall|pv: PrimitiveView, rest: Seq<u8>|
                    prim_wf(pv) && prim_kind_of(pv) == XbfPrimitiveMetadata::Bool && old(
                        r,
                    ).remaining() == #[trigger] (enc_prim(pv) + rest) implies p@ == pv by {
                    assert((enc_prim(pv) + rest)[0] == enc_prim(pv)[0]);
                }
            }
            Ok(p)
        
}

/// Decode one value of the `U8` kind.
fn decode_u8<'a>(r: &mut Reader<'a>) -> (res: Result<XbfPrimitive, DecodeError>)
    requires
        old(r).wf(),
    ensures
        res is Ok <==> old(r).remaining().len() >= 1,
        final (r).wf(),
        final (r).bytes() == old(r).bytes(),
        final (r).position() >= old(r).position(),
        res matches Ok(p) ==> {
            &&& prim_wf(p@)
            &&& prim_kind_of(p@) == XbfPrimitiveMetadata::U8
            &&& final (r).position() == old(r).position() + enc_prim(p@).len()
        },
        res matches Ok(p) ==> old(r).remaining().take(enc_prim(p@).len() as int) == enc_prim(
            p@,
        ),
        forall|pv: PrimitiveView, rest: Seq<u8>|
            prim_wf(pv) && prim_kind_of(pv) == XbfPrimitiveMetadata::U8 && old(r).remaining()
                == #[trigger] (enc_prim(pv) + rest) ==> (res matches Ok(p) && p@ == pv
                && final (r).position() == old(r).position() + enc_prim(pv).len()),
        res matches Err(e) ==> e == DecodeError::UnexpectedEnd || e == DecodeError::InvalidText,
{
            let x = match r.read_u8() {
                Ok(b) => b,
                Err(e) => {
                    return Err(e);
                },
            };
            let p = XbfPrimitive::U8(x);
            proof {
                assert(old(r).remaining().take(1) =~= enc_prim(p@));
                assert forall|pv: PrimitiveView, rest: Seq<u8>|
                    prim_wf(pv) && prim_kind_of(pv) == XbfPrimitiveMetadata::U8 && old(
                        r,
                    ).remaining() == #[trigger] (enc_prim(pv) + rest) implies p@ == pv by {
                    assert((enc_prim(pv) + rest)[0] == enc_prim(pv)[0]);
                }
            }
            Ok(p)
        
}

/// Decode one value of the `U16` kind.
fn decode_u16<'a>(r: &mut Reader<'a>) -> (res: Result<XbfPrimitive, DecodeError>)
    requires
        old(r).wf(),
    ensures
        res is Ok <==> old(r).remaining().len() >= 2,
        final (r).wf(),
        final (r).bytes() == old(r).bytes(),
        final (r).position() >= old(r).position(),
        res matches Ok(p) ==> {
            &&& prim_wf(p@)
            &&& prim_kind_of(p@) == XbfPrimitiveMetadata::U16
            &&& final (r).position() == old(r).position() + enc_prim(p@).len()
        },
        res matches Ok(p) ==> old(r).remaining().take(enc_prim(p@).len() as int) == enc_prim(
            p@,
        ),
        forall|pv: PrimitiveView, rest: Seq<u8>|
            prim_wf(pv) && prim_kind_of(pv) == XbfPrimitiveMetadata::U16 && old(r).remaining()
                == #[trigger] (enc_prim(pv) + rest) ==> (res matches Ok(p) && p@ == pv
                && final (r).position() == old(r).position() + enc_prim(pv).len()),
        res matches Err(e) ==> e == DecodeError::UnexpectedEnd || e == DecodeError::InvalidText,
{
            proof {
                vstd::bytes::lemma_auto_spec_u16_to_from_le_bytes();
            }
            let u = match r.read_u16() {
                Ok(b) => b,
                Err(e) => {
                    proof {
                        assert forall|pv: PrimitiveView, rest: Seq<u8>|
                            prim_wf(pv) && prim_kind_of(pv) == XbfPrimitiveMetadata::U16 && old(
                                r,
                            ).remaining() == #[trigger] (enc_prim(pv) + rest) implies false by {
                            assert(enc_prim(pv).len() == 2);
                        }
                    }
                    return Err(e);
                },
            };
            let p = XbfPrimitive::U16(u);
            proof {
                assert forall|pv: PrimitiveView, rest: Seq<u8>|
                    prim_wf(pv) && prim_kind_of(pv) == XbfPrimitiveMetadata::U16 && old(
                        r,
                    ).remaining() == #[trigger] (enc_prim(pv) + rest) implies p@ == pv by {
                    match pv {
                        PrimitiveView::U16(y) => {
                            lemma_le_concat_take(enc_prim(pv), rest, old(r).remaining(), 2);
                            lemma_u16_le_injective(u, y);
                        },
                        _ => {},
                    }
                }
            }
            Ok(p)
        
}

/// Decode one value of the `U32` kind.
fn decode_u32<'a>(r: &mut Reader<'a>) -> (res: Result<XbfPrimitive, DecodeError>)
    requires
        old(r).wf(),
    ensures
        res is Ok <==> old(r).remaining().len() >= 4,
        final (r).wf(),
        final (r).bytes() == old(r).bytes(),
        final (r).position() >= old(r).position(),
        res matches Ok(p) ==> {
            &&& prim_wf(p@)
            &&& prim_kind_of(p@) == XbfPrimitiveMetadata::U32
            &&& final (r).position() == old(r).position() + enc_prim(p@).len()
        },
        res matches Ok(p) ==> old(r).remaining().take(enc_prim(p@).len() as int) == enc_prim(
            p@,
        ),
        forall|pv: PrimitiveView, rest: Seq<u8>|
            prim_wf(pv) && prim_kind_of(pv) == XbfPrimitiveMetadata::U32 && old(r).remaining()
                == #[trigger] (enc_prim(pv) + rest) ==> (res matches Ok(p) && p@ == pv
                && final (r).position() == old(r).position() + enc_prim(pv).len()),
        res matches Err(e) ==> e == DecodeError::UnexpectedEnd || e == DecodeError::InvalidText,
{
            proof {
                vstd::bytes::lemma_auto_spec_u32_to_from_le_bytes();
            }
            let u = match r.read_u32() {
                Ok(b) => b,
                Err(e) => {
                    proof {
                        assert forall|pv: PrimitiveView, rest: Seq<u8>|
                            prim_wf(pv) && prim_kind_of(pv) == XbfPrimitiveMetadata::U32 && old(
                                r,
                            ).remaining() == #[trigger] (enc_prim(pv) + rest) implies false by {
                            assert(enc_prim(pv).len() == 4);
                        }
                    }
                    return Err(e);
                },
            };
            let p = XbfPrimitive::U32(u);
            proof {
                assert forall|pv: PrimitiveView, rest: Seq<u8>|
                    prim_wf(pv) && prim_kind_of(pv) == XbfPrimitiveMetadata::U32 && old(
                        r,
                    ).remaining() == #[trigger] (enc_prim(pv) + rest) implies p@ == pv by {
                    match pv {
                        PrimitiveView::U32(y) => {
                            lemma_le_concat_take(enc_prim(pv), rest, old(r).remaining(), 4);
                            lemma_u32_le_injective(u, y);
                        },
                        _ => {},
                    }
                }
            }
            Ok(p)
        
}

/// Decode one value of the `U64` kind.
fn decode_u64<'a>(r: &mut Reader<'a>) -> (res: Result<XbfPrimitive, DecodeError>)
    requires
        old(r).wf(),
    ensures
        res is Ok <==> old(r).remaining().len() >= 8,
        final (r).wf(),
        final (r).bytes() == old(r).bytes(),
        final (r).position() >= old(r).position(),
        res matches Ok(p) ==> {
            &&& prim_wf(p@)
            &&& prim_kind_of(p@) == XbfPrimitiveMetadata::U64
            &&& final (r).position() == old(r).position() + enc_prim(p@).len()
        },
        res matches Ok(p) ==> old(r).remaining().take(enc_prim(p@).len() as int) == enc_prim(
            p@,
        ),
        forall|pv: PrimitiveView, rest: Seq<u8>|
            prim_wf(pv) && prim_kind_of(pv) == XbfPrimitiveMetadata::U64 && old(r).remaining()
                == #[trigger] (enc_prim(pv) + rest) ==> (res matches Ok(p) && p@ == pv
                && final (r).position() == old(r).position() + enc_prim(pv).len()),
        res matches Err(e) ==> e == DecodeError::UnexpectedEnd || e == DecodeError::InvalidText,
{
            proof {
                vstd::bytes::lemma_auto_spec_u64_to_from_le_bytes();
            }
            let u = match r.read_u64() {
                Ok(b) => b,
                Err(e) => {
                    proof {
                        assert forall|pv: PrimitiveView, rest: Seq<u8>|
                            prim_wf(pv) && prim_kind_of(pv) == XbfPrimitiveMetadata::U64 && old(
                                r,
                            ).remaining() == #[trigger] (enc_prim(pv) + rest) implies false by {
                            assert(enc_prim(pv).len() == 8);
                        }
                    }
                    return Err(e);
                },
            };
            let p = XbfPrimitive::U64(u);
            proof {
                assert forall|pv: PrimitiveView, rest: Seq<u8>|
                    prim_wf(pv) && prim_kind_of(pv) == XbfPrimitiveMetadata::U64 && old(
                        r,
                    ).remaining() == #[trigger] (enc_prim(pv) + rest) implies p@ == pv by {
                    match pv {
                        PrimitiveView::U64(y) => {
                            lemma_le_concat_take(enc_prim(pv), rest, old(r).remaining(), 8);
                            lemma_u64_le_injective(u, y);
                        },
                        _ => {},
                    }
                }
            }
            Ok(p)
        
}

/// Decode one value of the `U128` kind.
fn decode_u128<'a>(r: &mut Reader<'a>) -> (res: Result<XbfPrimitive, DecodeError>)
    requires
        old(r).wf(),
    ensures
        res is Ok <==> old(r).remaining().len() >= 16,
        final (r).wf(),
        final (r).bytes() == old(r).bytes(),
        final (r).position() >= old(r).position(),
        res matches Ok(p) ==> {
            &&& prim_wf(p@)
            &&& prim_kind_of(p@) == XbfPrimitiveMetadata::U128
            &&& final (r).position() == old(r).position() + enc_prim(p@).len()
        },
        res matches Ok(p) ==> old(r).remaining().take(enc_prim(p@).len() as int) == enc_prim(
            p@,
        ),
        forall|pv: PrimitiveView, rest: Seq<u8>|
            prim_wf(pv) && prim_kind_of(pv) == XbfPrimitiveMetadata::U128 && old(r).remaining()
                == #[trigger] (enc_prim(pv) + rest) ==> (res matches Ok(p) && p@ == pv
                && final (r).position() == old(r).position() + enc_prim(pv).len()),
        res matches Err(e) ==> e == DecodeError::UnexpectedEnd || e == DecodeError::InvalidText,
{
            proof {
                vstd::bytes::lemma_auto_spec_u128_to_from_le_bytes();
            }
            let u = match r.read_u128() {
                Ok(b) => b,
                Err(e) => {
                    proof {
                        assert forall|pv: PrimitiveView, rest: Seq<u8>|
                            prim_wf(pv) && prim_kind_of(pv) == XbfPrimitiveMetadata::U128 && old(
                                r,
                            ).remaining() == #[trigger] (enc_prim(pv) + rest) implies false by {
                            assert(enc_prim(pv).len() == 16);
                        }
                    }
                    return Err(e);
                },
            };
            let p = XbfPrimitive::U128(u);
            proof {
                assert forall|pv: PrimitiveView, rest: Seq<u8>|
                    prim_wf(pv) && prim_kind_of(pv) == XbfPrimitiveMetadata::U128 && old(
                        r,
                    ).remaining() == #[trigger] (enc_prim(pv) + rest) implies p@ == pv by {
                    match pv {
                        PrimitiveView::U128(y) => {
                            lemma_le_concat_take(enc_prim(pv), rest, old(r).remaining(), 16);
                            lemma_u128_le_injective(u, y);
                        },
                        _ => {},
                    }
                }
            }
            Ok(p)
        
}

/// Decode one value of the `U256` kind.
fn decode_u256<'a>(r: &mut Reader<'a>) -> (res: Result<XbfPrimitive, DecodeError>)
    requires
        old(r).wf(),
    ensures
        res is Ok <==> old(r).remaining().len() >= 32,
        final (r).wf(),
        final (r).bytes() == old(r).bytes(),
        final (r).position() >= old(r).position(),
        res matches Ok(p) ==> {
            &&& prim_wf(p@)
            &&& prim_kind_of(p@) == XbfPrimitiveMetadata::U256
            &&& final (r).position() == old(r).position() + enc_prim(p@).len()
        },
        res matches Ok(p) ==> old(r).remaining().take(enc_prim(p@).len() as int) == enc_prim(
            p@,
        ),
        forall|pv: PrimitiveView, rest: Seq<u8>|
            prim_wf(pv) && prim_kind_of(pv) == XbfPrimitiveMetadata::U256 && old(r).remaining()
                == #[trigger] (enc_prim(pv) + rest) ==> (res matches Ok(p) && p@ == pv
                && final (r).position() == old(r).position() + enc_prim(pv).len()),
        res matches Err(e) ==> e == DecodeError::UnexpectedEnd || e == DecodeError::InvalidText,
{
            proof {
                vstd::bytes::lemma_auto_spec_u64_to_from_le_bytes();
            }
            match read_limbs(r) {
                Ok(l) => {
                    let p = XbfPrimitive::U256(l);
                    proof {
                        assert forall|pv: PrimitiveView, rest: Seq<u8>|
                            prim_wf(pv) && prim_kind_of(pv) == XbfPrimitiveMetadata::U256 && old(
                                r,
                            ).remaining() == #[trigger] (enc_prim(pv) + rest) implies p@
                            == pv by {
                            match pv {
                                PrimitiveView::U256(ms) => {
                                    assert(l@ == ms);
                                    assert(p@ =~= pv);
                                },
                                _ => {},
                            }
                        }
                    }
                    Ok(p)
                },
                Err(e) => {
                    proof {
                        assert forall|pv: PrimitiveView, rest: Seq<u8>|
                            prim_wf(pv) && prim_kind_of(pv) == XbfPrimitiveMetadata::U256 && old(
                                r,
                            ).remaining() == #[trigger] (enc_prim(pv) + rest) implies false by {
                            match pv {
                                PrimitiveView::U256(ms) => {
                                    assert(spec_u64_to_le_bytes(ms[0]).len() == 8);
                                    assert(spec_u64_to_le_bytes(ms[1]).len() == 8);
                                    assert(spec_u64_to_le_bytes(ms[2]).len() == 8);
                                    assert(spec_u64_to_le_bytes(ms[3]).len() == 8);
                                    assert(old(r).remaining().len() >= 32);
                                },
                                _ => {},
                            }
                        }
                    }
                    Err(e)
                },
            }
        
}

/// Decode one value of the `I8` kind.
fn decode_i8<'a>(r: &mut Reader<'a>) -> (res: Result<XbfPrimitive, DecodeError>)
    requires
        old(r).wf(),
    ensures
        res is Ok <==> old(r).remaining().len() >= 1,
        final (r).wf(),
        final (r).bytes() == old(r).bytes(),
        final (r).position() >= old(r).position(),
        res matches Ok(p) ==> {
            &&& prim_wf(p@)
            &&& prim_kind_of(p@) == XbfPrimitiveMetadata::I8
            &&& final (r).position() == old(r).position() + enc_prim(p@).len()
        },
        res matches Ok(p) ==> old(r).remaining().take(enc_prim(p@).len() as int) == enc_prim(
            p@,
        ),
        forall|pv: PrimitiveView, rest: Seq<u8>|
            prim_wf(pv) && prim_kind_of(pv) == XbfPrimitiveMetadata::I8 && old(r).remaining()
                == #[trigger] (enc_prim(pv) + rest) ==> (res matches Ok(p) && p@ == pv
                && final (r).position() == old(r).position() + enc_prim(pv).len()),
        res matches Err(e) ==> e == DecodeError::UnexpectedEnd || e == DecodeError::InvalidText,
{
            let u = match r.read_u8() {
                Ok(b) => b,
                Err(e) => {
                    return Err(e);
                },
            };
            let x = #[verifier::truncate] (u as i8);
            let p = XbfPrimitive::I8(x);
            proof {
                lemma_i8_cast(x, u);
                assert(old(r).remaining().take(1) =~= enc_prim(p@));
                assert forall|pv: PrimitiveView, rest: Seq<u8>|
                    prim_wf(pv) && prim_kind_of(pv) == XbfPrimitiveMetadata::I8 && old(
                        r,
                    ).remaining() == #[trigger] (enc_prim(pv) + rest) implies p@ == pv by {
                    assert((enc_prim(pv) + rest)[0] == enc_prim(pv)[0]);
                    match pv {
                        PrimitiveView::I8(y) => {
                            lemma_i8_cast(y, u);
                        },
                        _ => {},
                    }
                }
            }
            Ok(p)
        
}

/// Decode one value of the `I16` kind.
fn decode_i16<'a>(r: &mut Reader<'a>) -> (res: Result<XbfPrimitive, DecodeError>)
    requires
        old(r).wf(),
    ensures
        res is Ok <==> old(r).remaining().len() >= 2,
        final (r).wf(),
        final (r).bytes() == old(r).bytes(),
        final (r).position() >= old(r).position(),
        res matches Ok(p) ==> {
            &&& prim_wf(p@)
            &&& prim_kind_of(p@) == XbfPrimitiveMetadata::I16
            &&& final (r).position() == old(r).position() + enc_prim(p@).len()
        },
        res matches Ok(p) ==> old(r).remaining().take(enc_prim(p@).len() as int) == enc_prim(
            p@,
        ),
        forall|pv: PrimitiveView, rest: Seq<u8>|
            prim_wf(pv) && prim_kind_of(pv) == XbfPrimitiveMetadata::I16 && old(r).remaining()
                == #[trigger] (enc_prim(pv) + rest) ==> (res matches Ok(p) && p@ == pv
                && final (r).position() == old(r).position() + enc_prim(pv).len()),
        res matches Err(e) ==> e == DecodeError::UnexpectedEnd || e == DecodeError::InvalidText,
{
            proof {
                vstd::bytes::lemma_auto_spec_u16_to_from_le_bytes();
            }
            let u = match r.read_u16() {
                Ok(b) => b,
                Err(e) => {
                    proof {
                        assert forall|pv: PrimitiveView, rest: Seq<u8>|
                            prim_wf(pv) && prim_kind_of(pv) == XbfPrimitiveMetadata::I16 && old(
                                r,
                            ).remaining() == #[trigger] (enc_prim(pv) + rest) implies false by {
                            match pv {
                                PrimitiveView::I16(y) => {
                                    assert(spec_u16_to_le_bytes(#[verifier::truncate] (y as u16)).len() == 2);
                                },
                                _ => {},
                            }
                        }
                    }
                    return Err(e);
                },
            };
            let x = #[verifier::truncate] (u as i16);
            let p = XbfPrimitive::I16(x);
            proof {
                vstd::bytes::lemma_auto_spec_u16_to_from_le_bytes();
                assert(spec_u16_to_le_bytes(u).len() == 2);
                lemma_i16_cast(x, u);
                assert forall|pv: PrimitiveView, rest: Seq<u8>|
                    prim_wf(pv) && prim_kind_of(pv) == XbfPrimitiveMetadata::I16 && old(
                        r,
                    ).remaining() == #[trigger] (enc_prim(pv) + rest) implies p@ == pv by {
                    match pv {
                        PrimitiveView::I16(y) => {
                            assert(spec_u16_to_le_bytes(#[verifier::truncate] (y as u16)).len() == 2);
                            lemma_le_concat_take(enc_prim(pv), rest, old(r).remaining(), 2);
                            lemma_u16_le_injective(u, y as u16);
                            lemma_i16_cast(y, u);
                        },
                        _ => {},
                    }
                }
            }
            Ok(p)
        
}

/// Decode one value of the `I32` kind.
fn decode_i32<'a>(r: &mut Reader<'a>) -> (res: Result<XbfPrimitive, DecodeError>)
    requires
        old(r).wf(),
    ensures
        res is Ok <==> old(r).remaining().len() >= 4,
        final (r).wf(),
        final (r).bytes() == old(r).bytes(),
        final (r).position() >= old(r).position(),
        res matches Ok(p) ==> {
            &&& prim_wf(p@)
            &&& prim_kind_of(p@) == XbfPrimitiveMetadata::I32
            &&& final (r).position() == old(r).position() + enc_prim(p@).len()
        },
        res matches Ok(p) ==> old(r).remaining().take(enc_prim(p@).len() as int) == enc_prim(
            p@,
        ),
        forall|pv: PrimitiveView, rest: Seq<u8>|
            prim_wf(pv) && prim_kind_of(pv) == XbfPrimitiveMetadata::I32 && old(r).remaining()
                == #[trigger] (enc_prim(pv) + rest) ==> (res matches Ok(p) && p@ == pv
                && final (r).position() == old(r).position() + enc_prim(pv).len()),
        res matches Err(e) ==> e == DecodeError::UnexpectedEnd || e == DecodeError::InvalidText,
{
            proof {
                vstd::bytes::lemma_auto_spec_u32_to_from_le_bytes();
            }
            let u = match r.read_u32() {
                Ok(b) => b,
                Err(e) => {
                    proof {
                        assert forall|pv: PrimitiveView, rest: Seq<u8>|
                            prim_wf(pv) && prim_kind_of(pv) == XbfPrimitiveMetadata::I32 && old(
                                r,
                            ).remaining() == #[trigger] (enc_prim(pv) + rest) implies false by {
                            match pv {
                                PrimitiveView::I32(y) => {
                                    assert(spec_u32_to_le_bytes(#[verifier::truncate] (y as u32)).len() == 4);
                                },
                                _ => {},
                            }
                        }
                    }
                    return Err(e);
                },
            };
            let x = #[verifier::truncate] (u as i32);
            let p = XbfPrimitive::I32(x);
            proof {
                vstd::bytes::lemma_auto_spec_u32_to_from_le_bytes();
                assert(spec_u32_to_le_bytes(u).len() == 4);
                lemma_i32_cast(x, u);
                assert forall|pv: PrimitiveView, rest: Seq<u8>|
                    prim_wf(pv) && prim_kind_of(pv) == XbfPrimitiveMetadata::I32 && old(
                        r,
                    ).remaining() == #[trigger] (enc_prim(pv) + rest) implies p@ == pv by {
                    match pv {
                        PrimitiveView::I32(y) => {
                            assert(spec_u32_to_le_bytes(#[verifier::truncate] (y as u32)).len() == 4);
                            lemma_le_concat_take(enc_prim(pv), rest, old(r).remaining(), 4);
                            lemma_u32_le_injective(u, y as u32);
                            lemma_i32_cast(y, u);
                        },
                        _ => {},
                    }
                }
            }
            Ok(p)
        
}

/// Decode one value of the `I64` kind.
fn decode_i64<'a>(r: &mut Reader<'a>) -> (res: Result<XbfPrimitive, DecodeError>)
    requires
        old(r).wf(),
    ensures
        res is Ok <==> old(r).remaining().len() >= 8,
        final (r).wf(),
        final (r).bytes() == old(r).bytes(),
        final (r).position() >= old(r).position(),
        res matches Ok(p) ==> {
            &&& prim_wf(p@)
            &&& prim_kind_of(p@) == XbfPrimitiveMetadata::I64
            &&& final (r).position() == old(r).position() + enc_prim(p@).len()
        },
        res matches Ok(p) ==> old(r).remaining().take(enc_prim(p@).len() as int) == enc_prim(
            p@,
        ),
        forall|pv: PrimitiveView, rest: Seq<u8>|
            prim_wf(pv) && prim_kind_of(pv) == XbfPrimitiveMetadata::I64 && old(r).remaining()
                == #[trigger] (enc_prim(pv) + rest) ==> (res matches Ok(p) && p@ == pv
                && final (r).position() == old(r).position() + enc_prim(pv).len()),
        res matches Err(e) ==> e == DecodeError::UnexpectedEnd || e == DecodeError::InvalidText,
{
            proof {
                vstd::bytes::lemma_auto_spec_u64_to_from_le_bytes();
            }
            let u = match r.read_u64() {
                Ok(b) => b,
                Err(e) => {
                    proof {
                        assert forall|pv: PrimitiveView, rest: Seq<u8>|
                            prim_wf(pv) && prim_kind_of(pv) == XbfPrimitiveMetadata::I64 && old(
                                r,
                            ).remaining() == #[trigger] (enc_prim(pv) + rest) implies false by {
                            match pv {
                                PrimitiveView::I64(y) => {
                                    assert(spec_u64_to_le_bytes(#[verifier::truncate] (y as u64)).len() == 8);
                                },
                                _ => {},
                            }
                        }
                    }
                    return Err(e);
                },
            };
            let x = #[verifier::truncate] (u as i64);
            let p = XbfPrimitive::I64(x);
            proof {
                vstd::bytes::lemma_auto_spec_u64_to_from_le_bytes();
                assert(spec_u64_to_le_bytes(u).len() == 8);
                lemma_i64_cast(x, u);
                assert forall|pv: PrimitiveView, rest: Seq<u8>|
                    prim_wf(pv) && prim_kind_of(pv) == XbfPrimitiveMetadata::I64 && old(
                        r,
                    ).remaining() == #[trigger] (enc_prim(pv) + rest) implies p@ == pv by {
                    match pv {
                        PrimitiveView::I64(y) => {
                            assert(spec_u64_to_le_bytes(#[verifier::truncate] (y as u64)).len() == 8);
                            lemma_le_concat_take(enc_prim(pv), rest, old(r).remaining(), 8);
                            lemma_u64_le_injective(u, y as u64);
                            lemma_i64_cast(y, u);
                        },
                        _ => {},
                    }
                }
            }
            Ok(p)
        
}

/// Decode one value of the `I128` kind.
fn decode_i128<'a>(r: &mut Reader<'a>) -> (res: Result<XbfPrimitive, DecodeError>)
    requires
        old(r).wf(),
    ensures
        res is Ok <==> old(r).remaining().len() >= 16,
        final (r).wf(),
        final (r).bytes() == old(r).bytes(),
        final (r).position() >= old(r).position(),
        res matches Ok(p) ==> {
            &&& prim_wf(p@)
            &&& prim_kind_of(p@) == XbfPrimitiveMetadata::I128
            &&& final (r).position() == old(r).position() + enc_prim(p@).len()
        },
        res matches Ok(p) ==> old(r).remaining().take(enc_prim(p@).len() as int) == enc_prim(
            p@,
        ),
        forall|pv: PrimitiveView, rest: Seq<u8>|
            prim_wf(pv) && prim_kind_of(pv) == XbfPrimitiveMetadata::I128 && old(r).remaining()
                == #[trigger] (enc_prim(pv) + rest) ==> (res matches Ok(p) && p@ == pv
                && final (r).position() == old(r).position() + enc_prim(pv).len()),
        res matches Err(e) ==> e == DecodeError::UnexpectedEnd || e == DecodeError::InvalidText,
{
            proof {
                vstd::bytes::lemma_auto_spec_u128_to_from_le_bytes();
            }
            let u = match r.read_u128() {
                Ok(b) => b,
                Err(e) => {
                    proof {
                        assert forall|pv: PrimitiveView, rest: Seq<u8>|
                            prim_wf(pv) && prim_kind_of(pv) == XbfPrimitiveMetadata::I128 && old(
                                r,
                            ).remaining() == #[trigger] (enc_prim(pv) + rest) implies false by {
                            match pv {
                                PrimitiveView::I128(y) => {
                                    assert(spec_u128_to_le_bytes(#[verifier::truncate] (y as u128)).len() == 16);
                                },
                                _ => {},
                            }
                        }
                    }
                    return Err(e);
                },
            };
            let x = #[verifier::truncate] (u as i128);
            let p = XbfPrimitive::I128(x);
            proof {
                vstd::bytes::lemma_auto_spec_u128_to_from_le_bytes();
                assert(spec_u128_to_le_bytes(u).len() == 16);
                lemma_i128_cast(x, u);
                assert forall|pv: PrimitiveView, rest: Seq<u8>|
                    prim_wf(pv) && prim_kind_of(pv) == XbfPrimitiveMetadata::I128 && old(
                        r,
                    ).remaining() == #[trigger] (enc_prim(pv) + rest) implies p@ == pv by {
                    match pv {
                        PrimitiveView::I128(y) => {
                            assert(spec_u128_to_le_bytes(#[verifier::truncate] (y as u128)).len() == 16);
                            lemma_le_concat_take(enc_prim(pv), rest, old(r).remaining(), 16);
                            lemma_u128_le_injective(u, y as u128);
                            lemma_i128_cast(y, u);
                        },
                        _ => {},
                    }
                }
            }
            Ok(p)
        
}

/// Decode one value of the `I256` kind.
fn decode_i256<'a>(r: &mut Reader<'a>) -> (res: Result<XbfPrimitive, DecodeError>)
    requires
        old(r).wf(),
    ensures
        res is Ok <==> old(r).remaining().len() >= 32,
        final (r).wf(),
        final (r).bytes() == old(r).bytes(),
        final (r).position() >= old(r).position(),
        res matches Ok(p) ==> {
            &&& prim_wf(p@)
            &&& prim_kind_of(p@) == XbfPrimitiveMetadata::I256
            &&& final (r).position() == old(r).position() + enc_prim(p@).len()
        },
        res matches Ok(p) ==> old(r).remaining().take(enc_prim(p@).len() as int) == enc_prim(
            p@,
        ),
        forall|pv: PrimitiveView, rest: Seq<u8>|
            prim_wf(pv) && prim_kind_of(pv) == XbfPrimitiveMetadata::I256 && old(r).remaining()
                == #[trigger] (enc_prim(pv) + rest) ==> (res matches Ok(p) && p@ == pv
                && final (r).position() == old(r).position() + enc_prim(pv).len()),
        res matches Err(e) ==> e == DecodeError::UnexpectedEnd || e == DecodeError::InvalidText,
{
            proof {
                vstd::bytes::lemma_auto_spec_u64_to_from_le_bytes();
            }
            match read_limbs(r) {
                Ok(l) => {
                    let p = XbfPrimitive::I256(l);
                    proof {
                        assert forall|pv: PrimitiveView, rest: Seq<u8>|
                            prim_wf(pv) && prim_kind_of(pv) == XbfPrimitiveMetadata::I256 && old(
                                r,
                            ).remaining() == #[trigger] (enc_prim(pv) + rest) implies p@
                            == pv by {
                            match pv {
                                PrimitiveView::I256(ms) => {
                                    assert(l@ == ms);
                                    assert(p@ =~= pv);
                                },
                                _ => {},
                            }
                        }
                    }
                    Ok(p)
                },
                Err(e) => {
                    proof {
                        assert forall|pv: PrimitiveView, rest: Seq<u8>|
                            prim_wf(pv) && prim_kind_of(pv) == XbfPrimitiveMetadata::I256 && old(
                                r,
                            ).remaining() == #[trigger] (enc_prim(pv) + rest) implies false by {
                            match pv {
                                PrimitiveView::I256(ms) => {
                                    assert(spec_u64_to_le_bytes(ms[0]).len() == 8);
                                    assert(spec_u64_to_le_bytes(ms[1]).len() == 8);
                                    assert(spec_u64_to_le_bytes(ms[2]).len() == 8);
                                    assert(spec_u64_to_le_bytes(ms[3]).len() == 8);
                                    assert(old(r).remaining().len() >= 32);
                                },
                                _ => {},
                            }
                        }
                    }
                    Err(e)
                },
            }
        
}

/// Decode one value of the `F32` kind.
fn decode_f32<'a>(r: &mut Reader<'a>) -> (res: Result<XbfPrimitive, DecodeError>)
    requires
        old(r).wf(),
    ensures
        res is Ok <==> old(r).remaining().len() >= 4,
        final (r).wf(),
        final (r).bytes() == old(r).bytes(),
        final (r).position() >= old(r).position(),
        res matches Ok(p) ==> {
            &&& prim_wf(p@)
            &&& prim_kind_of(p@) == XbfPrimitiveMetadata::F32
            &&& final (r).position() == old(r).position() + enc_prim(p@).len()
        },
        res matches Ok(p) ==> old(r).remaining().take(enc_prim(p@).len() as int) == enc_prim(
            p@,
        ),
        forall|pv: PrimitiveView, rest: Seq<u8>|
            prim_wf(pv) && prim_kind_of(pv) == XbfPrimitiveMetadata::F32 && old(r).remaining()
                == #[trigger] (enc_prim(pv) + rest) ==> (res matches Ok(p) && p@ == pv
                && final (r).position() == old(r).position() + enc_prim(pv).len()),
        res matches Err(e) ==> e == DecodeError::UnexpectedEnd || e == DecodeError::InvalidText,
{
            proof {
                vstd::bytes::lemma_auto_spec_u32_to_from_le_bytes();
            }
            let u = match r.read_u32() {
                Ok(b) => b,
                Err(e) => {
                    proof {
                        assert forall|pv: PrimitiveView, rest: Seq<u8>|
                            prim_wf(pv) && prim_kind_of(pv) == XbfPrimitiveMetadata::F32 && old(
                                r,
                            ).remaining() == #[trigger] (enc_prim(pv) + rest) implies false by {
                            assert(enc_prim(pv).len() == 4);
                        }
                    }
                    return Err(e);
                },
            };
            let p = XbfPrimitive::F32(u);
            proof {
                assert forall|pv: PrimitiveView, rest: Seq<u8>|
                    prim_wf(pv) && prim_kind_of(pv) == XbfPrimitiveMetadata::F32 && old(
                        r,
                    ).remaining() == #[trigger] (enc_prim(pv) + rest) implies p@ == pv by {
                    match pv {
                        PrimitiveView::F32(y) => {
                            lemma_le_concat_take(enc_prim(pv), rest, old(r).remaining(), 4);
                            lemma_u32_le_injective(u, y);
                        },
                        _ => {},
                    }
                }
            }
            Ok(p)
        
}

/// Decode one value of the `F64` kind.
fn decode_f64<'a>(r: &mut Reader<'a>) -> (res: Result<XbfPrimitive, DecodeError>)
    requires
        old(r).wf(),
    ensures
        res is Ok <==> old(r).remaining().len() >= 8,
        final (r).wf(),
        final (r).bytes() == old(r).bytes(),
        final (r).position() >= old(r).position(),
        res matches Ok(p) ==> {
            &&& prim_wf(p@)
            &&& prim_kind_of(p@) == XbfPrimitiveMetadata::F64
            &&& final (r).position() == old(r).position() + enc_prim(p@).len()
        },
        res matches Ok(p) ==> old(r).remaining().take(enc_prim(p@).len() as int) == enc_prim(
            p@,
        ),
        forall|pv: PrimitiveView, rest: Seq<u8>|
            prim_wf(pv) && prim_kind_of(pv) == XbfPrimitiveMetadata::F64 && old(r).remaining()
                == #[trigger] (enc_prim(pv) + rest) ==> (res matches Ok(p) && p@ == pv
                && final (r).position() == old(r).position() + enc_prim(pv).len()),
        res matches Err(e) ==> e == DecodeError::UnexpectedEnd || e == DecodeError::InvalidText,
{
            proof {
                vstd::bytes::lemma_auto_spec_u64_to_from_le_bytes();
            }
            let u = match r.read_u64() {
                Ok(b) => b,
                Err(e) => {
                    proof {
                        assert forall|pv: PrimitiveView, rest: Seq<u8>|
                            prim_wf(pv) && prim_kind_of(pv) == XbfPrimitiveMetadata::F64 && old(
                                r,
                            ).remaining() == #[trigger] (enc_prim(pv) + rest) implies false by {
                            assert(enc_prim(pv).len() == 8);
                        }
                    }
                    return Err(e);
                },
            };
            let p = XbfPrimitive::F64(u);
            proof {
                assert forall|pv: PrimitiveView, rest: Seq<u8>|
                    prim_wf(pv) && prim_kind_of(pv) == XbfPrimitiveMetadata::F64 && old(
                        r,
                    ).remaining() == #[trigger] (enc_prim(pv) + rest) implies p@ == pv by {
                    match pv {
                        PrimitiveView::F64(y) => {
                            lemma_le_concat_take(enc_prim(pv), rest, old(r).remaining(), 8);
                            lemma_u64_le_injective(u, y);
                        },
                        _ => {},
                    }
                }
            }
            Ok(p)
        
}

/// Decode one value of the `String` kind.
fn decode_string<'a>(r: &mut Reader<'a>) -> (res: Result<XbfPrimitive, DecodeError>)
    requires
        old(r).wf(),
    ensures
        res is Ok <==> text_decode_ok(old(r).remaining()),
        final (r).wf(),
        final (r).bytes() == old(r).bytes(),
        final (r).position() >= old(r).position(),
        res matches Ok(p) ==> {
            &&& prim_wf(p@)
            &&& prim_kind_of(p@) == XbfPrimitiveMetadata::String
            &&& final (r).position() == old(r).position() + enc_prim(p@).len()
        },
        res matches Ok(p) ==> old(r).remaining().take(enc_prim(p@).len() as int) == enc_prim(
            p@,
        ),
        forall|pv: PrimitiveView, rest: Seq<u8>|
            prim_wf(pv) && prim_kind_of(pv) == XbfPrimitiveMetadata::String && old(r).remaining()
                == #[trigger] (enc_prim(pv) + rest) ==> (res matches Ok(p) && p@ == pv
                && final (r).position() == old(r).position() + enc_prim(pv).len()),
        res matches Err(e) ==> e == DecodeError::UnexpectedEnd || e == DecodeError::InvalidText,
{
            match r.read_text() {
                Ok(s) => {
                    let p = XbfPrimitive::String(s);
                    proof {
                        assert forall|pv: PrimitiveView, rest: Seq<u8>|
                            prim_wf(pv) && prim_kind_of(pv) == XbfPrimitiveMetadata::String && old(
                                r,
                            ).remaining() == #[trigger] (enc_prim(pv) + rest) implies p@
                            == pv by {
                            match pv {
                                PrimitiveView::String(t) => {
                                    assert(old(r).remaining() == enc_text(t) + rest);
                                },
                                _ => {},
                            }
                        }
                    }
                    Ok(p)
                },
                Err(e) => {
                    proof {
                        assert forall|pv: PrimitiveView, rest: Seq<u8>|
                            prim_wf(pv) && prim_kind_of(pv) == XbfPrimitiveMetadata::String && old(
                                r,
                            ).remaining() == #[trigger] (enc_prim(pv) + rest) implies false by {
                            match pv {
                                PrimitiveView::String(t) => {
                                    assert(old(r).remaining() == enc_text(t) + rest);
                                },
                                _ => {},
                            }
                        }
                    }
                    Err(e)
                },
            }
        
}

/// Writes the four little-endian limbs of a 256-bit integer, in
/// ascending significance order.
fn write_limbs(out: &mut Vec<u8>, l: &[u64; 4])
    ensures
        final (out)@ == old(out)@ + spec_u64_to_le_bytes(l@[0]) + spec_u64_to_le_bytes(l@[1])
            + spec_u64_to_le_bytes(l@[2]) + spec_u64_to_le_bytes(l@[3]),
{
    let mut b0 = u64_to_le_bytes(l[0]);
    out.append(&mut b0);
    let mut b1 = u64_to_le_bytes(l[1]);
    out.append(&mut b1);
    let mut b2 = u64_to_le_bytes(l[2]);
    out.append(&mut b2);
    let mut b3 = u64_to_le_bytes(l[3]);
    out.append(&mut b3);
}

/// Reads the four little-endian limbs of a 256-bit integer, in
/// ascending significance order.
fn read_limbs<'a>(r: &mut Reader<'a>) -> (res: Result<[u64; 4], DecodeError>)
    requires
        old(r).wf(),
    ensures
        final (r).wf(),
        final (r).bytes() == old(r).bytes(),
        final (r).position() >= old(r).position(),
        res matches Ok(l) ==> {
            &&& l@.len() == 4
            &&& final (r).position() == old(r).position() + 32
            &&& old(r).remaining().len() >= 32
            &&& old(r).remaining().take(32) == spec_u64_to_le_bytes(l@[0]) + spec_u64_to_le_bytes(
                l@[1],
            ) + spec_u64_to_le_bytes(l@[2]) + spec_u64_to_le_bytes(l@[3])
        },
        res is Err <==> old(r).remaining().len() < 32,
        res matches Err(e) ==> e == DecodeError::UnexpectedEnd,
        forall|ms: Seq<u64>, rest: Seq<u8>|
            ms.len() == 4 && old(r).remaining() == #[trigger] (spec_u64_to_le_bytes(ms[0])
                + spec_u64_to_le_bytes(ms[1]) + spec_u64_to_le_bytes(ms[2]) + spec_u64_to_le_bytes(
                ms[3],
            ) + rest) ==> (res matches Ok(l) && l@ == ms),
{
    proof {
        vstd::bytes::lemma_auto_spec_u64_to_from_le_bytes();
    }
    let ghost r0 = *r;
    let a = match r.read_u64() {
        Ok(x) => x,
        Err(e) => {
            proof {
                assert forall|ms: Seq<u64>, rest: Seq<u8>|
                    ms.len() == 4 && old(r).remaining() == #[trigger] (spec_u64_to_le_bytes(ms[0])
                        + spec_u64_to_le_bytes(ms[1]) + spec_u64_to_le_bytes(ms[2])
                        + spec_u64_to_le_bytes(ms[3]) + rest) implies false by {
                    assert(spec_u64_to_le_bytes(ms[0]).len() == 8);
                }
            }
            return Err(e);
        },
    };
    let ghost ra = *r;
    let b = match r.read_u64() {
        Ok(x) => x,
        Err(e) => {
            proof {
                lemma_reader_skip(r0, ra);
                assert forall|ms: Seq<u64>, rest: Seq<u8>|
                    ms.len() == 4 && old(r).remaining() == #[trigger] (spec_u64_to_le_bytes(ms[0])
                        + spec_u64_to_le_bytes(ms[1]) + spec_u64_to_le_bytes(ms[2])
                        + spec_u64_to_le_bytes(ms[3]) + rest) implies false by {
                    assert(spec_u64_to_le_bytes(ms[0]).len() == 8);
                    assert(spec_u64_to_le_bytes(ms[1]).len() == 8);
                    assert(spec_u64_to_le_bytes(ms[2]).len() == 8);
                    assert(spec_u64_to_le_bytes(ms[3]).len() == 8);
                    assert(old(r).remaining().len() >= 32);
                }
            }
            return Err(e);
        },
    };
    let ghost rb = *r;
    let c = match r.read_u64() {
        Ok(x) => x,
        Err(e) => {
            proof {
                lemma_reader_skip(r0, ra);
                lemma_reader_skip(ra, rb);
                assert forall|ms: Seq<u64>, rest: Seq<u8>|
                    ms.len() == 4 && old(r).remaining() == #[trigger] (spec_u64_to_le_bytes(ms[0])
                        + spec_u64_to_le_bytes(ms[1]) + spec_u64_to_le_bytes(ms[2])
                        + spec_u64_to_le_bytes(ms[3]) + rest) implies false by {
                    assert(spec_u64_to_le_bytes(ms[0]).len() == 8);
                    assert(spec_u64_to_le_bytes(ms[1]).len() == 8);
                    assert(spec_u64_to_le_bytes(ms[2]).len() == 8);
                    assert(spec_u64_to_le_bytes(ms[3]).len() == 8);
                    assert(old(r).remaining().len() >= 32);
                }
            }
            return Err(e);
        },
    };
    let ghost rc = *r;
    let d = match r.read_u64() {
        Ok(x) => x,
        Err(e) => {
            proof {
                lemma_reader_skip(r0, ra);
                lemma_reader_skip(ra, rb);
                lemma_reader_skip(rb, rc);
                assert forall|ms: Seq<u64>, rest: Seq<u8>|
                    ms.len() == 4 && old(r).remaining() == #[trigger] (spec_u64_to_le_bytes(ms[0])
                        + spec_u64_to_le_bytes(ms[1]) + spec_u64_to_le_bytes(ms[2])
                        + spec_u64_to_le_bytes(ms[3]) + rest) implies false by {
                    assert(spec_u64_to_le_bytes(ms[0]).len() == 8);
                    assert(spec_u64_to_le_bytes(ms[1]).len() == 8);
                    assert(spec_u64_to_le_bytes(ms[2]).len() == 8);
                    assert(spec_u64_to_le_bytes(ms[3]).len() == 8);
                    assert(old(r).remaining().len() >= 32);
                }
            }
            return Err(e);
        },
    };
    let ghost rd = *r;
    let l = [a, b, c, d];
    proof {
        lemma_consumed_chain(r0, ra, rb, spec_u64_to_le_bytes(a), spec_u64_to_le_bytes(b));
        lemma_consumed_chain(
            r0,
            rb,
            rc,
            spec_u64_to_le_bytes(a) + spec_u64_to_le_bytes(b),
            spec_u64_to_le_bytes(c),
        );
        lemma_consumed_chain(
            r0,
            rc,
            rd,
            spec_u64_to_le_bytes(a) + spec_u64_to_le_bytes(b) + spec_u64_to_le_bytes(c),
            spec_u64_to_le_bytes(d),
        );
        assert(l@ =~= seq![a, b, c, d]);
        assert forall|ms: Seq<u64>, rest: Seq<u8>|
            ms.len() == 4 && old(r).remaining() == #[trigger] (spec_u64_to_le_bytes(ms[0])
                + spec_u64_to_le_bytes(ms[1]) + spec_u64_to_le_bytes(ms[2]) + spec_u64_to_le_bytes(
                ms[3],
            ) + rest) implies l@ == ms by {
            assert(old(r).remaining().take(8) =~= spec_u64_to_le_bytes(ms[0]));
            assert(ra.remaining() =~= old(r).remaining().skip(8));
            assert(ra.remaining().take(8) =~= spec_u64_to_le_bytes(ms[1]));
            assert(rb.remaining() =~= old(r).remaining().skip(16));
            assert(rb.remaining().take(8) =~= spec_u64_to_le_bytes(ms[2]));
            assert(rc.remaining() =~= old(r).remaining().skip(24));
            assert(rc.remaining().take(8) =~= spec_u64_to_le_bytes(ms[3]));
            lemma_u64_le_injective(a, ms[0]);
            lemma_u64_le_injective(b, ms[1]);
            lemma_u64_le_injective(c, ms[2]);
            lemma_u64_le_injective(d, ms[3]);
            assert(l@ =~= ms);
        }
    }
    Ok(l)
}

/// Two equal-length prefixes of the same stream are equal.
proof fn lemma_le_concat_take(x: Seq<u8>, rest: Seq<u8>, whole: Seq<u8>, n: int)
    requires
        whole == x + rest,
        x.len() == n,
        0 <= n,
    ensures
        whole.take(n) == x,
{
    assert(whole.take(n) =~= x);
}

/// Little-endian encodings of equal values are equal, and the encoding
/// is injective.
proof fn lemma_u16_le_injective(a: u16, b: u16)
    requires
        spec_u16_to_le_bytes(a) == spec_u16_to_le_bytes(b),
    ensures
        a == b,
{
    vstd::bytes::lemma_auto_spec_u16_to_from_le_bytes();
    assert(spec_u16_to_le_bytes(a).len() == 2);
    assert(spec_u16_to_le_bytes(b).len() == 2);
}

/// As [`lemma_u16_le_injective`], at 32 bits.
proof fn lemma_u32_le_injective(a: u32, b: u32)
    requires
        spec_u32_to_le_bytes(a) == spec_u32_to_le_bytes(b),
    ensures
        a == b,
{
    vstd::bytes::lemma_auto_spec_u32_to_from_le_bytes();
    assert(spec_u32_to_le_bytes(a).len() == 4);
    assert(spec_u32_to_le_bytes(b).len() == 4);
}

/// As [`lemma_u16_le_injective`], at 64 bits.
proof fn lemma_u64_le_injective(a: u64, b: u64)
    requires
        spec_u64_to_le_bytes(a) == spec_u64_to_le_bytes(b),
    ensures
        a == b,
{
    vstd::bytes::lemma_auto_spec_u64_to_from_le_bytes();
    assert(spec_u64_to_le_bytes(a).len() == 8);
    assert(spec_u64_to_le_bytes(b).len() == 8);
}

/// As [`lemma_u16_le_injective`], at 128 bits.
proof fn lemma_u128_le_injective(a: u128, b: u128)
    requires
        spec_u128_to_le_bytes(a) == spec_u128_to_le_bytes(b),
    ensures
        a == b,
{
    vstd::bytes::lemma_auto_spec_u128_to_from_le_bytes();
    assert(spec_u128_to_le_bytes(a).len() == 16);
    assert(spec_u128_to_le_bytes(b).len() == 16);
}

impl From<bool> for XbfPrimitive {
    /// Conversion of a native scalar into the primitive value of its
    /// kind; exact and injective.
    fn from(x: bool) -> (p: XbfPrimitive) {
        XbfPrimitive::Bool(x)
    }
}

impl vstd::std_specs::convert::FromSpecImpl<bool> for XbfPrimitive {
    open spec fn obeys_from_spec() -> bool {
        true
    }

    open spec fn from_spec(x: bool) -> XbfPrimitive {
        XbfPrimitive::Bool(x)
    }
}

impl From<u8> for XbfPrimitive {
    /// Conversion of a native scalar into the primitive value of its
    /// kind; exact and injective.
    fn from(x: u8) -> (p: XbfPrimitive) {
        XbfPrimitive::U8(x)
    }
}

impl vstd::std_specs::convert::FromSpecImpl<u8> for XbfPrimitive {
    open spec fn obeys_from_spec() -> bool {
        true
    }

    open spec fn from_spec(x: u8) -> XbfPrimitive {
        XbfPrimitive::U8(x)
    }
}

impl From<u16> for XbfPrimitive {
    /// Conversion of a native scalar into the primitive value of its
    /// kind; exact and injective.
    fn from(x: u16) -> (p: XbfPrimitive) {
        XbfPrimitive::U16(x)
    }
}

impl vstd::std_specs::convert::FromSpecImpl<u16> for XbfPrimitive {
    open spec fn obeys_from_spec() -> bool {
        true
    }

    open spec fn from_spec(x: u16) -> XbfPrimitive {
        XbfPrimitive::U16(x)
    }
}

impl From<u32> for XbfPrimitive {
    /// Conversion of a native scalar into the primitive value of its
    /// kind; exact and injective.
    fn from(x: u32) -> (p: XbfPrimitive) {
        XbfPrimitive::U32(x)
    }
}

impl vstd::std_specs::convert::FromSpecImpl<u32> for XbfPrimitive {
    open spec fn obeys_from_spec() -> bool {
        true
    }

    open spec fn from_spec(x: u32) -> XbfPrimitive {
        XbfPrimitive::U32(x)
    }
}

impl From<u64> for XbfPrimitive {
    /// Conversion of a native scalar into the primitive value of its
    /// kind; exact and injective.
    fn from(x: u64) -> (p: XbfPrimitive) {
        XbfPrimitive::U64(x)
    }
}

impl vstd::std_specs::convert::FromSpecImpl<u64> for XbfPrimitive {
    open spec fn obeys_from_spec() -> bool {
        true
    }

    open spec fn from_spec(x: u64) -> XbfPrimitive {
        XbfPrimitive::U64(x)
    }
}

impl From<u128> for XbfPrimitive {
    /// Conversion of a native scalar into the primitive value of its
    /// kind; exact and injective.
    fn from(x: u128) -> (p: XbfPrimitive) {
        XbfPrimitive::U128(x)
    }
}

impl vstd::std_specs::convert::FromSpecImpl<u128> for XbfPrimitive {
    open spec fn obeys_from_spec() -> bool {
        true
    }

    open spec fn from_spec(x: u128) -> XbfPrimitive {
        XbfPrimitive::U128(x)
    }
}

impl From<i8> for XbfPrimitive {
    /// Conversion of a native scalar into the primitive value of its
    /// kind; exact and injective.
    fn from(x: i8) -> (p: XbfPrimitive) {
        XbfPrimitive::I8(x)
    }
}

impl vstd::std_specs::convert::FromSpecImpl<i8> for XbfPrimitive {
    open spec fn obeys_from_spec() -> bool {
        true
    }

    open spec fn from_spec(x: i8) -> XbfPrimitive {
        XbfPrimitive::I8(x)
    }
}

impl From<i16> for XbfPrimitive {
    /// Conversion of a native scalar into the primitive value of its
    /// kind; exact and injective.
    fn from(x: i16) -> (p: XbfPrimitive) {
        XbfPrimitive::I16(x)
    }
}

impl vstd::std_specs::convert::FromSpecImpl<i16> for XbfPrimitive {
    open spec fn obeys_from_spec() -> bool {
        true
    }

    open spec fn from_spec(x: i16) -> XbfPrimitive {
        XbfPrimitive::I16(x)
    }
}

impl From<i32> for XbfPrimitive {
    /// Conversion of a native scalar into the primitive value of its
    /// kind; exact and injective.
    fn from(x: i32) -> (p: XbfPrimitive) {
        XbfPrimitive::I32(x)
    }
}

impl vstd::std_specs::convert::FromSpecImpl<i32> for XbfPrimitive {
    open spec fn obeys_from_spec() -> bool {
        true
    }

    open spec fn from_spec(x: i32) -> XbfPrimitive {
        XbfPrimitive::I32(x)
    }
}

impl From<i64> for XbfPrimitive {
    /// Conversion of a native scalar into the primitive value of its
    /// kind; exact and injective.
    fn from(x: i64) -> (p: XbfPrimitive) {
        XbfPrimitive::I64(x)
    }
}

impl vstd::std_specs::convert::FromSpecImpl<i64> for XbfPrimitive {
    open spec fn obeys_from_spec() -> bool {
        true
    }

    open spec fn from_spec(x: i64) -> XbfPrimitive {
        XbfPrimitive::I64(x)
    }
}

impl From<i128> for XbfPrimitive {
    /// Conversion of a native scalar into the primitive value of its
    /// kind; exact and injective.
    fn from(x: i128) -> (p: XbfPrimitive) {
        XbfPrimitive::I128(x)
    }
}

impl vstd::std_specs::convert::FromSpecImpl<i128> for XbfPrimitive {
    open spec fn obeys_from_spec() -> bool {
        true
    }

    open spec fn from_spec(x: i128) -> XbfPrimitive {
        XbfPrimitive::I128(x)
    }
}

impl From<String> for XbfPrimitive {
    /// Conversion of a native scalar into the primitive value of its
    /// kind; exact and injective.
    fn from(x: String) -> (p: XbfPrimitive) {
        XbfPrimitive::String(x)
    }
}

impl vstd::std_specs::convert::FromSpecImpl<String> for XbfPrimitive {
    open spec fn obeys_from_spec() -> bool {
        true
    }

    open spec fn from_spec(x: String) -> XbfPrimitive {
        XbfPrimitive::String(x)
    }
}

} // verus!
