//! Round trips through the unified union, upcasts, and conversions from
//! native scalars.

use xbf::{Reader, XbfMetadata, XbfPrimitive, XbfPrimitiveMetadata, XbfType};

fn serde_base_round_trip(primitive: XbfPrimitive, kind: XbfPrimitiveMetadata, expected: &[u8]) {
    let mut writer = Vec::new();
    primitive.serialize_primitive_type(&mut writer);
    assert_eq!(writer, expected);

    let mut reader = Reader::new(&writer);
    let metadata = XbfMetadata::Primitive(kind);
    let expected_value = XbfType::Primitive(primitive);
    let decoded = XbfType::deserialize_base_type(&metadata, &mut reader).unwrap();
    assert_eq!(decoded, expected_value);
}

#[test]
fn bool_serde_works() {
    let xbf_true = XbfPrimitive::Bool(true);
    let xbf_false = XbfPrimitive::Bool(false);
    let mut writer = Vec::new();

    xbf_true.serialize_primitive_type(&mut writer);
    xbf_false.serialize_primitive_type(&mut writer);

    assert_eq!(writer, vec![1, 0]);

    let mut reader = Reader::new(&writer);
    let metadata = XbfMetadata::Primitive(XbfPrimitiveMetadata::Bool);

    let true_type = XbfType::deserialize_base_type(&metadata, &mut reader).unwrap();
    let false_type = XbfType::deserialize_base_type(&metadata, &mut reader).unwrap();

    assert_eq!(true_type, XbfType::Primitive(XbfPrimitive::Bool(true)));
    assert_eq!(false_type, XbfType::Primitive(XbfPrimitive::Bool(false)));
}

#[test]
fn unsigned_nums_serde_works() {
    serde_base_round_trip(
        XbfPrimitive::U8(42u8),
        XbfPrimitiveMetadata::U8,
        &42u8.to_le_bytes(),
    );
    serde_base_round_trip(
        XbfPrimitive::U16(420u16),
        XbfPrimitiveMetadata::U16,
        &420u16.to_le_bytes(),
    );
    serde_base_round_trip(
        XbfPrimitive::U32(100_000u32),
        XbfPrimitiveMetadata::U32,
        &100_000u32.to_le_bytes(),
    );
    serde_base_round_trip(
        XbfPrimitive::U64(100_000_000u64),
        XbfPrimitiveMetadata::U64,
        &100_000_000u64.to_le_bytes(),
    );
    serde_base_round_trip(
        XbfPrimitive::U128(18_446_744_073_709_551_617u128),
        XbfPrimitiveMetadata::U128,
        &18_446_744_073_709_551_617u128.to_le_bytes(),
    );
}

#[test]
fn primitive_u256_serde_works() {
    const TEST_NUM: [u64; 4] = [1, 2, 3, 4];
    let primitive = XbfPrimitive::U256(TEST_NUM);
    let mut writer = Vec::new();

    primitive.serialize_primitive_type(&mut writer);

    let expected = TEST_NUM
        .iter()
        .flat_map(|x| x.to_le_bytes())
        .collect::<Vec<_>>();
    assert_eq!(writer, expected);

    let mut reader = Reader::new(&writer);
    let deserialized = XbfType::deserialize_base_type(
        &XbfMetadata::Primitive(XbfPrimitiveMetadata::U256),
        &mut reader,
    )
    .unwrap();
    assert_eq!(deserialized, primitive.to_base_type());
}

#[test]
fn signed_nums_serde_works() {
    serde_base_round_trip(
        XbfPrimitive::I8(42i8),
        XbfPrimitiveMetadata::I8,
        &42i8.to_le_bytes(),
    );
    serde_base_round_trip(
        XbfPrimitive::I16(420i16),
        XbfPrimitiveMetadata::I16,
        &420i16.to_le_bytes(),
    );
    serde_base_round_trip(
        XbfPrimitive::I32(100_000i32),
        XbfPrimitiveMetadata::I32,
        &100_000i32.to_le_bytes(),
    );
    serde_base_round_trip(
        XbfPrimitive::I64(100_000_000i64),
        XbfPrimitiveMetadata::I64,
        &100_000_000i64.to_le_bytes(),
    );
    serde_base_round_trip(
        XbfPrimitive::I128(18_446_744_073_709_551_617i128),
        XbfPrimitiveMetadata::I128,
        &18_446_744_073_709_551_617i128.to_le_bytes(),
    );
}

#[test]
fn negative_nums_serde_works() {
    serde_base_round_trip(
        XbfPrimitive::I8(-42i8),
        XbfPrimitiveMetadata::I8,
        &(-42i8).to_le_bytes(),
    );
    serde_base_round_trip(
        XbfPrimitive::I16(-420i16),
        XbfPrimitiveMetadata::I16,
        &(-420i16).to_le_bytes(),
    );
    serde_base_round_trip(
        XbfPrimitive::I32(-100_000i32),
        XbfPrimitiveMetadata::I32,
        &(-100_000i32).to_le_bytes(),
    );
    serde_base_round_trip(
        XbfPrimitive::I64(-100_000_000i64),
        XbfPrimitiveMetadata::I64,
        &(-100_000_000i64).to_le_bytes(),
    );
    serde_base_round_trip(
        XbfPrimitive::I128(-18_446_744_073_709_551_617i128),
        XbfPrimitiveMetadata::I128,
        &(-18_446_744_073_709_551_617i128).to_le_bytes(),
    );
}

#[test]
fn primitive_i256_serde_works() {
    const TEST_NUM: [u64; 4] = [1, 2, 3, 4];
    let primitive = XbfPrimitive::I256(TEST_NUM);
    let mut writer = Vec::new();

    primitive.serialize_primitive_type(&mut writer);

    let expected = TEST_NUM
        .iter()
        .flat_map(|x| x.to_le_bytes())
        .collect::<Vec<_>>();
    assert_eq!(writer, expected);

    let mut reader = Reader::new(&writer);
    let deserialized = XbfType::deserialize_base_type(
        &XbfMetadata::Primitive(XbfPrimitiveMetadata::I256),
        &mut reader,
    )
    .unwrap();
    assert_eq!(deserialized, primitive.to_base_type());
}

#[test]
fn floating_point_serde_works() {
    serde_base_round_trip(
        XbfPrimitive::F32(69.0f32.to_bits()),
        XbfPrimitiveMetadata::F32,
        &69.0f32.to_le_bytes(),
    );
    serde_base_round_trip(
        XbfPrimitive::F64(69.0f64.to_bits()),
        XbfPrimitiveMetadata::F64,
        &69.0f64.to_le_bytes(),
    );
}

#[test]
fn primitive_string_serialize_works() {
    let test_string = "hello world".to_string();
    let primitive = XbfPrimitive::String(test_string.clone());
    let mut writer = vec![];

    primitive.serialize_primitive_type(&mut writer);

    let mut expected_writer = vec![];
    expected_writer.extend_from_slice(&(test_string.len() as u16).to_le_bytes());
    expected_writer.extend_from_slice(test_string.as_bytes());

    assert_eq!(writer, expected_writer);

    let mut reader = Reader::new(&writer);
    let deserialized = XbfType::deserialize_base_type(
        &XbfMetadata::Primitive(XbfPrimitiveMetadata::String),
        &mut reader,
    )
    .unwrap();

    assert_eq!(
        deserialized,
        XbfType::Primitive(XbfPrimitive::String(test_string))
    );
}

#[test]
fn primitive_upcast_works() {
    let primitive_type = XbfPrimitive::I32(69);
    let ref_primitive_type = &primitive_type;

    assert_eq!(
        XbfType::Primitive(primitive_type.clone()),
        ref_primitive_type.to_base_type()
    );
    assert_eq!(
        XbfType::Primitive(primitive_type.clone()),
        primitive_type.into_base_type()
    );
}

#[test]
fn primitive_from_native_works() {
    assert_eq!(XbfPrimitive::from(true), XbfPrimitive::Bool(true));
    assert_eq!(XbfPrimitive::from(false), XbfPrimitive::Bool(false));
    assert_eq!(XbfPrimitive::from(42u8), XbfPrimitive::U8(42));
    assert_eq!(XbfPrimitive::from(42u16), XbfPrimitive::U16(42));
    assert_eq!(XbfPrimitive::from(42u32), XbfPrimitive::U32(42));
    assert_eq!(XbfPrimitive::from(42u64), XbfPrimitive::U64(42));
    assert_eq!(XbfPrimitive::from(42u128), XbfPrimitive::U128(42));
    assert_eq!(XbfPrimitive::from(42i8), XbfPrimitive::I8(42));
    assert_eq!(XbfPrimitive::from(42i16), XbfPrimitive::I16(42));
    assert_eq!(XbfPrimitive::from(42i32), XbfPrimitive::I32(42));
    assert_eq!(XbfPrimitive::from(42i64), XbfPrimitive::I64(42));
    assert_eq!(XbfPrimitive::from(42i128), XbfPrimitive::I128(42));
    assert_eq!(
        XbfPrimitive::F32(42.0f32.to_bits()),
        XbfPrimitive::F32(42.0f32.to_bits())
    );
    assert_eq!(
        XbfPrimitive::F64(42.0f64.to_bits()),
        XbfPrimitive::F64(42.0f64.to_bits())
    );
    assert_eq!(
        XbfPrimitive::from("Hello World".to_string()),
        XbfPrimitive::String("Hello World".to_string())
    );
}

#[test]
fn primitve_metadata_from_primitive_works() {
    assert_eq!(
        XbfPrimitiveMetadata::from(&XbfPrimitive::Bool(true)),
        XbfPrimitiveMetadata::Bool
    );
    assert_eq!(
        XbfPrimitiveMetadata::from(&XbfPrimitive::U8(1)),
        XbfPrimitiveMetadata::U8
    );
    assert_eq!(
        XbfPrimitiveMetadata::from(&XbfPrimitive::U16(1)),
        XbfPrimitiveMetadata::U16
    );
    assert_eq!(
        XbfPrimitiveMetadata::from(&XbfPrimitive::U32(1)),
        XbfPrimitiveMetadata::U32
    );
    assert_eq!(
        XbfPrimitiveMetadata::from(&XbfPrimitive::U64(1)),
        XbfPrimitiveMetadata::U64
    );
    assert_eq!(
        XbfPrimitiveMetadata::from(&XbfPrimitive::U128(1)),
        XbfPrimitiveMetadata::U128
    );
    assert_eq!(
        XbfPrimitiveMetadata::from(&XbfPrimitive::U256([1, 2, 3, 4])),
        XbfPrimitiveMetadata::U256
    );
    assert_eq!(
        XbfPrimitiveMetadata::from(&XbfPrimitive::I8(1)),
        XbfPrimitiveMetadata::I8
    );
    assert_eq!(
        XbfPrimitiveMetadata::from(&XbfPrimitive::I16(1)),
        XbfPrimitiveMetadata::I16
    );
    assert_eq!(
        XbfPrimitiveMetadata::from(&XbfPrimitive::I32(1)),
        XbfPrimitiveMetadata::I32
    );
    assert_eq!(
        XbfPrimitiveMetadata::from(&XbfPrimitive::I64(1)),
        XbfPrimitiveMetadata::I64
    );
    assert_eq!(
        XbfPrimitiveMetadata::from(&XbfPrimitive::I128(1)),
        XbfPrimitiveMetadata::I128
    );
    assert_eq!(
        XbfPrimitiveMetadata::from(&XbfPrimitive::I256([1, 2, 3, 4])),
        XbfPrimitiveMetadata::I256
    );
    assert_eq!(
        XbfPrimitiveMetadata::from(&XbfPrimitive::F32(1.0f32.to_bits())),
        XbfPrimitiveMetadata::F32
    );
    assert_eq!(
        XbfPrimitiveMetadata::from(&XbfPrimitive::F64(1.0f64.to_bits())),
        XbfPrimitiveMetadata::F64
    );
    assert_eq!(
        XbfPrimitiveMetadata::from(&XbfPrimitive::String("Hello World".to_string())),
        XbfPrimitiveMetadata::String
    );
}
