//! Serialization and deserialization of every primitive kind.

use xbf::{DecodeError, Reader, XbfMetadata, XbfPrimitive, XbfPrimitiveMetadata, XbfType};

fn serde_round_trip(primitive: XbfPrimitive, kind: XbfPrimitiveMetadata, expected_bytes: &[u8]) {
    let mut writer = Vec::new();
    primitive.serialize_primitive_type(&mut writer);
    assert_eq!(writer, expected_bytes);

    let mut reader = Reader::new(&writer);
    let metadata = XbfMetadata::Primitive(kind);
    let expected = XbfType::Primitive(primitive);
    let decoded = XbfType::deserialize_base_type(&metadata, &mut reader).unwrap();
    assert_eq!(decoded, expected);
}

#[test]
fn bool_serialize_works() {
    let xbf_true = XbfPrimitive::Bool(true);
    let xbf_false = XbfPrimitive::Bool(false);
    let mut writer = Vec::new();

    xbf_true.serialize_primitive_type(&mut writer);
    xbf_false.serialize_primitive_type(&mut writer);

    assert_eq!(writer, vec![1, 0]);
}

#[test]
fn bool_deserialize_works() {
    let data = vec![1, 0];
    let mut reader = Reader::new(&data);

    let metadata = XbfMetadata::Primitive(XbfPrimitiveMetadata::Bool);

    let true_type = XbfType::deserialize_base_type(&metadata, &mut reader).unwrap();
    assert_eq!(true_type, XbfType::Primitive(XbfPrimitive::Bool(true)));

    let false_type = XbfType::deserialize_base_type(&metadata, &mut reader).unwrap();
    assert_eq!(false_type, XbfType::Primitive(XbfPrimitive::Bool(false)));
}

#[test]
fn u8_serde_works() {
    const TEST_NUM: u8 = 42;
    serde_round_trip(
        XbfPrimitive::U8(TEST_NUM),
        XbfPrimitiveMetadata::U8,
        &TEST_NUM.to_le_bytes(),
    );
}

#[test]
fn u16_serde_works() {
    const TEST_NUM: u16 = 420;
    serde_round_trip(
        XbfPrimitive::U16(TEST_NUM),
        XbfPrimitiveMetadata::U16,
        &TEST_NUM.to_le_bytes(),
    );
}

#[test]
fn u32_serde_works() {
    const TEST_NUM: u32 = 100_000;
    serde_round_trip(
        XbfPrimitive::U32(TEST_NUM),
        XbfPrimitiveMetadata::U32,
        &TEST_NUM.to_le_bytes(),
    );
}

#[test]
fn u64_serde_works() {
    const TEST_NUM: u64 = 100_000_000;
    serde_round_trip(
        XbfPrimitive::U64(TEST_NUM),
        XbfPrimitiveMetadata::U64,
        &TEST_NUM.to_le_bytes(),
    );
}

#[test]
fn u128_serde_works() {
    const TEST_NUM: u128 = 18_446_744_073_709_551_617;
    serde_round_trip(
        XbfPrimitive::U128(TEST_NUM),
        XbfPrimitiveMetadata::U128,
        &TEST_NUM.to_le_bytes(),
    );
}

#[test]
fn primitive_test_u256_serde_works() {
    const TEST_NUM: [u64; 4] = [1, 2, 3, 4];
    let primitive = XbfPrimitive::U256(TEST_NUM);
    let mut writer = Vec::new();

    primitive.serialize_primitive_type(&mut writer);

    let expected = TEST_NUM
        .iter()
        .flat_map(|x| x.to_le_bytes())
        .collect::<Vec<_>>();
    assert_eq!(writer, expected);

    let mut reader = Reader::new(&writer);
    let deserialized = XbfType::deserialize_base_type(
        &XbfMetadata::Primitive(XbfPrimitiveMetadata::U256),
        &mut reader,
    )
    .unwrap();
    assert_eq!(deserialized, primitive.to_base_type());
}

#[test]
fn i8_serde_works() {
    const TEST_NUM: i8 = 42;
    serde_round_trip(
        XbfPrimitive::I8(TEST_NUM),
        XbfPrimitiveMetadata::I8,
        &TEST_NUM.to_le_bytes(),
    );
}

#[test]
fn i16_serde_works() {
    const TEST_NUM: i16 = 420;
    serde_round_trip(
        XbfPrimitive::I16(TEST_NUM),
        XbfPrimitiveMetadata::I16,
        &TEST_NUM.to_le_bytes(),
    );
}

#[test]
fn i32_serde_works() {
    const TEST_NUM: i32 = 100_000;
    serde_round_trip(
        XbfPrimitive::I32(TEST_NUM),
        XbfPrimitiveMetadata::I32,
        &TEST_NUM.to_le_bytes(),
    );
}

#[test]
fn i64_serde_works() {
    const TEST_NUM: i64 = 100_000_000;
    serde_round_trip(
        XbfPrimitive::I64(TEST_NUM),
        XbfPrimitiveMetadata::I64,
        &TEST_NUM.to_le_bytes(),
    );
}

#[test]
fn i128_serde_works() {
    const TEST_NUM: i128 = 18_446_744_073_709_551_617;
    serde_round_trip(
        XbfPrimitive::I128(TEST_NUM),
        XbfPrimitiveMetadata::I128,
        &TEST_NUM.to_le_bytes(),
    );
}

#[test]
fn primitive_test_i256_serde_works() {
    const TEST_NUM: [u64; 4] = [1, 2, 3, 4];
    let primitive = XbfPrimitive::I256(TEST_NUM);
    let mut writer = Vec::new();

    primitive.serialize_primitive_type(&mut writer);

    let expected = TEST_NUM
        .iter()
        .flat_map(|x| x.to_le_bytes())
        .collect::<Vec<_>>();
    assert_eq!(writer, expected);

    let mut reader = Reader::new(&writer);
    let deserialized = XbfType::deserialize_base_type(
        &XbfMetadata::Primitive(XbfPrimitiveMetadata::I256),
        &mut reader,
    )
    .unwrap();
    assert_eq!(deserialized, primitive.to_base_type());
}

#[test]
fn f32_serde_works() {
    const TEST_NUM: f32 = 69.0;
    serde_round_trip(
        XbfPrimitive::F32(TEST_NUM.to_bits()),
        XbfPrimitiveMetadata::F32,
        &TEST_NUM.to_le_bytes(),
    );
}

#[test]
fn f64_serde_works() {
    const TEST_NUM: f64 = 69.0;
    serde_round_trip(
        XbfPrimitive::F64(TEST_NUM.to_bits()),
        XbfPrimitiveMetadata::F64,
        &TEST_NUM.to_le_bytes(),
    );
}

#[test]
fn primitive_test_string_serialize_works() {
    let test_string = "hello world".to_string();
    let primitive = XbfPrimitive::String(test_string.clone());
    let mut writer = vec![];

    primitive.serialize_primitive_type(&mut writer);

    let mut expected = vec![];
    expected.extend_from_slice(&(test_string.len() as u16).to_le_bytes());
    expected.extend_from_slice(test_string.as_bytes());

    assert_eq!(writer, expected);
}

#[test]
fn string_deserialize_works() {
    let test_string = "hello world".to_string();
    let mut data = (test_string.len() as u16).to_le_bytes().to_vec();
    data.extend_from_slice(test_string.as_bytes());

    let mut reader = Reader::new(&data);

    let metadata = XbfMetadata::Primitive(XbfPrimitiveMetadata::String);
    let expected = XbfType::Primitive(XbfPrimitive::String(test_string.clone()));

    let primitive = XbfType::deserialize_base_type(&metadata, &mut reader).unwrap();
    assert_eq!(primitive, expected);
}

#[test]
fn truncated_primitive_reports_unexpected_end() {
    let data = vec![1u8, 2, 3];
    let mut reader = Reader::new(&data);
    let res = XbfType::deserialize_base_type(
        &XbfMetadata::Primitive(XbfPrimitiveMetadata::U32),
        &mut reader,
    );
    assert_eq!(res.unwrap_err(), DecodeError::UnexpectedEnd);
}

#[test]
fn invalid_text_reports_decode_error() {
    // A length prefix of 2 followed by an invalid UTF-8 sequence.
    let data = vec![2u8, 0, 0xff, 0xfe];
    let mut reader = Reader::new(&data);
    let res = XbfType::deserialize_base_type(
        &XbfMetadata::Primitive(XbfPrimitiveMetadata::String),
        &mut reader,
    );
    assert_eq!(res.unwrap_err(), DecodeError::InvalidText);
}

#[test]
fn non_ascii_text_round_trips() {
    let text = "héllo wörld — ☃".to_string();
    let primitive = XbfPrimitive::String(text.clone());
    let mut writer = vec![];
    primitive.serialize_primitive_type(&mut writer);

    assert_eq!(writer[0] as usize + 256 * writer[1] as usize, text.len());

    let mut reader = Reader::new(&writer);
    let decoded = XbfType::deserialize_base_type(
        &XbfMetadata::Primitive(XbfPrimitiveMetadata::String),
        &mut reader,
    )
    .unwrap();
    assert_eq!(decoded, XbfType::Primitive(XbfPrimitive::String(text)));
}
