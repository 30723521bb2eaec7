//! Format-level scenarios: the tag space, exact wire bytes, shape
//! derivation through a round trip, and the decode errors.

use xbf::{
    DecodeError, Reader, XbfMetadata, XbfPrimitive, XbfPrimitiveMetadata, XbfStruct,
    XbfStructMetadata, XbfType, XbfVec, XbfVecMetadata, STRUCT_METADATA_DISCRIMINANT,
    VEC_METADATA_DISCRIMINANT,
};

fn push_len_prefixed(out: &mut Vec<u8>, s: &str) {
    out.extend_from_slice(&(s.len() as u16).to_le_bytes());
    out.extend_from_slice(s.as_bytes());
}

#[test]
fn discriminant_space_has_no_collisions() {
    let kinds = [
        XbfPrimitiveMetadata::Bool,
        XbfPrimitiveMetadata::U8,
        XbfPrimitiveMetadata::U16,
        XbfPrimitiveMetadata::U32,
        XbfPrimitiveMetadata::U64,
        XbfPrimitiveMetadata::U128,
        XbfPrimitiveMetadata::U256,
        XbfPrimitiveMetadata::I8,
        XbfPrimitiveMetadata::I16,
        XbfPrimitiveMetadata::I32,
        XbfPrimitiveMetadata::I64,
        XbfPrimitiveMetadata::I128,
        XbfPrimitiveMetadata::I256,
        XbfPrimitiveMetadata::F32,
        XbfPrimitiveMetadata::F64,
        XbfPrimitiveMetadata::String,
    ];
    let mut seen = vec![];
    for k in kinds.iter() {
        let d = k.discriminant();
        assert!(!seen.contains(&d));
        assert!(d < VEC_METADATA_DISCRIMINANT);
        assert!(d != STRUCT_METADATA_DISCRIMINANT);
        seen.push(d);
    }
    assert_eq!(
        STRUCT_METADATA_DISCRIMINANT,
        VEC_METADATA_DISCRIMINANT + 1
    );
}

#[test]
fn record_scenario_exact_bytes() {
    let metadata = XbfStructMetadata::new(
        "p".to_string(),
        vec![
            ("x".to_string(), XbfPrimitiveMetadata::I32.into()),
            ("y".to_string(), XbfPrimitiveMetadata::U64.into()),
        ],
    );
    let record = XbfStruct::new(
        metadata.clone(),
        vec![
            XbfPrimitive::I32(42).into(),
            XbfPrimitive::U64(7).into(),
        ],
    )
    .expect("a valid struct");

    let mut meta_bytes = vec![];
    metadata.serialize_struct_metadata(&mut meta_bytes);

    let mut expected_meta = vec![STRUCT_METADATA_DISCRIMINANT];
    push_len_prefixed(&mut expected_meta, "p");
    expected_meta.extend_from_slice(&2u16.to_le_bytes());
    push_len_prefixed(&mut expected_meta, "x");
    expected_meta.push(XbfPrimitiveMetadata::I32.discriminant());
    push_len_prefixed(&mut expected_meta, "y");
    expected_meta.push(XbfPrimitiveMetadata::U64.discriminant());
    assert_eq!(meta_bytes, expected_meta);

    let mut value_bytes = vec![];
    record.serialize_struct_type(&mut value_bytes);

    let mut expected_value = vec![];
    expected_value.extend_from_slice(&42i32.to_le_bytes());
    expected_value.extend_from_slice(&7u64.to_le_bytes());
    assert_eq!(value_bytes, expected_value);
}

#[test]
fn bool_wire_bytes_and_lenient_decode() {
    let mut bytes = vec![];
    XbfPrimitive::Bool(true).serialize_primitive_type(&mut bytes);
    assert_eq!(bytes, vec![1]);

    bytes.clear();
    XbfPrimitive::Bool(false).serialize_primitive_type(&mut bytes);
    assert_eq!(bytes, vec![0]);

    // Any non-zero byte reads as true.
    let data = vec![2u8];
    let mut reader = Reader::new(&data);
    let decoded = XbfPrimitive::deserialize_primitive_type(
        &XbfPrimitiveMetadata::Bool,
        &mut reader,
    )
    .unwrap();
    assert_eq!(decoded, XbfPrimitive::Bool(true));
}

#[test]
fn metadata_round_trip_at_depth_three() {
    // A vector of structs whose field is a vector of structs: nesting of
    // depth three across both composite families.
    let innermost = XbfStructMetadata::new(
        "leaf".to_string(),
        vec![("v".to_string(), XbfPrimitiveMetadata::U128.into())],
    );
    let middle = XbfStructMetadata::new(
        "mid".to_string(),
        vec![
            (
                "xs".to_string(),
                XbfVecMetadata::new(innermost.into_base_metadata()).into_base_metadata(),
            ),
            ("flag".to_string(), XbfPrimitiveMetadata::Bool.into()),
        ],
    );
    let outer = XbfMetadata::Vec(XbfVecMetadata::new(middle.into_base_metadata()));

    let mut bytes = vec![];
    outer.serialize_base_metadata(&mut bytes);

    let mut reader = Reader::new(&bytes);
    let decoded = XbfMetadata::deserialize_base_metadata(&mut reader).unwrap();
    assert_eq!(decoded, outer);
    assert_eq!(reader.current_position(), bytes.len());
}

#[test]
fn metadata_of_survives_a_round_trip() {
    let metadata = XbfStructMetadata::new(
        "pt".to_string(),
        vec![
            ("x".to_string(), XbfPrimitiveMetadata::I32.into()),
            ("s".to_string(), XbfPrimitiveMetadata::String.into()),
        ],
    );
    let value: XbfType = XbfStruct::new(
        metadata,
        vec![
            XbfPrimitive::I32(42).into(),
            XbfPrimitive::String("q".to_string()).into(),
        ],
    )
    .expect("a valid struct")
    .into_base_type();

    let derived = value.metadata_of();

    let mut bytes = vec![];
    value.serialize_base_type(&mut bytes);

    let mut reader = Reader::new(&bytes);
    let decoded = XbfType::deserialize_base_type(&derived, &mut reader).unwrap();
    assert_eq!(decoded.metadata_of(), derived);
    assert_eq!(decoded, value);
    assert_eq!(reader.current_position(), bytes.len());
}

#[test]
fn unrecognized_discriminant_is_fatal() {
    for d in [18u8, 100u8, 255u8] {
        let data = vec![d];
        let mut reader = Reader::new(&data);
        let res = XbfMetadata::deserialize_base_metadata(&mut reader);
        assert_eq!(res.unwrap_err(), DecodeError::UnrecognizedDiscriminant(d));
    }
}

#[test]
fn exhausted_metadata_stream_reports_unexpected_end() {
    let data: Vec<u8> = vec![];
    let mut reader = Reader::new(&data);
    let res = XbfMetadata::deserialize_base_metadata(&mut reader);
    assert_eq!(res.unwrap_err(), DecodeError::UnexpectedEnd);

    // A struct tag whose body is cut short fails the same way.
    let data = vec![STRUCT_METADATA_DISCRIMINANT, 4, 0, b'a'];
    let mut reader = Reader::new(&data);
    let res = XbfMetadata::deserialize_base_metadata(&mut reader);
    assert_eq!(res.unwrap_err(), DecodeError::UnexpectedEnd);
}

#[test]
fn vec_value_needs_out_of_band_count() {
    let vm = XbfVecMetadata::new(XbfPrimitiveMetadata::U8.into());
    let v = XbfVec::new(
        vm.clone(),
        vec![
            XbfPrimitive::U8(1).into(),
            XbfPrimitive::U8(2).into(),
            XbfPrimitive::U8(3).into(),
        ],
    )
    .expect("a homogeneous vector");

    let mut bytes = vec![];
    v.serialize_vec_type(&mut bytes);
    // No count prefix and no framing: just the three elements.
    assert_eq!(bytes, vec![1, 2, 3]);

    // The unified entry point cannot know the count.
    let mut reader = Reader::new(&bytes);
    let res = XbfType::deserialize_base_type(&XbfMetadata::Vec(vm.clone()), &mut reader);
    assert_eq!(res.unwrap_err(), DecodeError::MissingVecLength);

    // With the count supplied out of band the elements come back.
    let mut reader = Reader::new(&bytes);
    let decoded = XbfVec::deserialize_vec_type(&vm, 3, &mut reader).unwrap();
    assert_eq!(decoded, v);
}

#[test]
fn vec_checked_construction_rejects_mismatches() {
    let vm = XbfVecMetadata::new(XbfPrimitiveMetadata::U8.into());
    let ok = XbfVec::new(
        vm.clone(),
        vec![XbfPrimitive::U8(1).into(), XbfPrimitive::U8(2).into()],
    );
    assert!(ok.is_ok());

    let mixed = XbfVec::new(
        vm,
        vec![XbfPrimitive::U8(1).into(), XbfPrimitive::I8(2).into()],
    );
    let err = mixed.unwrap_err();
    assert_eq!(
        err.expected,
        XbfMetadata::Primitive(XbfPrimitiveMetadata::U8)
    );
    assert_eq!(err.actual, XbfMetadata::Primitive(XbfPrimitiveMetadata::I8));
}

#[test]
fn consumed_length_equals_produced_length() {
    let values: Vec<XbfPrimitive> = vec![
        XbfPrimitive::Bool(true),
        XbfPrimitive::U8(7),
        XbfPrimitive::U16(513),
        XbfPrimitive::I64(-1),
        XbfPrimitive::U256([u64::MAX, 0, 1, 2]),
        XbfPrimitive::String("δοκιμή".to_string()),
    ];
    for p in values {
        let kind = XbfPrimitiveMetadata::from(&p);
        let mut bytes = vec![];
        p.serialize_primitive_type(&mut bytes);
        let mut reader = Reader::new(&bytes);
        let decoded = XbfPrimitive::deserialize_primitive_type(&kind, &mut reader).unwrap();
        assert_eq!(decoded, p);
        assert_eq!(reader.current_position(), bytes.len());
    }
}
