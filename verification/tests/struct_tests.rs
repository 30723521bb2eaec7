//! Struct construction, metadata serialization and round trips.

use xbf::{
    DecodeError, Reader, XbfMetadata, XbfPrimitive, XbfPrimitiveMetadata, XbfStruct,
    XbfStructMetadata, XbfType, XbfVec, XbfVecMetadata, STRUCT_METADATA_DISCRIMINANT,
    VEC_METADATA_DISCRIMINANT,
};

fn push_text(out: &mut Vec<u8>, s: &str) {
    out.extend_from_slice(&(s.len() as u16).to_le_bytes());
    out.extend_from_slice(s.as_bytes());
}

#[test]
fn metadata_serde_works() {
    let metadata = XbfStructMetadata::new(
        "test".to_string(),
        vec![
            (
                "a".to_string(),
                XbfMetadata::Primitive(XbfPrimitiveMetadata::I32),
            ),
            (
                "b".to_string(),
                XbfMetadata::Vec(XbfVecMetadata::new(XbfPrimitiveMetadata::I32.into())),
            ),
            (
                "c".to_string(),
                XbfMetadata::Struct(XbfStructMetadata::new(
                    "inner".to_string(),
                    vec![(
                        "d".to_string(),
                        XbfMetadata::Primitive(XbfPrimitiveMetadata::I32),
                    )],
                )),
            ),
        ],
    );

    let mut writer = Vec::new();
    metadata.serialize_struct_metadata(&mut writer);

    let mut expected = Vec::new();
    // discriminant
    expected.push(STRUCT_METADATA_DISCRIMINANT);
    // name
    push_text(&mut expected, "test");
    // number of fields
    expected.extend_from_slice(&3u16.to_le_bytes());
    // field a
    push_text(&mut expected, "a");
    expected.push(9);
    // field b
    push_text(&mut expected, "b");
    expected.push(VEC_METADATA_DISCRIMINANT);
    expected.push(9);
    // field c, a struct, so struct layout again
    push_text(&mut expected, "c");
    expected.push(STRUCT_METADATA_DISCRIMINANT);
    push_text(&mut expected, "inner");
    expected.extend_from_slice(&1u16.to_le_bytes());
    push_text(&mut expected, "d");
    expected.push(9);

    assert_eq!(expected, writer);

    let mut reader = Reader::new(&writer);
    let deserialized = XbfMetadata::deserialize_base_metadata(&mut reader).unwrap();
    assert_eq!(XbfMetadata::Struct(metadata), deserialized);
}

#[test]
fn struct_metadata_upcast_works() {
    let struct_metadata = XbfStructMetadata::new(
        "test_struct".to_string(),
        vec![("field1".to_string(), XbfPrimitiveMetadata::I32.into())],
    );
    let struct_metadata_ref = &struct_metadata;

    assert_eq!(
        XbfMetadata::Struct(struct_metadata.clone()),
        struct_metadata_ref.to_base_metadata()
    );
    assert_eq!(
        XbfMetadata::Struct(struct_metadata.clone()),
        struct_metadata.into_base_metadata()
    );
}

#[test]
fn test_struct_new_works() {
    let name = "test_struct";
    let field1_name = "a";
    let field2_name = "b";

    let metadata = XbfStructMetadata::new(
        name.to_string(),
        vec![
            (
                field1_name.to_string(),
                XbfPrimitiveMetadata::I32.into_base_metadata(),
            ),
            (
                field2_name.to_string(),
                XbfPrimitiveMetadata::U64.into_base_metadata(),
            ),
        ],
    );

    let with_correct_fields = XbfStruct::new(
        metadata,
        vec![
            XbfPrimitive::I32(42).into_base_type(),
            XbfPrimitive::U64(69).into_base_type(),
        ],
    );

    assert!(with_correct_fields.is_ok());
    with_correct_fields.expect("a valid struct");
}

#[test]
fn test_struct_new_failure_works() {
    let name = "test_struct";
    let field1_name = "a";
    let field2_name = "b";

    let metadata = XbfStructMetadata::new(
        name.to_string(),
        vec![
            (
                field1_name.to_string(),
                XbfPrimitiveMetadata::I32.into_base_metadata(),
            ),
            (
                field2_name.to_string(),
                XbfPrimitiveMetadata::U64.into_base_metadata(),
            ),
        ],
    );

    let with_wrong_field1_type = XbfStruct::new(
        metadata,
        vec![
            XbfPrimitive::String("hi".to_string()).into_base_type(),
            XbfPrimitive::U64(69).into_base_type(),
        ],
    );

    assert!(with_wrong_field1_type.is_err());
    assert_eq!(
        with_wrong_field1_type.unwrap_err().message(),
        xbf::StructFieldMismatchError::new(
            field1_name,
            &XbfPrimitiveMetadata::I32.into_base_metadata(),
            &XbfPrimitiveMetadata::String.into_base_metadata()
        )
        .message()
    );
}

#[test]
fn test_struct_new_unchecked_works() {
    let name = "test_struct";
    let field1_name = "a";
    let field2_name = "b";

    let metadata = XbfStructMetadata::new(
        name.to_string(),
        vec![
            (
                field1_name.to_string(),
                XbfPrimitiveMetadata::String.into_base_metadata(),
            ),
            (
                field2_name.to_string(),
                XbfPrimitiveMetadata::U256.into_base_metadata(),
            ),
        ],
    );

    let _blatantly_wrong_fields = XbfStruct::new_unchecked(
        metadata,
        vec![
            XbfPrimitive::I32(42).into_base_type(),
            XbfPrimitive::U64(69).into_base_type(),
        ],
    );
}

#[test]
fn test_struct_serde_works() {
    let primitive_metadata = XbfMetadata::Primitive(XbfPrimitiveMetadata::I32);
    let vec_metadata = XbfMetadata::Vec(XbfVecMetadata::new(XbfPrimitiveMetadata::I32.into()));
    let inner_struct_metadata = XbfStructMetadata::new(
        "test_struct".to_string(),
        vec![(
            "a".to_string(),
            XbfMetadata::Primitive(XbfPrimitiveMetadata::I32),
        )],
    );
    let outer_metadata = XbfStructMetadata::new(
        "test".to_string(),
        vec![
            ("a".to_string(), primitive_metadata),
            ("b".to_string(), vec_metadata),
            ("c".to_string(), inner_struct_metadata.to_base_metadata()),
        ],
    );

    let primitive = XbfPrimitive::I32(42);
    let vec = XbfVec::new_unchecked(
        XbfVecMetadata::new(XbfPrimitiveMetadata::I32.into()),
        vec![primitive.to_base_type()],
    );
    let inner_struct = XbfStruct::new(inner_struct_metadata, vec![primitive.to_base_type()])
        .expect("a valid struct");
    let my_struct = XbfStruct::new(
        outer_metadata.clone(),
        vec![
            primitive.clone().into(),
            vec.clone().into(),
            inner_struct.clone().into(),
        ],
    )
    .expect("a valid struct");

    let mut writer = vec![];
    my_struct.serialize_struct_type(&mut writer);

    let mut expected = vec![];
    primitive.serialize_primitive_type(&mut expected);
    vec.serialize_vec_type(&mut expected);
    inner_struct.serialize_struct_type(&mut expected);

    assert_eq!(writer, expected);

    // A vector's value encoding carries no element count, so a struct
    // holding a vector field cannot be decoded back: the decoder reports
    // that the count is missing.
    let mut reader = Reader::new(&writer);
    let deserialized = XbfStruct::deserialize_struct_type(&outer_metadata, &mut reader);
    assert_eq!(deserialized.unwrap_err(), DecodeError::MissingVecLength);
}

#[test]
fn struct_without_vec_fields_serde_round_trips() {
    let inner_metadata = XbfStructMetadata::new(
        "inner".to_string(),
        vec![(
            "d".to_string(),
            XbfMetadata::Primitive(XbfPrimitiveMetadata::U16),
        )],
    );
    let outer_metadata = XbfStructMetadata::new(
        "outer".to_string(),
        vec![
            (
                "a".to_string(),
                XbfMetadata::Primitive(XbfPrimitiveMetadata::I32),
            ),
            ("c".to_string(), inner_metadata.to_base_metadata()),
            (
                "s".to_string(),
                XbfMetadata::Primitive(XbfPrimitiveMetadata::String),
            ),
        ],
    );

    let inner = XbfStruct::new(
        inner_metadata,
        vec![XbfPrimitive::U16(7).into_base_type()],
    )
    .expect("a valid struct");
    let outer = XbfStruct::new(
        outer_metadata.clone(),
        vec![
            XbfPrimitive::I32(-5).into_base_type(),
            inner.into_base_type(),
            XbfPrimitive::String("hi".to_string()).into_base_type(),
        ],
    )
    .expect("a valid struct");

    let mut writer = vec![];
    outer.serialize_struct_type(&mut writer);

    let mut reader = Reader::new(&writer);
    let decoded = XbfStruct::deserialize_struct_type(&outer_metadata, &mut reader).unwrap();
    assert_eq!(decoded, outer);
    assert_eq!(reader.current_position(), writer.len());
}

#[test]
fn struct_type_upcast_works() {
    let my_struct = XbfStruct::new(
        XbfStructMetadata::new(
            "my_struct".to_string(),
            vec![("field1".to_string(), XbfPrimitiveMetadata::I32.into())],
        ),
        vec![XbfPrimitive::I32(42).into()],
    )
    .expect("a valid struct");
    let struct_ref = &my_struct;

    assert_eq!(
        XbfType::Struct(my_struct.clone()),
        struct_ref.to_base_type()
    );
    assert_eq!(
        XbfType::Struct(my_struct.clone()),
        my_struct.into_base_type()
    );
}

#[test]
fn get_metadata_returns_declared_shape() {
    let metadata = XbfStructMetadata::new(
        "test_struct".to_string(),
        vec![("a".to_string(), XbfPrimitiveMetadata::I32.into())],
    );
    let val = XbfStruct::new(metadata.clone(), vec![XbfPrimitive::I32(42).into()])
        .expect("a valid struct");
    assert_eq!(val.get_metadata(), metadata);
}

#[test]
fn mismatch_message_names_field_and_shapes() {
    let metadata = XbfStructMetadata::new(
        "p".to_string(),
        vec![("a".to_string(), XbfPrimitiveMetadata::I32.into())],
    );
    let err = XbfStruct::new(
        metadata,
        vec![XbfPrimitive::String("oops".to_string()).into_base_type()],
    )
    .unwrap_err();
    let msg = err.message();
    assert!(msg.contains("a"));
    assert!(msg.contains("I32"));
    assert!(msg.contains("String"));
}
