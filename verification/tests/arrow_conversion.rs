use std::sync::Arc;

use arrow_ipc::convert::IpcSchemaEncoder;
use arrow_ipc::FieldArgs;
use arrow_ipc::MessageArgs;
use arrow_ipc::MessageHeader;
use arrow_ipc::NullArgs;
use arrow_ipc::SchemaArgs;
use arrow_ipc::UnionArgs;
use arrow_schema::DataType;
use arrow_schema::Field;
use arrow_schema::Schema;
use base64::prelude::BASE64_STANDARD;
use base64::Engine;
use databend_core::arrow_conversion::infer_schema_with_extension;
use databend_core::arrow_conversion::is_convertible;
use databend_core::error::ErrorCode;
use parquet::arrow::encode_arrow_schema;
use parquet::arrow::ArrowSchemaConverter;
use parquet::basic::ConvertedType;
use parquet::basic::Repetition;
use parquet::basic::Type as PhysicalType;
use parquet::file::metadata::FileMetaData;
use parquet::file::metadata::KeyValue;
use parquet::file::metadata::ParquetMetaData;
use parquet::schema::types::SchemaDescriptor;
use parquet::schema::types::Type;

fn primitive(name: &str, repetition: Repetition) -> Type {
    Type::primitive_type_builder(name, PhysicalType::INT32)
        .with_repetition(repetition)
        .build()
        .unwrap()
}

fn group(
    name: &str,
    repetition: Option<Repetition>,
    converted_type: ConvertedType,
    fields: Vec<Type>,
) -> Type {
    let mut builder = Type::group_type_builder(name)
        .with_converted_type(converted_type)
        .with_fields(fields.into_iter().map(Arc::new).collect());
    if let Some(repetition) = repetition {
        builder = builder.with_repetition(repetition);
    }
    builder.build().unwrap()
}

fn root(fields: Vec<Type>) -> Type {
    group("root", None, ConvertedType::NONE, fields)
}

fn meta(root: Type, key_values: Vec<(&str, Option<String>)>) -> ParquetMetaData {
    let key_values = key_values
        .into_iter()
        .map(|(key, value)| KeyValue { key: key.to_string(), value })
        .collect();
    let schema = SchemaDescriptor::new(Arc::new(root));
    let file_metadata = FileMetaData::new(1, 0, None, Some(key_values), Arc::new(schema), None);
    ParquetMetaData::new(file_metadata, vec![])
}

fn assert_refused(meta: &ParquetMetaData) {
    assert!(!is_convertible(meta));
    match infer_schema_with_extension(meta) {
        Err(ErrorCode::BadBytes(text)) => assert_eq!(
            text,
            "Invalid Parquet file. Schema cannot be converted to an Arrow schema."
        ),
        other => panic!("{:?}", other),
    }
}

/// An embedded schema of one field. It is a union of `n` fields without type ids, or a
/// field of another type with such a union as its only field.
fn embedded_union(outer: Option<arrow_ipc::Type>, n: usize) -> String {
    let mut builder = IpcSchemaEncoder::new().schema_to_fb(&Schema::empty());
    builder.reset();
    let mut children = vec![];
    for _ in 0..n {
        let null = arrow_ipc::Null::create(&mut builder, &NullArgs {});
        children.push(arrow_ipc::Field::create(&mut builder, &FieldArgs {
            type_type: arrow_ipc::Type::Null,
            type_: Some(null.as_union_value()),
            ..Default::default()
        }));
    }
    let children = builder.create_vector(&children);
    let union = arrow_ipc::Union::create(&mut builder, &UnionArgs::default());
    let mut field = arrow_ipc::Field::create(&mut builder, &FieldArgs {
        type_type: arrow_ipc::Type::Union,
        type_: Some(union.as_union_value()),
        children: Some(children),
        ..Default::default()
    });
    if let Some(type_type) = outer {
        let children = builder.create_vector(&[field]);
        // All these types have tables without fields of their own.
        let table = arrow_ipc::Null::create(&mut builder, &NullArgs {});
        field = arrow_ipc::Field::create(&mut builder, &FieldArgs {
            type_type,
            type_: Some(table.as_union_value()),
            children: Some(children),
            ..Default::default()
        });
    }
    let fields = builder.create_vector(&[field]);
    let schema = arrow_ipc::Schema::create(&mut builder, &SchemaArgs {
        fields: Some(fields),
        ..Default::default()
    });
    let message = arrow_ipc::Message::create(&mut builder, &MessageArgs {
        header_type: MessageHeader::Schema,
        header: Some(schema.as_union_value()),
        ..Default::default()
    });
    builder.finish(message, None);
    let mut bytes = vec![255, 255, 255, 255];
    bytes.extend_from_slice(&(builder.finished_data().len() as u32).to_le_bytes());
    bytes.extend_from_slice(builder.finished_data());
    BASE64_STANDARD.encode(&bytes)
}

fn assert_outside_error(meta: &ParquetMetaData) {
    assert!(is_convertible(meta));
    assert!(matches!(infer_schema_with_extension(meta), Err(ErrorCode::Parquet(_))));
}

#[test]
fn a_plain_schema_is_converted() {
    let meta = meta(root(vec![primitive("a", Repetition::REQUIRED)]), vec![]);
    assert!(is_convertible(&meta));
    assert_eq!(
        infer_schema_with_extension(&meta).unwrap(),
        Schema::new(vec![Field::new("a", DataType::Int32, false)])
    );
}

#[test]
fn lists_and_maps_are_converted() {
    let arrow = Schema::new(vec![
        Field::new_list("l", Field::new_list_field(DataType::Int32, true), true),
        Field::new_map(
            "m",
            "entries",
            Field::new("key", DataType::Int32, false),
            Field::new("value", DataType::Int32, true),
            false,
            true,
        ),
    ]);
    let schema = ArrowSchemaConverter::new().convert(&arrow).unwrap();
    let key_values = vec![("ARROW:schema", Some(encode_arrow_schema(&arrow)))];
    let meta = meta(schema.root_schema().clone(), key_values);
    assert!(is_convertible(&meta));
    assert_eq!(infer_schema_with_extension(&meta).unwrap().fields(), arrow.fields());
}

#[test]
fn a_map_without_values_is_a_list_of_its_keys() {
    let key = || vec![primitive("key", Repetition::REQUIRED)];
    let entries = || group("map", Some(Repetition::REPEATED), ConvertedType::MAP_KEY_VALUE, key());
    for converted_type in [ConvertedType::MAP, ConvertedType::LIST] {
        let map = group("m", Some(Repetition::OPTIONAL), converted_type, vec![entries()]);
        let meta = meta(root(vec![map]), vec![]);
        assert!(is_convertible(&meta));
        let schema = infer_schema_with_extension(&meta).unwrap();
        match schema.field(0).data_type() {
            DataType::List(item) => assert_eq!(*item.data_type(), DataType::Int32),
            other => panic!("{:?}", other),
        }
    }
}

#[test]
fn a_map_of_a_lone_primitive_is_refused() {
    for converted_type in [ConvertedType::MAP, ConvertedType::MAP_KEY_VALUE] {
        let in_group = |repetition: Repetition, child: Repetition| {
            let map = group("m", Some(repetition), converted_type, vec![primitive("k", child)]);
            let outer = group("o", Some(Repetition::OPTIONAL), ConvertedType::NONE, vec![
                primitive("a", Repetition::REQUIRED),
                map,
            ]);
            meta(root(vec![outer]), vec![])
        };
        assert_refused(&in_group(Repetition::REQUIRED, Repetition::REPEATED));
        assert_refused(&in_group(Repetition::OPTIONAL, Repetition::REPEATED));
        // These are reported by the conversion itself.
        assert_outside_error(&in_group(Repetition::REQUIRED, Repetition::OPTIONAL));
        assert_outside_error(&in_group(Repetition::REPEATED, Repetition::REPEATED));
    }
}

#[test]
fn a_map_of_other_than_keys_and_values_is_an_error() {
    let three = || {
        vec![
            primitive("a", Repetition::REQUIRED),
            primitive("b", Repetition::REQUIRED),
            primitive("c", Repetition::REQUIRED),
        ]
    };
    let entries = group("e", Some(Repetition::REPEATED), ConvertedType::NONE, three());
    let map = group("m", Some(Repetition::REQUIRED), ConvertedType::MAP, vec![entries]);
    assert_outside_error(&meta(root(vec![map]), vec![]));
}

#[test]
fn a_root_that_is_no_struct_is_refused() {
    let repeated = || vec![primitive("a", Repetition::REPEATED)];
    let required = || vec![primitive("a", Repetition::REQUIRED)];
    let embedded = || {
        let arrow = Schema::new(vec![Field::new("a", DataType::Int32, false)]);
        vec![("ARROW:schema", Some(encode_arrow_schema(&arrow)))]
    };
    for converted_type in [ConvertedType::LIST, ConvertedType::MAP, ConvertedType::MAP_KEY_VALUE] {
        let of = |fields: Vec<Type>| meta(group("root", None, converted_type, fields), vec![]);
        assert_refused(&of(repeated()));
        // These are reported by the conversion itself.
        assert_outside_error(&of(required()));
        assert_outside_error(&of(vec![]));
    }
    let stated = |converted_type: ConvertedType, occurs: Repetition, fields: Vec<Type>| {
        group("root", Some(occurs), converted_type, fields)
    };
    let list = || stated(ConvertedType::LIST, Repetition::REQUIRED, repeated());
    assert_refused(&meta(list(), vec![]));
    assert_outside_error(&meta(list(), embedded()));
    let many = || stated(ConvertedType::NONE, Repetition::REPEATED, required());
    assert_refused(&meta(many(), vec![]));
    assert_outside_error(&meta(many(), embedded()));
    let none = meta(stated(ConvertedType::NONE, Repetition::REPEATED, vec![]), vec![]);
    assert!(infer_schema_with_extension(&none).unwrap().fields().is_empty());
    let one = meta(stated(ConvertedType::NONE, Repetition::REQUIRED, repeated()), vec![]);
    assert_eq!(infer_schema_with_extension(&one).unwrap().fields().len(), 1);
}

#[test]
fn an_embedded_union_that_is_too_wide_is_refused() {
    let with = |pairs: Vec<(&'static str, Option<String>)>| {
        meta(root(vec![primitive("a", Repetition::REQUIRED)]), pairs)
    };
    let wide = || Some(embedded_union(None, 129));
    let narrow = || Some(embedded_union(None, 128));
    assert_refused(&with(vec![("other", None), ("ARROW:schema", wide())]));
    // The union does not match the column.
    assert_outside_error(&with(vec![("ARROW:schema", narrow())]));
    // Only an embedded schema is looked at, and only the last one that has a value.
    assert!(infer_schema_with_extension(&with(vec![("other", wide())])).is_ok());
    assert_outside_error(&with(vec![("ARROW:schema", wide()), ("ARROW:schema", narrow())]));
    assert_refused(&with(vec![("ARROW:schema", narrow()), ("ARROW:schema", wide())]));
    assert_refused(&with(vec![("ARROW:schema", wide()), ("ARROW:schema", None)]));
    // The fields of a list and a struct are read, those of a text are not.
    for outer in [arrow_ipc::Type::List, arrow_ipc::Type::Struct_] {
        let text = embedded_union(Some(outer), 129);
        assert_refused(&with(vec![("ARROW:schema", Some(text))]));
    }
    let text = embedded_union(Some(arrow_ipc::Type::Utf8), 129);
    let unread = with(vec![("ARROW:schema", Some(text))]);
    assert!(is_convertible(&unread));
}

#[test]
fn an_embedded_schema_that_cannot_be_read_is_an_error() {
    for text in ["?", "AAAA", "/////wAAAAAAAAAA"] {
        let columns = root(vec![primitive("a", Repetition::REQUIRED)]);
        let meta = meta(columns, vec![("ARROW:schema", Some(text.to_string()))]);
        assert!(is_convertible(&meta));
        let error = infer_schema_with_extension(&meta).unwrap_err();
        assert!(matches!(error, ErrorCode::Parquet(_)));
        assert!(error.message().starts_with("Arrow: "), "{}", error.message());
    }
}
