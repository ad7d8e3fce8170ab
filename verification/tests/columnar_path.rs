use log_ingest::columnar::{process_columnar, Column, ColumnarError};
use log_ingest::schema::{DataType, Field, StreamSchema};
use log_ingest::value::Value;

const NOW: i64 = 1_700_000_000_000_000;

fn obj(fields: Vec<(&str, Value)>) -> Value {
    Value::Obj(fields.into_iter().map(|(k, v)| (k.to_string(), v)).collect())
}

fn field(name: &str, dt: DataType) -> Field {
    Field { name: name.to_string(), data_type: dt, nullable: true }
}

#[test]
fn uniform_request_level_timestamp_in_column_zero() {
    let records = vec![
        obj(vec![("x", Value::Int(1)), ("_timestamp", Value::Int(1))]),
        obj(vec![("x", Value::Int(2))]),
        obj(vec![("x", Value::Int(3))]),
    ];
    let out = process_columnar(&records, None, NOW, 999).unwrap();
    assert_eq!(out.batch.num_rows, 3);
    assert_eq!(out.batch.byte_size, 999);
    assert_eq!(out.batch.capacity, 64);
    match &out.batch.columns[0] {
        Column::Int64(vals) => {
            assert_eq!(vals.len(), 3);
            for v in vals {
                assert_eq!(*v, Some(NOW));
            }
        },
        _ => panic!("column zero must be the event-time column"),
    }
}

#[test]
fn timestamp_field_forced_to_position_zero() {
    let records = vec![obj(vec![("x", Value::Int(1))])];
    let out = process_columnar(&records, None, NOW, 0).unwrap();
    assert_eq!(out.schema.fields[0].name, "_timestamp");
    assert_eq!(out.schema.fields[0].data_type, DataType::Int64);
    assert!(out.schema.fields[0].nullable);
    assert_eq!(out.schema.fields[1].name, "x");
    assert_eq!(out.schema.fields[1].data_type, DataType::Int64);
}

#[test]
fn merge_conflict_is_fatal_and_atomic() {
    let existing = StreamSchema {
        fields: vec![field("_timestamp", DataType::Int64), field("x", DataType::Int64)],
        metadata: vec![],
    };
    let records = vec![obj(vec![("x", Value::Str("s".to_string()))])];
    match process_columnar(&records, Some(existing), NOW, 0) {
        Err(ColumnarError::MergeConflict(name)) => assert_eq!(name, "x"),
        _ => panic!("a type conflict must fail the whole request"),
    }
}

#[test]
fn existing_schema_stays_authoritative_on_clean_merge() {
    let existing = StreamSchema {
        fields: vec![
            field("_timestamp", DataType::Int64),
            field("x", DataType::Float64),
        ],
        metadata: vec![],
    };
    let records = vec![obj(vec![("x", Value::Int(4)), ("y", Value::Bool(true))])];
    let out = process_columnar(&records, Some(existing), NOW, 0).unwrap();
    // The inferred Int64 for x widens cleanly; the declared Float64 wins.
    assert_eq!(out.schema.fields.len(), 2);
    assert_eq!(out.schema.fields[1].name, "x");
    assert_eq!(out.schema.fields[1].data_type, DataType::Float64);
    assert!(!out.persist_schema);
    match &out.batch.columns[1] {
        Column::Float64(vals) => assert_eq!(vals[0].as_deref(), Some("4")),
        _ => panic!("x must decode as a float column"),
    }
}

#[test]
fn first_schema_is_persisted_with_created_at() {
    let records = vec![obj(vec![("x", Value::Int(1))])];
    let out = process_columnar(&records, None, NOW, 0).unwrap();
    assert!(out.persist_schema);
    let last = out.schema.metadata.last().unwrap();
    assert_eq!(last.0, "created_at");
    assert_eq!(last.1, "1700000000000000");
}

#[test]
fn decode_mismatch_not_caught_by_merge_is_fatal() {
    // Null merges with anything, so the merge passes; the decode then
    // refuses an integer in a null column.
    let existing = StreamSchema {
        fields: vec![field("_timestamp", DataType::Int64), field("x", DataType::Null)],
        metadata: vec![],
    };
    let records = vec![obj(vec![("x", Value::Int(5))])];
    match process_columnar(&records, Some(existing), NOW, 0) {
        Err(ColumnarError::Decode(_)) => {},
        _ => panic!("an undetected type mismatch must fail the request"),
    }
}

#[test]
fn non_object_record_fails_inference() {
    let records = vec![obj(vec![("x", Value::Int(1))]), Value::Str("loose".to_string())];
    match process_columnar(&records, None, NOW, 0) {
        Err(ColumnarError::InferenceFailure) => {},
        _ => panic!("a non-object record must fail schema inference"),
    }
}

#[test]
fn typed_columns_carry_cell_values() {
    let records = vec![
        obj(vec![
            ("s", Value::Str("hello".to_string())),
            ("b", Value::Bool(false)),
            ("nested", Value::Obj(vec![("k".to_string(), Value::Int(1))])),
        ]),
        obj(vec![("s", Value::Null)]),
    ];
    let out = process_columnar(&records, None, NOW, 0).unwrap();
    // Fields: _timestamp, s, b, nested.
    assert_eq!(out.schema.fields.len(), 4);
    match &out.batch.columns[1] {
        Column::Utf8(vals) => {
            assert_eq!(vals[0].as_deref(), Some("hello"));
            assert_eq!(vals[1], None);
        },
        _ => panic!("s must be a text column"),
    }
    match &out.batch.columns[2] {
        Column::Bool(vals) => {
            assert_eq!(vals[0], Some(false));
            assert_eq!(vals[1], None);
        },
        _ => panic!("b must be a boolean column"),
    }
    match &out.batch.columns[3] {
        Column::Utf8(vals) => {
            assert_eq!(vals[0].as_deref(), Some("{\"k\":1}"));
            assert_eq!(vals[1], None);
        },
        _ => panic!("nested values must be stored as their JSON text"),
    }
}
