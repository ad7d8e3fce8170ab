use log_ingest::alerts::{Alert, CmpOp, Condition};
use log_ingest::row::process_rows;
use log_ingest::schema::{DataType, Field};
use log_ingest::value::Value;

const NOW: i64 = 1_700_000_000_000_000;
const UPTO: i64 = 64_800_000_000;

fn obj(fields: Vec<(&str, Value)>) -> Value {
    Value::Obj(fields.into_iter().map(|(k, v)| (k.to_string(), v)).collect())
}

fn run(
    records: Vec<Value>,
    keys: Vec<&str>,
    alerts: Vec<Alert>,
    schema: &mut Vec<Field>,
) -> log_ingest::row::RowOutcome {
    let keys: Vec<String> = keys.into_iter().map(|k| k.to_string()).collect();
    process_rows(
        &records,
        NOW,
        UPTO,
        &keys,
        &alerts,
        &"org1".to_string(),
        &"s1".to_string(),
        schema,
    )
}

fn total_rows(out: &log_ingest::row::RowOutcome) -> usize {
    out.buffer.entries.iter().map(|e| e.1.len()).sum()
}

#[test]
fn partial_success_five_records_two_bad_timestamps() {
    let records = vec![
        obj(vec![("msg", Value::Str("a".to_string()))]),
        obj(vec![("_timestamp", Value::Bool(true))]),
        obj(vec![("_timestamp", Value::Int(1_700_000_000))]),
        obj(vec![("_timestamp", Value::Str("not-a-time".to_string()))]),
        obj(vec![("_timestamp", Value::Int(NOW))]),
    ];
    let mut schema = Vec::new();
    let out = run(records, vec![], vec![], &mut schema);
    assert_eq!(out.status.successful, 3);
    assert_eq!(out.status.failed, 2);
    assert_eq!(total_rows(&out), 3);
    assert_eq!(out.status.error, "failed to parse the record timestamp");
}

#[test]
fn acceptance_window_boundary_inclusive() {
    let boundary = NOW - UPTO;
    let records = vec![
        obj(vec![("_timestamp", Value::Int(boundary))]),
        obj(vec![("_timestamp", Value::Int(boundary - 1))]),
    ];
    let mut schema = Vec::new();
    let out = run(records, vec![], vec![], &mut schema);
    assert_eq!(out.status.successful, 1);
    assert_eq!(out.status.failed, 1);
    assert_eq!(out.status.error, "event time is before the allowed ingestion window");
    assert_eq!(out.min_ts, boundary);
}

#[test]
fn missing_timestamp_defaults_to_now_and_round_trips() {
    let records = vec![obj(vec![("msg", Value::Str("hi".to_string()))])];
    let mut schema = Vec::new();
    let out = run(records, vec![], vec![], &mut schema);
    assert_eq!(out.status.successful, 1);
    let row = &out.buffer.entries[0].1[0];
    let parsed: serde_json::Value = serde_json::from_str(row).unwrap();
    assert_eq!(parsed["_timestamp"].as_i64(), Some(NOW));
    assert_eq!(parsed["msg"].as_str(), Some("hi"));
}

#[test]
fn timestamp_injection_overwrites_prior_value() {
    let records = vec![obj(vec![("_timestamp", Value::Int(1_700_000_000))])];
    let mut schema = Vec::new();
    let out = run(records, vec![], vec![], &mut schema);
    assert_eq!(out.status.successful, 1);
    let row = &out.buffer.entries[0].1[0];
    let parsed: serde_json::Value = serde_json::from_str(row).unwrap();
    // Seconds are normalized to microseconds and written back.
    assert_eq!(parsed["_timestamp"].as_i64(), Some(1_700_000_000_000_000));
}

#[test]
fn rfc3339_timestamp_parsed_through_chrono() {
    let records = vec![obj(vec![
        ("_timestamp", Value::Str("2023-11-14T22:13:20Z".to_string())),
    ])];
    let mut schema = Vec::new();
    let out = run(records, vec![], vec![], &mut schema);
    assert_eq!(out.status.successful, 1);
    let row = &out.buffer.entries[0].1[0];
    let parsed: serde_json::Value = serde_json::from_str(row).unwrap();
    assert_eq!(parsed["_timestamp"].as_i64(), Some(1_700_000_000_000_000));
}

#[test]
fn partition_stability_same_key_values_same_bucket() {
    let records = vec![
        obj(vec![("service", Value::Str("api".to_string())), ("n", Value::Int(1))]),
        obj(vec![("service", Value::Str("api".to_string())), ("n", Value::Int(2))]),
        obj(vec![("service", Value::Str("db".to_string()))]),
    ];
    let mut schema = Vec::new();
    let out = run(records, vec!["service"], vec![], &mut schema);
    assert_eq!(out.status.successful, 3);
    assert_eq!(out.buffer.entries.len(), 2);
    assert_eq!(out.buffer.entries[0].0, "service=api");
    assert_eq!(out.buffer.entries[0].1.len(), 2);
    assert_eq!(out.buffer.entries[1].0, "service=db");
    assert_eq!(out.buffer.entries[1].1.len(), 1);
}

#[test]
fn empty_key_set_single_implicit_partition() {
    let records = vec![
        obj(vec![("a", Value::Int(1))]),
        obj(vec![("b", Value::Int(2))]),
    ];
    let mut schema = Vec::new();
    let out = run(records, vec![], vec![], &mut schema);
    assert_eq!(out.buffer.entries.len(), 1);
    assert_eq!(out.buffer.entries[0].0, "default");
}

#[test]
fn at_most_one_trigger_last_accepted_match_wins() {
    let a1 = Alert {
        name: "a1".to_string(),
        condition: Condition { field: "a".to_string(), op: CmpOp::Ge, value: 10 },
    };
    let a2 = Alert {
        name: "a2".to_string(),
        condition: Condition { field: "b".to_string(), op: CmpOp::Ge, value: 10 },
    };
    let records = vec![
        obj(vec![("b", Value::Int(20))]),
        obj(vec![("a", Value::Int(20))]),
        obj(vec![("c", Value::Int(20))]),
    ];
    let mut schema = Vec::new();
    let out = run(records, vec![], vec![a1, a2], &mut schema);
    let t = out.trigger.expect("one trigger must survive");
    assert_eq!(t.alert_name, "a1");
    assert_eq!(t.org, "org1");
    assert_eq!(t.stream, "s1");
}

#[test]
fn no_trigger_when_no_rule_matches() {
    let a1 = Alert {
        name: "a1".to_string(),
        condition: Condition { field: "a".to_string(), op: CmpOp::Gt, value: 100 },
    };
    let records = vec![obj(vec![("a", Value::Int(5))])];
    let mut schema = Vec::new();
    let out = run(records, vec![], vec![a1], &mut schema);
    assert!(out.trigger.is_none());
}

#[test]
fn nested_records_flattened_with_normalized_keys() {
    let records = vec![obj(vec![(
        "Outer-Field",
        Value::Obj(vec![("Inner".to_string(), Value::Int(7))]),
    )])];
    let mut schema = Vec::new();
    let out = run(records, vec![], vec![], &mut schema);
    let row = &out.buffer.entries[0].1[0];
    let parsed: serde_json::Value = serde_json::from_str(row).unwrap();
    assert_eq!(parsed["outer_field_inner"].as_i64(), Some(7));
}

#[test]
fn non_object_record_dropped_without_error_text() {
    let records = vec![Value::Int(5), obj(vec![("a", Value::Int(1))])];
    let mut schema = Vec::new();
    let out = run(records, vec![], vec![], &mut schema);
    assert_eq!(out.status.successful, 1);
    assert_eq!(out.status.failed, 1);
    assert_eq!(out.status.error, "");
}

#[test]
fn schema_evolves_additively_and_widens() {
    let records = vec![
        obj(vec![("a", Value::Int(1))]),
        obj(vec![("a", Value::Float("1.5".to_string())), ("b", Value::Str("x".to_string()))]),
    ];
    let mut schema = Vec::new();
    let out = run(records, vec![], vec![], &mut schema);
    assert_eq!(out.status.successful, 2);
    let names: Vec<&str> = schema.iter().map(|f| f.name.as_str()).collect();
    assert!(names.contains(&"a"));
    assert!(names.contains(&"b"));
    let a = schema.iter().find(|f| f.name == "a").unwrap();
    assert_eq!(a.data_type, DataType::Float64);
    let b = schema.iter().find(|f| f.name == "b").unwrap();
    assert_eq!(b.data_type, DataType::Utf8);
}

#[test]
fn min_ts_seeded_above_window_for_empty_batch() {
    let mut schema = Vec::new();
    let out = run(vec![], vec![], vec![], &mut schema);
    assert_eq!(out.min_ts, NOW + UPTO);
    assert_eq!(out.status.successful, 0);
    assert_eq!(out.status.failed, 0);
}
