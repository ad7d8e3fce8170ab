use log_ingest::dispatch::{format_stream_name, hours_to_micros, plan_ingest, IngestDecision};
use log_ingest::jsontext::to_json_string;
use log_ingest::round_upto_multiple_of_64;
use log_ingest::timestamp::normalize_micros;
use log_ingest::value::Value;

#[test]
fn round_up_alignment() {
    assert_eq!(round_upto_multiple_of_64(0), 0);
    assert_eq!(round_upto_multiple_of_64(1), 64);
    assert_eq!(round_upto_multiple_of_64(64), 64);
    assert_eq!(round_upto_multiple_of_64(65), 128);
    assert_eq!(round_upto_multiple_of_64(5), 64);
}

#[test]
fn normalize_magnitudes() {
    assert_eq!(normalize_micros(1_577_836_800), Some(1_577_836_800_000_000));
    assert_eq!(normalize_micros(1_577_836_800_000), Some(1_577_836_800_000_000));
    assert_eq!(normalize_micros(1_577_836_800_000_000), Some(1_577_836_800_000_000));
    assert_eq!(normalize_micros(1_577_836_800_000_000_000), Some(1_577_836_800_000_000));
    assert_eq!(normalize_micros(-5), None);
}

#[test]
fn json_text_exact() {
    let v = Value::Obj(vec![
        ("a".to_string(), Value::Int(1)),
        ("b".to_string(), Value::Str("x\"y".to_string())),
        ("c".to_string(), Value::Bool(true)),
        ("d".to_string(), Value::Null),
    ]);
    assert_eq!(to_json_string(&v), "{\"a\":1,\"b\":\"x\\\"y\",\"c\":true,\"d\":null}");
}

#[test]
fn json_text_nested_and_negative() {
    let v = Value::Obj(vec![
        ("n".to_string(), Value::Int(i64::MIN)),
        (
            "arr".to_string(),
            Value::Arr(vec![Value::Int(1), Value::Float("1.5".to_string()), Value::Null]),
        ),
    ]);
    assert_eq!(to_json_string(&v), "{\"n\":-9223372036854775808,\"arr\":[1,1.5,null]}");
}

#[test]
fn json_text_escapes_control_chars() {
    let v = Value::Str("a\nb\t\u{1}".to_string());
    assert_eq!(to_json_string(&v), "\"a\\nb\\t\\u0001\"");
}

#[test]
fn stream_name_normalized() {
    let r = format_stream_name(&"My-Stream.2".to_string());
    assert_eq!(r, "my_stream_2");
}

#[test]
fn gate_order() {
    assert!(matches!(plan_ingest(false, true, false, true), IngestDecision::RejectNotIngester));
    assert!(matches!(plan_ingest(true, true, true, true), IngestDecision::RejectDeleting));
    assert!(matches!(plan_ingest(true, false, false, true), IngestDecision::RejectMalformed));
    assert!(matches!(plan_ingest(true, false, true, true), IngestDecision::ProcessColumnar));
    assert!(matches!(plan_ingest(true, false, true, false), IngestDecision::ProcessRows));
}

#[test]
fn window_hours_to_micros() {
    assert_eq!(hours_to_micros(18), Some(64_800_000_000));
    assert_eq!(hours_to_micros(0), Some(0));
    assert_eq!(hours_to_micros(-1), None);
}

#[test]
fn clock_wrappers_against_chrono() {
    // The trusted chrono wrappers, checked on known instants.
    assert_eq!(log_ingest::clock::hour_bucket(0), Some("1970_01_01_00".to_string()));
    assert_eq!(
        log_ingest::clock::hour_bucket(1_577_836_800_000_000),
        Some("2020_01_01_00".to_string())
    );
    assert_eq!(
        log_ingest::clock::parse_rfc3339_micros(&"2020-01-01T00:00:00Z".to_string()),
        Some(1_577_836_800_000_000)
    );
    assert_eq!(log_ingest::clock::parse_rfc3339_micros(&"not-a-time".to_string()), None);
}

#[test]
fn error_payloads() {
    let e = log_ingest::dispatch::not_ingester_error();
    assert_eq!(e.code, 500);
    assert_eq!(e.message, "not an ingester");
    let e = log_ingest::dispatch::deleting_error(&"logs1".to_string());
    assert_eq!(e.code, 500);
    assert_eq!(e.message, "stream [logs1] is being deleted");
    let e = log_ingest::dispatch::malformed_body_error();
    assert_eq!(e.code, 400);
    assert_eq!(e.message, "malformed request body");
}
