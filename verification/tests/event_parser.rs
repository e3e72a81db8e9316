use tipjar::event_listener::RawContractEvent;
use tipjar::event_parser::{parse_event, payload_err, EventKind, ParserError};
use tipjar::json::JsonValue;

fn s(text: &str) -> JsonValue {
    JsonValue::Str(text.to_string())
}

fn num(text: &str) -> JsonValue {
    JsonValue::Number(text.to_string())
}

fn obj(members: Vec<(&str, JsonValue)>) -> JsonValue {
    JsonValue::Object(members.into_iter().map(|(k, v)| (k.to_string(), v)).collect())
}

fn event(topic: Vec<JsonValue>, value: JsonValue) -> RawContractEvent {
    RawContractEvent {
        id: "evt-1".to_string(),
        paging_token: Some("evt-1".to_string()),
        contract_id: Some("abc".to_string()),
        ledger: 100,
        ledger_closed_at: None,
        topic,
        value,
        tx_hash: Some("tx".to_string()),
        in_successful_contract_call: Some(true),
    }
}

fn field<'a>(v: &'a JsonValue, key: &str) -> &'a JsonValue {
    v.get(key).expect("field present")
}

fn field_str(v: &JsonValue, key: &str) -> String {
    field(v, key).as_str().expect("string field").clone()
}

#[test]
fn parses_tip_event() {
    let e = event(vec![s("tip"), s("CREATOR"), s("TOKEN")], JsonValue::Array(vec![s("SENDER"), s("1000")]));

    let parsed = parse_event(&e).ok().expect("tip parses");
    assert_eq!(parsed.kind, EventKind::Tip);
    assert_eq!(field_str(&parsed.fields, "creator"), "CREATOR");
    assert_eq!(field_str(&parsed.fields, "amount"), "1000");
}

#[test]
fn rejects_malformed_tip_message() {
    let e = event(vec![s("tip_msg"), s("CREATOR")], JsonValue::Array(vec![s("sender"), s("1")]));
    let err = parse_event(&e).err().expect("should fail");
    assert!(matches!(err, ParserError::InvalidPayload { .. }));
}

#[test]
fn unknown_topic_is_still_indexable() {
    let e = event(vec![s("custom")], obj(vec![("hello", s("world"))]));
    let parsed = parse_event(&e).ok().expect("unknown topic should parse");
    assert_eq!(parsed.kind, EventKind::Unknown);
    assert_eq!(parsed.topic, "custom");
}

#[test]
fn unknown_topic_keeps_raw_topic_and_value() {
    let e = event(vec![s("custom"), num("7")], obj(vec![("hello", s("world"))]));
    let parsed = parse_event(&e).ok().expect("unknown topic should parse");
    assert_eq!(parsed.fields.to_text(), r#"{"raw_topic":["custom",7],"raw_value":{"hello":"world"}}"#);
}

#[test]
fn tip_fields_are_written_in_key_order() {
    let e = event(vec![s("tip"), s("CREATOR"), s("TOKEN")], JsonValue::Array(vec![s("SENDER"), num("1000")]));
    let parsed = parse_event(&e).ok().expect("tip parses");
    assert_eq!(parsed.topic, "tip");
    assert_eq!(
        parsed.fields.to_text(),
        r#"{"amount":"1000","creator":"CREATOR","sender":"SENDER","token":"TOKEN"}"#
    );
}

#[test]
fn missing_topic_is_rejected() {
    let e = event(vec![], JsonValue::Null);
    let err = parse_event(&e).err().expect("no topic");
    assert!(matches!(err, ParserError::MissingTopic));
    assert_eq!(err.message(), "event has no topic entries");
}

#[test]
fn non_symbol_topic_is_rejected() {
    let e = event(vec![num("5")], JsonValue::Null);
    let err = parse_event(&e).err().expect("number topic");
    assert!(matches!(err, ParserError::InvalidTopic));
    assert_eq!(err.message(), "topic[0] is not a recognizable symbol");
}

#[test]
fn symbol_object_topic_is_read() {
    let e = event(vec![obj(vec![("symbol", s("withdraw"))]), s("C"), s("T")], num("250"));
    let parsed = parse_event(&e).ok().expect("withdraw parses");
    assert_eq!(parsed.kind, EventKind::Withdraw);
    assert_eq!(parsed.fields.to_text(), r#"{"amount":"250","creator":"C","token":"T"}"#);
}

#[test]
fn missing_topic_field_names_the_field() {
    let e = event(vec![s("tip")], JsonValue::Array(vec![s("S"), s("1")]));
    let err = parse_event(&e).err().expect("creator missing");
    assert_eq!(err.message(), "malformed payload for topic tip: missing topic field creator");
}

#[test]
fn non_array_payload_is_rejected() {
    let e = event(vec![s("tip"), s("C"), s("T")], s("oops"));
    let err = parse_event(&e).err().expect("payload not array");
    assert_eq!(err.message(), "malformed payload for topic tip: value is not an array");
}

#[test]
fn tip_locked_reads_numbers() {
    let e = event(
        vec![s("tip_lckd"), s("C"), s("T")],
        JsonValue::Array(vec![obj(vec![("u64", s("9"))]), s("S"), obj(vec![("i128", s("77"))]), num("1700000000")]),
    );
    let parsed = parse_event(&e).ok().expect("locked tip parses");
    assert_eq!(parsed.kind, EventKind::TipLocked);
    assert_eq!(
        parsed.fields.to_text(),
        r#"{"amount":"77","creator":"C","sender":"S","tip_id":9,"token":"T","unlock_timestamp":1700000000}"#
    );
}

#[test]
fn refund_approved_uses_its_own_topic_in_errors() {
    let e = event(vec![s("ref_appr"), s("C")], JsonValue::Array(vec![num("1")]));
    let err = parse_event(&e).err().expect("short payload");
    assert_eq!(err.message(), "malformed payload for topic ref_appr: expected [tip_id, sender, amount]");
}

#[test]
fn upgraded_reads_version() {
    let e = event(vec![s("upgraded"), s("ADMIN")], s("3"));
    let parsed = parse_event(&e).ok().expect("upgrade parses");
    assert_eq!(parsed.kind, EventKind::Upgraded);
    assert_eq!(parsed.fields.to_text(), r#"{"admin":"ADMIN","version":3}"#);
}

#[test]
fn payload_error_message() {
    let e = payload_err("tip", "bad");
    assert_eq!(e.message(), "malformed payload for topic tip: bad");
}
