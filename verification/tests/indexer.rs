use tipjar::api::{list_events_query, page_limit, page_offset, EventQuery, QueryPart, LIST_EVENTS_SQL};
use tipjar::event_listener::{
    advance_cursor, cursor_key, indexed_contract_id, request_start_ledger, rest_latest_ledger, rest_page, rest_records, rpc_page,
    Backoff, FetchError, HorizonClient, RawContractEvent, ReplayRequest, ReplayState, RpcError, RpcEventsResult,
};
use tipjar::json::JsonValue;

fn s(text: &str) -> JsonValue {
    JsonValue::Str(text.to_string())
}

fn num(text: &str) -> JsonValue {
    JsonValue::Number(text.to_string())
}

fn obj(members: Vec<(&str, JsonValue)>) -> JsonValue {
    JsonValue::Object(members.into_iter().map(|(k, v)| (k.to_string(), v)).collect())
}

fn to_serde(v: &JsonValue) -> serde_json::Value {
    match v {
        JsonValue::Null => serde_json::Value::Null,
        JsonValue::Bool(b) => serde_json::Value::Bool(*b),
        JsonValue::Number(t) => serde_json::from_str(t).unwrap(),
        JsonValue::Str(x) => serde_json::Value::String(x.clone()),
        JsonValue::Array(items) => serde_json::Value::Array(items.iter().map(to_serde).collect()),
        JsonValue::Object(members) => {
            let mut m = serde_json::Map::new();
            for (k, x) in members {
                m.insert(k.clone(), to_serde(x));
            }
            serde_json::Value::Object(m)
        }
    }
}

fn raw(id: &str, token: Option<&str>, ledger: i64) -> RawContractEvent {
    RawContractEvent {
        id: id.to_string(),
        paging_token: token.map(|t| t.to_string()),
        contract_id: None,
        ledger,
        ledger_closed_at: None,
        topic: vec![s("tip")],
        value: JsonValue::Null,
        tx_hash: None,
        in_successful_contract_call: None,
    }
}

#[test]
fn json_text_matches_serde_json() {
    let doc = obj(vec![
        ("a", s("quote \" backslash \\ newline \n tab \t bell \u{7} unicode é")),
        ("b", JsonValue::Array(vec![num("1"), num("-2"), num("3.5"), JsonValue::Bool(true), JsonValue::Null])),
        ("c", obj(vec![("y", JsonValue::Array(vec![])), ("z", s(""))])),
    ]);
    let ours = doc.to_text();
    let theirs = serde_json::to_string(&to_serde(&doc)).unwrap();
    assert_eq!(ours, theirs);
    assert_eq!(s("a\u{1}b").to_text(), "\"a\\u0001b\"");
}

#[test]
fn json_lookup_takes_first_member() {
    let doc = obj(vec![("k", num("1")), ("k", num("2"))]);
    assert_eq!(doc.get("k").unwrap().as_u64(), Some(1));
    assert!(doc.get("missing").is_none());
    assert_eq!(num("18446744073709551615").as_u64(), Some(u64::MAX));
    assert_eq!(num("18446744073709551616").as_u64(), None);
    assert_eq!(num("-1").as_u64(), None);
}

#[test]
fn cursor_prefers_paging_token() {
    assert_eq!(raw("id-1", Some("tok-1"), 5).cursor(), "tok-1");
    assert_eq!(raw("id-1", None, 5).cursor(), "id-1");
}

#[test]
fn events_url_drops_trailing_slashes() {
    let c = HorizonClient::new("https://horizon.example.org//".to_string(), 100);
    assert_eq!(c.events_url(), "https://horizon.example.org/events");
    let d = HorizonClient::new("https://horizon.example.org".to_string(), 100);
    assert_eq!(d.events_url(), "https://horizon.example.org/events");
}

#[test]
fn rest_query_pairs() {
    let c = HorizonClient::new("u".to_string(), 25);
    let q = c.rest_query("CID", Some("c-9"), Some(7));
    let want: Vec<(String, String)> = vec![
        ("order".into(), "asc".into()),
        ("limit".into(), "25".into()),
        ("contract_ids".into(), "CID".into()),
        ("cursor".into(), "c-9".into()),
    ];
    assert_eq!(q, want);
    let q2 = c.rest_query("CID", None, Some(7));
    assert_eq!(q2[3], ("start_ledger".to_string(), "7".to_string()));
    assert_eq!(c.rest_query("CID", None, None).len(), 3);
}

#[test]
fn rpc_body_text() {
    let c = HorizonClient::new("u".to_string(), 50);
    let body = c.rpc_body("CID", None, Some(12));
    assert_eq!(
        body.to_text(),
        r#"{"id":"tipjar-indexer","jsonrpc":"2.0","method":"getEvents","params":{"filters":[{"contractIds":["CID"],"type":"contract"}],"pagination":{"limit":50},"startLedger":12}}"#
    );
    let with_cursor = c.rpc_body("CID", Some("abc"), Some(12));
    assert_eq!(
        with_cursor.to_text(),
        r#"{"id":"tipjar-indexer","jsonrpc":"2.0","method":"getEvents","params":{"filters":[{"contractIds":["CID"],"type":"contract"}],"pagination":{"cursor":"abc","limit":50}}}"#
    );
    assert_eq!(serde_json::to_string(&to_serde(&body)).unwrap(), body.to_text());
}

#[test]
fn rest_records_and_latest_ledger() {
    let embedded = obj(vec![
        ("_embedded", obj(vec![("records", JsonValue::Array(vec![num("1"), num("2")]))])),
        ("latestLedger", num("900")),
    ]);
    assert_eq!(rest_records(&embedded).unwrap().len(), 2);
    assert_eq!(rest_latest_ledger(&embedded), Some(900));

    let flat = obj(vec![("events", JsonValue::Array(vec![num("1")])), ("latest_ledger", s("x")), ("latestLedger", num("5"))]);
    assert_eq!(rest_records(&flat).unwrap().len(), 1);
    assert_eq!(rest_latest_ledger(&flat), None);

    let none = obj(vec![("records", JsonValue::Array(vec![]))]);
    assert!(rest_records(&none).is_none());
}

#[test]
fn rest_page_cursor_is_last_event() {
    let page = rest_page(vec![raw("a", None, 1), raw("b", Some("pb"), 2)], Some(10));
    assert_eq!(page.next_cursor.as_deref(), Some("pb"));
    assert_eq!(page.latest_ledger, Some(10));
    assert_eq!(rest_page(vec![], None).next_cursor, None);
}

#[test]
fn rpc_page_outcomes() {
    let err = rpc_page(Some(RpcError { code: -32600, message: "bad".into() }), None).err().unwrap();
    assert_eq!(err.message(), "rpc error -32600: bad");
    let missing = rpc_page(None, None).err().unwrap();
    assert!(matches!(missing, FetchError::MissingResult));
    assert_eq!(missing.message(), "missing rpc result");
    let named = rpc_page(
        None,
        Some(RpcEventsResult { events: vec![raw("a", None, 1)], latest_ledger: Some(3), cursor: Some("next".into()) }),
    )
    .ok()
    .unwrap();
    assert_eq!(named.next_cursor.as_deref(), Some("next"));
    let derived = rpc_page(None, Some(RpcEventsResult { events: vec![raw("a", None, 1)], latest_ledger: None, cursor: None }))
        .ok()
        .unwrap();
    assert_eq!(derived.next_cursor.as_deref(), Some("a"));
    assert_eq!(FetchError::MissingRecords.message(), "horizon /events payload missing records");
}

#[test]
fn start_ledger_only_without_cursor() {
    assert_eq!(request_start_ledger(&None, Some(5)), Some(5));
    assert_eq!(request_start_ledger(&Some("c".into()), Some(5)), None);
}

#[test]
fn cursor_key_and_contract_fallback() {
    assert_eq!(cursor_key("CABC"), "cursor:CABC");
    let mut e = raw("a", None, 1);
    assert_eq!(indexed_contract_id(&e, "LISTENER"), "LISTENER");
    e.contract_id = Some("OWN".into());
    assert_eq!(indexed_contract_id(&e, "LISTENER"), "OWN");
}

#[test]
fn replay_flow() {
    let request = ReplayRequest { from_cursor: Some(String::new()), from_ledger: Some(40), to_ledger: Some(50), persist_cursor: Some(true) };
    let mut st = ReplayState::begin(request.from_cursor.clone());
    assert!(st.cursor.is_none());
    assert_eq!(st.start_ledger(&request), Some(40));
    assert!(st.admits(&request, 45));
    st.record(45, true);
    assert!(st.admits(&request, 50));
    st.record(50, false);
    assert!(!st.admits(&request, 51));
    assert!(!st.admits(&request, -1));
    let stored = st.end_page(&request, Some("p2".into()));
    assert_eq!(stored.as_deref(), Some("p2"));
    assert_eq!(st.start_ledger(&request), None);
    let summary = st.summary();
    assert_eq!(summary.indexed_events, 1);
    assert_eq!(summary.failed_events, 1);
    assert_eq!(summary.last_cursor.as_deref(), Some("p2"));
    assert_eq!(summary.latest_ledger_seen, Some(50));

    let keep_off = ReplayRequest { from_cursor: Some("c".into()), from_ledger: None, to_ledger: None, persist_cursor: None };
    let mut st2 = ReplayState::begin(keep_off.from_cursor.clone());
    assert_eq!(st2.cursor.as_deref(), Some("c"));
    assert!(st2.admits(&keep_off, i64::MAX));
    assert_eq!(st2.end_page(&keep_off, Some("d".into())), None);
}

#[test]
fn backoff_delays() {
    let mut b = Backoff::new(7);
    let mut delays = Vec::new();
    while let Some(d) = b.on_failure() {
        delays.push(d);
    }
    assert_eq!(delays, vec![400, 800, 1600, 3200, 6400, 10000, 10000]);
    assert_eq!(b.attempt, 8);
    let mut none = Backoff::new(0);
    assert_eq!(none.on_failure(), None);
}

#[test]
fn list_query_with_all_filters() {
    let q = EventQuery {
        topic: Some("tip".into()),
        creator: Some("GC".into()),
        sender: Some("GS".into()),
        tx_hash: Some("h".into()),
        min_ledger: Some(-3),
        max_ledger: Some(9),
        limit: Some(1000),
        offset: Some(20),
    };
    let parts = list_events_query(&q);
    assert_eq!(parts.len(), 18);
    assert!(matches!(&parts[0], QueryPart::Sql(x) if x == LIST_EVENTS_SQL));
    assert!(matches!(&parts[3], QueryPart::Sql(x) if x == " AND parsed_data->'fields'->>'creator' = "));
    assert!(matches!(&parts[4], QueryPart::BindText(x) if x == "GC"));
    assert!(matches!(&parts[10], QueryPart::BindInt(-3)));
    assert!(matches!(&parts[15], QueryPart::BindInt(500)));
    assert!(matches!(&parts[17], QueryPart::BindInt(20)));
}

#[test]
fn list_query_defaults() {
    let q = EventQuery { topic: None, creator: None, sender: None, tx_hash: None, min_ledger: None, max_ledger: None, limit: None, offset: None };
    let parts = list_events_query(&q);
    assert_eq!(parts.len(), 6);
    assert!(matches!(&parts[1], QueryPart::Sql(x) if x == " ORDER BY ledger DESC, created_at DESC"));
    assert!(matches!(&parts[3], QueryPart::BindInt(50)));
    assert!(matches!(&parts[5], QueryPart::BindInt(0)));
    assert_eq!(page_limit(Some(0)), 1);
    assert_eq!(page_limit(Some(77)), 77);
    assert_eq!(page_offset(Some(4)), 4);
}

#[test]
fn cursor_advances_only_to_a_named_cursor() {
    let mut cursor = Some("c1".to_string());
    assert_eq!(advance_cursor(&mut cursor, None), None);
    assert_eq!(cursor.as_deref(), Some("c1"));
    assert_eq!(advance_cursor(&mut cursor, Some("c2".into())).as_deref(), Some("c2"));
    assert_eq!(cursor.as_deref(), Some("c2"));
}
