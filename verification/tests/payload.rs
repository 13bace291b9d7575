use ferrowl::json::Json;
use ferrowl::ocpp::payload::{
    boot_interval, config_request, craft_response, inject_scope, parse_config, set_request,
    stop_tx_id,
};
use ferrowl::ocpp::rfid::RfidStore;
use ferrowl::ocpp::scope::Scope;

fn to_json(v: &serde_json::Value) -> Json {
    match v {
        serde_json::Value::Null => Json::Null,
        serde_json::Value::Bool(b) => Json::Bool(*b),
        serde_json::Value::Number(n) => {
            if let Some(i) = n.as_i64() {
                Json::Int(i as i128)
            } else if let Some(u) = n.as_u64() {
                Json::Int(u as i128)
            } else {
                Json::Float(n.as_f64().unwrap_or_default().to_bits())
            }
        }
        serde_json::Value::String(s) => Json::Str(s.clone()),
        serde_json::Value::Array(items) => Json::Array(items.iter().map(to_json).collect()),
        serde_json::Value::Object(m) => {
            Json::Object(m.iter().map(|(k, x)| (k.clone(), to_json(x))).collect())
        }
    }
}

fn from_json(v: &Json) -> serde_json::Value {
    match v {
        Json::Null => serde_json::Value::Null,
        Json::Bool(b) => serde_json::Value::Bool(*b),
        Json::Int(i) => {
            if let Ok(x) = i64::try_from(*i) {
                serde_json::Value::from(x)
            } else {
                serde_json::Value::from(u64::try_from(*i).unwrap())
            }
        }
        Json::Float(bits) => serde_json::Value::from(f64::from_bits(*bits)),
        Json::Str(s) => serde_json::Value::String(s.clone()),
        Json::Array(items) => serde_json::Value::Array(items.iter().map(from_json).collect()),
        Json::Object(ms) => serde_json::Value::Object(
            ms.iter().map(|(k, x)| (k.clone(), from_json(x))).collect(),
        ),
    }
}

fn parse(text: &str) -> Json {
    to_json(&serde_json::from_str::<serde_json::Value>(text).unwrap())
}

fn value(text: &str) -> serde_json::Value {
    serde_json::from_str(text).unwrap()
}

#[test]
fn boot_interval_prefers_csms_value() {
    let resp = parse(r#"{ "currentTime": "2026-01-01T00:00:00Z", "interval": 120, "status": "Accepted" }"#);
    assert_eq!(boot_interval(&resp), Some(120));
}

#[test]
fn boot_interval_falls_back_on_zero_or_absent() {
    assert_eq!(boot_interval(&parse(r#"{ "interval": 0 }"#)), None);
    assert_eq!(boot_interval(&parse(r#"{ "status": "Accepted" }"#)), None);
    assert_eq!(boot_interval(&parse(r#"{ "interval": -5 }"#)), None);
    assert_eq!(boot_interval(&parse(r#"{ "interval": "60" }"#)), None);
}

#[test]
fn ut_stop_tx_id_reads_ended_events_only() {
    let ended = parse(r#"{ "eventType": "Ended", "transactionInfo": { "transactionId": "tx-9" } }"#);
    assert_eq!(stop_tx_id("TransactionEvent", &ended), Some("tx-9".to_string()));
    assert_eq!(stop_tx_id("StopTransaction", &ended), None);
    let started = parse(r#"{ "eventType": "Started", "transactionInfo": { "transactionId": "tx-9" } }"#);
    assert_eq!(stop_tx_id("TransactionEvent", &started), None);
    let no_id = parse(r#"{ "eventType": "Ended" }"#);
    assert_eq!(stop_tx_id("TransactionEvent", &no_id), None);
}

#[test]
fn ut_inject_scope_sets_missing_or_zero_evse() {
    let mut p = parse(r#"{ "evseId": 0, "x": 1 }"#);
    inject_scope(&mut p, Scope::evse(3, None));
    assert_eq!(from_json(&p), value(r#"{ "evseId": 3, "x": 1 }"#));

    let mut p = parse(r#"{ "x": 1 }"#);
    inject_scope(&mut p, Scope::evse(3, None));
    assert_eq!(from_json(&p), value(r#"{ "evseId": 3, "x": 1 }"#));

    let mut p = parse(r#"{ "evseId": 7 }"#);
    inject_scope(&mut p, Scope::evse(3, None));
    assert_eq!(from_json(&p), value(r#"{ "evseId": 7 }"#));

    let mut p = parse(r#"{ "x": 1 }"#);
    inject_scope(&mut p, Scope::cs());
    assert_eq!(from_json(&p), value(r#"{ "x": 1 }"#));

    let mut p = parse(r#"[1, 2]"#);
    inject_scope(&mut p, Scope::evse(3, None));
    assert_eq!(from_json(&p), value(r#"[1, 2]"#));
}

#[test]
fn ut_config_and_set_requests() {
    assert_eq!(
        from_json(&config_request("OCPPCommCtrlr/HeartbeatInterval")),
        value(r#"{ "getVariableData": [{ "component": { "name": "OCPPCommCtrlr" }, "variable": { "name": "HeartbeatInterval" } }] }"#)
    );
    assert_eq!(
        from_json(&config_request("Plain")),
        value(r#"{ "getVariableData": [{ "component": { "name": "Plain" }, "variable": { "name": "Plain" } }] }"#)
    );
    assert_eq!(
        from_json(&set_request("A/B", "42")),
        value(r#"{ "setVariableData": [{ "attributeValue": "42", "component": { "name": "A" }, "variable": { "name": "B" } }] }"#)
    );
}

#[test]
fn ut_parse_config_rows() {
    let resp = parse(
        r#"{ "getVariableResult": [
            { "component": { "name": "C" }, "variable": { "name": "V" }, "attributeStatus": "Accepted", "attributeValue": "10" },
            { "component": { "name": "C" }, "variable": { "name": "W" }, "attributeStatus": "Rejected" },
            { "variable": { "name": "X" } }
        ] }"#,
    );
    assert_eq!(
        parse_config(&resp),
        vec![
            ("C/V".to_string(), "10".to_string(), false),
            ("C/W".to_string(), "<Rejected>".to_string(), false),
            ("/X".to_string(), "<Unknown>".to_string(), false),
        ]
    );
    assert!(parse_config(&parse(r#"{ "getVariableResult": 5 }"#)).is_empty());
    assert!(parse_config(&parse(r#"{}"#)).is_empty());
}

#[test]
fn ut_craft_response_per_action() {
    let mut rfids = RfidStore::default();
    rfids.add(Scope::cs(), "CS".to_string());
    rfids.add(Scope::evse(2, None), "E2".to_string());
    let now = "2026-01-01T00:00:00Z";

    let boot = craft_response("BootNotification", &parse("{}"), &rfids, now).unwrap();
    assert_eq!(
        from_json(&boot),
        value(r#"{ "currentTime": "2026-01-01T00:00:00Z", "interval": 300, "status": "Accepted" }"#)
    );
    let beat = craft_response("Heartbeat", &parse("{}"), &rfids, now).unwrap();
    assert_eq!(from_json(&beat), value(r#"{ "currentTime": "2026-01-01T00:00:00Z" }"#));

    let auth = craft_response("Authorize", &parse(r#"{ "idToken": { "idToken": "E2" } }"#), &rfids, now).unwrap();
    assert_eq!(from_json(&auth), value(r#"{ "idTokenInfo": { "status": "Accepted" } }"#));
    let auth = craft_response("Authorize", &parse(r#"{ "idToken": { "idToken": "NOPE" } }"#), &rfids, now).unwrap();
    assert_eq!(from_json(&auth), value(r#"{ "idTokenInfo": { "status": "Invalid" } }"#));

    let tx = parse(r#"{ "idToken": { "idToken": "E2" }, "evse": { "id": 1 } }"#);
    let reply = craft_response("TransactionEvent", &tx, &rfids, now).unwrap();
    assert_eq!(from_json(&reply), value(r#"{ "idTokenInfo": { "status": "Invalid" } }"#));
    let tx = parse(r#"{ "idToken": { "idToken": "E2" }, "evse": { "id": 2 } }"#);
    let reply = craft_response("TransactionEvent", &tx, &rfids, now).unwrap();
    assert_eq!(from_json(&reply), value(r#"{ "idTokenInfo": { "status": "Accepted" } }"#));

    assert!(craft_response("TransactionEvent", &parse(r#"{ "eventType": "Updated" }"#), &rfids, now).is_none());
    assert!(craft_response("StatusNotification", &parse("{}"), &rfids, now).is_none());
}
