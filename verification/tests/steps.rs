use ferrowl::json::Json;
use ferrowl::ocpp::connector::{
    active_meter_scopes, confirm_tx, connector_index, connector_index_for_state, end_transaction,
    rollback_tx, start_event, stop_event, ConnectorTx,
};
use ferrowl::ocpp::entries::{
    connector_scope_for_tx, entry_position, inbound_target, mark_connected, mark_disconnected,
    merge_config_rows, EntryLink,
};
use ferrowl::ocpp::lifecycle::{
    client_restarted, lifecycle_command, server_restarted, stop_finished, stop_requested,
    CommandAction, LogLevel, PendingLifecycle, Side, StopRequest,
};
use ferrowl::ocpp::refresh::{
    client_setup_switch, heartbeat_tick, meter_tick, new_messages, server_setup_switch,
    setup_stop_failed, SetupSwitch,
};
use ferrowl::ocpp::scope::Scope;
use ferrowl::ocpp::server::TlsBinding;

fn from_json(v: &Json) -> serde_json::Value {
    match v {
        Json::Null => serde_json::Value::Null,
        Json::Bool(b) => serde_json::Value::Bool(*b),
        Json::Int(i) => serde_json::Value::from(i64::try_from(*i).unwrap()),
        Json::Float(bits) => serde_json::Value::from(f64::from_bits(*bits)),
        Json::Str(s) => serde_json::Value::String(s.clone()),
        Json::Array(items) => serde_json::Value::Array(items.iter().map(from_json).collect()),
        Json::Object(ms) => serde_json::Value::Object(
            ms.iter().map(|(k, x)| (k.clone(), from_json(x))).collect(),
        ),
    }
}

fn conn(evse: i64, id: i64, tx: Option<&str>, confirmed: bool) -> ConnectorTx<u32> {
    ConnectorTx {
        evse_id: evse,
        connector_id: id,
        status: if tx.is_some() { "Occupied" } else { "Available" }.to_string(),
        rfid: "TAG1".to_string(),
        transaction_id: tx.map(|t| t.to_string()),
        tx_confirmed: confirmed,
        limit: if tx.is_some() { Some(16) } else { None },
    }
}

// --- lifecycle ---------------------------------------------------------------

#[test]
fn st_lifecycle_command_replaces_a_pending_step() {
    assert_eq!(
        lifecycle_command(Some(PendingLifecycle::Stop), PendingLifecycle::Restart),
        CommandAction::Replace(PendingLifecycle::Restart)
    );
    assert_eq!(lifecycle_command(None, PendingLifecycle::Stop), CommandAction::RequestStop);
}

#[test]
fn st_stop_requested_remembers_the_command() {
    let r = stop_requested(Side::Client, PendingLifecycle::Restart, &StopRequest::Requested);
    assert_eq!(r.pending, Some(PendingLifecycle::Restart));
    assert!(r.log.is_none() && r.reply.is_none() && !r.start_now);
}

#[test]
fn st_stop_refused_logs_per_side() {
    let refused = StopRequest::Refused { not_running: false, message: "busy".to_string() };
    let c = stop_requested(Side::Client, PendingLifecycle::Stop, &refused);
    assert_eq!(c.log, Some((LogLevel::Error, "Disconnect failed: busy".to_string())));
    assert_eq!(c.pending, None);
    let s = stop_requested(Side::Server, PendingLifecycle::Stop, &refused);
    assert_eq!(s.log, Some((LogLevel::Error, "CSMS server stop failed: busy".to_string())));
    let r = stop_requested(Side::Client, PendingLifecycle::Restart, &refused);
    assert_eq!(r.reply, Some((LogLevel::Error, "Restart failed: busy".to_string())));
    assert!(!r.start_now);
}

#[test]
fn st_restart_of_a_stopped_runtime_starts_at_once() {
    let refused = StopRequest::Refused { not_running: true, message: "not running".to_string() };
    let r = stop_requested(Side::Server, PendingLifecycle::Restart, &refused);
    assert!(r.start_now);
    assert!(r.log.is_none() && r.reply.is_none() && r.pending.is_none());
}

#[test]
fn st_stop_finished_messages() {
    assert_eq!(
        stop_finished(Side::Client, PendingLifecycle::Stop, &Ok(())),
        (Some((LogLevel::Info, "Disconnected".to_string())), false)
    );
    assert_eq!(
        stop_finished(Side::Server, PendingLifecycle::Stop, &Ok(())),
        (Some((LogLevel::Info, "CSMS server stopped".to_string())), false)
    );
    assert_eq!(
        stop_finished(Side::Server, PendingLifecycle::Stop, &Err("x".to_string())),
        (Some((LogLevel::Error, "CSMS server stop failed: x".to_string())), false)
    );
    assert_eq!(stop_finished(Side::Client, PendingLifecycle::Restart, &Ok(())), (None, true));
    assert_eq!(
        stop_finished(Side::Client, PendingLifecycle::Restart, &Err("x".to_string())),
        (Some((LogLevel::Error, "Reconnect: stop failed: x".to_string())), true)
    );
    assert_eq!(
        stop_finished(Side::Server, PendingLifecycle::Restart, &Err("x".to_string())),
        (Some((LogLevel::Error, "Restart: stop failed: x".to_string())), true)
    );
}

#[test]
fn st_restarted_messages() {
    assert_eq!(client_restarted(&Ok(())), (LogLevel::Info, "Reconnecting".to_string()));
    assert_eq!(
        client_restarted(&Err("refused".to_string())),
        (LogLevel::Error, "Reconnect failed: refused".to_string())
    );
    assert_eq!(
        server_restarted(&Ok(TlsBinding::Plain)),
        (LogLevel::Info, "CSMS server restarted".to_string())
    );
    assert_eq!(
        server_restarted(&Ok(TlsBinding::SelfSigned)),
        (
            LogLevel::Info,
            "CSMS server restarted (wss without certificates: using an ephemeral self-signed certificate)"
                .to_string()
        )
    );
    assert_eq!(
        server_restarted(&Err("in use".to_string())),
        (LogLevel::Error, "listen failed: in use".to_string())
    );
}

// --- refresh -----------------------------------------------------------------

#[test]
fn st_setup_switch_cases() {
    assert_eq!(client_setup_switch(true, true, true, true), SetupSwitch::ReplaceWithServer);
    assert_eq!(
        client_setup_switch(false, true, true, false),
        SetupSwitch::ReplaceWithClient { warn_scripts: true }
    );
    assert_eq!(
        client_setup_switch(false, false, true, true),
        SetupSwitch::UpdateInPlace { restart: true }
    );
    assert_eq!(
        client_setup_switch(false, false, false, false),
        SetupSwitch::UpdateInPlace { restart: false }
    );
}

#[test]
fn st_server_setup_switch_and_stop_messages() {
    let role = server_setup_switch(true, true);
    assert_eq!(role, SetupSwitch::ReplaceWithClient { warn_scripts: false });
    assert_eq!(server_setup_switch(false, true), SetupSwitch::ReplaceWithServer);
    let update = server_setup_switch(false, false);
    assert_eq!(update, SetupSwitch::UpdateInPlace { restart: false });
    assert_eq!(setup_stop_failed(Side::Server, role, "e"), "Stop before role switch failed: e");
    assert_eq!(
        setup_stop_failed(Side::Server, SetupSwitch::ReplaceWithServer, "e"),
        "Stop before version switch failed: e"
    );
    assert_eq!(setup_stop_failed(Side::Server, update, "e"), "Stop for settings update failed: e");
    assert_eq!(
        setup_stop_failed(Side::Client, SetupSwitch::ReplaceWithServer, "e"),
        "Stop before role switch failed: e"
    );
    assert_eq!(
        setup_stop_failed(Side::Client, SetupSwitch::ReplaceWithClient { warn_scripts: true }, "e"),
        "Stop before version switch failed: e"
    );
}

#[test]
fn st_heartbeat_default_cadence_is_thirty_seconds() {
    // 30 s at 10 ticks a second: the 300th tick sends.
    assert_eq!(heartbeat_tick(298, None, true, true), (299, false, false));
    assert_eq!(heartbeat_tick(299, None, true, true), (0, true, false));
    assert_eq!(heartbeat_tick(9, Some(1), true, true), (0, true, false));
    // An interval of 0 counts as 1 s.
    assert_eq!(heartbeat_tick(9, Some(0), true, true), (0, true, false));
}

#[test]
fn st_heartbeat_lost_connection_resets() {
    assert_eq!(heartbeat_tick(120, Some(60), true, false), (0, false, true));
    assert_eq!(heartbeat_tick(120, Some(60), false, false), (120, false, false));
}

#[test]
fn st_meter_values_every_fifty_ticks() {
    assert_eq!(meter_tick(48, true, true), (49, false));
    assert_eq!(meter_tick(49, true, true), (50, true));
    assert_eq!(meter_tick(49, false, true), (49, false));
    assert_eq!(meter_tick(49, true, false), (49, false));
}

#[test]
fn st_new_messages_logs_each_once() {
    let (idx, cur) = new_messages(&[3, 5, 2, 7], 4);
    assert_eq!(idx, vec![1, 3]);
    assert_eq!(cur, 7);
    let (again, cur2) = new_messages(&[3, 5, 2, 7], cur);
    assert!(again.is_empty());
    assert_eq!(cur2, 7);
}

// --- connector transactions --------------------------------------------------

#[test]
fn st_connector_index_resolution() {
    let cs = vec![conn(1, 1, None, false), conn(2, 1, None, false), conn(2, 2, None, false)];
    assert_eq!(connector_index_for_state(&cs, Scope::evse(2, None)), Some(1));
    assert_eq!(connector_index_for_state(&cs, Scope::evse(9, None)), None);
    assert_eq!(connector_index_for_state(&cs, Scope::cs()), None);
    assert_eq!(connector_index(&cs, Scope::evse(9, None)), Some(0));
    assert_eq!(connector_index(&cs, Scope::cs()), Some(0));
    let empty: Vec<ConnectorTx<u32>> = Vec::new();
    assert_eq!(connector_index(&empty, Scope::cs()), None);
}

#[test]
fn st_end_transaction_builds_the_ended_event() {
    let mut c = conn(1, 2, Some("tx-9"), true);
    let ev = end_transaction(&mut c, 4, "2024-01-01T00:00:00.000Z").unwrap();
    let expected: serde_json::Value = serde_json::from_str(
        r#"{"eventType":"Ended","timestamp":"2024-01-01T00:00:00.000Z","triggerReason":"StopAuthorized","seqNo":4,"transactionInfo":{"transactionId":"tx-9"},"idToken":{"idToken":"TAG1","type":"Central"}}"#,
    )
    .unwrap();
    assert_eq!(from_json(&ev), expected);
    assert_eq!(c.transaction_id, None);
    assert_eq!(c.limit, None);
    assert!(!c.tx_confirmed);
    assert_eq!(c.status, "Available");
    let mut idle = conn(1, 2, None, false);
    assert!(end_transaction(&mut idle, 4, "t").is_none());
}

#[test]
fn st_stop_event_targets_the_scoped_connector() {
    let mut cs = vec![conn(1, 1, Some("a"), true), conn(2, 1, Some("b"), true)];
    let ev = stop_event(&mut cs, Scope::evse(2, None), 1, "t").unwrap();
    assert_eq!(from_json(&ev)["transactionInfo"]["transactionId"], "b");
    assert_eq!(cs[0].transaction_id.as_deref(), Some("a"));
    assert_eq!(cs[1].transaction_id, None);
    // Nothing open on the resolved connector: nothing is built.
    assert!(stop_event(&mut cs, Scope::evse(2, None), 2, "t").is_none());
}

#[test]
fn st_rollback_only_the_started_transaction() {
    let mut cs = vec![conn(1, 1, Some("a"), false)];
    rollback_tx(&mut cs, Scope::evse(1, None), Some("other"));
    assert_eq!(cs[0].transaction_id.as_deref(), Some("a"));
    rollback_tx(&mut cs, Scope::evse(1, None), Some("a"));
    assert_eq!(cs[0].transaction_id, None);
    assert_eq!(cs[0].limit, None);
    assert_eq!(cs[0].status, "Available");
}

#[test]
fn st_confirm_and_meter_scopes() {
    let mut cs = vec![conn(1, 1, Some("a"), false), conn(2, 1, Some("b"), true), conn(3, 1, None, true)];
    assert_eq!(active_meter_scopes(&cs), vec![Scope::evse(2, None)]);
    confirm_tx(&mut cs, Scope::evse(1, None), Some("a"));
    assert!(cs[0].tx_confirmed);
    assert_eq!(active_meter_scopes(&cs), vec![Scope::evse(1, None), Scope::evse(2, None)]);
}

// --- CSMS entry table --------------------------------------------------------

fn entry(identity: &str, scope: Scope, conn: Option<u64>, tx: Option<&str>) -> EntryLink {
    EntryLink {
        identity: identity.to_string(),
        scope,
        conn,
        online: conn.is_some(),
        transaction_id: tx.map(|t| t.to_string()),
    }
}

#[test]
fn st_connect_then_disconnect() {
    let mut es = vec![
        entry("cp1", Scope::cs(), None, None),
        entry("cp1", Scope::evse(1, None), None, None),
        entry("cp2", Scope::cs(), Some(7), None),
    ];
    mark_connected(&mut es, "cp1", 3);
    assert!(es[0].online && es[1].online);
    assert_eq!(es[1].conn, Some(3));
    assert_eq!(es[2].conn, Some(7));
    mark_disconnected(&mut es, 3);
    assert!(!es[0].online && !es[1].online);
    assert_eq!(es[0].conn, None);
    assert!(es[2].online);
}

#[test]
fn st_entry_lookup_and_stop_routing() {
    let es = vec![
        entry("cp1", Scope::cs(), Some(1), None),
        entry("cp1", Scope::connector(1), Some(1), Some("T1")),
        entry("cp1", Scope::connector(2), Some(1), Some("T2")),
    ];
    assert_eq!(entry_position(&es, "cp1", Scope::connector(2)), Some(2));
    assert_eq!(entry_position(&es, "cp9", Scope::cs()), None);
    assert_eq!(connector_scope_for_tx(&es, "cp1", "T2"), Some(Scope::connector(2)));
    assert_eq!(connector_scope_for_tx(&es, "cp2", "T2"), None);
    assert_eq!(inbound_target(&es, "cp1", Scope::cs(), Some("T1")), Scope::connector(1));
    assert_eq!(inbound_target(&es, "cp1", Scope::cs(), Some("T9")), Scope::cs());
    assert_eq!(inbound_target(&es, "cp1", Scope::connector(2), Some("T1")), Scope::connector(2));
    assert_eq!(inbound_target(&es, "cp1", Scope::cs(), None), Scope::cs());
}

#[test]
fn st_merge_config_rows_upserts() {
    let mut store = vec![
        ("A".to_string(), "1".to_string(), false),
        ("B".to_string(), "2".to_string(), true),
    ];
    merge_config_rows(
        &mut store,
        vec![("B".to_string(), "3".to_string(), false), ("C".to_string(), "4".to_string(), true)],
    );
    assert_eq!(
        store,
        vec![
            ("A".to_string(), "1".to_string(), false),
            ("B".to_string(), "3".to_string(), false),
            ("C".to_string(), "4".to_string(), true),
        ]
    );
}

#[test]
fn st_start_then_stop_ends_the_minted_transaction() {
    let mut cs = vec![conn(1, 1, None, false), conn(2, 3, None, false)];
    let started = start_event(&mut cs, Scope::evse(2, None), "tx-1".to_string(), 0, "t0");
    let expected: serde_json::Value = serde_json::from_str(
        r#"{"eventType":"Started","timestamp":"t0","triggerReason":"Authorized","seqNo":0,"transactionInfo":{"transactionId":"tx-1"},"idToken":{"idToken":"TAG1","type":"Central"},"evse":{"id":2,"connectorId":3}}"#,
    )
    .unwrap();
    assert_eq!(from_json(&started), expected);
    assert_eq!(cs[1].status, "Occupied");
    assert_eq!(cs[1].transaction_id.as_deref(), Some("tx-1"));
    assert_eq!(cs[0].transaction_id, None);
    let ended = stop_event(&mut cs, Scope::evse(2, None), 1, "t1").unwrap();
    assert_eq!(from_json(&ended)["transactionInfo"]["transactionId"], "tx-1");
    assert_eq!(cs[1].transaction_id, None);
    let mut none: Vec<ConnectorTx<u32>> = Vec::new();
    let empty = start_event(&mut none, Scope::cs(), "tx".to_string(), 0, "t");
    assert_eq!(from_json(&empty), serde_json::Value::Object(serde_json::Map::new()));
}

#[test]
fn st_session_sim_runs_only_enabled_scripts() {
    let def = |n: &str, on: bool| ferrowl::session::ScriptDef {
        name: n.to_string(),
        code: format!("-- {n}"),
        enabled: on,
    };
    let picked = ferrowl::session::enabled_scripts(&[def("a", true), def("b", false), def("c", true)]);
    assert_eq!(
        picked,
        vec![("a".to_string(), "-- a".to_string()), ("c".to_string(), "-- c".to_string())]
    );
    assert!(ferrowl::session::enabled_scripts(&[def("b", false)]).is_empty());
}
