use ferrowl::ocpp::client::{
    add_connector_placeholder, clear_limit_by_purpose, config_title, conn_edit_field,
    connector_address, has_tx_shortcuts, parse_id, phase_choices, state_driven, status_choices,
    ChargeLimits, EditField,
};
use ferrowl::ocpp::device::{CertSource, ConnectorRfids, ServerTlsPolicy};
use ferrowl::ocpp::message::{civil_from_days, next_seq, push_capped, rfc3339, Dir, MsgSeq, MAX_MESSAGES};
use ferrowl::ocpp::rfid::{cs_authorized, scope_authorized, RfidStore};
use ferrowl::ocpp::scope::Scope;
use ferrowl::ocpp::status::{client_connection_status, server_connection_status, ConnStatus};
use ferrowl::ocpp::server::{
    config_action, config_has_component, config_key_parts, cs_status, evse_status,
    fill_device_rfids, handle_rfid, lua_connector_id, rfid_store_from_device, set_action,
    started_message, tls_binding, RfidReply, TlsBinding,
};

fn store(cs: &[&str]) -> RfidStore {
    RfidStore {
        cs: cs.iter().map(|s| s.to_string()).collect(),
        ..Default::default()
    }
}

fn limits() -> ChargeLimits<f64> {
    ChargeLimits {
        limit: None,
        default_limit: None,
        max_limit: None,
        external_limit: None,
    }
}

#[test]
fn message_seqs_are_strictly_increasing() {
    let mut seq = MsgSeq::new();
    let a = next_seq(&mut seq);
    let b = next_seq(&mut seq);
    let c = next_seq(&mut seq);
    assert!(a < b && b < c);
}

#[test]
fn ut_message_seq_starts_at_one() {
    let mut seq = MsgSeq::new();
    assert_eq!(next_seq(&mut seq), 1);
    assert_eq!(next_seq(&mut seq), 2);
}

#[test]
fn ut_push_capped_keeps_newest_window() {
    let mut buf: Vec<usize> = Vec::new();
    for i in 0..(MAX_MESSAGES + 50) {
        push_capped(&mut buf, i);
    }
    assert_eq!(buf.len(), MAX_MESSAGES);
    assert_eq!(buf[0], 50);
    assert_eq!(buf[MAX_MESSAGES - 1], MAX_MESSAGES + 49);
}

#[test]
fn ut_rfc3339_formats_epoch_and_known_instant() {
    assert_eq!(rfc3339(0), "1970-01-01T00:00:00Z");
    // 1_000_000_000 s since the epoch is 2001-09-09T01:46:40Z.
    assert_eq!(rfc3339(1_000_000_000_000), "2001-09-09T01:46:40Z");
}

#[test]
fn ut_rfc3339_leap_day_and_year_end() {
    // 2000-02-29 is a leap day (divisible by 400).
    assert_eq!(rfc3339(951_782_400_000), "2000-02-29T00:00:00Z");
    assert_eq!(rfc3339(951_868_799_999), "2000-02-29T23:59:59Z");
    // The last second of 1999.
    assert_eq!(rfc3339(946_684_799_000), "1999-12-31T23:59:59Z");
}

#[test]
fn ut_dir_label() {
    assert_eq!(Dir::In.label(), "Inbound");
    assert_eq!(Dir::Out.label(), "Outbound");
}

#[test]
fn ut_clear_limit_by_purpose_matches_only_named_field() {
    let mut c = limits();
    c.limit = Some(1.0);
    c.default_limit = Some(2.0);
    c.max_limit = Some(3.0);
    c.external_limit = Some(4.0);
    clear_limit_by_purpose(&mut c, Some("TxProfile"));
    assert_eq!(c.limit, None);
    assert_eq!(c.default_limit, Some(2.0));
    assert_eq!(c.max_limit, Some(3.0));
    assert_eq!(c.external_limit, Some(4.0));
}

#[test]
fn ut_clear_limit_by_purpose_unknown_clears_nothing() {
    let mut c = limits();
    c.limit = Some(1.0);
    c.default_limit = Some(2.0);
    clear_limit_by_purpose(&mut c, Some("Nonsense"));
    assert_eq!(c.limit, Some(1.0));
    assert_eq!(c.default_limit, Some(2.0));
}

#[test]
fn ut_clear_limit_by_purpose_none_clears_all() {
    let mut c = limits();
    c.limit = Some(1.0);
    c.default_limit = Some(2.0);
    c.max_limit = Some(3.0);
    c.external_limit = Some(4.0);
    clear_limit_by_purpose(&mut c, None);
    assert!(c.limit.is_none() && c.default_limit.is_none());
    assert!(c.max_limit.is_none() && c.external_limit.is_none());
}

#[test]
fn ut_clear_limit_by_purpose_external_constraints() {
    let mut c = limits();
    c.max_limit = Some(3.0);
    c.external_limit = Some(4.0);
    clear_limit_by_purpose(&mut c, Some("ChargingStationExternalConstraints"));
    assert_eq!(c.max_limit, Some(3.0));
    assert_eq!(c.external_limit, None);
    clear_limit_by_purpose(&mut c, Some("ChargingStationMaxProfile"));
    assert_eq!(c.max_limit, None);
}

#[test]
fn ut_state_driven_set_and_flags() {
    assert!(state_driven().contains(&"BootNotification"));
    assert!(state_driven().contains(&"Heartbeat"));
    assert!(!state_driven().contains(&"RequestStartTransaction"));
    assert!(has_tx_shortcuts());
    assert_eq!(config_title(), "Variables");
    assert_eq!(add_connector_placeholder(), "Add evse/connector");
}

#[test]
fn ut_choice_lists() {
    assert_eq!(status_choices().len(), 5);
    assert_eq!(status_choices()[1], "Occupied");
    assert_eq!(phase_choices().len(), 7);
    assert_eq!(phase_choices()[6], "L1,L2,L3");
}

#[test]
fn ut_parse_id_tolerates_labels() {
    assert_eq!(parse_id("e1"), Some(1));
    assert_eq!(parse_id(" C2 "), Some(2));
    assert_eq!(parse_id("ec 7"), Some(7));
    assert_eq!(parse_id("12"), Some(12));
    assert_eq!(parse_id("-3"), Some(-3));
    assert_eq!(parse_id("x1"), None);
    assert_eq!(parse_id(""), None);
    assert_eq!(parse_id("e"), None);
}

#[test]
fn ut_connector_address_reads_evse_slash_connector() {
    assert_eq!(connector_address("2/3"), Some((2, 3)));
    assert_eq!(connector_address("7"), Some((1, 7)));
    assert_eq!(connector_address("bad"), None);
    assert_eq!(connector_address("x/4"), Some((1, 4)));
    assert_eq!(connector_address("2/x"), None);
    assert_eq!(connector_address("e2/c5"), Some((2, 5)));
}

#[test]
fn ut_conn_edit_field_maps_rows_and_bounds() {
    assert!(matches!(conn_edit_field(0), Some(EditField::EvseId)));
    assert!(matches!(conn_edit_field(4), Some(EditField::Current(0))));
    assert!(matches!(conn_edit_field(13), Some(EditField::Status)));
    assert!(matches!(conn_edit_field(14), Some(EditField::Rfid)));
    assert!(conn_edit_field(15).is_none());
}

#[test]
fn ut_edit_field_cs_rows_and_labels() {
    assert_eq!(EditField::from_cs_row(0), Some(EditField::Model));
    assert_eq!(EditField::from_cs_row(3), Some(EditField::SerialNumber));
    assert_eq!(EditField::from_cs_row(4), None);
    assert_eq!(EditField::from_cs_row(5), None);
    assert_eq!(EditField::from_cs_row(9), Some(EditField::MeterType));
    assert_eq!(EditField::from_cs_row(10), None);
    assert_eq!(EditField::Current(1).label(), "Current L2");
    assert_eq!(EditField::Current(2).label(), "Current L3");
    assert_eq!(EditField::Soc.label(), "State of Charge");
    assert_eq!(EditField::MeterSerialNumber.label(), "Meter Serial Number");
}

#[test]
fn ut_add_remove_dedup() {
    let mut s = RfidStore::default();
    assert!(s.add(Scope::cs(), "A".into()));
    assert!(!s.add(Scope::cs(), "A".into())); // duplicate
    assert!(s.add(Scope::connector(1), "B".into()));
    assert_eq!(s.scope_list(Scope::connector(1)), ["B"]);
    assert!(s.remove(Scope::connector(1), "B"));
    assert!(!s.remove(Scope::connector(1), "B")); // already gone
    assert!(s.scope_list(Scope::connector(1)).is_empty());
}

#[test]
fn ut_empty_everywhere_accepts_all() {
    let s = store(&[]);
    assert!(cs_authorized(&s, "ANY"));
    assert!(scope_authorized(&s, Scope::connector(1), "ANY"));
}

#[test]
fn ut_cs_authorize_unions_all_connectors() {
    let mut s = store(&["CS"]);
    s.add(Scope::connector(2), "CONN2".into());
    assert!(cs_authorized(&s, "CS"));
    assert!(cs_authorized(&s, "CONN2"));
    assert!(!cs_authorized(&s, "NOPE"));
}

#[test]
fn ut_scope_authorize_inherits_cs_only() {
    let mut s = store(&["CS"]);
    s.add(Scope::connector(1), "CONN1".into());
    assert!(scope_authorized(&s, Scope::connector(1), "CONN1"));
    assert!(scope_authorized(&s, Scope::connector(1), "CS"));
    assert!(!scope_authorized(&s, Scope::connector(2), "CONN1"));
    assert!(scope_authorized(&s, Scope::connector(2), "CS"));
    assert!(!scope_authorized(&s, Scope::connector(2), "NOPE"));
}

#[test]
fn ut_add_then_remove_restores_list() {
    let mut s = store(&["X", "Y"]);
    assert!(s.add(Scope::cs(), "Z".into()));
    assert!(s.remove(Scope::cs(), "Z"));
    assert_eq!(s.cs, ["X", "Y"]);
}

#[test]
fn ut_rfid_store_device_roundtrip() {
    let rfids = vec!["CS1".to_string()];
    let connector_rfids = vec![ConnectorRfids {
        evse: Some(2),
        connector: None,
        rfids: vec!["EVSE2".into()],
    }];
    let store = rfid_store_from_device(&rfids, &connector_rfids);
    assert_eq!(store.cs, ["CS1"]);
    assert_eq!(store.scope_list(Scope::evse(2, None)), ["EVSE2"]);

    let (back_rfids, back_connectors) = fill_device_rfids(&store);
    assert_eq!(back_rfids, rfids);
    assert_eq!(back_connectors, connector_rfids);
}

#[test]
fn ut_empty_connector_lists_not_persisted() {
    let mut store = RfidStore::default();
    store.add(Scope::connector(1), "X".into());
    store.remove(Scope::connector(1), "X");
    let (_, connectors) = fill_device_rfids(&store);
    assert!(connectors.is_empty());
}

#[test]
fn ut_persisted_connector_lists_are_sorted() {
    let mut store = RfidStore::default();
    store.add(Scope::evse(3, None), "C".into());
    store.add(Scope::connector(2), "B".into());
    store.add(Scope::evse(1, Some(2)), "A2".into());
    store.add(Scope::evse(1, None), "A".into());
    let (_, connectors) = fill_device_rfids(&store);
    let keys: Vec<(Option<i64>, Option<i64>)> =
        connectors.iter().map(|c| (c.evse, c.connector)).collect();
    assert_eq!(
        keys,
        vec![(None, Some(2)), (Some(1), None), (Some(1), Some(2)), (Some(3), None)]
    );
}

#[test]
fn ut_rfid_store_later_entry_replaces_earlier() {
    let entries = vec![
        ConnectorRfids {
            evse: None,
            connector: Some(1),
            rfids: vec!["OLD".into()],
        },
        ConnectorRfids {
            evse: None,
            connector: Some(1),
            rfids: vec!["NEW".into()],
        },
    ];
    let store = rfid_store_from_device(&Vec::new(), &entries);
    assert_eq!(store.scope_list(Scope::connector(1)), ["NEW"]);
}

#[test]
fn ut_status_texts() {
    let mut s = store(&["CS"]);
    s.add(Scope::evse(1, None), "E1".into());
    assert_eq!(cs_status(&s, "E1"), "Accepted");
    assert_eq!(cs_status(&s, "NOPE"), "Invalid");
    assert_eq!(evse_status(&s, 1, "E1"), "Accepted");
    assert_eq!(evse_status(&s, 2, "E1"), "Invalid");
    assert_eq!(evse_status(&s, 2, "CS"), "Accepted");
}

#[test]
fn ut_handle_rfid_subcommands() {
    let mut s = RfidStore::default();
    match handle_rfid(&mut s, None) {
        RfidReply::Info(m) => assert_eq!(m, "CS RFID accept-list empty (all tags accepted)"),
        _ => panic!("bare :rfid lists the accept-list"),
    }
    match handle_rfid(&mut s, Some("add  T1 ")) {
        RfidReply::Info(m) => assert_eq!(m, "Added CS RFID T1"),
        _ => panic!("add reports the new tag"),
    }
    match handle_rfid(&mut s, Some("add T1")) {
        RfidReply::Warning(m) => assert_eq!(m, "T1 already in accept-list"),
        _ => panic!("a duplicate is a warning"),
    }
    handle_rfid(&mut s, Some("add T2"));
    match handle_rfid(&mut s, None) {
        RfidReply::Info(m) => assert_eq!(m, "Accepted CS RFIDs: T1, T2"),
        _ => panic!("bare :rfid lists the accept-list"),
    }
    match handle_rfid(&mut s, Some("add  ")) {
        RfidReply::Warning(m) => assert_eq!(m, "Usage: :rfid add <tag>"),
        _ => panic!("an empty tag is a usage warning"),
    }
    match handle_rfid(&mut s, Some("del T1")) {
        RfidReply::Info(m) => assert_eq!(m, "Removed CS RFID T1"),
        _ => panic!("del reports the removed tag"),
    }
    match handle_rfid(&mut s, Some("del T1")) {
        RfidReply::Warning(m) => assert_eq!(m, "T1 not in accept-list"),
        _ => panic!("deleting a missing tag is a warning"),
    }
    assert!(matches!(handle_rfid(&mut s, Some("drop")), RfidReply::Unhandled));
    match handle_rfid(&mut s, Some("clear")) {
        RfidReply::Info(m) => assert_eq!(m, "CS RFID accept-list cleared (all accepted)"),
        _ => panic!("clear empties the list"),
    }
    assert!(s.cs.is_empty());
}

#[test]
fn ut_tls_binding_and_started_message() {
    assert_eq!(tls_binding(&ServerTlsPolicy::Disabled {}), TlsBinding::Plain);
    assert_eq!(
        tls_binding(&ServerTlsPolicy::Tls {
            identity: CertSource::Ephemeral {}
        }),
        TlsBinding::SelfSigned
    );
    assert_eq!(
        tls_binding(&ServerTlsPolicy::Tls {
            identity: CertSource::Files {
                cert_file: "a".into(),
                key_file: "b".into()
            }
        }),
        TlsBinding::Certificates
    );
    assert_eq!(started_message(TlsBinding::Plain, "started"), "CSMS server started");
    assert_eq!(
        started_message(TlsBinding::SelfSigned, "restarted"),
        "CSMS server restarted (wss without certificates: using an ephemeral self-signed certificate)"
    );
}

#[test]
fn ut_server_version_tables() {
    assert_eq!(lua_connector_id(Scope::evse(4, Some(1))), Some(4));
    assert_eq!(lua_connector_id(Scope::cs()), None);
    assert!(config_has_component());
    assert_eq!(config_action(), "GetVariables");
    assert_eq!(set_action(), "SetVariables");
    assert_eq!(config_key_parts("OCPPCommCtrlr/HeartbeatInterval"), ("OCPPCommCtrlr", "HeartbeatInterval"));
    assert_eq!(config_key_parts("Plain"), ("Plain", "Plain"));
    assert_eq!(config_key_parts("a/b/c"), ("a", "b/c"));
}

#[test]
fn ut_civil_from_days_known_dates() {
    assert_eq!(civil_from_days(0), (1970, 1, 1));
    assert_eq!(civil_from_days(-1), (1969, 12, 31));
    assert_eq!(civil_from_days(10957), (2000, 1, 1));
    assert_eq!(civil_from_days(11016), (2000, 2, 29));
    assert_eq!(civil_from_days(11017), (2000, 3, 1));
    // 1900 is not a leap year: 1900-02-28 is followed by 1900-03-01.
    assert_eq!(civil_from_days(-25509), (1900, 2, 28));
    assert_eq!(civil_from_days(-25508), (1900, 3, 1));
    assert_eq!(civil_from_days(-719468), (0, 3, 1));
}

#[test]
fn ut_connection_status_decisions() {
    assert_eq!(client_connection_status(None, true), ConnStatus::Disconnected);
    assert_eq!(client_connection_status(Some(false), true), ConnStatus::Disconnected);
    assert_eq!(client_connection_status(Some(true), true), ConnStatus::Connected);
    assert_eq!(client_connection_status(Some(true), false), ConnStatus::Reconnecting);
    assert_eq!(server_connection_status(None, false), ConnStatus::Disconnected);
    assert_eq!(server_connection_status(Some(true), false), ConnStatus::Reconnecting);
    assert_eq!(server_connection_status(Some(true), true), ConnStatus::Connected);
}

#[test]
fn ut_reloaded_store_decides_the_same() {
    let mut store = store(&[]);
    store.add(Scope::connector(1), "X".into());
    store.remove(Scope::connector(1), "X");
    store.add(Scope::connector(2), "Y".into());
    let (cs, connectors) = fill_device_rfids(&store);
    let back = rfid_store_from_device(&cs, &connectors);
    for tag in ["X", "Y", "Z"] {
        assert_eq!(cs_authorized(&back, tag), cs_authorized(&store, tag));
        for c in 1..4 {
            assert_eq!(
                scope_authorized(&back, Scope::connector(c), tag),
                scope_authorized(&store, Scope::connector(c), tag)
            );
        }
    }
}
