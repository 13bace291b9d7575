use ferrowl::ocpp::device::{
    CertSource, CertVerification, ClientTlsPolicy, OcppRole, OcppSecurityConfig, OcppTlsConfig,
    ServerTlsPolicy,
};
use ferrowl::ocpp::security::{
    security_file_checks, validate_security, EffectiveTlsLevel, SecurityInputs, TlsLevel,
};

#[test]
fn ut_effective_tls_level_from_tls_level() {
    assert_eq!(
        EffectiveTlsLevel::from(TlsLevel::Off),
        EffectiveTlsLevel::Off
    );
    assert_eq!(
        EffectiveTlsLevel::from(TlsLevel::Tls),
        EffectiveTlsLevel::Tls
    );
    assert_eq!(
        EffectiveTlsLevel::from(TlsLevel::MutualTls),
        EffectiveTlsLevel::MutualTls
    );
}

fn inputs<'a>(
    username: &'a str,
    password: &'a str,
    cert_file: &'a str,
    key_file: &'a str,
    client_cert_file: &'a str,
    client_key_file: &'a str,
    ca_files: &'a [String],
) -> SecurityInputs<'a> {
    SecurityInputs {
        username,
        password,
        basic_auth: true,
        cert_file,
        key_file,
        client_cert_file,
        client_key_file,
        ca_files,
        self_signed: false,
        skip_verify: false,
        client_cert_skip_verify: false,
        root_store: true,
    }
}

// --- TlsLevel::from_config -----------------------------------------------------------

#[test]
fn ut_from_config_none_both_roles() {
    let cfg = OcppSecurityConfig::default();
    assert_eq!(TlsLevel::from_config(&cfg, OcppRole::Client), TlsLevel::Off);
    assert_eq!(TlsLevel::from_config(&cfg, OcppRole::Server), TlsLevel::Off);
}

#[test]
fn ut_from_config_tls_client_is_ca_file() {
    let cfg = OcppSecurityConfig {
        tls: OcppTlsConfig {
            client: ClientTlsPolicy::Tls {
                verification: CertVerification::RootStore {
                    extra_ca_files: vec!["ca.pem".into()],
                },
            },
            ..Default::default()
        },
        ..Default::default()
    };
    assert_eq!(TlsLevel::from_config(&cfg, OcppRole::Client), TlsLevel::Tls);
}

#[test]
fn ut_from_config_tls_server_is_cert_and_key() {
    let cfg = OcppSecurityConfig {
        tls: OcppTlsConfig {
            server: ServerTlsPolicy::Tls {
                identity: CertSource::Files {
                    cert_file: "s.crt".into(),
                    key_file: "s.key".into(),
                },
            },
            ..Default::default()
        },
        ..Default::default()
    };
    assert_eq!(TlsLevel::from_config(&cfg, OcppRole::Server), TlsLevel::Tls);
}

#[test]
fn ut_from_config_tls_client_with_empty_root_store_is_still_tls() {
    let cfg = OcppSecurityConfig {
        tls: OcppTlsConfig {
            client: ClientTlsPolicy::Tls {
                verification: CertVerification::RootStore {
                    extra_ca_files: vec![],
                },
            },
            ..Default::default()
        },
        ..Default::default()
    };
    assert_eq!(TlsLevel::from_config(&cfg, OcppRole::Client), TlsLevel::Tls);
}

#[test]
fn ut_from_config_tls_server_self_signed_is_still_tls() {
    let cfg = OcppSecurityConfig {
        tls: OcppTlsConfig {
            server: ServerTlsPolicy::Tls {
                identity: CertSource::SelfSigned {},
            },
            ..Default::default()
        },
        ..Default::default()
    };
    assert_eq!(TlsLevel::from_config(&cfg, OcppRole::Server), TlsLevel::Tls);
}

#[test]
fn ut_from_config_tls_server_ephemeral_is_still_tls() {
    let cfg = OcppSecurityConfig {
        tls: OcppTlsConfig {
            server: ServerTlsPolicy::Tls {
                identity: CertSource::Ephemeral {},
            },
            ..Default::default()
        },
        ..Default::default()
    };
    assert_eq!(TlsLevel::from_config(&cfg, OcppRole::Server), TlsLevel::Tls);
}

#[test]
fn ut_from_config_mutual_tls_client_is_client_cert() {
    let cfg = OcppSecurityConfig {
        tls: OcppTlsConfig {
            client: ClientTlsPolicy::Mutual {
                verification: CertVerification::RootStore {
                    extra_ca_files: vec![],
                },
                identity: CertSource::Files {
                    cert_file: "c.crt".into(),
                    key_file: "c.key".into(),
                },
            },
            ..Default::default()
        },
        ..Default::default()
    };
    assert_eq!(
        TlsLevel::from_config(&cfg, OcppRole::Client),
        TlsLevel::MutualTls
    );
}

#[test]
fn ut_from_config_mutual_tls_server() {
    let cfg = OcppSecurityConfig {
        tls: OcppTlsConfig {
            server: ServerTlsPolicy::Mutual {
                identity: CertSource::SelfSigned {},
                verification: CertVerification::CaFiles {
                    ca_files: vec!["ca.pem".to_string()],
                },
            },
            ..Default::default()
        },
        ..Default::default()
    };
    assert_eq!(
        TlsLevel::from_config(&cfg, OcppRole::Server),
        TlsLevel::MutualTls
    );
}

// --- TlsLevel::build_config -----------------------------------------------------------

#[test]
fn ut_selector_off_resolves_none_policy_server() {
    let cfg = TlsLevel::Off
        .build_config(
            OcppRole::Server,
            inputs(
                "u",
                "p",
                "cert",
                "key",
                "ccert",
                "ckey",
                &["cca".to_string()],
            ),
        )
        .unwrap();
    assert_eq!(cfg.username.as_deref(), Some("u"));
    assert_eq!(cfg.tls.server, ServerTlsPolicy::Disabled {});
}

#[test]
fn ut_selector_off_resolves_none_policy_client() {
    let cfg = TlsLevel::Off
        .build_config(OcppRole::Client, inputs("", "", "", "", "", "", &[]))
        .unwrap();
    assert_eq!(cfg.tls.client, ClientTlsPolicy::Disabled {});
}

#[test]
fn ut_build_config_mutual_tls_server_parses_ca_list() {
    let cfg = TlsLevel::MutualTls
        .build_config(
            OcppRole::Server,
            inputs(
                "",
                "",
                "cert",
                "key",
                "",
                "",
                &["ca1.pem".to_string(), "ca2.pem".to_string()],
            ),
        )
        .unwrap();
    match cfg.tls.server {
        ServerTlsPolicy::Mutual {
            verification: CertVerification::CaFiles { ca_files },
            ..
        } => assert_eq!(ca_files, vec!["ca1.pem".to_string(), "ca2.pem".to_string()]),
        other => panic!("expected Mutual with CaFiles, got {other:?}"),
    }
}

#[test]
fn ut_build_config_mutual_tls_server_empty_ca_list_and_skip_verify_off_is_validation_error() {
    let err = TlsLevel::MutualTls
        .build_config(OcppRole::Server, inputs("", "", "cert", "key", "", "", &[]))
        .unwrap_err();
    assert!(err.contains("Client CA list is required"));
}

#[test]
fn ut_build_config_mutual_tls_client_self_signed_excludes_cert_key() {
    let mut i = inputs("", "", "", "", "stale.crt", "stale.key", &[]);
    i.self_signed = true;
    let cfg = TlsLevel::MutualTls
        .build_config(OcppRole::Client, i)
        .unwrap();
    assert_eq!(
        cfg.tls.client,
        ClientTlsPolicy::Mutual {
            verification: CertVerification::RootStore {
                extra_ca_files: vec![],
            },
            identity: CertSource::SelfSigned {},
        }
    );
}

#[test]
fn ut_build_config_mutual_tls_client_keeps_client_cert_key() {
    let cfg = TlsLevel::MutualTls
        .build_config(
            OcppRole::Client,
            inputs("", "", "", "", "ccert", "ckey", &["ca".to_string()]),
        )
        .unwrap();
    assert_eq!(
        cfg.tls.client,
        ClientTlsPolicy::Mutual {
            verification: CertVerification::RootStore {
                extra_ca_files: vec!["ca".to_string()],
            },
            identity: CertSource::Files {
                cert_file: "ccert".to_string(),
                key_file: "ckey".to_string(),
            },
        }
    );
}

#[test]
fn ut_cs_root_store_on_resolves_root_store_with_list() {
    let list = ["ca1.pem".to_string()];
    let mut i = inputs("", "", "", "", "", "", &list);
    i.root_store = true;
    let cfg = TlsLevel::Tls.build_config(OcppRole::Client, i).unwrap();
    assert_eq!(
        cfg.tls.client,
        ClientTlsPolicy::Tls {
            verification: CertVerification::RootStore {
                extra_ca_files: vec!["ca1.pem".to_string()],
            },
        }
    );
}

#[test]
fn ut_cs_root_store_off_empty_list_is_validation_error() {
    let mut i = inputs("", "", "", "", "", "", &[]);
    i.root_store = false;
    let err = TlsLevel::Tls.build_config(OcppRole::Client, i).unwrap_err();
    assert!(err.contains("Root Store is Off"));
}

#[test]
fn ut_cs_root_store_off_resolves_ca_files_with_list() {
    let list = ["ca1.pem".to_string()];
    let mut i = inputs("", "", "", "", "", "", &list);
    i.root_store = false;
    let cfg = TlsLevel::Tls.build_config(OcppRole::Client, i).unwrap();
    assert_eq!(
        cfg.tls.client,
        ClientTlsPolicy::Tls {
            verification: CertVerification::CaFiles {
                ca_files: vec!["ca1.pem".to_string()],
            },
        }
    );
}

#[test]
fn ut_basic_auth_off_unsets_credentials_regardless_of_text() {
    let mut i = inputs("u", "p", "", "", "", "", &[]);
    i.basic_auth = false;
    let cfg = TlsLevel::Tls.build_config(OcppRole::Client, i).unwrap();
    assert_eq!(cfg.username, None);
    assert_eq!(cfg.password, None);
}

// --- validate_security -----------------------------------------------------------------------

#[test]
fn ut_validate_security_server_self_signed_needs_no_files() {
    let cfg = OcppSecurityConfig {
        tls: OcppTlsConfig {
            server: ServerTlsPolicy::Tls {
                identity: CertSource::SelfSigned {},
            },
            ..Default::default()
        },
        ..Default::default()
    };
    assert!(validate_security(&cfg, OcppRole::Server, TlsLevel::Tls, &|_| false).is_ok());
}

#[test]
fn ut_validate_security_server_mutual_tls_requires_client_ca_files() {
    let cfg = OcppSecurityConfig {
        tls: OcppTlsConfig {
            server: ServerTlsPolicy::Mutual {
                identity: CertSource::SelfSigned {},
                verification: CertVerification::CaFiles {
                    ca_files: vec!["ca1.pem".to_string(), "ca2.pem".to_string()],
                },
            },
            ..Default::default()
        },
        ..Default::default()
    };
    assert!(validate_security(&cfg, OcppRole::Server, TlsLevel::MutualTls, &|_| true).is_ok());
    assert!(
        validate_security(&cfg, OcppRole::Server, TlsLevel::MutualTls, &|_| false).is_err()
    );
}

#[test]
fn ut_validate_security_server_mutual_tls_skip_verify_on_needs_no_ca_files() {
    let cfg = OcppSecurityConfig {
        tls: OcppTlsConfig {
            server: ServerTlsPolicy::Mutual {
                identity: CertSource::SelfSigned {},
                verification: CertVerification::Skip {},
            },
            ..Default::default()
        },
        ..Default::default()
    };
    assert!(validate_security(&cfg, OcppRole::Server, TlsLevel::MutualTls, &|_| false).is_ok());
}

#[test]
fn ut_validate_security_client_ca_file_must_exist_when_set() {
    let cfg = OcppSecurityConfig {
        tls: OcppTlsConfig {
            client: ClientTlsPolicy::Tls {
                verification: CertVerification::RootStore {
                    extra_ca_files: vec!["ca.pem".into()],
                },
            },
            ..Default::default()
        },
        ..Default::default()
    };
    assert!(validate_security(&cfg, OcppRole::Client, TlsLevel::Tls, &|_| true).is_ok());
    assert!(validate_security(&cfg, OcppRole::Client, TlsLevel::Tls, &|_| false).is_err());
}

#[test]
fn ut_validate_security_client_mutual_tls_requires_client_cert_key_files() {
    let cfg = OcppSecurityConfig {
        tls: OcppTlsConfig {
            client: ClientTlsPolicy::Mutual {
                verification: CertVerification::RootStore {
                    extra_ca_files: vec![],
                },
                identity: CertSource::Files {
                    cert_file: "c.crt".into(),
                    key_file: "c.key".into(),
                },
            },
            ..Default::default()
        },
        ..Default::default()
    };
    assert!(validate_security(&cfg, OcppRole::Client, TlsLevel::MutualTls, &|_| true).is_ok());
    assert!(
        validate_security(&cfg, OcppRole::Client, TlsLevel::MutualTls, &|_| false).is_err()
    );
}

#[test]
fn ut_validate_security_client_self_signed_needs_no_files() {
    let cfg = OcppSecurityConfig {
        tls: OcppTlsConfig {
            client: ClientTlsPolicy::Mutual {
                verification: CertVerification::RootStore {
                    extra_ca_files: vec![],
                },
                identity: CertSource::SelfSigned {},
            },
            ..Default::default()
        },
        ..Default::default()
    };
    assert!(validate_security(&cfg, OcppRole::Client, TlsLevel::MutualTls, &|_| false).is_ok());
}

#[test]
fn ut_validate_security_reports_first_missing_file_by_label() {
    let cfg = OcppSecurityConfig {
        tls: OcppTlsConfig {
            server: ServerTlsPolicy::Mutual {
                identity: CertSource::Files {
                    cert_file: "s.crt".into(),
                    key_file: "s.key".into(),
                },
                verification: CertVerification::CaFiles {
                    ca_files: vec!["ca1.pem".to_string(), "ca2.pem".to_string()],
                },
            },
            ..Default::default()
        },
        ..Default::default()
    };
    let err = validate_security(&cfg, OcppRole::Server, TlsLevel::MutualTls, &|p: &str| {
        p != "ca2.pem"
    })
    .unwrap_err();
    assert_eq!(err, "Client CA file not found: ca2.pem");
    let err = validate_security(&cfg, OcppRole::Server, TlsLevel::MutualTls, &|_| false).unwrap_err();
    assert_eq!(err, "Certificate file not found: s.crt");
    let err = validate_security(&cfg, OcppRole::Server, TlsLevel::MutualTls, &|p: &str| {
        p != "s.key"
    })
    .unwrap_err();
    assert_eq!(err, "Key file not found: s.key");
}

#[test]
fn ut_validate_security_server_tls_without_certificate_is_refused() {
    let cfg = OcppSecurityConfig::default();
    assert_eq!(
        validate_security(&cfg, OcppRole::Server, TlsLevel::Tls, &|_| true).unwrap_err(),
        "Certificate file is required for TLS."
    );
    assert!(validate_security(&cfg, OcppRole::Server, TlsLevel::Off, &|_| false).is_ok());
}

#[test]
fn ut_security_file_checks_skip_empty_client_ca_entries() {
    let cfg = OcppSecurityConfig {
        tls: OcppTlsConfig {
            client: ClientTlsPolicy::Mutual {
                verification: CertVerification::CaFiles {
                    ca_files: vec!["".to_string(), "ca.pem".to_string()],
                },
                identity: CertSource::Files {
                    cert_file: "c.crt".into(),
                    key_file: "c.key".into(),
                },
            },
            ..Default::default()
        },
        ..Default::default()
    };
    let checks = security_file_checks(&cfg, OcppRole::Client, TlsLevel::MutualTls).unwrap();
    let got: Vec<(&str, &str)> = checks.iter().map(|(l, p)| (l.as_str(), p.as_str())).collect();
    assert_eq!(
        got,
        vec![
            ("CA file", "ca.pem"),
            ("Client certificate file", "c.crt"),
            ("Client key file", "c.key"),
        ]
    );
    // At plain TLS the client's own certificate is not checked.
    let checks = security_file_checks(&cfg, OcppRole::Client, TlsLevel::Tls).unwrap();
    assert_eq!(checks.len(), 1);
}

#[test]
fn ut_build_config_server_cert_without_key_is_refused() {
    let err = TlsLevel::Tls
        .build_config(OcppRole::Server, inputs("", "", "cert", "  ", "", "", &[]))
        .unwrap_err();
    assert_eq!(err, "cert_file and key_file must both be set, or neither");
    let cfg = TlsLevel::Tls
        .build_config(OcppRole::Server, inputs(" u ", "", "", "", "", "", &[]))
        .unwrap();
    assert_eq!(cfg.username.as_deref(), Some("u"));
    assert_eq!(cfg.password, None);
    assert_eq!(
        cfg.tls.server,
        ServerTlsPolicy::Tls {
            identity: CertSource::Ephemeral {}
        }
    );
}

#[test]
fn ut_build_config_client_mutual_without_identity_is_refused() {
    let err = TlsLevel::MutualTls
        .build_config(OcppRole::Client, inputs("", "", "", "", "ccert", "", &[]))
        .unwrap_err();
    assert_eq!(
        err,
        "client_cert_file and client_key_file must both be set, or self-signed set"
    );
}

#[test]
fn ut_tls_level_labels_and_indices() {
    assert_eq!(TlsLevel::Off.to_label(), "Off");
    assert_eq!(TlsLevel::Tls.to_label(), "TLS");
    assert_eq!(TlsLevel::MutualTls.to_label(), "mTLS");
    assert_eq!(TlsLevel::Off.index(), 0);
    assert_eq!(TlsLevel::MutualTls.index(), 2);
    assert_eq!(
        ferrowl::ocpp::security::BasicAuthChoice::On.to_label(),
        "On"
    );
}

#[test]
fn ut_level_round_trips_through_built_config() {
    for level in [TlsLevel::Off, TlsLevel::Tls, TlsLevel::MutualTls] {
        let list = ["ca.pem".to_string()];
        let cfg = level
            .build_config(OcppRole::Server, inputs("", "", "cert", "key", "", "", &list))
            .unwrap();
        assert_eq!(TlsLevel::from_config(&cfg, OcppRole::Server), level);
        let cfg = level
            .build_config(OcppRole::Client, inputs("", "", "", "", "c", "k", &list))
            .unwrap();
        assert_eq!(TlsLevel::from_config(&cfg, OcppRole::Client), level);
    }
}

#[test]
fn ut_credentials_do_not_depend_on_tls_level() {
    let a = TlsLevel::Off
        .build_config(OcppRole::Client, inputs(" user ", "pw", "", "", "", "", &[]))
        .unwrap();
    let b = TlsLevel::Tls
        .build_config(OcppRole::Server, inputs(" user ", "pw", "", "", "", "", &[]))
        .unwrap();
    assert_eq!(a.username.as_deref(), Some("user"));
    assert_eq!(a.username, b.username);
    assert_eq!(a.password, b.password);
}
