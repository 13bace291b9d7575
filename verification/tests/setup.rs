use ferrowl::ocpp::device::{
    CertSource, CertVerification, ClientTlsPolicy, OcppRole, OcppSecurityConfig, OcppTlsConfig,
    ServerTlsPolicy,
};
use ferrowl::ocpp::security::{SecurityInputs, TlsLevel};
use ferrowl::ocpp::setup::{resolve_ip, resolve_name, resolve_path, resolve_port, resolve_security};

fn inputs<'a>(cert_file: &'a str, key_file: &'a str, ca_files: &'a [String]) -> SecurityInputs<'a> {
    SecurityInputs {
        username: "",
        password: "",
        basic_auth: false,
        cert_file,
        key_file,
        client_cert_file: "",
        client_key_file: "",
        ca_files,
        self_signed: false,
        skip_verify: false,
        client_cert_skip_verify: false,
        root_store: true,
    }
}

#[test]
fn ut_resolve_endpoint_fields() {
    assert_eq!(resolve_name("  cs-1 ").unwrap(), "cs-1");
    assert_eq!(resolve_name("   ").unwrap_err(), "Name is required.");
    assert_eq!(resolve_ip(""), "127.0.0.1");
    assert_eq!(resolve_ip(" 10.0.0.2 "), "10.0.0.2");
    assert_eq!(resolve_port(""), Ok(9000));
    assert_eq!(resolve_port(" 8080 "), Ok(8080));
    assert_eq!(resolve_port("+80"), Ok(80));
    assert_eq!(resolve_port("65535"), Ok(65535));
    assert_eq!(resolve_port("65536").unwrap_err(), "Port must be a number (0-65535).");
    assert_eq!(resolve_port("-0").unwrap_err(), "Port must be a number (0-65535).");
    assert_eq!(resolve_port("80a").unwrap_err(), "Port must be a number (0-65535).");
    assert_eq!(resolve_path(" ocpp/cp001 ", OcppRole::Client), "/ocpp/cp001");
    assert_eq!(resolve_path("/ocpp", OcppRole::Client), "/ocpp");
    assert_eq!(resolve_path("  ", OcppRole::Client), "");
    assert_eq!(resolve_path("/ocpp", OcppRole::Server), "");
}

#[test]
fn ut_resolve_security_keeps_other_role_and_checks_files() {
    let preserved = OcppSecurityConfig {
        tls: OcppTlsConfig {
            client: ClientTlsPolicy::Tls {
                verification: CertVerification::Skip {},
            },
            server: ServerTlsPolicy::Tls {
                identity: CertSource::SelfSigned {},
            },
        },
        ..Default::default()
    };
    let cfg = resolve_security(
        TlsLevel::Tls,
        OcppRole::Server,
        inputs("s.crt", "s.key", &[]),
        &preserved,
        &|_| true,
    )
    .unwrap();
    assert_eq!(
        cfg.tls.server,
        ServerTlsPolicy::Tls {
            identity: CertSource::Files {
                cert_file: "s.crt".into(),
                key_file: "s.key".into(),
            }
        }
    );
    assert_eq!(cfg.tls.client, preserved.tls.client);

    let err = resolve_security(
        TlsLevel::Tls,
        OcppRole::Server,
        inputs("s.crt", "s.key", &[]),
        &preserved,
        &|p: &str| p != "s.key",
    )
    .unwrap_err();
    assert_eq!(err, "Key file not found: s.key");

    let err = resolve_security(
        TlsLevel::Tls,
        OcppRole::Server,
        inputs("s.crt", "", &[]),
        &preserved,
        &|_| true,
    )
    .unwrap_err();
    assert_eq!(err, "cert_file and key_file must both be set, or neither");
}
