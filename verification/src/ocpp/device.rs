use vstd::prelude::*;

verus! {

/// The character views of a list of strings.
pub open spec fn strs(v: Seq<String>) -> Seq<Seq<char>> {
    v.map_values(|s: String| s@)
}

/// A copy of a list of strings.
pub fn clone_strings(v: &Vec<String>) -> (r: Vec<String>)
    ensures
        strs(r@) == strs(v@),
{
    let mut out: Vec<String> = Vec::new();
    let mut i: usize = 0;
    while i < v.len()
        invariant
            i <= v@.len(),
            strs(out@) == strs(v@).take(i as int),
        decreases v@.len() - i,
    {
        let c = v[i].clone();
        assert(c@ == v@[i as int]@);
        let ghost before = out@;
        out.push(c);
        assert(strs(out@) =~= strs(before).push(c@));
        assert(strs(v@).take(i + 1) =~= strs(v@).take(i as int).push(v@[i as int]@));
        i = i + 1;
    }
    assert(strs(v@).take(v@.len() as int) =~= strs(v@));
    out
}

/// The role of an OCPP module: a charging station (client) or a management system
/// (server).
#[derive(Debug, Clone, Copy, PartialEq, Eq, Structural)]
pub enum OcppRole {
    Client,
    Server,
}

/// Where a TLS endpoint's own certificate comes from.
#[derive(Debug, Clone, PartialEq, Eq)]
pub enum CertSource {
    /// A certificate generated and signed by the endpoint itself.
    SelfSigned {},
    /// A certificate and key read from files.
    Files { cert_file: String, key_file: String },
    /// The fallback when nothing is configured: a throwaway self-signed certificate.
    Ephemeral {},
}

/// How a TLS endpoint verifies its peer's certificate.
#[derive(Debug, Clone, PartialEq, Eq)]
pub enum CertVerification {
    /// Accept any certificate.
    Skip {},
    /// The platform root store, plus extra CA files.
    RootStore { extra_ca_files: Vec<String> },
    /// Exactly the listed CA files.
    CaFiles { ca_files: Vec<String> },
}

/// The TLS policy of a charging station (the websocket client).
#[derive(Debug, Clone, PartialEq, Eq)]
pub enum ClientTlsPolicy {
    Disabled {},
    Tls { verification: CertVerification },
    Mutual { verification: CertVerification, identity: CertSource },
}

/// The TLS policy of a CSMS (the websocket server).
#[derive(Debug, Clone, PartialEq, Eq)]
pub enum ServerTlsPolicy {
    Disabled {},
    Tls { identity: CertSource },
    Mutual { identity: CertSource, verification: CertVerification },
}

/// The abstract value of a [`CertSource`].
pub enum CertSourceView {
    SelfSigned,
    Files(Seq<char>, Seq<char>),
    Ephemeral,
}

/// The abstract value of a [`CertVerification`].
pub enum CertVerificationView {
    Skip,
    RootStore(Seq<Seq<char>>),
    CaFiles(Seq<Seq<char>>),
}

/// The abstract value of a [`ClientTlsPolicy`].
pub enum ClientPolicyView {
    Disabled,
    Tls(CertVerificationView),
    Mutual(CertVerificationView, CertSourceView),
}

/// The abstract value of a [`ServerTlsPolicy`].
pub enum ServerPolicyView {
    Disabled,
    Tls(CertSourceView),
    Mutual(CertSourceView, CertVerificationView),
}

impl View for CertSource {
    type V = CertSourceView;

    open spec fn view(&self) -> CertSourceView {
        match self {
            CertSource::SelfSigned {  } => CertSourceView::SelfSigned,
            CertSource::Files { cert_file, key_file } => CertSourceView::Files(cert_file@, key_file@),
            CertSource::Ephemeral {  } => CertSourceView::Ephemeral,
        }
    }
}

impl View for CertVerification {
    type V = CertVerificationView;

    open spec fn view(&self) -> CertVerificationView {
        match self {
            CertVerification::Skip {  } => CertVerificationView::Skip,
            CertVerification::RootStore { extra_ca_files } => CertVerificationView::RootStore(
                strs(extra_ca_files@),
            ),
            CertVerification::CaFiles { ca_files } => CertVerificationView::CaFiles(strs(ca_files@)),
        }
    }
}

impl View for ClientTlsPolicy {
    type V = ClientPolicyView;

    open spec fn view(&self) -> ClientPolicyView {
        match self {
            ClientTlsPolicy::Disabled {  } => ClientPolicyView::Disabled,
            ClientTlsPolicy::Tls { verification } => ClientPolicyView::Tls(verification@),
            ClientTlsPolicy::Mutual { verification, identity } => ClientPolicyView::Mutual(
                verification@,
                identity@,
            ),
        }
    }
}

impl View for ServerTlsPolicy {
    type V = ServerPolicyView;

    open spec fn view(&self) -> ServerPolicyView {
        match self {
            ServerTlsPolicy::Disabled {  } => ServerPolicyView::Disabled,
            ServerTlsPolicy::Tls { identity } => ServerPolicyView::Tls(identity@),
            ServerTlsPolicy::Mutual { identity, verification } => ServerPolicyView::Mutual(
                identity@,
                verification@,
            ),
        }
    }
}

impl CertSource {
    /// A copy of the certificate source.
    pub fn duplicate(&self) -> (r: CertSource)
        ensures
            r@ == self@,
    {
        match self {
            CertSource::SelfSigned {  } => CertSource::SelfSigned {  },
            CertSource::Files { cert_file, key_file } => CertSource::Files {
                cert_file: cert_file.clone(),
                key_file: key_file.clone(),
            },
            CertSource::Ephemeral {  } => CertSource::Ephemeral {  },
        }
    }
}

impl CertVerification {
    /// A copy of the verification setting.
    pub fn duplicate(&self) -> (r: CertVerification)
        ensures
            r@ == self@,
    {
        match self {
            CertVerification::Skip {  } => CertVerification::Skip {  },
            CertVerification::RootStore { extra_ca_files } => CertVerification::RootStore {
                extra_ca_files: clone_strings(extra_ca_files),
            },
            CertVerification::CaFiles { ca_files } => CertVerification::CaFiles {
                ca_files: clone_strings(ca_files),
            },
        }
    }
}

impl ClientTlsPolicy {
    /// A copy of the policy.
    pub fn duplicate(&self) -> (r: ClientTlsPolicy)
        ensures
            r@ == self@,
    {
        match self {
            ClientTlsPolicy::Disabled {  } => ClientTlsPolicy::Disabled {  },
            ClientTlsPolicy::Tls { verification } => ClientTlsPolicy::Tls {
                verification: verification.duplicate(),
            },
            ClientTlsPolicy::Mutual { verification, identity } => ClientTlsPolicy::Mutual {
                verification: verification.duplicate(),
                identity: identity.duplicate(),
            },
        }
    }
}

impl ServerTlsPolicy {
    /// A copy of the policy.
    pub fn duplicate(&self) -> (r: ServerTlsPolicy)
        ensures
            r@ == self@,
    {
        match self {
            ServerTlsPolicy::Disabled {  } => ServerTlsPolicy::Disabled {  },
            ServerTlsPolicy::Tls { identity } => ServerTlsPolicy::Tls { identity: identity.duplicate() },
            ServerTlsPolicy::Mutual { identity, verification } => ServerTlsPolicy::Mutual {
                identity: identity.duplicate(),
                verification: verification.duplicate(),
            },
        }
    }
}

/// The two-role TLS container for an OCPP device config: each policy independently
/// defaults to its own `Disabled` variant, so an absent block, an empty one, and one whose
/// two policies are both `Disabled` denote the same state.
#[derive(Debug, Clone, PartialEq, Eq)]
pub struct OcppTlsConfig {
    pub server: ServerTlsPolicy,
    pub client: ClientTlsPolicy,
}

impl Default for OcppTlsConfig {
    fn default() -> (r: Self)
        ensures
            r.server@ == ServerPolicyView::Disabled,
            r.client@ == ClientPolicyView::Disabled,
    {
        OcppTlsConfig { server: ServerTlsPolicy::Disabled {  }, client: ClientTlsPolicy::Disabled {  } }
    }
}

impl OcppTlsConfig {
    /// Whether both roles' policies are `Disabled`.
    pub fn is_none(&self) -> (r: bool)
        ensures
            r == (self.server@ is Disabled && self.client@ is Disabled),
    {
        matches!(self.server, ServerTlsPolicy::Disabled {  }) && matches!(self.client, ClientTlsPolicy::Disabled {  })
    }
}

/// HTTP Basic Authentication credentials.
#[derive(Debug, Clone, PartialEq, Eq)]
pub struct BasicAuth {
    pub username: String,
    pub password: String,
}

/// Optional websocket transport security for an OCPP instance: HTTP Basic Auth and
/// TLS/mTLS held per role in `tls`. The half of `tls` for the role the instance does not
/// play is simply inert.
#[derive(Debug, Clone, PartialEq, Eq)]
pub struct OcppSecurityConfig {
    /// Basic Auth username.
    pub username: Option<String>,
    /// Basic Auth password. Never logged.
    pub password: Option<String>,
    /// The two-role TLS container.
    pub tls: OcppTlsConfig,
}

/// The abstract value of an optional string.
pub open spec fn opt_str(o: Option<String>) -> Option<Seq<char>> {
    match o {
        Some(s) => Some(s@),
        None => None,
    }
}

impl Default for OcppSecurityConfig {
    fn default() -> (r: Self)
        ensures
            r.username is None,
            r.password is None,
            r.tls.server@ == ServerPolicyView::Disabled,
            r.tls.client@ == ClientPolicyView::Disabled,
    {
        OcppSecurityConfig { username: None, password: None, tls: OcppTlsConfig::default() }
    }
}

impl OcppSecurityConfig {
    /// Whether the section equals the default (no credentials, no TLS in either role).
    pub fn is_empty(&self) -> (r: bool)
        ensures
            r == (self.username is None && self.password is None && self.tls.server@ is Disabled
                && self.tls.client@ is Disabled),
    {
        self.username.is_none() && self.password.is_none() && self.tls.is_none()
    }

    /// Basic Auth credentials, if both `username` and `password` are set.
    pub fn basic_auth(&self) -> (r: Option<BasicAuth>)
        ensures
            r is Some == (self.username is Some && self.password is Some),
            r matches Some(b) ==> b.username@ == self.username->0@ && b.password@ == self.password->0@,
    {
        match (&self.username, &self.password) {
            (Some(username), Some(password)) => Some(
                BasicAuth { username: username.clone(), password: password.clone() },
            ),
            _ => None,
        }
    }

    /// The charging-station side TLS policy.
    pub fn cs_tls(&self) -> (r: ClientTlsPolicy)
        ensures
            r@ == self.tls.client@,
    {
        self.tls.client.duplicate()
    }

    /// The CSMS side TLS policy.
    pub fn csms_tls(&self) -> (r: ServerTlsPolicy)
        ensures
            r@ == self.tls.server@,
    {
        self.tls.server.duplicate()
    }
}

/// A persisted connector entry for a charging-station device type: `evse` is `None` for
/// OCPP 1.6 (connector-only) and `Some` for 2.0.1; `connector` is the connector id.
#[derive(Debug, Clone, Copy, PartialEq, Eq, Structural)]
pub struct ConnectorRef {
    pub evse: Option<i64>,
    pub connector: i64,
}

/// A persisted per-connector CSMS RFID accept-list (server role): the tags accepted for
/// that connector in addition to the inherited charge-point-wide list.
#[derive(Debug, Clone, PartialEq, Eq)]
pub struct ConnectorRfids {
    pub evse: Option<i64>,
    pub connector: Option<i64>,
    pub rfids: Vec<String>,
}

/// A persisted configuration key for a charging-station device type: a name/value pair
/// and its read-only flag.
#[derive(Debug, Clone, PartialEq, Eq)]
pub struct ConfigKeyDef {
    pub key: String,
    pub value: String,
    pub readonly: bool,
}

} // verus!
