use vstd::prelude::*;

use crate::ocpp::device::{
    strs, CertSource, CertSourceView, CertVerification, CertVerificationView,
    ClientPolicyView, ClientTlsPolicy, OcppRole, OcppSecurityConfig, OcppTlsConfig,
    ServerPolicyView, ServerTlsPolicy,
};
use crate::text::{trim, trim_str};

verus! {

/// The TLS selector of the setup dialog, shown for both roles: `Off` maps to the role's
/// `Disabled` policy, `Tls` to `Tls`, `MutualTls` to `Mutual`.
#[derive(Debug, Clone, Copy, PartialEq, Eq, Structural, PartialOrd, Ord)]
pub enum TlsLevel {
    Off,
    Tls,
    MutualTls,
}

/// The TLS level shown by the shared TLS section of the setup dialogs.
#[derive(Debug, Clone, Copy, PartialEq, Eq, Structural)]
pub enum EffectiveTlsLevel {
    Off,
    Tls,
    MutualTls,
}

impl From<TlsLevel> for EffectiveTlsLevel {
    fn from(level: TlsLevel) -> (r: Self) {
        match level {
            TlsLevel::Off => EffectiveTlsLevel::Off,
            TlsLevel::Tls => EffectiveTlsLevel::Tls,
            TlsLevel::MutualTls => EffectiveTlsLevel::MutualTls,
        }
    }
}

/// The effective level a selector level maps to, one to one.
pub open spec fn effective_of(level: TlsLevel) -> EffectiveTlsLevel {
    match level {
        TlsLevel::Off => EffectiveTlsLevel::Off,
        TlsLevel::Tls => EffectiveTlsLevel::Tls,
        TlsLevel::MutualTls => EffectiveTlsLevel::MutualTls,
    }
}

impl vstd::std_specs::convert::FromSpecImpl<TlsLevel> for EffectiveTlsLevel {
    open spec fn obeys_from_spec() -> bool {
        true
    }

    open spec fn from_spec(level: TlsLevel) -> EffectiveTlsLevel {
        effective_of(level)
    }
}

/// The Basic Authentication toggle, independent of [`TlsLevel`].
#[derive(Debug, Clone, Copy, PartialEq, Eq, Structural)]
pub enum BasicAuthChoice {
    Off,
    On,
}

impl TlsLevel {
    /// The label shown in the selector.
    pub fn to_label(&self) -> (r: String)
        ensures
            *self == TlsLevel::Off ==> r@ == "Off"@,
            *self == TlsLevel::Tls ==> r@ == "TLS"@,
            *self == TlsLevel::MutualTls ==> r@ == "mTLS"@,
    {
        match self {
            TlsLevel::Off => String::from_str("Off"),
            TlsLevel::Tls => String::from_str("TLS"),
            TlsLevel::MutualTls => String::from_str("mTLS"),
        }
    }

    /// Index into the selector's value list (declaration order).
    pub fn index(self) -> (r: usize)
        ensures
            r == match self {
                TlsLevel::Off => 0usize,
                TlsLevel::Tls => 1usize,
                TlsLevel::MutualTls => 2usize,
            },
    {
        match self {
            TlsLevel::Off => 0,
            TlsLevel::Tls => 1,
            TlsLevel::MutualTls => 2,
        }
    }
}

impl BasicAuthChoice {
    /// The label shown in the selector.
    pub fn to_label(&self) -> (r: String)
        ensures
            *self == BasicAuthChoice::Off ==> r@ == "Off"@,
            *self == BasicAuthChoice::On ==> r@ == "On"@,
    {
        match self {
            BasicAuthChoice::Off => String::from_str("Off"),
            BasicAuthChoice::On => String::from_str("On"),
        }
    }
}

/// Raw text of every security input field, plus every toggle, passed by name so the
/// many look-alike path fields cannot be transposed at a call site. `ca_files` holds the
/// CA list widget's entries, already individual paths.
pub struct SecurityInputs<'a> {
    pub username: &'a str,
    pub password: &'a str,
    pub basic_auth: bool,
    pub cert_file: &'a str,
    pub key_file: &'a str,
    pub client_cert_file: &'a str,
    pub client_key_file: &'a str,
    pub ca_files: &'a [String],
    /// Server: the server certificate is self-signed. Client, at `MutualTls` only: the
    /// client's own mTLS identity is self-signed.
    pub self_signed: bool,
    /// Client: accept any server certificate.
    pub skip_verify: bool,
    /// Server, at `MutualTls` only: accept any client certificate.
    pub client_cert_skip_verify: bool,
    /// Client only: resolve `ca_files` as extra CA files on top of the platform root
    /// store (on) or as the only trusted CAs (off).
    pub root_store: bool,
}

/// The abstract value of a security section.
pub struct SecurityView {
    pub username: Option<Seq<char>>,
    pub password: Option<Seq<char>>,
    pub server: ServerPolicyView,
    pub client: ClientPolicyView,
}

/// The abstract value of an optional string.
pub open spec fn opt_view(o: Option<String>) -> Option<Seq<char>> {
    match o {
        Some(s) => Some(s@),
        None => None,
    }
}

/// The abstract value of a security section.
pub open spec fn security_view(c: OcppSecurityConfig) -> SecurityView {
    SecurityView {
        username: opt_view(c.username),
        password: opt_view(c.password),
        server: c.tls.server@,
        client: c.tls.client@,
    }
}

/// A text field's value: its trimmed text, or nothing when that is empty.
pub open spec fn opt_text(s: Seq<char>) -> Option<Seq<char>> {
    if trim(s).len() > 0 {
        Some(trim(s))
    } else {
        None
    }
}

/// The server's own certificate as the inputs describe it.
pub open spec fn server_identity(i: SecurityInputs) -> Result<CertSourceView, Seq<char>> {
    if i.self_signed {
        Ok(CertSourceView::SelfSigned)
    } else {
        match (opt_text(i.cert_file@), opt_text(i.key_file@)) {
            (Some(c), Some(k)) => Ok(CertSourceView::Files(c, k)),
            (None, None) => Ok(CertSourceView::Ephemeral),
            _ => Err("cert_file and key_file must both be set, or neither"@),
        }
    }
}

/// The client's peer verification as the inputs describe it.
pub open spec fn client_verification(i: SecurityInputs) -> Result<CertVerificationView, Seq<char>> {
    if i.skip_verify {
        Ok(CertVerificationView::Skip)
    } else if i.root_store {
        Ok(CertVerificationView::RootStore(strs(i.ca_files@)))
    } else if i.ca_files@.len() == 0 {
        Err("Server CA list is required when Root Store is Off (or enable Root Store / Skip Verify)."@)
    } else {
        Ok(CertVerificationView::CaFiles(strs(i.ca_files@)))
    }
}

/// The client's own mTLS certificate as the inputs describe it.
pub open spec fn client_identity(i: SecurityInputs) -> Result<CertSourceView, Seq<char>> {
    if i.self_signed {
        Ok(CertSourceView::SelfSigned)
    } else {
        match (opt_text(i.client_cert_file@), opt_text(i.client_key_file@)) {
            (Some(c), Some(k)) => Ok(CertSourceView::Files(c, k)),
            _ => Err("client_cert_file and client_key_file must both be set, or self-signed set"@),
        }
    }
}

/// The security section the setup dialog resolves for `role` at `level`: Basic Auth
/// credentials gated on the Basic Auth toggle alone, the active role's policy built from
/// the inputs, the other role's policy left `Disabled`; or the message of the first
/// inconsistency found.
pub open spec fn build_config_spec(level: TlsLevel, role: OcppRole, i: SecurityInputs) -> Result<
    SecurityView,
    Seq<char>,
> {
    let username = if i.basic_auth {
        opt_text(i.username@)
    } else {
        None
    };
    let password = if i.basic_auth {
        opt_text(i.password@)
    } else {
        None
    };
    let base = SecurityView {
        username,
        password,
        server: ServerPolicyView::Disabled,
        client: ClientPolicyView::Disabled,
    };
    match role {
        OcppRole::Server => {
            if level == TlsLevel::Off {
                Ok(base)
            } else {
                match server_identity(i) {
                    Err(e) => Err(e),
                    Ok(identity) => {
                        if level == TlsLevel::MutualTls {
                            if !i.client_cert_skip_verify && i.ca_files@.len() == 0 {
                                Err("Client CA list is required for mTLS (or enable Skip Verify)."@)
                            } else {
                                let verification = if i.client_cert_skip_verify {
                                    CertVerificationView::Skip
                                } else {
                                    CertVerificationView::CaFiles(strs(i.ca_files@))
                                };
                                Ok(
                                    SecurityView {
                                        server: ServerPolicyView::Mutual(identity, verification),
                                        ..base
                                    },
                                )
                            }
                        } else {
                            Ok(SecurityView { server: ServerPolicyView::Tls(identity), ..base })
                        }
                    },
                }
            }
        },
        OcppRole::Client => {
            if level == TlsLevel::Off {
                Ok(base)
            } else {
                match client_verification(i) {
                    Err(e) => Err(e),
                    Ok(verification) => {
                        if level == TlsLevel::MutualTls {
                            match client_identity(i) {
                                Err(e) => Err(e),
                                Ok(identity) => Ok(
                                    SecurityView {
                                        client: ClientPolicyView::Mutual(verification, identity),
                                        ..base
                                    },
                                ),
                            }
                        } else {
                            Ok(SecurityView { client: ClientPolicyView::Tls(verification), ..base })
                        }
                    },
                }
            }
        },
    }
}

/// The level a security section represents for `role`: that role's policy variant.
pub open spec fn level_of(v: SecurityView, role: OcppRole) -> TlsLevel {
    match role {
        OcppRole::Client => match v.client {
            ClientPolicyView::Mutual(..) => TlsLevel::MutualTls,
            ClientPolicyView::Tls(..) => TlsLevel::Tls,
            ClientPolicyView::Disabled => TlsLevel::Off,
        },
        OcppRole::Server => match v.server {
            ServerPolicyView::Mutual(..) => TlsLevel::MutualTls,
            ServerPolicyView::Tls(..) => TlsLevel::Tls,
            ServerPolicyView::Disabled => TlsLevel::Off,
        },
    }
}

/// Inferring the level of a section the dialog built at `level` gives `level` back, for
/// either role: the selector round-trips through a saved configuration.
pub proof fn lemma_build_then_infer(level: TlsLevel, role: OcppRole, inputs: SecurityInputs)
    requires
        build_config_spec(level, role, inputs) is Ok,
    ensures
        level_of(build_config_spec(level, role, inputs)->Ok_0, role) == level,
{
}

/// The Basic Auth credentials a section carries depend on the Basic Auth toggle and its
/// text alone: the same inputs give the same credentials at every TLS level and for either
/// role, and none at all while the toggle is off.
pub proof fn lemma_credentials_independent_of_tls(
    l1: TlsLevel,
    r1: OcppRole,
    l2: TlsLevel,
    r2: OcppRole,
    inputs: SecurityInputs,
)
    requires
        build_config_spec(l1, r1, inputs) is Ok,
        build_config_spec(l2, r2, inputs) is Ok,
    ensures
        build_config_spec(l1, r1, inputs)->Ok_0.username == build_config_spec(l2, r2, inputs)->Ok_0.username,
        build_config_spec(l1, r1, inputs)->Ok_0.password == build_config_spec(l2, r2, inputs)->Ok_0.password,
        !inputs.basic_auth ==> build_config_spec(l1, r1, inputs)->Ok_0.username is None
            && build_config_spec(l1, r1, inputs)->Ok_0.password is None,
{
}

/// The peer verification a charging-station policy uses, if TLS is on.
pub open spec fn client_policy_verification(p: ClientPolicyView) -> Option<CertVerificationView> {
    match p {
        ClientPolicyView::Disabled => None,
        ClientPolicyView::Tls(v) => Some(v),
        ClientPolicyView::Mutual(v, _) => Some(v),
    }
}

/// The charging-station role's Skip Verify toggle: at any TLS level, a built section
/// accepts any server certificate; at plain TLS the section always builds.
pub proof fn lemma_client_skip_verify(level: TlsLevel, inputs: SecurityInputs)
    requires
        level != TlsLevel::Off,
        inputs.skip_verify,
    ensures
        level == TlsLevel::Tls ==> build_config_spec(level, OcppRole::Client, inputs) is Ok,
        build_config_spec(level, OcppRole::Client, inputs) matches Ok(v) ==> client_policy_verification(
            v.client,
        ) == Some(CertVerificationView::Skip),
{
}

/// Without Skip Verify, the charging-station role verifies the server: against the
/// platform root store plus the CA list when Root Store is on, against the CA list alone
/// when it is off, and an empty CA list with Root Store off is refused.
pub proof fn lemma_client_verifies_server(level: TlsLevel, inputs: SecurityInputs)
    requires
        level != TlsLevel::Off,
        !inputs.skip_verify,
    ensures
        inputs.root_store ==> (build_config_spec(level, OcppRole::Client, inputs) matches Ok(v)
            ==> client_policy_verification(v.client) == Some(
            CertVerificationView::RootStore(strs(inputs.ca_files@)),
        )),
        !inputs.root_store && inputs.ca_files@.len() == 0 ==> build_config_spec(
            level,
            OcppRole::Client,
            inputs,
        ) is Err,
        !inputs.root_store ==> (build_config_spec(level, OcppRole::Client, inputs) matches Ok(v)
            ==> client_policy_verification(v.client) == Some(
            CertVerificationView::CaFiles(strs(inputs.ca_files@)),
        )),
{
}

/// A section built for one role leaves the other role's policy disabled, and at level
/// `Off` the active role's policy is disabled too; `Off` never fails.
pub proof fn lemma_build_only_active_role(level: TlsLevel, role: OcppRole, inputs: SecurityInputs)
    ensures
        level == TlsLevel::Off ==> build_config_spec(level, role, inputs) is Ok,
        build_config_spec(level, role, inputs) matches Ok(v) ==> {
            &&& role == OcppRole::Client ==> v.server == ServerPolicyView::Disabled
            &&& role == OcppRole::Server ==> v.client == ClientPolicyView::Disabled
            &&& level == TlsLevel::Off ==> v.server == ServerPolicyView::Disabled
                && v.client == ClientPolicyView::Disabled
        },
{
}

/// The CSMS role's certificates: a self-signed toggle gives a self-signed identity, and at
/// mutual TLS its Skip Verify toggle accepts any client certificate while without it an
/// empty client CA list is refused.
pub proof fn lemma_server_identity_and_client_checks(level: TlsLevel, inputs: SecurityInputs)
    requires
        level != TlsLevel::Off,
    ensures
        inputs.self_signed ==> (build_config_spec(level, OcppRole::Server, inputs) matches Ok(v)
            ==> match v.server {
            ServerPolicyView::Tls(id) => id == CertSourceView::SelfSigned,
            ServerPolicyView::Mutual(id, _) => id == CertSourceView::SelfSigned,
            ServerPolicyView::Disabled => false,
        }),
        level == TlsLevel::MutualTls && inputs.client_cert_skip_verify ==> (build_config_spec(
            level,
            OcppRole::Server,
            inputs,
        ) matches Ok(v) ==> v.server matches ServerPolicyView::Mutual(_, ver)
            && ver == CertVerificationView::Skip),
        level == TlsLevel::MutualTls && !inputs.client_cert_skip_verify && inputs.ca_files@.len()
            == 0 ==> build_config_spec(level, OcppRole::Server, inputs) is Err,
        level == TlsLevel::MutualTls && !inputs.client_cert_skip_verify ==> (build_config_spec(
            level,
            OcppRole::Server,
            inputs,
        ) matches Ok(v) ==> v.server matches ServerPolicyView::Mutual(_, ver)
            && ver == CertVerificationView::CaFiles(strs(inputs.ca_files@))),
{
}

/// A text field's value: its trimmed text, or nothing when that is empty.
fn opt(s: &str) -> (r: Option<String>)
    ensures
        opt_view(r) == opt_text(s@),
{
    let t = trim_str(s);
    if t.unicode_len() > 0 {
        Some(String::from_str(t))
    } else {
        None
    }
}

impl TlsLevel {
    /// Infer the level an existing security section represents for `role`, from that
    /// role's own policy variant alone.
    pub fn from_config(cfg: &OcppSecurityConfig, role: OcppRole) -> (r: TlsLevel)
        ensures
            r == level_of(security_view(*cfg), role),
    {
        match role {
            OcppRole::Client => match &cfg.tls.client {
                ClientTlsPolicy::Mutual { .. } => TlsLevel::MutualTls,
                ClientTlsPolicy::Tls { .. } => TlsLevel::Tls,
                ClientTlsPolicy::Disabled {  } => TlsLevel::Off,
            },
            OcppRole::Server => match &cfg.tls.server {
                ServerTlsPolicy::Mutual { .. } => TlsLevel::MutualTls,
                ServerTlsPolicy::Tls { .. } => TlsLevel::Tls,
                ServerTlsPolicy::Disabled {  } => TlsLevel::Off,
            },
        }
    }

    /// Build the active role's policy from raw field text and toggle state, producing a
    /// full security section whose inactive role's half is left `Disabled` (the caller
    /// stitches the saved half back in). Basic Auth fields are role-independent and
    /// gated on `basic_auth` alone.
    pub fn build_config(self, role: OcppRole, inputs: SecurityInputs<'_>) -> (r: Result<
        OcppSecurityConfig,
        String,
    >)
        ensures
            r is Ok == build_config_spec(self, role, inputs) is Ok,
            r matches Ok(c) ==> security_view(c) == build_config_spec(self, role, inputs)->Ok_0,
            r matches Err(e) ==> e@ == build_config_spec(self, role, inputs)->Err_0,
    {
        let mtls = self == TlsLevel::MutualTls;
        let username = if inputs.basic_auth {
            opt(inputs.username)
        } else {
            None
        };
        let password = if inputs.basic_auth {
            opt(inputs.password)
        } else {
            None
        };
        let mut cfg = OcppSecurityConfig { username, password, tls: OcppTlsConfig::default() };
        match role {
            OcppRole::Server => {
                if self == TlsLevel::Off {
                    cfg.tls.server = ServerTlsPolicy::Disabled {  };
                    return Ok(cfg);
                }
                let identity = if inputs.self_signed {
                    CertSource::SelfSigned {  }
                } else {
                    match (opt(inputs.cert_file), opt(inputs.key_file)) {
                        (Some(c), Some(k)) => CertSource::Files { cert_file: c, key_file: k },
                        (None, None) => CertSource::Ephemeral {  },
                        _ => {
                            return Err(
                                String::from_str(
                                    "cert_file and key_file must both be set, or neither",
                                ),
                            );
                        },
                    }
                };
                cfg.tls.server = if mtls {
                    if !inputs.client_cert_skip_verify && inputs.ca_files.len() == 0 {
                        return Err(
                            String::from_str(
                                "Client CA list is required for mTLS (or enable Skip Verify).",
                            ),
                        );
                    }
                    let verification = if inputs.client_cert_skip_verify {
                        CertVerification::Skip {  }
                    } else {
                        CertVerification::CaFiles { ca_files: clone_slice(inputs.ca_files) }
                    };
                    ServerTlsPolicy::Mutual { identity, verification }
                } else {
                    ServerTlsPolicy::Tls { identity }
                };
            },
            OcppRole::Client => {
                if self == TlsLevel::Off {
                    cfg.tls.client = ClientTlsPolicy::Disabled {  };
                    return Ok(cfg);
                }
                let verification = if inputs.skip_verify {
                    CertVerification::Skip {  }
                } else if inputs.root_store {
                    CertVerification::RootStore { extra_ca_files: clone_slice(inputs.ca_files) }
                } else if inputs.ca_files.len() == 0 {
                    return Err(
                        String::from_str(
                            "Server CA list is required when Root Store is Off (or enable Root Store / Skip Verify).",
                        ),
                    );
                } else {
                    CertVerification::CaFiles { ca_files: clone_slice(inputs.ca_files) }
                };
                cfg.tls.client = if mtls {
                    let identity = if inputs.self_signed {
                        CertSource::SelfSigned {  }
                    } else {
                        match (opt(inputs.client_cert_file), opt(inputs.client_key_file)) {
                            (Some(c), Some(k)) => CertSource::Files { cert_file: c, key_file: k },
                            _ => {
                                return Err(
                                    String::from_str(
                                        "client_cert_file and client_key_file must both be set, or self-signed set",
                                    ),
                                );
                            },
                        }
                    };
                    ClientTlsPolicy::Mutual { verification, identity }
                } else {
                    ClientTlsPolicy::Tls { verification }
                };
            },
        }
        Ok(cfg)
    }
}

/// A copy of a slice of strings.
fn clone_slice(v: &[String]) -> (r: Vec<String>)
    ensures
        strs(r@) == strs(v@),
{
    let mut out: Vec<String> = Vec::new();
    let mut i: usize = 0;
    while i < v.len()
        invariant
            i <= v@.len(),
            strs(out@) == strs(v@).take(i as int),
        decreases v@.len() - i,
    {
        let c = v[i].clone();
        assert(c@ == v@[i as int]@);
        let ghost before = out@;
        out.push(c);
        assert(strs(out@) =~= strs(before).push(c@));
        assert(strs(v@).take(i + 1) =~= strs(v@).take(i as int).push(v@[i as int]@));
        i = i + 1;
    }
    assert(strs(v@).take(v@.len() as int) =~= strs(v@));
    out
}


/// A file the security section names, with the label an error message gives it.
pub type LabelledPath = (Seq<char>, Seq<char>);

/// Each of `paths`, labelled `label`, in order.
pub open spec fn labelled(label: Seq<char>, paths: Seq<Seq<char>>) -> Seq<LabelledPath> {
    paths.map_values(|p: Seq<char>| (label, p))
}

/// Each non-empty entry of `paths`, labelled `label`, in order.
pub open spec fn labelled_nonempty(label: Seq<char>, paths: Seq<Seq<char>>) -> Seq<LabelledPath>
    decreases paths.len(),
{
    if paths.len() == 0 {
        Seq::empty()
    } else {
        let rest = labelled_nonempty(label, paths.drop_last());
        if paths.last().len() > 0 {
            rest.push((label, paths.last()))
        } else {
            rest
        }
    }
}

/// The files a resolved security section needs on disk for `role` at `level`, in the
/// order they are checked; or the message of a certificate that is missing altogether
/// (a server at a TLS level with neither a self-signed nor a file certificate).
pub open spec fn file_checks(
    server: ServerPolicyView,
    client: ClientPolicyView,
    role: OcppRole,
    level: TlsLevel,
) -> Result<Seq<LabelledPath>, Seq<char>> {
    match role {
        OcppRole::Server => {
            let identity = match server {
                ServerPolicyView::Tls(id) => id,
                ServerPolicyView::Mutual(id, _) => id,
                ServerPolicyView::Disabled => CertSourceView::Ephemeral,
            };
            let ca = match server {
                ServerPolicyView::Mutual(_, CertVerificationView::CaFiles(list)) => if level
                    == TlsLevel::MutualTls {
                    labelled("Client CA file"@, list)
                } else {
                    Seq::empty()
                },
                _ => Seq::empty(),
            };
            if level == TlsLevel::Off {
                Ok(ca)
            } else {
                match identity {
                    CertSourceView::SelfSigned => Ok(ca),
                    CertSourceView::Files(c, k) => Ok(
                        seq![("Certificate file"@, c), ("Key file"@, k)] + ca,
                    ),
                    CertSourceView::Ephemeral => Err("Certificate file is required for TLS."@),
                }
            }
        },
        OcppRole::Client => {
            let paths = match client {
                ClientPolicyView::Tls(v) => v,
                ClientPolicyView::Mutual(v, _) => v,
                ClientPolicyView::Disabled => CertVerificationView::RootStore(Seq::empty()),
            };
            let ca_paths = match paths {
                CertVerificationView::RootStore(l) => l,
                CertVerificationView::CaFiles(l) => l,
                CertVerificationView::Skip => Seq::empty(),
            };
            let own = match client {
                ClientPolicyView::Mutual(_, CertSourceView::Files(c, k)) => if level
                    == TlsLevel::MutualTls {
                    seq![("Client certificate file"@, c), ("Client key file"@, k)]
                } else {
                    Seq::empty()
                },
                _ => Seq::empty(),
            };
            Ok(labelled_nonempty("CA file"@, ca_paths) + own)
        },
    }
}

proof fn lemma_labelled_nonempty(label: Seq<char>, paths: Seq<Seq<char>>, p: Seq<char>)
    ensures
        labelled_nonempty(label, paths).contains((label, p)) <==> (paths.contains(p) && p.len() > 0),
    decreases paths.len(),
{
    let lab = labelled_nonempty(label, paths);
    if paths.len() == 0 {
        assert(lab.len() == 0);
    } else {
        let d = paths.drop_last();
        lemma_labelled_nonempty(label, d, p);
        let rest = labelled_nonempty(label, d);
        let last = paths.last();
        assert(last == paths[paths.len() - 1]);
        if paths.contains(p) && p.len() > 0 {
            let w = choose|w: int| 0 <= w < paths.len() && paths[w] == p;
            if w < d.len() {
                assert(d[w] == p);
                let v = choose|v: int| 0 <= v < rest.len() && rest[v] == (label, p);
                if last.len() > 0 {
                    assert(lab[v] == rest[v]);
                }
            } else {
                assert(lab == rest.push((label, p)));
                assert(lab[rest.len() as int] == (label, p));
            }
        }
        if lab.contains((label, p)) {
            let w = choose|w: int| 0 <= w < lab.len() && lab[w] == (label, p);
            if last.len() > 0 {
                assert(lab == rest.push((label, last)));
                if w < rest.len() {
                    assert(rest[w] == (label, p));
                    let v = choose|v: int| 0 <= v < d.len() && d[v] == p;
                    assert(paths[v] == p);
                } else {
                    assert(p == last);
                }
            } else {
                assert(rest[w] == (label, p));
                let v = choose|v: int| 0 <= v < d.len() && d[v] == p;
                assert(paths[v] == p);
            }
        }
    }
}

/// The CA paths a plain-TLS charging-station policy verifies the server against.
pub open spec fn tls_ca_list(client: ClientPolicyView) -> Option<Seq<Seq<char>>> {
    match client {
        ClientPolicyView::Tls(CertVerificationView::RootStore(l)) => Some(l),
        ClientPolicyView::Tls(CertVerificationView::CaFiles(l)) => Some(l),
        _ => None,
    }
}

/// The certificate and key files of a mutual-TLS charging-station policy's own identity.
pub open spec fn own_files(client: ClientPolicyView) -> Option<(Seq<char>, Seq<char>)> {
    match client {
        ClientPolicyView::Mutual(_, CertSourceView::Files(c, k)) => Some((c, k)),
        _ => None,
    }
}

/// The files a charging-station section has checked on disk at plain TLS: exactly the
/// non-empty CA paths it verifies the server against (none when it skips verification);
/// at mutual TLS with certificate files, its own certificate and key as well. The check
/// list is never refused.
pub proof fn lemma_client_file_checks(client: ClientPolicyView, p: Seq<char>)
    ensures
        file_checks(ServerPolicyView::Disabled, client, OcppRole::Client, TlsLevel::Tls) is Ok,
        client == ClientPolicyView::Tls(CertVerificationView::Skip) ==> file_checks(
            ServerPolicyView::Disabled,
            client,
            OcppRole::Client,
            TlsLevel::Tls,
        )->Ok_0.len() == 0,
        tls_ca_list(client) matches Some(l) ==> (file_checks(
            ServerPolicyView::Disabled,
            client,
            OcppRole::Client,
            TlsLevel::Tls,
        )->Ok_0.contains(("CA file"@, p)) <==> (l.contains(p) && p.len() > 0)),
        own_files(client) matches Some((c, k)) ==> file_checks(
            ServerPolicyView::Disabled,
            client,
            OcppRole::Client,
            TlsLevel::MutualTls,
        )->Ok_0.contains(("Client certificate file"@, c)) && file_checks(
            ServerPolicyView::Disabled,
            client,
            OcppRole::Client,
            TlsLevel::MutualTls,
        )->Ok_0.contains(("Client key file"@, k)),
{
    let ca_paths = match client {
        ClientPolicyView::Tls(CertVerificationView::RootStore(l)) => l,
        ClientPolicyView::Tls(CertVerificationView::CaFiles(l)) => l,
        ClientPolicyView::Mutual(CertVerificationView::RootStore(l), _) => l,
        ClientPolicyView::Mutual(CertVerificationView::CaFiles(l), _) => l,
        _ => Seq::empty(),
    };
    lemma_labelled_nonempty("CA file"@, ca_paths, p);
    if ca_paths.len() == 0 {
        assert(labelled_nonempty("CA file"@, ca_paths) =~= Seq::empty());
    }
    if let ClientPolicyView::Mutual(v, CertSourceView::Files(c, k)) = client {
        let head = labelled_nonempty("CA file"@, ca_paths);
        let own = seq![("Client certificate file"@, c), ("Client key file"@, k)];
        let list = head + own;
        assert(list[head.len() as int] == ("Client certificate file"@, c));
        assert(list[head.len() as int + 1] == ("Client key file"@, k));
    }
}

/// The certificate and key files of a CSMS policy's identity.
pub open spec fn server_files(server: ServerPolicyView) -> Option<(Seq<char>, Seq<char>)> {
    match server {
        ServerPolicyView::Tls(CertSourceView::Files(c, k)) => Some((c, k)),
        ServerPolicyView::Mutual(CertSourceView::Files(c, k), _) => Some((c, k)),
        _ => None,
    }
}

/// The client CA list a mutual-TLS CSMS policy verifies charging stations against, when its
/// own identity can be served (self-signed or files).
pub open spec fn served_client_cas(server: ServerPolicyView) -> Option<Seq<Seq<char>>> {
    match server {
        ServerPolicyView::Mutual(CertSourceView::Ephemeral, _) => None,
        ServerPolicyView::Mutual(_, CertVerificationView::CaFiles(l)) => Some(l),
        _ => None,
    }
}

/// The files a CSMS section has checked on disk at a TLS level: its certificate and key
/// files first when it has them, nothing for a self-signed identity at plain TLS, and no
/// check list at all (an error) when it has neither; at mutual TLS, every client CA file
/// as well.
pub proof fn lemma_server_file_checks(server: ServerPolicyView, level: TlsLevel, p: Seq<char>)
    requires
        level != TlsLevel::Off,
    ensures
        server_files(server) matches Some((c, k)) ==> (file_checks(
            server,
            ClientPolicyView::Disabled,
            OcppRole::Server,
            level,
        ) matches Ok(list) && list.len() >= 2 && list[0] == ("Certificate file"@, c) && list[1] == (
            "Key file"@,
            k,
        )),
        server == ServerPolicyView::Tls(CertSourceView::SelfSigned) ==> file_checks(
            server,
            ClientPolicyView::Disabled,
            OcppRole::Server,
            level,
        ) == Ok::<Seq<LabelledPath>, Seq<char>>(Seq::empty()),
        (server == ServerPolicyView::Tls(CertSourceView::Ephemeral) || server == ServerPolicyView::Disabled)
            ==> file_checks(server, ClientPolicyView::Disabled, OcppRole::Server, level) is Err,
        level == TlsLevel::MutualTls && (served_client_cas(server) matches Some(l) && l.contains(p))
            ==> file_checks(server, ClientPolicyView::Disabled, OcppRole::Server, level)->Ok_0.contains(
            ("Client CA file"@, p),
        ),
{
    if level == TlsLevel::MutualTls && (served_client_cas(server) matches Some(l) && l.contains(p)) {
        let l = served_client_cas(server)->0;
        let w = choose|w: int| 0 <= w < l.len() && l[w] == p;
        let ca = labelled("Client CA file"@, l);
        assert(ca[w] == ("Client CA file"@, p));
        if let ServerPolicyView::Mutual(CertSourceView::Files(c, k), _) = server {
            let list = seq![("Certificate file"@, c), ("Key file"@, k)] + ca;
            assert(list[w + 2] == ca[w]);
        }
    }
}

/// The abstract value of a list of labelled paths.
pub open spec fn labelled_view(v: Seq<(String, String)>) -> Seq<LabelledPath> {
    v.map_values(|e: (String, String)| (e.0@, e.1@))
}

/// The message for a file that is not on disk.
pub open spec fn not_found(label: Seq<char>, path: Seq<char>) -> Seq<char> {
    label + " not found: "@ + path
}

/// Appends each path of `paths` labelled `label` to `out`, skipping empty ones when
/// `skip_empty` is set.
fn push_labelled(out: &mut Vec<(String, String)>, label: &str, paths: &Vec<String>, skip_empty: bool)
    ensures
        labelled_view(final(out)@) == labelled_view(old(out)@) + if skip_empty {
            labelled_nonempty(label@, strs(paths@))
        } else {
            labelled(label@, strs(paths@))
        },
{
    let ghost start = labelled_view(out@);
    let mut i: usize = 0;
    while i < paths.len()
        invariant
            i <= paths@.len(),
            labelled_view(out@) == start + if skip_empty {
                labelled_nonempty(label@, strs(paths@).take(i as int))
            } else {
                labelled(label@, strs(paths@).take(i as int))
            },
        decreases paths@.len() - i,
    {
        let ghost before = out@;
        let ghost taken = strs(paths@).take(i as int);
        let ghost next = strs(paths@).take(i + 1);
        assert(next.drop_last() =~= taken);
        assert(next.last() == paths@[i as int]@);
        assert(labelled(label@, next) =~= labelled(label@, taken).push((label@, paths@[i as int]@)));
        if !skip_empty || paths[i].as_str().unicode_len() > 0 {
            out.push((String::from_str(label), paths[i].clone()));
            assert(labelled_view(out@) =~= labelled_view(before).push((label@, paths@[i as int]@)));
        }
        i = i + 1;
    }
    assert(strs(paths@).take(paths@.len() as int) =~= strs(paths@));
}

/// Appends the pair (`label`, `path`) to `out`.
fn push_one(out: &mut Vec<(String, String)>, label: &str, path: &String)
    ensures
        labelled_view(final(out)@) == labelled_view(old(out)@).push((label@, path@)),
{
    let ghost before = out@;
    out.push((String::from_str(label), path.clone()));
    assert(labelled_view(out@) =~= labelled_view(before).push((label@, path@)));
}

/// The files a resolved security section needs on disk for `role` at `level`, each
/// with its label, in the order they are checked; or the error for a server whose TLS
/// level has no certificate at all. Client CA entries that are empty are skipped.
pub fn security_file_checks(cfg: &OcppSecurityConfig, role: OcppRole, level: TlsLevel) -> (r:
    Result<Vec<(String, String)>, String>)
    ensures
        r is Ok == file_checks(cfg.tls.server@, cfg.tls.client@, role, level) is Ok,
        r matches Ok(v) ==> labelled_view(v@) == file_checks(
            cfg.tls.server@,
            cfg.tls.client@,
            role,
            level,
        )->Ok_0,
        r matches Err(e) ==> e@ == file_checks(cfg.tls.server@, cfg.tls.client@, role, level)->Err_0,
{
    let mut out: Vec<(String, String)> = Vec::new();
    match role {
        OcppRole::Server => {
            if level != TlsLevel::Off {
                let identity = match &cfg.tls.server {
                    ServerTlsPolicy::Tls { identity } => Some(identity),
                    ServerTlsPolicy::Mutual { identity, .. } => Some(identity),
                    ServerTlsPolicy::Disabled {  } => None,
                };
                match identity {
                    Some(CertSource::Files { cert_file, key_file }) => {
                        push_one(&mut out, "Certificate file", cert_file);
                        push_one(&mut out, "Key file", key_file);
                    },
                    Some(CertSource::SelfSigned {  }) => {},
                    _ => {
                        return Err(String::from_str("Certificate file is required for TLS."));
                    },
                }
            }
            if level == TlsLevel::MutualTls {
                if let ServerTlsPolicy::Mutual {
                    verification: CertVerification::CaFiles { ca_files },
                    ..
                } = &cfg.tls.server {
                    push_labelled(&mut out, "Client CA file", ca_files, false);
                }
            }
            proof {
                assert(labelled_view(Seq::<(String, String)>::empty()) =~= Seq::empty());
            }
        },
        OcppRole::Client => {
            let ca_paths = match &cfg.tls.client {
                ClientTlsPolicy::Tls { verification } => Some(verification),
                ClientTlsPolicy::Mutual { verification, .. } => Some(verification),
                ClientTlsPolicy::Disabled {  } => None,
            };
            match ca_paths {
                Some(CertVerification::RootStore { extra_ca_files }) => {
                    push_labelled(&mut out, "CA file", extra_ca_files, true);
                },
                Some(CertVerification::CaFiles { ca_files }) => {
                    push_labelled(&mut out, "CA file", ca_files, true);
                },
                _ => {},
            }
            if level == TlsLevel::MutualTls {
                if let ClientTlsPolicy::Mutual {
                    identity: CertSource::Files { cert_file, key_file },
                    ..
                } = &cfg.tls.client {
                    push_one(&mut out, "Client certificate file", cert_file);
                    push_one(&mut out, "Client key file", key_file);
                }
            }
            proof {
                assert(labelled_view(Seq::<(String, String)>::empty()) =~= Seq::empty());
                assert(labelled_nonempty("CA file"@, Seq::empty()) =~= Seq::empty());
            }
        },
    }
    proof {
        let spec_r = file_checks(cfg.tls.server@, cfg.tls.client@, role, level);
        assert(labelled_view(out@) =~= spec_r->Ok_0);
    }
    Ok(out)
}

/// The message for a file that is not on disk: its label, `not found:` and its path.
pub fn missing_file_message(label: &str, path: &str) -> (r: String)
    ensures
        r@ == not_found(label@, path@),
{
    let mut s = String::from_str(label);
    s.append(" not found: ");
    s.append(path);
    s
}

/// Whether `file_exists` may answer `answer` for a path whose text is `path`.
pub open spec fn answers<F: Fn(&str) -> bool>(file_exists: F, path: Seq<char>, answer: bool) -> bool {
    exists|p: &str| p@ == path && #[trigger] file_exists.ensures((p,), answer)
}

/// What an existence check over `checks` that returned `r` shows: `Ok` only when
/// `file_exists` answered yes for every path, in order; otherwise the message for the
/// first path it answered no for, every earlier one having been answered yes.
pub open spec fn checked_files<F: Fn(&str) -> bool>(
    checks: Seq<LabelledPath>,
    file_exists: F,
    r: Result<(), String>,
) -> bool {
    match r {
        Ok(_) => forall|i: int|
            0 <= i < checks.len() ==> answers(file_exists, #[trigger] checks[i].1, true),
        Err(e) => exists|k: int|
            0 <= k < checks.len() && e@ == not_found(checks[k].0, checks[k].1) && answers(
                file_exists,
                #[trigger] checks[k].1,
                false,
            ) && forall|i: int| 0 <= i < k ==> answers(file_exists, #[trigger] checks[i].1, true),
    }
}

/// Check that every file a resolved security section needs is present on disk, asking
/// `file_exists` about each in the order of [`file_checks`]. A section that is shaped
/// wrong is refused by [`TlsLevel::build_config`] already; this only adds the existence
/// check, and the one shape error that only the resolved section shows (a server at a TLS
/// level with no certificate at all). The first missing file ends the check with its
/// message.
pub fn validate_security<F: Fn(&str) -> bool>(
    cfg: &OcppSecurityConfig,
    role: OcppRole,
    level: TlsLevel,
    file_exists: &F,
) -> (r: Result<(), String>)
    requires
        forall|p: &str| file_exists.requires((p,)),
    ensures
        file_checks(cfg.tls.server@, cfg.tls.client@, role, level) matches Err(m) ==> (r matches Err(
            e,
        ) && e@ == m),
        file_checks(cfg.tls.server@, cfg.tls.client@, role, level) matches Ok(checks)
            ==> checked_files(checks, *file_exists, r),
{
    let checks = match security_file_checks(cfg, role, level) {
        Ok(v) => v,
        Err(e) => {
            return Err(e);
        },
    };
    let ghost cv = labelled_view(checks@);
    let mut i: usize = 0;
    while i < checks.len()
        invariant
            i <= checks@.len(),
            cv == labelled_view(checks@),
            file_checks(cfg.tls.server@, cfg.tls.client@, role, level) == Ok::<
                Seq<LabelledPath>,
                Seq<char>,
            >(cv),
            forall|p: &str| file_exists.requires((p,)),
            forall|j: int| 0 <= j < i ==> answers(*file_exists, #[trigger] cv[j].1, true),
        decreases checks@.len() - i,
    {
        let path = checks[i].1.as_str();
        let found = file_exists(path);
        assert(cv[i as int].1 == path@);
        if !found {
            let msg = missing_file_message(checks[i].0.as_str(), path);
            assert(answers(*file_exists, cv[i as int].1, false));
            assert(msg@ == not_found(cv[i as int].0, cv[i as int].1));
            assert(forall|j: int| 0 <= j < i ==> answers(*file_exists, #[trigger] cv[j].1, true));
            return Err(msg);
        }
        assert(answers(*file_exists, cv[i as int].1, true));
        i = i + 1;
    }
    Ok(())
}
} // verus!
