//! The text fields of the OCPP setup dialog, resolved into an endpoint and a security
//! section.

use vstd::prelude::*;

use crate::ocpp::device::{ClientTlsPolicy, OcppRole, OcppSecurityConfig, ServerTlsPolicy};
use crate::ocpp::security::{
    build_config_spec, checked_files, file_checks, security_view, validate_security,
    SecurityInputs, SecurityView, TlsLevel,
};
use crate::text::{
    dec, is_ws, lemma_parse_reads_decimal, lemma_trim_decimal, lemma_trim_shape, parse_i64,
    parse_i64_spec, trim, trim_str,
};

verus! {

/// The instance name the dialog resolves: the trimmed text, which must not be empty.
pub open spec fn name_spec(raw: Seq<char>) -> Result<Seq<char>, Seq<char>> {
    if trim(raw).len() == 0 {
        Err("Name is required."@)
    } else {
        Ok(trim(raw))
    }
}

/// A name is refused exactly when the field holds only whitespace; an accepted name is
/// the field's text without surrounding whitespace, and neither starts nor ends with any.
/// The address falls back to `127.0.0.1` in the same case, and is the trimmed text
/// otherwise.
pub proof fn lemma_name_and_ip(raw: Seq<char>)
    ensures
        name_spec(raw) is Err <==> forall|i: int| 0 <= i < raw.len() ==> is_ws(#[trigger] raw[i]),
        name_spec(raw) matches Ok(n) ==> n.len() > 0 && !is_ws(n[0]) && !is_ws(n[n.len() - 1]) && n
            == trim(raw),
        (forall|i: int| 0 <= i < raw.len() ==> is_ws(#[trigger] raw[i])) ==> ip_spec(raw) == "127.0.0.1"@,
        !(forall|i: int| 0 <= i < raw.len() ==> is_ws(#[trigger] raw[i])) ==> ip_spec(raw) == trim(raw),
{
    lemma_trim_shape(raw);
    let (a, b) = choose|a: int, b: int|
        0 <= a <= b <= raw.len() && trim(raw) == raw.subrange(a, b) && (forall|k: int|
            0 <= k < a ==> is_ws(#[trigger] raw[k])) && (forall|k: int|
            b <= k < raw.len() ==> is_ws(#[trigger] raw[k]));
    if trim(raw).len() == 0 {
        assert forall|i: int| 0 <= i < raw.len() implies is_ws(#[trigger] raw[i]) by {
            if a <= i < b {
                assert(false);
            }
        }
    } else {
        assert(trim(raw)[0] == raw[a]);
        assert(!(forall|i: int| 0 <= i < raw.len() ==> is_ws(#[trigger] raw[i]))) by {
            assert(!is_ws(raw[a]));
        }
    }
}

/// The instance name: the trimmed text, refused when empty.
pub fn resolve_name(raw: &str) -> (r: Result<String, String>)
    ensures
        r is Ok == name_spec(raw@) is Ok,
        r matches Ok(n) ==> n@ == name_spec(raw@)->Ok_0,
        r matches Err(e) ==> e@ == name_spec(raw@)->Err_0,
{
    let t = trim_str(raw);
    if t.unicode_len() == 0 {
        Err(String::from_str("Name is required."))
    } else {
        Ok(String::from_str(t))
    }
}

/// The endpoint address: the trimmed text, `127.0.0.1` when empty.
pub open spec fn ip_spec(raw: Seq<char>) -> Seq<char> {
    if trim(raw).len() == 0 {
        "127.0.0.1"@
    } else {
        trim(raw)
    }
}

/// The endpoint address: the trimmed text, `127.0.0.1` when empty.
pub fn resolve_ip(raw: &str) -> (r: String)
    ensures
        r@ == ip_spec(raw@),
{
    let t = trim_str(raw);
    if t.unicode_len() == 0 {
        String::from_str("127.0.0.1")
    } else {
        String::from_str(t)
    }
}

/// The `u16` that `s` denotes as `str::parse::<u16>` reads it: an optional `+` and at least
/// one digit, at most 65535.
pub open spec fn parse_u16_spec(s: Seq<char>) -> Option<int> {
    if s.len() > 0 && s[0] == '-' {
        None
    } else {
        match parse_i64_spec(s) {
            Some(v) => if 0 <= v <= 65535 {
                Some(v)
            } else {
                None
            },
            None => None,
        }
    }
}

/// The endpoint port: `9000` when the field is blank, the number it holds otherwise.
pub open spec fn port_spec(raw: Seq<char>) -> Result<int, Seq<char>> {
    if trim(raw).len() == 0 {
        Ok(9000)
    } else {
        match parse_u16_spec(trim(raw)) {
            Some(p) => Ok(p),
            None => Err("Port must be a number (0-65535)."@),
        }
    }
}

/// The port field reads back any port written in decimal, refuses a number beyond
/// 65535, and falls back to 9000 when blank.
pub proof fn lemma_port_reads_decimal(p: nat)
    ensures
        p <= 65535 ==> port_spec(dec(p)) == Ok::<int, Seq<char>>(p as int),
        65535 < p ==> port_spec(dec(p)) is Err,
        port_spec(Seq::empty()) == Ok::<int, Seq<char>>(9000),
{
    lemma_trim_decimal(p);
    lemma_parse_reads_decimal(p);
    lemma_dec_first(p);
    assert(trim(Seq::<char>::empty()) =~= Seq::<char>::empty());
}

proof fn lemma_dec_first(p: nat)
    ensures
        dec(p).len() > 0 && dec(p)[0] != '-',
    decreases p,
{
    if p >= 10 {
        lemma_dec_first(p / 10);
        assert(dec(p)[0] == dec(p / 10)[0]);
    }
}

/// A charging-station path always starts with `/` once given, and is the trimmed text
/// with at most that `/` added; a CSMS and a blank field have none.
pub proof fn lemma_path_shape(raw: Seq<char>, role: OcppRole)
    ensures
        role == OcppRole::Server || trim(raw).len() == 0 ==> path_spec(raw, role).len() == 0,
        role == OcppRole::Client && trim(raw).len() > 0 ==> path_spec(raw, role)[0] == '/' && (
        path_spec(raw, role) == trim(raw) || path_spec(raw, role) == seq!['/'] + trim(raw)),
{
}

/// The endpoint port: `9000` when the field is blank, the number it holds otherwise.
pub fn resolve_port(raw: &str) -> (r: Result<u16, String>)
    ensures
        r is Ok == port_spec(raw@) is Ok,
        r matches Ok(p) ==> p == port_spec(raw@)->Ok_0,
        r matches Err(e) ==> e@ == port_spec(raw@)->Err_0,
{
    let t = trim_str(raw);
    if t.unicode_len() == 0 {
        return Ok(9000);
    }
    if t.get_char(0) == '-' {
        return Err(String::from_str("Port must be a number (0-65535)."));
    }
    match parse_i64(t) {
        Some(v) => {
            if 0 <= v && v <= 65535 {
                Ok(v as u16)
            } else {
                Err(String::from_str("Port must be a number (0-65535)."))
            }
        },
        None => Err(String::from_str("Port must be a number (0-65535).")),
    }
}

/// The URL path a client endpoint appends: the trimmed text with a leading `/` added when
/// it is missing; a CSMS has none.
pub open spec fn path_spec(raw: Seq<char>, role: OcppRole) -> Seq<char> {
    if role == OcppRole::Server || trim(raw).len() == 0 {
        Seq::empty()
    } else if trim(raw)[0] == '/' {
        trim(raw)
    } else {
        seq!['/'] + trim(raw)
    }
}

/// The URL path a client endpoint appends.
pub fn resolve_path(raw: &str, role: OcppRole) -> (r: String)
    ensures
        r@ == path_spec(raw@, role),
{
    if role == OcppRole::Server {
        return String::new();
    }
    let t = trim_str(raw);
    if t.unicode_len() == 0 {
        String::new()
    } else if t.get_char(0) == '/' {
        String::from_str(t)
    } else {
        proof {
            reveal_strlit("/");
        }
        let mut s = String::from_str("/");
        s.append(t);
        s
    }
}

/// The security section the dialog resolves: the one the inputs build for the active role,
/// with the other role's policy taken from the section the dialog was opened with.
pub open spec fn stitched(built: SecurityView, preserved: SecurityView, role: OcppRole) -> SecurityView {
    match role {
        OcppRole::Server => SecurityView { client: preserved.client, ..built },
        OcppRole::Client => SecurityView { server: preserved.server, ..built },
    }
}

/// Resolve the security part of the dialog: build the active role's section from the
/// inputs, keep the other role's policy from `preserved` (so a role toggle loses nothing),
/// then check that the files it names exist, asking `file_exists`.
pub fn resolve_security<F: Fn(&str) -> bool>(
    level: TlsLevel,
    role: OcppRole,
    inputs: SecurityInputs<'_>,
    preserved: &OcppSecurityConfig,
    file_exists: &F,
) -> (r: Result<OcppSecurityConfig, String>)
    requires
        forall|p: &str| file_exists.requires((p,)),
    ensures
        build_config_spec(level, role, inputs) matches Err(e) ==> (r matches Err(m) && m@ == e),
        build_config_spec(level, role, inputs) matches Ok(b) ==> {
            let s = stitched(b, security_view(*preserved), role);
            &&& file_checks(s.server, s.client, role, level) matches Err(m) ==> (r matches Err(
                x,
            ) && x@ == m)
            &&& file_checks(s.server, s.client, role, level) matches Ok(checks) ==> checked_files(
                checks,
                *file_exists,
                match r {
                    Ok(_) => Ok(()),
                    Err(e) => Err(e),
                },
            )
            &&& r matches Ok(c) ==> security_view(c) == s
        },
{
    let mut cfg = match level.build_config(role, inputs) {
        Ok(c) => c,
        Err(e) => {
            return Err(e);
        },
    };
    match role {
        OcppRole::Server => {
            cfg.tls.client = preserved.tls.client.duplicate();
        },
        OcppRole::Client => {
            cfg.tls.server = preserved.tls.server.duplicate();
        },
    }
    match validate_security(&cfg, role, level, file_exists) {
        Ok(()) => Ok(cfg),
        Err(e) => Err(e),
    }
}

} // verus!
