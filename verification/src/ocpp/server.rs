use vstd::prelude::*;

use crate::ocpp::device::{
    clone_strings, strs, CertSource, CertSourceView, ConnectorRfids, ServerPolicyView, ServerTlsPolicy,
};
use crate::ocpp::rfid::{
    cs_authorized, cs_authorized_spec, entry_of, has_entry, lemma_entry_of, not_tag,
    scope_authorized, scope_authorized_spec, tags, with_level, RfidStore, RfidView,
};
use crate::ocpp::scope::Scope;
use crate::text::{str_eq, trim, trim_str};

verus! {

/// The TLS mode a CSMS listener bound with.
#[derive(Debug, Clone, Copy, PartialEq, Eq, Structural)]
pub enum TlsBinding {
    /// Plain TCP (`ws://`).
    Plain,
    /// TLS with a self-signed certificate, configured or ephemeral.
    SelfSigned,
    /// TLS with certificate and key files.
    Certificates,
}

/// The TLS mode a CSMS listener binds with under `policy`.
pub open spec fn binding_of(policy: ServerPolicyView) -> TlsBinding {
    match policy {
        ServerPolicyView::Disabled => TlsBinding::Plain,
        ServerPolicyView::Tls(id) => identity_binding(id),
        ServerPolicyView::Mutual(id, _) => identity_binding(id),
    }
}

/// The TLS mode a listener with certificate `id` binds with.
pub open spec fn identity_binding(id: CertSourceView) -> TlsBinding {
    match id {
        CertSourceView::Files(..) => TlsBinding::Certificates,
        _ => TlsBinding::SelfSigned,
    }
}

/// The TLS mode a CSMS listener binds with under `policy`: plain without TLS, certificates
/// when the identity is read from files, self-signed otherwise (a self-signed identity, or
/// the ephemeral fallback of a `wss` endpoint without certificates).
pub fn tls_binding(policy: &ServerTlsPolicy) -> (r: TlsBinding)
    ensures
        r == binding_of(policy@),
{
    match policy {
        ServerTlsPolicy::Disabled {  } => TlsBinding::Plain,
        ServerTlsPolicy::Tls { identity } => match identity {
            CertSource::Files { .. } => TlsBinding::Certificates,
            _ => TlsBinding::SelfSigned,
        },
        ServerTlsPolicy::Mutual { identity, .. } => match identity {
            CertSource::Files { .. } => TlsBinding::Certificates,
            _ => TlsBinding::SelfSigned,
        },
    }
}

/// The start/restart log line for a listener that bound with `binding`.
pub open spec fn started_message_spec(binding: TlsBinding, verb: Seq<char>) -> Seq<char> {
    if binding == TlsBinding::SelfSigned {
        "CSMS server "@ + verb
            + " (wss without certificates: using an ephemeral self-signed certificate)"@
    } else {
        "CSMS server "@ + verb
    }
}

/// The start/restart log line, built from the TLS mode the listener actually bound with.
pub fn started_message(binding: TlsBinding, verb: &str) -> (r: String)
    ensures
        r@ == started_message_spec(binding, verb@),
{
    let mut s = String::from_str("CSMS server ");
    s.append(verb);
    if binding == TlsBinding::SelfSigned {
        s.append(" (wss without certificates: using an ephemeral self-signed certificate)");
    }
    s
}

/// The reply status of an accept-list check.
pub open spec fn status_text(accepted: bool) -> Seq<char> {
    if accepted {
        "Accepted"@
    } else {
        "Invalid"@
    }
}

/// The reply status names the check's outcome: `Accepted` exactly for an accepted tag,
/// `Invalid` exactly for a refused one.
pub proof fn lemma_status_text(accepted: bool)
    ensures
        (status_text(accepted) == "Accepted"@) == accepted,
        (status_text(accepted) == "Invalid"@) == !accepted,
{
    reveal_strlit("Accepted");
    reveal_strlit("Invalid");
    assert("Accepted"@.len() == 8 && "Invalid"@.len() == 7);
}

/// `Accepted` / `Invalid` for a CS-wide check (Authorize carries no EVSE).
pub fn cs_status(rfids: &RfidStore, id_token: &str) -> (r: &'static str)
    requires
        rfids.wf(),
    ensures
        r@ == status_text(cs_authorized_spec(rfids@, id_token@)),
{
    if cs_authorized(rfids, id_token) {
        "Accepted"
    } else {
        "Invalid"
    }
}

/// `Accepted` / `Invalid` for a tag on a specific EVSE (its list unioned with the CS
/// list).
pub fn evse_status(rfids: &RfidStore, evse_id: i64, id_token: &str) -> (r: &'static str)
    requires
        rfids.wf(),
    ensures
        r@ == status_text(
            scope_authorized_spec(rfids@, Scope { evse: Some(evse_id), connector: None }, id_token@),
        ),
{
    if scope_authorized(rfids, Scope::evse(evse_id, None), id_token) {
        "Accepted"
    } else {
        "Invalid"
    }
}

/// The connector id a Lua script sees for `scope`: OCPP 2.x connectors are addressed by
/// EVSE id.
pub fn lua_connector_id(scope: Scope) -> (r: Option<i64>)
    ensures
        r == scope.evse,
{
    scope.evse
}

/// Whether OCPP 2.x configuration keys carry a component (`Component/Variable`).
pub fn config_has_component() -> (r: bool)
    ensures
        r,
{
    true
}

/// The OCPP 2.x action that reads configuration.
pub fn config_action() -> (r: &'static str)
    ensures
        r@ == "GetVariables"@,
{
    "GetVariables"
}

/// The OCPP 2.x action that writes configuration.
pub fn set_action() -> (r: &'static str)
    ensures
        r@ == "SetVariables"@,
{
    "SetVariables"
}

/// The index of the first `/` in `s` at or after `i`, or its length.
pub open spec fn slash_at(s: Seq<char>, i: int) -> int
    decreases s.len() - i,
{
    if 0 <= i < s.len() && s[i] != '/' {
        slash_at(s, i + 1)
    } else {
        i
    }
}

proof fn lemma_slash_at_bounds(s: Seq<char>, i: int)
    requires
        0 <= i <= s.len(),
    ensures
        i <= slash_at(s, i) <= s.len(),
    decreases s.len() - i,
{
    if i < s.len() && s[i] != '/' {
        lemma_slash_at_bounds(s, i + 1);
    }
}

/// The component and variable an OCPP 2.x configuration key names: `Component/Variable`
/// split at its first `/`, or the whole key for both when it has none.
pub open spec fn key_parts(key: Seq<char>) -> (Seq<char>, Seq<char>) {
    let j = slash_at(key, 0);
    if j < key.len() {
        (key.take(j), key.skip(j + 1))
    } else {
        (key, key)
    }
}

proof fn lemma_slash_at_props(s: Seq<char>, i: int)
    requires
        0 <= i <= s.len(),
    ensures
        slash_at(s, i) < s.len() ==> s[slash_at(s, i)] == '/',
        forall|k: int| i <= k < slash_at(s, i) ==> s[k] != '/',
    decreases s.len() - i,
{
    if i < s.len() && s[i] != '/' {
        lemma_slash_at_props(s, i + 1);
    }
}

/// A `Component/Variable` key splits at its first `/`: the component holds no `/`, and
/// component, `/` and variable spell the key again; a key without `/` names the same
/// text as component and variable.
pub proof fn lemma_key_parts(key: Seq<char>)
    ensures
        key.contains('/') ==> key_parts(key).0 + seq!['/'] + key_parts(key).1 == key
            && !key_parts(key).0.contains('/'),
        !key.contains('/') ==> key_parts(key) == (key, key),
{
    lemma_slash_at_bounds(key, 0);
    lemma_slash_at_props(key, 0);
    let j = slash_at(key, 0);
    if key.contains('/') {
        let w = choose|w: int| 0 <= w < key.len() && key[w] == '/';
        assert(j <= w);
        assert(key.take(j) + seq!['/'] + key.skip(j + 1) =~= key);
        assert(!key.take(j).contains('/')) by {
            if key.take(j).contains('/') {
                let v = choose|v: int| 0 <= v < j && key.take(j)[v] == '/';
                assert(key[v] == '/');
            }
        }
    } else {
        if j < key.len() {
            assert(key[j] == '/');
        }
    }
}

/// Split an OCPP 2.x configuration key into the component and variable its
/// GetVariables/SetVariables request names.
pub fn config_key_parts(key: &str) -> (r: (&str, &str))
    ensures
        (r.0@, r.1@) == key_parts(key@),
{
    let n = key.unicode_len();
    let mut j: usize = 0;
    while j < n && key.get_char(j) != '/'
        invariant
            n == key@.len(),
            j <= n,
            slash_at(key@, 0) == slash_at(key@, j as int),
        decreases n - j,
    {
        j = j + 1;
    }
    proof {
        lemma_slash_at_bounds(key@, j as int);
    }
    if j < n {
        let a = key.substring_char(0, j);
        let b = key.substring_char(j + 1, n);
        assert(a@ =~= key@.take(j as int));
        assert(b@ =~= key@.skip(j + 1));
        (a, b)
    } else {
        (key, key)
    }
}


/// The answer to an `:rfid` command: a log line at info or warning level, or not a
/// subcommand this view knows.
pub enum RfidReply {
    Info(String),
    Warning(String),
    Unhandled,
}

/// The abstract value of an [`RfidReply`].
pub enum RfidReplyView {
    Info(Seq<char>),
    Warning(Seq<char>),
    Unhandled,
}

impl View for RfidReply {
    type V = RfidReplyView;

    open spec fn view(&self) -> RfidReplyView {
        match self {
            RfidReply::Info(m) => RfidReplyView::Info(m@),
            RfidReply::Warning(m) => RfidReplyView::Warning(m@),
            RfidReply::Unhandled => RfidReplyView::Unhandled,
        }
    }
}

/// `items` joined with `sep` between neighbours.
pub open spec fn join(items: Seq<Seq<char>>, sep: Seq<char>) -> Seq<char>
    decreases items.len(),
{
    if items.len() == 0 {
        Seq::empty()
    } else if items.len() == 1 {
        items[0]
    } else {
        join(items.drop_last(), sep) + sep + items.last()
    }
}

/// Whether `s` begins with `prefix`.
pub open spec fn begins_with(s: Seq<char>, prefix: Seq<char>) -> bool {
    prefix.len() <= s.len() && s.take(prefix.len() as int) == prefix
}

/// The accept-lists and the reply after the `:rfid` subcommand `sub` on `s`: bare lists
/// the CS accept-list, `clear` empties it, `add <tag>` / `del <tag>` change it; anything
/// else is not handled and changes nothing.
pub open spec fn rfid_command(s: RfidView, sub: Option<Seq<char>>) -> (RfidView, RfidReplyView) {
    match sub {
        None => (
            s,
            if s.cs.len() == 0 {
                RfidReplyView::Info("CS RFID accept-list empty (all tags accepted)"@)
            } else {
                RfidReplyView::Info("Accepted CS RFIDs: "@ + join(s.cs, ", "@))
            },
        ),
        Some(x) => if x == "clear"@ {
            (
                RfidView { cs: Seq::empty(), lists: s.lists },
                RfidReplyView::Info("CS RFID accept-list cleared (all accepted)"@),
            )
        } else if begins_with(x, "add "@) {
            let tag = trim(x.skip(4));
            if tag.len() == 0 {
                (s, RfidReplyView::Warning("Usage: :rfid add <tag>"@))
            } else if !s.cs.contains(tag) {
                (
                    with_level(s, Scope::cs_spec(), s.cs.push(tag)),
                    RfidReplyView::Info("Added CS RFID "@ + tag),
                )
            } else {
                (s, RfidReplyView::Warning(tag + " already in accept-list"@))
            }
        } else if begins_with(x, "del "@) {
            let tag = trim(x.skip(4));
            (
                with_level(s, Scope::cs_spec(), s.cs.filter(not_tag(tag))),
                if s.cs.contains(tag) {
                    RfidReplyView::Info("Removed CS RFID "@ + tag)
                } else {
                    RfidReplyView::Warning(tag + " not in accept-list"@)
                },
            )
        } else {
            (s, RfidReplyView::Unhandled)
        },
    }
}

/// `:rfid del <tag>` removes exactly that tag from the CS list: every other CS tag stays,
/// nothing is added, the connector lists are untouched, and the reply reports the
/// removal exactly when the tag was listed.
pub proof fn lemma_rfid_del_removes_only_that_tag(s: RfidView, x: Seq<char>)
    requires
        begins_with(x, "del "@),
    ensures
        ({
            let tag = trim(x.skip(4));
            let (t, reply) = rfid_command(s, Some(x));
            &&& t.lists == s.lists
            &&& !t.cs.contains(tag)
            &&& forall|u: Seq<char>| s.cs.contains(u) && u != tag ==> #[trigger] t.cs.contains(u)
            &&& forall|u: Seq<char>| #[trigger] t.cs.contains(u) ==> s.cs.contains(u)
            &&& (reply == RfidReplyView::Info("Removed CS RFID "@ + tag)) == s.cs.contains(tag)
        }),
{
    reveal_strlit("del ");
    reveal_strlit("clear");
    let tag = trim(x.skip(4));
    reveal_strlit("add ");
    assert("del "@[0] == 'd' && "add "@[0] == 'a');
    assert(x.take(4)[0] == x[0]);
    assert(x[0] == 'd');
    assert(!begins_with(x, "add "@)) by {
        if begins_with(x, "add "@) {
            assert(x.take(4) == "add "@);
        }
    }
    assert(x != "clear"@) by {
        assert("clear"@[0] == 'c');
    }
    let t = rfid_command(s, Some(x)).0;
    let p = not_tag(tag);
    assert(t.cs == s.cs.filter(p));
    if t.cs.contains(tag) {
        let i = choose|i: int| 0 <= i < t.cs.len() && t.cs[i] == tag;
        s.cs.lemma_filter_pred(p, i);
    }
    assert forall|u: Seq<char>| s.cs.contains(u) && u != tag implies #[trigger] t.cs.contains(u) by {
        let i = choose|i: int| 0 <= i < s.cs.len() && s.cs[i] == u;
        s.cs.lemma_filter_contains(p, i);
    }
    assert forall|u: Seq<char>| #[trigger] t.cs.contains(u) implies s.cs.contains(u) by {
        s.cs.lemma_filter_contains_rev(p, u);
    }
}

/// `:rfid add <tag>` with a non-empty tag leaves the tag on the CS list and every other CS
/// tag in place, adds nothing else, and leaves the connector lists untouched.
pub proof fn lemma_rfid_add_keeps_the_rest(s: RfidView, x: Seq<char>)
    requires
        begins_with(x, "add "@),
        trim(x.skip(4)).len() > 0,
    ensures
        ({
            let tag = trim(x.skip(4));
            let t = rfid_command(s, Some(x)).0;
            &&& (rfid_command(s, Some(x)).1 == RfidReplyView::Info("Added CS RFID "@ + tag)) == !s.cs.contains(
                tag,
            )
            &&& t.lists == s.lists
            &&& t.cs.contains(tag)
            &&& forall|u: Seq<char>| #[trigger] s.cs.contains(u) ==> t.cs.contains(u)
            &&& forall|u: Seq<char>| #[trigger] t.cs.contains(u) ==> s.cs.contains(u) || u == tag
            &&& s.cs.contains(tag) ==> t.cs == s.cs
            &&& !s.cs.contains(tag) ==> t.cs.len() == s.cs.len() + 1
        }),
{
    reveal_strlit("add ");
    reveal_strlit("clear");
    let tag = trim(x.skip(4));
    assert("add "@[0] == 'a');
    assert(x.take(4)[0] == x[0]);
    assert(x[0] == 'a');
    assert(x != "clear"@) by {
        assert("clear"@[0] == 'c');
    }
    let t = rfid_command(s, Some(x)).0;
    if !s.cs.contains(tag) {
        assert(t.cs == s.cs.push(tag));
        assert(t.cs[s.cs.len() as int] == tag);
        assert forall|u: Seq<char>| #[trigger] s.cs.contains(u) implies t.cs.contains(u) by {
            let i = choose|i: int| 0 <= i < s.cs.len() && s.cs[i] == u;
            assert(t.cs[i] == u);
        }
        assert forall|u: Seq<char>| #[trigger] t.cs.contains(u) implies s.cs.contains(u) || u == tag by {
            let i = choose|i: int| 0 <= i < t.cs.len() && t.cs[i] == u;
            if i < s.cs.len() {
                assert(s.cs[i] == u);
            }
        }
    }
}

/// `:rfid clear` empties the CS list, so the charge point is back in open mode unless a
/// connector lists tags; the connector lists are untouched. A bare `:rfid` changes nothing.
pub proof fn lemma_rfid_clear_and_list(s: RfidView)
    ensures
        rfid_command(s, Some("clear"@)).0.cs.len() == 0,
        rfid_command(s, Some("clear"@)).0.lists == s.lists,
        rfid_command(s, None).0 == s,
{
}

/// The CS tags joined with `, `.
fn join_tags(list: &Vec<String>) -> (r: String)
    ensures
        r@ == join(tags(list@), ", "@),
{
    let mut out = String::new();
    let mut i: usize = 0;
    while i < list.len()
        invariant
            i <= list@.len(),
            out@ == join(tags(list@).take(i as int), ", "@),
        decreases list@.len() - i,
    {
        let ghost before = tags(list@).take(i as int);
        assert(tags(list@).take(i + 1).drop_last() =~= before);
        if i > 0 {
            out.append(", ");
        }
        out.append(list[i].as_str());
        proof {
            if i == 0 {
                assert(tags(list@).take(1)[0] == list@[0]@);
            }
        }
        i = i + 1;
    }
    assert(tags(list@).take(list@.len() as int) =~= tags(list@));
    out
}

/// Whether `s` begins with `prefix`.
fn starts_with(s: &str, prefix: &str) -> (r: bool)
    ensures
        r == begins_with(s@, prefix@),
{
    let n = prefix.unicode_len();
    if n > s.unicode_len() {
        return false;
    }
    let head = s.substring_char(0, n);
    assert(head@ =~= s@.take(n as int));
    str_eq(head, prefix)
}

/// Carry out the `:rfid` subcommand `sub` (the trimmed argument remainder, if any) on the
/// charge-point-wide accept-list.
pub fn handle_rfid(rfids: &mut RfidStore, sub: Option<&str>) -> (r: RfidReply)
    requires
        old(rfids).wf(),
    ensures
        final(rfids).wf(),
        (final(rfids)@, r@) == rfid_command(
            old(rfids)@,
            match sub {
                Some(x) => Some(x@),
                None => None,
            },
        ),
{
    proof {
        reveal_strlit("add ");
        reveal_strlit("del ");
    }
    match sub {
        None => {
            if rfids.cs.len() == 0 {
                RfidReply::Info(String::from_str("CS RFID accept-list empty (all tags accepted)"))
            } else {
                let mut msg = String::from_str("Accepted CS RFIDs: ");
                let joined = join_tags(&rfids.cs);
                msg.append(joined.as_str());
                RfidReply::Info(msg)
            }
        },
        Some(x) => {
            if str_eq(x, "clear") {
                rfids.cs = Vec::new();
                assert(rfids@.cs =~= Seq::<Seq<char>>::empty());
                RfidReply::Info(String::from_str("CS RFID accept-list cleared (all accepted)"))
            } else if starts_with(x, "add ") {
                let rest = x.substring_char(4, x.unicode_len());
                assert(rest@ =~= x@.skip(4));
                let tag = trim_str(rest);
                if tag.unicode_len() == 0 {
                    return RfidReply::Warning(String::from_str("Usage: :rfid add <tag>"));
                }
                let owned = String::from_str(tag);
                if rfids.add(Scope::cs(), owned) {
                    let mut msg = String::from_str("Added CS RFID ");
                    msg.append(tag);
                    RfidReply::Info(msg)
                } else {
                    let mut msg = String::from_str(tag);
                    msg.append(" already in accept-list");
                    RfidReply::Warning(msg)
                }
            } else if starts_with(x, "del ") {
                let rest = x.substring_char(4, x.unicode_len());
                assert(rest@ =~= x@.skip(4));
                let tag = trim_str(rest);
                if rfids.remove(Scope::cs(), tag) {
                    let mut msg = String::from_str("Removed CS RFID ");
                    msg.append(tag);
                    RfidReply::Info(msg)
                } else {
                    let mut msg = String::from_str(tag);
                    msg.append(" not in accept-list");
                    RfidReply::Warning(msg)
                }
            } else {
                RfidReply::Unhandled
            }
        },
    }
}

/// The scope a persisted per-connector accept-list belongs to.
pub open spec fn entry_scope(c: ConnectorRfids) -> Scope {
    Scope { evse: c.evse, connector: c.connector }
}

/// The per-scope lists a device config's connector entries load into, a later entry for
/// a scope replacing an earlier one.
pub open spec fn entries_lists(es: Seq<ConnectorRfids>) -> Map<Scope, Seq<Seq<char>>>
    decreases es.len(),
{
    if es.len() == 0 {
        Map::empty()
    } else {
        entries_lists(es.drop_last()).insert(entry_scope(es.last()), tags(es.last().rfids@))
    }
}

/// Whether optional id `a` sorts before `b`: absent first, then by value.
pub open spec fn opt_before(a: Option<i64>, b: Option<i64>) -> bool {
    match (a, b) {
        (None, Some(_)) => true,
        (Some(x), Some(y)) => x < y,
        _ => false,
    }
}

/// Whether scope `a` sorts before `b`: by EVSE, then by connector.
pub open spec fn scope_before(a: Scope, b: Scope) -> bool {
    opt_before(a.evse, b.evse) || (a.evse == b.evse && opt_before(a.connector, b.connector))
}

/// Whether the entries are sorted by (EVSE, connector), each scope at most once.
pub open spec fn sorted_entries(es: Seq<ConnectorRfids>) -> bool {
    forall|i: int, j: int|
        0 <= i < j < es.len() ==> scope_before(entry_scope(#[trigger] es[i]), entry_scope(#[trigger] es[j]))
}

/// The lists of `m` that are not empty.
pub open spec fn nonempty_lists(m: Map<Scope, Seq<Seq<char>>>) -> Map<Scope, Seq<Seq<char>>> {
    Map::new(|k: Scope| m.contains_key(k) && m[k].len() > 0, |k: Scope| m[k])
}

/// Whether `es` is how a device config persists the per-scope lists `lists`: one entry
/// per scope whose list is not empty, holding that list, sorted by (EVSE, connector).
pub open spec fn persisted_entries(lists: Map<Scope, Seq<Seq<char>>>, es: Seq<ConnectorRfids>) -> bool {
    &&& sorted_entries(es)
    &&& forall|i: int|
        0 <= i < es.len() ==> lists.contains_key(entry_scope(#[trigger] es[i])) && lists[entry_scope(
            es[i],
        )] == tags(es[i].rfids@) && es[i].rfids@.len() > 0
    &&& forall|k: Scope|
        #[trigger] lists.contains_key(k) && lists[k].len() > 0 ==> exists|i: int|
            0 <= i < es.len() && entry_scope(#[trigger] es[i]) == k
}

proof fn lemma_scope_order(a: Scope, b: Scope, c: Scope)
    ensures
        !scope_before(a, a),
        a != b ==> (scope_before(a, b) || scope_before(b, a)),
        scope_before(a, b) && scope_before(b, c) ==> scope_before(a, c),
{
}

/// Loading entries with distinct scopes: each entry's scope maps to its own list, and
/// nothing else is loaded.
proof fn lemma_entries_lists(es: Seq<ConnectorRfids>)
    requires
        sorted_entries(es),
    ensures
        forall|j: int|
            0 <= j < es.len() ==> #[trigger] entries_lists(es).contains_key(entry_scope(es[j]))
                && entries_lists(es)[entry_scope(es[j])] == tags(es[j].rfids@),
        forall|k: Scope|
            #[trigger] entries_lists(es).contains_key(k) ==> exists|j: int|
                0 <= j < es.len() && entry_scope(#[trigger] es[j]) == k,
    decreases es.len(),
{
    if es.len() > 0 {
        let d = es.drop_last();
        assert(sorted_entries(d)) by {
            assert forall|i: int, j: int| 0 <= i < j < d.len() implies scope_before(
                entry_scope(#[trigger] d[i]),
                entry_scope(#[trigger] d[j]),
            ) by {
                assert(d[i] == es[i] && d[j] == es[j]);
            }
        }
        lemma_entries_lists(d);
        let last = es.last();
        assert forall|j: int| 0 <= j < es.len() implies #[trigger] entries_lists(es).contains_key(
            entry_scope(es[j]),
        ) && entries_lists(es)[entry_scope(es[j])] == tags(es[j].rfids@) by {
            if j < es.len() - 1 {
                assert(d[j] == es[j]);
                assert(scope_before(entry_scope(es[j]), entry_scope(es[es.len() - 1])));
                lemma_scope_order(entry_scope(es[j]), entry_scope(last), entry_scope(last));
                assert(entry_scope(es[j]) != entry_scope(last));
                assert(entries_lists(d).contains_key(entry_scope(d[j])));
            }
        }
        assert forall|k: Scope| #[trigger] entries_lists(es).contains_key(k) implies exists|j: int|
            0 <= j < es.len() && entry_scope(#[trigger] es[j]) == k by {
            if k == entry_scope(last) {
                assert(entry_scope(es[es.len() - 1]) == k);
            } else {
                assert(entries_lists(d).contains_key(k));
                let j = choose|j: int| 0 <= j < d.len() && entry_scope(#[trigger] d[j]) == k;
                assert(d[j] == es[j]);
            }
        }
    }
}

/// Writing an accept-list store into a device config and loading it back gives the same
/// per-scope lists without the empty ones; and dropping the empty lists changes no
/// accept decision, neither at the CS-wide check nor at any connector.
pub proof fn lemma_rfid_persist_roundtrip(
    s: RfidView,
    es: Seq<ConnectorRfids>,
    scope: Scope,
    tag: Seq<char>,
)
    requires
        persisted_entries(s.lists, es),
    ensures
        entries_lists(es) == nonempty_lists(s.lists),
        cs_authorized_spec(RfidView { cs: s.cs, lists: entries_lists(es) }, tag)
            == cs_authorized_spec(s, tag),
        scope_authorized_spec(RfidView { cs: s.cs, lists: entries_lists(es) }, scope, tag)
            == scope_authorized_spec(s, scope, tag),
{
    lemma_entries_lists(es);
    let m = entries_lists(es);
    let n = nonempty_lists(s.lists);
    assert forall|k: Scope| #[trigger] m.contains_key(k) == n.contains_key(k) by {
        if m.contains_key(k) {
            let j = choose|j: int| 0 <= j < es.len() && entry_scope(#[trigger] es[j]) == k;
            assert(s.lists.contains_key(entry_scope(es[j])));
            assert(tags(es[j].rfids@).len() == es[j].rfids@.len());
        }
        if n.contains_key(k) {
            let j = choose|j: int| 0 <= j < es.len() && entry_scope(#[trigger] es[j]) == k;
            assert(m.contains_key(entry_scope(es[j])));
        }
    }
    assert forall|k: Scope| #[trigger] m.contains_key(k) implies m[k] == n[k] by {
        let j = choose|j: int| 0 <= j < es.len() && entry_scope(#[trigger] es[j]) == k;
        assert(m.contains_key(entry_scope(es[j])));
    }
    assert(m =~= n);
    let t = RfidView { cs: s.cs, lists: m };
    assert(cs_authorized_spec(t, tag) == cs_authorized_spec(s, tag)) by {
        if cs_authorized_spec(s, tag) && !(s.cs.len() == 0 && forall|k: Scope| #[trigger] s.lists.contains_key(k) ==> s.lists[k].len() == 0) && !s.cs.contains(tag) {
            let k = choose|k: Scope| #[trigger] s.lists.contains_key(k) && s.lists[k].contains(tag);
            assert(s.lists[k].len() > 0);
            assert(n.contains_key(k));
        }
        if cs_authorized_spec(t, tag) && !(t.cs.len() == 0 && forall|k: Scope| #[trigger] t.lists.contains_key(k) ==> t.lists[k].len() == 0) && !t.cs.contains(tag) {
            let k = choose|k: Scope| #[trigger] t.lists.contains_key(k) && t.lists[k].contains(tag);
            assert(s.lists.contains_key(k));
        }
        if s.cs.len() == 0 && (forall|k: Scope| #[trigger] t.lists.contains_key(k) ==> t.lists[k].len() == 0) {
            assert forall|k: Scope| #[trigger] s.lists.contains_key(k) implies s.lists[k].len() == 0 by {
                if s.lists[k].len() > 0 {
                    assert(n.contains_key(k));
                }
            }
        }
        if s.cs.len() == 0 && (forall|k: Scope| #[trigger] s.lists.contains_key(k) ==> s.lists[k].len() == 0) {
            assert forall|k: Scope| #[trigger] t.lists.contains_key(k) implies t.lists[k].len() == 0 by {
                assert(s.lists.contains_key(k));
            }
        }
    }
}

/// Whether every scope of `a` is a scope of `b`.
#[verifier::opaque]
pub open spec fn scopes_within(a: Seq<ConnectorRfids>, b: Seq<ConnectorRfids>) -> bool {
    forall|i: int|
        0 <= i < a.len() ==> exists|j: int| 0 <= j < b.len() && entry_scope(#[trigger] a[i]) == entry_scope(#[trigger] b[j])
}

proof fn lemma_sorted_tail(a: Seq<ConnectorRfids>)
    requires
        sorted_entries(a),
        a.len() > 0,
    ensures
        sorted_entries(a.drop_first()),
        forall|p: int| 0 < p < a.len() ==> scope_before(entry_scope(a[0]), entry_scope(#[trigger] a[p])),
{
    let ta = a.drop_first();
    assert forall|p: int, q: int| 0 <= p < q < ta.len() implies scope_before(
        entry_scope(#[trigger] ta[p]),
        entry_scope(#[trigger] ta[q]),
    ) by {
        assert(ta[p] == a[p + 1] && ta[q] == a[q + 1]);
    }
}

proof fn lemma_sorted_heads(a: Seq<ConnectorRfids>, b: Seq<ConnectorRfids>)
    requires
        sorted_entries(a),
        sorted_entries(b),
        scopes_within(a, b),
        scopes_within(b, a),
        a.len() > 0,
        b.len() > 0,
    ensures
        entry_scope(a[0]) == entry_scope(b[0]),
{
    reveal(scopes_within);
    let j = choose|j: int| 0 <= j < b.len() && entry_scope(a[0]) == entry_scope(#[trigger] b[j]);
    let i = choose|i: int| 0 <= i < a.len() && entry_scope(b[0]) == entry_scope(#[trigger] a[i]);
    if j > 0 {
        assert(scope_before(entry_scope(b[0]), entry_scope(b[j])));
        if i > 0 {
            assert(scope_before(entry_scope(a[0]), entry_scope(a[i])));
            lemma_scope_order(entry_scope(a[0]), entry_scope(b[0]), entry_scope(a[0]));
        } else {
            lemma_scope_order(entry_scope(a[0]), entry_scope(a[0]), entry_scope(a[0]));
        }
    }
}

proof fn lemma_tails_within(a: Seq<ConnectorRfids>, b: Seq<ConnectorRfids>)
    requires
        sorted_entries(a),
        sorted_entries(b),
        scopes_within(a, b),
        a.len() > 0,
        b.len() > 0,
        entry_scope(a[0]) == entry_scope(b[0]),
    ensures
        scopes_within(a.drop_first(), b.drop_first()),
{
    reveal(scopes_within);
    lemma_sorted_tail(a);
    let ta = a.drop_first();
    let tb = b.drop_first();
    assert forall|p: int| 0 <= p < ta.len() implies exists|q: int|
        0 <= q < tb.len() && entry_scope(#[trigger] ta[p]) == entry_scope(#[trigger] tb[q]) by {
        assert(ta[p] == a[p + 1]);
        let q = choose|q: int| 0 <= q < b.len() && entry_scope(a[p + 1]) == entry_scope(#[trigger] b[q]);
        assert(scope_before(entry_scope(a[0]), entry_scope(a[p + 1])));
        lemma_scope_order(entry_scope(a[0]), entry_scope(a[0]), entry_scope(a[0]));
        assert(q != 0);
        assert(tb[q - 1] == b[q]);
    }
}

/// Two sorted entry lists with the same scopes list them in the same order.
proof fn lemma_sorted_same_scopes(a: Seq<ConnectorRfids>, b: Seq<ConnectorRfids>)
    requires
        sorted_entries(a),
        sorted_entries(b),
        scopes_within(a, b),
        scopes_within(b, a),
    ensures
        a.len() == b.len(),
        forall|i: int| 0 <= i < a.len() ==> entry_scope(#[trigger] a[i]) == entry_scope(b[i]),
    decreases a.len(),
{
    if a.len() == 0 || b.len() == 0 {
        reveal(scopes_within);
        if b.len() > 0 {
            assert(entry_scope(b[0]) == entry_scope(b[0]));
        }
        if a.len() > 0 {
            assert(entry_scope(a[0]) == entry_scope(a[0]));
        }
    } else {
        lemma_sorted_heads(a, b);
        lemma_sorted_tail(a);
        lemma_sorted_tail(b);
        lemma_tails_within(a, b);
        lemma_tails_within(b, a);
        let ta = a.drop_first();
        let tb = b.drop_first();
        lemma_sorted_same_scopes(ta, tb);
        assert forall|p: int| 0 <= p < a.len() implies entry_scope(#[trigger] a[p]) == entry_scope(b[p]) by {
            if p > 0 {
                assert(ta[p - 1] == a[p] && tb[p - 1] == b[p]);
            }
        }
    }
}

/// Loading a device config whose connector entries are sorted by (EVSE, connector), one
/// per scope and none empty, and writing the store back, gives the same entries.
pub proof fn lemma_device_rfids_roundtrip(es: Seq<ConnectorRfids>, out: Seq<ConnectorRfids>)
    requires
        sorted_entries(es),
        forall|i: int| 0 <= i < es.len() ==> (#[trigger] es[i]).rfids@.len() > 0,
        persisted_entries(entries_lists(es), out),
    ensures
        out.len() == es.len(),
        forall|i: int|
            0 <= i < es.len() ==> entry_scope(#[trigger] out[i]) == entry_scope(es[i]) && tags(
                out[i].rfids@,
            ) == tags(es[i].rfids@),
{
    lemma_entries_lists(es);
    let m = entries_lists(es);
    reveal(scopes_within);
    assert(scopes_within(out, es)) by {
        assert forall|p: int| 0 <= p < out.len() implies exists|q: int|
            0 <= q < es.len() && entry_scope(#[trigger] out[p]) == entry_scope(#[trigger] es[q]) by {
            assert(m.contains_key(entry_scope(out[p])));
        }
    }
    assert(scopes_within(es, out)) by {
        assert forall|p: int| 0 <= p < es.len() implies exists|q: int|
            0 <= q < out.len() && entry_scope(#[trigger] es[p]) == entry_scope(#[trigger] out[q]) by {
            assert(m.contains_key(entry_scope(es[p])));
            assert(tags(es[p].rfids@).len() == es[p].rfids@.len());
            assert(m[entry_scope(es[p])].len() > 0);
        }
    }
    lemma_sorted_same_scopes(out, es);
    assert forall|i: int| 0 <= i < es.len() implies entry_scope(#[trigger] out[i]) == entry_scope(es[i])
        && tags(out[i].rfids@) == tags(es[i].rfids@) by {
        assert(entry_scope(out[i]) == entry_scope(es[i]));
        assert(m.contains_key(entry_scope(es[i])));
    }
}

/// Load the runtime accept-list store from a device config's CS list and per-connector
/// entries; a later entry for a scope replaces an earlier one.
pub fn rfid_store_from_device(rfids: &Vec<String>, connector_rfids: &Vec<ConnectorRfids>) -> (r:
    RfidStore)
    ensures
        r.wf(),
        r@.cs == tags(rfids@),
        r@.lists == entries_lists(connector_rfids@),
{
    let mut store = RfidStore { cs: clone_strings(rfids), by_scope: Vec::new() };
    assert(store@.lists =~= Map::<Scope, Seq<Seq<char>>>::empty());
    let mut i: usize = 0;
    while i < connector_rfids.len()
        invariant
            i <= connector_rfids@.len(),
            store.wf(),
            store@.cs == tags(rfids@),
            store@.lists == entries_lists(connector_rfids@.take(i as int)),
        decreases connector_rfids@.len() - i,
    {
        let cr = &connector_rfids[i];
        let scope = Scope { evse: cr.evse, connector: cr.connector };
        store.set_scope_list(scope, clone_strings(&cr.rfids));
        assert(connector_rfids@.take(i + 1).drop_last() =~= connector_rfids@.take(i as int));
        i = i + 1;
    }
    assert(connector_rfids@.take(connector_rfids@.len() as int) =~= connector_rfids@);
    store
}

/// The accept-lists of `store` as a device config persists them: the CS list, and one
/// entry per connector whose list is not empty, sorted by (EVSE, connector) so saves are
/// deterministic.
pub fn fill_device_rfids(store: &RfidStore) -> (r: (Vec<String>, Vec<ConnectorRfids>))
    requires
        store.wf(),
    ensures
        tags(r.0@) == store@.cs,
        persisted_entries(store@.lists, r.1@),
{
    let cs = clone_strings(&store.cs);
    let mut out: Vec<ConnectorRfids> = Vec::new();
    let mut i: usize = 0;
    while i < store.by_scope.len()
        invariant
            store.wf(),
            i <= store.by_scope@.len(),
            sorted_entries(out@),
            forall|j: int|
                0 <= j < out@.len() ==> exists|k: int|
                    0 <= k < i && (#[trigger] store.by_scope@[k]).0 == entry_scope(#[trigger] out@[j])
                        && tags(store.by_scope@[k].1@) == tags(out@[j].rfids@) && out@[j].rfids@.len()
                        > 0,
            forall|k: int|
                0 <= k < i && (#[trigger] store.by_scope@[k]).1@.len() > 0 ==> exists|j: int|
                    0 <= j < out@.len() && entry_scope(#[trigger] out@[j]) == store.by_scope@[k].0,
        decreases store.by_scope@.len() - i,
    {
        let (scope, list) = (store.by_scope[i].0, &store.by_scope[i].1);
        if list.len() > 0 {
            let entry = ConnectorRfids {
                evse: scope.evse,
                connector: scope.connector,
                rfids: clone_strings(list),
            };
            assert(tags(entry.rfids@) =~= tags(list@)) by {
                assert(strs(entry.rfids@) == strs(list@));
                assert(strs(entry.rfids@).len() == entry.rfids@.len());
                assert forall|q: int| 0 <= q < list@.len() implies #[trigger] tags(entry.rfids@)[q]
                    == tags(list@)[q] by {
                    assert(strs(entry.rfids@)[q] == strs(list@)[q]);
                }
            }
            proof {
                assert forall|j: int| 0 <= j < out@.len() implies entry_scope(#[trigger] out@[j]) != scope by {
                    let k = choose|k: int|
                        0 <= k < i && (#[trigger] store.by_scope@[k]).0 == entry_scope(out@[j])
                            && tags(store.by_scope@[k].1@) == tags(out@[j].rfids@) && out@[j].rfids@.len() > 0;
                    assert(store.by_scope@[k].0 != store.by_scope@[i as int].0);
                }
            }
            let ghost prev = out@;
            let pos = insert_sorted(&mut out, entry);
            proof {
                assert forall|j: int| 0 <= j < out@.len() implies exists|k: int|
                    0 <= k < i + 1 && (#[trigger] store.by_scope@[k]).0 == entry_scope(#[trigger] out@[j])
                        && tags(store.by_scope@[k].1@) == tags(out@[j].rfids@) && out@[j].rfids@.len()
                        > 0 by {
                    if j == pos {
                        assert(store.by_scope@[i as int].0 == entry_scope(out@[j]));
                    } else {
                        let j2 = if j < pos { j } else { j - 1 };
                        assert(out@[j] == prev[j2]);
                        let k = choose|k: int|
                            0 <= k < i && (#[trigger] store.by_scope@[k]).0 == entry_scope(prev[j2])
                                && tags(store.by_scope@[k].1@) == tags(prev[j2].rfids@) && prev[j2].rfids@.len() > 0;
                        assert(0 <= k < i + 1 && store.by_scope@[k].0 == entry_scope(out@[j]));
                    }
                }
                assert forall|k: int| 0 <= k < i + 1 && (#[trigger] store.by_scope@[k]).1@.len() > 0 implies exists|j: int|
                    0 <= j < out@.len() && entry_scope(#[trigger] out@[j]) == store.by_scope@[k].0 by {
                    if k == i {
                        assert(entry_scope(out@[pos as int]) == store.by_scope@[k].0);
                    } else {
                        let j = choose|j: int| 0 <= j < prev.len() && entry_scope(#[trigger] prev[j]) == store.by_scope@[k].0;
                        let j1 = if j < pos { j } else { j + 1 };
                        assert(out@[j1] == prev[j]);
                    }
                }
            }
        }
        i = i + 1;
    }
    proof {
        assert forall|j: int| 0 <= j < out@.len() implies store@.lists.contains_key(entry_scope(#[trigger] out@[j]))
            && store@.lists[entry_scope(out@[j])] == tags(out@[j].rfids@) && out@[j].rfids@.len() > 0 by {
            let k = choose|k: int|
                0 <= k < store.by_scope@.len() && (#[trigger] store.by_scope@[k]).0 == entry_scope(out@[j])
                    && tags(store.by_scope@[k].1@) == tags(out@[j].rfids@) && out@[j].rfids@.len() > 0;
            assert(has_entry(store.by_scope@, entry_scope(out@[j])));
            lemma_entry_of(store.by_scope@, entry_scope(out@[j]));
        }
        assert forall|k: Scope| #[trigger] store@.lists.contains_key(k) && store@.lists[k].len() > 0 implies exists|j: int|
            0 <= j < out@.len() && entry_scope(#[trigger] out@[j]) == k by {
            lemma_entry_of(store.by_scope@, k);
            let e = entry_of(store.by_scope@, k);
            assert(tags(store.by_scope@[e].1@).len() == store.by_scope@[e].1@.len());
            assert(store.by_scope@[e].1@.len() > 0);
        }
    }
    (cs, out)
}

/// Insert `entry` into the sorted `out` at the position that keeps it sorted; returns
/// that position.
fn insert_sorted(out: &mut Vec<ConnectorRfids>, entry: ConnectorRfids) -> (pos: usize)
    requires
        sorted_entries(old(out)@),
        forall|j: int| 0 <= j < old(out)@.len() ==> entry_scope(#[trigger] old(out)@[j]) != entry_scope(entry),
    ensures
        pos <= old(out)@.len(),
        final(out)@ == old(out)@.insert(pos as int, entry),
        sorted_entries(final(out)@),
{
    let scope = scope_of_entry(&entry);
    let mut pos: usize = 0;
    while pos < out.len() && !before(scope, scope_of_entry(&out[pos]))
        invariant
            pos <= out@.len(),
            forall|j: int| 0 <= j < pos ==> !scope_before(scope, entry_scope(#[trigger] out@[j])),
        decreases out@.len() - pos,
    {
        pos = pos + 1;
    }
    proof {
        assert forall|j: int| 0 <= j < pos implies scope_before(entry_scope(#[trigger] out@[j]), scope) by {
            lemma_scope_order(entry_scope(out@[j]), scope, scope);
        }
        assert forall|j: int| pos <= j < out@.len() implies scope_before(scope, entry_scope(#[trigger] out@[j])) by {
            if j > pos {
                assert(scope_before(entry_scope(out@[pos as int]), entry_scope(out@[j])));
                lemma_scope_order(scope, entry_scope(out@[pos as int]), entry_scope(out@[j]));
            }
        }
    }
    let ghost prev = out@;
    out.insert(pos, entry);
    proof {
        assert(entry_scope(out@[pos as int]) == scope);
        assert forall|a: int, b: int| 0 <= a < b < out@.len() implies scope_before(
            entry_scope(#[trigger] out@[a]),
            entry_scope(#[trigger] out@[b]),
        ) by {
            let a2 = if a < pos { a } else { a - 1 };
            let b2 = if b < pos { b } else { b - 1 };
            if a != pos && b != pos {
                assert(out@[a] == prev[a2] && out@[b] == prev[b2]);
            } else if a == pos {
                assert(out@[b] == prev[b2]);
            } else {
                assert(out@[a] == prev[a2]);
            }
        }
    }
    pos
}

/// The scope a persisted entry belongs to.
fn scope_of_entry(c: &ConnectorRfids) -> (r: Scope)
    ensures
        r == entry_scope(*c),
{
    Scope { evse: c.evse, connector: c.connector }
}

/// Whether scope `a` sorts before `b`.
fn before(a: Scope, b: Scope) -> (r: bool)
    ensures
        r == scope_before(a, b),
{
    let evse_before = match (a.evse, b.evse) {
        (None, Some(_)) => true,
        (Some(x), Some(y)) => x < y,
        _ => false,
    };
    let conn_before = match (a.connector, b.connector) {
        (None, Some(_)) => true,
        (Some(x), Some(y)) => x < y,
        _ => false,
    };
    evse_before || (a.evse == b.evse && conn_before)
}
} // verus!
