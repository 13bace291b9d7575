//! The transaction bookkeeping of an OCPP 2.x charging-station connector.

use vstd::prelude::*;

use crate::json::{lemma_member_views_push, member_views, Json, JsonView};
use crate::ocpp::scope::Scope;
use crate::text::str_eq;

verus! {

/// The part of an OCPP 2.x connector's state that its transactions touch; `L` is the type
/// of its charge limit.
pub struct ConnectorTx<L> {
    pub evse_id: i64,
    pub connector_id: i64,
    /// The connector status (`Available`, `Occupied`, ...).
    pub status: String,
    /// The RFID tag presented for its transactions.
    pub rfid: String,
    /// The transaction in progress, if any.
    pub transaction_id: Option<String>,
    /// Whether the CSMS accepted the transaction start.
    pub tx_confirmed: bool,
    /// The limit of the transaction's charging profile.
    pub limit: Option<L>,
}

/// The text of an optional string.
pub open spec fn text_of(o: Option<String>) -> Option<Seq<char>> {
    match o {
        Some(s) => Some(s@),
        None => None,
    }
}

/// Whether `c` holds the transaction `started`.
pub open spec fn holds_tx<L>(c: ConnectorTx<L>, started: Option<&str>) -> bool {
    started is Some && text_of(c.transaction_id) == Some(started->0@)
}

/// Whether `c` keeps everything but the transaction fields and the status of `before`.
pub open spec fn same_connector<L>(c: ConnectorTx<L>, before: ConnectorTx<L>) -> bool {
    c.evse_id == before.evse_id && c.connector_id == before.connector_id && c.rfid == before.rfid
}

/// Whether two optional strings hold the same text.
fn same_text(a: &Option<String>, b: Option<&str>) -> (r: bool)
    ensures
        r == (b is Some && text_of(*a) == Some(b->0@)),
{
    match (a, b) {
        (Some(x), Some(y)) => str_eq(x.as_str(), y),
        _ => false,
    }
}

/// `c` after a rollback of `started_tx` on `before`: when `before` holds that transaction it
/// ends with no transaction, no transaction limit, unconfirmed and `Available`; otherwise
/// nothing changes.
pub open spec fn rolled_back<L>(before: ConnectorTx<L>, c: ConnectorTx<L>, started_tx: Option<&str>) -> bool {
    &&& holds_tx(before, started_tx) ==> {
        &&& c.transaction_id is None
        &&& c.limit is None
        &&& !c.tx_confirmed
        &&& c.status@ == "Available"@
        &&& same_connector(c, before)
    }
    &&& !holds_tx(before, started_tx) ==> c == before
}

/// `c` after confirming `started_tx` on `before`: confirmed when `before` holds that
/// transaction; otherwise unchanged.
pub open spec fn confirmed<L>(before: ConnectorTx<L>, c: ConnectorTx<L>, started_tx: Option<&str>) -> bool {
    &&& holds_tx(before, started_tx) ==> c == (ConnectorTx { tx_confirmed: true, ..before })
    &&& !holds_tx(before, started_tx) ==> c == before
}

/// Roll back, on one connector, a transaction whose start failed to send.
pub fn rollback_connector<L>(c: &mut ConnectorTx<L>, started_tx: Option<&str>)
    ensures
        rolled_back(*old(c), *final(c), started_tx),
{
    if same_text(&c.transaction_id, started_tx) {
        c.transaction_id = None;
        c.limit = None;
        c.tx_confirmed = false;
        c.status = String::from_str("Available");
    }
}

/// Confirm, on one connector, a transaction whose start the CSMS answered.
pub fn confirm_connector<L>(c: &mut ConnectorTx<L>, started_tx: Option<&str>)
    ensures
        confirmed(*old(c), *final(c), started_tx),
{
    if same_text(&c.transaction_id, started_tx) {
        c.tx_confirmed = true;
    }
}

/// The `TransactionEvent(Ended)` request for transaction `tx` with sequence number `seq`,
/// stamped `now`, presenting tag `rfid`.
pub open spec fn ended_event(tx: Seq<char>, seq: u64, now: Seq<char>, rfid: Seq<char>) -> JsonView {
    JsonView::Object(
        seq![
            ("eventType"@, JsonView::Str("Ended"@)),
            ("timestamp"@, JsonView::Str(now)),
            ("triggerReason"@, JsonView::Str("StopAuthorized"@)),
            ("seqNo"@, JsonView::Int(seq as int)),
            ("transactionInfo"@, JsonView::Object(seq![("transactionId"@, JsonView::Str(tx))])),
            (
                "idToken"@,
                JsonView::Object(
                    seq![("idToken"@, JsonView::Str(rfid)), ("type"@, JsonView::Str("Central"@))],
                ),
            ),
        ],
    )
}

/// `c` and `r` after ending the transaction of `before`: nothing happens without one;
/// otherwise `c` is `Available` with no transaction, no transaction limit and unconfirmed,
/// and `r` is its `TransactionEvent(Ended)` request.
pub open spec fn ended<L>(before: ConnectorTx<L>, c: ConnectorTx<L>, r: Option<Json>, seq: u64, now: Seq<char>) -> bool {
    &&& before.transaction_id is None ==> r is None && c == before
    &&& before.transaction_id matches Some(tx) ==> {
        &&& r matches Some(ev) && ev@ == ended_event(tx@, seq, now, before.rfid@)
        &&& c.transaction_id is None
        &&& c.limit is None
        &&& !c.tx_confirmed
        &&& c.status@ == "Available"@
        &&& same_connector(c, before)
    }
}

/// Appends the member (`key`, `value`).
fn push_member(ms: &mut Vec<(String, Json)>, key: &str, value: Json)
    ensures
        member_views(final(ms)@) == member_views(old(ms)@).push((key@, value@)),
{
    let m = (String::from_str(key), value);
    ms.push(m);
    proof {
        lemma_member_views_push(old(ms)@, m);
    }
}

/// End the connector's transaction: `None` when it has none; otherwise the connector
/// becomes `Available` with no transaction, no transaction limit and unconfirmed, and the
/// `TransactionEvent(Ended)` request (sequence number `seq`, stamped `now`) is returned.
/// The caller takes `seq` from the connector's sequence only when a transaction is open.
pub fn end_transaction<L>(c: &mut ConnectorTx<L>, seq: u64, now: &str) -> (r: Option<Json>)
    ensures
        ended(*old(c), *final(c), r, seq, now@),
{
    let tx = match &c.transaction_id {
        Some(t) => t.clone(),
        None => {
            return None;
        },
    };
    let mut info: Vec<(String, Json)> = Vec::new();
    push_member(&mut info, "transactionId", Json::Str(tx));
    let mut token: Vec<(String, Json)> = Vec::new();
    push_member(&mut token, "idToken", Json::Str(c.rfid.clone()));
    push_member(&mut token, "type", Json::Str(String::from_str("Central")));
    let mut ms: Vec<(String, Json)> = Vec::new();
    push_member(&mut ms, "eventType", Json::Str(String::from_str("Ended")));
    push_member(&mut ms, "timestamp", Json::Str(String::from_str(now)));
    push_member(&mut ms, "triggerReason", Json::Str(String::from_str("StopAuthorized")));
    push_member(&mut ms, "seqNo", Json::Int(seq as i128));
    push_member(&mut ms, "transactionInfo", Json::Object(info));
    push_member(&mut ms, "idToken", Json::Object(token));
    proof {
        assert(member_views(Seq::<(String, Json)>::empty()) =~= Seq::empty());
        assert(member_views(info@) =~= seq![("transactionId"@, JsonView::Str(old(c).transaction_id->0@))]);
        assert(member_views(token@) =~= seq![
            ("idToken"@, JsonView::Str(old(c).rfid@)),
            ("type"@, JsonView::Str("Central"@)),
        ]);
        assert(member_views(ms@) =~= seq![
            ("eventType"@, JsonView::Str("Ended"@)),
            ("timestamp"@, JsonView::Str(now@)),
            ("triggerReason"@, JsonView::Str("StopAuthorized"@)),
            ("seqNo"@, JsonView::Int(seq as int)),
            ("transactionInfo"@, JsonView::Object(member_views(info@))),
            ("idToken"@, JsonView::Object(member_views(token@))),
        ]);
    }
    c.status = String::from_str("Available");
    c.transaction_id = None;
    c.limit = None;
    c.tx_confirmed = false;
    Some(Json::Object(ms))
}

/// The position of the first connector on EVSE `e`.
pub open spec fn first_on_evse<L>(cs: Seq<ConnectorTx<L>>, e: i64) -> Option<int>
    decreases cs.len(),
{
    if cs.len() == 0 {
        None
    } else {
        match first_on_evse(cs.drop_last(), e) {
            Some(k) => Some(k),
            None => if cs.last().evse_id == e {
                Some(cs.len() - 1)
            } else {
                None
            },
        }
    }
}

/// The connector a scope explicitly targets: the first on its EVSE; none for a scope
/// without an EVSE.
pub open spec fn connector_for_state_spec<L>(cs: Seq<ConnectorTx<L>>, scope: Scope) -> Option<int> {
    match scope.evse {
        Some(e) => first_on_evse(cs, e),
        None => None,
    }
}

/// The connector an action for `scope` works on: the one the scope targets, falling back
/// to the first connector.
pub open spec fn connector_index_spec<L>(cs: Seq<ConnectorTx<L>>, scope: Scope) -> Option<int> {
    match connector_for_state_spec(cs, scope) {
        Some(k) => Some(k),
        None => if cs.len() > 0 {
            Some(0)
        } else {
            None
        },
    }
}

/// The connector `scope` explicitly targets.
pub fn connector_index_for_state<L>(cs: &[ConnectorTx<L>], scope: Scope) -> (r: Option<usize>)
    ensures
        r is Some == connector_for_state_spec(cs@, scope) is Some,
        r matches Some(k) ==> connector_for_state_spec(cs@, scope) == Some(k as int) && k < cs@.len(),
{
    let e = match scope.evse {
        Some(e) => e,
        None => {
            return None;
        },
    };
    let mut i: usize = 0;
    while i < cs.len()
        invariant
            i <= cs@.len(),
            scope.evse == Some(e),
            first_on_evse(cs@.take(i as int), e) is None,
        decreases cs@.len() - i,
    {
        assert(cs@.take(i + 1).drop_last() =~= cs@.take(i as int));
        if cs[i].evse_id == e {
            proof {
                assert(cs@.take(i + 1).last() == cs@[i as int]);
                assert(first_on_evse(cs@.take(i + 1), e) == Some(i as int));
                lemma_first_on_evse_extend(cs@, e, i + 1);
            }
            return Some(i);
        }
        i = i + 1;
    }
    assert(cs@.take(cs@.len() as int) =~= cs@);
    None
}

proof fn lemma_first_on_evse_extend<L>(cs: Seq<ConnectorTx<L>>, e: i64, k: int)
    requires
        0 <= k <= cs.len(),
        first_on_evse(cs.take(k), e) is Some,
    ensures
        first_on_evse(cs, e) == first_on_evse(cs.take(k), e),
    decreases cs.len() - k,
{
    if k == cs.len() {
        assert(cs.take(k) =~= cs);
    } else {
        assert(cs.take(k + 1).drop_last() =~= cs.take(k));
        lemma_first_on_evse_extend(cs, e, k + 1);
    }
}

/// The connector an action for `scope` works on.
pub fn connector_index<L>(cs: &[ConnectorTx<L>], scope: Scope) -> (r: Option<usize>)
    ensures
        r is Some == connector_index_spec(cs@, scope) is Some,
        r matches Some(k) ==> connector_index_spec(cs@, scope) == Some(k as int) && k < cs@.len(),
{
    match connector_index_for_state(cs, scope) {
        Some(k) => Some(k),
        None => if cs.len() > 0 {
            Some(0)
        } else {
            None
        },
    }
}

/// The scopes whose connector has a live, confirmed transaction, in order (the targets of
/// the automatic MeterValues).
pub open spec fn active_meter_spec<L>(cs: Seq<ConnectorTx<L>>) -> Seq<Scope>
    decreases cs.len(),
{
    if cs.len() == 0 {
        Seq::empty()
    } else {
        let rest = active_meter_spec(cs.drop_last());
        let c = cs.last();
        if c.transaction_id is Some && c.tx_confirmed {
            rest.push(Scope { evse: Some(c.evse_id), connector: None })
        } else {
            rest
        }
    }
}

/// The scopes whose connector has a live, confirmed transaction.
pub fn active_meter_scopes<L>(cs: &[ConnectorTx<L>]) -> (r: Vec<Scope>)
    ensures
        r@ == active_meter_spec(cs@),
{
    let mut out: Vec<Scope> = Vec::new();
    let mut i: usize = 0;
    while i < cs.len()
        invariant
            i <= cs@.len(),
            out@ == active_meter_spec(cs@.take(i as int)),
        decreases cs@.len() - i,
    {
        assert(cs@.take(i + 1).drop_last() =~= cs@.take(i as int));
        if cs[i].transaction_id.is_some() && cs[i].tx_confirmed {
            out.push(Scope::evse(cs[i].evse_id, None));
        }
        i = i + 1;
    }
    assert(cs@.take(cs@.len() as int) =~= cs@);
    out
}

/// Whether `after` is `before` with only position `k` changed.
pub open spec fn changed_only_at<T>(before: Seq<T>, after: Seq<T>, k: int) -> bool {
    after.len() == before.len() && forall|j: int| 0 <= j < before.len() && j != k ==> after[j] == before[j]
}

/// Build the `TransactionEvent(Ended)` request for the connector `scope` resolves to
/// (sequence number `seq`, stamped `now`) and close its transaction; `None`, with nothing
/// changed, when no connector resolves or it has no transaction.
pub fn stop_event<L>(cs: &mut Vec<ConnectorTx<L>>, scope: Scope, seq: u64, now: &str) -> (r: Option<Json>)
    ensures
        match connector_index_spec(old(cs)@, scope) {
            None => r is None && final(cs)@ == old(cs)@,
            Some(k) => changed_only_at(old(cs)@, final(cs)@, k) && ended(
                old(cs)@[k],
                final(cs)@[k],
                r,
                seq,
                now@,
            ),
        },
{
    let k = match connector_index(cs.as_slice(), scope) {
        Some(k) => k,
        None => {
            return None;
        },
    };
    let mut c = cs.remove(k);
    let r = end_transaction(&mut c, seq, now);
    cs.insert(k, c);
    r
}

/// Roll back a transaction whose start failed to send, on the connector `scope`
/// targets (the first on its EVSE); nothing changes when there is none.
pub fn rollback_tx<L>(cs: &mut Vec<ConnectorTx<L>>, scope: Scope, started_tx: Option<&str>)
    ensures
        match connector_for_state_spec(old(cs)@, scope) {
            None => final(cs)@ == old(cs)@,
            Some(k) => changed_only_at(old(cs)@, final(cs)@, k) && rolled_back(
                old(cs)@[k],
                final(cs)@[k],
                started_tx,
            ),
        },
{
    if let Some(k) = connector_index_for_state(cs.as_slice(), scope) {
        let mut c = cs.remove(k);
        rollback_connector(&mut c, started_tx);
        cs.insert(k, c);
    }
}

/// Mark a transaction whose start the CSMS answered as confirmed, on the connector
/// `scope` targets (the first on its EVSE); nothing changes when there is none.
pub fn confirm_tx<L>(cs: &mut Vec<ConnectorTx<L>>, scope: Scope, started_tx: Option<&str>)
    ensures
        match connector_for_state_spec(old(cs)@, scope) {
            None => final(cs)@ == old(cs)@,
            Some(k) => changed_only_at(old(cs)@, final(cs)@, k) && confirmed(
                old(cs)@[k],
                final(cs)@[k],
                started_tx,
            ),
        },
{
    if let Some(k) = connector_index_for_state(cs.as_slice(), scope) {
        let mut c = cs.remove(k);
        confirm_connector(&mut c, started_tx);
        cs.insert(k, c);
    }
}

/// The `TransactionEvent(Started)` request for transaction `tx` with sequence number
/// `seq`, stamped `now`, of connector `c`.
pub open spec fn started_event<L>(tx: Seq<char>, seq: u64, now: Seq<char>, c: ConnectorTx<L>) -> JsonView {
    JsonView::Object(
        seq![
            ("eventType"@, JsonView::Str("Started"@)),
            ("timestamp"@, JsonView::Str(now)),
            ("triggerReason"@, JsonView::Str("Authorized"@)),
            ("seqNo"@, JsonView::Int(seq as int)),
            ("transactionInfo"@, JsonView::Object(seq![("transactionId"@, JsonView::Str(tx))])),
            (
                "idToken"@,
                JsonView::Object(
                    seq![("idToken"@, JsonView::Str(c.rfid@)), ("type"@, JsonView::Str("Central"@))],
                ),
            ),
            (
                "evse"@,
                JsonView::Object(
                    seq![
                        ("id"@, JsonView::Int(c.evse_id as int)),
                        ("connectorId"@, JsonView::Int(c.connector_id as int)),
                    ],
                ),
            ),
        ],
    )
}

/// Open transaction `tx` (an id the caller minted) on the connector `scope` resolves to:
/// it becomes `Occupied` with `tx` in progress, and the `TransactionEvent(Started)` request
/// (sequence number `seq`, stamped `now`) is returned. With no connector, nothing changes
/// and the request is the empty object.
pub fn start_event<L>(cs: &mut Vec<ConnectorTx<L>>, scope: Scope, tx: String, seq: u64, now: &str) -> (r: Json)
    ensures
        match connector_index_spec(old(cs)@, scope) {
            None => r@ == JsonView::Object(Seq::empty()) && final(cs)@ == old(cs)@,
            Some(k) => {
                &&& opened_at(old(cs)@, final(cs)@, k, tx@)
                &&& final(cs)@[k].status@ == "Occupied"@
                &&& final(cs)@[k].tx_confirmed == old(cs)@[k].tx_confirmed
                &&& final(cs)@[k].limit == old(cs)@[k].limit
                &&& r@ == started_event(tx@, seq, now@, old(cs)@[k])
            },
        },
{
    let k = match connector_index(cs.as_slice(), scope) {
        Some(k) => k,
        None => {
            let r = Json::Object(Vec::new());
            assert(member_views(Seq::<(String, Json)>::empty()) =~= Seq::empty());
            return r;
        },
    };
    let mut c = cs.remove(k);
    let mut info: Vec<(String, Json)> = Vec::new();
    push_member(&mut info, "transactionId", Json::Str(tx.clone()));
    let mut token: Vec<(String, Json)> = Vec::new();
    push_member(&mut token, "idToken", Json::Str(c.rfid.clone()));
    push_member(&mut token, "type", Json::Str(String::from_str("Central")));
    let mut evse: Vec<(String, Json)> = Vec::new();
    push_member(&mut evse, "id", Json::Int(c.evse_id as i128));
    push_member(&mut evse, "connectorId", Json::Int(c.connector_id as i128));
    let mut ms: Vec<(String, Json)> = Vec::new();
    push_member(&mut ms, "eventType", Json::Str(String::from_str("Started")));
    push_member(&mut ms, "timestamp", Json::Str(String::from_str(now)));
    push_member(&mut ms, "triggerReason", Json::Str(String::from_str("Authorized")));
    push_member(&mut ms, "seqNo", Json::Int(seq as i128));
    push_member(&mut ms, "transactionInfo", Json::Object(info));
    push_member(&mut ms, "idToken", Json::Object(token));
    push_member(&mut ms, "evse", Json::Object(evse));
    proof {
        let c0 = old(cs)@[k as int];
        assert(c == c0);
        assert(member_views(Seq::<(String, Json)>::empty()) =~= Seq::empty());
        assert(member_views(info@) =~= seq![("transactionId"@, JsonView::Str(tx@))]);
        assert(member_views(token@) =~= seq![
            ("idToken"@, JsonView::Str(c0.rfid@)),
            ("type"@, JsonView::Str("Central"@)),
        ]);
        assert(member_views(evse@) =~= seq![
            ("id"@, JsonView::Int(c0.evse_id as int)),
            ("connectorId"@, JsonView::Int(c0.connector_id as int)),
        ]);
        assert(member_views(ms@) =~= seq![
            ("eventType"@, JsonView::Str("Started"@)),
            ("timestamp"@, JsonView::Str(now@)),
            ("triggerReason"@, JsonView::Str("Authorized"@)),
            ("seqNo"@, JsonView::Int(seq as int)),
            ("transactionInfo"@, JsonView::Object(member_views(info@))),
            ("idToken"@, JsonView::Object(member_views(token@))),
            ("evse"@, JsonView::Object(member_views(evse@))),
        ]);
    }
    c.transaction_id = Some(tx);
    c.status = String::from_str("Occupied");
    cs.insert(k, c);
    Json::Object(ms)
}

proof fn lemma_first_on_evse_stable<L>(a: Seq<ConnectorTx<L>>, b: Seq<ConnectorTx<L>>, e: i64)
    requires
        a.len() == b.len(),
        forall|j: int| 0 <= j < a.len() ==> a[j].evse_id == b[j].evse_id,
    ensures
        first_on_evse(a, e) == first_on_evse(b, e),
    decreases a.len(),
{
    if a.len() > 0 {
        lemma_first_on_evse_stable(a.drop_last(), b.drop_last(), e);
    }
}

/// The transaction operations (start, stop, rollback, confirm) change one connector and
/// keep its EVSE: every scope resolves to the same connector before and after.
pub proof fn lemma_resolution_unchanged<L>(before: Seq<ConnectorTx<L>>, after: Seq<ConnectorTx<L>>, k: int)
    requires
        changed_only_at(before, after, k),
        0 <= k < before.len() ==> after[k].evse_id == before[k].evse_id,
    ensures
        forall|scope: Scope|
            #[trigger] connector_index_spec(after, scope) == connector_index_spec(before, scope)
                && connector_for_state_spec(after, scope) == connector_for_state_spec(before, scope),
{
    assert forall|scope: Scope|
        #[trigger] connector_index_spec(after, scope) == connector_index_spec(before, scope)
            && connector_for_state_spec(after, scope) == connector_for_state_spec(before, scope) by {
        if let Some(e) = scope.evse {
            assert forall|j: int| 0 <= j < before.len() implies before[j].evse_id == after[j].evse_id by {
                if j != k {
                    assert(after[j] == before[j]);
                }
            }
            lemma_first_on_evse_stable(before, after, e);
        }
    }
}

/// What `start_event` states of the connectors `s1` it leaves behind from `s0`, having
/// opened `tx` on connector `k`.
pub open spec fn opened_at<L>(s0: Seq<ConnectorTx<L>>, s1: Seq<ConnectorTx<L>>, k: int, tx: Seq<char>) -> bool {
    &&& changed_only_at(s0, s1, k)
    &&& text_of(s1[k].transaction_id) == Some(tx)
    &&& same_connector(s1[k], s0[k])
}

/// A transaction that `start_event` opened for `scope` is the one the next `stop_event`
/// for `scope` ends: its `TransactionEvent(Ended)` names the minted id and the tag of the
/// connector, and the connector is left without a transaction.
pub proof fn lemma_start_then_stop<L>(
    s0: Seq<ConnectorTx<L>>,
    s1: Seq<ConnectorTx<L>>,
    s2: Seq<ConnectorTx<L>>,
    scope: Scope,
    tx: Seq<char>,
    r: Option<Json>,
    seq: u64,
    now: Seq<char>,
)
    requires
        connector_index_spec(s0, scope) matches Some(k) && opened_at(s0, s1, k, tx),
        match connector_index_spec(s1, scope) {
            None => r is None && s2 == s1,
            Some(k) => changed_only_at(s1, s2, k) && ended(s1[k], s2[k], r, seq, now),
        },
    ensures
        connector_index_spec(s0, scope) matches Some(k) && {
            &&& r matches Some(ev) && ev@ == ended_event(tx, seq, now, s0[k].rfid@)
            &&& s2[k].transaction_id is None
            &&& changed_only_at(s0, s2, k)
        },
{
    let k = connector_index_spec(s0, scope)->0;
    assert(0 <= k < s0.len()) by {
        lemma_index_in_range(s0, scope);
    }
    lemma_resolution_unchanged(s0, s1, k);
    assert(connector_index_spec(s1, scope) == Some(k));
    assert(s1[k].transaction_id matches Some(t) && t@ == tx);
}

proof fn lemma_first_on_evse_in_range<L>(cs: Seq<ConnectorTx<L>>, e: i64)
    ensures
        first_on_evse(cs, e) matches Some(k) ==> 0 <= k < cs.len(),
    decreases cs.len(),
{
    if cs.len() > 0 {
        lemma_first_on_evse_in_range(cs.drop_last(), e);
    }
}

proof fn lemma_index_in_range<L>(cs: Seq<ConnectorTx<L>>, scope: Scope)
    ensures
        connector_index_spec(cs, scope) matches Some(k) ==> 0 <= k < cs.len(),
{
    if let Some(e) = scope.evse {
        lemma_first_on_evse_in_range(cs, e);
    }
}

/// A scope resolves to the first connector on its EVSE: that connector is on the EVSE and
/// none before it is; with no connector on the EVSE, or no EVSE in the scope, an action
/// falls back to the first connector, and nothing resolves on a station without connectors.
pub proof fn lemma_connector_resolution<L>(cs: Seq<ConnectorTx<L>>, scope: Scope)
    ensures
        connector_for_state_spec(cs, scope) matches Some(k) ==> scope.evse == Some(cs[k].evse_id) && 0 <= k
            < cs.len() && forall|j: int| 0 <= j < k ==> Some((#[trigger] cs[j]).evse_id) != scope.evse,
        connector_for_state_spec(cs, scope) is None ==> forall|j: int|
            0 <= j < cs.len() ==> Some((#[trigger] cs[j]).evse_id) != scope.evse,
        connector_for_state_spec(cs, scope) is None ==> connector_index_spec(cs, scope) == if cs.len() > 0 {
            Some(0int)
        } else {
            None
        },
        connector_for_state_spec(cs, scope) is Some ==> connector_index_spec(cs, scope)
            == connector_for_state_spec(cs, scope),
{
    if let Some(e) = scope.evse {
        lemma_first_on_evse_first(cs, e);
    }
}

proof fn lemma_first_on_evse_first<L>(cs: Seq<ConnectorTx<L>>, e: i64)
    ensures
        first_on_evse(cs, e) matches Some(k) ==> 0 <= k < cs.len() && cs[k].evse_id == e && forall|j: int|
            0 <= j < k ==> (#[trigger] cs[j]).evse_id != e,
        first_on_evse(cs, e) is None ==> forall|j: int| 0 <= j < cs.len() ==> (#[trigger] cs[j]).evse_id != e,
    decreases cs.len(),
{
    if cs.len() > 0 {
        let d = cs.drop_last();
        lemma_first_on_evse_first(d, e);
        assert forall|j: int| 0 <= j < d.len() implies d[j] == cs[j] by {}
    }
}

} // verus!
