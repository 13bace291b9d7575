//! The OCPP message payloads the simulator reads and builds, over [`Json`].

use vstd::prelude::*;

use crate::json::{
    as_i64, as_str, as_u64, get_member, i64_of, is_object, lemma_first_index,
    lemma_member_views, lemma_member_views_push, lemma_set_member_lookup, lookup, lemma_item_views_push, lemma_item_views, member, member_index,
    member_views, item_views, set_member, str_of, u64_of, Json, JsonView,
};
use crate::ocpp::rfid::{cs_authorized_spec, scope_authorized_spec, RfidStore, RfidView};
use crate::ocpp::scope::Scope;
use crate::ocpp::server::{
    config_key_parts, cs_status, evse_status, key_parts, lemma_key_parts, lemma_status_text,
    status_text,
};
use crate::text::str_eq;

verus! {

/// The text of a string member, or the empty text.
pub open spec fn text_or_empty(v: Option<Seq<char>>) -> Seq<char> {
    match v {
        Some(s) => s,
        None => Seq::empty(),
    }
}

/// The heartbeat cadence a BootNotification response dictates: its `interval`, when that
/// is a positive integer; `None` otherwise, so the caller falls back to the default.
pub open spec fn boot_interval_spec(response: JsonView) -> Option<int> {
    match u64_of(member(response, "interval"@)) {
        Some(i) => if i > 0 {
            Some(i)
        } else {
            None
        },
        None => None,
    }
}

/// Extract the heartbeat cadence from a BootNotification response.
pub fn boot_interval(response: &Json) -> (r: Option<u64>)
    ensures
        r is Some == boot_interval_spec(response@) is Some,
        r matches Some(i) ==> i == boot_interval_spec(response@)->0,
{
    match as_u64(get_member(Some(response), "interval")) {
        Some(i) => if i > 0 {
            Some(i)
        } else {
            None
        },
        None => None,
    }
}

/// The transaction a TransactionEvent(Ended) closes: its `transactionInfo.transactionId`.
pub open spec fn stop_tx_id_spec(name: Seq<char>, request: JsonView) -> Option<Seq<char>> {
    if name == "TransactionEvent"@ && str_of(member(request, "eventType"@)) == Some("Ended"@) {
        str_of(member(member(request, "transactionInfo"@), "transactionId"@))
    } else {
        None
    }
}

/// The transaction id an inbound TransactionEvent(Ended) closes, so that an event without
/// an EVSE can be routed to the connector holding that transaction.
pub fn stop_tx_id(name: &str, request: &Json) -> (r: Option<String>)
    ensures
        r is Some == stop_tx_id_spec(name@, request@) is Some,
        r matches Some(t) ==> t@ == stop_tx_id_spec(name@, request@)->0,
{
    if !str_eq(name, "TransactionEvent") {
        return None;
    }
    match as_str(get_member(Some(request), "eventType")) {
        Some(e) => {
            if !str_eq(e, "Ended") {
                return None;
            }
        },
        None => {
            return None;
        },
    }
    match as_str(get_member(get_member(Some(request), "transactionInfo"), "transactionId")) {
        Some(t) => Some(String::from_str(t)),
        None => None,
    }
}

/// `payload` addressed to the EVSE of `scope`: when the scope names an EVSE and the payload
/// is an object whose `evseId` is absent, not an integer, or the `0` placeholder, the
/// member is set to that EVSE; a real id (and anything else) is left alone.
pub open spec fn inject_scope_spec(payload: JsonView, scope: Scope) -> JsonView {
    match (scope.evse, payload) {
        (Some(e), JsonView::Object(ms)) => {
            let cur = i64_of(member(payload, "evseId"@));
            if cur is None || cur == Some(0int) {
                JsonView::Object(set_member(ms, "evseId"@, JsonView::Int(e as int)))
            } else {
                payload
            }
        },
        _ => payload,
    }
}

/// Address an outbound request to the EVSE of `scope`, unless it already names one.
pub fn inject_scope(payload: &mut Json, scope: Scope)
    ensures
        final(payload)@ == inject_scope_spec(old(payload)@, scope),
{
    let e = match scope.evse {
        Some(e) => e,
        None => {
            return;
        },
    };
    let cur = as_i64(get_member(Some(&*payload), "evseId"));
    let replace = match cur {
        None => true,
        Some(c) => c == 0,
    };
    if !replace {
        return;
    }
    let mut taken = Json::Null;
    std::mem::swap(&mut taken, payload);
    match taken {
        Json::Object(mut ms) => {
            let ghost before = ms@;
            proof {
                lemma_member_views(before, 0);
            }
            let value = (String::from_str("evseId"), Json::Int(e as i128));
            match member_index(&ms, "evseId") {
                Some(k) => {
                    proof {
                        lemma_first_index(member_views(before), "evseId"@);
                        lemma_member_views(before, k as int);
                    }
                    ms.set(k, value);
                    proof {
                        assert forall|j: int| 0 <= j < ms@.len() implies member_views(ms@)[j]
                            == member_views(before).update(k as int, ("evseId"@, JsonView::Int(e as int)))[j] by {
                            lemma_member_views(ms@, j);
                            lemma_member_views(before, j);
                        }
                        lemma_member_views(ms@, 0);
                        assert(member_views(ms@) =~= member_views(before).update(
                            k as int,
                            ("evseId"@, JsonView::Int(e as int)),
                        ));
                    }
                },
                None => {
                    ms.push(value);
                    proof {
                        lemma_member_views_push(before, value);
                    }
                },
            }
            *payload = Json::Object(ms);
        },
        other => {
            *payload = other;
        },
    }
}

/// The `{"name": n}` object of a component or variable.
pub open spec fn name_object(n: Seq<char>) -> JsonView {
    JsonView::Object(seq![("name"@, JsonView::Str(n))])
}

/// The `component`/`variable` pair an OCPP 2.x configuration key names.
pub open spec fn component_variable(key: Seq<char>) -> Seq<(Seq<char>, JsonView)> {
    seq![("component"@, name_object(key_parts(key).0)), ("variable"@, name_object(key_parts(key).1))]
}

/// The GetVariables request reading configuration key `key` (`Component/Variable`, or a
/// bare key naming both).
pub open spec fn config_request_spec(key: Seq<char>) -> JsonView {
    JsonView::Object(
        seq![("getVariableData"@, JsonView::Array(seq![JsonView::Object(component_variable(key))]))],
    )
}

/// The SetVariables request writing `value` to configuration key `key`.
pub open spec fn set_request_spec(key: Seq<char>, value: Seq<char>) -> JsonView {
    JsonView::Object(
        seq![
            (
                "setVariableData"@,
                JsonView::Array(
                    seq![
                        JsonView::Object(
                            seq![("attributeValue"@, JsonView::Str(value))] + component_variable(key),
                        ),
                    ],
                ),
            ),
        ],
    )
}

/// The object holding the single member (`key`, `value`).
fn single(key: &str, value: Json) -> (r: Json)
    ensures
        r@ == JsonView::Object(seq![(key@, value@)]),
{
    let mut ms: Vec<(String, Json)> = Vec::new();
    let m = (String::from_str(key), value);
    ms.push(m);
    proof {
        lemma_member_views_push(Seq::empty(), m);
        assert(member_views(Seq::<(String, Json)>::empty()) =~= Seq::empty());
        assert(ms@ =~= Seq::<(String, Json)>::empty().push(m));
    }
    Json::Object(ms)
}

/// The array holding the single value `value`.
fn single_item(value: Json) -> (r: Json)
    ensures
        r@ == JsonView::Array(seq![value@]),
{
    let mut items: Vec<Json> = Vec::new();
    items.push(value);
    proof {
        lemma_item_views_push(Seq::empty(), value);
        assert(item_views(Seq::<Json>::empty()) =~= Seq::empty());
        assert(items@ =~= Seq::<Json>::empty().push(value));
    }
    Json::Array(items)
}

/// Appends the member (`key`, `value`) to `ms`.
fn push_member(ms: &mut Vec<(String, Json)>, key: &str, value: Json)
    ensures
        member_views(final(ms)@) == member_views(old(ms)@).push((key@, value@)),
{
    let m = (String::from_str(key), value);
    ms.push(m);
    proof {
        lemma_member_views_push(old(ms)@, m);
    }
}

/// Appends the `component` and `variable` members `key` names to `ms`.
fn push_component_variable(ms: &mut Vec<(String, Json)>, key: &str)
    ensures
        member_views(final(ms)@) == member_views(old(ms)@) + component_variable(key@),
{
    let (component, variable) = config_key_parts(key);
    push_member(ms, "component", single("name", Json::Str(String::from_str(component))));
    push_member(ms, "variable", single("name", Json::Str(String::from_str(variable))));
    assert(member_views(ms@) =~= member_views(old(ms)@) + component_variable(key@));
}

/// The GetVariables request reading configuration key `key`.
pub fn config_request(key: &str) -> (r: Json)
    ensures
        r@ == config_request_spec(key@),
{
    let mut cv: Vec<(String, Json)> = Vec::new();
    push_component_variable(&mut cv, key);
    proof {
        assert(member_views(Seq::<(String, Json)>::empty()) =~= Seq::empty());
        assert(member_views(cv@) =~= component_variable(key@));
    }
    single("getVariableData", single_item(Json::Object(cv)))
}

/// The SetVariables request writing `value` to configuration key `key`.
pub fn set_request(key: &str, value: &str) -> (r: Json)
    ensures
        r@ == set_request_spec(key@, value@),
{
    let mut ms: Vec<(String, Json)> = Vec::new();
    push_member(&mut ms, "attributeValue", Json::Str(String::from_str(value)));
    push_component_variable(&mut ms, key);
    proof {
        assert(member_views(Seq::<(String, Json)>::empty()) =~= Seq::empty());
        assert(member_views(ms@) =~= seq![("attributeValue"@, JsonView::Str(value@))]
            + component_variable(key@));
    }
    single("setVariableData", single_item(Json::Object(ms)))
}


/// The table row of one GetVariables result: `Component/Variable`, the value when the
/// attribute status is `Accepted` (`<status>` otherwise, `Unknown` when absent), and a
/// writable flag (OCPP 2.x mutability is per attribute, so rows are shown writable).
pub open spec fn config_row(r: JsonView) -> (Seq<char>, Seq<char>, bool) {
    let component = text_or_empty(str_of(member(member(r, "component"@), "name"@)));
    let variable = text_or_empty(str_of(member(member(r, "variable"@), "name"@)));
    let status = match str_of(member(r, "attributeStatus"@)) {
        Some(s) => s,
        None => "Unknown"@,
    };
    let value = if status == "Accepted"@ {
        text_or_empty(str_of(member(r, "attributeValue"@)))
    } else {
        "<"@ + status + ">"@
    };
    (component + "/"@ + variable, value, false)
}

/// The configuration rows of a GetVariables response: one per entry of its
/// `getVariableResult` array, none when that is not an array.
pub open spec fn parse_config_spec(response: JsonView) -> Seq<(Seq<char>, Seq<char>, bool)> {
    match member(response, "getVariableResult"@) {
        JsonView::Array(items) => items.map_values(|r: JsonView| config_row(r)),
        _ => Seq::empty(),
    }
}

/// The abstract value of configuration rows.
pub open spec fn rows_view(v: Seq<(String, String, bool)>) -> Seq<(Seq<char>, Seq<char>, bool)> {
    v.map_values(|r: (String, String, bool)| (r.0@, r.1@, r.2))
}

/// The string, or the empty string.
fn owned_or_empty(s: Option<&str>) -> (r: String)
    ensures
        r@ == text_or_empty(
            match s {
                Some(t) => Some(t@),
                None => None,
            },
        ),
{
    match s {
        Some(t) => String::from_str(t),
        None => String::new(),
    }
}

/// The table row of one GetVariables result.
fn config_row_of(r: &Json) -> (row: (String, String, bool))
    ensures
        (row.0@, row.1@, row.2) == config_row(r@),
{
    let component = owned_or_empty(as_str(get_member(get_member(Some(r), "component"), "name")));
    let variable = owned_or_empty(as_str(get_member(get_member(Some(r), "variable"), "name")));
    let status = match as_str(get_member(Some(r), "attributeStatus")) {
        Some(s) => s,
        None => "Unknown",
    };
    let value = if str_eq(status, "Accepted") {
        owned_or_empty(as_str(get_member(Some(r), "attributeValue")))
    } else {
        let mut v = String::from_str("<");
        v.append(status);
        v.append(">");
        v
    };
    let mut key = component;
    key.append("/");
    key.append(variable.as_str());
    (key, value, false)
}

/// The configuration rows of a GetVariables response.
pub fn parse_config(response: &Json) -> (rows: Vec<(String, String, bool)>)
    ensures
        rows_view(rows@) == parse_config_spec(response@),
{
    let mut rows: Vec<(String, String, bool)> = Vec::new();
    let results = match get_member(Some(response), "getVariableResult") {
        Some(Json::Array(items)) => items,
        _ => {
            proof {
                assert(rows_view(rows@) =~= Seq::empty());
            }
            return rows;
        },
    };
    let ghost iv = item_views(results@);
    proof {
        lemma_item_views(results@);
    }
    assert(member(response@, "getVariableResult"@) == JsonView::Array(iv));
    let mut i: usize = 0;
    while i < results.len()
        invariant
            i <= results@.len(),
            iv == item_views(results@),
            iv.len() == results@.len(),
            rows_view(rows@) == iv.take(i as int).map_values(|r: JsonView| config_row(r)),
        decreases results@.len() - i,
    {
        proof {
            lemma_item_views(results@);
        }
        let row = config_row_of(&results[i]);
        let ghost before = rows@;
        rows.push(row);
        proof {
            assert(rows_view(rows@) =~= rows_view(before).push((row.0@, row.1@, row.2)));
            assert(iv.take(i + 1).map_values(|r: JsonView| config_row(r)) =~= iv.take(
                i as int,
            ).map_values(|r: JsonView| config_row(r)).push(config_row(iv[i as int])));
        }
        i = i + 1;
    }
    proof {
        if results@.len() == 0 {
            assert(iv.len() == 0);
        }
        assert(iv.take(iv.len() as int) =~= iv);
    }
    rows
}

/// The `idTokenInfo` reply carrying accept-list status `status`.
pub open spec fn id_token_info(status: Seq<char>) -> JsonView {
    JsonView::Object(
        seq![("idTokenInfo"@, JsonView::Object(seq![("status"@, JsonView::Str(status))]))],
    )
}

/// The tag an inbound request presents: its `idToken.idToken` text, empty when absent.
pub open spec fn presented_tag(request: JsonView) -> Seq<char> {
    text_or_empty(str_of(member(member(request, "idToken"@), "idToken"@)))
}

/// The EVSE a transaction event names: its `evse.id`, `0` when absent.
pub open spec fn event_evse(request: JsonView) -> int {
    match i64_of(member(member(request, "evse"@), "id"@)) {
        Some(e) => e,
        None => 0,
    }
}

/// The reply a CSMS crafts for inbound call `name` at time `now`, or `None` when a
/// default accepted reply suffices: BootNotification accepts with the current time and a
/// 300 s interval, Heartbeat gives the current time, Authorize checks the tag CS-wide, and a
/// TransactionEvent presenting a tag checks it on its EVSE.
pub open spec fn craft_response_spec(
    name: Seq<char>,
    request: JsonView,
    rfids: RfidView,
    now: Seq<char>,
) -> Option<JsonView> {
    if name == "BootNotification"@ {
        Some(
            JsonView::Object(
                seq![
                    ("currentTime"@, JsonView::Str(now)),
                    ("interval"@, JsonView::Int(300)),
                    ("status"@, JsonView::Str("Accepted"@)),
                ],
            ),
        )
    } else if name == "Heartbeat"@ {
        Some(JsonView::Object(seq![("currentTime"@, JsonView::Str(now))]))
    } else if name == "Authorize"@ {
        Some(id_token_info(status_text(cs_authorized_spec(rfids, presented_tag(request)))))
    } else if name == "TransactionEvent"@ && member(request, "idToken"@) is Object {
        Some(
            id_token_info(
                status_text(
                    scope_authorized_spec(
                        rfids,
                        Scope { evse: Some(event_evse(request) as i64), connector: None },
                        presented_tag(request),
                    ),
                ),
            ),
        )
    } else {
        None
    }
}

/// The `idTokenInfo` reply carrying `status`.
fn id_token_reply(status: &str) -> (r: Json)
    ensures
        r@ == id_token_info(status@),
{
    single("idTokenInfo", single("status", Json::Str(String::from_str(status))))
}

/// The reply a CSMS crafts for inbound call `name`, stamped with the current time `now`
/// (RFC3339), or `None` when the version's default reply suffices.
pub fn craft_response(name: &str, request: &Json, rfids: &RfidStore, now: &str) -> (r: Option<Json>)
    requires
        rfids.wf(),
    ensures
        r is Some == craft_response_spec(name@, request@, rfids@, now@) is Some,
        r matches Some(v) ==> v@ == craft_response_spec(name@, request@, rfids@, now@)->0,
{
    if str_eq(name, "BootNotification") {
        let mut ms: Vec<(String, Json)> = Vec::new();
        push_member(&mut ms, "currentTime", Json::Str(String::from_str(now)));
        push_member(&mut ms, "interval", Json::Int(300));
        push_member(&mut ms, "status", Json::Str(String::from_str("Accepted")));
        proof {
            assert(member_views(Seq::<(String, Json)>::empty()) =~= Seq::empty());
            assert(member_views(ms@) =~= seq![
                ("currentTime"@, JsonView::Str(now@)),
                ("interval"@, JsonView::Int(300)),
                ("status"@, JsonView::Str("Accepted"@)),
            ]);
        }
        Some(Json::Object(ms))
    } else if str_eq(name, "Heartbeat") {
        Some(single("currentTime", Json::Str(String::from_str(now))))
    } else if str_eq(name, "Authorize") {
        let tag = owned_or_empty(as_str(get_member(get_member(Some(request), "idToken"), "idToken")));
        Some(id_token_reply(cs_status(rfids, tag.as_str())))
    } else if str_eq(name, "TransactionEvent") && is_object(get_member(Some(request), "idToken")) {
        let tag = owned_or_empty(as_str(get_member(get_member(Some(request), "idToken"), "idToken")));
        let evse = match as_i64(get_member(get_member(Some(request), "evse"), "id")) {
            Some(e) => e,
            None => 0,
        };
        Some(id_token_reply(evse_status(rfids, evse, tag.as_str())))
    } else {
        None
    }
}
/// The status an `idTokenInfo` reply carries.
pub open spec fn reply_status(r: JsonView) -> Option<Seq<char>> {
    str_of(member(member(r, "idTokenInfo"@), "status"@))
}

/// What the CSMS answers, by action: BootNotification is accepted with the current time
/// and a 300 s heartbeat interval; Heartbeat gives the current time; Authorize answers
/// `Accepted` exactly when the presented tag passes the charge-point-wide check, else
/// `Invalid`; a TransactionEvent presenting a tag answers the same for the tag on its EVSE;
/// any other call (or a TransactionEvent without a tag) gets the default reply.
pub proof fn lemma_craft_response(name: Seq<char>, request: JsonView, rfids: RfidView, now: Seq<char>)
    ensures
        name == "BootNotification"@ ==> (craft_response_spec(name, request, rfids, now) matches Some(r)
            && member(r, "status"@) == JsonView::Str("Accepted"@) && member(r, "interval"@)
            == JsonView::Int(300) && member(r, "currentTime"@) == JsonView::Str(now)),
        name == "Heartbeat"@ ==> (craft_response_spec(name, request, rfids, now) matches Some(r)
            && member(r, "currentTime"@) == JsonView::Str(now)),
        name == "Authorize"@ ==> (craft_response_spec(name, request, rfids, now) matches Some(r)
            && (reply_status(r) == Some("Accepted"@)) == cs_authorized_spec(rfids, presented_tag(request))
            && (reply_status(r) == Some("Invalid"@)) == !cs_authorized_spec(rfids, presented_tag(request))),
        name == "TransactionEvent"@ && member(request, "idToken"@) is Object ==> (craft_response_spec(
            name,
            request,
            rfids,
            now,
        ) matches Some(r) && (reply_status(r) == Some("Accepted"@)) == scope_authorized_spec(
            rfids,
            Scope { evse: Some(event_evse(request) as i64), connector: None },
            presented_tag(request),
        )),
        name == "TransactionEvent"@ && !(member(request, "idToken"@) is Object) ==> craft_response_spec(
            name,
            request,
            rfids,
            now,
        ) is None,
        name != "BootNotification"@ && name != "Heartbeat"@ && name != "Authorize"@ && name
            != "TransactionEvent"@ ==> craft_response_spec(name, request, rfids, now) is None,
{
    reveal_strlit("BootNotification");
    reveal_strlit("Heartbeat");
    reveal_strlit("Authorize");
    reveal_strlit("TransactionEvent");
    reveal_strlit("currentTime");
    reveal_strlit("interval");
    reveal_strlit("status");
    reveal_strlit("Accepted");
    reveal_strlit("Invalid");
    assert("BootNotification"@.len() == 16 && "BootNotification"@[0] == 'B');
    assert("TransactionEvent"@.len() == 16 && "TransactionEvent"@[0] == 'T');
    assert("Heartbeat"@.len() == 9 && "Heartbeat"@[0] == 'H');
    assert("Authorize"@.len() == 9 && "Authorize"@[0] == 'A');
    assert("currentTime"@.len() == 11 && "interval"@.len() == 8 && "status"@.len() == 6);
    assert("Accepted"@.len() == 8 && "Invalid"@.len() == 7);
    reveal_with_fuel(lookup, 4);
    let boot: Seq<(Seq<char>, JsonView)> = seq![
        ("currentTime"@, JsonView::Str(now)),
        ("interval"@, JsonView::Int(300)),
        ("status"@, JsonView::Str("Accepted"@)),
    ];
    assert(boot.drop_last().drop_last().drop_last() =~= Seq::<(Seq<char>, JsonView)>::empty());
    assert(lookup(boot.drop_last().drop_last(), "currentTime"@) == Some(JsonView::Str(now)));
    assert(lookup(boot.drop_last(), "interval"@) == Some(JsonView::Int(300)));
    assert(lookup(boot.drop_last(), "currentTime"@) == Some(JsonView::Str(now)));
    assert(lookup(boot, "status"@) == Some(JsonView::Str("Accepted"@)));
    assert(lookup(boot, "interval"@) == Some(JsonView::Int(300)));
    assert(lookup(boot, "currentTime"@) == Some(JsonView::Str(now)));
    let hb: Seq<(Seq<char>, JsonView)> = seq![("currentTime"@, JsonView::Str(now))];
    assert(hb.drop_last() =~= Seq::<(Seq<char>, JsonView)>::empty());
    assert(lookup(hb, "currentTime"@) == Some(JsonView::Str(now)));
    lemma_status_text(cs_authorized_spec(rfids, presented_tag(request)));
    lemma_status_text(
        scope_authorized_spec(
            rfids,
            Scope { evse: Some(event_evse(request) as i64), connector: None },
            presented_tag(request),
        ),
    );
    lemma_id_token_info_status(status_text(cs_authorized_spec(rfids, presented_tag(request))));
    lemma_id_token_info_status(
        status_text(
            scope_authorized_spec(
                rfids,
                Scope { evse: Some(event_evse(request) as i64), connector: None },
                presented_tag(request),
            ),
        ),
    );
}

proof fn lemma_id_token_info_status(status: Seq<char>)
    ensures
        reply_status(id_token_info(status)) == Some(status),
{
    reveal_with_fuel(lookup, 2);
    let inner: Seq<(Seq<char>, JsonView)> = seq![("status"@, JsonView::Str(status))];
    let outer: Seq<(Seq<char>, JsonView)> = seq![("idTokenInfo"@, JsonView::Object(inner))];
    assert(inner.drop_last() =~= Seq::<(Seq<char>, JsonView)>::empty());
    assert(outer.drop_last() =~= Seq::<(Seq<char>, JsonView)>::empty());
    assert(lookup(outer, "idTokenInfo"@) == Some(JsonView::Object(inner)));
    assert(lookup(inner, "status"@) == Some(JsonView::Str(status)));
}

/// The heartbeat cadence a BootNotification response dictates is its `interval` exactly
/// when that is a positive integer (within `u64`); a zero, negative or non-integer interval,
/// or none at all, leaves the default in force.
pub proof fn lemma_boot_interval(response: JsonView)
    ensures
        (member(response, "interval"@) matches JsonView::Int(i) && 0 < i <= u64::MAX) ==> boot_interval_spec(
            response,
        ) == Some(member(response, "interval"@)->Int_0),
        !(member(response, "interval"@) matches JsonView::Int(i) && 0 < i) ==> boot_interval_spec(
            response,
        ) is None,
{
}

/// The transaction an inbound stop closes: for a `TransactionEvent` whose `eventType` is
/// `Ended`, the string `transactionInfo.transactionId`; nothing for any other action or
/// event type.
pub proof fn lemma_stop_tx_id(name: Seq<char>, request: JsonView)
    ensures
        name != "TransactionEvent"@ ==> stop_tx_id_spec(name, request) is None,
        member(request, "eventType"@) != JsonView::Str("Ended"@) ==> stop_tx_id_spec(name, request) is None,
        name == "TransactionEvent"@ && member(request, "eventType"@) == JsonView::Str("Ended"@)
            ==> stop_tx_id_spec(name, request) == str_of(
            member(member(request, "transactionInfo"@), "transactionId"@),
        ),
{
}

/// Addressing a request to a scope's EVSE: when the scope names EVSE `e` and the request
/// is an object without a real `evseId` (absent, not an integer, or `0`), its `evseId`
/// becomes `e` and every other member keeps its value; a request that already names a
/// real EVSE, a request that is no object, and a scope without an EVSE leave it as it is.
pub proof fn lemma_inject_scope(payload: JsonView, scope: Scope, other: Seq<char>)
    ensures
        scope.evse is None ==> inject_scope_spec(payload, scope) == payload,
        !(payload is Object) ==> inject_scope_spec(payload, scope) == payload,
        (i64_of(member(payload, "evseId"@)) matches Some(cur) && cur != 0) ==> inject_scope_spec(
            payload,
            scope,
        ) == payload,
        scope.evse is Some && payload is Object && (i64_of(member(payload, "evseId"@)) is None
            || i64_of(member(payload, "evseId"@)) == Some(0int)) ==> {
            &&& member(inject_scope_spec(payload, scope), "evseId"@) == JsonView::Int(scope.evse->0 as int)
            &&& other != "evseId"@ ==> member(inject_scope_spec(payload, scope), other) == member(
                payload,
                other,
            )
        },
{
    if let (Some(e), JsonView::Object(ms)) = (scope.evse, payload) {
        lemma_set_member_lookup(ms, "evseId"@, JsonView::Int(e as int), other);
    }
}

/// The configuration table a GetVariables response fills: one row per entry of its
/// `getVariableResult` array (none without one), in order; each row is keyed
/// `Component/Variable`, shows the value of an `Accepted` attribute and `<status>` for any
/// other status (`<Unknown>` when there is none), and is never read-only.
pub proof fn lemma_parse_config(response: JsonView, i: int)
    ensures
        !(member(response, "getVariableResult"@) is Array) ==> parse_config_spec(response).len() == 0,
        member(response, "getVariableResult"@) matches JsonView::Array(items) ==> {
            &&& parse_config_spec(response).len() == items.len()
            &&& 0 <= i < items.len() ==> {
                let r = items[i];
                let row = parse_config_spec(response)[i];
                &&& row.0 == text_or_empty(str_of(member(member(r, "component"@), "name"@))) + "/"@
                    + text_or_empty(str_of(member(member(r, "variable"@), "name"@)))
                &&& !row.2
                &&& member(r, "attributeStatus"@) == JsonView::Str("Accepted"@) ==> row.1
                    == text_or_empty(str_of(member(r, "attributeValue"@)))
                &&& (member(r, "attributeStatus"@) is Str && member(r, "attributeStatus"@)
                    != JsonView::Str("Accepted"@)) ==> row.1 == "<"@ + member(r, "attributeStatus"@)->Str_0
                    + ">"@
                &&& !(member(r, "attributeStatus"@) is Str) ==> row.1 == "<"@ + "Unknown"@ + ">"@
            }
        },
{
    reveal_strlit("Accepted");
    reveal_strlit("Unknown");
    assert("Accepted"@.len() == 8 && "Unknown"@.len() == 7);
}

/// A `Component/Variable` key read back: the result that names the component and
/// variable a GetVariables request for `key` asks for shows up in the configuration table
/// under `key` itself.
pub proof fn lemma_config_key_roundtrip(key: Seq<char>, r: JsonView)
    requires
        key.contains('/'),
        member(r, "component"@) == name_object(key_parts(key).0),
        member(r, "variable"@) == name_object(key_parts(key).1),
    ensures
        config_row(r).0 == key,
{
    reveal_with_fuel(lookup, 2);
    reveal_strlit("/");
    lemma_key_parts(key);
    let c: Seq<(Seq<char>, JsonView)> = seq![("name"@, JsonView::Str(key_parts(key).0))];
    let v: Seq<(Seq<char>, JsonView)> = seq![("name"@, JsonView::Str(key_parts(key).1))];
    assert(c.drop_last() =~= Seq::<(Seq<char>, JsonView)>::empty());
    assert(v.drop_last() =~= Seq::<(Seq<char>, JsonView)>::empty());
    assert(member(member(r, "component"@), "name"@) == JsonView::Str(key_parts(key).0));
    assert(member(member(r, "variable"@), "name"@) == JsonView::Str(key_parts(key).1));
    assert("/"@ =~= seq!['/']);
}

} // verus!
