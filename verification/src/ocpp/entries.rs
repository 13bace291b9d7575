//! The CSMS view's table of stations and connectors: how connection events and inbound
//! stops update it, and how fetched configuration rows merge into a station's store.

use vstd::prelude::*;

use crate::ocpp::scope::Scope;
use crate::text::str_eq;

verus! {

/// What the CSMS table keeps of one station or connector entry.
pub struct EntryLink {
    /// The charge-point identity.
    pub identity: String,
    /// Station level, or one connector / EVSE.
    pub scope: Scope,
    /// The live connection while online.
    pub conn: Option<u64>,
    pub online: bool,
    /// The `TransactionId` field observed on the entry's state, as text.
    pub transaction_id: Option<String>,
}

/// `e` with its connection state replaced.
pub open spec fn with_link(e: EntryLink, online: bool, conn: Option<u64>) -> EntryLink {
    EntryLink { online, conn, ..e }
}

/// Whether `e` is a connector-level entry (anything but the station level).
pub open spec fn is_connector_entry(e: EntryLink) -> bool {
    e.scope != Scope::cs_spec()
}

/// A station came online on `conn`: each of its entries, the connected state of another
/// station's left alone.
pub open spec fn connected_spec(before: Seq<EntryLink>, identity: Seq<char>, conn: u64) -> Seq<EntryLink> {
    Seq::new(
        before.len(),
        |i: int|
            if before[i].identity@ == identity {
                with_link(before[i], true, Some(conn))
            } else {
                before[i]
            },
    )
}

/// Connection `conn` dropped: every entry on it goes offline without a connection.
pub open spec fn disconnected_spec(before: Seq<EntryLink>, conn: u64) -> Seq<EntryLink> {
    Seq::new(
        before.len(),
        |i: int|
            if before[i].conn == Some(conn) {
                with_link(before[i], false, None)
            } else {
                before[i]
            },
    )
}

/// Bring every entry of station `identity` online on `conn`.
pub fn mark_connected(entries: &mut Vec<EntryLink>, identity: &str, conn: u64)
    ensures
        final(entries)@ == connected_spec(old(entries)@, identity@, conn),
{
    let ghost start = entries@;
    let mut i: usize = 0;
    while i < entries.len()
        invariant
            entries@.len() == start.len(),
            i <= start.len(),
            forall|j: int| 0 <= j < i ==> entries@[j] == connected_spec(start, identity@, conn)[j],
            forall|j: int| i <= j < start.len() ==> entries@[j] == start[j],
        decreases start.len() - i,
    {
        if str_eq(entries[i].identity.as_str(), identity) {
            let mut e = entries.remove(i);
            e.online = true;
            e.conn = Some(conn);
            entries.insert(i, e);
        }
        i = i + 1;
    }
    assert(entries@ =~= connected_spec(start, identity@, conn));
}

/// Take every entry on connection `conn` offline.
pub fn mark_disconnected(entries: &mut Vec<EntryLink>, conn: u64)
    ensures
        final(entries)@ == disconnected_spec(old(entries)@, conn),
{
    let ghost start = entries@;
    let mut i: usize = 0;
    while i < entries.len()
        invariant
            entries@.len() == start.len(),
            i <= start.len(),
            forall|j: int| 0 <= j < i ==> entries@[j] == disconnected_spec(start, conn)[j],
            forall|j: int| i <= j < start.len() ==> entries@[j] == start[j],
        decreases start.len() - i,
    {
        if entries[i].conn == Some(conn) {
            let mut e = entries.remove(i);
            e.online = false;
            e.conn = None;
            entries.insert(i, e);
        }
        i = i + 1;
    }
    assert(entries@ =~= disconnected_spec(start, conn));
}

/// A station that connects on `conn` and then loses that connection ends with all its
/// entries offline and without a connection; other stations' entries that were not on
/// `conn` are as they were.
pub proof fn lemma_disconnect_after_connect(before: Seq<EntryLink>, identity: Seq<char>, conn: u64)
    ensures
        forall|i: int|
            0 <= i < before.len() ==> {
                let e = #[trigger] disconnected_spec(connected_spec(before, identity, conn), conn)[i];
                &&& before[i].identity@ == identity ==> !e.online && e.conn is None
                &&& before[i].identity@ != identity && before[i].conn != Some(conn) ==> e == before[i]
            },
{
}

/// The position of the first entry that satisfies `p`.
pub open spec fn first_where(s: Seq<EntryLink>, p: spec_fn(EntryLink) -> bool) -> Option<int>
    decreases s.len(),
{
    if s.len() == 0 {
        None
    } else {
        match first_where(s.drop_last(), p) {
            Some(k) => Some(k),
            None => if p(s.last()) {
                Some(s.len() - 1)
            } else {
                None
            },
        }
    }
}

proof fn lemma_first_where_extend(s: Seq<EntryLink>, p: spec_fn(EntryLink) -> bool, k: int)
    requires
        0 <= k <= s.len(),
        first_where(s.take(k), p) is Some,
    ensures
        first_where(s, p) == first_where(s.take(k), p),
    decreases s.len() - k,
{
    if k == s.len() {
        assert(s.take(k) =~= s);
    } else {
        assert(s.take(k + 1).drop_last() =~= s.take(k));
        lemma_first_where_extend(s, p, k + 1);
    }
}

/// Whether `e` is the entry of `identity` at `scope`.
pub open spec fn is_entry_of(identity: Seq<char>, scope: Scope) -> spec_fn(EntryLink) -> bool {
    |e: EntryLink| e.identity@ == identity && e.scope == scope
}

/// The position of the entry of `identity` at `scope`, if the table has one.
pub fn entry_position(entries: &[EntryLink], identity: &str, scope: Scope) -> (r: Option<usize>)
    ensures
        r is Some == first_where(entries@, is_entry_of(identity@, scope)) is Some,
        r matches Some(k) ==> first_where(entries@, is_entry_of(identity@, scope)) == Some(k as int),
{
    let ghost p = is_entry_of(identity@, scope);
    let mut i: usize = 0;
    while i < entries.len()
        invariant
            i <= entries@.len(),
            p == is_entry_of(identity@, scope),
            first_where(entries@.take(i as int), p) is None,
        decreases entries@.len() - i,
    {
        assert(entries@.take(i + 1).drop_last() =~= entries@.take(i as int));
        if str_eq(entries[i].identity.as_str(), identity) && entries[i].scope == scope {
            proof {
                assert(entries@.take(i + 1).last() == entries@[i as int]);
                lemma_first_where_extend(entries@, p, i + 1);
            }
            return Some(i);
        }
        i = i + 1;
    }
    assert(entries@.take(entries@.len() as int) =~= entries@);
    None
}

/// Whether `e` is a connector entry of `identity` whose observed transaction is `tx`.
pub open spec fn holds_tx_of(identity: Seq<char>, tx: Seq<char>) -> spec_fn(EntryLink) -> bool {
    |e: EntryLink|
        e.identity@ == identity && is_connector_entry(e) && (e.transaction_id matches Some(t)
            && t@ == tx)
}

/// The scope of the first connector entry of `identity` whose observed transaction is
/// `tx`.
pub open spec fn scope_for_tx_spec(entries: Seq<EntryLink>, identity: Seq<char>, tx: Seq<char>) -> Option<Scope> {
    match first_where(entries, holds_tx_of(identity, tx)) {
        Some(k) => Some(entries[k].scope),
        None => None,
    }
}

/// The scope of the connector entry of `identity` that holds transaction `tx`.
pub fn connector_scope_for_tx(entries: &[EntryLink], identity: &str, tx: &str) -> (r: Option<Scope>)
    ensures
        r == scope_for_tx_spec(entries@, identity@, tx@),
{
    let ghost p = holds_tx_of(identity@, tx@);
    let mut i: usize = 0;
    while i < entries.len()
        invariant
            i <= entries@.len(),
            p == holds_tx_of(identity@, tx@),
            first_where(entries@.take(i as int), p) is None,
        decreases entries@.len() - i,
    {
        assert(entries@.take(i + 1).drop_last() =~= entries@.take(i as int));
        let e = &entries[i];
        let held = match &e.transaction_id {
            Some(t) => str_eq(t.as_str(), tx),
            None => false,
        };
        if str_eq(e.identity.as_str(), identity) && !e.scope.is_cs() && held {
            proof {
                assert(entries@.take(i + 1).last() == entries@[i as int]);
                lemma_first_where_extend(entries@, p, i + 1);
            }
            return Some(e.scope);
        }
        i = i + 1;
    }
    assert(entries@.take(entries@.len() as int) =~= entries@);
    None
}

/// The scope an inbound Call is recorded under: the scope it names, except that a stop
/// addressed to the station level moves to the connector holding the stopped
/// transaction, when the table has one.
pub open spec fn inbound_target_spec(
    entries: Seq<EntryLink>,
    identity: Seq<char>,
    scope: Scope,
    stop_tx: Option<Seq<char>>,
) -> Scope {
    if scope == Scope::cs_spec() {
        match stop_tx {
            Some(tx) => match scope_for_tx_spec(entries, identity, tx) {
                Some(s) => s,
                None => scope,
            },
            None => scope,
        }
    } else {
        scope
    }
}

/// The scope an inbound Call of station `identity` is recorded under; `stop_tx` is the
/// transaction a stop request ends, if the Call is one.
pub fn inbound_target(entries: &[EntryLink], identity: &str, scope: Scope, stop_tx: Option<&str>) -> (r: Scope)
    ensures
        r == inbound_target_spec(
            entries@,
            identity@,
            scope,
            match stop_tx {
                Some(t) => Some(t@),
                None => None,
            },
        ),
{
    if scope.is_cs() {
        if let Some(tx) = stop_tx {
            if let Some(s) = connector_scope_for_tx(entries, identity, tx) {
                return s;
            }
        }
    }
    scope
}

/// A configuration row: key, value and whether it is read-only.
pub type ConfigRow = (String, String, bool);

/// The text of a configuration row.
pub open spec fn row_view(r: ConfigRow) -> (Seq<char>, Seq<char>, bool) {
    (r.0@, r.1@, r.2)
}

/// The rows of a store, as text.
pub open spec fn rows_view(s: Seq<ConfigRow>) -> Seq<(Seq<char>, Seq<char>, bool)> {
    s.map_values(|r: ConfigRow| row_view(r))
}

/// The position of the first row with key `k`.
pub open spec fn first_key(s: Seq<(Seq<char>, Seq<char>, bool)>, k: Seq<char>) -> Option<int>
    decreases s.len(),
{
    if s.len() == 0 {
        None
    } else {
        match first_key(s.drop_last(), k) {
            Some(i) => Some(i),
            None => if s.last().0 == k {
                Some(s.len() - 1)
            } else {
                None
            },
        }
    }
}

/// The store after one row is merged: the first row with its key takes its value and
/// read-only flag; a new key is appended.
pub open spec fn upsert_spec(s: Seq<(Seq<char>, Seq<char>, bool)>, r: (Seq<char>, Seq<char>, bool)) -> Seq<(Seq<char>, Seq<char>, bool)> {
    match first_key(s, r.0) {
        Some(i) => s.update(i, r),
        None => s.push(r),
    }
}

/// The store after the rows are merged in order.
pub open spec fn merged_spec(s: Seq<(Seq<char>, Seq<char>, bool)>, rows: Seq<(Seq<char>, Seq<char>, bool)>) -> Seq<(Seq<char>, Seq<char>, bool)>
    decreases rows.len(),
{
    if rows.len() == 0 {
        s
    } else {
        upsert_spec(merged_spec(s, rows.drop_last()), rows.last())
    }
}

proof fn lemma_first_key_extend(s: Seq<(Seq<char>, Seq<char>, bool)>, k: Seq<char>, n: int)
    requires
        0 <= n <= s.len(),
        first_key(s.take(n), k) is Some,
    ensures
        first_key(s, k) == first_key(s.take(n), k),
    decreases s.len() - n,
{
    if n == s.len() {
        assert(s.take(n) =~= s);
    } else {
        assert(s.take(n + 1).drop_last() =~= s.take(n));
        lemma_first_key_extend(s, k, n + 1);
    }
}

/// Merge one row into the store.
fn upsert_row(store: &mut Vec<ConfigRow>, row: ConfigRow)
    ensures
        rows_view(final(store)@) == upsert_spec(rows_view(old(store)@), row_view(row)),
{
    let ghost start = rows_view(store@);
    let mut i: usize = 0;
    while i < store.len()
        invariant
            rows_view(store@) == start,
            start == rows_view(old(store)@),
            i <= store@.len(),
            first_key(start.take(i as int), row.0@) is None,
        decreases store@.len() - i,
    {
        assert(start.take(i + 1).drop_last() =~= start.take(i as int));
        if str_eq(store[i].0.as_str(), row.0.as_str()) {
            proof {
                assert(start.take(i + 1).last() == start[i as int]);
                lemma_first_key_extend(start, row.0@, i + 1);
            }
            let ghost before = store@;
            store.remove(i);
            store.insert(i, row);
            proof {
                assert(store@ =~= before.update(i as int, row));
                assert(rows_view(store@) =~= start.update(i as int, row_view(row)));
            }
            return;
        }
        i = i + 1;
    }
    assert(start.take(start.len() as int) =~= start);
    store.push(row);
    assert(rows_view(store@) =~= start.push(row_view(row)));
}

/// Merge fetched configuration rows into a station's store, in order: a known key takes
/// the row's value and read-only flag, an unknown key is appended.
pub fn merge_config_rows(store: &mut Vec<ConfigRow>, rows: Vec<ConfigRow>)
    ensures
        rows_view(final(store)@) == merged_spec(rows_view(old(store)@), rows_view(rows@)),
{
    let ghost start = rows_view(store@);
    let ghost all = rows_view(rows@);
    let mut rest = rows;
    let ghost mut n: int = 0;
    while rest.len() > 0
        invariant
            0 <= n <= all.len(),
            all.len() == n + rest@.len(),
            rows_view(rest@) == all.skip(n),
            rows_view(store@) == merged_spec(start, all.take(n)),
        decreases rest@.len(),
    {
        let ghost rv = rest@;
        let row = rest.remove(0);
        proof {
            assert(row_view(row) == rows_view(rv)[0]);
            assert(all.take(n + 1).drop_last() =~= all.take(n));
            assert(all.take(n + 1).last() == all[n]);
        }
        upsert_row(store, row);
        proof {
            assert(rest@ =~= rv.skip(1));
            assert forall|j: int| 0 <= j < rest@.len() implies rows_view(rest@)[j] == all.skip(n + 1)[j] by {
                assert(rows_view(rest@)[j] == row_view(rv[j + 1]));
                assert(rows_view(rv)[j + 1] == all.skip(n)[j + 1]);
            }
            n = n + 1;
            assert(rows_view(rest@) =~= all.skip(n));
        }
    }
    assert(all.take(all.len() as int) =~= all);
}

/// The search the table lookups use finds the first entry that satisfies the predicate:
/// the entry found satisfies it and none before it does, and nothing is found exactly when
/// no entry satisfies it.
pub proof fn lemma_first_where(s: Seq<EntryLink>, p: spec_fn(EntryLink) -> bool)
    ensures
        first_where(s, p) matches Some(k) ==> 0 <= k < s.len() && p(s[k]) && forall|j: int|
            0 <= j < k ==> !p(#[trigger] s[j]),
        first_where(s, p) is None ==> forall|j: int| 0 <= j < s.len() ==> !p(#[trigger] s[j]),
    decreases s.len(),
{
    if s.len() > 0 {
        let d = s.drop_last();
        lemma_first_where(d, p);
        assert forall|j: int| 0 <= j < d.len() implies d[j] == s[j] by {}
    }
}

/// The position of the first row with key `k` is that of a row with key `k`, after rows
/// with other keys only; there is none exactly when no row has key `k`.
pub proof fn lemma_first_key(s: Seq<(Seq<char>, Seq<char>, bool)>, k: Seq<char>)
    ensures
        first_key(s, k) matches Some(i) ==> 0 <= i < s.len() && s[i].0 == k && forall|j: int|
            0 <= j < i ==> (#[trigger] s[j]).0 != k,
        first_key(s, k) is None ==> forall|j: int| 0 <= j < s.len() ==> (#[trigger] s[j]).0 != k,
    decreases s.len(),
{
    if s.len() > 0 {
        let d = s.drop_last();
        lemma_first_key(d, k);
        assert forall|j: int| 0 <= j < d.len() implies d[j] == s[j] by {}
    }
}

/// Merging one configuration row: a known key keeps its position and takes the row's
/// value and flag, every other row stays as it was; an unknown key is appended.
pub proof fn lemma_upsert(s: Seq<(Seq<char>, Seq<char>, bool)>, r: (Seq<char>, Seq<char>, bool))
    ensures
        (exists|j: int| 0 <= j < s.len() && (#[trigger] s[j]).0 == r.0) ==> {
            &&& upsert_spec(s, r).len() == s.len()
            &&& exists|j: int|
                0 <= j < s.len() && (#[trigger] s[j]).0 == r.0 && upsert_spec(s, r)[j] == r && forall|i: int|
                    0 <= i < s.len() && i != j ==> upsert_spec(s, r)[i] == s[i]
        },
        !(exists|j: int| 0 <= j < s.len() && (#[trigger] s[j]).0 == r.0) ==> upsert_spec(s, r) == s.push(r),
{
    lemma_first_key(s, r.0);
    if let Some(i) = first_key(s, r.0) {
        assert(s[i].0 == r.0);
    }
}

} // verus!
