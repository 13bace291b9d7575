use vstd::prelude::*;

use crate::ocpp::scope::Scope;

verus! {

broadcast use vstd::seq_lib::group_seq_properties;

/// The character views of a list of tags.
pub open spec fn tags(v: Seq<String>) -> Seq<Seq<char>> {
    v.map_values(|s: String| s@)
}

/// CSMS RFID accept-lists, split by level: a charge-point-wide (CS) list plus
/// per-connector/EVSE lists keyed by [`Scope`]. A connector inherits the CS list (its
/// effective set is the connector list unioned with the CS list). An empty effective
/// set accepts every tag (open mode); once any tag is listed in the effective set, only
/// listed tags pass.
#[derive(Debug, Clone, Default)]
pub struct RfidStore {
    /// Charge-point-wide tags, inherited by every connector.
    pub cs: Vec<String>,
    /// Per-connector/EVSE tags, one entry per scope.
    pub by_scope: Vec<(Scope, Vec<String>)>,
}

/// The abstract accept-lists: the CS list and the per-scope lists.
pub struct RfidView {
    pub cs: Seq<Seq<char>>,
    pub lists: Map<Scope, Seq<Seq<char>>>,
}

/// The position of the entry for `scope` in `entries`.
pub open spec fn entry_of(entries: Seq<(Scope, Vec<String>)>, scope: Scope) -> int {
    choose|i: int| 0 <= i < entries.len() && entries[i].0 == scope
}

/// Whether `entries` has an entry for `scope`.
pub open spec fn has_entry(entries: Seq<(Scope, Vec<String>)>, scope: Scope) -> bool {
    exists|i: int| 0 <= i < entries.len() && (#[trigger] entries[i]).0 == scope
}

/// The per-scope lists held by `entries`.
pub open spec fn lists_of(entries: Seq<(Scope, Vec<String>)>) -> Map<Scope, Seq<Seq<char>>> {
    Map::new(|k: Scope| has_entry(entries, k), |k: Scope| tags(entries[entry_of(entries, k)].1@))
}

impl View for RfidStore {
    type V = RfidView;

    open spec fn view(&self) -> RfidView {
        RfidView { cs: tags(self.cs@), lists: lists_of(self.by_scope@) }
    }
}

/// The list recorded for `scope` (empty when there is none).
pub open spec fn scope_tags(s: RfidView, scope: Scope) -> Seq<Seq<char>> {
    if s.lists.contains_key(scope) {
        s.lists[scope]
    } else {
        Seq::empty()
    }
}

/// The list a tag operation on `scope` works on: the CS list for [`Scope::cs`], the
/// scope's own list otherwise.
pub open spec fn level_tags(s: RfidView, scope: Scope) -> Seq<Seq<char>> {
    if scope == Scope::cs_spec() {
        s.cs
    } else {
        scope_tags(s, scope)
    }
}

/// `s` with the list that a tag operation on `scope` works on replaced by `list`.
pub open spec fn with_level(s: RfidView, scope: Scope, list: Seq<Seq<char>>) -> RfidView {
    if scope == Scope::cs_spec() {
        RfidView { cs: list, lists: s.lists }
    } else {
        RfidView { cs: s.cs, lists: s.lists.insert(scope, list) }
    }
}

/// Whether a tag passes the CS-wide check (Authorize, which carries no connector): the
/// effective set is the CS list unioned with every connector list, and it passes when
/// that set is empty or holds it.
pub open spec fn cs_authorized_spec(s: RfidView, tag: Seq<char>) -> bool {
    let all_empty = s.cs.len() == 0 && forall|k: Scope| #[trigger] s.lists.contains_key(k) ==> s.lists[k].len() == 0;
    all_empty || s.cs.contains(tag) || exists|k: Scope| #[trigger] s.lists.contains_key(k) && s.lists[k].contains(tag)
}

/// Whether a tag passes the check for `scope` (a transaction start naming a connector):
/// the effective set is the scope's list unioned with the inherited CS list, and it
/// passes when that set is empty or holds it.
pub open spec fn scope_authorized_spec(s: RfidView, scope: Scope, tag: Seq<char>) -> bool {
    (s.cs.len() == 0 && scope_tags(s, scope).len() == 0) || s.cs.contains(tag) || scope_tags(
        s,
        scope,
    ).contains(tag)
}

/// The filter that keeps every tag other than `tag`.
pub open spec fn not_tag(tag: Seq<char>) -> spec_fn(Seq<char>) -> bool {
    |x: Seq<char>| x != tag
}

/// Whether `list` holds a string equal to `x`.
pub fn contains_tag(list: &Vec<String>, x: &str) -> (r: bool)
    ensures
        r == tags(list@).contains(x@),
{
    let mut i: usize = 0;
    while i < list.len()
        invariant
            i <= list@.len(),
            forall|k: int| 0 <= k < i ==> (#[trigger] list@[k])@ != x@,
        decreases list@.len() - i,
    {
        if crate::text::str_eq(list[i].as_str(), x) {
            assert(tags(list@)[i as int] == x@);
            return true;
        }
        i = i + 1;
    }
    assert forall|k: int| 0 <= k < tags(list@).len() implies #[trigger] tags(list@)[k] != x@ by {
        assert(tags(list@)[k] == list@[k]@);
    }
    false
}

/// `list` without every entry equal to `tag`.
fn without_tag(list: &Vec<String>, tag: &str) -> (r: Vec<String>)
    ensures
        tags(r@) == tags(list@).filter(not_tag(tag@)),
{
    let mut out: Vec<String> = Vec::new();
    let mut i: usize = 0;
    while i < list.len()
        invariant
            i <= list@.len(),
            tags(out@) == tags(list@).take(i as int).filter(not_tag(tag@)),
        decreases list@.len() - i,
    {
        proof {
            assert(tags(list@).take(i + 1) =~= tags(list@).take(i as int).push(list@[i as int]@));
            tags(list@).take(i as int).lemma_filter_push(list@[i as int]@, not_tag(tag@));
        }
        if !crate::text::str_eq(list[i].as_str(), tag) {
            out.push(list[i].clone());
            assert(tags(out@) =~= tags(list@).take(i + 1).filter(not_tag(tag@)));
        } else {
            assert(tags(out@) =~= tags(list@).take(i + 1).filter(not_tag(tag@)));
        }
        i = i + 1;
    }
    assert(tags(list@).take(list@.len() as int) =~= tags(list@));
    out
}

/// Each scope has at most one entry.
pub open spec fn distinct_scopes(es: Seq<(Scope, Vec<String>)>) -> bool {
    forall|i: int, j: int| 0 <= i < j < es.len() ==> (#[trigger] es[i]).0 != (#[trigger] es[j]).0
}

pub proof fn lemma_entry_of(es: Seq<(Scope, Vec<String>)>, k: Scope)
    requires
        distinct_scopes(es),
        has_entry(es, k),
    ensures
        0 <= entry_of(es, k) < es.len(),
        es[entry_of(es, k)].0 == k,
        forall|j: int| 0 <= j < es.len() && (#[trigger] es[j]).0 == k ==> j == entry_of(es, k),
{
    let e = entry_of(es, k);
    assert forall|j: int| 0 <= j < es.len() && (#[trigger] es[j]).0 == k implies j == e by {
        if j < e {
            assert(es[j].0 != es[e].0);
        } else if e < j {
            assert(es[e].0 != es[j].0);
        }
    }
}

/// Adding an entry for a scope that had none.
proof fn lemma_push_entry(es: Seq<(Scope, Vec<String>)>, e: (Scope, Vec<String>))
    requires
        distinct_scopes(es),
        !has_entry(es, e.0),
    ensures
        distinct_scopes(es.push(e)),
        lists_of(es.push(e)) == lists_of(es).insert(e.0, tags(e.1@)),
{
    let ns = es.push(e);
    assert forall|i: int, j: int| 0 <= i < j < ns.len() implies (#[trigger] ns[i]).0 != (#[trigger] ns[j]).0 by {
        if j == es.len() {
            assert(es[i] == ns[i]);
        } else {
            assert(es[i] == ns[i] && es[j] == ns[j]);
        }
    }
    assert forall|k: Scope| #[trigger] has_entry(ns, k) == (has_entry(es, k) || k == e.0) by {
        if has_entry(es, k) {
            let w = choose|i: int| 0 <= i < es.len() && (#[trigger] es[i]).0 == k;
            assert(ns[w] == es[w]);
        }
        if k == e.0 {
            assert(ns[es.len() as int].0 == k);
        }
    }
    assert forall|k: Scope| #[trigger] has_entry(ns, k) implies tags(ns[entry_of(ns, k)].1@) == lists_of(es).insert(e.0, tags(e.1@))[k] by {
        lemma_entry_of(ns, k);
        if k == e.0 {
            assert(ns[es.len() as int].0 == k);
        } else {
            lemma_entry_of(es, k);
            assert(ns[entry_of(es, k)] == es[entry_of(es, k)]);
        }
    }
    assert(lists_of(ns) =~= lists_of(es).insert(e.0, tags(e.1@)));
}

/// Replacing the entry at `i` by a new entry for the same scope, moved to the end.
proof fn lemma_replace_entry(es: Seq<(Scope, Vec<String>)>, i: int, e: (Scope, Vec<String>))
    requires
        distinct_scopes(es),
        0 <= i < es.len(),
        es[i].0 == e.0,
    ensures
        distinct_scopes(es.remove(i).push(e)),
        lists_of(es.remove(i).push(e)) == lists_of(es).insert(e.0, tags(e.1@)),
{
    let rs = es.remove(i);
    assert(distinct_scopes(rs)) by {
        assert forall|a: int, b: int| 0 <= a < b < rs.len() implies (#[trigger] rs[a]).0 != (#[trigger] rs[b]).0 by {
            let a2 = if a < i { a } else { a + 1 };
            let b2 = if b < i { b } else { b + 1 };
            assert(rs[a] == es[a2] && rs[b] == es[b2]);
        }
    }
    assert(!has_entry(rs, e.0)) by {
        if has_entry(rs, e.0) {
            let w = choose|w: int| 0 <= w < rs.len() && (#[trigger] rs[w]).0 == e.0;
            let w2 = if w < i { w } else { w + 1 };
            assert(rs[w] == es[w2]);
            if w2 < i {
                assert(es[w2].0 != es[i].0);
            } else {
                assert(es[i].0 != es[w2].0);
            }
        }
    }
    lemma_push_entry(rs, e);
    assert forall|k: Scope| #[trigger] has_entry(rs, k) == (has_entry(es, k) && k != e.0) by {
        if has_entry(rs, k) {
            let w = choose|w: int| 0 <= w < rs.len() && (#[trigger] rs[w]).0 == k;
            let w2 = if w < i { w } else { w + 1 };
            assert(rs[w] == es[w2]);
        }
        if has_entry(es, k) && k != e.0 {
            let w = choose|w: int| 0 <= w < es.len() && (#[trigger] es[w]).0 == k;
            assert(w != i);
            let w1 = if w < i { w } else { w - 1 };
            assert(rs[w1] == es[w]);
        }
    }
    assert forall|k: Scope| #[trigger] has_entry(rs, k) implies lists_of(rs)[k] == lists_of(es)[k] by {
        lemma_entry_of(rs, k);
        lemma_entry_of(es, k);
        let w = entry_of(rs, k);
        let w2 = if w < i { w } else { w + 1 };
        assert(rs[w] == es[w2]);
    }
    assert(lists_of(rs).insert(e.0, tags(e.1@)) =~= lists_of(es).insert(e.0, tags(e.1@)));
}

/// Dropping every copy of `t` shortens a list exactly when the list holds `t`.
proof fn lemma_filter_shortens(s: Seq<Seq<char>>, t: Seq<char>)
    ensures
        s.filter(not_tag(t)).len() < s.len() <==> s.contains(t),
        s.filter(not_tag(t)).len() <= s.len(),
    decreases s.len(),
{
    let p = not_tag(t);
    if s.len() == 0 {
        reveal(Seq::filter);
    } else {
        let d = s.drop_last();
        lemma_filter_shortens(d, t);
        assert(s =~= d.push(s.last()));
        d.lemma_filter_push(s.last(), p);
        if s.last() == t {
            assert(s.contains(t));
        } else {
            assert(s.contains(t) <==> d.contains(t)) by {
                if s.contains(t) {
                    let w = choose|w: int| 0 <= w < s.len() && s[w] == t;
                    assert(w < d.len());
                    assert(d[w] == t);
                }
            }
        }
    }
}

impl RfidStore {
    /// Each scope has at most one entry.
    pub open spec fn wf(&self) -> bool {
        distinct_scopes(self.by_scope@)
    }

    /// Whether each scope has at most one entry.
    pub fn is_well_formed(&self) -> (r: bool)
        ensures
            r == self.wf(),
    {
        let n = self.by_scope.len();
        let mut i: usize = 0;
        while i < n
            invariant
                n == self.by_scope@.len(),
                i <= n,
                forall|a: int, b: int|
                    0 <= a < b < n && a < i ==> (#[trigger] self.by_scope@[a]).0 != (#[trigger] self.by_scope@[b]).0,
            decreases n - i,
        {
            let mut j: usize = i + 1;
            while j < n
                invariant
                    n == self.by_scope@.len(),
                    i < n,
                    i < j <= n,
                    forall|a: int, b: int|
                        0 <= a < b < n && a < i ==> (#[trigger] self.by_scope@[a]).0 != (#[trigger] self.by_scope@[b]).0,
                    forall|b: int| i < b < j ==> self.by_scope@[i as int].0 != (#[trigger] self.by_scope@[b]).0,
                decreases n - j,
            {
                if self.by_scope[i].0 == self.by_scope[j].0 {
                    return false;
                }
                j = j + 1;
            }
            i = i + 1;
        }
        true
    }

    /// The position of the entry for `scope`, if there is one.
    fn position(&self, scope: Scope) -> (r: Option<usize>)
        requires
            self.wf(),
        ensures
            r is None <==> !has_entry(self.by_scope@, scope),
            r matches Some(i) ==> i < self.by_scope@.len() && self.by_scope@[i as int].0 == scope
                && entry_of(self.by_scope@, scope) == i,
    {
        let mut i: usize = 0;
        while i < self.by_scope.len()
            invariant
                self.wf(),
                i <= self.by_scope@.len(),
                forall|k: int| 0 <= k < i ==> (#[trigger] self.by_scope@[k]).0 != scope,
            decreases self.by_scope@.len() - i,
        {
            if self.by_scope[i].0 == scope {
                proof {
                    let e = entry_of(self.by_scope@, scope);
                    assert(0 <= e < self.by_scope@.len() && self.by_scope@[e].0 == scope);
                    if e != i {
                        if e < i {
                            assert(self.by_scope@[e].0 != self.by_scope@[i as int].0);
                        } else {
                            assert(self.by_scope@[i as int].0 != self.by_scope@[e].0);
                        }
                    }
                }
                return Some(i);
            }
            i = i + 1;
        }
        None
    }

    /// Record `list` as the list of `scope`, replacing the one it had.
    pub fn set_scope_list(&mut self, scope: Scope, list: Vec<String>)
        requires
            old(self).wf(),
        ensures
            final(self).wf(),
            final(self)@.cs == old(self)@.cs,
            final(self)@.lists == old(self)@.lists.insert(scope, tags(list@)),
    {
        match self.position(scope) {
            Some(i) => {
                let (k, _old_list) = self.by_scope.remove(i);
                self.by_scope.push((k, list));
                proof {
                    lemma_replace_entry(old(self).by_scope@, i as int, (k, list));
                    assert(self.by_scope@ =~= old(self).by_scope@.remove(i as int).push((k, list)));
                }
            },
            None => {
                self.by_scope.push((scope, list));
                proof {
                    lemma_push_entry(old(self).by_scope@, (scope, list));
                }
            },
        }
    }

    /// The connector list for `scope` (empty if none recorded).
    pub fn scope_list(&self, scope: Scope) -> (r: &[String])
        requires
            self.wf(),
        ensures
            tags(r@) == scope_tags(self@, scope),
    {
        match self.position(scope) {
            Some(i) => self.by_scope[i].1.as_slice(),
            None => &[],
        }
    }

    /// Add `tag` to a level (deduplicated); returns whether it was newly inserted.
    /// `scope` [`Scope::cs`] targets the charge-point-wide list, otherwise the connector
    /// list, which is created (empty) first when the scope has none.
    pub fn add(&mut self, scope: Scope, tag: String) -> (r: bool)
        requires
            old(self).wf(),
        ensures
            final(self).wf(),
            r == !level_tags(old(self)@, scope).contains(tag@),
            final(self)@ == with_level(
                old(self)@,
                scope,
                if r {
                    level_tags(old(self)@, scope).push(tag@)
                } else {
                    level_tags(old(self)@, scope)
                },
            ),
    {
        if scope.is_cs() {
            if contains_tag(&self.cs, tag.as_str()) {
                false
            } else {
                self.cs.push(tag);
                assert(tags(self.cs@) =~= tags(old(self).cs@).push(tag@));
                true
            }
        } else {
            match self.position(scope) {
                Some(i) => {
                    if contains_tag(&self.by_scope[i].1, tag.as_str()) {
                        proof {
                            assert(has_entry(old(self).by_scope@, scope));
                            assert(old(self)@.lists.insert(scope, old(self)@.lists[scope]) =~= old(self)@.lists);
                        }
                        false
                    } else {
                        let (k, mut list) = self.by_scope.remove(i);
                        list.push(tag);
                        self.by_scope.push((k, list));
                        proof {
                            lemma_replace_entry(old(self).by_scope@, i as int, (k, list));
                            assert(self.by_scope@ =~= old(self).by_scope@.remove(i as int).push((k, list)));
                            lemma_entry_of(old(self).by_scope@, scope);
                            assert(tags(list@) =~= tags(old(self).by_scope@[i as int].1@).push(tag@));
                        }
                        true
                    }
                },
                None => {
                    let mut list: Vec<String> = Vec::new();
                    list.push(tag);
                    self.by_scope.push((scope, list));
                    proof {
                        lemma_push_entry(old(self).by_scope@, (scope, list));
                        assert(tags(list@) =~= Seq::<Seq<char>>::empty().push(tag@));
                    }
                    true
                },
            }
        }
    }

    /// Remove `tag` from a level; returns whether it was present. A connector scope
    /// without a list is left as it is.
    pub fn remove(&mut self, scope: Scope, tag: &str) -> (r: bool)
        requires
            old(self).wf(),
        ensures
            final(self).wf(),
            r == level_tags(old(self)@, scope).contains(tag@),
            scope != Scope::cs_spec() && !old(self)@.lists.contains_key(scope) ==> final(self)@ == old(self)@,
            scope == Scope::cs_spec() || old(self)@.lists.contains_key(scope) ==> final(self)@ == with_level(
                old(self)@,
                scope,
                level_tags(old(self)@, scope).filter(not_tag(tag@)),
            ),
    {
        if scope.is_cs() {
            let before = self.cs.len();
            let kept = without_tag(&self.cs, tag);
            self.cs = kept;
            proof {
                lemma_filter_shortens(tags(old(self).cs@), tag@);
                assert(tags(old(self).cs@).len() == before);
                assert(tags(self.cs@).len() == self.cs@.len());
            }
            self.cs.len() < before
        } else {
            match self.position(scope) {
                Some(i) => {
                    let before = self.by_scope[i].1.len();
                    let kept = without_tag(&self.by_scope[i].1, tag);
                    let after = kept.len();
                    let (k, _old_list) = self.by_scope.remove(i);
                    self.by_scope.push((k, kept));
                    proof {
                        lemma_replace_entry(old(self).by_scope@, i as int, (k, kept));
                        assert(self.by_scope@ =~= old(self).by_scope@.remove(i as int).push((k, kept)));
                        lemma_entry_of(old(self).by_scope@, scope);
                        lemma_filter_shortens(tags(old(self).by_scope@[i as int].1@), tag@);
                        assert(has_entry(old(self).by_scope@, scope));
                        assert(tags(old(self).by_scope@[i as int].1@).len() == before);
                        assert(tags(kept@).len() == after);
                    }
                    after < before
                },
                None => false,
            }
        }
    }
}

/// Whether a tag passes a CS-wide check (Authorize, which carries no connector): accepted
/// if the effective set, the CS list unioned with every connector list, is empty or
/// contains the tag.
pub fn cs_authorized(s: &RfidStore, id_tag: &str) -> (r: bool)
    requires
        s.wf(),
    ensures
        r == cs_authorized_spec(s@, id_tag@),
{
    let mut empty = s.cs.is_empty();
    if contains_tag(&s.cs, id_tag) {
        return true;
    }
    let mut i: usize = 0;
    while i < s.by_scope.len()
        invariant
            s.wf(),
            i <= s.by_scope@.len(),
            !tags(s.cs@).contains(id_tag@),
            empty == (s.cs@.len() == 0 && forall|j: int| 0 <= j < i ==> (#[trigger] s.by_scope@[j]).1@.len() == 0),
            forall|j: int| 0 <= j < i ==> !tags((#[trigger] s.by_scope@[j]).1@).contains(id_tag@),
        decreases s.by_scope@.len() - i,
    {
        if !s.by_scope[i].1.is_empty() {
            empty = false;
            if contains_tag(&s.by_scope[i].1, id_tag) {
                proof {
                    let k = s.by_scope@[i as int].0;
                    assert(has_entry(s.by_scope@, k));
                    lemma_entry_of(s.by_scope@, k);
                    assert(s@.lists.contains_key(k) && s@.lists[k].contains(id_tag@));
                }
                return true;
            }
        }
        i = i + 1;
    }
    proof {
        assert forall|k: Scope| #[trigger] s@.lists.contains_key(k) implies !s@.lists[k].contains(id_tag@) && (empty ==> s@.lists[k].len() == 0) by {
            lemma_entry_of(s.by_scope@, k);
        }
        if !empty && s.cs@.len() == 0 {
            let j = choose|j: int| 0 <= j < s.by_scope@.len() && (#[trigger] s.by_scope@[j]).1@.len() != 0;
            let k = s.by_scope@[j].0;
            assert(has_entry(s.by_scope@, k));
            lemma_entry_of(s.by_scope@, k);
            assert(s@.lists.contains_key(k) && s@.lists[k].len() != 0);
        }
    }
    empty
}

/// Whether a tag passes a connector-scoped check (a transaction start that names a
/// connector): accepted if the effective set, that connector's list unioned with the
/// inherited CS list, is empty or contains the tag.
pub fn scope_authorized(s: &RfidStore, scope: Scope, id_tag: &str) -> (r: bool)
    requires
        s.wf(),
    ensures
        r == scope_authorized_spec(s@, scope, id_tag@),
{
    let conn = s.scope_list(scope);
    let effective_empty = s.cs.is_empty() && conn.len() == 0;
    assert(tags(conn@).len() == conn@.len() && tags(s.cs@).len() == s.cs@.len());
    if effective_empty {
        return true;
    }
    if contains_tag(&s.cs, id_tag) {
        return true;
    }
    let mut i: usize = 0;
    while i < conn.len()
        invariant
            i <= conn@.len(),
            tags(conn@) == scope_tags(s@, scope),
            forall|k: int| 0 <= k < i ==> (#[trigger] conn@[k])@ != id_tag@,
        decreases conn@.len() - i,
    {
        if crate::text::str_eq(conn[i].as_str(), id_tag) {
            assert(tags(conn@)[i as int] == id_tag@);
            return true;
        }
        i = i + 1;
    }
    assert forall|k: int| 0 <= k < tags(conn@).len() implies #[trigger] tags(conn@)[k] != id_tag@ by {
        assert(tags(conn@)[k] == conn@[k]@);
    }
    false
}

/// An empty effective accept-set (nothing listed anywhere) accepts every tag, both at
/// the CS-wide check and at every connector.
pub proof fn lemma_empty_accepts_all(s: RfidView, scope: Scope, tag: Seq<char>)
    requires
        s.cs.len() == 0,
        forall|k: Scope| #[trigger] s.lists.contains_key(k) ==> s.lists[k].len() == 0,
    ensures
        cs_authorized_spec(s, tag),
        scope_authorized_spec(s, scope, tag),
{
}

/// A tag on the charge-point-wide list is accepted everywhere: by the CS-wide check and
/// by every connector, which inherits the CS list.
pub proof fn lemma_cs_tag_accepted_everywhere(s: RfidView, scope: Scope, tag: Seq<char>)
    requires
        s.cs.contains(tag),
    ensures
        cs_authorized_spec(s, tag),
        scope_authorized_spec(s, scope, tag),
{
}

/// A tag on any connector's list passes the CS-wide check, whose effective set unions
/// every connector list.
pub proof fn lemma_connector_tag_accepted_cs_wide(s: RfidView, scope: Scope, tag: Seq<char>)
    requires
        s.lists.contains_key(scope),
        s.lists[scope].contains(tag),
    ensures
        cs_authorized_spec(s, tag),
{
}

/// A connector does not inherit another connector's tags: once its effective set is
/// non-empty, a tag on neither its own list nor the CS list is refused.
pub proof fn lemma_connector_lists_not_shared(s: RfidView, scope: Scope, tag: Seq<char>)
    requires
        s.cs.len() != 0 || scope_tags(s, scope).len() != 0,
        !s.cs.contains(tag),
        !scope_tags(s, scope).contains(tag),
    ensures
        !scope_authorized_spec(s, scope, tag),
{
}

/// The charge-point-wide check refuses a tag that is on no list once anything is listed:
/// when some connector list is non-empty and neither the CS list nor any connector list
/// holds the tag, an Authorize for it is refused (an empty CS list alone is no open mode).
pub proof fn lemma_cs_check_refuses_unlisted(s: RfidView, some: Scope, tag: Seq<char>)
    requires
        s.lists.contains_key(some),
        s.lists[some].len() > 0,
        !s.cs.contains(tag),
        forall|k: Scope| #[trigger] s.lists.contains_key(k) ==> !s.lists[k].contains(tag),
    ensures
        !cs_authorized_spec(s, tag),
{
}

/// The charge-point-wide check refuses a tag that is on no list while the CS list is
/// non-empty.
pub proof fn lemma_cs_list_closes_cs_check(s: RfidView, tag: Seq<char>)
    requires
        s.cs.len() > 0,
        !s.cs.contains(tag),
        forall|k: Scope| #[trigger] s.lists.contains_key(k) ==> !s.lists[k].contains(tag),
    ensures
        !cs_authorized_spec(s, tag),
{
}

/// A connector whose own list and the inherited CS list are both empty is in open mode: it
/// accepts every tag, whatever the other connectors' lists hold.
pub proof fn lemma_open_connector_accepts_all(s: RfidView, scope: Scope, tag: Seq<char>)
    requires
        s.cs.len() == 0,
        !s.lists.contains_key(scope) || s.lists[scope].len() == 0,
    ensures
        scope_authorized_spec(s, scope, tag),
{
}

/// A tag on a connector's own list is accepted for that connector.
pub proof fn lemma_own_tag_accepted(s: RfidView, scope: Scope, tag: Seq<char>)
    requires
        s.lists.contains_key(scope),
        s.lists[scope].contains(tag),
    ensures
        scope_authorized_spec(s, scope, tag),
{
}

/// Replacing the list a tag operation on `scope` works on changes that list and no other:
/// the CS list for the charge-point scope, the scope's own list otherwise.
pub proof fn lemma_with_level_touches_one_list(s: RfidView, scope: Scope, list: Seq<Seq<char>>, other: Scope)
    ensures
        level_tags(with_level(s, scope, list), scope) == list,
        other != scope ==> level_tags(with_level(s, scope, list), other) == level_tags(s, other),
        scope != Scope::cs_spec() ==> with_level(s, scope, list).cs == s.cs,
        scope == Scope::cs_spec() ==> with_level(s, scope, list).lists == s.lists,
{
}

/// Removing a tag right after adding it leaves the list as it was before the add.
pub proof fn lemma_add_then_remove(list: Seq<Seq<char>>, tag: Seq<char>)
    requires
        !list.contains(tag),
    ensures
        list.push(tag).filter(not_tag(tag)) == list,
{
    list.lemma_filter_push(tag, not_tag(tag));
    lemma_filter_keeps_all(list, tag);
}

/// Dropping a tag a list does not hold leaves the list unchanged.
proof fn lemma_filter_keeps_all(list: Seq<Seq<char>>, tag: Seq<char>)
    requires
        !list.contains(tag),
    ensures
        list.filter(not_tag(tag)) == list,
    decreases list.len(),
{
    if list.len() == 0 {
        reveal(Seq::filter);
        assert(list.filter(not_tag(tag)) =~= list);
    } else {
        let d = list.drop_last();
        assert(!d.contains(tag)) by {
            if d.contains(tag) {
                let w = choose|w: int| 0 <= w < d.len() && d[w] == tag;
                assert(list[w] == tag);
            }
        }
        lemma_filter_keeps_all(d, tag);
        assert(list =~= d.push(list.last()));
        d.lemma_filter_push(list.last(), not_tag(tag));
        assert(list.last() != tag) by {
            assert(list[list.len() - 1] == list.last());
        }
    }
}

} // verus!
