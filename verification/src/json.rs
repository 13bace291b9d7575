//! JSON values as the OCPP logic reads and builds them.

use vstd::prelude::*;

verus! {

/// A JSON value. Numbers are integers (every integer JSON number fits an `i128`) or
/// numbers with a fraction or exponent, held by the bits of their `f64`; objects keep
/// their members in order, each key once.
#[derive(Debug)]
pub enum Json {
    Null,
    Bool(bool),
    Int(i128),
    Float(u64),
    Str(String),
    Array(Vec<Json>),
    Object(Vec<(String, Json)>),
}

/// The abstract value of a [`Json`].
pub enum JsonView {
    Null,
    Bool(bool),
    Int(int),
    Float(u64),
    Str(Seq<char>),
    Array(Seq<JsonView>),
    Object(Seq<(Seq<char>, JsonView)>),
}

/// The abstract values of a list of JSON values.
pub open spec fn item_views(s: Seq<Json>) -> Seq<JsonView>
    decreases s,
{
    if s.len() == 0 {
        Seq::empty()
    } else {
        item_views(s.drop_last()).push(s.last().view())
    }
}

/// The abstract values of a list of object members.
pub open spec fn member_views(s: Seq<(String, Json)>) -> Seq<(Seq<char>, JsonView)>
    decreases s,
{
    if s.len() == 0 {
        Seq::empty()
    } else {
        member_views(s.drop_last()).push((s.last().0@, s.last().1.view()))
    }
}

impl View for Json {
    type V = JsonView;

    open spec fn view(&self) -> JsonView
        decreases self,
    {
        match self {
            Json::Null => JsonView::Null,
            Json::Bool(b) => JsonView::Bool(*b),
            Json::Int(i) => JsonView::Int(*i as int),
            Json::Float(f) => JsonView::Float(*f),
            Json::Str(s) => JsonView::Str(s@),
            Json::Array(items) => JsonView::Array(item_views(items@)),
            Json::Object(members) => JsonView::Object(member_views(members@)),
        }
    }
}


/// The value of the first member of `ms` named `key`, if there is one.
pub open spec fn lookup(ms: Seq<(Seq<char>, JsonView)>, key: Seq<char>) -> Option<JsonView>
    decreases ms.len(),
{
    if ms.len() == 0 {
        None
    } else {
        match lookup(ms.drop_last(), key) {
            Some(x) => Some(x),
            None => if ms.last().0 == key {
                Some(ms.last().1)
            } else {
                None
            },
        }
    }
}

/// `v[key]` as serde_json reads it: the member's value when `v` is an object with a member
/// `key`, `null` otherwise.
pub open spec fn member(v: JsonView, key: Seq<char>) -> JsonView {
    match v {
        JsonView::Object(ms) => match lookup(ms, key) {
            Some(x) => x,
            None => JsonView::Null,
        },
        _ => JsonView::Null,
    }
}

/// The text of a string value.
pub open spec fn str_of(v: JsonView) -> Option<Seq<char>> {
    match v {
        JsonView::Str(s) => Some(s),
        _ => None,
    }
}

/// An integer value that fits an `i64`.
pub open spec fn i64_of(v: JsonView) -> Option<int> {
    match v {
        JsonView::Int(i) => if i64::MIN <= i <= i64::MAX {
            Some(i)
        } else {
            None
        },
        _ => None,
    }
}

/// An integer value that fits a `u64`.
pub open spec fn u64_of(v: JsonView) -> Option<int> {
    match v {
        JsonView::Int(i) => if 0 <= i <= u64::MAX {
            Some(i)
        } else {
            None
        },
        _ => None,
    }
}

proof fn lemma_lookup_prefix(ms: Seq<(Seq<char>, JsonView)>, key: Seq<char>, k: int)
    requires
        0 <= k <= ms.len(),
        lookup(ms.take(k), key) is None,
        k < ms.len() ==> ms[k].0 != key,
        k < ms.len(),
    ensures
        lookup(ms.take(k + 1), key) is None,
{
    assert(ms.take(k + 1).drop_last() =~= ms.take(k));
}

proof fn lemma_lookup_found(ms: Seq<(Seq<char>, JsonView)>, key: Seq<char>, k: int)
    requires
        0 <= k < ms.len(),
        lookup(ms.take(k), key) is None,
        ms[k].0 == key,
    ensures
        lookup(ms, key) == Some(ms[k].1),
    decreases ms.len() - k,
{
    if k + 1 == ms.len() {
        assert(ms.drop_last() =~= ms.take(k));
    } else {
        assert(ms.take(k + 1).drop_last() =~= ms.take(k));
        assert(lookup(ms.take(k + 1), key) == Some(ms[k].1));
        lemma_lookup_extend(ms, key, k + 1);
    }
}

proof fn lemma_lookup_extend(ms: Seq<(Seq<char>, JsonView)>, key: Seq<char>, k: int)
    requires
        0 <= k <= ms.len(),
        lookup(ms.take(k), key) is Some,
    ensures
        lookup(ms, key) == lookup(ms.take(k), key),
    decreases ms.len() - k,
{
    if k == ms.len() {
        assert(ms.take(k) =~= ms);
    } else {
        assert(ms.take(k + 1).drop_last() =~= ms.take(k));
        lemma_lookup_extend(ms, key, k + 1);
    }
}

pub proof fn lemma_member_views(s: Seq<(String, Json)>, k: int)
    requires
        0 <= k <= s.len(),
    ensures
        member_views(s).len() == s.len(),
        member_views(s.take(k)) == member_views(s).take(k),
        k < s.len() ==> member_views(s)[k] == (s[k].0@, s[k].1@),
    decreases s.len(),
{
    if s.len() > 0 {
        if k == s.len() {
            assert(s.take(k) =~= s);
            lemma_member_views(s.drop_last(), 0);
            assert(member_views(s).take(k) =~= member_views(s));
        } else {
            lemma_member_views(s.drop_last(), k);
            assert(s.drop_last().take(k) =~= s.take(k));
            assert(member_views(s).take(k) =~= member_views(s.drop_last()).take(k));
            if k < s.len() - 1 {
                assert(s.drop_last()[k] == s[k]);
            }
        }
    } else {
        assert(s.take(k) =~= s);
    }
}

/// The value `v` stands for, `null` when there is none.
pub open spec fn jv(v: Option<&Json>) -> JsonView {
    match v {
        Some(x) => x@,
        None => JsonView::Null,
    }
}

/// `v[key]` as serde_json reads it: the value of the member `key` when `v` is an object
/// that has one, `None` (standing for `null`) otherwise.
pub fn get_member<'a>(v: Option<&'a Json>, key: &str) -> (r: Option<&'a Json>)
    ensures
        jv(r) == member(jv(v), key@),
{
    match v {
        Some(Json::Object(ms)) => {
            let ghost mv = member_views(ms@);
            assert(jv(v) == JsonView::Object(mv));
            let mut i: usize = 0;
            proof {
                lemma_member_views(ms@, 0);
                assert(mv.take(0) =~= Seq::empty());
            }
            while i < ms.len()
                invariant
                    i <= ms@.len(),
                    mv == member_views(ms@),
                    jv(v) == JsonView::Object(mv),
                    mv.len() == ms@.len(),
                    lookup(mv.take(i as int), key@) is None,
                decreases ms@.len() - i,
            {
                proof {
                    lemma_member_views(ms@, i as int);
                }
                if crate::text::str_eq(ms[i].0.as_str(), key) {
                    proof {
                        lemma_lookup_found(mv, key@, i as int);
                        assert(mv[i as int] == (ms@[i as int].0@, ms@[i as int].1@));
                    }
                    return Some(&ms[i].1);
                }
                proof {
                    lemma_lookup_prefix(mv, key@, i as int);
                }
                i = i + 1;
            }
            proof {
                assert(mv.take(mv.len() as int) =~= mv);
            }
            None
        },
        _ => None,
    }
}

/// The text of `v`, when it is a string.
pub fn as_str(v: Option<&Json>) -> (r: Option<&str>)
    ensures
        r is Some == str_of(jv(v)) is Some,
        r matches Some(s) ==> s@ == str_of(jv(v))->0,
{
    match v {
        Some(Json::Str(s)) => Some(s.as_str()),
        _ => None,
    }
}

/// The value of `v`, when it is an integer that fits an `i64`.
pub fn as_i64(v: Option<&Json>) -> (r: Option<i64>)
    ensures
        r is Some == i64_of(jv(v)) is Some,
        r matches Some(i) ==> i == i64_of(jv(v))->0,
{
    match v {
        Some(Json::Int(i)) => {
            if i64::MIN as i128 <= *i && *i <= i64::MAX as i128 {
                Some(*i as i64)
            } else {
                None
            }
        },
        _ => None,
    }
}

/// The value of `v`, when it is an integer that fits a `u64`.
pub fn as_u64(v: Option<&Json>) -> (r: Option<u64>)
    ensures
        r is Some == u64_of(jv(v)) is Some,
        r matches Some(i) ==> i == u64_of(jv(v))->0,
{
    match v {
        Some(Json::Int(i)) => {
            if 0 <= *i && *i <= u64::MAX as i128 {
                Some(*i as u64)
            } else {
                None
            }
        },
        _ => None,
    }
}

/// Whether `v` is an object.
pub fn is_object(v: Option<&Json>) -> (r: bool)
    ensures
        r == jv(v) is Object,
{
    match v {
        Some(Json::Object(_)) => true,
        _ => false,
    }
}

/// The position of the first member of `ms` named `key`, if there is one.
pub open spec fn first_index(ms: Seq<(Seq<char>, JsonView)>, key: Seq<char>) -> Option<int>
    decreases ms.len(),
{
    if ms.len() == 0 {
        None
    } else {
        match first_index(ms.drop_last(), key) {
            Some(k) => Some(k),
            None => if ms.last().0 == key {
                Some(ms.len() - 1)
            } else {
                None
            },
        }
    }
}

/// `ms` with member `key` set to `val`: the first member of that name takes the value in
/// place, or a new member is appended when there is none.
pub open spec fn set_member(ms: Seq<(Seq<char>, JsonView)>, key: Seq<char>, val: JsonView) -> Seq<
    (Seq<char>, JsonView),
> {
    match first_index(ms, key) {
        Some(k) => ms.update(k, (key, val)),
        None => ms.push((key, val)),
    }
}

/// The first member named `key` is where `lookup` finds its value.
pub proof fn lemma_first_index(ms: Seq<(Seq<char>, JsonView)>, key: Seq<char>)
    ensures
        first_index(ms, key) is None <==> lookup(ms, key) is None,
        first_index(ms, key) matches Some(k) ==> 0 <= k < ms.len() && ms[k].0 == key && lookup(ms, key)
            == Some(ms[k].1),
    decreases ms.len(),
{
    if ms.len() > 0 {
        lemma_first_index(ms.drop_last(), key);
    }
}

proof fn lemma_first_index_prefix(ms: Seq<(Seq<char>, JsonView)>, key: Seq<char>, k: int)
    requires
        0 <= k < ms.len(),
        first_index(ms.take(k), key) is None,
    ensures
        ms[k].0 == key ==> first_index(ms, key) == Some(k),
        ms[k].0 != key ==> first_index(ms.take(k + 1), key) is None,
    decreases ms.len() - k,
{
    assert(ms.take(k + 1).drop_last() =~= ms.take(k));
    if ms[k].0 == key {
        lemma_first_index_extend(ms, key, k + 1);
    }
}

proof fn lemma_first_index_extend(ms: Seq<(Seq<char>, JsonView)>, key: Seq<char>, k: int)
    requires
        0 <= k <= ms.len(),
        first_index(ms.take(k), key) is Some,
    ensures
        first_index(ms, key) == first_index(ms.take(k), key),
    decreases ms.len() - k,
{
    if k == ms.len() {
        assert(ms.take(k) =~= ms);
    } else {
        assert(ms.take(k + 1).drop_last() =~= ms.take(k));
        lemma_first_index_extend(ms, key, k + 1);
    }
}

/// Appending a member appends its view.
pub proof fn lemma_member_views_push(s: Seq<(String, Json)>, m: (String, Json))
    ensures
        member_views(s.push(m)) == member_views(s).push((m.0@, m.1@)),
{
    assert(s.push(m).drop_last() =~= s);
}

/// The views of a list of values, one by one.
pub proof fn lemma_item_views(s: Seq<Json>)
    ensures
        item_views(s).len() == s.len(),
        forall|k: int| 0 <= k < s.len() ==> #[trigger] item_views(s)[k] == s[k]@,
    decreases s.len(),
{
    if s.len() > 0 {
        lemma_item_views(s.drop_last());
        assert(item_views(s) == item_views(s.drop_last()).push(s.last()@));
        assert forall|k: int| 0 <= k < s.len() implies #[trigger] item_views(s)[k] == s[k]@ by {
            if k < s.len() - 1 {
                assert(s.drop_last()[k] == s[k]);
            }
        }
    }
}

/// Appending a value appends its view.
pub proof fn lemma_item_views_push(s: Seq<Json>, x: Json)
    ensures
        item_views(s.push(x)) == item_views(s).push(x@),
{
    assert(s.push(x).drop_last() =~= s);
}

/// The position of the first member of `ms` named `key`.
pub fn member_index(ms: &Vec<(String, Json)>, key: &str) -> (r: Option<usize>)
    ensures
        r is Some == first_index(member_views(ms@), key@) is Some,
        r matches Some(k) ==> first_index(member_views(ms@), key@) == Some(k as int),
{
    let ghost mv = member_views(ms@);
    let mut i: usize = 0;
    proof {
        lemma_member_views(ms@, 0);
        assert(mv.take(0) =~= Seq::empty());
    }
    while i < ms.len()
        invariant
            i <= ms@.len(),
            mv == member_views(ms@),
            mv.len() == ms@.len(),
            first_index(mv.take(i as int), key@) is None,
        decreases ms@.len() - i,
    {
        proof {
            lemma_member_views(ms@, i as int);
            lemma_first_index_prefix(mv, key@, i as int);
        }
        if crate::text::str_eq(ms[i].0.as_str(), key) {
            return Some(i);
        }
        i = i + 1;
    }
    proof {
        assert(mv.take(mv.len() as int) =~= mv);
    }
    None
}
proof fn lemma_first_index_same_keys(a: Seq<(Seq<char>, JsonView)>, b: Seq<(Seq<char>, JsonView)>, key: Seq<char>)
    requires
        a.len() == b.len(),
        forall|i: int| 0 <= i < a.len() ==> ((#[trigger] a[i]).0 == key) == (b[i].0 == key),
    ensures
        first_index(a, key) == first_index(b, key),
    decreases a.len(),
{
    if a.len() > 0 {
        let (da, db) = (a.drop_last(), b.drop_last());
        assert forall|i: int| 0 <= i < da.len() implies ((#[trigger] da[i]).0 == key) == (db[i].0 == key) by {
            assert(da[i] == a[i] && db[i] == b[i]);
        }
        lemma_first_index_same_keys(da, db, key);
        assert(a.last() == a[a.len() - 1] && b.last() == b[b.len() - 1]);
    }
}

/// Setting a member: the member then reads the new value, and every other member reads
/// what it read before.
pub proof fn lemma_set_member_lookup(ms: Seq<(Seq<char>, JsonView)>, key: Seq<char>, val: JsonView, other: Seq<char>)
    ensures
        lookup(set_member(ms, key, val), key) == Some(val),
        other != key ==> lookup(set_member(ms, key, val), other) == lookup(ms, other),
{
    lemma_first_index(ms, key);
    lemma_first_index(ms, other);
    let t = set_member(ms, key, val);
    lemma_first_index(t, key);
    lemma_first_index(t, other);
    match first_index(ms, key) {
        Some(k) => {
            assert forall|i: int| 0 <= i < ms.len() implies ((#[trigger] ms[i]).0 == key) == (t[i].0 == key) by {
                if i != k {
                    assert(t[i] == ms[i]);
                }
            }
            lemma_first_index_same_keys(ms, t, key);
            if other != key {
                assert forall|i: int| 0 <= i < ms.len() implies ((#[trigger] ms[i]).0 == other) == (t[i].0
                    == other) by {
                    if i != k {
                        assert(t[i] == ms[i]);
                    }
                }
                lemma_first_index_same_keys(ms, t, other);
                if let Some(j) = first_index(ms, other) {
                    assert(j != k);
                    assert(t[j] == ms[j]);
                }
            }
        },
        None => {
            assert(t.drop_last() =~= ms);
            if other != key {
                if let Some(j) = first_index(ms, other) {
                    assert(t[j] == ms[j]);
                }
            }
        },
    }
}

} // verus!
