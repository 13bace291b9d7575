//! The `C_Statics` Lua module's data: named constants a script reads by type.

use vstd::prelude::*;

use crate::text::str_eq;

verus! {

/// A value a script can read; a float is held as its IEEE 754 bits.
#[derive(Debug, Clone)]
pub enum ValueType {
    Int(i128),
    FloatBits(u64),
    String(String),
    Bool(bool),
}

/// The mathematical value of a [`ValueType`].
pub enum ValueView {
    Int(i128),
    FloatBits(u64),
    Str(Seq<char>),
    Bool(bool),
}

impl View for ValueType {
    type V = ValueView;

    open spec fn view(&self) -> ValueView {
        match self {
            ValueType::Int(i) => ValueView::Int(*i),
            ValueType::FloatBits(b) => ValueView::FloatBits(*b),
            ValueType::String(s) => ValueView::Str(s@),
            ValueType::Bool(b) => ValueView::Bool(*b),
        }
    }
}

/// Whether no key occurs twice among the entries.
pub open spec fn keys_distinct(s: Seq<(String, ValueType)>) -> bool {
    forall|i: int, j: int| 0 <= i < s.len() && 0 <= j < s.len() && i != j ==> s[i].0@ != s[j].0@
}

/// Whether some entry has key `k`.
pub open spec fn has_key(s: Seq<(String, ValueType)>, k: Seq<char>) -> bool {
    exists|i: int| 0 <= i < s.len() && s[i].0@ == k
}

/// The position of the entry with key `k`.
pub open spec fn key_index(s: Seq<(String, ValueType)>, k: Seq<char>) -> int {
    choose|i: int| 0 <= i < s.len() && s[i].0@ == k
}

/// The map the entries stand for.
pub open spec fn entries_map(s: Seq<(String, ValueType)>) -> Map<Seq<char>, ValueView> {
    Map::new(|k: Seq<char>| has_key(s, k), |k: Seq<char>| s[key_index(s, k)].1@)
}

/// Named values, each key once.
pub struct Statics {
    data: Vec<(String, ValueType)>,
}

impl View for Statics {
    type V = Map<Seq<char>, ValueView>;

    closed spec fn view(&self) -> Map<Seq<char>, ValueView> {
        entries_map(self.data@)
    }
}

proof fn lemma_index_of(s: Seq<(String, ValueType)>, i: int)
    requires
        keys_distinct(s),
        0 <= i < s.len(),
    ensures
        has_key(s, s[i].0@),
        key_index(s, s[i].0@) == i,
{
    assert(has_key(s, s[i].0@));
}

proof fn lemma_set_at(s: Seq<(String, ValueType)>, i: int, e: (String, ValueType))
    requires
        keys_distinct(s),
        0 <= i < s.len(),
        e.0@ == s[i].0@,
    ensures
        keys_distinct(s.update(i, e)),
        entries_map(s.update(i, e)) == entries_map(s).insert(e.0@, e.1@),
{
    let t = s.update(i, e);
    assert forall|k: Seq<char>| has_key(t, k) == has_key(s, k) by {
        if has_key(t, k) {
            let j = key_index(t, k);
            assert(s[j].0@ == k);
        }
        if has_key(s, k) {
            let j = key_index(s, k);
            assert(t[j].0@ == k);
        }
    }
    assert forall|k: Seq<char>| has_key(t, k) && k != e.0@ implies key_index(t, k) == key_index(s, k) by {
        let j = key_index(s, k);
        lemma_index_of(s, j);
        assert(t[j].0@ == k);
        lemma_index_of(t, j);
    }
    lemma_index_of(t, i);
    assert(entries_map(t) =~= entries_map(s).insert(e.0@, e.1@));
}

proof fn lemma_push_new(s: Seq<(String, ValueType)>, e: (String, ValueType))
    requires
        keys_distinct(s),
        !has_key(s, e.0@),
    ensures
        keys_distinct(s.push(e)),
        entries_map(s.push(e)) == entries_map(s).insert(e.0@, e.1@),
{
    let t = s.push(e);
    assert forall|i: int| 0 <= i < s.len() implies s[i].0@ != e.0@ by {
        if s[i].0@ == e.0@ {
            assert(has_key(s, e.0@));
        }
    }
    assert forall|k: Seq<char>| has_key(t, k) == (has_key(s, k) || k == e.0@) by {
        if has_key(t, k) {
            let j = key_index(t, k);
            if j < s.len() {
                assert(s[j].0@ == k);
            }
        }
        if has_key(s, k) {
            let j = key_index(s, k);
            assert(t[j].0@ == k);
        }
        if k == e.0@ {
            assert(t[s.len() as int].0@ == k);
        }
    }
    assert forall|k: Seq<char>| has_key(s, k) implies key_index(t, k) == key_index(s, k) by {
        let j = key_index(s, k);
        lemma_index_of(s, j);
        assert(t[j].0@ == k);
        lemma_index_of(t, j);
    }
    lemma_index_of(t, s.len() as int);
    assert(entries_map(t) =~= entries_map(s).insert(e.0@, e.1@));
}

/// The map that inserting the pairs in order builds: a later pair replaces an earlier one
/// with the same key.
pub open spec fn inserted_all(pairs: Seq<(String, ValueType)>) -> Map<Seq<char>, ValueView>
    decreases pairs.len(),
{
    if pairs.len() == 0 {
        Map::empty()
    } else {
        inserted_all(pairs.drop_last()).insert(pairs.last().0@, pairs.last().1@)
    }
}

impl Statics {
    /// Whether no key is held twice.
    pub closed spec fn wf(&self) -> bool {
        keys_distinct(self.data@)
    }

    /// An empty set of values.
    pub fn new() -> (r: Self)
        ensures
            r.wf(),
            r@ == Map::<Seq<char>, ValueView>::empty(),
    {
        let r = Statics { data: Vec::new() };
        assert(r@ =~= Map::<Seq<char>, ValueView>::empty());
        r
    }

    /// The values given as pairs, inserted in order: a later pair replaces an earlier one
    /// with the same key.
    pub fn from(data: Vec<(String, ValueType)>) -> (r: Self)
        ensures
            r.wf(),
            r@ == inserted_all(data@),
    {
        let mut r = Statics::new();
        let mut rest = data;
        let ghost all = rest@;
        let ghost mut n: int = 0;
        while rest.len() > 0
            invariant
                r.wf(),
                0 <= n <= all.len(),
                rest@ == all.skip(n),
                r@ == inserted_all(all.take(n)),
            decreases rest@.len(),
        {
            let (k, v) = rest.remove(0);
            proof {
                assert(all.take(n + 1).drop_last() =~= all.take(n));
                assert(all.take(n + 1).last() == all[n]);
            }
            r.add(k, v);
            proof {
                n = n + 1;
                assert(rest@ =~= all.skip(n));
            }
        }
        assert(all.take(all.len() as int) =~= all);
        r
    }

    /// Set `key` to `value`, returning the value it replaces.
    pub fn add(&mut self, key: String, value: ValueType) -> (r: Option<ValueType>)
        requires
            old(self).wf(),
        ensures
            final(self).wf(),
            final(self)@ == old(self)@.insert(key@, value@),
            match r {
                Some(v) => old(self)@.contains_key(key@) && v@ == old(self)@[key@],
                None => !old(self)@.contains_key(key@),
            },
    {
        let ghost s = self.data@;
        let mut i: usize = 0;
        while i < self.data.len()
            invariant
                self.data@ == s,
                old(self).data@ == s,
                keys_distinct(s),
                i <= s.len(),
                forall|j: int| 0 <= j < i ==> s[j].0@ != key@,
            decreases s.len() - i,
        {
            if str_eq(self.data[i].0.as_str(), key.as_str()) {
                let ghost e = (key, value);
                let old_entry = self.data.remove(i);
                self.data.insert(i, (key, value));
                proof {
                    assert(self.data@ =~= s.update(i as int, e));
                    lemma_index_of(s, i as int);
                    lemma_set_at(s, i as int, e);
                }
                return Some(old_entry.1);
            }
            i = i + 1;
        }
        proof {
            if has_key(s, key@) {
                let j = key_index(s, key@);
                assert(s[j].0@ == key@);
            }
            lemma_push_new(s, (key, value));
        }
        self.data.push((key, value));
        None
    }

    /// The value under `name`, if any.
    fn get(&self, name: &str) -> (r: Option<&ValueType>)
        requires
            self.wf(),
        ensures
            match r {
                Some(v) => self@.contains_key(name@) && v@ == self@[name@],
                None => !self@.contains_key(name@),
            },
    {
        let mut i: usize = 0;
        while i < self.data.len()
            invariant
                keys_distinct(self.data@),
                i <= self.data@.len(),
                forall|j: int| 0 <= j < i ==> self.data@[j].0@ != name@,
            decreases self.data@.len() - i,
        {
            if str_eq(self.data[i].0.as_str(), name) {
                proof {
                    lemma_index_of(self.data@, i as int);
                }
                return Some(&self.data[i].1);
            }
            i = i + 1;
        }
        proof {
            if has_key(self.data@, name@) {
                let j = key_index(self.data@, name@);
                assert(self.data@[j].0@ == name@);
            }
        }
        None
    }

    /// The integer under `name`; `None` when there is none or it holds another type.
    pub fn get_int(&self, name: &str) -> (r: Option<i128>)
        requires
            self.wf(),
        ensures
            r == (match self@.get(name@) {
                Some(ValueView::Int(i)) => Some(i),
                _ => None,
            }),
    {
        match self.get(name) {
            Some(ValueType::Int(i)) => Some(*i),
            _ => None,
        }
    }

    /// The IEEE 754 bits of the float under `name`; `None` when there is none or it holds
    /// another type.
    pub fn get_float_bits(&self, name: &str) -> (r: Option<u64>)
        requires
            self.wf(),
        ensures
            r == (match self@.get(name@) {
                Some(ValueView::FloatBits(b)) => Some(b),
                _ => None,
            }),
    {
        match self.get(name) {
            Some(ValueType::FloatBits(b)) => Some(*b),
            _ => None,
        }
    }

    /// A copy of the string under `name`; `None` when there is none or it holds another
    /// type.
    pub fn get_string(&self, name: &str) -> (r: Option<String>)
        requires
            self.wf(),
        ensures
            (match self@.get(name@) {
                Some(ValueView::Str(s)) => r matches Some(t) && t@ == s,
                _ => r is None,
            }),
    {
        match self.get(name) {
            Some(ValueType::String(s)) => Some(s.clone()),
            _ => None,
        }
    }

    /// The boolean under `name`; `None` when there is none or it holds another type.
    pub fn get_bool(&self, name: &str) -> (r: Option<bool>)
        requires
            self.wf(),
        ensures
            r == (match self@.get(name@) {
                Some(ValueView::Bool(b)) => Some(b),
                _ => None,
            }),
    {
        match self.get(name) {
            Some(ValueType::Bool(b)) => Some(*b),
            _ => None,
        }
    }
}

} // verus!
