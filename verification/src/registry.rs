//! Session-level module names: collision-free tab names.

use vstd::prelude::*;
use vstd::set_lib::{lemma_int_range, lemma_len_subset, lemma_map_size, set_int_range};

use crate::text::{dec, decimal, lemma_dec_injective};

verus! {

/// The character views of a list of strings.
pub open spec fn views(s: Seq<String>) -> Seq<Seq<char>> {
    s.map_values(|x: String| x@)
}

/// The suffixed variant `"{name} ({n})"` of a repeated name.
pub open spec fn candidate(name: Seq<char>, n: nat) -> Seq<char> {
    name + seq![' ', '('] + dec(n) + seq![')']
}

/// The name chosen for `name` when the names chosen so far are `prev` and the whole batch
/// is `all`: the name itself when it is still free, otherwise its first suffixed variant
/// `"{name} ({n})"`, `n = 2, 3, ...`, that is neither chosen already nor a name anywhere
/// in the batch (so that a later first occurrence still keeps its name).
pub open spec fn dedupe_step(
    prev: Seq<Seq<char>>,
    all: Seq<Seq<char>>,
    name: Seq<char>,
    chosen: Seq<char>,
) -> bool {
    if !prev.contains(name) {
        chosen == name
    } else {
        exists|n: nat|
            #![trigger candidate(name, n)]
            n >= 2 && chosen == candidate(name, n) && !prev.contains(chosen) && !all.contains(chosen)
                && forall|k: nat|
                2 <= k < n ==> (prev + all).contains(#[trigger] candidate(name, k))
    }
}

/// Different suffix numbers give different variants of a name.
pub proof fn lemma_candidate_injective(name: Seq<char>, a: nat, b: nat)
    requires
        candidate(name, a) == candidate(name, b),
    ensures
        a == b,
{
    let ca = candidate(name, a);
    let cb = candidate(name, b);
    assert(ca.len() == name.len() + 3 + dec(a).len());
    assert(cb.len() == name.len() + 3 + dec(b).len());
    assert(ca.subrange(name.len() + 2int, ca.len() - 1) =~= dec(a));
    assert(cb.subrange(name.len() + 2int, cb.len() - 1) =~= dec(b));
    lemma_dec_injective(a, b);
}

/// A list holding the variants `2..n` of a name has at least `n - 2` entries.
pub proof fn lemma_candidates_bound(name: Seq<char>, s: Seq<Seq<char>>, n: int)
    requires
        n >= 2,
        forall|k: nat| 2 <= k < n ==> s.contains(#[trigger] candidate(name, k)),
    ensures
        n - 2 <= s.len(),
{
    let x = set_int_range(2, n);
    let f = |k: int| candidate(name, k as nat);
    let y = x.map(f);
    lemma_int_range(2, n);
    assert(vstd::relations::injective_on(f, x)) by {
        assert forall|a: int, b: int| x.contains(a) && x.contains(b) && #[trigger] f(a) == #[trigger] f(b) implies a == b by {
            lemma_candidate_injective(name, a as nat, b as nat);
        }
    }
    lemma_map_size(x, y, f);
    assert(y.subset_of(s.to_set())) by {
        assert forall|e: Seq<char>| y.contains(e) implies s.to_set().contains(e) by {
            let k = choose|k: int| x.contains(k) && f(k) == e;
            assert(s.contains(candidate(name, k as nat)));
        }
    }
    vstd::seq_lib::seq_to_set_is_finite(s);
    lemma_len_subset(y, s.to_set());
    s.lemma_cardinality_of_set();
}

/// Whether `list` holds a string equal to `x`.
fn contains_string(list: &[String], x: &String) -> (r: bool)
    ensures
        r == views(list@).contains(x@),
{
    let mut i: usize = 0;
    while i < list.len()
        invariant
            i <= list@.len(),
            forall|k: int| 0 <= k < i ==> (#[trigger] list@[k])@ != x@,
        decreases list@.len() - i,
    {
        if list[i] == *x {
            assert(views(list@)[i as int] == x@);
            return true;
        }
        i = i + 1;
    }
    assert forall|k: int| 0 <= k < views(list@).len() implies #[trigger] views(list@)[k] != x@ by {
        assert(views(list@)[k] == list@[k]@);
    }
    false
}

/// The suffixed variant `"{name} ({n})"`.
fn candidate_name(name: &String, n: usize) -> (r: String)
    ensures
        r@ == candidate(name@, n as nat),
{
    let mut s = name.clone();
    proof {
        reveal_strlit(" (");
        reveal_strlit(")");
    }
    s.append(" (");
    let digits = decimal(n as u64);
    s.append(digits.as_str());
    s.append(")");
    s
}

/// Resolve name collisions for a batch of tab names built in order (session load): the
/// first occurrence of a name keeps it, later duplicates get ` (2)`, ` (3)`, ...
/// suffixes, skipping any candidate that collides with a name of the batch or a name
/// chosen earlier. The names returned are pairwise distinct.
pub fn dedupe_names(names: &[String]) -> (out: Vec<String>)
    requires
        names@.len() < usize::MAX / 2,
    ensures
        out@.len() == names@.len(),
        forall|i: int|
            0 <= i < names@.len() ==> dedupe_step(
                views(out@).take(i),
                views(names@),
                (#[trigger] names@[i])@,
                out@[i]@,
            ),
        forall|i: int, j: int| 0 <= i < j < out@.len() ==> (#[trigger] out@[i])@ != (#[trigger] out@[j])@,
        forall|i: int|
            0 <= i < names@.len() && (forall|j: int| 0 <= j < i ==> names@[j]@ != names@[i]@)
                ==> (#[trigger] out@[i])@ == names@[i]@,
        forall|i: int, j: int|
            #![trigger out@[i], names@[j]]
            0 <= j < i < names@.len() && names@[j]@ == names@[i]@ ==> out@[i]@ != names@[i]@,
{
    let ghost all = views(names@);
    let mut out: Vec<String> = Vec::new();
    let mut i: usize = 0;
    while i < names.len()
        invariant
            i <= names@.len(),
            names@.len() < usize::MAX / 2,
            all == views(names@),
            out@.len() == i,
            forall|m: int|
                0 <= m < i ==> dedupe_step(views(out@).take(m), all, (#[trigger] names@[m])@, out@[m]@),
            forall|a: int, b: int| 0 <= a < b < out@.len() ==> (#[trigger] out@[a])@ != (#[trigger] out@[b])@,
            forall|m: int| 0 <= m < i ==> (#[trigger] out@[m])@ == names@[m]@ || !all.contains(out@[m]@),
        decreases names@.len() - i,
    {
        let name = &names[i];
        let ghost prev = views(out@);
        let ghost old_out = out@;
        proof {
            assert(all[i as int] == name@);
            assert(all.contains(name@));
        }
        if !contains_string(out.as_slice(), name) {
            out.push(name.clone());
            proof {
                assert(views(out@).take(i as int) =~= prev);
                assert forall|a: int, b: int| 0 <= a < b < out@.len() implies (#[trigger] out@[a])@ != (#[trigger] out@[b])@ by {
                    if b == i {
                        assert(views(out@).take(i as int)[a] == out@[a]@);
                        assert(prev.contains(out@[a]@));
                    } else {
                        assert(views(out@).take(i as int)[a] == out@[a]@);
                        assert(views(out@).take(i as int)[b] == out@[b]@);
                    }
                }
            }
        } else {
            let mut n: usize = 2;
            loop
                invariant_except_break
                    out@.len() == i,
                    prev == views(out@),
                invariant
                    i < names@.len(),
                    names@.len() < usize::MAX / 2,
                    all == views(names@),
                    prev.len() == i,
                    prev.contains(name@),
                    2 <= n,
                    forall|k: nat| 2 <= k < n ==> (prev + all).contains(#[trigger] candidate(name@, k)),
                ensures
                    out@.len() == i + 1,
                    views(out@).take(i as int) == prev,
                    dedupe_step(prev, all, name@, out@[i as int]@),
                    !prev.contains(out@[i as int]@),
                    !all.contains(out@[i as int]@),
                decreases i + names@.len() + 2 - n,
            {
                let cand = candidate_name(name, n);
                if !contains_string(out.as_slice(), &cand) && !contains_string(names, &cand) {
                    out.push(cand);
                    proof {
                        assert(views(out@).take(i as int) =~= prev);
                        assert(out@[i as int]@ == candidate(name@, n as nat));
                        assert(dedupe_step(prev, all, name@, candidate(name@, n as nat)));
                    }
                    break;
                }
                proof {
                    assert((prev + all).contains(candidate(name@, n as nat))) by {
                        if prev.contains(candidate(name@, n as nat)) {
                            let w = choose|w: int| 0 <= w < prev.len() && prev[w] == candidate(name@, n as nat);
                            assert((prev + all)[w] == prev[w]);
                        } else {
                            let w = choose|w: int| 0 <= w < all.len() && all[w] == candidate(name@, n as nat);
                            assert((prev + all)[prev.len() + w] == all[w]);
                        }
                    }
                    lemma_candidates_bound(name@, prev + all, n + 1);
                }
                n = n + 1;
            }
            proof {
                assert forall|a: int, b: int| 0 <= a < b < out@.len() implies (#[trigger] out@[a])@ != (#[trigger] out@[b])@ by {
                    if b == i {
                        assert(views(out@).take(i as int)[a] == out@[a]@);
                        assert(prev.contains(out@[a]@));
                    } else {
                        assert(views(out@).take(i as int)[a] == out@[a]@);
                        assert(views(out@).take(i as int)[b] == out@[b]@);
                    }
                }
            }
        }
        proof {
            assert(views(out@).take(i as int) =~= prev);
            assert forall|m: int| 0 <= m <= i implies dedupe_step(
                views(out@).take(m),
                all,
                (#[trigger] names@[m])@,
                out@[m]@,
            ) by {
                if m < i {
                    assert(views(out@).take(i as int)[m] == prev[m]);
                    assert(out@[m]@ == old_out[m]@);
                    assert(views(out@).take(m) =~= views(old_out).take(m));
                }
            }
            assert forall|m: int| 0 <= m <= i implies (#[trigger] out@[m])@ == names@[m]@ || !all.contains(out@[m]@) by {
                if m < i {
                    assert(views(out@).take(i as int)[m] == prev[m]);
                    assert(prev[m] == old_out[m]@);
                }
            }
        }
        i = i + 1;
    }
    proof {
        assert forall|i: int|
            0 <= i < names@.len() && (forall|j: int| 0 <= j < i ==> names@[j]@ != names@[i]@)
                implies (#[trigger] out@[i])@ == names@[i]@ by {
            let prev = views(out@).take(i);
            assert(all[i] == names@[i]@);
            if prev.contains(names@[i]@) {
                let w = choose|w: int| 0 <= w < prev.len() && prev[w] == names@[i]@;
                assert(prev[w] == out@[w]@);
                assert(all.contains(names@[i]@));
            }
        }
        assert forall|i: int, j: int|
            #![trigger out@[i], names@[j]]
            0 <= j < i < names@.len() && names@[j]@ == names@[i]@ implies out@[i]@ != names@[i]@ by {
            let j0 = lemma_first_occurrence(all, j);
            assert(all[j0] == names@[j0]@);
            assert forall|k: int| 0 <= k < j0 implies names@[k]@ != names@[j0]@ by {
                assert(all[k] == names@[k]@);
            }
            assert(out@[j0]@ == names@[j0]@);
        }
    }
    out
}

/// The position of the first entry of `s` equal to `s[j]`.
proof fn lemma_first_occurrence(s: Seq<Seq<char>>, j: int) -> (j0: int)
    requires
        0 <= j < s.len(),
    ensures
        0 <= j0 <= j,
        s[j0] == s[j],
        forall|k: int| 0 <= k < j0 ==> s[k] != s[j],
    decreases j,
{
    if exists|k: int| 0 <= k < j && s[k] == s[j] {
        let k = choose|k: int| 0 <= k < j && s[k] == s[j];
        lemma_first_occurrence(s, k)
    } else {
        j
    }
}

} // verus!
