//! Lists of `(label, value)` pairs keyed by their label, the form in which
//! the library holds the maps of the paystubs and of the store.
use vstd::prelude::*;
use crate::text::{chars_of, text_less, text_lt, lemma_text_lt_irreflexive, lemma_text_lt_transitive};

verus! {

/// The mathematical form of a list of text pairs.
pub open spec fn text_pairs_view(s: Seq<(String, String)>) -> Seq<(Seq<char>, Seq<char>)> {
    s.map_values(|p: (String, String)| (p.0@, p.1@))
}

/// The mathematical form of a list of `(label, number)` pairs.
pub open spec fn number_pairs_view(s: Seq<(String, u32)>) -> Seq<(Seq<char>, u32)> {
    s.map_values(|p: (String, u32)| (p.0@, p.1))
}

/// The labels of a list of pairs, in order.
pub open spec fn labels<V>(s: Seq<(String, V)>) -> Seq<Seq<char>> {
    s.map_values(|p: (String, V)| p.0@)
}

/// No label occurs twice in the list.
pub open spec fn unique_labels<V>(s: Seq<(String, V)>) -> bool {
    forall|i: int, j: int|
        0 <= i < s.len() && 0 <= j < s.len() && i != j ==> #[trigger] s[i].0@ != #[trigger] s[j].0@
}

/// The label occurs in the list.
pub open spec fn has_label<V>(s: Seq<(String, V)>, k: Seq<char>) -> bool {
    exists|i: int| 0 <= i < s.len() && #[trigger] s[i].0@ == k
}

/// The position of the first pair whose label is `k`.
pub open spec fn first_with_label<V>(s: Seq<(String, V)>, k: Seq<char>) -> int
    recommends
        has_label(s, k),
{
    choose|i: int|
        0 <= i < s.len() && s[i].0@ == k && forall|j: int| 0 <= j < i ==> #[trigger] s[j].0@ != k
}

/// The list after `(k, v)` was put in it: the first pair labelled `k` takes
/// the value `v`, or the pair is added at the end when no pair has that label.
pub open spec fn put<V>(s: Seq<(String, V)>, k: String, v: V) -> Seq<(String, V)> {
    if has_label(s, k@) {
        let i = first_with_label(s, k@);
        s.update(i, (s[i].0, v))
    } else {
        s.push((k, v))
    }
}

/// The value of the first pair labelled `k`, if any.
pub open spec fn value_of<V>(s: Seq<(String, V)>, k: Seq<char>) -> Option<V> {
    if has_label(s, k) {
        Some(s[first_with_label(s, k)].1)
    } else {
        None
    }
}

pub proof fn lemma_first_with_label<V>(s: Seq<(String, V)>, k: Seq<char>, i: int)
    requires
        0 <= i < s.len(),
        s[i].0@ == k,
        forall|j: int| 0 <= j < i ==> #[trigger] s[j].0@ != k,
    ensures
        has_label(s, k),
        first_with_label(s, k) == i,
{
    let f = first_with_label(s, k);
    if f < i {
        assert(s[f].0@ != k);
    } else if f > i {
        assert(s[i].0@ != k);
    }
}

/// The position of the first pair labelled `k`, or `None` when no pair is.
pub fn find_label<V>(v: &Vec<(String, V)>, k: &String) -> (r: Option<usize>)
    ensures
        match r {
            Some(i) => {
                &&& i < v@.len()
                &&& v@[i as int].0@ == k@
                &&& has_label(v@, k@)
                &&& i == first_with_label(v@, k@)
            },
            None => !has_label(v@, k@),
        },
{
    let mut i: usize = 0;
    while i < v.len()
        invariant
            i <= v.len(),
            forall|j: int| 0 <= j < i ==> #[trigger] v@[j].0@ != k@,
        decreases v.len() - i,
    {
        if v[i].0 == *k {
            proof {
                lemma_first_with_label(v@, k@, i as int);
            }
            return Some(i);
        }
        i = i + 1;
    }
    None
}

/// Puts `(k, value)` in the list: the first pair labelled `k` takes the value,
/// or the pair is added at the end.
pub fn put_pair<V>(v: &mut Vec<(String, V)>, k: String, value: V)
    ensures
        final(v)@ == put(old(v)@, k, value),
{
    match find_label(v, &k) {
        Some(i) => {
            let key = v[i].0.clone();
            v.set(i, (key, value));
        },
        None => {
            v.push((k, value));
        },
    }
}

pub proof fn lemma_put_keeps_unique<V>(s: Seq<(String, V)>, k: String, v: V)
    requires
        unique_labels(s),
    ensures
        unique_labels(put(s, k, v)),
        has_label(put(s, k, v), k@),
        value_of(put(s, k, v), k@) == Some(v),
        forall|q: Seq<char>| q != k@ ==> value_of(put(s, k, v), q) == value_of(s, q),
{
    let t = put(s, k, v);
    if has_label(s, k@) {
        let i = first_with_label(s, k@);
        assert(t[i].0@ == k@);
        lemma_first_with_label(t, k@, i);
        assert forall|q: Seq<char>| q != k@ implies value_of(t, q) == value_of(s, q) by {
            if has_label(s, q) {
                let j = first_with_label(s, q);
                assert(t[j].0@ == q);
                lemma_first_with_label(t, q, j);
            } else {
                if has_label(t, q) {
                    let j = choose|j: int| 0 <= j < t.len() && #[trigger] t[j].0@ == q;
                    assert(s[j].0@ == q);
                }
            }
        }
    } else {
        let n = s.len() as int;
        assert(t[n].0@ == k@);
        assert forall|j: int| 0 <= j < n implies #[trigger] t[j].0@ != k@ by {
            assert(s[j].0@ != k@);
        }
        lemma_first_with_label(t, k@, n);
        assert forall|q: Seq<char>| q != k@ implies value_of(t, q) == value_of(s, q) by {
            if has_label(s, q) {
                let j = first_with_label(s, q);
                assert(t[j].0@ == q);
                lemma_first_with_label(t, q, j);
            } else {
                if has_label(t, q) {
                    let j = choose|j: int| 0 <= j < t.len() && #[trigger] t[j].0@ == q;
                    assert(j != n);
                    assert(s[j].0@ == q);
                }
            }
        }
    }
}

/// A copy of a list of text pairs.
pub fn clone_text_pairs(v: &Vec<(String, String)>) -> (r: Vec<(String, String)>)
    ensures
        r@ == v@,
{
    let mut r: Vec<(String, String)> = Vec::new();
    let mut i: usize = 0;
    while i < v.len()
        invariant
            i <= v.len(),
            r@ == v@.take(i as int),
        decreases v.len() - i,
    {
        let k = v[i].0.clone();
        let x = v[i].1.clone();
        r.push((k, x));
        assert(v@.take(i as int).push(v@[i as int]) =~= v@.take(i + 1));
        i = i + 1;
    }
    assert(v@.take(v.len() as int) =~= v@);
    r
}

/// A copy of a list of `(label, number)` pairs.
pub fn clone_number_pairs(v: &Vec<(String, u32)>) -> (r: Vec<(String, u32)>)
    ensures
        r@ == v@,
{
    let mut r: Vec<(String, u32)> = Vec::new();
    let mut i: usize = 0;
    while i < v.len()
        invariant
            i <= v.len(),
            r@ == v@.take(i as int),
        decreases v.len() - i,
    {
        let k = v[i].0.clone();
        r.push((k, v[i].1));
        assert(v@.take(i as int).push(v@[i as int]) =~= v@.take(i + 1));
        i = i + 1;
    }
    assert(v@.take(v.len() as int) =~= v@);
    r
}


/// The labels of `s` never decrease (in the order of `text_lt`).
pub open spec fn sorted_by_label<V>(s: Seq<(String, V)>) -> bool {
    forall|i: int, j: int| 0 <= i < j < s.len() ==> !text_lt(#[trigger] s[j].0@, #[trigger] s[i].0@)
}

/// An empty sequence holds nothing.
proof fn lemma_empty_to_multiset<A>(s: Seq<A>)
    requires
        s.len() == 0,
    ensures
        s.to_multiset() =~= vstd::multiset::Multiset::<A>::empty(),
{
    broadcast use vstd::multiset::group_multiset_axioms;
    assert forall|a: A| s.to_multiset().count(a) == 0 by {
        vstd::seq_lib::to_multiset_contains(s, a);
    }
}

/// The text pairs of `v`, ordered by label (how the data of a paystub is
/// listed): the same pairs, each as many times, with labels that never
/// decrease.
pub fn sort_by_label(v: &Vec<(String, String)>) -> (r: Vec<(String, String)>)
    ensures
        r@.to_multiset() == v@.to_multiset(),
        sorted_by_label(r@),
{
    let mut rest = clone_text_pairs(v);
    let mut r: Vec<(String, String)> = Vec::new();
    proof {
        broadcast use vstd::multiset::group_multiset_axioms;
        lemma_empty_to_multiset(r@);
        assert(r@.to_multiset().add(rest@.to_multiset()) =~= v@.to_multiset());
    }
    while rest.len() > 0
        invariant
            r@.to_multiset().add(rest@.to_multiset()) == v@.to_multiset(),
            sorted_by_label(r@),
        decreases rest.len(),
    {
        let ghost before = rest@;
        let x = rest.pop().unwrap();
        proof {
            assert(before =~= rest@.push(x));
        }
        let xc = chars_of(x.0.as_str());
        let mut k: usize = 0;
        while k < r.len() && !text_less(&xc, &chars_of(r[k].0.as_str()))
            invariant
                k <= r@.len(),
                xc@ == x.0@,
                forall|i: int| 0 <= i < k ==> !text_lt(x.0@, #[trigger] r@[i].0@),
            decreases r.len() - k,
        {
            k = k + 1;
        }
        let ghost old_r = r@;
        r.insert(k, x);
        proof {
            broadcast use vstd::multiset::group_multiset_axioms;
            vstd::seq_lib::to_multiset_insert(old_r, k as int, x);
            vstd::seq_lib::to_multiset_build(rest@, x);
            assert(r@.to_multiset().add(rest@.to_multiset()) =~= old_r.to_multiset().add(before.to_multiset()));
            assert forall|i: int, j: int| 0 <= i < j < r@.len() implies !text_lt(#[trigger] r@[j].0@, #[trigger] r@[i].0@) by {
                if j < k {
                    assert(r@[i] == old_r[i] && r@[j] == old_r[j]);
                } else if j == k {
                    assert(r@[i] == old_r[i]);
                } else if i == k {
                    assert(r@[j] == old_r[j - 1]);
                    if text_lt(old_r[j - 1].0@, x.0@) {
                        if j - 1 == k {
                            lemma_text_lt_transitive(old_r[k as int].0@, x.0@, old_r[k as int].0@);
                            lemma_text_lt_irreflexive(old_r[k as int].0@);
                        } else {
                            lemma_text_lt_transitive(old_r[j - 1].0@, x.0@, old_r[k as int].0@);
                        }
                    }
                } else if i < k {
                    assert(r@[i] == old_r[i] && r@[j] == old_r[j - 1]);
                } else {
                    assert(r@[i] == old_r[i - 1] && r@[j] == old_r[j - 1]);
                }
            }
        }
    }
    proof {
        broadcast use vstd::multiset::group_multiset_axioms;
        lemma_empty_to_multiset(rest@);
        assert(r@.to_multiset().add(rest@.to_multiset()) =~= r@.to_multiset());
    }
    r
}

} // verus!
