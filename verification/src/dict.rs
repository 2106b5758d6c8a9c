//! Dictionaries as mathematics: lookup, insertion and removal on a sequence of
//! keyed trees, and what holds of them.

use vstd::prelude::*;
use crate::value::{Dict, Tree};

verus! {

/// Some entry of `d` has the key `k`.
pub open spec fn has_key(d: Dict, k: Seq<char>) -> bool {
    exists|i: int| 0 <= i < d.len() && (#[trigger] d[i]).0 == k
}

/// The index of the first entry of `d` with the key `k`, or `d.len()` when
/// there is none.
pub open spec fn position(d: Dict, k: Seq<char>) -> int
    decreases d.len(),
{
    if d.len() == 0 {
        0
    } else {
        let p = position(d.drop_last(), k);
        if p < d.len() - 1 {
            p
        } else if d.last().0 == k {
            d.len() - 1
        } else {
            d.len() as int
        }
    }
}

/// The value stored under `k`, if any.
pub open spec fn lookup(d: Dict, k: Seq<char>) -> Option<Tree> {
    let p = position(d, k);
    if p < d.len() {
        Some(d[p].1)
    } else {
        None
    }
}

/// `d` with `v` stored under `k`: in the place of the old value where the key
/// was present, appended as a new last entry where it was not.
pub open spec fn upsert(d: Dict, k: Seq<char>, v: Tree) -> Dict {
    let p = position(d, k);
    if p < d.len() {
        d.update(p, (k, v))
    } else {
        d.push((k, v))
    }
}

/// `d` without the entry for `k`; `d` itself where the key is absent.
pub open spec fn erase(d: Dict, k: Seq<char>) -> Dict {
    let p = position(d, k);
    if p < d.len() {
        d.remove(p)
    } else {
        d
    }
}

/// The keys of `d`, in entry order.
pub open spec fn keys_of(d: Dict) -> Seq<Seq<char>> {
    Seq::new(d.len(), |i: int| d[i].0)
}

/// The unordered content of `d`: each key with the value `lookup` finds.
pub open spec fn as_map(d: Dict) -> Map<Seq<char>, Tree> {
    Map::new(|k: Seq<char>| has_key(d, k), |k: Seq<char>| d[position(d, k)].1)
}

/// No key occurs in two entries of `d`.
pub open spec fn distinct_keys(d: Dict) -> bool {
    forall|i: int, j: int| 0 <= i < j < d.len() ==> (#[trigger] d[i]).0 != (#[trigger] d[j]).0
}

/// Every dictionary inside `t`, at any depth, has distinct keys.
pub open spec fn tree_wf(t: Tree) -> bool
    decreases t,
{
    match t {
        Tree::Dict(d) => distinct_keys(d) && forall|i: int|
            0 <= i < d.len() ==> tree_wf((#[trigger] d[i]).1),
        _ => true,
    }
}

/// `d` and every dictionary nested in it have distinct keys.
pub open spec fn dict_wf(d: Dict) -> bool {
    tree_wf(Tree::Dict(d))
}

/// `a` and `b` are the same value when the order of entries is set aside:
/// equal where they are not dictionaries, and otherwise dictionaries in which
/// every key of either is a key of the other, with the same value in this
/// sense.
pub open spec fn tree_same(a: Tree, b: Tree) -> bool
    decreases a,
{
    match a {
        Tree::Dict(d) => {
            &&& b is Dict
            &&& forall|i: int|
                0 <= i < d.len() ==> 0 <= position(b->Dict_0, (#[trigger] d[i]).0)
                    < b->Dict_0.len() && tree_same(
                    d[i].1,
                    b->Dict_0[position(b->Dict_0, d[i].0)].1,
                )
            &&& forall|j: int|
                0 <= j < b->Dict_0.len() ==> 0 <= position(d, (#[trigger] b->Dict_0[j]).0)
                    < d.len() && tree_same(d[position(d, b->Dict_0[j].0)].1, b->Dict_0[j].1)
        },
        _ => a == b,
    }
}

/// Two dictionaries hold the same entries, in whatever order.
pub open spec fn dict_same(d: Dict, e: Dict) -> bool {
    tree_same(Tree::Dict(d), Tree::Dict(e))
}

/// `position` is the least index that holds `k`, and is `d.len()` exactly
/// when no entry does.
pub proof fn lemma_position(d: Dict, k: Seq<char>)
    ensures
        0 <= position(d, k) <= d.len(),
        forall|j: int| 0 <= j < position(d, k) ==> (#[trigger] d[j]).0 != k,
        position(d, k) < d.len() ==> d[position(d, k)].0 == k,
        position(d, k) < d.len() <==> has_key(d, k),
    decreases d.len(),
{
    if d.len() > 0 {
        let front = d.drop_last();
        lemma_position(front, k);
        assert forall|j: int| 0 <= j < position(d, k) implies (#[trigger] d[j]).0 != k by {
            if j < front.len() {
                assert(front[j] == d[j]);
            }
        }
        if position(d, k) < d.len() {
            assert(d[position(d, k)].0 == k) by {
                if position(front, k) < front.len() {
                    assert(front[position(front, k)] == d[position(front, k)]);
                }
            }
        }
    }
}

/// An index that holds `k` and has no earlier entry with `k` is `position`.
pub proof fn lemma_position_is(d: Dict, k: Seq<char>, p: int)
    requires
        0 <= p <= d.len(),
        forall|j: int| 0 <= j < p ==> (#[trigger] d[j]).0 != k,
        p < d.len() ==> d[p].0 == k,
    ensures
        position(d, k) == p,
{
    lemma_position(d, k);
    let q = position(d, k);
    if q < p {
        assert(d[q].0 != k);
    } else if p < q {
        assert(d[p].0 != k);
    }
}

/// Storing a well-formed value in a well-formed dictionary keeps it so.
pub proof fn lemma_upsert_wf(d: Dict, k: Seq<char>, v: Tree)
    requires
        dict_wf(d),
        tree_wf(v),
    ensures
        dict_wf(upsert(d, k, v)),
{
    lemma_position(d, k);
    let p = position(d, k);
    let u = upsert(d, k, v);
    assert forall|i: int, j: int| 0 <= i < j < u.len() implies (#[trigger] u[i]).0 != (
    #[trigger] u[j]).0 by {
        if p < d.len() {
            assert(u[i].0 == d[i].0);
            assert(u[j].0 == d[j].0);
        } else if j < d.len() {
            assert(u[i] == d[i] && u[j] == d[j]);
        } else {
            assert(u[i] == d[i]);
        }
    }
    assert forall|i: int| 0 <= i < u.len() implies tree_wf((#[trigger] u[i]).1) by {
        if i != p {
            assert(u[i] == d[i]);
        }
    }
}

/// Removing a key keeps a well-formed dictionary well-formed.
pub proof fn lemma_erase_wf(d: Dict, k: Seq<char>)
    requires
        dict_wf(d),
    ensures
        dict_wf(erase(d, k)),
{
    lemma_position(d, k);
    let p = position(d, k);
    let e = erase(d, k);
    if p < d.len() {
        assert forall|i: int, j: int| 0 <= i < j < e.len() implies (#[trigger] e[i]).0 != (
        #[trigger] e[j]).0 by {
            let i0 = if i < p { i } else { i + 1 };
            let j0 = if j < p { j } else { j + 1 };
            assert(e[i] == d[i0] && e[j] == d[j0]);
        }
        assert forall|i: int| 0 <= i < e.len() implies tree_wf((#[trigger] e[i]).1) by {
            let i0 = if i < p { i } else { i + 1 };
            assert(e[i] == d[i0]);
        }
    }
}

/// Insert, then get: the value just stored under a key is the value found
/// under it, and every other key finds what it found before.
pub proof fn law_insert_then_get(d: Dict, k: Seq<char>, v: Tree, other: Seq<char>)
    ensures
        lookup(upsert(d, k, v), k) == Some(v),
        other != k ==> lookup(upsert(d, k, v), other) == lookup(d, other),
{
    lemma_position(d, k);
    lemma_position(d, other);
    let u = upsert(d, k, v);
    let p = position(d, k);
    assert forall|j: int| 0 <= j < p implies (#[trigger] u[j]).0 != k by {
        assert(u[j] == d[j]);
    }
    lemma_position_is(u, k, p);
    if other != k {
        let q = position(d, other);
        assert forall|j: int| 0 <= j < q implies (#[trigger] u[j]).0 != other by {
            if j != p {
                assert(u[j] == d[j]);
            }
        }
        if q < d.len() {
            assert(u[q] == d[q]);
            lemma_position_is(u, other, q);
        } else {
            assert forall|j: int| 0 <= j < u.len() implies (#[trigger] u[j]).0 != other by {
                if j != p {
                    assert(u[j] == d[j]);
                }
            }
            lemma_position_is(u, other, u.len() as int);
        }
    }
}

/// Remove, then get: in a dictionary with distinct keys a removed key is
/// absent, and every other key finds what it found before.
pub proof fn law_remove_then_get(d: Dict, k: Seq<char>, other: Seq<char>)
    requires
        distinct_keys(d),
    ensures
        lookup(erase(d, k), k) is None,
        other != k ==> lookup(erase(d, k), other) == lookup(d, other),
{
    lemma_position(d, k);
    lemma_position(d, other);
    let e = erase(d, k);
    let p = position(d, k);
    if p < d.len() {
        assert forall|j: int| 0 <= j < e.len() implies (#[trigger] e[j]).0 != k by {
            let j0 = if j < p { j } else { j + 1 };
            assert(e[j] == d[j0]);
            assert(d[j0].0 != d[p].0);
        }
        lemma_position_is(e, k, e.len() as int);
        if other != k {
            let q = position(d, other);
            let q1 = if q < p { q } else { q - 1 };
            assert forall|j: int| 0 <= j < q1 implies (#[trigger] e[j]).0 != other by {
                let j0 = if j < p { j } else { j + 1 };
                assert(e[j] == d[j0]);
            }
            if q < d.len() {
                assert(e[q1] == d[q]);
            }
            lemma_position_is(e, other, q1);
        }
    }
}

/// Removing an absent key changes nothing, and removing a key twice is
/// removing it once.
pub proof fn law_remove_idempotent(d: Dict, k: Seq<char>)
    ensures
        !has_key(d, k) ==> erase(d, k) == d,
        distinct_keys(d) ==> erase(erase(d, k), k) == erase(d, k),
{
    lemma_position(d, k);
    if distinct_keys(d) {
        law_remove_then_get(d, k, k);
        lemma_position(erase(d, k), k);
    }
}

/// The keys of a dictionary after an insert: the same keys where the key was
/// present, one more at the end where it was not.
pub proof fn law_keys_after_insert(d: Dict, k: Seq<char>, v: Tree)
    ensures
        has_key(d, k) ==> keys_of(upsert(d, k, v)) == keys_of(d),
        !has_key(d, k) ==> keys_of(upsert(d, k, v)) == keys_of(d).push(k),
{
    lemma_position(d, k);
    if has_key(d, k) {
        assert(keys_of(upsert(d, k, v)) =~= keys_of(d));
    } else {
        assert(keys_of(upsert(d, k, v)) =~= keys_of(d).push(k));
    }
}

/// Seen as an unordered map, `upsert` is the map's insert and `erase` on
/// distinct keys is the map's remove.
pub proof fn law_as_map(d: Dict, k: Seq<char>, v: Tree)
    ensures
        as_map(upsert(d, k, v)) == as_map(d).insert(k, v),
        distinct_keys(d) ==> as_map(erase(d, k)) == as_map(d).remove(k),
{
    let u = upsert(d, k, v);
    assert forall|x: Seq<char>| has_key(u, x) == (x == k || has_key(d, x)) by {
        law_insert_then_get(d, k, v, x);
        lemma_position(d, x);
        lemma_position(u, x);
    }
    assert forall|x: Seq<char>| has_key(u, x) implies #[trigger] as_map(u)[x] == as_map(d).insert(
        k,
        v,
    )[x] by {
        law_insert_then_get(d, k, v, x);
        lemma_position(d, x);
        lemma_position(u, x);
    }
    assert(as_map(u) =~= as_map(d).insert(k, v));
    if distinct_keys(d) {
        let e = erase(d, k);
        assert forall|x: Seq<char>| has_key(e, x) == (x != k && has_key(d, x)) by {
            law_remove_then_get(d, k, x);
            lemma_position(d, x);
            lemma_position(e, x);
        }
        assert forall|x: Seq<char>| has_key(e, x) implies #[trigger] as_map(e)[x] == as_map(
            d,
        ).remove(k)[x] by {
            law_remove_then_get(d, k, x);
            lemma_position(d, x);
            lemma_position(e, x);
        }
        assert(as_map(e) =~= as_map(d).remove(k));
    }
}

/// Dictionaries that are the same find the same under every key: nothing
/// under it in either, or values that are the same.
pub proof fn law_same_lookup(d: Dict, e: Dict, k: Seq<char>)
    requires
        dict_same(d, e),
    ensures
        lookup(d, k) is Some <==> lookup(e, k) is Some,
        lookup(d, k) is Some ==> tree_same(lookup(d, k)->0, lookup(e, k)->0),
{
    lemma_position(d, k);
    lemma_position(e, k);
    let p = position(d, k);
    let q = position(e, k);
    let a = Tree::Dict(d);
    let b = Tree::Dict(e);
    assert(a->Dict_0 == d && b->Dict_0 == e);
    assert(tree_same(a, b));
    if p < d.len() {
        assert(d[p].0 == k);
        assert(tree_same(d[p].1, e[position(e, d[p].0)].1));
    }
    if q < e.len() {
        assert(b->Dict_0[q].0 == k);
        assert(tree_same(d[position(d, e[q].0)].1, e[q].1));
    }
}

/// Every value is the same as itself, provided that no dictionary in it
/// holds a key twice.
pub proof fn law_same_reflexive(t: Tree)
    requires
        tree_wf(t),
    ensures
        tree_same(t, t),
    decreases t,
{
    match t {
        Tree::Dict(d) => {
            assert forall|i: int| 0 <= i < d.len() implies position(d, (#[trigger] d[i]).0) == i
                && tree_same(d[i].1, d[i].1) by {
                lemma_position(d, d[i].0);
                let p = position(d, d[i].0);
                if p < i {
                    assert(d[p].0 != d[i].0);
                }
                law_same_reflexive(d[i].1);
            }
        },
        _ => {},
    }
}

} // verus!
