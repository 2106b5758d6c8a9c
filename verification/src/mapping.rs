//! The executable dictionary: a list of entries searched by key.

use vstd::prelude::*;
use crate::dict::{
    dict_same, dict_wf, erase, keys_of, lemma_erase_wf, lemma_position_is, lemma_upsert_wf, lookup,
    position, tree_same, tree_wf, upsert,
};
use crate::value::{Entry, Mapping, Tree, Value};

verus! {

/// A deep copy of `v`.
fn copy_value(v: &Value) -> (res: Value)
    ensures
        res@ == v@,
    decreases v,
{
    match v {
        Value::String(s) => Value::String(s.clone()),
        Value::Int(i) => Value::Int(*i),
        Value::Float(bits) => Value::Float(*bits),
        Value::Mapping(m) => Value::Mapping(copy_mapping(m)),
    }
}

/// A deep copy of `m`, entry by entry.
fn copy_mapping(m: &Mapping) -> (res: Mapping)
    ensures
        res@ == m@,
    decreases m,
{
    let mut entries: Vec<Entry> = Vec::new();
    let mut i: usize = 0;
    while i < m.entries.len()
        invariant
            i <= m.entries.len(),
            entries.len() == i,
            forall|j: int| 0 <= j < i ==> (#[trigger] entries[j])@ == m.entries[j]@,
        decreases m.entries.len() - i,
    {
        let e = &m.entries[i];
        let copy = Entry { key: e.key.clone(), value: copy_value(&e.value) };
        entries.push(copy);
        i += 1;
    }
    let res = Mapping { entries };
    assert(res@ =~= m@);
    res
}

/// Whether `a` and `b` are the same value, the order of entries set aside.
fn same_value(a: &Value, b: &Value) -> (r: bool)
    ensures
        r == tree_same(a@, b@),
    decreases a,
{
    match a {
        Value::String(s) => match b {
            Value::String(t) => *s == *t,
            _ => false,
        },
        Value::Int(i) => match b {
            Value::Int(j) => *i == *j,
            _ => false,
        },
        Value::Float(x) => match b {
            Value::Float(y) => *x == *y,
            _ => false,
        },
        Value::Mapping(m) => match b {
            Value::Mapping(n) => same_mapping(m, n),
            _ => false,
        },
    }
}

/// Whether `m` and `n` hold the same entries, in whatever order.
fn same_mapping(m: &Mapping, n: &Mapping) -> (r: bool)
    ensures
        r == dict_same(m@, n@),
    decreases m,
{
    let mut i: usize = 0;
    while i < m.entries.len()
        invariant
            i <= m.entries.len(),
            forall|k: int|
                0 <= k < i ==> 0 <= position(n@, (#[trigger] m@[k]).0) < n@.len() && tree_same(
                    m@[k].1,
                    n@[position(n@, m@[k].0)].1,
                ),
        decreases m.entries.len() - i,
    {
        let p = n.index_of(&m.entries[i].key);
        if p >= n.entries.len() {
            assert(!(position(n@, m@[i as int].0) < n@.len()));
            assert(!dict_same(m@, n@)) by {
                assert(Tree::Dict(m@)->Dict_0 == m@ && Tree::Dict(n@)->Dict_0 == n@);
            }
            return false;
        }
        if !same_value(&m.entries[i].value, &n.entries[p].value) {
            assert(!tree_same(m@[i as int].1, n@[position(n@, m@[i as int].0)].1));
            assert(!dict_same(m@, n@)) by {
                assert(Tree::Dict(m@)->Dict_0 == m@ && Tree::Dict(n@)->Dict_0 == n@);
            }
            return false;
        }
        i += 1;
    }
    let mut j: usize = 0;
    while j < n.entries.len()
        invariant
            j <= n.entries.len(),
            forall|k: int|
                0 <= k < j ==> 0 <= position(m@, (#[trigger] n@[k]).0) < m@.len() && tree_same(
                    m@[position(m@, n@[k].0)].1,
                    n@[k].1,
                ),
        decreases n.entries.len() - j,
    {
        let p = m.index_of(&n.entries[j].key);
        if p >= m.entries.len() {
            assert(!(position(m@, n@[j as int].0) < m@.len()));
            assert(!dict_same(m@, n@)) by {
                assert(Tree::Dict(m@)->Dict_0 == m@ && Tree::Dict(n@)->Dict_0 == n@);
            }
            return false;
        }
        if !same_value(&m.entries[p].value, &n.entries[j].value) {
            assert(!tree_same(m@[position(m@, n@[j as int].0)].1, n@[j as int].1));
            assert(!dict_same(m@, n@)) by {
                assert(Tree::Dict(m@)->Dict_0 == m@ && Tree::Dict(n@)->Dict_0 == n@);
            }
            return false;
        }
        j += 1;
    }
    assert(dict_same(m@, n@)) by {
        assert(Tree::Dict(m@)->Dict_0 == m@ && Tree::Dict(n@)->Dict_0 == n@);
    }
    true
}

impl Clone for Value {
    fn clone(&self) -> (res: Self)
        ensures
            res@ == self@,
    {
        copy_value(self)
    }
}

impl Clone for Entry {
    fn clone(&self) -> (res: Self)
        ensures
            res@ == self@,
    {
        Entry { key: self.key.clone(), value: copy_value(&self.value) }
    }
}

impl Clone for Mapping {
    fn clone(&self) -> (res: Self)
        ensures
            res@ == self@,
    {
        copy_mapping(self)
    }
}

impl Value {
    /// Every dictionary inside the value has distinct keys.
    pub open spec fn wf(&self) -> bool {
        tree_wf(self@)
    }

    /// Whether this is the same value as `other` when the order of entries
    /// is set aside: dictionaries count as the same where each holds every
    /// key of the other, with the same value. Single-precision numbers are
    /// compared by their bits.
    pub fn same_as(&self, other: &Value) -> (r: bool)
        ensures
            r == tree_same(self@, other@),
    {
        same_value(self, other)
    }
}

impl Mapping {
    /// This dictionary and every one nested in it have distinct keys.
    pub open spec fn wf(&self) -> bool {
        dict_wf(self@)
    }

    /// The empty dictionary.
    pub fn new() -> (m: Mapping)
        ensures
            m@ == Seq::<(Seq<char>, Tree)>::empty(),
            m.wf(),
    {
        let m = Mapping { entries: Vec::new() };
        assert(m@ =~= Seq::<(Seq<char>, Tree)>::empty());
        m
    }

    /// The number of entries.
    pub fn len(&self) -> (n: usize)
        ensures
            n == self@.len(),
    {
        self.entries.len()
    }

    /// Whether there is no entry.
    pub fn is_empty(&self) -> (b: bool)
        ensures
            b == (self@.len() == 0),
    {
        self.entries.len() == 0
    }

    /// Where the first entry with `key` stands, or `len()` when none does.
    pub fn index_of(&self, key: &String) -> (p: usize)
        ensures
            p == position(self@, key@),
    {
        let mut i: usize = 0;
        while i < self.entries.len()
            invariant
                i <= self.entries.len(),
                forall|j: int| 0 <= j < i ==> (#[trigger] self@[j]).0 != key@,
            decreases self.entries.len() - i,
        {
            if self.entries[i].key == *key {
                proof {
                    lemma_position_is(self@, key@, i as int);
                }
                return i;
            }
            i += 1;
        }
        proof {
            lemma_position_is(self@, key@, i as int);
        }
        i
    }

    /// Whether `key` has an entry.
    pub fn contains_key(&self, key: &String) -> (b: bool)
        ensures
            b == (lookup(self@, key@) is Some),
    {
        self.index_of(key) < self.entries.len()
    }

    /// The value stored under `key`, if any.
    pub fn get(&self, key: &String) -> (r: Option<&Value>)
        ensures
            match r {
                Some(v) => lookup(self@, key@) == Some(v@),
                None => lookup(self@, key@) is None,
            },
    {
        let p = self.index_of(key);
        if p < self.entries.len() {
            Some(&self.entries[p].value)
        } else {
            None
        }
    }

    /// Stores `value` under `key`, replacing the value of an entry that is
    /// already there and appending a new entry otherwise.
    pub fn insert(&mut self, key: String, value: Value)
        ensures
            final(self)@ == upsert(old(self)@, key@, value@),
            old(self).wf() && value.wf() ==> final(self).wf(),
    {
        let ghost k = key@;
        let ghost v = value@;
        let p = self.index_of(&key);
        if p < self.entries.len() {
            self.entries.set(p, Entry { key, value });
        } else {
            self.entries.push(Entry { key, value });
        }
        proof {
            assert(self@ =~= upsert(old(self)@, k, v));
            if old(self).wf() && tree_wf(v) {
                lemma_upsert_wf(old(self)@, k, v);
            }
        }
    }

    /// Removes the entry for `key` and returns its value; does nothing where
    /// the key is absent.
    pub fn remove(&mut self, key: &String) -> (r: Option<Value>)
        ensures
            final(self)@ == erase(old(self)@, key@),
            match r {
                Some(v) => lookup(old(self)@, key@) == Some(v@),
                None => lookup(old(self)@, key@) is None,
            },
            old(self).wf() ==> final(self).wf(),
    {
        let p = self.index_of(key);
        let r = if p < self.entries.len() {
            let e = self.entries.remove(p);
            Some(e.value)
        } else {
            None
        };
        proof {
            assert(self@ =~= erase(old(self)@, key@));
            if old(self).wf() {
                lemma_erase_wf(old(self)@, key@);
            }
        }
        r
    }

    /// Whether this dictionary holds the same entries as `other`, in
    /// whatever order.
    pub fn same_as(&self, other: &Mapping) -> (r: bool)
        ensures
            r == dict_same(self@, other@),
    {
        same_mapping(self, other)
    }

    /// The keys, in entry order.
    pub fn keys(&self) -> (ks: Vec<String>)
        ensures
            ks.deep_view() == keys_of(self@),
    {
        let mut ks: Vec<String> = Vec::new();
        let mut i: usize = 0;
        while i < self.entries.len()
            invariant
                i <= self.entries.len(),
                ks.len() == i,
                forall|j: int| 0 <= j < i ==> (#[trigger] ks[j])@ == self@[j].0,
            decreases self.entries.len() - i,
        {
            ks.push(self.entries[i].key.clone());
            i += 1;
        }
        assert(ks.deep_view() =~= keys_of(self@));
        ks
    }
}

} // verus!
