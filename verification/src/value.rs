//! The values a store holds and the dictionaries that hold them.

use vstd::prelude::*;

verus! {

/// What a `Value` means: a finite tree whose inner nodes are dictionaries.
pub enum Tree {
    Text(Seq<char>),
    Int(i32),
    Float(u32),
    Dict(Seq<(Seq<char>, Tree)>),
}

/// What a `Mapping` means: its entries in the order they were first inserted.
pub type Dict = Seq<(Seq<char>, Tree)>;

/// A stored value: a string, an integer, a single-precision number held as its
/// IEEE-754 bit pattern, or a nested dictionary.
#[derive(Debug, PartialEq)]
pub enum Value {
    String(String),
    Int(i32),
    Float(u32),
    Mapping(Mapping),
}

/// One key with its value.
#[derive(Debug, PartialEq)]
pub struct Entry {
    pub key: String,
    pub value: Value,
}

/// A dictionary from string keys to values. No key occurs twice. The entries
/// keep the order in which their keys were first inserted, which is the
/// order of the snapshot; `==` compares entry by entry, in that order.
#[derive(Debug, PartialEq)]
pub struct Mapping {
    pub(crate) entries: Vec<Entry>,
}

/// The tree that a value stands for.
pub open spec fn tree_of(v: Value) -> Tree
    decreases v,
{
    match v {
        Value::String(s) => Tree::Text(s@),
        Value::Int(i) => Tree::Int(i),
        Value::Float(bits) => Tree::Float(bits),
        Value::Mapping(m) => Tree::Dict(dict_of_mapping(m)),
    }
}

/// The dictionary that a mapping stands for.
pub open(crate) spec fn dict_of_mapping(m: Mapping) -> Dict
    decreases m,
{
    dict_of(m.entries@)
}

/// The dictionary that a run of entries stands for.
pub open spec fn dict_of(entries: Seq<Entry>) -> Dict
    decreases entries,
{
    Seq::new(
        entries.len(),
        |i: int|
            if 0 <= i < entries.len() {
                (entries[i].key@, tree_of(entries[i].value))
            } else {
                (Seq::empty(), Tree::Int(0))
            },
    )
}

impl View for Value {
    type V = Tree;

    open spec fn view(&self) -> Tree {
        tree_of(*self)
    }
}

impl View for Entry {
    type V = (Seq<char>, Tree);

    open spec fn view(&self) -> (Seq<char>, Tree) {
        (self.key@, self.value@)
    }
}

impl View for Mapping {
    type V = Dict;

    open spec fn view(&self) -> Dict {
        dict_of_mapping(*self)
    }
}

} // verus!
