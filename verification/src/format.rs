//! The snapshot format, as mathematics: the bytes of a dictionary, and the
//! dictionary that bytes spell.
//!
//! A dictionary is its entry count in eight bytes, then each entry in
//! order: the key, then the value. A string is its UTF-8 length in eight
//! bytes, then the UTF-8 bytes. A value is a four-byte tag, then its payload:
//! a string, the four bytes of an integer or of a single-precision number, or
//! a dictionary. Every number is big-endian.
//!
//! This is the layout that bincode's fixed-width big-endian encoding gives to
//! a hash map from strings to an enum with these four variants, so bytes
//! written that way read as snapshots here, and snapshots read that way.
//! Reading is stricter here: bytes that are cut short or followed by
//! anything, and a key that occurs twice in one dictionary, are refused.

use vstd::prelude::*;
use vstd::utf8::{decode_utf8, encode_utf8, valid_utf8};
use crate::dict::{has_key, tree_wf};
use crate::value::{Dict, Tree};
use crate::wire::{be32, be32_value, be64, be64_value, bits_int, int_bits};

verus! {

/// The tag of a string value.
pub const TAG_STRING: u32 = 0;

/// The tag of an integer value.
pub const TAG_INT: u32 = 1;

/// The tag of a single-precision value.
pub const TAG_FLOAT: u32 = 2;

/// The tag of a nested dictionary.
pub const TAG_MAPPING: u32 = 3;

/// The bytes of a string: length, then UTF-8.
pub open spec fn text_bytes(s: Seq<char>) -> Seq<u8> {
    be64(encode_utf8(s).len() as u64) + encode_utf8(s)
}

/// The bytes of a value: tag, then payload.
pub open spec fn tree_bytes(t: Tree) -> Seq<u8>
    decreases t,
{
    match t {
        Tree::Text(s) => be32(TAG_STRING) + text_bytes(s),
        Tree::Int(i) => be32(TAG_INT) + be32(int_bits(i)),
        Tree::Float(bits) => be32(TAG_FLOAT) + be32(bits),
        Tree::Dict(d) => be32(TAG_MAPPING) + (be64(d.len() as u64) + entries_bytes(d)),
    }
}

/// The bytes of a run of entries: each key followed by its value.
pub open spec fn entries_bytes(d: Dict) -> Seq<u8>
    decreases d,
{
    if d.len() == 0 {
        Seq::empty()
    } else {
        text_bytes(d[0].0) + tree_bytes(d[0].1) + entries_bytes(d.subrange(1, d.len() as int))
    }
}

/// The bytes of a dictionary: entry count, then the entries.
pub open spec fn dict_bytes(d: Dict) -> Seq<u8> {
    be64(d.len() as u64) + entries_bytes(d)
}

/// The length of the string's UTF-8 form fits the eight-byte length field.
pub open spec fn text_fits(s: Seq<char>) -> bool {
    encode_utf8(s).len() <= u64::MAX
}

/// Every length inside `t` fits its eight-byte field.
pub open spec fn tree_fits(t: Tree) -> bool
    decreases t,
{
    match t {
        Tree::Text(s) => text_fits(s),
        Tree::Dict(d) => d.len() <= u64::MAX && forall|i: int|
            0 <= i < d.len() ==> text_fits((#[trigger] d[i]).0) && tree_fits(d[i].1),
        _ => true,
    }
}

/// A dictionary that a snapshot can hold: keys distinct at every depth, and
/// every length within its field.
pub open spec fn representable(d: Dict) -> bool {
    tree_wf(Tree::Dict(d)) && tree_fits(Tree::Dict(d))
}

/// The 32-bit number at `pos`, with the position after it.
pub open spec fn parse_u32(b: Seq<u8>, pos: int) -> Option<(u32, int)> {
    if 0 <= pos && pos + 4 <= b.len() {
        Some((be32_value(b.subrange(pos, pos + 4)), pos + 4))
    } else {
        None
    }
}

/// The 64-bit number at `pos`, with the position after it.
pub open spec fn parse_u64(b: Seq<u8>, pos: int) -> Option<(u64, int)> {
    if 0 <= pos && pos + 8 <= b.len() {
        Some((be64_value(b.subrange(pos, pos + 8)), pos + 8))
    } else {
        None
    }
}

/// The string at `pos`, with the position after it; `None` where the bytes
/// run out or are not UTF-8.
pub open spec fn parse_text(b: Seq<u8>, pos: int) -> Option<(Seq<char>, int)> {
    match parse_u64(b, pos) {
        Some((n, p)) => if p + n <= b.len() && valid_utf8(b.subrange(p, p + n)) {
            Some((decode_utf8(b.subrange(p, p + n)), p + n))
        } else {
            None
        },
        None => None,
    }
}

/// The value at `pos`, with the position after it; `None` where the bytes
/// run out, a tag is unknown, a string is not UTF-8 or a key repeats.
pub open spec fn parse_tree(b: Seq<u8>, pos: int) -> Option<(Tree, int)>
    decreases b.len() - pos,
{
    match parse_u32(b, pos) {
        Some((tag, p)) => if tag == TAG_STRING {
            match parse_text(b, p) {
                Some((s, q)) => Some((Tree::Text(s), q)),
                None => None,
            }
        } else if tag == TAG_INT {
            match parse_u32(b, p) {
                Some((bits, q)) => Some((Tree::Int(bits_int(bits)), q)),
                None => None,
            }
        } else if tag == TAG_FLOAT {
            match parse_u32(b, p) {
                Some((bits, q)) => Some((Tree::Float(bits), q)),
                None => None,
            }
        } else if tag == TAG_MAPPING {
            match parse_u64(b, p) {
                Some((n, q)) => match parse_entries(b, q, n as nat, Seq::empty()) {
                    Some((d, r)) => Some((Tree::Dict(d), r)),
                    None => None,
                },
                None => None,
            }
        } else {
            None
        },
        None => None,
    }
}

/// `acc` followed by the `n` entries at `pos`, with the position after them;
/// `None` where an entry fails to parse or its key is already taken.
pub open spec fn parse_entries(b: Seq<u8>, pos: int, n: nat, acc: Dict) -> Option<(Dict, int)>
    decreases b.len() - pos,
{
    if n == 0 {
        Some((acc, pos))
    } else {
        match parse_text(b, pos) {
            Some((k, p)) => if has_key(acc, k) {
                None
            } else {
                match parse_tree(b, p) {
                    Some((v, q)) => if pos < q <= b.len() {
                        parse_entries(b, q, (n - 1) as nat, acc.push((k, v)))
                    } else {
                        None
                    },
                    None => None,
                }
            },
            None => None,
        }
    }
}

/// The dictionary that the whole of `b` spells, if it spells one.
pub open spec fn parse_dict(b: Seq<u8>) -> Option<Dict> {
    match parse_u64(b, 0) {
        Some((n, p)) => match parse_entries(b, p, n as nat, Seq::empty()) {
            Some((d, q)) => if q == b.len() {
                Some(d)
            } else {
                None
            },
            None => None,
        },
        None => None,
    }
}

/// Concatenation of byte strings associates.
pub proof fn lemma_concat_assoc(a: Seq<u8>, b: Seq<u8>, c: Seq<u8>)
    ensures
        (a + b) + c == a + (b + c),
{
    assert((a + b) + c =~= a + (b + c));
}

/// Appending an entry to a run appends its bytes.
pub proof fn lemma_entries_bytes_push(d: Dict, k: Seq<char>, v: Tree)
    ensures
        entries_bytes(d.push((k, v))) == entries_bytes(d) + (text_bytes(k) + tree_bytes(v)),
    decreases d.len(),
{
    let e = d.push((k, v));
    let x = text_bytes(k) + tree_bytes(v);
    if d.len() == 0 {
        assert(e.subrange(1, e.len() as int) =~= d);
        assert(entries_bytes(d) =~= Seq::<u8>::empty());
        assert(entries_bytes(e) == x + entries_bytes(d));
        assert(x + Seq::<u8>::empty() =~= x);
        assert(Seq::<u8>::empty() + x =~= x);
    } else {
        let rest = d.subrange(1, d.len() as int);
        let head = text_bytes(d[0].0) + tree_bytes(d[0].1);
        lemma_entries_bytes_push(rest, k, v);
        assert(e.subrange(1, e.len() as int) =~= rest.push((k, v)));
        assert(e[0] == d[0]);
        assert(entries_bytes(e) == head + entries_bytes(rest.push((k, v))));
        assert(entries_bytes(d) == head + entries_bytes(rest));
        lemma_concat_assoc(head, entries_bytes(rest), x);
    }
}

} // verus!
