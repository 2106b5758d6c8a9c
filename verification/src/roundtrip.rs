//! What the snapshot format guarantees: every representable dictionary reads
//! back from its bytes, and bytes that read as a dictionary are its bytes.

use vstd::prelude::*;
use vstd::utf8::{
    decode_utf8_encode_utf8, encode_utf8, encode_utf8_decode_utf8, encode_utf8_valid_utf8,
};
use crate::dict::{distinct_keys, has_key, tree_wf};
use crate::format::{
    dict_bytes, entries_bytes, parse_dict, parse_entries, parse_text, parse_tree, parse_u32,
    parse_u64, representable, text_bytes, text_fits, tree_bytes, tree_fits, TAG_FLOAT, TAG_INT,
    TAG_MAPPING, TAG_STRING,
};
use crate::value::{Dict, Tree};
use crate::wire::{
    be32, be64, int_bits, lemma_be32_bytes, lemma_be32_value, lemma_be64_bytes, lemma_be64_value,
    lemma_int_bits,
};

verus! {

/// `b` holds the byte string `x` from `pos` on.
pub open spec fn holds_at(b: Seq<u8>, pos: int, x: Seq<u8>) -> bool {
    0 <= pos && pos + x.len() <= b.len() && b.subrange(pos, pos + x.len()) == x
}

/// Bytes that hold `x + y` hold `x`, and `y` right after it.
proof fn lemma_holds_split(b: Seq<u8>, pos: int, x: Seq<u8>, y: Seq<u8>)
    requires
        holds_at(b, pos, x + y),
    ensures
        holds_at(b, pos, x),
        holds_at(b, pos + x.len(), y),
{
    let whole = b.subrange(pos, pos + (x + y).len());
    assert(b.subrange(pos, pos + x.len()) =~= whole.subrange(0, x.len() as int));
    assert(whole.subrange(0, x.len() as int) =~= x);
    assert(b.subrange(pos + x.len(), pos + x.len() + y.len()) =~= whole.subrange(
        x.len() as int,
        (x + y).len() as int,
    ));
    assert(whole.subrange(x.len() as int, (x + y).len() as int) =~= y);
}

/// Two adjacent stretches of `b` make up the stretch that spans both.
proof fn lemma_holds_join(b: Seq<u8>, pos: int, mid: int, end: int)
    requires
        0 <= pos <= mid <= end <= b.len(),
    ensures
        b.subrange(pos, mid) + b.subrange(mid, end) == b.subrange(pos, end),
{
    assert(b.subrange(pos, mid) + b.subrange(mid, end) =~= b.subrange(pos, end));
}

/// A number written at `pos` is the number read there.
proof fn lemma_parse_u32_of(b: Seq<u8>, pos: int, x: u32)
    requires
        holds_at(b, pos, be32(x)),
    ensures
        parse_u32(b, pos) == Some((x, pos + 4)),
{
    lemma_be32_value(x);
}

/// A number written at `pos` is the number read there.
proof fn lemma_parse_u64_of(b: Seq<u8>, pos: int, x: u64)
    requires
        holds_at(b, pos, be64(x)),
    ensures
        parse_u64(b, pos) == Some((x, pos + 8)),
{
    lemma_be64_value(x);
}

/// A string written at `pos` is the string read there.
proof fn lemma_parse_text_of(b: Seq<u8>, pos: int, s: Seq<char>)
    requires
        text_fits(s),
        holds_at(b, pos, text_bytes(s)),
    ensures
        parse_text(b, pos) == Some((s, pos + text_bytes(s).len())),
        text_bytes(s).len() >= 8,
{
    let utf8 = encode_utf8(s);
    let n = utf8.len() as u64;
    lemma_be64_value(n);
    lemma_holds_split(b, pos, be64(n), utf8);
    lemma_parse_u64_of(b, pos, n);
    encode_utf8_valid_utf8(s);
    encode_utf8_decode_utf8(s);
}

/// Every entry of `d` has a well-formed value and lengths that fit.
pub open spec fn entries_ok(d: Dict) -> bool {
    forall|i: int|
        0 <= i < d.len() ==> tree_wf((#[trigger] d[i]).1) && text_fits(d[i].0) && tree_fits(
            d[i].1,
        )
}

/// A value written at `pos` is the value read there.
proof fn lemma_parse_tree_of(b: Seq<u8>, pos: int, t: Tree)
    requires
        tree_wf(t),
        tree_fits(t),
        holds_at(b, pos, tree_bytes(t)),
    ensures
        parse_tree(b, pos) == Some((t, pos + tree_bytes(t).len())),
        tree_bytes(t).len() >= 4,
    decreases t, 0int,
{
    lemma_be32_value(TAG_STRING);
    lemma_be32_value(TAG_INT);
    lemma_be32_value(TAG_FLOAT);
    lemma_be32_value(TAG_MAPPING);
    match t {
        Tree::Text(s) => {
            lemma_holds_split(b, pos, be32(TAG_STRING), text_bytes(s));
            lemma_parse_u32_of(b, pos, TAG_STRING);
            lemma_parse_text_of(b, pos + 4, s);
        },
        Tree::Int(i) => {
            lemma_holds_split(b, pos, be32(TAG_INT), be32(int_bits(i)));
            lemma_parse_u32_of(b, pos, TAG_INT);
            lemma_be32_value(int_bits(i));
            lemma_parse_u32_of(b, pos + 4, int_bits(i));
            lemma_int_bits(i, 0);
        },
        Tree::Float(bits) => {
            lemma_holds_split(b, pos, be32(TAG_FLOAT), be32(bits));
            lemma_parse_u32_of(b, pos, TAG_FLOAT);
            lemma_be32_value(bits);
            lemma_parse_u32_of(b, pos + 4, bits);
        },
        Tree::Dict(d) => {
            let n = d.len() as u64;
            let body = be64(n) + entries_bytes(d);
            lemma_holds_split(b, pos, be32(TAG_MAPPING), body);
            lemma_parse_u32_of(b, pos, TAG_MAPPING);
            lemma_be64_value(n);
            lemma_holds_split(b, pos + 4, be64(n), entries_bytes(d));
            lemma_parse_u64_of(b, pos + 4, n);
            assert(Seq::<(Seq<char>, Tree)>::empty() + d =~= d);
            lemma_parse_entries_of(b, pos + 12, d, Seq::empty());
        },
    }
}

/// A run of entries written at `pos` is read there, after whatever was
/// gathered before it.
proof fn lemma_parse_entries_of(b: Seq<u8>, pos: int, d: Dict, acc: Dict)
    requires
        distinct_keys(acc + d),
        entries_ok(d),
        holds_at(b, pos, entries_bytes(d)),
    ensures
        parse_entries(b, pos, d.len(), acc) == Some((acc + d, pos + entries_bytes(d).len())),
    decreases d, 1int,
{
    if d.len() == 0 {
        assert(acc + d =~= acc);
    } else {
        let k = d[0].0;
        let v = d[0].1;
        let rest = d.subrange(1, d.len() as int);
        let head = text_bytes(k) + tree_bytes(v);
        assert(entries_bytes(d) == head + entries_bytes(rest));
        lemma_holds_split(b, pos, head, entries_bytes(rest));
        lemma_holds_split(b, pos, text_bytes(k), tree_bytes(v));
        lemma_parse_text_of(b, pos, k);
        let p = pos + text_bytes(k).len();
        lemma_parse_tree_of(b, p, v);
        let q = p + tree_bytes(v).len();
        assert(!has_key(acc, k)) by {
            if has_key(acc, k) {
                let i = choose|i: int| 0 <= i < acc.len() && (#[trigger] acc[i]).0 == k;
                assert((acc + d)[i] == acc[i]);
                assert((acc + d)[acc.len() as int] == d[0]);
            }
        }
        let acc2 = acc.push((k, v));
        assert(acc2 + rest =~= acc + d);
        assert(entries_ok(rest)) by {
            assert forall|i: int| 0 <= i < rest.len() implies tree_wf((#[trigger] rest[i]).1)
                && text_fits(rest[i].0) && tree_fits(rest[i].1) by {
                assert(rest[i] == d[i + 1]);
            }
        }
        lemma_parse_entries_of(b, q, rest, acc2);
        assert(head.len() + entries_bytes(rest).len() == entries_bytes(d).len());
    }
}

/// Round trip: the snapshot of a representable dictionary reads back as that
/// dictionary.
pub proof fn law_round_trip(d: Dict)
    requires
        representable(d),
    ensures
        parse_dict(dict_bytes(d)) == Some(d),
{
    let b = dict_bytes(d);
    let n = d.len() as u64;
    lemma_be64_value(n);
    assert(b.subrange(0, b.len() as int) =~= b);
    lemma_holds_split(b, 0, be64(n), entries_bytes(d));
    lemma_parse_u64_of(b, 0, n);
    assert(Seq::<(Seq<char>, Tree)>::empty() + d =~= d);
    lemma_parse_entries_of(b, 8, d, Seq::empty());
}

/// A string read at `pos` is written there.
proof fn lemma_parse_text_sound(b: Seq<u8>, pos: int)
    requires
        parse_text(b, pos) is Some,
    ensures
        ({
            let (s, q) = parse_text(b, pos)->0;
            pos + 8 <= q <= b.len() && text_fits(s) && b.subrange(pos, q) == text_bytes(s)
        }),
{
    let (n, p) = parse_u64(b, pos)->0;
    let (s, q) = parse_text(b, pos)->0;
    let chunk = b.subrange(p, p + n);
    decode_utf8_encode_utf8(chunk);
    lemma_be64_bytes(b.subrange(pos, pos + 8));
    lemma_holds_join(b, pos, p, q);
}

/// A value read at `pos` is written there, and is well-formed.
proof fn lemma_parse_tree_sound(b: Seq<u8>, pos: int)
    requires
        parse_tree(b, pos) is Some,
    ensures
        ({
            let (t, q) = parse_tree(b, pos)->0;
            pos + 4 <= q <= b.len() && tree_wf(t) && tree_fits(t) && b.subrange(pos, q)
                == tree_bytes(t)
        }),
    decreases b.len() - pos, 0int,
{
    let (tag, p) = parse_u32(b, pos)->0;
    let (t, q) = parse_tree(b, pos)->0;
    lemma_be32_bytes(b.subrange(pos, pos + 4));
    if tag == TAG_STRING {
        lemma_parse_text_sound(b, p);
        lemma_holds_join(b, pos, p, q);
    } else if tag == TAG_INT {
        lemma_be32_bytes(b.subrange(p, p + 4));
        let (bits, _) = parse_u32(b, p)->0;
        lemma_int_bits(0, bits);
        lemma_holds_join(b, pos, p, q);
    } else if tag == TAG_FLOAT {
        lemma_be32_bytes(b.subrange(p, p + 4));
        lemma_holds_join(b, pos, p, q);
    } else {
        let (n, r) = parse_u64(b, p)->0;
        lemma_be64_bytes(b.subrange(p, p + 8));
        lemma_parse_entries_sound(b, r, n as nat, Seq::empty());
        let d = t->Dict_0;
        assert(d.subrange(0, d.len() as int) =~= d);
        lemma_holds_join(b, p, r, q);
        lemma_holds_join(b, pos, p, q);
    }
}

/// Entries read at `pos` are written there: the result is what was gathered
/// before, followed by `n` well-formed entries whose bytes lie between `pos`
/// and the position reached, none of whose keys repeats.
proof fn lemma_parse_entries_sound(b: Seq<u8>, pos: int, n: nat, acc: Dict)
    requires
        0 <= pos <= b.len(),
        parse_entries(b, pos, n, acc) is Some,
    ensures
        ({
            let (d, q) = parse_entries(b, pos, n, acc)->0;
            let tail = d.subrange(acc.len() as int, d.len() as int);
            &&& pos <= q <= b.len()
            &&& d.len() == acc.len() + n
            &&& d.subrange(0, acc.len() as int) == acc
            &&& entries_ok(tail)
            &&& b.subrange(pos, q) == entries_bytes(tail)
            &&& distinct_keys(acc) ==> distinct_keys(d)
        }),
    decreases b.len() - pos, 1int,
{
    let (d, q) = parse_entries(b, pos, n, acc)->0;
    let tail = d.subrange(acc.len() as int, d.len() as int);
    if n == 0 {
        assert(d.subrange(0, acc.len() as int) =~= acc);
        assert(tail =~= Seq::<(Seq<char>, Tree)>::empty());
        assert(b.subrange(pos, q) =~= Seq::<u8>::empty());
    } else {
        let (k, p) = parse_text(b, pos)->0;
        lemma_parse_text_sound(b, pos);
        let (v, q1) = parse_tree(b, p)->0;
        lemma_parse_tree_sound(b, p);
        let acc2 = acc.push((k, v));
        lemma_parse_entries_sound(b, q1, (n - 1) as nat, acc2);
        let tail2 = d.subrange(acc2.len() as int, d.len() as int);
        assert(d.subrange(0, acc2.len() as int)[acc.len() as int] == (k, v));
        assert(d[acc.len() as int] == (k, v));
        assert(d.subrange(0, acc.len() as int) =~= acc) by {
            assert forall|i: int| 0 <= i < acc.len() implies d[i] == acc[i] by {
                assert(d.subrange(0, acc2.len() as int)[i] == acc2[i]);
            }
        }
        assert(tail[0] == (k, v));
        assert(tail.subrange(1, tail.len() as int) =~= tail2);
        assert(entries_ok(tail)) by {
            assert forall|i: int| 0 <= i < tail.len() implies tree_wf((#[trigger] tail[i]).1)
                && text_fits(tail[i].0) && tree_fits(tail[i].1) by {
                if i > 0 {
                    assert(tail[i] == tail2[i - 1]);
                }
            }
        }
        assert(entries_bytes(tail) == text_bytes(k) + tree_bytes(v) + entries_bytes(tail2));
        lemma_holds_join(b, pos, p, q1);
        lemma_holds_join(b, pos, q1, q);
        if distinct_keys(acc) {
            assert(distinct_keys(acc2)) by {
                assert forall|i: int, j: int| 0 <= i < j < acc2.len() implies (
                #[trigger] acc2[i]).0 != (#[trigger] acc2[j]).0 by {
                    if j < acc.len() {
                        assert(acc2[i] == acc[i] && acc2[j] == acc[j]);
                    } else {
                        assert(acc2[i] == acc[i]);
                    }
                }
            }
        }
    }
}

/// Bytes that read as a dictionary are that dictionary's snapshot, and the
/// dictionary is representable: no two byte strings read as the same
/// dictionary, and nothing is read that could not have been written.
pub proof fn law_parse_sound(b: Seq<u8>)
    requires
        parse_dict(b) is Some,
    ensures
        representable(parse_dict(b)->0),
        dict_bytes(parse_dict(b)->0) == b,
{
    let (n, p) = parse_u64(b, 0)->0;
    let d = parse_dict(b)->0;
    lemma_be64_bytes(b.subrange(0, 8));
    lemma_parse_entries_sound(b, p, n as nat, Seq::empty());
    assert(d.subrange(0, d.len() as int) =~= d);
    lemma_holds_join(b, 0, p, b.len() as int);
    assert(b.subrange(0, b.len() as int) =~= b);
    assert(distinct_keys(Seq::<(Seq<char>, Tree)>::empty()));
}

/// A snapshot that was cut short is no snapshot: no proper beginning of the
/// bytes of a representable dictionary reads as a dictionary.
pub proof fn law_truncation_is_detected(d: Dict, n: int)
    requires
        representable(d),
        0 <= n < dict_bytes(d).len(),
    ensures
        parse_dict(dict_bytes(d).take(n)) is None,
{
    let b = dict_bytes(d);
    let p = b.take(n);
    if parse_dict(p) is Some {
        let d2 = parse_dict(p)->0;
        law_parse_sound(p);
        law_round_trip(d);
        let count = d2.len() as u64;
        lemma_be64_value(count);
        lemma_be64_value(d.len() as u64);
        assert(p.subrange(0, p.len() as int) =~= p);
        lemma_holds_split(p, 0, be64(count), entries_bytes(d2));
        assert(b.subrange(0, 8) =~= p.subrange(0, 8));
        let end = 8 + entries_bytes(d2).len() as int;
        assert(b.subrange(8, end) =~= p.subrange(8, end));
        assert(holds_at(b, 8, entries_bytes(d2)));
        assert(Seq::<(Seq<char>, Tree)>::empty() + d2 =~= d2);
        lemma_parse_entries_of(b, 8, d2, Seq::empty());
        lemma_parse_u64_of(b, 0, count);
        assert(parse_dict(b) is None);
    }
}

/// A snapshot followed by anything is no snapshot: the bytes of a
/// representable dictionary with more bytes after them read as no dictionary.
pub proof fn law_stray_bytes_are_detected(d: Dict, extra: Seq<u8>)
    requires
        representable(d),
        extra.len() > 0,
    ensures
        parse_dict(dict_bytes(d) + extra) is None,
{
    let b = dict_bytes(d) + extra;
    if parse_dict(b) is Some {
        let d2 = parse_dict(b)->0;
        law_parse_sound(b);
        law_round_trip(d);
        assert(b.take(dict_bytes(d).len() as int) =~= dict_bytes(d));
        law_truncation_is_detected(d2, dict_bytes(d).len() as int);
    }
}

} // verus!
