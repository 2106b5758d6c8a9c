//! The snapshot codec: a dictionary to its bytes and back.

use vstd::prelude::*;
use vstd::slice::slice_subrange;
use vstd::string::StringSliceAdditionalSpecFns;
use vstd::utf8::{encode_utf8_decode_utf8, valid_utf8};
use crate::dict::lemma_position;
use crate::format::{
    dict_bytes, entries_bytes, lemma_entries_bytes_push, parse_dict, parse_entries, parse_text,
    parse_tree, representable, text_bytes, text_fits, tree_bytes, tree_fits, TAG_FLOAT, TAG_INT,
    TAG_MAPPING, TAG_STRING,
};
use crate::roundtrip::{law_parse_sound, law_round_trip};
use crate::value::{Entry, Mapping, Tree, Value};
use crate::wire::{be64, from_bits, get_u32, get_u64, put_u32, put_u64, to_bits};

verus! {

/// `core::str::from_utf8`: the string that `bytes` spell in UTF-8, or `None`
/// where they are not UTF-8. The string is a view of the same bytes, so its
/// UTF-8 form is `bytes` again.
#[verifier::external_body]
fn utf8_text(bytes: &[u8]) -> (r: Option<&str>)
    ensures
        r is Some <==> valid_utf8(bytes@),
        r matches Some(s) ==> s.spec_bytes() == bytes@,
{
    match core::str::from_utf8(bytes) {
        Ok(s) => Some(s),
        Err(_) => None,
    }
}

/// Appends `src` to `out`.
fn put_bytes(out: &mut Vec<u8>, src: &[u8])
    ensures
        final(out)@ == old(out)@ + src@,
{
    let mut i: usize = 0;
    while i < src.len()
        invariant
            i <= src@.len(),
            out@ == old(out)@ + src@.take(i as int),
        decreases src@.len() - i,
    {
        out.push(src[i]);
        i += 1;
        assert(out@ =~= old(out)@ + src@.take(i as int));
    }
    assert(src@.take(i as int) =~= src@);
}

/// Appends the bytes of a string: length, then UTF-8.
fn put_text(out: &mut Vec<u8>, s: &String)
    ensures
        final(out)@ == old(out)@ + text_bytes(s@),
        text_fits(s@),
{
    let bytes = s.as_str().as_bytes();
    put_u64(out, bytes.len() as u64);
    put_bytes(out, bytes);
    assert(out@ =~= old(out)@ + text_bytes(s@));
}

/// Appends the bytes of a value: tag, then payload.
fn put_value(out: &mut Vec<u8>, v: &Value)
    ensures
        final(out)@ == old(out)@ + tree_bytes(v@),
        tree_fits(v@),
    decreases v,
{
    match v {
        Value::String(s) => {
            put_u32(out, TAG_STRING);
            put_text(out, s);
        },
        Value::Int(i) => {
            put_u32(out, TAG_INT);
            put_u32(out, to_bits(*i));
        },
        Value::Float(bits) => {
            put_u32(out, TAG_FLOAT);
            put_u32(out, *bits);
        },
        Value::Mapping(m) => {
            put_u32(out, TAG_MAPPING);
            put_mapping(out, m);
        },
    }
    assert(out@ =~= old(out)@ + tree_bytes(v@));
}

/// Appends the bytes of a dictionary: entry count, then the entries.
fn put_mapping(out: &mut Vec<u8>, m: &Mapping)
    ensures
        final(out)@ == old(out)@ + dict_bytes(m@),
        tree_fits(Tree::Dict(m@)),
    decreases m,
{
    let n = m.entries.len();
    put_u64(out, n as u64);
    let mut i: usize = 0;
    assert(m@.take(0) =~= Seq::<(Seq<char>, Tree)>::empty());
    while i < n
        invariant
            n == m.entries.len(),
            i <= n,
            out@ == old(out)@ + be64(n as u64) + entries_bytes(m@.take(i as int)),
            forall|j: int| 0 <= j < i ==> text_fits((#[trigger] m@[j]).0) && tree_fits(m@[j].1),
        decreases n - i,
    {
        let e = &m.entries[i];
        put_text(out, &e.key);
        put_value(out, &e.value);
        proof {
            lemma_entries_bytes_push(m@.take(i as int), e.key@, e.value@);
            assert(m@.take(i + 1) =~= m@.take(i as int).push((e.key@, e.value@)));
            assert(out@ =~= old(out)@ + be64(n as u64) + entries_bytes(m@.take(i + 1)));
        }
        i += 1;
    }
    assert(m@.take(n as int) =~= m@);
    assert(out@ =~= old(out)@ + dict_bytes(m@));
}

/// The snapshot of `m`. Where `m` is well-formed, these are the bytes that
/// `decode` reads back as `m`.
pub fn encode(m: &Mapping) -> (bytes: Vec<u8>)
    ensures
        bytes@ == dict_bytes(m@),
        m.wf() ==> representable(m@) && parse_dict(bytes@) == Some(m@),
{
    let mut out: Vec<u8> = Vec::new();
    put_mapping(&mut out, m);
    assert(out@ =~= dict_bytes(m@));
    proof {
        if m.wf() {
            law_round_trip(m@);
        }
    }
    out
}

/// Reads the string at `pos`.
fn take_text(b: &[u8], pos: usize) -> (r: Option<(String, usize)>)
    requires
        pos <= b@.len(),
    ensures
        match r {
            Some((s, q)) => parse_text(b@, pos as int) == Some((s@, q as int)) && pos < q
                <= b@.len(),
            None => parse_text(b@, pos as int) is None,
        },
{
    if b.len() - pos < 8 {
        return None;
    }
    let n = get_u64(b, pos);
    let p = pos + 8;
    if n > (b.len() - p) as u64 {
        return None;
    }
    let q = p + n as usize;
    let chunk = slice_subrange(b, p, q);
    match utf8_text(chunk) {
        Some(s) => {
            proof {
                encode_utf8_decode_utf8(s@);
            }
            Some((s.to_owned(), q))
        },
        None => None,
    }
}

/// Reads the value at `pos`.
fn take_value(b: &[u8], pos: usize) -> (r: Option<(Value, usize)>)
    requires
        pos <= b@.len(),
    ensures
        match r {
            Some((v, q)) => parse_tree(b@, pos as int) == Some((v@, q as int)) && pos < q
                <= b@.len(),
            None => parse_tree(b@, pos as int) is None,
        },
    decreases b@.len() - pos,
{
    if b.len() - pos < 4 {
        return None;
    }
    let tag = get_u32(b, pos);
    let p = pos + 4;
    if tag == TAG_STRING {
        match take_text(b, p) {
            Some((s, q)) => Some((Value::String(s), q)),
            None => None,
        }
    } else if tag == TAG_INT {
        if b.len() - p < 4 {
            return None;
        }
        Some((Value::Int(from_bits(get_u32(b, p))), p + 4))
    } else if tag == TAG_FLOAT {
        if b.len() - p < 4 {
            return None;
        }
        Some((Value::Float(get_u32(b, p)), p + 4))
    } else if tag == TAG_MAPPING {
        if b.len() - p < 8 {
            return None;
        }
        let n = get_u64(b, p);
        match take_entries(b, p + 8, n) {
            Some((m, q)) => Some((Value::Mapping(m), q)),
            None => None,
        }
    } else {
        None
    }
}

/// Reads the `n` entries at `pos` into a dictionary.
fn take_entries(b: &[u8], pos: usize, n: u64) -> (r: Option<(Mapping, usize)>)
    requires
        pos <= b@.len(),
    ensures
        match r {
            Some((m, q)) => parse_entries(b@, pos as int, n as nat, Seq::empty()) == Some(
                (m@, q as int),
            ) && pos <= q <= b@.len(),
            None => parse_entries(b@, pos as int, n as nat, Seq::empty()) is None,
        },
    decreases b@.len() - pos, 
{
    let mut m = Mapping::new();
    let mut p = pos;
    let mut i: u64 = 0;
    while i < n
        invariant
            i <= n,
            pos <= p <= b@.len(),
            parse_entries(b@, pos as int, n as nat, Seq::empty()) == parse_entries(
                b@,
                p as int,
                (n - i) as nat,
                m@,
            ),
        decreases n - i,
    {
        let (key, p1) = match take_text(b, p) {
            Some(found) => found,
            None => {
                return None;
            },
        };
        proof {
            lemma_position(m@, key@);
        }
        if m.contains_key(&key) {
            return None;
        }
        let (value, p2) = match take_value(b, p1) {
            Some(found) => found,
            None => {
                return None;
            },
        };
        let ghost before = m@;
        m.entries.push(Entry { key, value });
        assert(m@ =~= before.push((key@, value@)));
        p = p2;
        i += 1;
    }
    Some((m, p))
}

/// What went wrong when bytes were read as a snapshot.
#[derive(Debug, PartialEq, Eq, Clone, Copy)]
pub enum DecodeFailure {
    /// The bytes are not the snapshot of any dictionary.
    Malformed,
}

impl DecodeFailure {
    /// The short message that goes with this failure.
    pub fn message(&self) -> (m: &'static str)
        ensures
            m@ == "Couldn't decode cab"@,
    {
        "Couldn't decode cab"
    }
}

/// The dictionary whose snapshot `b` is; fails where `b` is the snapshot of
/// none: cut short, followed by stray bytes, holding an unknown tag, a string
/// that is not UTF-8, or a key twice in one dictionary.
pub fn decode(b: &[u8]) -> (r: Result<Mapping, DecodeFailure>)
    ensures
        match r {
            Ok(m) => parse_dict(b@) == Some(m@) && m.wf() && representable(m@) && dict_bytes(m@)
                == b@,
            Err(e) => parse_dict(b@) is None && e == DecodeFailure::Malformed,
        },
{
    proof {
        if parse_dict(b@) is Some {
            law_parse_sound(b@);
        }
    }
    if b.len() < 8 {
        return Err(DecodeFailure::Malformed);
    }
    let n = get_u64(b, 0);
    match take_entries(b, 8, n) {
        Some((m, q)) => if q == b.len() {
            Ok(m)
        } else {
            Err(DecodeFailure::Malformed)
        },
        None => Err(DecodeFailure::Malformed),
    }
}

} // verus!
