use kv_cab::wire::{from_bits, get_u32, get_u64, put_u32, put_u64, to_bits};
use kv_cab::{Entry, Mapping, Value};

fn key(s: &str) -> String {
    s.to_string()
}

#[test]
fn new_mapping_is_empty() {
    let m = Mapping::new();
    assert_eq!(m.len(), 0);
    assert!(m.is_empty());
    assert_eq!(m.keys(), Vec::<String>::new());
    assert_eq!(m.get(&key("a")), None);
    assert!(!m.contains_key(&key("a")));
}

#[test]
fn insert_then_get() {
    let mut m = Mapping::new();
    m.insert(key("a"), Value::Int(1));
    assert_eq!(m.get(&key("a")), Some(&Value::Int(1)));
    assert!(m.contains_key(&key("a")));
    assert_eq!(m.get(&key("b")), None);
    assert_eq!(m.len(), 1);
}

#[test]
fn insert_replaces_in_place() {
    let mut m = Mapping::new();
    m.insert(key("a"), Value::Int(1));
    m.insert(key("b"), Value::Int(2));
    m.insert(key("a"), Value::String(key("again")));
    assert_eq!(m.len(), 2);
    assert_eq!(m.keys(), vec![key("a"), key("b")]);
    assert_eq!(m.get(&key("a")), Some(&Value::String(key("again"))));
    assert_eq!(m.get(&key("b")), Some(&Value::Int(2)));
}

#[test]
fn insert_appends_new_keys_in_order() {
    let mut m = Mapping::new();
    m.insert(key("z"), Value::Int(1));
    m.insert(key("a"), Value::Int(2));
    m.insert(key("m"), Value::Int(3));
    assert_eq!(m.keys(), vec![key("z"), key("a"), key("m")]);
    assert_eq!(m.index_of(&key("a")), 1);
    assert_eq!(m.index_of(&key("none")), 3);
}

#[test]
fn remove_then_get() {
    let mut m = Mapping::new();
    m.insert(key("a"), Value::Int(1));
    m.insert(key("b"), Value::Int(2));
    assert_eq!(m.remove(&key("a")), Some(Value::Int(1)));
    assert_eq!(m.get(&key("a")), None);
    assert_eq!(m.get(&key("b")), Some(&Value::Int(2)));
    assert_eq!(m.keys(), vec![key("b")]);
}

#[test]
fn remove_of_an_absent_key_changes_nothing() {
    let mut m = Mapping::new();
    m.insert(key("a"), Value::Int(1));
    let before = m.clone();
    assert_eq!(m.remove(&key("zz")), None);
    assert_eq!(m, before);
    assert_eq!(m.remove(&key("a")), Some(Value::Int(1)));
    let after = m.clone();
    assert_eq!(m.remove(&key("a")), None);
    assert_eq!(m, after);
}

#[test]
fn clone_is_deep() {
    let mut inner = Mapping::new();
    inner.insert(key("x"), Value::Float(0.25f32.to_bits()));
    let mut m = Mapping::new();
    m.insert(key("in"), Value::Mapping(inner));
    let mut copy = m.clone();
    assert_eq!(copy, m);
    copy.insert(key("in"), Value::Int(0));
    assert_ne!(copy, m);
    match m.get(&key("in")) {
        Some(Value::Mapping(i)) => {
            assert_eq!(i.get(&key("x")), Some(&Value::Float(0.25f32.to_bits())))
        }
        other => panic!("unexpected {:?}", other),
    }
    let e = Entry { key: key("k"), value: Value::Int(3) };
    let e2 = e.clone();
    assert_eq!(e, e2);
    assert_eq!(Value::String(key("s")).clone(), Value::String(key("s")));
}

#[test]
fn keys_are_distinct_by_their_text() {
    let mut m = Mapping::new();
    m.insert(key(""), Value::Int(0));
    m.insert(key("a"), Value::Int(1));
    m.insert(key("A"), Value::Int(2));
    m.insert(key("a "), Value::Int(3));
    assert_eq!(m.len(), 4);
    assert_eq!(m.get(&key("")), Some(&Value::Int(0)));
    assert_eq!(m.get(&key("A")), Some(&Value::Int(2)));
}

#[test]
fn int_bits_are_twos_complement() {
    assert_eq!(to_bits(0), 0);
    assert_eq!(to_bits(1), 1);
    assert_eq!(to_bits(-1), 0xffff_ffff);
    assert_eq!(to_bits(i32::MIN), 0x8000_0000);
    assert_eq!(to_bits(i32::MAX), 0x7fff_ffff);
    assert_eq!(from_bits(0xffff_fffe), -2);
    assert_eq!(from_bits(0x8000_0000), i32::MIN);
    assert_eq!(from_bits(0x7fff_ffff), i32::MAX);
    for i in [-70000, -1, 0, 1, 12345678] {
        assert_eq!(from_bits(to_bits(i)), i);
        assert_eq!(to_bits(i), i as u32);
    }
}

#[test]
fn numbers_are_big_endian() {
    let mut out = vec![9u8];
    put_u32(&mut out, 0x0102_0304);
    put_u64(&mut out, 0x0506_0708_090a_0b0c);
    assert_eq!(out, vec![9, 1, 2, 3, 4, 5, 6, 7, 8, 9, 10, 11, 12]);
    assert_eq!(get_u32(&out, 1), 0x0102_0304);
    assert_eq!(get_u64(&out, 5), 0x0506_0708_090a_0b0c);
    assert_eq!(get_u32(&out, 1), u32::from_be_bytes([1, 2, 3, 4]));
    let mut max = Vec::new();
    put_u64(&mut max, u64::MAX);
    assert_eq!(max, vec![0xff; 8]);
    assert_eq!(get_u64(&max, 0), u64::MAX);
}

#[test]
fn same_as_sets_order_aside() {
    let mut m = Mapping::new();
    m.insert(key("a"), Value::Int(1));
    m.insert(key("b"), Value::String(key("x")));
    let mut n = Mapping::new();
    n.insert(key("b"), Value::String(key("x")));
    n.insert(key("a"), Value::Int(1));
    assert_ne!(m, n);
    assert!(m.same_as(&n));
    assert!(n.same_as(&m));
    assert!(m.same_as(&m));
    assert!(Value::Mapping(m.clone()).same_as(&Value::Mapping(n.clone())));
    let mut outer1 = Mapping::new();
    outer1.insert(key("in"), Value::Mapping(m.clone()));
    let mut outer2 = Mapping::new();
    outer2.insert(key("in"), Value::Mapping(n.clone()));
    assert!(outer1.same_as(&outer2));
    n.insert(key("a"), Value::Int(2));
    assert!(!m.same_as(&n));
    assert!(!n.same_as(&m));
    let mut outer3 = Mapping::new();
    outer3.insert(key("in"), Value::Mapping(n));
    assert!(!outer1.same_as(&outer3));
}

#[test]
fn same_as_tells_sizes_and_kinds_apart() {
    let mut m = Mapping::new();
    m.insert(key("a"), Value::Int(1));
    let mut n = m.clone();
    n.insert(key("b"), Value::Int(2));
    assert!(!m.same_as(&n));
    assert!(!n.same_as(&m));
    assert!(Mapping::new().same_as(&Mapping::new()));
    assert!(!Mapping::new().same_as(&m));
    assert!(Value::Int(1).same_as(&Value::Int(1)));
    assert!(!Value::Int(1).same_as(&Value::Int(2)));
    assert!(!Value::Int(1).same_as(&Value::Float(1)));
    assert!(!Value::Int(1).same_as(&Value::String(key("1"))));
    assert!(Value::String(key("s")).same_as(&Value::String(key("s"))));
    assert!(!Value::String(key("s")).same_as(&Value::String(key("t"))));
    assert!(Value::Float(1.5f32.to_bits()).same_as(&Value::Float(1.5f32.to_bits())));
    assert!(!Value::Float(0.0f32.to_bits()).same_as(&Value::Float((-0.0f32).to_bits())));
    assert!(!Value::Mapping(Mapping::new()).same_as(&Value::Int(0)));
}
