use kv_cab::protocol::{LOOK_BUDGET, WRITE_RETRIES};
use kv_cab::{
    decode, encode, Action, Event, Indicator, KVError, Mapping, Opened, Reply, Seen, Value, KV,
};

/// A file in memory that does what it is asked.
struct Disk {
    content: Option<Vec<u8>>,
    indicator: Indicator,
    failing_writes: u32,
    writes: u32,
    polls: u32,
    slept: u64,
}

fn no_file() -> Disk {
    Disk {
        content: None,
        indicator: Indicator::Locked,
        failing_writes: 0,
        writes: 0,
        polls: 0,
        slept: 0,
    }
}

fn file_with(bytes: Vec<u8>) -> Disk {
    Disk {
        content: Some(bytes),
        indicator: Indicator::Free,
        failing_writes: 0,
        writes: 0,
        polls: 0,
        slept: 0,
    }
}

fn serve(disk: &mut Disk, action: Action) -> Result<Event, Reply> {
    match action {
        Action::Poll { acquire, pause_ms } => {
            disk.slept += pause_ms;
            disk.polls += 1;
            Ok(Event::Seen(match (&disk.content, disk.indicator) {
                (None, _) => Seen::Unavailable,
                (Some(_), Indicator::Locked) => Seen::Locked,
                (Some(_), Indicator::Free) => {
                    if acquire {
                        disk.indicator = Indicator::Locked;
                    }
                    Seen::Free
                }
            }))
        }
        Action::Read => Ok(match &disk.content {
            Some(b) => Event::Bytes(b.clone()),
            None => Event::Failed,
        }),
        Action::Create(bytes) => {
            disk.writes += 1;
            if disk.failing_writes > 0 {
                disk.failing_writes -= 1;
                return Ok(Event::Failed);
            }
            if disk.content.is_some() {
                return Ok(Event::Failed);
            }
            disk.indicator = Indicator::Locked;
            disk.content = Some(bytes);
            Ok(Event::Done)
        }
        Action::Write(bytes) => {
            disk.writes += 1;
            if disk.failing_writes > 0 {
                disk.failing_writes -= 1;
                return Ok(Event::Failed);
            }
            if disk.content.is_none() {
                disk.indicator = Indicator::Locked;
            }
            disk.content = Some(bytes);
            Ok(Event::Done)
        }
        Action::Release => {
            if disk.content.is_none() {
                return Ok(Event::Failed);
            }
            disk.indicator = Indicator::Free;
            Ok(Event::Done)
        }
        Action::Finish(reply) => Err(reply),
    }
}

fn drive(kv: &mut KV, first: Action, disk: &mut Disk) -> Reply {
    let mut action = first;
    loop {
        match serve(disk, action) {
            Ok(event) => action = kv.step(event),
            Err(reply) => return reply,
        }
    }
}

fn open(path: &str, disk: &mut Disk) -> (KV, Reply) {
    let (mut kv, first) = KV::new(path.to_string());
    let reply = drive(&mut kv, first, disk);
    (kv, reply)
}

fn insert(kv: &mut KV, disk: &mut Disk, k: &str, v: Value) -> Reply {
    let first = kv.insert(k.to_string(), v);
    drive(kv, first, disk)
}

fn get(kv: &mut KV, disk: &mut Disk, k: &str) -> Reply {
    let first = kv.get(k.to_string());
    drive(kv, first, disk)
}

fn remove(kv: &mut KV, disk: &mut Disk, k: &str) -> Reply {
    let first = kv.remove(k.to_string());
    drive(kv, first, disk)
}

fn keys(kv: &mut KV, disk: &mut Disk) -> Reply {
    let first = kv.keys();
    drive(kv, first, disk)
}

fn text(s: &str) -> Value {
    Value::String(s.to_string())
}

#[test]
fn open_makes_a_missing_file() {
    let mut disk = no_file();
    let (kv, reply) = open("./p.cab", &mut disk);
    assert_eq!(reply, Reply::Opened(Opened::Created));
    assert_eq!(disk.content, Some(vec![0u8; 8]));
    assert_eq!(disk.indicator, Indicator::Free);
    assert!(kv.is_idle());
    assert_eq!(kv.path(), "./p.cab");
    assert!(kv.mapping().is_empty());
}

#[test]
fn open_loads_a_snapshot() {
    let mut m = Mapping::new();
    m.insert("a".to_string(), Value::Int(1));
    let mut disk = file_with(encode(&m));
    let (kv, reply) = open("p", &mut disk);
    assert_eq!(reply, Reply::Opened(Opened::Loaded));
    assert_eq!(kv.mapping(), &m);
    assert_eq!(disk.content, Some(encode(&m)));
    assert_eq!(disk.writes, 0);
}

#[test]
fn open_of_a_corrupt_file_gives_an_empty_store() {
    let garbage = vec![1u8, 2, 3];
    let mut disk = file_with(garbage.clone());
    let (mut kv, reply) = open("p", &mut disk);
    assert_eq!(reply, Reply::Opened(Opened::Recovered));
    assert!(kv.mapping().is_empty());
    assert_eq!(disk.content, Some(garbage));
    assert_eq!(get(&mut kv, &mut disk, "a"), Reply::Found(None));
    assert_eq!(keys(&mut kv, &mut disk), Reply::Keys(vec![]));
}

#[test]
fn store_insert_then_get() {
    let mut disk = no_file();
    let (mut kv, _) = open("p", &mut disk);
    assert_eq!(insert(&mut kv, &mut disk, "k", Value::Int(5)), Reply::Stored);
    assert_eq!(get(&mut kv, &mut disk, "k"), Reply::Found(Some(Value::Int(5))));
    assert_eq!(get(&mut kv, &mut disk, "other"), Reply::Found(None));
    assert_eq!(disk.indicator, Indicator::Free);
}

#[test]
fn insert_replaces_a_value() {
    let mut disk = no_file();
    let (mut kv, _) = open("p", &mut disk);
    insert(&mut kv, &mut disk, "k", Value::Int(5));
    insert(&mut kv, &mut disk, "k", text("five"));
    assert_eq!(get(&mut kv, &mut disk, "k"), Reply::Found(Some(text("five"))));
    assert_eq!(keys(&mut kv, &mut disk), Reply::Keys(vec!["k".to_string()]));
}

#[test]
fn store_remove_then_get() {
    let mut disk = no_file();
    let (mut kv, _) = open("p", &mut disk);
    insert(&mut kv, &mut disk, "k", Value::Int(5));
    assert_eq!(remove(&mut kv, &mut disk, "k"), Reply::Removed);
    assert_eq!(get(&mut kv, &mut disk, "k"), Reply::Found(None));
}

#[test]
fn remove_of_an_absent_key_keeps_the_file() {
    let mut disk = no_file();
    let (mut kv, _) = open("p", &mut disk);
    insert(&mut kv, &mut disk, "k", Value::Int(5));
    let before = disk.content.clone();
    assert_eq!(remove(&mut kv, &mut disk, "absent"), Reply::Removed);
    assert_eq!(disk.content, before);
    assert_eq!(remove(&mut kv, &mut disk, "absent"), Reply::Removed);
    assert_eq!(disk.content, before);
    assert_eq!(get(&mut kv, &mut disk, "k"), Reply::Found(Some(Value::Int(5))));
}

#[test]
fn a_value_survives_a_reopen() {
    let mut disk = no_file();
    {
        let (mut kv, _) = open("p", &mut disk);
        let mut inner = Mapping::new();
        inner.insert("pi".to_string(), Value::Float(3.25f32.to_bits()));
        assert_eq!(insert(&mut kv, &mut disk, "k", Value::Mapping(inner)), Reply::Stored);
    }
    let (mut kv, reply) = open("p", &mut disk);
    assert_eq!(reply, Reply::Opened(Opened::Loaded));
    let mut inner = Mapping::new();
    inner.insert("pi".to_string(), Value::Float(3.25f32.to_bits()));
    assert_eq!(get(&mut kv, &mut disk, "k"), Reply::Found(Some(Value::Mapping(inner))));
}

#[test]
fn insert_insert_remove_scenario() {
    let mut disk = no_file();
    let (mut kv, _) = open("p", &mut disk);
    assert_eq!(insert(&mut kv, &mut disk, "a", Value::Int(1)), Reply::Stored);
    assert_eq!(insert(&mut kv, &mut disk, "b", text("x")), Reply::Stored);
    assert_eq!(remove(&mut kv, &mut disk, "a"), Reply::Removed);
    assert_eq!(keys(&mut kv, &mut disk), Reply::Keys(vec!["b".to_string()]));
    assert_eq!(get(&mut kv, &mut disk, "a"), Reply::Found(None));
    assert_eq!(get(&mut kv, &mut disk, "b"), Reply::Found(Some(text("x"))));
}

#[test]
fn two_writers_in_turn_lose_no_update() {
    let mut disk = no_file();
    let (mut first, _) = open("p", &mut disk);
    let (mut second, how) = open("p", &mut disk);
    assert_eq!(how, Reply::Opened(Opened::Loaded));
    assert_eq!(insert(&mut first, &mut disk, "one", Value::Int(1)), Reply::Stored);
    assert_eq!(insert(&mut second, &mut disk, "two", Value::Int(2)), Reply::Stored);
    assert_eq!(insert(&mut first, &mut disk, "three", Value::Int(3)), Reply::Stored);
    for kv in [&mut first, &mut second] {
        assert_eq!(get(kv, &mut disk, "one"), Reply::Found(Some(Value::Int(1))));
        assert_eq!(get(kv, &mut disk, "two"), Reply::Found(Some(Value::Int(2))));
        assert_eq!(get(kv, &mut disk, "three"), Reply::Found(Some(Value::Int(3))));
    }
    let on_disk = decode(disk.content.as_ref().unwrap()).unwrap();
    assert_eq!(on_disk.len(), 3);
}

#[test]
fn a_store_never_serves_its_cache() {
    let mut disk = no_file();
    let (mut kv, _) = open("p", &mut disk);
    insert(&mut kv, &mut disk, "k", Value::Int(5));
    // someone else rewrites the file
    let mut other = Mapping::new();
    other.insert("k".to_string(), Value::Int(6));
    disk.content = Some(encode(&other));
    assert_eq!(get(&mut kv, &mut disk, "k"), Reply::Found(Some(Value::Int(6))));
    // someone else ruins the file
    disk.content = Some(vec![7]);
    assert_eq!(get(&mut kv, &mut disk, "k"), Reply::Found(None));
}

#[test]
fn the_steps_of_an_insert() {
    let (mut kv, first) = KV::new("p".to_string());
    assert_eq!(first, Action::Poll { acquire: false, pause_ms: 0 });
    assert!(!kv.is_idle());
    assert_eq!(kv.step(Event::Seen(Seen::Free)), Action::Read);
    assert_eq!(
        kv.step(Event::Bytes(vec![0; 8])),
        Action::Finish(Reply::Opened(Opened::Loaded))
    );
    assert!(kv.is_idle());
    assert_eq!(
        kv.insert("a".to_string(), Value::Int(1)),
        Action::Poll { acquire: true, pause_ms: 0 }
    );
    assert_eq!(
        kv.step(Event::Seen(Seen::Locked)),
        Action::Poll { acquire: true, pause_ms: 1 }
    );
    assert_eq!(
        kv.step(Event::Seen(Seen::Locked)),
        Action::Poll { acquire: true, pause_ms: 2 }
    );
    assert_eq!(kv.step(Event::Seen(Seen::Free)), Action::Read);
    let mut expected = Mapping::new();
    expected.insert("a".to_string(), Value::Int(1));
    assert_eq!(kv.step(Event::Bytes(vec![0; 8])), Action::Write(encode(&expected)));
    assert_eq!(kv.step(Event::Done), Action::Release);
    assert_eq!(kv.step(Event::Done), Action::Finish(Reply::Stored));
    assert!(kv.is_idle());
    assert_eq!(kv.mapping(), &expected);
}

#[test]
fn a_reader_does_not_claim_the_file() {
    let (mut kv, first) = KV::new("p".to_string());
    let mut disk = file_with(vec![0; 8]);
    drive(&mut kv, first, &mut disk);
    assert_eq!(kv.get("a".to_string()), Action::Poll { acquire: false, pause_ms: 0 });
    assert_eq!(kv.step(Event::Seen(Seen::Free)), Action::Read);
    assert_eq!(kv.step(Event::Bytes(vec![0; 8])), Action::Finish(Reply::Found(None)));
    assert_eq!(kv.keys(), Action::Poll { acquire: false, pause_ms: 0 });
    assert_eq!(kv.step(Event::Seen(Seen::Free)), Action::Read);
    assert_eq!(kv.step(Event::Failed), Action::Finish(Reply::Keys(vec![])));
    assert_eq!(kv.remove("a".to_string()), Action::Poll { acquire: true, pause_ms: 0 });
}

#[test]
fn a_missing_file_fails_a_write_and_empties_a_read() {
    let mut disk = file_with(vec![0; 8]);
    let (mut kv, _) = open("p", &mut disk);
    let mut gone = no_file();
    assert_eq!(
        insert(&mut kv, &mut gone, "a", Value::Int(1)),
        Reply::Failed(KVError::ResourceUnavailable)
    );
    assert_eq!(gone.content, None);
    assert_eq!(
        remove(&mut kv, &mut gone, "a"),
        Reply::Failed(KVError::ResourceUnavailable)
    );
    assert_eq!(get(&mut kv, &mut gone, "a"), Reply::Found(None));
    assert_eq!(keys(&mut kv, &mut gone), Reply::Keys(vec![]));
    assert!(kv.is_idle());
}

#[test]
fn a_file_that_stays_locked_times_out() {
    let mut disk = file_with(vec![0; 8]);
    let (mut kv, _) = open("p", &mut disk);
    disk.indicator = Indicator::Locked;
    disk.polls = 0;
    disk.slept = 0;
    assert_eq!(
        insert(&mut kv, &mut disk, "a", Value::Int(1)),
        Reply::Failed(KVError::LockTimeout)
    );
    assert_eq!(disk.polls, LOOK_BUDGET + 1);
    // 1 + 2 + 4 + 8 + 16 + 32 milliseconds, then 64 before each further look
    assert_eq!(disk.slept, 63 + 64 * (LOOK_BUDGET as u64 - 6));
    assert_eq!(disk.content, Some(vec![0; 8]));
    assert_eq!(disk.indicator, Indicator::Locked);
    assert_eq!(get(&mut kv, &mut disk, "a"), Reply::Found(None));
    let (_, reply) = open("p", &mut disk);
    assert_eq!(reply, Reply::Failed(KVError::LockTimeout));
}

#[test]
fn unlocking_by_hand_frees_a_stuck_file() {
    let mut disk = file_with(vec![0; 8]);
    let (mut kv, _) = open("p", &mut disk);
    // a holder died between claim and release
    disk.indicator = Indicator::Locked;
    assert_eq!(
        insert(&mut kv, &mut disk, "a", Value::Int(1)),
        Reply::Failed(KVError::LockTimeout)
    );
    assert_eq!(kv.unlock(), Action::Release);
    assert_eq!(kv.step(Event::Done), Action::Finish(Reply::Unlocked));
    disk.indicator = Indicator::Free;
    assert_eq!(insert(&mut kv, &mut disk, "a", Value::Int(1)), Reply::Stored);
    disk.indicator = Indicator::Locked;
    let first = kv.unlock();
    assert_eq!(drive(&mut kv, first, &mut disk), Reply::Unlocked);
    assert_eq!(disk.indicator, Indicator::Free);
    assert_eq!(get(&mut kv, &mut disk, "a"), Reply::Found(Some(Value::Int(1))));
}

#[test]
fn unlocking_a_missing_file_fails() {
    let mut disk = file_with(vec![0; 8]);
    let (mut kv, _) = open("p", &mut disk);
    let mut gone = no_file();
    let first = kv.unlock();
    assert_eq!(
        drive(&mut kv, first, &mut gone),
        Reply::Failed(KVError::ResourceUnavailable)
    );
    assert!(kv.is_idle());
    assert_eq!(Reply::Unlocked.result(), Ok(true));
}

#[test]
fn a_failed_write_is_retried() {
    let mut disk = file_with(vec![0; 8]);
    let (mut kv, _) = open("p", &mut disk);
    disk.failing_writes = WRITE_RETRIES;
    assert_eq!(insert(&mut kv, &mut disk, "a", Value::Int(1)), Reply::Stored);
    assert_eq!(disk.writes, WRITE_RETRIES + 1);
    assert_eq!(disk.indicator, Indicator::Free);
    assert_eq!(get(&mut kv, &mut disk, "a"), Reply::Found(Some(Value::Int(1))));
}

#[test]
fn a_write_that_keeps_failing_ends_in_failure() {
    let mut disk = file_with(vec![0; 8]);
    let (mut kv, _) = open("p", &mut disk);
    disk.failing_writes = WRITE_RETRIES + 1;
    assert_eq!(
        insert(&mut kv, &mut disk, "a", Value::Int(1)),
        Reply::Failed(KVError::WriteFailure)
    );
    assert_eq!(disk.writes, WRITE_RETRIES + 1);
    assert_eq!(disk.indicator, Indicator::Free);
    assert_eq!(disk.content, Some(vec![0; 8]));
    assert!(kv.is_idle());
    assert_eq!(get(&mut kv, &mut disk, "a"), Reply::Found(None));
}

#[test]
fn a_file_that_cannot_be_made_fails_the_open() {
    let mut disk = no_file();
    disk.failing_writes = 100;
    let (kv, reply) = open("p", &mut disk);
    assert_eq!(reply, Reply::Failed(KVError::WriteFailure));
    assert_eq!(disk.writes, WRITE_RETRIES + 1);
    assert_eq!(disk.slept, 1 + 2 + 4);
    assert_eq!(disk.content, None);
    assert!(kv.is_idle());
}

#[test]
fn a_file_made_by_someone_else_meanwhile_is_loaded() {
    let (mut late, first) = KV::new("p".to_string());
    assert_eq!(first, Action::Poll { acquire: false, pause_ms: 0 });
    // the late opener finds no file
    assert_eq!(late.step(Event::Seen(Seen::Unavailable)), Action::Create(vec![0; 8]));
    // before it makes one, another store does, and puts an entry in
    let mut disk = no_file();
    let (mut early, how) = open("p", &mut disk);
    assert_eq!(how, Reply::Opened(Opened::Created));
    assert_eq!(insert(&mut early, &mut disk, "k", Value::Int(1)), Reply::Stored);
    let before = disk.content.clone();
    // the late opener's file is not made over the other, and it loads what is there
    let reply = drive(&mut late, Action::Create(vec![0; 8]), &mut disk);
    assert_eq!(reply, Reply::Opened(Opened::Loaded));
    assert_eq!(disk.content, before);
    assert_eq!(get(&mut late, &mut disk, "k"), Reply::Found(Some(Value::Int(1))));
}

#[test]
fn events_out_of_turn_change_nothing() {
    let mut disk = file_with(vec![0; 8]);
    let (mut kv, _) = open("p", &mut disk);
    assert_eq!(kv.step(Event::Done), Action::Finish(Reply::Failed(KVError::OutOfTurn)));
    assert!(kv.is_idle());
    let first = kv.insert("a".to_string(), Value::Int(1));
    assert_eq!(first, Action::Poll { acquire: true, pause_ms: 0 });
    assert_eq!(
        kv.get("a".to_string()),
        Action::Finish(Reply::Failed(KVError::OutOfTurn))
    );
    assert!(!kv.is_idle());
    assert_eq!(drive(&mut kv, first, &mut disk), Reply::Stored);
}

#[test]
fn a_report_of_the_wrong_kind_counts_as_failure() {
    let (mut kv, _) = KV::new("p".to_string());
    // a look answered with bytes counts as a file that cannot be examined
    assert_eq!(kv.step(Event::Bytes(vec![])), Action::Create(vec![0; 8]));
    let (mut kv, _) = KV::new("p".to_string());
    kv.step(Event::Seen(Seen::Free));
    // a read answered with "done" counts as a failed read
    assert_eq!(kv.step(Event::Done), Action::Finish(Reply::Opened(Opened::Recovered)));
}

#[test]
fn replies_as_plain_results() {
    assert_eq!(Reply::Stored.result(), Ok(true));
    assert_eq!(Reply::Removed.result(), Ok(true));
    assert_eq!(Reply::Opened(Opened::Recovered).result(), Ok(true));
    assert_eq!(Reply::Found(None).result(), Ok(true));
    assert_eq!(Reply::Keys(vec![]).result(), Ok(true));
    assert_eq!(
        Reply::Failed(KVError::ResourceUnavailable).result(),
        Err("File doesn't exist or is not readeable")
    );
    assert_eq!(Reply::Failed(KVError::LockTimeout).result(), Err("File stayed locked"));
    assert_eq!(Reply::Failed(KVError::WriteFailure).result(), Err("Could not write cab"));
    assert_eq!(
        Reply::Failed(KVError::OutOfTurn).result(),
        Err("No transaction to continue")
    );
    assert_eq!(KVError::WriteFailure.message(), "Could not write cab");
}
