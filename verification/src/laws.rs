//! What holds of whole transactions, run against a file that does what it
//! is asked and that nobody else touches meanwhile.

use vstd::prelude::*;
use crate::dict::{
    dict_wf, erase, has_key, keys_of, law_insert_then_get, law_remove_idempotent,
    law_remove_then_get, lemma_erase_wf, lemma_position, lemma_upsert_wf, lookup, position,
    tree_wf, upsert,
};
use crate::disk::{free_file, locked_file, run, transact, Disk};
use crate::format::{dict_bytes, parse_dict, representable, text_fits, tree_fits};
use crate::lock::{Indicator, Seen};
use crate::protocol::{
    begin, loaded, next, steps_left, unread, Answer, Job, KVError, Opened, Signal, State, Step,
};
use crate::roundtrip::{law_parse_sound, law_round_trip};
use crate::value::{Dict, Tree};

verus! {

/// What an insert does: on a free file it stores the snapshot of what the
/// file held with the entry put in, leaves the file free, and answers
/// `Stored`.
pub proof fn law_insert(s: State, b: Seq<u8>, k: Seq<char>, v: Tree)
    requires
        s.phase is Idle,
    ensures
        ({
            let (t, disk, answer) = transact(s, Job::Insert(k, v), free_file(b));
            &&& answer == Answer::Stored
            &&& disk == free_file(dict_bytes(upsert(loaded(b), k, v)))
            &&& t.cab == upsert(loaded(b), k, v)
            &&& t.phase is Idle
            &&& !t.lock.held
        }),
{
    reveal_with_fuel(run, 6);
}

/// What a remove does: on a free file it stores the snapshot of what the
/// file held without the key, leaves the file free, and answers `Removed`,
/// whether or not the key was there.
pub proof fn law_remove(s: State, b: Seq<u8>, k: Seq<char>)
    requires
        s.phase is Idle,
    ensures
        ({
            let (t, disk, answer) = transact(s, Job::Remove(k), free_file(b));
            &&& answer == Answer::Removed
            &&& disk == free_file(dict_bytes(erase(loaded(b), k)))
            &&& t.cab == erase(loaded(b), k)
            &&& t.phase is Idle
            &&& !t.lock.held
        }),
{
    reveal_with_fuel(run, 6);
}

/// What a get does: on a free file it answers with what the file holds under
/// the key, whatever the store held in memory before, and leaves the file as
/// it was.
pub proof fn law_get(s: State, b: Seq<u8>, k: Seq<char>)
    requires
        s.phase is Idle,
    ensures
        ({
            let (t, disk, answer) = transact(s, Job::Get(k), free_file(b));
            &&& answer == Answer::Found(lookup(loaded(b), k))
            &&& disk == free_file(b)
            &&& t.cab == loaded(b)
            &&& t.phase is Idle
        }),
{
    reveal_with_fuel(run, 4);
}

/// What listing the keys does: on a free file it answers with the keys that
/// the file holds, in entry order, and leaves the file as it was.
pub proof fn law_keys(s: State, b: Seq<u8>)
    requires
        s.phase is Idle,
    ensures
        ({
            let (t, disk, answer) = transact(s, Job::Keys, free_file(b));
            &&& answer == Answer::Keys(keys_of(loaded(b)))
            &&& disk == free_file(b)
            &&& t.cab == loaded(b)
            &&& t.phase is Idle
        }),
{
    reveal_with_fuel(run, 4);
}

/// What opening does. On a free file that holds a snapshot the store loads
/// it. On a free file that holds anything else the store starts empty, says
/// so, and leaves the file as it was. Where there is no file the store makes
/// one that holds the empty dictionary and is free.
pub proof fn law_open(s: State, b: Seq<u8>, indicator: Indicator)
    requires
        s.phase is Idle,
    ensures
        ({
            let (t, disk, answer) = transact(s, Job::Open, free_file(b));
            &&& answer == Answer::Opened(
                if parse_dict(b) is Some {
                    Opened::Loaded
                } else {
                    Opened::Recovered
                },
            )
            &&& disk == free_file(b)
            &&& t.cab == loaded(b)
            &&& parse_dict(b) is None ==> t.cab == Seq::<(Seq<char>, Tree)>::empty()
            &&& t.phase is Idle
        }),
        ({
            let (t, disk, answer) = transact(s, Job::Open, Disk { content: None, indicator });
            &&& answer == Answer::Opened(Opened::Created)
            &&& disk == free_file(dict_bytes(Seq::empty()))
            &&& t.cab == Seq::<(Seq<char>, Tree)>::empty()
            &&& t.phase is Idle
        }),
{
    reveal_with_fuel(run, 6);
}

/// What a file stands for is always a dictionary that a snapshot can hold.
pub proof fn lemma_loaded_representable(b: Seq<u8>)
    ensures
        representable(loaded(b)),
{
    if parse_dict(b) is Some {
        law_parse_sound(b);
    }
}

/// A representable dictionary stays so when an entry that fits is put in,
/// short of the largest entry count.
pub proof fn lemma_upsert_representable(d: Dict, k: Seq<char>, v: Tree)
    requires
        representable(d),
        text_fits(k),
        tree_wf(v),
        tree_fits(v),
        d.len() < u64::MAX,
    ensures
        representable(upsert(d, k, v)),
{
    lemma_position(d, k);
    lemma_upsert_wf(d, k, v);
    let u = upsert(d, k, v);
    let p = position(d, k);
    assert forall|i: int| 0 <= i < u.len() implies text_fits((#[trigger] u[i]).0) && tree_fits(
        u[i].1,
    ) by {
        if i != p {
            assert(u[i] == d[i]);
        }
    }
}

/// A representable dictionary stays so when a key is taken out.
pub proof fn lemma_erase_representable(d: Dict, k: Seq<char>)
    requires
        representable(d),
    ensures
        representable(erase(d, k)),
{
    lemma_position(d, k);
    lemma_erase_wf(d, k);
    let e = erase(d, k);
    let p = position(d, k);
    if p < d.len() {
        assert forall|i: int| 0 <= i < e.len() implies text_fits((#[trigger] e[i]).0)
            && tree_fits(e[i].1) by {
            let i0 = if i < p { i } else { i + 1 };
            assert(e[i] == d[i0]);
        }
    }
}

/// Insert, then get, also across a reopen: once a store has inserted a value
/// under a key, any store on the same file, the same one or one opened
/// afterwards, finds that value under the key.
pub proof fn law_insert_then_get_durable(
    writer: State,
    reader: State,
    b: Seq<u8>,
    k: Seq<char>,
    v: Tree,
)
    requires
        writer.phase is Idle,
        reader.phase is Idle,
        text_fits(k),
        tree_wf(v),
        tree_fits(v),
        loaded(b).len() < u64::MAX,
    ensures
        ({
            let (_, disk, stored) = transact(writer, Job::Insert(k, v), free_file(b));
            let (opened, disk2, how) = transact(reader, Job::Open, disk);
            let (_, _, found) = transact(opened, Job::Get(k), disk2);
            &&& stored == Answer::Stored
            &&& how == Answer::Opened(Opened::Loaded)
            &&& found == Answer::Found(Some(v))
            &&& transact(reader, Job::Get(k), disk).2 == Answer::Found(Some(v))
        }),
{
    let d = upsert(loaded(b), k, v);
    let snapshot = dict_bytes(d);
    lemma_loaded_representable(b);
    lemma_upsert_representable(loaded(b), k, v);
    law_round_trip(d);
    law_insert(writer, b, k, v);
    law_open(reader, snapshot, Indicator::Free);
    let (opened, disk2, how) = transact(reader, Job::Open, free_file(snapshot));
    law_get(opened, snapshot, k);
    law_get(reader, snapshot, k);
    law_insert_then_get(loaded(b), k, v, k);
}

/// Remove, then get: once a store has removed a key, any store on the same
/// file finds nothing under it.
pub proof fn law_remove_then_get_absent(writer: State, reader: State, b: Seq<u8>, k: Seq<char>)
    requires
        writer.phase is Idle,
        reader.phase is Idle,
    ensures
        ({
            let (_, disk, removed) = transact(writer, Job::Remove(k), free_file(b));
            &&& removed == Answer::Removed
            &&& transact(reader, Job::Get(k), disk).2 == Answer::Found(None)
        }),
{
    let d = erase(loaded(b), k);
    lemma_loaded_representable(b);
    lemma_erase_representable(loaded(b), k);
    law_round_trip(d);
    law_remove(writer, b, k);
    law_get(reader, dict_bytes(d), k);
    law_remove_then_get(loaded(b), k, k);
}

/// Remove is idempotent: removing a key that the file does not hold succeeds
/// and leaves the dictionary as it was; where the file held a snapshot, not
/// one byte of it changes.
pub proof fn law_remove_absent(s: State, b: Seq<u8>, k: Seq<char>)
    requires
        s.phase is Idle,
        !has_key(loaded(b), k),
    ensures
        ({
            let (t, disk, removed) = transact(s, Job::Remove(k), free_file(b));
            &&& removed == Answer::Removed
            &&& t.cab == loaded(b)
            &&& disk.content is Some
            &&& loaded(disk.content->0) == loaded(b)
            &&& parse_dict(b) is Some ==> disk == free_file(b)
        }),
{
    lemma_loaded_representable(b);
    law_remove_idempotent(loaded(b), k);
    law_round_trip(loaded(b));
    law_remove(s, b, k);
    if parse_dict(b) is Some {
        law_parse_sound(b);
    }
}

/// Corrupt-file tolerance: opening a file whose bytes are no snapshot gives
/// an empty store and says that it did, rather than failing; the file keeps
/// its bytes.
pub proof fn law_open_corrupt(s: State, b: Seq<u8>)
    requires
        s.phase is Idle,
        parse_dict(b) is None,
    ensures
        ({
            let (t, disk, answer) = transact(s, Job::Open, free_file(b));
            &&& answer == Answer::Opened(Opened::Recovered)
            &&& t.cab == Seq::<(Seq<char>, Tree)>::empty()
            &&& disk == free_file(b)
        }),
{
    law_open(s, b, Indicator::Free);
}

/// No lost update: when two stores insert different keys into the same file,
/// one transaction after the other, the file afterwards holds both entries.
pub proof fn law_no_lost_update(
    first: State,
    second: State,
    reader: State,
    b: Seq<u8>,
    k1: Seq<char>,
    v1: Tree,
    k2: Seq<char>,
    v2: Tree,
)
    requires
        first.phase is Idle,
        second.phase is Idle,
        reader.phase is Idle,
        k1 != k2,
        text_fits(k1),
        tree_wf(v1),
        tree_fits(v1),
        text_fits(k2),
        tree_wf(v2),
        tree_fits(v2),
        loaded(b).len() + 1 < u64::MAX,
    ensures
        ({
            let (_, disk1, a1) = transact(first, Job::Insert(k1, v1), free_file(b));
            let (_, disk2, a2) = transact(second, Job::Insert(k2, v2), disk1);
            &&& a1 == Answer::Stored
            &&& a2 == Answer::Stored
            &&& transact(reader, Job::Get(k1), disk2).2 == Answer::Found(Some(v1))
            &&& transact(reader, Job::Get(k2), disk2).2 == Answer::Found(Some(v2))
        }),
{
    let d0 = loaded(b);
    let d1 = upsert(d0, k1, v1);
    let d2 = upsert(d1, k2, v2);
    lemma_loaded_representable(b);
    lemma_position(d0, k1);
    lemma_upsert_representable(d0, k1, v1);
    law_round_trip(d1);
    lemma_upsert_representable(d1, k2, v2);
    law_round_trip(d2);
    law_insert(first, b, k1, v1);
    law_insert(second, dict_bytes(d1), k2, v2);
    law_get(reader, dict_bytes(d2), k1);
    law_get(reader, dict_bytes(d2), k2);
    law_insert_then_get(d0, k1, v1, k1);
    law_insert_then_get(d1, k2, v2, k1);
    law_insert_then_get(d1, k2, v2, k2);
}

/// A store that waits on a locked file gives up once its looks are used up,
/// and has not touched the file.
proof fn lemma_wait_on_locked_file(s: State, step: Step, b: Seq<u8>, fuel: nat)
    requires
        s.phase is Waiting,
        step is Poll,
        fuel > s.lock.looks_left,
    ensures
        run(s, step, locked_file(b), fuel).1 == locked_file(b),
        run(s, step, locked_file(b), fuel).2 == unread(s, KVError::LockTimeout).1->Finish_0,
        run(s, step, locked_file(b), fuel).0.phase is Idle,
    decreases s.lock.looks_left,
{
    reveal_with_fuel(run, 2);
    if s.lock.looks_left > 0 {
        let (s2, step2) = next(s, Signal::Seen(Seen::Locked));
        lemma_wait_on_locked_file(s2, step2, b, (fuel - 1) as nat);
    }
}

/// Bounded wait: a transaction on a file that stays locked ends, after
/// `LOOK_BUDGET + 1` looks, without touching the file. One that writes fails
/// with `LockTimeout`; one that reads answers as for a file it could not
/// read. Unlocking by hand does not wait, and leaves the file free with its
/// content as it was.
pub proof fn law_locked_file_times_out(s: State, job: Job, b: Seq<u8>)
    requires
        s.phase is Idle,
        !(job is Unlock),
    ensures
        ({
            let (t, disk, answer) = transact(s, job, locked_file(b));
            &&& disk == locked_file(b)
            &&& t.phase is Idle
            &&& answer == match job {
                Job::Get(_) => Answer::Found(None),
                Job::Keys => Answer::Keys(Seq::empty()),
                _ => Answer::Failed(KVError::LockTimeout),
            }
        }),
        ({
            let (t, disk, answer) = transact(s, Job::Unlock, locked_file(b));
            &&& disk == free_file(b)
            &&& t.phase is Idle
            &&& answer == Answer::Unlocked
        }),
{
    let (s1, step1) = begin(s, job);
    lemma_wait_on_locked_file(s1, step1, b, steps_left(s1));
    assert(transact(s, Job::Unlock, locked_file(b)).1 == free_file(b)) by {
        reveal_with_fuel(run, 3);
    }
    assert(transact(s, Job::Unlock, locked_file(b)).2 == Answer::Unlocked) by {
        reveal_with_fuel(run, 3);
    }
    assert(transact(s, Job::Unlock, locked_file(b)).0.phase is Idle) by {
        reveal_with_fuel(run, 3);
    }
}

/// A transaction on a file that does not exist fails at once with
/// `ResourceUnavailable` where it writes or unlocks, answers with nothing
/// where it reads, and makes no file.
pub proof fn law_missing_file(s: State, job: Job, indicator: Indicator)
    requires
        s.phase is Idle,
        !(job is Open),
        !(job is Unlock),
    ensures
        ({
            let gone = Disk { content: None, indicator };
            let (t, disk, answer) = transact(s, job, gone);
            &&& disk == gone
            &&& t.phase is Idle
            &&& answer == match job {
                Job::Get(_) => Answer::Found(None),
                Job::Keys => Answer::Keys(Seq::empty()),
                _ => Answer::Failed(KVError::ResourceUnavailable),
            }
        }),
        ({
            let gone = Disk { content: None, indicator };
            let (t, disk, answer) = transact(s, Job::Unlock, gone);
            &&& disk == gone
            &&& t.phase is Idle
            &&& answer == Answer::Failed(KVError::ResourceUnavailable)
        }),
{
    reveal_with_fuel(run, 3);
}

/// The dictionary in memory never holds a key twice, at any depth, as long as
/// the values that are inserted do not.
pub proof fn law_memory_stays_well_formed(s: State, job: Job, signal: Signal)
    requires
        dict_wf(s.cab),
        s.job matches Job::Insert(_, v) ==> tree_wf(v),
    ensures
        dict_wf(begin(s, job).0.cab),
        dict_wf(next(s, signal).0.cab),
        next(s, signal).0.job == s.job,
{
    assert(dict_wf(Seq::empty()));
    match signal {
        Signal::Bytes(b) => {
            lemma_loaded_representable(b);
            match s.job {
                Job::Insert(k, v) => {
                    lemma_upsert_wf(loaded(b), k, v);
                    lemma_upsert_wf(Seq::empty(), k, v);
                },
                Job::Remove(k) => {
                    lemma_erase_wf(loaded(b), k);
                    lemma_erase_wf(Seq::empty(), k);
                },
                _ => {},
            }
        },
        _ => {
            match s.job {
                Job::Insert(k, v) => {
                    lemma_upsert_wf(Seq::empty(), k, v);
                },
                Job::Remove(k) => {
                    lemma_erase_wf(Seq::empty(), k);
                },
                _ => {},
            }
        },
    }
}

} // verus!
