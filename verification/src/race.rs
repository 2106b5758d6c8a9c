//! Two stores that insert into one file at the same time. The driver serves
//! their requests one at a time, in any order; each look that claims the
//! file is one such step, so it is atomic.

use vstd::prelude::*;
use crate::dict::{law_insert_then_get, lemma_position, lookup, tree_wf, upsert};
use crate::disk::{serve, Disk};
use crate::format::{dict_bytes, text_fits, tree_fits};
use crate::laws::{lemma_loaded_representable, lemma_upsert_representable};
use crate::lock::Indicator;
use crate::protocol::{begin, loaded, next, Answer, Job, Phase, State, Step};
use crate::roundtrip::law_round_trip;
use crate::value::Tree;

verus! {

/// A store in the middle of an insert: its state, the request that the
/// driver has not served yet, and the entry it inserts.
pub struct Writer {
    pub s: State,
    pub step: Step,
    pub key: Seq<char>,
    pub value: Tree,
}

/// Two writers and the file they share.
pub struct Race {
    pub a: Writer,
    pub b: Writer,
    pub disk: Disk,
}

/// A writer that begins to insert `value` under `key`.
pub open spec fn writer(s: State, key: Seq<char>, value: Tree) -> Writer {
    let (s1, step) = begin(s, Job::Insert(key, value));
    Writer { s: s1, step, key, value }
}

/// The writer and the file after the driver served the writer's request. A
/// writer that has its answer stays as it is.
pub open spec fn moved(w: Writer, disk: Disk) -> (Writer, Disk) {
    match w.step {
        Step::Finish(_) => (w, disk),
        _ => {
            let (disk2, signal) = serve(disk, w.step);
            let (s2, step2) = next(w.s, signal);
            (Writer { s: s2, step: step2, key: w.key, value: w.value }, disk2)
        },
    }
}

/// One step of the race: the driver serves the first writer, or the second.
pub open spec fn turn(r: Race, first: bool) -> Race {
    if first {
        Race { a: moved(r.a, r.disk).0, b: r.b, disk: moved(r.a, r.disk).1 }
    } else {
        Race { a: r.a, b: moved(r.b, r.disk).0, disk: moved(r.b, r.disk).1 }
    }
}

/// The race after the driver served the writers in the order that
/// `schedule` gives, `true` standing for the first writer.
pub open spec fn play(r: Race, schedule: Seq<bool>) -> Race
    decreases schedule.len(),
{
    if schedule.len() == 0 {
        r
    } else {
        turn(play(r, schedule.drop_last()), schedule.last())
    }
}

/// The writer's snapshot is in the file, and the writer knows it.
pub open spec fn stored(w: Writer) -> bool {
    w.s.pending is Stored && (w.s.phase is Releasing || w.s.phase is Idle)
}

/// The writer was answered that its entry is stored.
pub open spec fn answered_stored(w: Writer) -> bool {
    w.step == Step::Finish(Answer::Stored)
}

/// What holds of one writer at every point of a race.
pub open spec fn writer_ok(w: Writer, disk: Disk) -> bool {
    &&& w.s.job == Job::Insert(w.key, w.value)
    &&& text_fits(w.key)
    &&& tree_wf(w.value)
    &&& tree_fits(w.value)
    &&& disk.content is Some
    &&& w.s.lock.held ==> disk.indicator == Indicator::Locked
    &&& stored(w) ==> lookup(loaded(disk.content->0), w.key) == Some(w.value)
    &&& match w.s.phase {
        Phase::Idle => w.step is Finish && !w.s.lock.held && (answered_stored(w)
            ==> w.s.pending is Stored),
        Phase::Waiting => w.step is Poll && w.step->acquire && !w.s.lock.held
            && w.s.pending is Nothing,
        Phase::Reading => w.step == Step::Read && w.s.lock.held && w.s.pending is Nothing,
        Phase::Creating => false,
        Phase::Writing { .. } => w.step == Step::Write(dict_bytes(w.s.cab)) && w.s.lock.held
            && w.s.pending is Stored && w.s.cab == upsert(
            loaded(disk.content->0),
            w.key,
            w.value,
        ),
        Phase::Releasing => w.step == Step::Release && w.s.lock.held && w.s.pending is Stored,
    }
}

/// One or nothing, for a count.
pub open spec fn one_if(b: bool) -> nat {
    if b {
        1
    } else {
        0
    }
}

/// What holds at every point of a race that began on a file with `n0`
/// entries: at most one writer holds the file, and the file holds the entry
/// of every writer that has stored.
pub open spec fn race_ok(r: Race, n0: nat) -> bool {
    &&& writer_ok(r.a, r.disk)
    &&& writer_ok(r.b, r.disk)
    &&& r.a.key != r.b.key
    &&& !(r.a.s.lock.held && r.b.s.lock.held)
    &&& n0 + 2 < u64::MAX
    &&& r.disk.content is Some
    &&& loaded(r.disk.content->0).len() <= n0 + one_if(stored(r.a)) + one_if(stored(r.b))
}

/// One step of either writer keeps what holds of a race.
proof fn lemma_turn(w: Writer, other: Writer, disk: Disk, n0: nat)
    requires
        race_ok(Race { a: w, b: other, disk }, n0),
    ensures
        race_ok(Race { a: moved(w, disk).0, b: other, disk: moved(w, disk).1 }, n0),
{
    let (w2, disk2) = moved(w, disk);
    let content = disk.content->0;
    lemma_loaded_representable(content);
    match w.s.phase {
        Phase::Writing { tries_left } => {
            let d = upsert(loaded(content), w.key, w.value);
            lemma_position(loaded(content), w.key);
            lemma_upsert_representable(loaded(content), w.key, w.value);
            law_round_trip(d);
            assert(disk2.content == Some(dict_bytes(d)));
            assert(loaded(dict_bytes(d)) == d);
            law_insert_then_get(loaded(content), w.key, w.value, w.key);
            law_insert_then_get(loaded(content), w.key, w.value, other.key);
        },
        _ => {},
    }
}

/// No lost update. Two stores insert different keys into one file at the
/// same time, their requests served in any order. Then at no point do both
/// hold the file, and once a store has been answered that its entry is
/// stored, the file holds that entry, whatever the other store has done or
/// goes on to do: when both have been answered so, the file holds both.
pub proof fn law_no_lost_update_in_a_race(
    first: State,
    second: State,
    content: Seq<u8>,
    indicator: Indicator,
    k1: Seq<char>,
    v1: Tree,
    k2: Seq<char>,
    v2: Tree,
    schedule: Seq<bool>,
)
    requires
        first.phase is Idle,
        second.phase is Idle,
        k1 != k2,
        text_fits(k1),
        tree_wf(v1),
        tree_fits(v1),
        text_fits(k2),
        tree_wf(v2),
        tree_fits(v2),
        loaded(content).len() + 2 < u64::MAX,
    ensures
        ({
            let start = Race {
                a: writer(first, k1, v1),
                b: writer(second, k2, v2),
                disk: Disk { content: Some(content), indicator },
            };
            let end = play(start, schedule);
            &&& !(end.a.s.lock.held && end.b.s.lock.held)
            &&& end.disk.content is Some
            &&& answered_stored(end.a) ==> lookup(loaded(end.disk.content->0), k1) == Some(v1)
            &&& answered_stored(end.b) ==> lookup(loaded(end.disk.content->0), k2) == Some(v2)
        }),
{
    let start = Race {
        a: writer(first, k1, v1),
        b: writer(second, k2, v2),
        disk: Disk { content: Some(content), indicator },
    };
    lemma_play(start, loaded(content).len(), schedule);
}

/// What holds of a race at its start holds after any schedule.
proof fn lemma_play(r: Race, n0: nat, schedule: Seq<bool>)
    requires
        race_ok(r, n0),
    ensures
        race_ok(play(r, schedule), n0),
        play(r, schedule).a.key == r.a.key,
        play(r, schedule).a.value == r.a.value,
        play(r, schedule).b.key == r.b.key,
        play(r, schedule).b.value == r.b.value,
    decreases schedule.len(),
{
    if schedule.len() > 0 {
        lemma_play(r, n0, schedule.drop_last());
        let mid = play(r, schedule.drop_last());
        if schedule.last() {
            lemma_turn(mid.a, mid.b, mid.disk, n0);
        } else {
            lemma_turn(mid.b, mid.a, mid.disk, n0);
        }
    }
}

} // verus!
