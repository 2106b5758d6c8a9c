//! The transaction protocol, as mathematics. A transaction is a short
//! exchange between the store and a driver that owns the file: the store asks
//! for one file operation at a time, the driver performs it and reports what
//! happened, and the store decides what comes next.
//!
//! Every transaction forgets what the store held in memory, waits for the
//! file to be free, reads it, and works on what it read. One that changes the
//! dictionary claims the file before it reads, writes the new snapshot, and
//! gives the file back.
//!
//! A store that dies between claim and release leaves the file locked, and
//! every later transaction on it times out. The way out is the one
//! transaction that does not wait: unlocking by hand, which sets the file
//! free.

use vstd::prelude::*;
use crate::dict::{erase, keys_of, lookup, upsert};
use crate::format::{dict_bytes, parse_dict};
use crate::lock::{spec_pause_ms, spec_wait, FileLock, Seen, Verdict, MAX_PAUSE_MS};
use crate::value::{Dict, Tree};

verus! {

/// How often a failed write is tried again before the transaction fails.
pub const WRITE_RETRIES: u32 = 3;

/// How many more times a transaction looks at a locked file before it fails.
pub const LOOK_BUDGET: u32 = 1000;

/// Why a transaction failed.
#[derive(Debug, PartialEq, Eq, Clone, Copy, Structural)]
pub enum KVError {
    /// The file is missing or its metadata cannot be read.
    ResourceUnavailable,
    /// The file stayed locked for the whole budget of looks.
    LockTimeout,
    /// The snapshot could not be written, on the first try or any retry.
    WriteFailure,
    /// An event arrived while no transaction was under way, or a transaction
    /// was begun while another was.
    OutOfTurn,
}

/// The short message that goes with an error.
pub open spec fn spec_message(error: KVError) -> Seq<char> {
    match error {
        KVError::ResourceUnavailable => "File doesn't exist or is not readeable"@,
        KVError::LockTimeout => "File stayed locked"@,
        KVError::WriteFailure => "Could not write cab"@,
        KVError::OutOfTurn => "No transaction to continue"@,
    }
}

impl KVError {
    /// The short message that goes with this error.
    pub fn message(&self) -> (m: &'static str)
        ensures
            m@ == spec_message(*self),
    {
        match self {
            KVError::ResourceUnavailable => "File doesn't exist or is not readeable",
            KVError::LockTimeout => "File stayed locked",
            KVError::WriteFailure => "Could not write cab",
            KVError::OutOfTurn => "No transaction to continue",
        }
    }
}

/// How a store came by its first dictionary.
#[derive(Debug, PartialEq, Eq, Clone, Copy, Structural)]
pub enum Opened {
    /// The file held a snapshot, which was loaded.
    Loaded,
    /// There was no file; one was made that holds the empty dictionary.
    Created,
    /// The file held bytes that are no snapshot; the store starts empty and
    /// the file is left as it was.
    Recovered,
}

/// Where a transaction stands.
#[derive(Debug, PartialEq, Eq, Clone, Copy, Structural)]
pub enum Phase {
    /// No transaction is under way.
    Idle,
    /// A look at the lock indicator has been asked for.
    Waiting,
    /// The file's content has been asked for.
    Reading,
    /// The making of the file has been asked for.
    Creating,
    /// A write has been asked for; `tries_left` more may follow it.
    Writing { tries_left: u32 },
    /// The release of the file has been asked for.
    Releasing,
}

/// What a transaction will answer once the file is given back.
#[derive(Debug, PartialEq, Eq, Clone, Copy, Structural)]
pub enum Pending {
    /// Nothing yet.
    Nothing,
    /// The file was missing and has been made.
    Created,
    /// The entry has been stored.
    Stored,
    /// The key has been removed.
    Removed,
    /// The snapshot could not be written.
    WriteFailed,
    /// The file has been unlocked by hand.
    Unlocked,
}

/// What a transaction is for.
pub enum Job {
    /// Load the file, or make it.
    Open,
    /// Store a value under a key.
    Insert(Seq<char>, Tree),
    /// Find the value under a key.
    Get(Seq<char>),
    /// Remove a key.
    Remove(Seq<char>),
    /// List the keys.
    Keys,
    /// Set the file free, whoever holds it.
    Unlock,
}

/// What a transaction tells its caller at the end.
pub enum Answer {
    Opened(Opened),
    Stored,
    Removed,
    Found(Option<Tree>),
    Keys(Seq<Seq<char>>),
    Unlocked,
    Failed(KVError),
}

/// What the store asks of the driver.
pub enum Step {
    /// Sleep for `pause_ms` milliseconds, then look at the lock indicator;
    /// with `acquire`, claim the file in the same atomic step if it is free.
    Poll { acquire: bool, pause_ms: u64 },
    /// Read the whole file.
    Read,
    /// Make the file with these bytes as its content, unless it exists.
    Create(Seq<u8>),
    /// Replace the file's content with these bytes.
    Write(Seq<u8>),
    /// Set the lock indicator to free.
    Release,
    /// Nothing more: the transaction is over, with this answer.
    Finish(Answer),
}

/// What the driver reports.
pub enum Signal {
    /// The result of a look at the lock indicator.
    Seen(Seen),
    /// The content of the file.
    Bytes(Seq<u8>),
    /// The operation asked for succeeded.
    Done,
    /// The operation asked for failed.
    Failed,
}

/// The store, as far as the protocol goes.
pub struct State {
    /// The dictionary in memory.
    pub cab: Dict,
    /// The store's side of the file lock.
    pub lock: FileLock,
    /// Where the transaction stands.
    pub phase: Phase,
    /// What the transaction is for.
    pub job: Job,
    /// What it will answer once the file is released.
    pub pending: Pending,
    /// How often it may still go back to waiting after it failed to make
    /// the file.
    pub creates_left: u32,
}

/// The answer that a pending outcome becomes.
pub open spec fn answer_of(pending: Pending) -> Answer {
    match pending {
        Pending::Nothing => Answer::Failed(KVError::OutOfTurn),
        Pending::Created => Answer::Opened(Opened::Created),
        Pending::Stored => Answer::Stored,
        Pending::Removed => Answer::Removed,
        Pending::WriteFailed => Answer::Failed(KVError::WriteFailure),
        Pending::Unlocked => Answer::Unlocked,
    }
}

/// Whether a job changes the file, and so must hold it.
pub open spec fn writes(job: Job) -> bool {
    job is Insert || job is Remove
}

/// The dictionary that the file's content stands for: the one it spells, or
/// the empty one where it spells none.
pub open spec fn loaded(content: Seq<u8>) -> Dict {
    match parse_dict(content) {
        Some(d) => d,
        None => Seq::empty(),
    }
}

/// How long a store sleeps before it tries again, when `left` of its
/// `budget` of tries are left: one millisecond before the second try, twice
/// as long before each further one, up to `MAX_PAUSE_MS`.
pub open spec fn pause_after(budget: u32, left: u32) -> u64 {
    if left < budget {
        spec_pause_ms((budget - left - 1) as u32)
    } else {
        MAX_PAUSE_MS
    }
}

/// The store at the start of a transaction, with the first request to the
/// driver. Beginning while another transaction is under way changes nothing
/// and is answered at once.
pub open spec fn begin(s: State, job: Job) -> (State, Step) {
    let fresh = State {
        cab: Seq::empty(),
        lock: FileLock { held: false, looks_left: LOOK_BUDGET },
        phase: Phase::Waiting,
        job,
        pending: Pending::Nothing,
        creates_left: WRITE_RETRIES,
    };
    if !(s.phase is Idle) {
        (s, Step::Finish(Answer::Failed(KVError::OutOfTurn)))
    } else if job is Unlock {
        (State { phase: Phase::Releasing, pending: Pending::Unlocked, ..fresh }, Step::Release)
    } else {
        (fresh, Step::Poll { acquire: writes(job), pause_ms: 0 })
    }
}

/// The store at the end of a transaction.
pub open spec fn finish(s: State, answer: Answer) -> (State, Step) {
    (State { phase: Phase::Idle, ..s }, Step::Finish(answer))
}

/// What a transaction answers when the file cannot be read at all: nothing
/// found where it reads, the error where it writes.
pub open spec fn unread(s: State, error: KVError) -> (State, Step) {
    match s.job {
        Job::Get(_) => finish(s, Answer::Found(None)),
        Job::Keys => finish(s, Answer::Keys(Seq::empty())),
        _ => finish(s, Answer::Failed(error)),
    }
}

/// The store after a look at the lock indicator.
pub open spec fn after_look(s: State, seen: Seen) -> (State, Step) {
    let (lock, verdict) = spec_wait(s.lock, seen, writes(s.job));
    let t = State { lock, ..s };
    match verdict {
        Verdict::Again => (
            t,
            Step::Poll {
                acquire: writes(s.job),
                pause_ms: pause_after(LOOK_BUDGET, lock.looks_left),
            },
        ),
        Verdict::Clear | Verdict::Acquired => (State { phase: Phase::Reading, ..t }, Step::Read),
        Verdict::TimedOut => unread(t, KVError::LockTimeout),
        Verdict::Unavailable => if s.job is Open {
            (State { phase: Phase::Creating, ..t }, Step::Create(dict_bytes(Seq::empty())))
        } else {
            unread(t, KVError::ResourceUnavailable)
        },
    }
}

/// The store after it asked for the file to be made. Where that failed, for
/// one because someone else made the file meanwhile, the store goes back to
/// waiting, as often as `creates_left` allows.
pub open spec fn after_create(s: State, done: bool) -> (State, Step) {
    if done {
        (State { phase: Phase::Releasing, pending: Pending::Created, ..s }, Step::Release)
    } else if s.creates_left > 0 {
        (
            State { phase: Phase::Waiting, creates_left: (s.creates_left - 1) as u32, ..s },
            Step::Poll {
                acquire: writes(s.job),
                pause_ms: pause_after(WRITE_RETRIES, (s.creates_left - 1) as u32),
            },
        )
    } else {
        finish(s, Answer::Failed(KVError::WriteFailure))
    }
}

/// The store after the file was read, `content` being what it held, or
/// `None` where the read failed.
pub open spec fn after_read(s: State, content: Option<Seq<u8>>) -> (State, Step) {
    let found = match content {
        Some(b) => parse_dict(b),
        None => None,
    };
    let cab = match found {
        Some(d) => d,
        None => Seq::empty(),
    };
    let t = State { cab, ..s };
    match s.job {
        Job::Open => finish(
            t,
            Answer::Opened(
                if found is Some {
                    Opened::Loaded
                } else {
                    Opened::Recovered
                },
            ),
        ),
        Job::Get(k) => finish(t, Answer::Found(lookup(cab, k))),
        Job::Keys => finish(t, Answer::Keys(keys_of(cab))),
        Job::Unlock => finish(t, Answer::Unlocked),
        Job::Insert(k, v) => (
            State {
                cab: upsert(cab, k, v),
                phase: Phase::Writing { tries_left: WRITE_RETRIES },
                pending: Pending::Stored,
                ..s
            },
            Step::Write(dict_bytes(upsert(cab, k, v))),
        ),
        Job::Remove(k) => (
            State {
                cab: erase(cab, k),
                phase: Phase::Writing { tries_left: WRITE_RETRIES },
                pending: Pending::Removed,
                ..s
            },
            Step::Write(dict_bytes(erase(cab, k))),
        ),
    }
}

/// The store after a write, which succeeded or failed: it goes on to give
/// the file back, unless it tries the write again.
pub open spec fn after_write(s: State, tries_left: u32, done: bool) -> (State, Step) {
    if done {
        (State { phase: Phase::Releasing, ..s }, Step::Release)
    } else if tries_left > 0 {
        (
            State { phase: Phase::Writing { tries_left: (tries_left - 1) as u32 }, ..s },
            Step::Write(dict_bytes(s.cab)),
        )
    } else {
        (State { phase: Phase::Releasing, pending: Pending::WriteFailed, ..s }, Step::Release)
    }
}

/// The store after the release was asked for: the store no longer holds the
/// file, whatever the driver reports, and the transaction ends. Only an
/// unlocking by hand answers for the release itself, and fails where the
/// driver could not do it.
pub open spec fn after_release(s: State, done: bool) -> (State, Step) {
    finish(
        State { lock: FileLock { held: false, looks_left: s.lock.looks_left }, ..s },
        if s.pending is Unlocked && !done {
            Answer::Failed(KVError::ResourceUnavailable)
        } else {
            answer_of(s.pending)
        },
    )
}

/// The store after one report of the driver, with the next request. A report
/// of the wrong kind counts as the failure of what was asked for.
pub open spec fn next(s: State, signal: Signal) -> (State, Step) {
    match s.phase {
        Phase::Idle => (s, Step::Finish(Answer::Failed(KVError::OutOfTurn))),
        Phase::Waiting => after_look(
            s,
            match signal {
                Signal::Seen(seen) => seen,
                _ => Seen::Unavailable,
            },
        ),
        Phase::Reading => after_read(
            s,
            match signal {
                Signal::Bytes(b) => Some(b),
                _ => None,
            },
        ),
        Phase::Creating => after_create(s, signal is Done),
        Phase::Writing { tries_left } => after_write(s, tries_left, signal is Done),
        Phase::Releasing => after_release(s, signal is Done),
    }
}

/// An upper bound on the reports a transaction still takes.
pub open spec fn steps_left(s: State) -> nat {
    match s.phase {
        Phase::Idle => 0,
        Phase::Releasing => 1,
        Phase::Writing { tries_left } => (2 + tries_left) as nat,
        Phase::Reading => (3 + WRITE_RETRIES) as nat,
        Phase::Creating => (4 + WRITE_RETRIES + s.lock.looks_left + 2 * s.creates_left) as nat,
        Phase::Waiting => (5 + WRITE_RETRIES + s.lock.looks_left + 2 * s.creates_left) as nat,
    }
}

/// Every transaction ends: each report either ends it or brings it closer to
/// its end, so from its beginning it takes at most
/// `5 + 3 * WRITE_RETRIES + LOOK_BUDGET` reports. A store is idle exactly
/// when its last request was the final one.
pub proof fn law_transaction_ends(s: State, signal: Signal)
    ensures
        next(s, signal).1 is Finish <==> next(s, signal).0.phase is Idle,
        !(next(s, signal).1 is Finish) ==> steps_left(next(s, signal).0) < steps_left(s),
{
}

/// What holds of every store that was begun idle and fed reports: it holds
/// the file exactly from a successful claim to the release, and only a job
/// that writes claims it.
pub open spec fn consistent(s: State) -> bool {
    match s.phase {
        Phase::Idle | Phase::Waiting | Phase::Creating => !s.lock.held,
        Phase::Reading => s.lock.held == writes(s.job),
        Phase::Writing { .. } => s.lock.held && writes(s.job),
        Phase::Releasing => true,
    }
}

/// No store spins: it looks at the file at once when a transaction begins,
/// and sleeps before every further look, never longer than `MAX_PAUSE_MS`.
pub proof fn law_pauses(s: State, job: Job, signal: Signal)
    ensures
        begin(s, job).1 matches Step::Poll { pause_ms, .. } ==> pause_ms == 0,
        next(s, signal).1 matches Step::Poll { pause_ms, .. } ==> 1 <= pause_ms <= MAX_PAUSE_MS,
{
    vstd::arithmetic::power2::lemma2_to64();
}

/// The file is held whenever it is overwritten: a store writes only while it
/// holds the file, makes a file only while it holds none, and never ends a
/// transaction with the file still held.
pub proof fn law_writes_hold_lock(s: State, job: Job, signal: Signal)
    requires
        consistent(s),
    ensures
        consistent(begin(s, job).0),
        consistent(next(s, signal).0),
        next(s, signal).1 is Write ==> next(s, signal).0.lock.held,
        next(s, signal).1 is Create ==> !next(s, signal).0.lock.held,
        next(s, signal).0.phase is Idle ==> !next(s, signal).0.lock.held,
{
}

/// The file only ever receives whole snapshots: whatever a store asks to be
/// written is the snapshot of the dictionary it then holds in memory.
pub proof fn law_writes_are_snapshots(s: State, signal: Signal)
    ensures
        next(s, signal).1 matches Step::Write(bytes) ==> bytes == dict_bytes(next(s, signal).0.cab),
        next(s, signal).1 matches Step::Create(bytes) ==> bytes == dict_bytes(Seq::empty()),
{
}

} // verus!
