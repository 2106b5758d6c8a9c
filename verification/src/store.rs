//! The store: a dictionary in memory, the path of the file that backs it,
//! and the transactions that keep the two in step.
//!
//! The store performs no I/O. A call that begins a transaction returns the
//! first thing to do to the file; the driver does it and hands the result to
//! `step`, which returns the next, until the action is `Finish`.

use vstd::prelude::*;
use crate::codec::{decode, encode};
use crate::dict::dict_wf;
use crate::format::parse_dict;
use crate::lock::{pause_ms, FileLock, Seen, Verdict, MAX_PAUSE_MS};
use crate::protocol::{
    after_create, after_look, after_read, after_write, answer_of, begin, consistent,
    law_writes_hold_lock, next, pause_after, spec_message, steps_left, unread, Answer, Job,
    KVError, Opened, Pending, Phase, Signal, State, Step, LOOK_BUDGET, WRITE_RETRIES,
};
use crate::value::{Mapping, Value};

verus! {

/// What a transaction is asked to do.
#[derive(Debug, PartialEq)]
pub enum Request {
    /// Load the file, or make it.
    Open,
    /// Store a value under a key.
    Insert(String, Value),
    /// Find the value under a key.
    Get(String),
    /// Remove a key.
    Remove(String),
    /// List the keys.
    Keys,
    /// Set the file free, whoever holds it.
    Unlock,
}

/// What a transaction tells its caller at the end.
#[derive(Debug, PartialEq)]
pub enum Reply {
    /// The store is open; how it came by its dictionary.
    Opened(Opened),
    /// The entry is in the file.
    Stored,
    /// The key is no longer in the file.
    Removed,
    /// The value under the key, or `None` where the key is absent or the file
    /// could not be read as a snapshot.
    Found(Option<Value>),
    /// The keys, in entry order; none where the file could not be read as a
    /// snapshot.
    Keys(Vec<String>),
    /// The file has been set free by hand.
    Unlocked,
    /// The transaction failed.
    Failed(KVError),
}

/// What the store asks of the driver.
#[derive(Debug, PartialEq)]
pub enum Action {
    /// Sleep for `pause_ms` milliseconds, then look at the lock indicator of
    /// the file; with `acquire`, claim the file in the same atomic step if it
    /// is free. Report `Event::Seen`.
    Poll { acquire: bool, pause_ms: u64 },
    /// Read the whole file. Report `Event::Bytes`, or `Event::Failed`.
    Read,
    /// Make the file with these bytes as its content, unless it exists.
    /// Report `Event::Done`, or `Event::Failed` where the file exists or
    /// cannot be made.
    Create(Vec<u8>),
    /// Replace the file's content with these bytes. Report `Event::Done` or
    /// `Event::Failed`.
    Write(Vec<u8>),
    /// Set the lock indicator to free. Report `Event::Done` or
    /// `Event::Failed`.
    Release,
    /// Nothing more: the transaction is over, with this reply.
    Finish(Reply),
}

/// What the driver reports.
#[derive(Debug, PartialEq)]
pub enum Event {
    /// The result of a look at the lock indicator.
    Seen(Seen),
    /// The content of the file.
    Bytes(Vec<u8>),
    /// The operation asked for succeeded.
    Done,
    /// The operation asked for failed.
    Failed,
}

impl View for Request {
    type V = Job;

    open spec fn view(&self) -> Job {
        match self {
            Request::Open => Job::Open,
            Request::Insert(k, v) => Job::Insert(k@, v@),
            Request::Get(k) => Job::Get(k@),
            Request::Remove(k) => Job::Remove(k@),
            Request::Keys => Job::Keys,
            Request::Unlock => Job::Unlock,
        }
    }
}

impl View for Reply {
    type V = Answer;

    open spec fn view(&self) -> Answer {
        match self {
            Reply::Opened(how) => Answer::Opened(*how),
            Reply::Stored => Answer::Stored,
            Reply::Removed => Answer::Removed,
            Reply::Found(Some(v)) => Answer::Found(Some(v@)),
            Reply::Found(None) => Answer::Found(None),
            Reply::Keys(ks) => Answer::Keys(ks.deep_view()),
            Reply::Unlocked => Answer::Unlocked,
            Reply::Failed(e) => Answer::Failed(*e),
        }
    }
}

impl View for Action {
    type V = Step;

    open spec fn view(&self) -> Step {
        match self {
            Action::Poll { acquire, pause_ms } => Step::Poll {
                acquire: *acquire,
                pause_ms: *pause_ms,
            },
            Action::Read => Step::Read,
            Action::Create(bytes) => Step::Create(bytes@),
            Action::Write(bytes) => Step::Write(bytes@),
            Action::Release => Step::Release,
            Action::Finish(reply) => Step::Finish(reply@),
        }
    }
}

impl View for Event {
    type V = Signal;

    open spec fn view(&self) -> Signal {
        match self {
            Event::Seen(seen) => Signal::Seen(*seen),
            Event::Bytes(bytes) => Signal::Bytes(bytes@),
            Event::Done => Signal::Done,
            Event::Failed => Signal::Failed,
        }
    }
}

/// A transaction's result in its shortest form: that it went through, or the
/// message of what stopped it.
pub type KVResult = Result<bool, &'static str>;

impl Reply {
    /// This reply as a plain result: the error's message where the
    /// transaction failed, and `Ok(true)` where it did not.
    pub fn result(&self) -> (r: KVResult)
        ensures
            match self@ {
                Answer::Failed(e) => r matches Err(m) && m@ == spec_message(e),
                _ => r == Ok::<bool, &'static str>(true),
            },
    {
        match self {
            Reply::Failed(e) => Err(e.message()),
            _ => Ok(true),
        }
    }
}

/// How long to sleep before the next try, `left` of `budget` being left.
fn pause_for(budget: u32, left: u32) -> (ms: u64)
    ensures
        ms == pause_after(budget, left),
{
    if left < budget {
        pause_ms(budget - left - 1)
    } else {
        MAX_PAUSE_MS
    }
}

/// The reply that a pending outcome becomes.
fn reply_of(pending: Pending) -> (reply: Reply)
    ensures
        reply@ == answer_of(pending),
{
    match pending {
        Pending::Nothing => Reply::Failed(KVError::OutOfTurn),
        Pending::Created => Reply::Opened(Opened::Created),
        Pending::Stored => Reply::Stored,
        Pending::Removed => Reply::Removed,
        Pending::WriteFailed => Reply::Failed(KVError::WriteFailure),
        Pending::Unlocked => Reply::Unlocked,
    }
}

/// The store.
pub struct KV {
    cab: Mapping,
    path: String,
    lock: FileLock,
    phase: Phase,
    request: Request,
    pending: Pending,
    creates_left: u32,
}

impl View for KV {
    type V = State;

    closed spec fn view(&self) -> State {
        State {
            cab: self.cab@,
            lock: self.lock,
            phase: self.phase,
            job: self.request@,
            pending: self.pending,
            creates_left: self.creates_left,
        }
    }
}

/// A store that has done nothing yet.
pub open spec fn blank() -> State {
    State {
        cab: Seq::empty(),
        lock: FileLock { held: false, looks_left: LOOK_BUDGET },
        phase: Phase::Idle,
        job: Job::Open,
        pending: Pending::Nothing,
        creates_left: WRITE_RETRIES,
    }
}

/// What the store asks to be written reads back as the dictionary it holds
/// in memory, provided that no dictionary in it holds a key twice.
pub open spec fn reads_back(s: State, step: Step) -> bool {
    step matches Step::Write(bytes) ==> dict_wf(s.cab) ==> parse_dict(bytes) == Some(s.cab)
}

impl KV {
    /// The path of the backing file, as characters.
    pub closed spec fn spec_path(&self) -> Seq<char> {
        self.path@
    }

    /// A store for the file at `p`, with the first action of the transaction
    /// that opens it. That transaction ends with `Reply::Opened`, which says
    /// whether a snapshot was loaded, the file was made, or the file held
    /// something else and the store starts empty.
    pub fn new(p: String) -> (r: (KV, Action))
        ensures
            (r.0@, r.1@) == begin(blank(), Job::Open),
            r.0.spec_path() == p@,
            consistent(r.0@),
    {
        let mut store = KV {
            cab: Mapping::new(),
            path: p,
            lock: FileLock::new(LOOK_BUDGET),
            phase: Phase::Idle,
            request: Request::Open,
            pending: Pending::Nothing,
            creates_left: WRITE_RETRIES,
        };
        let action = store.start(Request::Open);
        (store, action)
    }

    /// The path of the backing file.
    pub fn path(&self) -> (p: &String)
        ensures
            p@ == self.spec_path(),
    {
        &self.path
    }

    /// The dictionary in memory: what the last transaction read, with its
    /// own change applied.
    pub fn mapping(&self) -> (m: &Mapping)
        ensures
            m@ == self@.cab,
    {
        &self.cab
    }

    /// Where the transaction stands.
    pub fn phase(&self) -> (phase: Phase)
        ensures
            phase == self@.phase,
    {
        self.phase
    }

    /// An upper bound on the reports that the transaction under way still
    /// takes.
    pub fn steps_left(&self) -> (n: u64)
        ensures
            n == steps_left(self@),
    {
        let looks = self.lock.looks_left as u64;
        let creates = self.creates_left as u64;
        match self.phase {
            Phase::Idle => 0,
            Phase::Releasing => 1,
            Phase::Writing { tries_left } => 2 + tries_left as u64,
            Phase::Reading => 3 + WRITE_RETRIES as u64,
            Phase::Creating => 4 + WRITE_RETRIES as u64 + looks + 2 * creates,
            Phase::Waiting => 5 + WRITE_RETRIES as u64 + looks + 2 * creates,
        }
    }

    /// Whether no transaction is under way.
    pub fn is_idle(&self) -> (idle: bool)
        ensures
            idle == (self@.phase is Idle),
    {
        match self.phase {
            Phase::Idle => true,
            _ => false,
        }
    }

    /// Begins a transaction.
    fn start(&mut self, request: Request) -> (action: Action)
        ensures
            (final(self)@, action@) == begin(old(self)@, request@),
            final(self).spec_path() == old(self).spec_path(),
            consistent(old(self)@) ==> consistent(final(self)@),
    {
        proof {
            if consistent(old(self)@) {
                law_writes_hold_lock(old(self)@, request@, Signal::Done);
            }
        }
        match self.phase {
            Phase::Idle => {
                let acquire = match &request {
                    Request::Insert(_, _) => true,
                    Request::Remove(_) => true,
                    _ => false,
                };
                let unlock = match &request {
                    Request::Unlock => true,
                    _ => false,
                };
                self.cab = Mapping::new();
                self.lock = FileLock::new(LOOK_BUDGET);
                self.request = request;
                self.pending = Pending::Nothing;
                self.creates_left = WRITE_RETRIES;
                if unlock {
                    self.phase = Phase::Releasing;
                    self.pending = Pending::Unlocked;
                    Action::Release
                } else {
                    self.phase = Phase::Waiting;
                    Action::Poll { acquire, pause_ms: 0 }
                }
            },
            _ => Action::Finish(Reply::Failed(KVError::OutOfTurn)),
        }
    }

    /// Begins the transaction that stores `value` under `key`: claim the
    /// file, read it, put the entry into what was read, write the snapshot,
    /// give the file back. It ends with `Reply::Stored`, or with
    /// `Reply::Failed` where the file is missing, stays locked or cannot be
    /// written.
    pub fn insert(&mut self, key: String, value: Value) -> (action: Action)
        ensures
            (final(self)@, action@) == begin(old(self)@, Job::Insert(key@, value@)),
            final(self).spec_path() == old(self).spec_path(),
            consistent(old(self)@) ==> consistent(final(self)@),
    {
        self.start(Request::Insert(key, value))
    }

    /// Begins the transaction that finds the value under `key`: wait for the
    /// file to be free and read it. It ends with `Reply::Found`.
    pub fn get(&mut self, key: String) -> (action: Action)
        ensures
            (final(self)@, action@) == begin(old(self)@, Job::Get(key@)),
            final(self).spec_path() == old(self).spec_path(),
            consistent(old(self)@) ==> consistent(final(self)@),
    {
        self.start(Request::Get(key))
    }

    /// Begins the transaction that removes `key`: claim the file, read it,
    /// take the key out of what was read, write the snapshot, give the file
    /// back. It ends with `Reply::Removed` whether or not the key was there,
    /// or with `Reply::Failed`.
    pub fn remove(&mut self, key: String) -> (action: Action)
        ensures
            (final(self)@, action@) == begin(old(self)@, Job::Remove(key@)),
            final(self).spec_path() == old(self).spec_path(),
            consistent(old(self)@) ==> consistent(final(self)@),
    {
        self.start(Request::Remove(key))
    }

    /// Begins the transaction that sets the file free without waiting for
    /// it: the way out when a holder died and left the file locked. It ends
    /// with `Reply::Unlocked`, or with `Reply::Failed` where the file is
    /// missing.
    pub fn unlock(&mut self) -> (action: Action)
        ensures
            (final(self)@, action@) == begin(old(self)@, Job::Unlock),
            final(self).spec_path() == old(self).spec_path(),
            consistent(old(self)@) ==> consistent(final(self)@),
    {
        self.start(Request::Unlock)
    }

    /// Begins the transaction that lists the keys: wait for the file to be
    /// free and read it. It ends with `Reply::Keys`.
    pub fn keys(&mut self) -> (action: Action)
        ensures
            (final(self)@, action@) == begin(old(self)@, Job::Keys),
            final(self).spec_path() == old(self).spec_path(),
            consistent(old(self)@) ==> consistent(final(self)@),
    {
        self.start(Request::Keys)
    }

    /// Ends the transaction with `reply`.
    fn finish(&mut self, reply: Reply) -> (action: Action)
        ensures
            (final(self)@, action@) == crate::protocol::finish(old(self)@, reply@),
            final(self).spec_path() == old(self).spec_path(),
            reads_back(final(self)@, action@),
    {
        self.phase = Phase::Idle;
        Action::Finish(reply)
    }

    /// Ends a transaction that could not read the file.
    fn give_up(&mut self, error: KVError) -> (action: Action)
        ensures
            (final(self)@, action@) == unread(old(self)@, error),
            final(self).spec_path() == old(self).spec_path(),
            reads_back(final(self)@, action@),
    {
        let reply = match &self.request {
            Request::Get(_) => Reply::Found(None),
            Request::Keys => {
                let none: Vec<String> = Vec::new();
                assert(none.deep_view() =~= Seq::<Seq<char>>::empty());
                Reply::Keys(none)
            },
            _ => Reply::Failed(error),
        };
        self.finish(reply)
    }

    /// Asks for the snapshot of the dictionary in memory to be written, with
    /// `pending` as the outcome once it is.
    fn write_out(&mut self, pending: Pending, tries_left: u32) -> (action: Action)
        ensures
            final(self)@ == (State {
                phase: Phase::Writing { tries_left },
                pending,
                ..old(self)@
            }),
            action@ == Step::Write(crate::format::dict_bytes(old(self)@.cab)),
            final(self).spec_path() == old(self).spec_path(),
            reads_back(final(self)@, action@),
    {
        self.phase = Phase::Writing { tries_left };
        self.pending = pending;
        Action::Write(encode(&self.cab))
    }

    /// Asks for the file to be given back, with `pending` as the outcome
    /// once it is.
    fn give_back(&mut self, pending: Pending) -> (action: Action)
        ensures
            final(self)@ == (State { phase: Phase::Releasing, pending, ..old(self)@ }),
            action@ == Step::Release,
            final(self).spec_path() == old(self).spec_path(),
            reads_back(final(self)@, action@),
    {
        self.phase = Phase::Releasing;
        self.pending = pending;
        Action::Release
    }

    /// Decides on the result of making the file: go on to mark it free, or,
    /// where it could not be made, look at it again, it may exist by now.
    fn after_create(&mut self, done: bool) -> (action: Action)
        requires
            old(self)@.phase is Creating,
        ensures
            (final(self)@, action@) == after_create(old(self)@, done),
            final(self).spec_path() == old(self).spec_path(),
            reads_back(final(self)@, action@),
    {
        if done {
            self.give_back(Pending::Created)
        } else if self.creates_left > 0 {
            self.creates_left = self.creates_left - 1;
            self.phase = Phase::Waiting;
            let acquire = match &self.request {
                Request::Insert(_, _) => true,
                Request::Remove(_) => true,
                _ => false,
            };
            Action::Poll { acquire, pause_ms: pause_for(WRITE_RETRIES, self.creates_left) }
        } else {
            self.finish(Reply::Failed(KVError::WriteFailure))
        }
    }

    /// Decides on one look at the lock indicator: look again, go on to read,
    /// make the file that an opening store found missing, or give up.
    fn wait_for_free(&mut self, seen: Seen) -> (action: Action)
        requires
            old(self)@.phase is Waiting,
        ensures
            (final(self)@, action@) == after_look(old(self)@, seen),
            final(self).spec_path() == old(self).spec_path(),
            reads_back(final(self)@, action@),
    {
        let acquire = match &self.request {
            Request::Insert(_, _) => true,
            Request::Remove(_) => true,
            _ => false,
        };
        match self.lock.wait_until_free(seen, acquire) {
            Verdict::Again => Action::Poll {
                acquire,
                pause_ms: pause_for(LOOK_BUDGET, self.lock.looks_left),
            },
            Verdict::Clear | Verdict::Acquired => {
                self.phase = Phase::Reading;
                Action::Read
            },
            Verdict::TimedOut => self.give_up(KVError::LockTimeout),
            Verdict::Unavailable => {
                let opening = match &self.request {
                    Request::Open => true,
                    _ => false,
                };
                if opening {
                    self.phase = Phase::Creating;
                    Action::Create(encode(&Mapping::new()))
                } else {
                    self.give_up(KVError::ResourceUnavailable)
                }
            },
        }
    }

    /// Takes what the file held as the dictionary in memory, the empty one
    /// where the file could not be read or is no snapshot, and does the
    /// transaction's work on it: answer a reading transaction, or change the
    /// dictionary and ask for the new snapshot to be written.
    fn load_from_persist(&mut self, content: Option<Vec<u8>>) -> (action: Action)
        requires
            old(self)@.phase is Reading,
        ensures
            (final(self)@, action@) == after_read(
                old(self)@,
                match content {
                    Some(bytes) => Some(bytes@),
                    None => None,
                },
            ),
            final(self).spec_path() == old(self).spec_path(),
            reads_back(final(self)@, action@),
    {
        let found = match content {
            Some(bytes) => match decode(bytes.as_slice()) {
                Ok(m) => Some(m),
                Err(_) => None,
            },
            None => None,
        };
        let loaded = found.is_some();
        self.cab = match found {
            Some(m) => m,
            None => Mapping::new(),
        };
        match &self.request {
            Request::Open => {
                let how = if loaded {
                    Opened::Loaded
                } else {
                    Opened::Recovered
                };
                self.finish(Reply::Opened(how))
            },
            Request::Get(k) => {
                let value = match self.cab.get(k) {
                    Some(v) => Some(v.clone()),
                    None => None,
                };
                self.finish(Reply::Found(value))
            },
            Request::Keys => {
                let ks = self.cab.keys();
                self.finish(Reply::Keys(ks))
            },
            Request::Unlock => self.finish(Reply::Unlocked),
            Request::Insert(k, v) => {
                let key = k.clone();
                let value = v.clone();
                self.cab.insert(key, value);
                self.write_out(Pending::Stored, WRITE_RETRIES)
            },
            Request::Remove(k) => {
                let key = k.clone();
                let _ = self.cab.remove(&key);
                self.write_out(Pending::Removed, WRITE_RETRIES)
            },
        }
    }

    /// Decides on the result of a write: go on to release the file, try the
    /// write again while tries are left, or fail.
    fn write_to_persist(&mut self, tries_left: u32, done: bool) -> (action: Action)
        requires
            old(self)@.phase == (Phase::Writing { tries_left }),
        ensures
            (final(self)@, action@) == after_write(old(self)@, tries_left, done),
            final(self).spec_path() == old(self).spec_path(),
            reads_back(final(self)@, action@),
    {
        if done {
            self.give_back(self.pending)
        } else if tries_left > 0 {
            self.write_out(self.pending, tries_left - 1)
        } else {
            self.give_back(Pending::WriteFailed)
        }
    }

    /// Marks the file as given back and ends the transaction.
    fn lock_cab(&mut self, done: bool) -> (action: Action)
        ensures
            (final(self)@, action@) == crate::protocol::after_release(old(self)@, done),
            final(self).spec_path() == old(self).spec_path(),
            reads_back(final(self)@, action@),
    {
        let _ = self.lock.release();
        let unlocking = match self.pending {
            Pending::Unlocked => true,
            _ => false,
        };
        if unlocking && !done {
            self.finish(Reply::Failed(KVError::ResourceUnavailable))
        } else {
            self.finish(reply_of(self.pending))
        }
    }

    /// Takes the driver's report on the last action and returns the next
    /// action. A report of the wrong kind counts as the failure of what was
    /// asked for; a report while no transaction is under way is answered
    /// with `KVError::OutOfTurn` and changes nothing.
    pub fn step(&mut self, event: Event) -> (action: Action)
        ensures
            (final(self)@, action@) == next(old(self)@, event@),
            final(self).spec_path() == old(self).spec_path(),
            reads_back(final(self)@, action@),
            consistent(old(self)@) ==> consistent(final(self)@),
    {
        proof {
            if consistent(old(self)@) {
                law_writes_hold_lock(old(self)@, Job::Open, event@);
            }
        }
        match self.phase {
            Phase::Idle => Action::Finish(Reply::Failed(KVError::OutOfTurn)),
            Phase::Waiting => {
                let seen = match event {
                    Event::Seen(seen) => seen,
                    _ => Seen::Unavailable,
                };
                self.wait_for_free(seen)
            },
            Phase::Reading => {
                let content = match event {
                    Event::Bytes(bytes) => Some(bytes),
                    _ => None,
                };
                self.load_from_persist(content)
            },
            Phase::Creating => {
                let done = match event {
                    Event::Done => true,
                    _ => false,
                };
                self.after_create(done)
            },
            Phase::Writing { tries_left } => {
                let done = match event {
                    Event::Done => true,
                    _ => false,
                };
                self.write_to_persist(tries_left, done)
            },
            Phase::Releasing => {
                let done = match event {
                    Event::Done => true,
                    _ => false,
                };
                self.lock_cab(done)
            },
        }
    }
}

} // verus!
