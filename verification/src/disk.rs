//! The backing file, as mathematics: what a faithful driver does to it for
//! each request of the store, and how a whole transaction runs against it.

use vstd::prelude::*;
use crate::lock::{Indicator, Seen};
use crate::protocol::{begin, next, steps_left, Answer, Job, KVError, Signal, State, Step};

verus! {

/// The backing file: its content, `None` while it does not exist, and its
/// lock indicator.
pub struct Disk {
    pub content: Option<Seq<u8>>,
    pub indicator: Indicator,
}

/// A faithful driver: what one request does to the file, and the report. A
/// file that is made starts out locked, as a new file is writable; a file
/// that exists is not made again.
pub open spec fn serve(disk: Disk, step: Step) -> (Disk, Signal) {
    match step {
        Step::Poll { acquire, .. } => match disk.content {
            None => (disk, Signal::Seen(Seen::Unavailable)),
            Some(_) => match disk.indicator {
                Indicator::Free => (
                    Disk {
                        content: disk.content,
                        indicator: if acquire {
                            Indicator::Locked
                        } else {
                            Indicator::Free
                        },
                    },
                    Signal::Seen(Seen::Free),
                ),
                Indicator::Locked => (disk, Signal::Seen(Seen::Locked)),
            },
        },
        Step::Read => match disk.content {
            Some(b) => (disk, Signal::Bytes(b)),
            None => (disk, Signal::Failed),
        },
        Step::Create(b) => match disk.content {
            None => (Disk { content: Some(b), indicator: Indicator::Locked }, Signal::Done),
            Some(_) => (disk, Signal::Failed),
        },
        Step::Write(b) => (
            Disk {
                content: Some(b),
                indicator: if disk.content is None {
                    Indicator::Locked
                } else {
                    disk.indicator
                },
            },
            Signal::Done,
        ),
        Step::Release => match disk.content {
            Some(_) => (Disk { content: disk.content, indicator: Indicator::Free }, Signal::Done),
            None => (disk, Signal::Failed),
        },
        Step::Finish(_) => (disk, Signal::Done),
    }
}

/// The store, the file and the answer once the requests from `step` on have
/// been served, at most `fuel` of them.
pub open spec fn run(s: State, step: Step, disk: Disk, fuel: nat) -> (State, Disk, Answer)
    decreases fuel,
{
    match step {
        Step::Finish(answer) => (s, disk, answer),
        _ => if fuel == 0 {
            (s, disk, Answer::Failed(KVError::OutOfTurn))
        } else {
            let (disk2, signal) = serve(disk, step);
            let (s2, step2) = next(s, signal);
            run(s2, step2, disk2, (fuel - 1) as nat)
        },
    }
}

/// One whole transaction of an idle store against the file.
pub open spec fn transact(s: State, job: Job, disk: Disk) -> (State, Disk, Answer) {
    let (s1, step1) = begin(s, job);
    run(s1, step1, disk, steps_left(s1))
}

/// A file that exists, holds `b` and is free.
pub open spec fn free_file(b: Seq<u8>) -> Disk {
    Disk { content: Some(b), indicator: Indicator::Free }
}

/// A file that exists, holds `b` and is locked by someone else.
pub open spec fn locked_file(b: Seq<u8>) -> Disk {
    Disk { content: Some(b), indicator: Indicator::Locked }
}

} // verus!
