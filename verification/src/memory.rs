//! A backing file held in memory, and the loop that runs a transaction
//! against it. A driver for a real file runs the same loop, with the file
//! system in the place of `MemoryFile::serve`.

use vstd::prelude::*;
use vstd::slice::slice_to_vec;
use crate::disk::{run, serve, Disk};
use crate::lock::{Indicator, Seen};
use crate::protocol::{law_transaction_ends, steps_left, KVError};
use crate::store::{Action, Event, Reply, KV};

verus! {

/// A file in memory: its content, `None` while it does not exist, and its
/// lock indicator. It does what it is asked, and nobody else touches it.
#[derive(Debug, PartialEq)]
pub struct MemoryFile {
    pub content: Option<Vec<u8>>,
    pub indicator: Indicator,
}

impl View for MemoryFile {
    type V = Disk;

    open spec fn view(&self) -> Disk {
        Disk {
            content: match self.content {
                Some(bytes) => Some(bytes@),
                None => None,
            },
            indicator: self.indicator,
        }
    }
}

impl MemoryFile {
    /// No file.
    pub fn missing() -> (file: MemoryFile)
        ensures
            file@ == (Disk { content: None, indicator: Indicator::Locked }),
    {
        MemoryFile { content: None, indicator: Indicator::Locked }
    }

    /// A free file that holds `bytes`.
    pub fn holding(bytes: Vec<u8>) -> (file: MemoryFile)
        ensures
            file@ == (Disk { content: Some(bytes@), indicator: Indicator::Free }),
    {
        MemoryFile { content: Some(bytes), indicator: Indicator::Free }
    }

    /// Does to the file what `action` asks, and reports.
    pub fn serve(&mut self, action: Action) -> (event: Event)
        ensures
            (final(self)@, event@) == serve(old(self)@, action@),
    {
        match action {
            Action::Poll { acquire, .. } => {
                if self.content.is_none() {
                    Event::Seen(Seen::Unavailable)
                } else {
                    match self.indicator {
                        Indicator::Free => {
                            if acquire {
                                self.indicator = Indicator::Locked;
                            }
                            Event::Seen(Seen::Free)
                        },
                        Indicator::Locked => Event::Seen(Seen::Locked),
                    }
                }
            },
            Action::Read => match &self.content {
                Some(bytes) => Event::Bytes(slice_to_vec(bytes.as_slice())),
                None => Event::Failed,
            },
            Action::Create(bytes) => {
                if self.content.is_none() {
                    self.indicator = Indicator::Locked;
                    self.content = Some(bytes);
                    Event::Done
                } else {
                    Event::Failed
                }
            },
            Action::Write(bytes) => {
                if self.content.is_none() {
                    self.indicator = Indicator::Locked;
                }
                self.content = Some(bytes);
                Event::Done
            },
            Action::Release => {
                if self.content.is_none() {
                    Event::Failed
                } else {
                    self.indicator = Indicator::Free;
                    Event::Done
                }
            },
            Action::Finish(_) => Event::Done,
        }
    }
}

impl KV {
    /// Runs the transaction that `first` began against `file`, to its end:
    /// serves each action and reports the result, until the store answers.
    pub fn run(&mut self, first: Action, file: &mut MemoryFile) -> (reply: Reply)
        ensures
            (final(self)@, final(file)@, reply@) == run(
                old(self)@,
                first@,
                old(file)@,
                steps_left(old(self)@),
            ),
    {
        let mut action = first;
        let mut fuel = self.steps_left();
        loop
            invariant
                run(old(self)@, first@, old(file)@, steps_left(old(self)@)) == run(
                    self@,
                    action@,
                    file@,
                    fuel as nat,
                ),
                !(action@ is Finish) ==> steps_left(self@) <= fuel,
            decreases fuel,
        {
            match action {
                Action::Finish(reply) => {
                    return reply;
                },
                _ => {},
            }
            if fuel == 0 {
                return Reply::Failed(KVError::OutOfTurn);
            }
            let event = file.serve(action);
            proof {
                law_transaction_ends(self@, event@);
            }
            action = self.step(event);
            fuel = fuel - 1;
        }
    }
}

} // verus!
