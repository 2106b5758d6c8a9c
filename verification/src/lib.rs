//! A single-file key-value store: a dictionary of nested values, its byte
//! snapshot, and the locking and transaction rules that keep the two in step.
//!
//! Everything here is free of I/O. A store asks for one file operation at a
//! time; a driver performs it and reports what happened. `MemoryFile` is such
//! a driver for a file held in memory.
//!
//! - `value`, `mapping`, `dict`: the values, the dictionary, and what lookup,
//!   insertion and removal mean.
//! - `wire`, `format`, `codec`, `roundtrip`: the snapshot format, the codec,
//!   and the proof that every snapshot reads back as what was written.
//! - `lock`: the lock indicator and the rules of waiting for it.
//! - `protocol`, `store`: the transactions, as mathematics and as code.
//! - `disk`, `memory`: the backing file, as mathematics and in memory.
//! - `laws`, `race`: what holds of whole transactions, alone and when two
//!   stores write at the same time.

pub mod codec;
pub mod dict;
pub mod disk;
pub mod format;
pub mod laws;
pub mod lock;
pub mod mapping;
pub mod memory;
pub mod protocol;
pub mod race;
pub mod roundtrip;
pub mod store;
pub mod value;
pub mod wire;

pub use crate::codec::{decode, encode, DecodeFailure};
pub use crate::lock::{FileLock, Indicator, Seen, Verdict};
pub use crate::memory::MemoryFile;
pub use crate::protocol::{KVError, Opened};
pub use crate::store::{Action, Event, KVResult, Reply, Request, KV};
pub use crate::value::{Entry, Mapping, Value};
