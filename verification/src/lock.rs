//! The advisory file lock: one indicator on the backing file, free or
//! locked, and the rules by which a holder waits for it, claims it and gives
//! it back.
//!
//! The indicator is the file's read-only attribute. A file that is read-only
//! is free; a holder makes it writable for as long as it writes, and makes it
//! read-only again when it is done.

use vstd::prelude::*;

verus! {

/// The state of the lock indicator.
#[derive(Debug, PartialEq, Eq, Clone, Copy, Structural)]
pub enum Indicator {
    /// Nobody holds the file.
    Free,
    /// One holder has claimed the file.
    Locked,
}

/// What one look at the backing file showed. With a request to acquire, the
/// look and the claim are one atomic step of the driver: `Free` then means
/// that the file was free and is now claimed for the caller.
#[derive(Debug, PartialEq, Eq, Clone, Copy, Structural)]
pub enum Seen {
    /// The indicator showed free.
    Free,
    /// The indicator showed locked.
    Locked,
    /// The file's metadata could not be read.
    Unavailable,
}

/// What a waiter does after one look.
#[derive(Debug, PartialEq, Eq, Clone, Copy, Structural)]
pub enum Verdict {
    /// The file is free and was not to be claimed: go on.
    Clear,
    /// The file was free and is now held by the caller: go on.
    Acquired,
    /// The file is locked: wait, then look again.
    Again,
    /// The file stayed locked for the whole budget of looks: give up.
    TimedOut,
    /// The file cannot be examined: give up.
    Unavailable,
}

/// The indicator that a read-only attribute stands for.
pub open spec fn spec_indicator_of(readonly: bool) -> Indicator {
    if readonly {
        Indicator::Free
    } else {
        Indicator::Locked
    }
}

/// The read-only attribute that shows an indicator.
pub open spec fn spec_readonly_for(indicator: Indicator) -> bool {
    indicator == Indicator::Free
}

/// The indicator that a read-only attribute stands for.
pub fn indicator_of(readonly: bool) -> (indicator: Indicator)
    ensures
        indicator == spec_indicator_of(readonly),
{
    if readonly {
        Indicator::Free
    } else {
        Indicator::Locked
    }
}

/// The read-only attribute that shows an indicator.
pub fn readonly_for(indicator: Indicator) -> (readonly: bool)
    ensures
        readonly == spec_readonly_for(indicator),
{
    match indicator {
        Indicator::Free => true,
        Indicator::Locked => false,
    }
}

/// Acquire and release agree on the polarity: the attribute written for an
/// indicator reads back as that indicator, and the two indicators are
/// written differently.
pub proof fn law_polarity(indicator: Indicator, readonly: bool)
    ensures
        spec_indicator_of(spec_readonly_for(indicator)) == indicator,
        spec_readonly_for(spec_indicator_of(readonly)) == readonly,
        spec_readonly_for(Indicator::Free) != spec_readonly_for(Indicator::Locked),
{
}

/// One waiter's side of the lock: whether it holds the file, and how many
/// more looks it may take before it gives up.
#[derive(Debug, PartialEq, Eq, Clone, Copy, Structural)]
pub struct FileLock {
    pub held: bool,
    pub looks_left: u32,
}

/// The waiter after one look, and what it does next.
pub open spec fn spec_wait(lock: FileLock, seen: Seen, acquire: bool) -> (FileLock, Verdict) {
    match seen {
        Seen::Unavailable => (lock, Verdict::Unavailable),
        Seen::Free => if acquire {
            (FileLock { held: true, looks_left: lock.looks_left }, Verdict::Acquired)
        } else {
            (lock, Verdict::Clear)
        },
        Seen::Locked => if lock.looks_left > 0 {
            (
                FileLock { held: lock.held, looks_left: (lock.looks_left - 1) as u32 },
                Verdict::Again,
            )
        } else {
            (lock, Verdict::TimedOut)
        },
    }
}

impl FileLock {
    /// A waiter that holds nothing and may look `budget` more times after
    /// its first look.
    pub fn new(budget: u32) -> (lock: FileLock)
        ensures
            lock == (FileLock { held: false, looks_left: budget }),
    {
        FileLock { held: false, looks_left: budget }
    }

    /// Decides on one look at the file. A free file lets the waiter through,
    /// as its holder if it asked to acquire; a locked file costs one look,
    /// and the last look ends the wait; a file that cannot be examined ends
    /// it at once.
    pub fn wait_until_free(&mut self, seen: Seen, acquire: bool) -> (verdict: Verdict)
        ensures
            (*final(self), verdict) == spec_wait(*old(self), seen, acquire),
    {
        match seen {
            Seen::Unavailable => Verdict::Unavailable,
            Seen::Free => {
                if acquire {
                    self.held = true;
                    Verdict::Acquired
                } else {
                    Verdict::Clear
                }
            },
            Seen::Locked => {
                if self.looks_left > 0 {
                    self.looks_left = self.looks_left - 1;
                    Verdict::Again
                } else {
                    Verdict::TimedOut
                }
            },
        }
    }

    /// Gives the file back. Returns the indicator that the driver must now
    /// write, which is free, if the caller held the file; a waiter that held
    /// nothing has nothing to write.
    pub fn release(&mut self) -> (write: Option<Indicator>)
        ensures
            !final(self).held,
            final(self).looks_left == old(self).looks_left,
            write == (if old(self).held {
                Some(Indicator::Free)
            } else {
                None
            }),
    {
        let was_held = self.held;
        self.held = false;
        if was_held {
            Some(Indicator::Free)
        } else {
            None
        }
    }
}

/// The longest pause between two looks, in milliseconds.
pub const MAX_PAUSE_MS: u64 = 64;

/// How long a waiter pauses after its `attempt`-th look found the file
/// locked, counting from zero: one millisecond at first, twice as long after
/// each further look, and never more than `MAX_PAUSE_MS`.
pub open spec fn spec_pause_ms(attempt: u32) -> u64 {
    if attempt >= 6 {
        MAX_PAUSE_MS
    } else {
        vstd::arithmetic::power2::pow2(attempt as nat) as u64
    }
}

/// How long to pause after a look that found the file locked, so that a
/// waiter sleeps instead of spinning.
pub fn pause_ms(attempt: u32) -> (ms: u64)
    ensures
        ms == spec_pause_ms(attempt),
        1 <= ms <= MAX_PAUSE_MS,
{
    proof {
        vstd::arithmetic::power2::lemma2_to64();
    }
    match attempt {
        0 => 1,
        1 => 2,
        2 => 4,
        3 => 8,
        4 => 16,
        5 => 32,
        _ => MAX_PAUSE_MS,
    }
}

/// A wait ends: each look that says "again" uses up one of the looks left,
/// so a waiter looks at most `looks_left + 1` times.
pub proof fn law_wait_is_bounded(lock: FileLock, seen: Seen, acquire: bool)
    ensures
        spec_wait(lock, seen, acquire).1 == Verdict::Again ==> spec_wait(
            lock,
            seen,
            acquire,
        ).0.looks_left < lock.looks_left,
        spec_wait(lock, seen, acquire).1 != Verdict::Again ==> spec_wait(
            lock,
            seen,
            acquire,
        ).0.looks_left == lock.looks_left,
        spec_wait(lock, seen, acquire).0.held ==> lock.held || (acquire && seen == Seen::Free),
{
}

} // verus!
