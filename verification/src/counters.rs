//! Running aggregates: how many items, and how many bytes they occupy.

use vstd::prelude::*;

verus! {

/// A tally of items and of the bytes they occupy.
#[derive(Debug, Clone, Copy, PartialEq, Eq, Structural)]
pub struct ItemCounter {
    pub count: usize,
    pub total_size: u64,
}

impl ItemCounter {
    /// The tally after one more item of `size` bytes; both parts stop at their
    /// type's largest value.
    pub open spec fn added(self, size: u64) -> ItemCounter {
        ItemCounter {
            count: if self.count < usize::MAX {
                (self.count + 1) as usize
            } else {
                usize::MAX
            },
            total_size: if self.total_size + size <= u64::MAX {
                (self.total_size + size) as u64
            } else {
                u64::MAX
            },
        }
    }

    /// Whether an item of `size` bytes can leave the tally without either part
    /// going below zero.
    pub open spec fn can_remove(self, size: u64) -> bool {
        self.count >= 1 && self.total_size >= size
    }

    /// The tally after an item of `size` bytes has left it.
    pub open spec fn removed(self, size: u64) -> ItemCounter
        recommends
            self.can_remove(size),
    {
        ItemCounter {
            count: (self.count - 1) as usize,
            total_size: (self.total_size - size) as u64,
        }
    }

    /// The tally after an attempt to take an item of `size` bytes out of it:
    /// an attempt that would take it below zero changes nothing.
    pub open spec fn taken(self, size: u64) -> ItemCounter {
        if self.can_remove(size) {
            self.removed(size)
        } else {
            self
        }
    }

    /// The empty tally.
    pub open spec fn zero() -> ItemCounter {
        ItemCounter { count: 0, total_size: 0 }
    }

    /// The empty tally.
    pub fn new() -> (c: Self)
        ensures
            c == Self::zero(),
    {
        ItemCounter { count: 0, total_size: 0 }
    }

    /// Counts one more item of `size` bytes.
    pub fn add(&mut self, size: u64)
        ensures
            *final(self) == old(self).added(size),
    {
        self.count = self.count.saturating_add(1);
        self.total_size = self.total_size.saturating_add(size);
    }

    /// Takes an item of `size` bytes out of the tally. A removal that would
    /// take the count or the volume below zero is refused and changes nothing.
    pub fn remove(&mut self, size: u64) -> (done: bool)
        ensures
            done == old(self).can_remove(size),
            *final(self) == old(self).taken(size),
    {
        if self.count >= 1 && self.total_size >= size {
            self.count -= 1;
            self.total_size -= size;
            true
        } else {
            false
        }
    }
}

impl Default for ItemCounter {
    fn default() -> (c: Self)
        ensures
            c == Self::zero(),
    {
        ItemCounter::new()
    }
}

/// The three aggregates of the deletion pipeline: removals in flight,
/// removals completed, removals that failed.
#[derive(Debug, Clone, Copy, PartialEq, Eq, Structural)]
pub struct Log {
    pub current: ItemCounter,
    pub history: ItemCounter,
    pub failed: ItemCounter,
}

impl Log {
    /// The log in which nothing has happened yet.
    pub open spec fn empty() -> Log {
        Log { current: ItemCounter::zero(), history: ItemCounter::zero(), failed: ItemCounter::zero() }
    }

    /// The log after a removal of `size` bytes has started.
    pub open spec fn started(self, size: u64) -> Log {
        Log { current: self.current.added(size), ..self }
    }

    /// The log after a removal in flight has completed. A completion that the
    /// in-flight tally cannot account for leaves the log as it was.
    pub open spec fn completed(self, size: u64) -> Log {
        if self.current.can_remove(size) {
            Log {
                current: self.current.removed(size),
                history: self.history.added(size),
                ..self
            }
        } else {
            self
        }
    }

    /// The log after a removal in flight has failed. A failure that the
    /// in-flight tally cannot account for leaves the log as it was.
    pub open spec fn aborted(self, size: u64) -> Log {
        if self.current.can_remove(size) {
            Log {
                current: self.current.removed(size),
                failed: self.failed.added(size),
                ..self
            }
        } else {
            self
        }
    }

    /// Records that a removal of `size` bytes has started.
    pub fn add(&mut self, size: u64)
        ensures
            *final(self) == old(self).started(size),
    {
        self.current.add(size);
    }

    /// Moves a removal of `size` bytes from in flight to completed.
    pub fn finished(&mut self, size: u64) -> (done: bool)
        ensures
            done == old(self).current.can_remove(size),
            *final(self) == old(self).completed(size),
    {
        if self.current.remove(size) {
            self.history.add(size);
            true
        } else {
            false
        }
    }

    /// Moves a removal of `size` bytes from in flight to failed.
    pub fn failed(&mut self, size: u64) -> (done: bool)
        ensures
            done == old(self).current.can_remove(size),
            *final(self) == old(self).aborted(size),
    {
        if self.current.remove(size) {
            self.failed.add(size);
            true
        } else {
            false
        }
    }
}

impl Default for Log {
    fn default() -> (l: Self)
        ensures
            l == Self::empty(),
    {
        Log { current: ItemCounter::new(), history: ItemCounter::new(), failed: ItemCounter::new() }
    }
}

/// A removal that starts and then completes leaves the in-flight tally where
/// it was and adds the item to the completed tally, as long as the in-flight
/// tally did not overflow.
pub proof fn lemma_start_then_complete(log: Log, size: u64)
    requires
        log.current.count < usize::MAX,
        log.current.total_size + size <= u64::MAX,
    ensures
        log.started(size).completed(size).current == log.current,
        log.started(size).completed(size).history == log.history.added(size),
        log.started(size).completed(size).failed == log.failed,
{
}

/// A removal that starts and then fails leaves the in-flight tally where it
/// was and adds the item to the failed tally, as long as the in-flight tally
/// did not overflow.
pub proof fn lemma_start_then_abort(log: Log, size: u64)
    requires
        log.current.count < usize::MAX,
        log.current.total_size + size <= u64::MAX,
    ensures
        log.started(size).aborted(size).current == log.current,
        log.started(size).aborted(size).failed == log.failed.added(size),
        log.started(size).aborted(size).history == log.history,
{
}

/// No sequence of additions and removals takes a tally below zero: a removal
/// is applied only where both parts stay at or above zero.
pub proof fn lemma_counter_never_underflows(c: ItemCounter, size: u64)
    ensures
        c.can_remove(size) ==> c.removed(size).count + 1 == c.count && c.removed(size).total_size
            + size == c.total_size,
        c.added(size).count >= c.count,
        c.added(size).total_size >= c.total_size,
{
}

} // verus!
