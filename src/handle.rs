//! The consumer side of a key: a cached level and the decisions of the level
//! and edge waits. The caller suspends on the channel (`signal.wait()`) when a
//! decision says `Block`, and hands each value it receives back here.
use crate::channel::{take_pending, KeyChannel};
use vstd::prelude::*;

verus! {

/// What a wait is for.
#[derive(Clone, Copy, Debug, PartialEq, Eq, Structural)]
pub enum WaitGoal {
    /// Until the key's level equals the given one.
    Level(bool),
    /// The next transition, whatever its direction.
    AnyEdge,
    /// The next transition to pressed (true).
    RisingEdge,
    /// The next transition to released (false).
    FallingEdge,
}

/// What the waiting task does next.
#[derive(Clone, Copy, Debug, PartialEq, Eq, Structural)]
pub enum WaitStep {
    /// The wait is over; the level observed last.
    Ready(bool),
    /// Suspend on the channel and hand the received value to `resume_wait`.
    Block,
}

/// Whether a level received on the channel ends a wait for `goal`.
pub open spec fn ends_wait(goal: WaitGoal, level: bool) -> bool {
    match goal {
        WaitGoal::Level(target) => level == target,
        WaitGoal::AnyEdge => true,
        WaitGoal::RisingEdge => level,
        WaitGoal::FallingEdge => !level,
    }
}

/// A consumer's view of one key, bound to that key's channel.
pub struct KeyPin<'a> {
    signal: &'a KeyChannel,
    state: bool,
    drains: Ghost<nat>,
}

impl<'a> KeyPin<'a> {
    /// The level last observed by this handle.
    pub closed spec fn cached(&self) -> bool {
        self.state
    }

    /// The channel this handle listens on.
    pub closed spec fn chan(&self) -> &'a KeyChannel {
        self.signal
    }

    /// How many times this handle has taken (and so emptied) its channel's
    /// slot without waiting.
    pub closed spec fn drains(&self) -> nat {
        self.drains@
    }

    /// Takes whatever is pending on the channel, counting the drain.
    fn drain(&mut self) -> (r: Option<bool>)
        ensures
            final(self).drains() == old(self).drains() + 1,
            final(self).cached() == old(self).cached(),
            final(self).chan() == old(self).chan(),
    {
        let taken = take_pending(self.signal);
        self.drains = Ghost(self.drains@ + 1);
        taken
    }

    /// A handle on `signal` that has observed nothing yet (released).
    pub fn new(signal: &'a KeyChannel) -> (r: Self)
        ensures
            r.cached() == false,
            r.chan() == signal,
            r.drains() == 0,
    {
        KeyPin { state: false, signal, drains: Ghost(0) }
    }

    /// The channel this handle listens on.
    pub fn channel(&self) -> (r: &'a KeyChannel)
        ensures
            r == self.chan(),
    {
        self.signal
    }

    /// Folds the value taken from the channel, if any, into the cached level
    /// and returns the cached level.
    pub fn absorb(&mut self, taken: Option<bool>) -> (r: bool)
        ensures
            final(self).cached() == match taken {
                Some(v) => v,
                None => old(self).cached(),
            },
            r == final(self).cached(),
            final(self).chan() == old(self).chan(),
            final(self).drains() == old(self).drains(),
    {
        match taken {
            Some(v) => {
                self.state = v;
            },
            None => {},
        }
        self.state
    }

    /// Whether the key is pressed, consuming a pending value if there is one.
    /// Never suspends.
    pub fn is_high(&mut self) -> (r: bool)
        ensures
            r == final(self).cached(),
            final(self).chan() == old(self).chan(),
            final(self).drains() == old(self).drains() + 1,
    {
        let taken = self.drain();
        self.absorb(taken)
    }

    /// Whether the key is released, consuming a pending value if there is one.
    /// Never suspends.
    pub fn is_low(&mut self) -> (r: bool)
        ensures
            r == !final(self).cached(),
            final(self).chan() == old(self).chan(),
            final(self).drains() == old(self).drains() + 1,
    {
        let taken = self.drain();
        !self.absorb(taken)
    }

    /// How a wait for `goal` begins, given what was pending on the channel.
    /// A level wait first takes the pending value as `is_high` does and is over
    /// at once when the level already equals its target. An edge wait drops the
    /// pending value unread, keeps the cached level, and always suspends, so
    /// that the edge it reports happens after it began.
    pub fn begin_wait_with(&mut self, goal: WaitGoal, pending: Option<bool>) -> (r: WaitStep)
        ensures
            match goal {
                WaitGoal::Level(target) => {
                    &&& final(self).cached() == match pending {
                        Some(v) => v,
                        None => old(self).cached(),
                    }
                    &&& r == if final(self).cached() == target {
                        WaitStep::Ready(target)
                    } else {
                        WaitStep::Block
                    }
                },
                _ => final(self).cached() == old(self).cached() && r == WaitStep::Block,
            },
            final(self).chan() == old(self).chan(),
            final(self).drains() == old(self).drains(),
    {
        match goal {
            WaitGoal::Level(target) => {
                let cur = self.absorb(pending);
                if cur == target {
                    WaitStep::Ready(cur)
                } else {
                    WaitStep::Block
                }
            },
            _ => WaitStep::Block,
        }
    }

    /// Begins a wait for `goal`: drains the channel once, then decides as
    /// `begin_wait_with` does on what was pending.
    pub fn begin_wait(&mut self, goal: WaitGoal) -> (r: WaitStep)
        ensures
            match goal {
                WaitGoal::Level(target) => r == if final(self).cached() == target {
                    WaitStep::Ready(target)
                } else {
                    WaitStep::Block
                },
                _ => final(self).cached() == old(self).cached() && r == WaitStep::Block,
            },
            final(self).chan() == old(self).chan(),
            final(self).drains() == old(self).drains() + 1,
    {
        let pending = self.drain();
        self.begin_wait_with(goal, pending)
    }

    /// Takes a level received from the channel during a wait for `goal`: the
    /// level is cached, and the wait is over exactly when the level is what
    /// `goal` waits for. An edge wait that goes on drops whatever is pending
    /// before it suspends again, as it did when it began.
    pub fn resume_wait(&mut self, goal: WaitGoal, level: bool) -> (r: WaitStep)
        ensures
            final(self).cached() == level,
            r == if ends_wait(goal, level) {
                WaitStep::Ready(level)
            } else {
                WaitStep::Block
            },
            final(self).chan() == old(self).chan(),
            final(self).drains() == old(self).drains() + if !ends_wait(goal, level) && (goal
                is RisingEdge || goal is FallingEdge) {
                1nat
            } else {
                0nat
            },
    {
        self.state = level;
        match goal {
            WaitGoal::Level(target) => {
                if level == target {
                    WaitStep::Ready(level)
                } else {
                    WaitStep::Block
                }
            },
            WaitGoal::AnyEdge => WaitStep::Ready(level),
            WaitGoal::RisingEdge => {
                if level {
                    WaitStep::Ready(level)
                } else {
                    let _ = self.drain();
                    WaitStep::Block
                }
            },
            WaitGoal::FallingEdge => {
                if !level {
                    WaitStep::Ready(level)
                } else {
                    let _ = self.drain();
                    WaitStep::Block
                }
            },
        }
    }
}

} // verus!
