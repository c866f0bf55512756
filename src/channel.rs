//! The single-slot, latest-value-wins notification channel shared between the
//! scanner and one consumer.
use embassy_sync::blocking_mutex::raw::CriticalSectionRawMutex;
use embassy_sync::signal::Signal;
use vstd::prelude::*;

verus! {

/// A key's notification channel: embassy_sync's `Signal`, which holds at most
/// one value; a new value replaces one that was not yet taken.
/// Verus cannot declare `Signal` itself (its mutex parameter is bound by an
/// outside trait), so the channel is opaque here and reached only through the
/// two functions below. The scanner posts to it and one consumer task awaits it
/// (`signal.wait()`), both through shared references.
#[verifier::external_body]
pub struct KeyChannel {
    pub signal: Signal<CriticalSectionRawMutex, bool>,
}

/// Relies on embassy_sync's `Signal::signal`: stores `level` in the slot,
/// replacing any value not yet taken, and wakes the waiting task.
/// The slot sits behind a shared reference, so nothing is stated of it here.
#[verifier::external_body]
pub(crate) fn post_level(ch: &KeyChannel, level: bool) {
    ch.signal.signal(level)
}

/// Relies on embassy_sync's `Signal::try_take`: takes the pending value out of
/// the slot without waiting, or returns `None` when there is none.
/// The slot is shared with the scanner, so any outcome is possible here.
#[verifier::external_body]
pub(crate) fn take_pending(ch: &KeyChannel) -> (r: Option<bool>) {
    ch.signal.try_take()
}

} // verus!
