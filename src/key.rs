//! Per-key state on the scanner side: a latched level and an optional channel.
use crate::channel::{post_level, KeyChannel};
use vstd::prelude::*;

verus! {

/// What a key cell is, as far as its behaviour goes: the latched logical
/// level (true = pressed), whether a channel is bound, and every level that
/// the cell has posted to its channel, oldest first.
pub struct KeyCellView {
    pub state: bool,
    pub bound: bool,
    pub sent: Seq<bool>,
}

/// The effect of sampling `level` for a cell: a channel post when the level
/// differs from the latched one and a channel is bound, then the level latched.
pub open spec fn cell_after(v: KeyCellView, level: bool) -> KeyCellView {
    KeyCellView {
        state: level,
        bound: v.bound,
        sent: if level != v.state && v.bound { v.sent.push(level) } else { v.sent },
    }
}

/// One cell of the grid. Only the scanner writes it.
#[derive(Clone, Copy)]
pub struct KeyState<'a> {
    signal: Option<&'a KeyChannel>,
    state: bool,
    sent: Ghost<Seq<bool>>,
}

impl<'a> View for KeyState<'a> {
    type V = KeyCellView;

    closed spec fn view(&self) -> KeyCellView {
        KeyCellView { state: self.state, bound: self.signal.is_some(), sent: self.sent@ }
    }
}

impl<'a> KeyState<'a> {
    /// The channel bound to this cell, if any.
    pub closed spec fn channel(&self) -> Option<&'a KeyChannel> {
        self.signal
    }

    /// A released cell with no channel.
    pub fn new() -> (r: Self)
        ensures
            r@ == (KeyCellView { state: false, bound: false, sent: Seq::empty() }),
            r.channel() == None::<&'a KeyChannel>,
    {
        KeyState { signal: None, state: false, sent: Ghost(Seq::empty()) }
    }

    /// Binds `s` as the cell's channel; level and history are kept.
    pub fn bind(&mut self, s: &'a KeyChannel)
        ensures
            final(self)@ == (KeyCellView { bound: true, ..old(self)@ }),
            final(self).channel() == Some(s),
    {
        self.signal = Some(s);
    }

    /// Whether a channel is bound.
    pub fn is_bound(&self) -> (r: bool)
        ensures
            r == self@.bound,
    {
        self.signal.is_some()
    }

    /// The latched level.
    pub fn is_pressed(&self) -> (r: bool)
        ensures
            r == self@.state,
    {
        self.state
    }

    /// Latches a newly sampled level, posting it to the bound channel when it
    /// differs from the latched one.
    pub fn set_value(&mut self, state: bool)
        ensures
            final(self)@ == cell_after(old(self)@, state),
            final(self).channel() == old(self).channel(),
    {
        if state != self.state {
            match self.signal {
                Some(s) => {
                    post_level(s, state);
                    self.sent = Ghost(self.sent@.push(state));
                },
                None => {},
            }
        }
        self.state = state;
    }
}

/// Sampling the same level twice in a row posts at most once, and the
/// second sample changes nothing.
pub proof fn lemma_repeat_sample_posts_once(v: KeyCellView, level: bool)
    ensures
        cell_after(cell_after(v, level), level) == cell_after(v, level),
        cell_after(cell_after(v, level), level).sent.len() <= v.sent.len() + 1,
{
}

} // verus!
