//! A causal context compared by strict happened-before rather than by
//! reflexive descent.
use vstd::prelude::*;

use crate::causal::{bumped, count_of, happened_before, join, strictly_concurrent, ContextModel};
use crate::version_vector::VersionVector;

verus! {

/// A vector clock: a causal context whose `concurrent` is the negation of
/// strict precedence in both directions.
pub struct VectorClock {
    clock: VersionVector,
}

impl View for VectorClock {
    type V = ContextModel;

    closed spec fn view(&self) -> ContextModel {
        self.clock@
    }
}

impl VectorClock {
    /// The underlying context is well formed.
    pub closed spec fn wf(&self) -> bool {
        self.clock.wf()
    }

    /// The empty clock.
    pub fn new() -> (r: VectorClock)
        ensures
            r.wf(),
            r@ == Map::<Seq<char>, nat>::empty(),
    {
        VectorClock { clock: VersionVector::new() }
    }

    /// The counter stored for `actor`, or `None` where the actor is absent.
    pub fn get(&self, actor: &str) -> (r: Option<u64>)
        requires
            self.wf(),
        ensures
            r == (if self@.dom().contains(actor@) {
                Some(self@[actor@] as u64)
            } else {
                None::<u64>
            }),
    {
        self.clock.get(actor)
    }

    /// This clock with the counter of `node_id` raised by one (set to one
    /// where it was absent).
    pub fn inc(self, node_id: &str) -> (r: Self)
        requires
            self.wf(),
            count_of(self@, node_id@) < u64::MAX,
        ensures
            r.wf(),
            r@ == bumped(self@, node_id@),
    {
        VectorClock { clock: self.clock.increment(node_id) }
    }

    /// Whether this clock strictly precedes `w`.
    pub fn happened_before(&self, w: &VectorClock) -> (r: bool)
        requires
            self.wf(),
            w.wf(),
        ensures
            r == happened_before(self@, w@),
    {
        self.clock.happened_before(&w.clock)
    }

    /// Whether neither clock strictly precedes the other; true of two equal
    /// clocks.
    pub fn concurrent(&self, w: &VectorClock) -> (r: bool)
        requires
            self.wf(),
            w.wf(),
        ensures
            r == strictly_concurrent(self@, w@),
    {
        !(self.happened_before(w) || w.happened_before(self))
    }

    /// The pointwise maximum of the two clocks.
    pub fn merge(&self, w: &VectorClock) -> (r: VectorClock)
        requires
            self.wf(),
            w.wf(),
        ensures
            r.wf(),
            r@ == join(self@, w@),
    {
        VectorClock { clock: self.clock.merge(&w.clock) }
    }
}

impl Default for VectorClock {
    fn default() -> (r: VectorClock)
        ensures
            r.wf(),
            r@ == Map::<Seq<char>, nat>::empty(),
    {
        VectorClock::new()
    }
}

} // verus!
