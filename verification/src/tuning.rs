//! An editing session over an engine and handling configuration: the committed
//! pair the running simulation is built from, and a draft that the tuning
//! controls edit.
use vstd::prelude::*;
use vstd::std_specs::cmp::PartialEqSpec;

verus! {

/// Holds the committed engine/handling config (what the running sim is built
/// from) alongside an editable draft. The GUI edits the draft; "Write Changes"
/// applies the draft and resets the sim, "Undo Changes" reverts the draft.
pub struct TuningSession<E, H> {
    committed_engine: E,
    committed_handling: H,
    pub draft_engine: E,
    pub draft_handling: H,
}

impl<E: Clone, H: Clone> TuningSession<E, H> {
    /// The committed engine configuration.
    pub closed spec fn committed_engine_value(&self) -> E {
        self.committed_engine
    }

    /// The committed handling configuration.
    pub closed spec fn committed_handling_value(&self) -> H {
        self.committed_handling
    }

    /// The draft engine configuration.
    pub closed spec fn draft_engine_value(&self) -> E {
        self.draft_engine
    }

    /// The draft handling configuration.
    pub closed spec fn draft_handling_value(&self) -> H {
        self.draft_handling
    }

    /// A session whose draft is `engine` and `handling` and whose committed
    /// pair is their clones.
    pub fn new(engine: E, handling: H) -> (r: Self)
        ensures
            r.draft_engine_value() == engine,
            r.draft_handling_value() == handling,
            cloned(engine, r.committed_engine_value()),
            cloned(handling, r.committed_handling_value()),
    {
        TuningSession {
            committed_engine: engine.clone(),
            committed_handling: handling.clone(),
            draft_engine: engine,
            draft_handling: handling,
        }
    }

    /// The committed engine configuration.
    pub fn committed_engine(&self) -> (r: &E)
        ensures
            *r == self.committed_engine_value(),
    {
        &self.committed_engine
    }

    /// The committed handling configuration.
    pub fn committed_handling(&self) -> (r: &H)
        ensures
            *r == self.committed_handling_value(),
    {
        &self.committed_handling
    }

    /// Apply the draft to the committed config: the committed pair becomes a
    /// clone of the draft, which stays as it was.
    pub fn write_changes(&mut self)
        ensures
            final(self).draft_engine_value() == old(self).draft_engine_value(),
            final(self).draft_handling_value() == old(self).draft_handling_value(),
            cloned(old(self).draft_engine_value(), final(self).committed_engine_value()),
            cloned(old(self).draft_handling_value(), final(self).committed_handling_value()),
    {
        self.committed_engine = self.draft_engine.clone();
        self.committed_handling = self.draft_handling.clone();
    }

    /// Discard draft edits, reverting to the committed config: the draft
    /// becomes a clone of the committed pair, which stays as it was.
    pub fn undo_changes(&mut self)
        ensures
            final(self).committed_engine_value() == old(self).committed_engine_value(),
            final(self).committed_handling_value() == old(self).committed_handling_value(),
            cloned(old(self).committed_engine_value(), final(self).draft_engine_value()),
            cloned(old(self).committed_handling_value(), final(self).draft_handling_value()),
    {
        self.draft_engine = self.committed_engine.clone();
        self.draft_handling = self.committed_handling.clone();
    }

    /// Replace both committed and draft (e.g. after reloading from disk), as a
    /// new session would hold them.
    pub fn replace(&mut self, engine: E, handling: H)
        ensures
            final(self).draft_engine_value() == engine,
            final(self).draft_handling_value() == handling,
            cloned(engine, final(self).committed_engine_value()),
            cloned(handling, final(self).committed_handling_value()),
    {
        *self = Self::new(engine, handling);
    }
}

impl<E: Clone + PartialEq, H: Clone + PartialEq> TuningSession<E, H> {
    /// True when the draft differs from the committed config (i.e. there are
    /// pending changes that "Write Changes" would apply): when the engines
    /// compare unequal, or else the handling configurations do.
    pub fn is_dirty(&self) -> (r: bool)
        ensures
            E::obeys_eq_spec() && H::obeys_eq_spec() ==> r == (!self.draft_engine_value().eq_spec(
                &self.committed_engine_value(),
            ) || !self.draft_handling_value().eq_spec(&self.committed_handling_value())),
    {
        self.draft_engine != self.committed_engine || self.draft_handling != self.committed_handling
    }
}

} // verus!
