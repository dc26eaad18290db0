//! Bounded telemetry history and the availability of telemetry values.
use std::collections::vec_deque::Iter;
use std::collections::VecDeque;
use vstd::prelude::*;
use vstd::std_specs::iter::IteratorSpec;

verus! {

/// Whether a telemetry value was measured, is a stand-in, or is missing.
#[derive(Debug, Clone, Copy, PartialEq, Eq, Structural)]
pub enum TelemetryAvailability {
    Measured,
    Placeholder,
    Unavailable,
}

/// The last `capacity` values of `history`, or all of them when there are fewer.
pub open spec fn most_recent<T>(history: Seq<T>, capacity: nat) -> Seq<T> {
    if history.len() <= capacity {
        history
    } else {
        history.subrange(history.len() - capacity, history.len() as int)
    }
}

/// The contents of a window of the given capacity after `value` is pushed.
pub open spec fn after_push<T>(window: Seq<T>, value: T, capacity: nat) -> Seq<T> {
    if window.len() == capacity {
        window.drop_first().push(value)
    } else {
        window.push(value)
    }
}

/// A window that holds the most recent pushes, up to a fixed capacity.
#[derive(Debug, PartialEq)]
pub struct RollingWindow<T> {
    capacity: usize,
    entries: VecDeque<T>,
}

impl<T> View for RollingWindow<T> {
    type V = Seq<T>;

    closed spec fn view(&self) -> Seq<T> {
        self.entries@
    }
}

impl<T> RollingWindow<T> {
    #[verifier::type_invariant]
    spec fn bounded(self) -> bool {
        0 < self.capacity && self.entries@.len() <= self.capacity
    }

    /// How many values the window holds at most.
    pub closed spec fn window_capacity(&self) -> nat {
        self.capacity as nat
    }

    /// An empty window that keeps at most `capacity` values.
    pub fn new(capacity: usize) -> (r: Self)
        requires
            capacity > 0,
        ensures
            r@ == Seq::<T>::empty(),
            r.window_capacity() == capacity,
    {
        RollingWindow { capacity, entries: VecDeque::with_capacity(capacity) }
    }

    /// Append `value`, dropping the oldest value when the window is full.
    pub fn push(&mut self, value: T)
        ensures
            final(self).window_capacity() == old(self).window_capacity(),
            final(self)@ == after_push(old(self)@, value, old(self).window_capacity()),
            0 < final(self)@.len() <= final(self).window_capacity(),
    {
        proof {
            use_type_invariant(&*self);
        }
        let mut entries: VecDeque<T> = VecDeque::new();
        std::mem::swap(&mut entries, &mut self.entries);
        if entries.len() == self.capacity {
            entries.pop_front();
        }
        entries.push_back(value);
        self.entries = entries;
    }

    /// How many values the window holds.
    pub fn len(&self) -> (n: usize)
        ensures
            n == self@.len(),
            n <= self.window_capacity(),
    {
        proof {
            use_type_invariant(self);
        }
        self.entries.len()
    }

    /// The values, oldest first.
    pub fn iter(&self) -> (it: Iter<'_, T>)
        ensures
            it.remaining() == self@.as_ref(),
    {
        broadcast use vstd::std_specs::vecdeque::group_vec_dequeue_axioms;

        self.entries.iter()
    }

    /// True when the window holds no values.
    pub fn is_empty(&self) -> (b: bool)
        ensures
            b == (self@.len() == 0),
    {
        self.entries.len() == 0
    }
}

impl<T: Clone> Clone for RollingWindow<T> {
    /// A window of the same capacity holding clones of the same values.
    fn clone(&self) -> (r: Self)
        ensures
            r.window_capacity() == self.window_capacity(),
            r@.len() == self@.len(),
            forall|i: int| 0 <= i < self@.len() ==> cloned::<T>(self@[i], #[trigger] r@[i]),
    {
        proof {
            use_type_invariant(self);
        }
        RollingWindow { capacity: self.capacity, entries: self.entries.clone() }
    }
}

/// A window always holds the most recent values pushed into it: if it holds
/// the last `capacity` values of a history, then after a push it holds the last
/// `capacity` values of that history with the new value appended.
pub proof fn lemma_window_keeps_most_recent<T>(history: Seq<T>, value: T, capacity: nat)
    requires
        capacity > 0,
    ensures
        after_push(most_recent(history, capacity), value, capacity) == most_recent(
            history.push(value),
            capacity,
        ),
{
    let w = most_recent(history, capacity);
    let h = history.push(value);
    if history.len() < capacity {
        assert(w.push(value) =~= most_recent(h, capacity));
    } else {
        assert(w.len() == capacity);
        assert(w.drop_first().push(value) =~= most_recent(h, capacity));
    }
}

/// The contents of an initially empty window after pushing each value of
/// `history` in turn.
pub open spec fn window_after<T>(history: Seq<T>, capacity: nat) -> Seq<T>
    decreases history.len(),
{
    if history.len() == 0 {
        Seq::empty()
    } else {
        after_push(window_after(history.drop_last(), capacity), history.last(), capacity)
    }
}

/// Pushing any sequence of values into an empty window leaves exactly the
/// last `capacity` of them (all of them when there are fewer), oldest first.
pub proof fn lemma_window_holds_most_recent<T>(history: Seq<T>, capacity: nat)
    requires
        capacity > 0,
    ensures
        window_after(history, capacity) == most_recent(history, capacity),
    decreases history.len(),
{
    if history.len() == 0 {
        assert(most_recent(history, capacity) =~= Seq::<T>::empty());
    } else {
        let before = history.drop_last();
        lemma_window_holds_most_recent(before, capacity);
        lemma_window_keeps_most_recent(before, history.last(), capacity);
        assert(before.push(history.last()) =~= history);
    }
}

} // verus!
