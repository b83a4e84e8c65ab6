//! Conversion of a sequence into a latch adapter.

use vstd::prelude::*;

use crate::iterator::LatchIterator;

verus! {

/// Ability to wrap a sequence of elements in a [`LatchIterator`].
pub trait IntoLatchIterator<T>: Sized {
    /// The elements of the sequence, front first.
    spec fn seq_view(self) -> Seq<T>;

    /// Consume the sequence and wrap it in a [`LatchIterator`].
    ///
    /// The adapter begins emitting elements as soon as an element satisfies
    /// the start predicate and stops *after* an element satisfies the stop
    /// predicate, in a cycle, until the input is exhausted. Construction
    /// consumes nothing and evaluates no predicate: the adapter starts
    /// unlatched with the whole sequence still to be pulled.
    fn latch<StartPred, StopPred>(
        self,
        start_predicate: StartPred,
        stop_predicate: StopPred,
    ) -> (r: LatchIterator<T, StartPred, StopPred>) where
        StartPred: Fn(&T) -> bool,
        StopPred: Fn(&T) -> bool,

        ensures
            r.remaining() == self.seq_view(),
            !r.is_latched(),
            r.exec_start() == start_predicate,
            r.exec_stop() == stop_predicate,
    ;
}

impl<T> IntoLatchIterator<T> for Vec<T> {
    open spec fn seq_view(self) -> Seq<T> {
        self@
    }

    fn latch<StartPred, StopPred>(
        self,
        start_predicate: StartPred,
        stop_predicate: StopPred,
    ) -> (r: LatchIterator<T, StartPred, StopPred>) where
        StartPred: Fn(&T) -> bool,
        StopPred: Fn(&T) -> bool,
    {
        LatchIterator::new(self, start_predicate, stop_predicate)
    }
}

} // verus!
