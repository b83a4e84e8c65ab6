//! A "latching" sequence adapter: elements of an input sequence are passed
//! through or discarded according to a start predicate and a stop predicate.
//!
//! While unlatched, elements are discarded until one satisfies the start
//! predicate; that element is emitted and the adapter latches. While latched,
//! every element is emitted; one that satisfies the stop predicate is still
//! emitted, but unlatches the adapter for the elements after it. The cycle
//! repeats until the input is exhausted.

mod into_iterator;
mod iterator;
mod model;

pub use into_iterator::IntoLatchIterator;
pub use iterator::LatchIterator;
pub use model::agrees;
pub use model::is_subsequence;
pub use model::is_subsequence_via;
pub use model::latch_seq;
pub use model::lemma_latch_seq_empty;
pub use model::lemma_latch_seq_never_starts;
pub use model::lemma_latch_seq_never_stops;
pub use model::lemma_latch_seq_single_start;
pub use model::lemma_latch_seq_start_and_stop;
pub use model::lemma_latch_seq_subsequence;
pub use model::lemma_subsequence_cons_both;
pub use model::lemma_subsequence_cons_right;
pub use model::lemma_subsequence_empty;
pub use model::lemma_subsequence_extend;
pub use model::lemma_subsequence_push;
