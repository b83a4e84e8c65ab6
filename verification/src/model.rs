//! The mathematical model of the latch adapter: a recursive spec function
//! giving the full output sequence from a given state, a spec-level notion of
//! subsequence, and the laws proved about them.

use vstd::prelude::*;

verus! {

/// The exec predicate `f` implements the spec predicate `p`: every result that
/// a call of `f` can return is the value of `p` on the argument.
pub open spec fn agrees<T, F: Fn(&T) -> bool>(f: F, p: spec_fn(T) -> bool) -> bool {
    forall|x: T, b: bool| #[trigger] call_ensures(f, (&x,), b) ==> b == p(x)
}

/// The output that the latch adapter produces from state `latched` when the
/// remaining input is `s`: while unlatched, elements are discarded until one
/// satisfies `start`, which is emitted and latches; while latched, every
/// element is emitted, and one satisfying `stop` unlatches for the elements
/// after it.
pub open spec fn latch_seq<T>(
    s: Seq<T>,
    start: spec_fn(T) -> bool,
    stop: spec_fn(T) -> bool,
    latched: bool,
) -> Seq<T>
    decreases s.len(),
{
    if s.len() == 0 {
        Seq::empty()
    } else if latched {
        seq![s[0]] + latch_seq(s.skip(1), start, stop, !stop(s[0]))
    } else if start(s[0]) {
        seq![s[0]] + latch_seq(s.skip(1), start, stop, true)
    } else {
        latch_seq(s.skip(1), start, stop, false)
    }
}

/// `m` lists, in strictly increasing order, positions of `b` at which the
/// elements of `a` occur: a witness that `a` is a subsequence of `b`.
pub open spec fn is_subsequence_via<T>(a: Seq<T>, b: Seq<T>, m: Seq<int>) -> bool {
    &&& m.len() == a.len()
    &&& forall|k: int| 0 <= k < m.len() ==> 0 <= #[trigger] m[k] < b.len() && a[k] == b[m[k]]
    &&& forall|k: int| 0 < k < m.len() ==> #[trigger] m[k - 1] < m[k]
}

/// `a` is a subsequence of `b`: the elements of `a` occur in `b` in the same
/// order, each at its own position.
pub open spec fn is_subsequence<T>(a: Seq<T>, b: Seq<T>) -> bool {
    exists|m: Seq<int>| is_subsequence_via(a, b, m)
}

/// The empty sequence is a subsequence of every sequence.
pub proof fn lemma_subsequence_empty<T>(b: Seq<T>)
    ensures
        is_subsequence(Seq::<T>::empty(), b),
{
    assert(is_subsequence_via(Seq::<T>::empty(), b, Seq::<int>::empty()));
}

/// A subsequence of `b` is a subsequence of `b` extended on the right.
pub proof fn lemma_subsequence_extend<T>(a: Seq<T>, b: Seq<T>, c: Seq<T>)
    requires
        is_subsequence(a, b),
    ensures
        is_subsequence(a, b + c),
{
    let m = choose|m: Seq<int>| is_subsequence_via(a, b, m);
    assert(is_subsequence_via(a, b + c, m));
}

/// Appending the same element to a subsequence and its supersequence
/// preserves the subsequence relation.
pub proof fn lemma_subsequence_push<T>(a: Seq<T>, b: Seq<T>, x: T)
    requires
        is_subsequence(a, b),
    ensures
        is_subsequence(a.push(x), b.push(x)),
{
    let m = choose|m: Seq<int>| is_subsequence_via(a, b, m);
    let m2 = m.push(b.len() as int);
    assert(is_subsequence_via(a.push(x), b.push(x), m2));
}

/// Prepending the same element to a subsequence and its supersequence
/// preserves the subsequence relation.
pub proof fn lemma_subsequence_cons_both<T>(a: Seq<T>, b: Seq<T>, x: T)
    requires
        is_subsequence(a, b),
    ensures
        is_subsequence(seq![x] + a, seq![x] + b),
{
    let m = choose|m: Seq<int>| is_subsequence_via(a, b, m);
    let m2 = Seq::new(m.len() + 1, |k: int| if k == 0 { 0int } else { m[k - 1] + 1 });
    assert(is_subsequence_via(seq![x] + a, seq![x] + b, m2));
}

/// A subsequence of `b` is a subsequence of `b` with an element prepended.
pub proof fn lemma_subsequence_cons_right<T>(a: Seq<T>, b: Seq<T>, x: T)
    requires
        is_subsequence(a, b),
    ensures
        is_subsequence(a, seq![x] + b),
{
    let m = choose|m: Seq<int>| is_subsequence_via(a, b, m);
    let m2 = Seq::new(m.len(), |k: int| m[k] + 1);
    assert(is_subsequence_via(a, seq![x] + b, m2));
}

/// The adapter never invents elements: from any state, the output is at most
/// as long as the input, and is an order-preserving selection of it — a
/// subsequence, with no reordering and no duplication.
pub proof fn lemma_latch_seq_subsequence<T>(
    s: Seq<T>,
    start: spec_fn(T) -> bool,
    stop: spec_fn(T) -> bool,
    latched: bool,
)
    ensures
        latch_seq(s, start, stop, latched).len() <= s.len(),
        is_subsequence(latch_seq(s, start, stop, latched), s),
    decreases s.len(),
{
    if s.len() == 0 {
        lemma_subsequence_empty(s);
    } else {
        assert(seq![s[0]] + s.skip(1) =~= s);
        if latched {
            lemma_latch_seq_subsequence(s.skip(1), start, stop, !stop(s[0]));
            lemma_subsequence_cons_both(
                latch_seq(s.skip(1), start, stop, !stop(s[0])),
                s.skip(1),
                s[0],
            );
        } else if start(s[0]) {
            lemma_latch_seq_subsequence(s.skip(1), start, stop, true);
            lemma_subsequence_cons_both(latch_seq(s.skip(1), start, stop, true), s.skip(1), s[0]);
        } else {
            lemma_latch_seq_subsequence(s.skip(1), start, stop, false);
            lemma_subsequence_cons_right(latch_seq(s.skip(1), start, stop, false), s.skip(1), s[0]);
        }
    }
}

/// An empty input yields an empty output, whatever the predicates and the
/// latch state.
pub proof fn lemma_latch_seq_empty<T>(
    start: spec_fn(T) -> bool,
    stop: spec_fn(T) -> bool,
    latched: bool,
)
    ensures
        latch_seq(Seq::<T>::empty(), start, stop, latched) == Seq::<T>::empty(),
{
}

/// If the start predicate matches no element of the input, an unlatched
/// adapter emits nothing.
pub proof fn lemma_latch_seq_never_starts<T>(
    s: Seq<T>,
    start: spec_fn(T) -> bool,
    stop: spec_fn(T) -> bool,
)
    requires
        forall|i: int| 0 <= i < s.len() ==> !#[trigger] start(s[i]),
    ensures
        latch_seq(s, start, stop, false) == Seq::<T>::empty(),
    decreases s.len(),
{
    if s.len() > 0 {
        assert(forall|i: int| 0 <= i < s.skip(1).len() ==> s.skip(1)[i] == s[i + 1]);
        lemma_latch_seq_never_starts(s.skip(1), start, stop);
    }
}

/// If the stop predicate matches no element of the input, a latched adapter
/// emits every remaining element, through to exhaustion.
pub proof fn lemma_latch_seq_never_stops<T>(
    s: Seq<T>,
    start: spec_fn(T) -> bool,
    stop: spec_fn(T) -> bool,
)
    requires
        forall|i: int| 0 <= i < s.len() ==> !#[trigger] stop(s[i]),
    ensures
        latch_seq(s, start, stop, true) == s,
    decreases s.len(),
{
    if s.len() > 0 {
        assert(forall|i: int| 0 <= i < s.skip(1).len() ==> s.skip(1)[i] == s[i + 1]);
        lemma_latch_seq_never_stops(s.skip(1), start, stop);
        assert(seq![s[0]] + s.skip(1) =~= s);
    }
}

/// If the start predicate matches exactly the element at position `i` and the
/// stop predicate matches no element after it, an unlatched adapter emits
/// every element from position `i` to the end of the input, inclusive.
pub proof fn lemma_latch_seq_single_start<T>(
    s: Seq<T>,
    start: spec_fn(T) -> bool,
    stop: spec_fn(T) -> bool,
    i: int,
)
    requires
        0 <= i < s.len(),
        start(s[i]),
        forall|k: int| 0 <= k < s.len() && k != i ==> !#[trigger] start(s[k]),
        forall|k: int| i < k < s.len() ==> !#[trigger] stop(s[k]),
    ensures
        latch_seq(s, start, stop, false) == s.skip(i),
    decreases i,
{
    assert(forall|k: int| 0 <= k < s.skip(1).len() ==> s.skip(1)[k] == s[k + 1]);
    if i == 0 {
        lemma_latch_seq_never_stops(s.skip(1), start, stop);
        assert(latch_seq(s, start, stop, false) == seq![s[0]] + s.skip(1));
        assert(seq![s[0]] + s.skip(1) =~= s.skip(0));
    } else {
        lemma_latch_seq_single_start(s.skip(1), start, stop, i - 1);
        assert(s.skip(1).skip(i - 1) =~= s.skip(i));
    }
}

/// An element that satisfies both predicates while the adapter is unlatched
/// is treated purely as a start event: it is emitted once, and the adapter is
/// latched for the elements after it; the stop predicate plays no part.
pub proof fn lemma_latch_seq_start_and_stop<T>(
    s: Seq<T>,
    start: spec_fn(T) -> bool,
    stop: spec_fn(T) -> bool,
)
    requires
        s.len() > 0,
        start(s[0]),
        stop(s[0]),
    ensures
        latch_seq(s, start, stop, false) == seq![s[0]] + latch_seq(s.skip(1), start, stop, true),
        latch_seq(s, start, stop, false)[0] == s[0],
{
}

} // verus!
