//! The latch adapter itself: a stateful wrapper around a sequence of elements
//! and two predicates, produced one element at a time by `next`.

use vstd::prelude::*;

use crate::model::agrees;
use crate::model::is_subsequence;
use crate::model::latch_seq;
use crate::model::lemma_subsequence_empty;
use crate::model::lemma_subsequence_extend;
use crate::model::lemma_subsequence_push;

verus! {

/// A "latching" sequence adapter.
///
/// The adapter begins emitting elements as soon as an element satisfies the
/// start predicate and stops *after* an element satisfies the stop predicate,
/// in a cycle, until the wrapped input is exhausted. The input is consumed
/// from the front, one element per demand; nothing is pulled and no predicate
/// is evaluated before the consumer asks for the next element.
pub struct LatchIterator<T, StartPred, StopPred> {
    inner: Vec<T>,
    start_predicate: StartPred,
    stop_predicate: StopPred,
    latched: bool,
}

impl<T, StartPred, StopPred> LatchIterator<T, StartPred, StopPred> where
    StartPred: Fn(&T) -> bool,
    StopPred: Fn(&T) -> bool,
 {
    /// The input elements not yet pulled, front first.
    pub closed spec fn remaining(self) -> Seq<T> {
        self.inner@
    }

    /// The latch flag: while true, elements are passed through; while false,
    /// they are discarded until one satisfies the start predicate.
    pub closed spec fn is_latched(self) -> bool {
        self.latched
    }

    /// The start predicate, as the callable value held by the adapter.
    pub closed spec fn exec_start(self) -> StartPred {
        self.start_predicate
    }

    /// The stop predicate, as the callable value held by the adapter.
    pub closed spec fn exec_stop(self) -> StopPred {
        self.stop_predicate
    }

    /// Both predicates accept every element: they may be called on any input.
    pub open spec fn total(self) -> bool {
        &&& forall|x: T| #[trigger] call_requires(self.exec_start(), (&x,))
        &&& forall|x: T| #[trigger] call_requires(self.exec_stop(), (&x,))
    }

    /// The pure predicates `p` and `q` are models of the two callables: every
    /// result a call can return is the model's value on the argument.
    pub open spec fn models(self, p: spec_fn(T) -> bool, q: spec_fn(T) -> bool) -> bool {
        &&& agrees(self.exec_start(), p)
        &&& agrees(self.exec_stop(), q)
    }

    /// Everything the adapter will still emit, as given by the model
    /// predicates `p` (start) and `q` (stop).
    pub open spec fn output_under(self, p: spec_fn(T) -> bool, q: spec_fn(T) -> bool) -> Seq<T> {
        latch_seq(self.remaining(), p, q, self.is_latched())
    }

    /// The predicates are those of `other`: only the remaining input and the
    /// latch flag may differ.
    pub open spec fn same_predicates(self, other: Self) -> bool {
        &&& self.exec_start() == other.exec_start()
        &&& self.exec_stop() == other.exec_stop()
    }

    /// One call of `next` from an unlatched state, described exactly: the `j`
    /// elements at the front of `pre`'s remaining input were pulled and
    /// rejected by the start predicate; then either the following element
    /// satisfied it and was emitted, latching the adapter, or the input was
    /// exhausted.
    pub open spec fn unlatched_step(pre: Self, post: Self, r: Option<T>, j: int) -> bool {
        &&& 0 <= j <= pre.remaining().len()
        &&& (forall|k: int|
            0 <= k < j ==> #[trigger] call_ensures(pre.exec_start(), (&pre.remaining()[k],), false))
        &&& if j == pre.remaining().len() {
            &&& r is None
            &&& post.remaining().len() == 0
            &&& !post.is_latched()
        } else {
            &&& call_ensures(pre.exec_start(), (&pre.remaining()[j],), true)
            &&& r == Some(pre.remaining()[j])
            &&& post.remaining() == pre.remaining().skip(j + 1)
            &&& post.is_latched()
        }
    }

    /// Create a new latch adapter around `inner`, unlatched, with nothing
    /// consumed and no predicate evaluated.
    pub fn new(inner: Vec<T>, start_predicate: StartPred, stop_predicate: StopPred) -> (r:
        LatchIterator<T, StartPred, StopPred>)
        ensures
            r.remaining() == inner@,
            !r.is_latched(),
            r.exec_start() == start_predicate,
            r.exec_stop() == stop_predicate,
    {
        LatchIterator { inner, start_predicate, stop_predicate, latched: false }
    }

    /// Pull elements from the input until one is emitted or the input is
    /// exhausted.
    ///
    /// While latched, the front element is emitted unconditionally; if it
    /// satisfies the stop predicate, the adapter unlatches for the elements
    /// after it. While unlatched, elements are discarded until one satisfies
    /// the start predicate; that element is emitted and the adapter latches.
    /// `None` is returned exactly when the input is exhausted, and is
    /// terminal. Under any model of the predicates, the call pops the head of
    /// `output_under`.
    pub fn next(&mut self) -> (r: Option<T>)
        requires
            old(self).total(),
        ensures
            final(self).same_predicates(*old(self)),
            final(self).total(),
            old(self).is_latched() && old(self).remaining().len() == 0 ==> {
                &&& r is None
                &&& *final(self) == *old(self)
            },
            old(self).is_latched() && old(self).remaining().len() > 0 ==> {
                &&& r == Some(old(self).remaining()[0])
                &&& final(self).remaining() == old(self).remaining().skip(1)
                &&& exists|b: bool|
                    #[trigger] call_ensures(old(self).exec_stop(), (&old(self).remaining()[0],), b)
                        && final(self).is_latched() == !b
            },
            !old(self).is_latched() ==> exists|j: int|
                #[trigger] Self::unlatched_step(*old(self), *final(self), r, j),
            forall|p: spec_fn(T) -> bool, q: spec_fn(T) -> bool|
                #[trigger] old(self).models(p, q) ==> {
                    let out0 = old(self).output_under(p, q);
                    &&& (out0.len() == 0 ==> r is None && final(self).output_under(p, q) == Seq::<
                        T,
                    >::empty())
                    &&& (out0.len() > 0 ==> r == Some(out0[0]) && final(self).output_under(p, q)
                        == out0.skip(1))
                },
    {
        if self.latched {
            if self.inner.len() == 0 {
                return None;
            }
            let x = self.inner.remove(0);
            proof {
                assert(call_requires(old(self).exec_stop(), (&x,)));
            }
            let stop_hit = (self.stop_predicate)(&x);
            if stop_hit {
                self.latched = false;
            }
            proof {
                let v = old(self).remaining();
                assert(self.inner@ =~= v.skip(1));
                assert forall|p: spec_fn(T) -> bool, q: spec_fn(T) -> bool| #[trigger]
                    old(self).models(p, q) implies {
                    let out0 = old(self).output_under(p, q);
                    &&& out0.len() > 0
                    &&& out0[0] == x
                    &&& self.output_under(p, q) == out0.skip(1)
                } by {
                    assert(stop_hit == q(v[0]));
                    assert(old(self).output_under(p, q) == seq![v[0]] + latch_seq(
                        v.skip(1),
                        p,
                        q,
                        !q(v[0]),
                    ));
                    assert(old(self).output_under(p, q).skip(1) =~= self.output_under(p, q));
                }
            }
            return Some(x);
        }
        let ghost pre = *old(self);
        let ghost v = old(self).remaining();
        let ghost mut j: int = 0;
        while self.inner.len() > 0
            invariant
                pre == *old(self),
                self.same_predicates(pre),
                self.total(),
                !self.is_latched(),
                0 <= j <= v.len(),
                self.inner@ == v.skip(j),
                forall|k: int|
                    0 <= k < j ==> #[trigger] call_ensures(pre.exec_start(), (&v[k],), false),
                forall|p: spec_fn(T) -> bool, q: spec_fn(T) -> bool|
                    #[trigger] pre.models(p, q) ==> self.output_under(p, q) == pre.output_under(
                        p,
                        q,
                    ),
                !pre.is_latched() && pre.remaining() == v && pre.total(),
            decreases self.inner.len(),
        {
            let ghost before = *self;
            let x = self.inner.remove(0);
            proof {
                assert(call_requires(pre.exec_start(), (&x,)));
            }
            let start_hit = (self.start_predicate)(&x);
            proof {
                assert(x == v[j]);
                assert(self.inner@ =~= v.skip(j + 1));
            }
            if start_hit {
                self.latched = true;
                proof {
                    assert(Self::unlatched_step(pre, *self, Some(x), j));
                    assert forall|p: spec_fn(T) -> bool, q: spec_fn(T) -> bool| #[trigger]
                        pre.models(p, q) implies {
                        let out0 = pre.output_under(p, q);
                        &&& out0.len() > 0
                        &&& out0[0] == x
                        &&& self.output_under(p, q) == out0.skip(1)
                    } by {
                        assert(start_hit == p(v[j]));
                        assert(before.output_under(p, q) == seq![v[j]] + latch_seq(
                            v.skip(j + 1),
                            p,
                            q,
                            true,
                        ));
                        assert(pre.output_under(p, q).skip(1) =~= self.output_under(p, q));
                    }
                }
                return Some(x);
            }
            proof {
                assert forall|p: spec_fn(T) -> bool, q: spec_fn(T) -> bool| #[trigger]
                    pre.models(p, q) implies self.output_under(p, q) == pre.output_under(
                    p,
                    q,
                ) by {
                    assert(start_hit == p(v[j]));
                    assert(before.output_under(p, q) == latch_seq(v.skip(j + 1), p, q, false));
                }
                j = j + 1;
            }
        }
        proof {
            assert(j == v.len());
            assert(Self::unlatched_step(pre, *self, None::<T>, j));
        }
        None
    }

    /// Pull elements until the input is exhausted and collect everything the
    /// adapter emits, in order. Whatever the predicates do, the result is a
    /// subsequence of the remaining input — the adapter invents, reorders and
    /// duplicates nothing; under any model of the predicates it is exactly
    /// `output_under`.
    pub fn collect_all(&mut self) -> (out: Vec<T>)
        requires
            old(self).total(),
        ensures
            final(self).same_predicates(*old(self)),
            final(self).total(),
            final(self).remaining().len() == 0,
            out@.len() <= old(self).remaining().len(),
            is_subsequence(out@, old(self).remaining()),
            forall|p: spec_fn(T) -> bool, q: spec_fn(T) -> bool|
                #[trigger] old(self).models(p, q) ==> out@ == old(self).output_under(p, q),
    {
        let ghost pre = *old(self);
        let ghost v = pre.remaining();
        let mut out: Vec<T> = Vec::new();
        proof {
            lemma_subsequence_empty(v.subrange(0, 0));
        }
        loop
            invariant_except_break
                pre == *old(self),
                self.same_predicates(pre),
                self.total(),
                pre.total(),
                v == pre.remaining(),
                out@.len() + self.remaining().len() <= v.len(),
                self.remaining() == v.skip(v.len() - self.remaining().len()),
                is_subsequence(out@, v.subrange(0, v.len() - self.remaining().len())),
                forall|p: spec_fn(T) -> bool, q: spec_fn(T) -> bool|
                    #[trigger] pre.models(p, q) ==> out@ + self.output_under(p, q)
                        == pre.output_under(p, q),
            ensures
                pre == *old(self),
                self.same_predicates(pre),
                self.total(),
                self.remaining().len() == 0,
                out@.len() <= v.len(),
                is_subsequence(out@, v),
                forall|p: spec_fn(T) -> bool, q: spec_fn(T) -> bool|
                    #[trigger] pre.models(p, q) ==> out@ == pre.output_under(p, q),
            decreases self.remaining().len(),
        {
            let ghost before = *self;
            let ghost c = v.len() - before.remaining().len();
            let r = self.next();
            match r {
                Some(x) => {
                    proof {
                        let w = before.remaining();
                        assert(w =~= v.skip(c));
                        let jx: int = if before.is_latched() {
                            0
                        } else {
                            choose|j: int| Self::unlatched_step(before, *self, r, j)
                        };
                        if before.is_latched() {
                            assert(w.len() > 0 && x == w[0] && self.remaining() == w.skip(1));
                        } else {
                            assert(Self::unlatched_step(before, *self, r, jx));
                            assert(jx < w.len() && x == w[jx] && self.remaining() == w.skip(
                                jx + 1,
                            ));
                        }
                        assert(w.skip(jx + 1) =~= v.skip(c + jx + 1));
                        assert(x == v[c + jx]);
                        lemma_subsequence_extend(out@, v.subrange(0, c), v.subrange(c, c + jx));
                        assert(v.subrange(0, c) + v.subrange(c, c + jx) =~= v.subrange(0, c + jx));
                        lemma_subsequence_push(out@, v.subrange(0, c + jx), x);
                        assert(v.subrange(0, c + jx).push(v[c + jx]) =~= v.subrange(0, c + jx + 1));
                        assert forall|p: spec_fn(T) -> bool, q: spec_fn(T) -> bool| #[trigger]
                            pre.models(p, q) implies out@.push(x) + self.output_under(p, q)
                            == pre.output_under(p, q) by {
                            assert(before.models(p, q));
                            assert(before.output_under(p, q).len() > 0);
                            assert(x == before.output_under(p, q)[0]);
                            assert(self.output_under(p, q) == before.output_under(p, q).skip(1));
                            assert(out@.push(x) + self.output_under(p, q) =~= out@
                                + before.output_under(p, q));
                        }
                    }
                    out.push(x);
                }
                None => {
                    proof {
                        assert(self.remaining().len() == 0);
                        lemma_subsequence_extend(
                            out@,
                            v.subrange(0, c),
                            v.subrange(c, v.len() as int),
                        );
                        assert(v.subrange(0, c) + v.subrange(c, v.len() as int) =~= v);
                        assert forall|p: spec_fn(T) -> bool, q: spec_fn(T) -> bool| #[trigger]
                            pre.models(p, q) implies out@ == pre.output_under(p, q) by {
                            assert(before.models(p, q));
                            assert(before.output_under(p, q).len() == 0);
                            assert(out@ + before.output_under(p, q) =~= out@);
                        }
                    }
                    break;
                }
            }
        }
        out
    }
}

} // verus!
