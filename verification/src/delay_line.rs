//! A fixed-capacity first-in-first-out sample queue modelling a pure delay of
//! exactly `N` samples.
//!
//! The line is created empty. While it warms up, every processed sample is
//! queued and a zero is emitted; once `N` samples have been queued, each input
//! pushes out the sample queued `N` positions earlier. [`dl_out`] and
//! [`dl_next`] give this behaviour at the specification level, and
//! [`lemma_delay_fifo`] and [`lemma_delay_compose`] state the FIFO law.

use vstd::prelude::*;
use crate::ring::{RingQueue, ring_new, ring_push, ring_pop, ring_is_full, ring_items, ring_cap};

verus! {

/// The sample a delay line with pending contents `s` and capacity `cap` emits at
/// position `j` of the input block `inp`: zero while the queue is still filling,
/// and the sample queued `cap` positions earlier afterwards.
pub open spec fn dl_out(s: Seq<i64>, cap: nat, inp: Seq<i64>, j: int) -> i64 {
    if s.len() + j < cap {
        0
    } else {
        (s + inp)[s.len() + j - cap]
    }
}

/// The queue contents after processing the whole block `inp`: the newest
/// `min(s.len() + inp.len(), cap)` of the queued samples, oldest first.
pub open spec fn dl_next(s: Seq<i64>, cap: nat, inp: Seq<i64>) -> Seq<i64> {
    let t = s + inp;
    if t.len() <= cap {
        t
    } else {
        t.skip(t.len() - cap)
    }
}

/// How one sample moves the queue from the prefix of length `idx` to the prefix
/// of length `idx + 1`: below capacity the sample is queued and zero is emitted;
/// at capacity the oldest sample leaves and the new one is queued.
proof fn lemma_dl_step(s0: Seq<i64>, cap: nat, inp: Seq<i64>, idx: int)
    requires
        1 <= cap,
        s0.len() <= cap,
        0 <= idx < inp.len(),
    ensures
        ({
            let t = dl_next(s0, cap, inp.take(idx));
            let t2 = dl_next(s0, cap, inp.take(idx + 1));
            &&& t.len() == if s0.len() + idx <= cap {
                s0.len() + idx
            } else {
                cap as int
            }
            &&& s0.len() + idx < cap ==> t2 == t.push(inp[idx]) && dl_out(s0, cap, inp, idx) == 0
            &&& s0.len() + idx >= cap ==> t2 == t.drop_first().push(inp[idx]) && dl_out(
                s0,
                cap,
                inp,
                idx,
            ) == t[0]
        }),
{
    let a = inp.take(idx);
    let a2 = inp.take(idx + 1);
    assert(a2 =~= a.push(inp[idx]));
    let t = dl_next(s0, cap, a);
    let t2 = dl_next(s0, cap, a2);
    let m = s0.len() + idx;
    if m < cap {
        assert(t2 =~= t.push(inp[idx]));
    } else {
        assert(t.len() == cap);
        assert(t2 =~= t.drop_first().push(inp[idx]));
        assert(t[0] == (s0 + a)[m - cap]);
        assert((s0 + a)[m - cap] == (s0 + inp)[m - cap]);
    }
}

/// A fixed-capacity FIFO delay line with an explicit fill/steady-state lifecycle.
pub struct DelayLine {
    q: RingQueue,
    steady_state: bool,
}

impl DelayLine {
    /// The samples currently queued, oldest first.
    pub closed spec fn items(self) -> Seq<i64> {
        ring_items(self.q)
    }

    /// The fixed capacity `N` set at construction.
    pub closed spec fn cap(self) -> nat {
        ring_cap(self.q)
    }

    /// Whether the line has entered steady state: one pop accompanies every push.
    pub closed spec fn steady(self) -> bool {
        self.steady_state
    }

    /// The queue never holds more than `cap` samples, and the steady-state flag
    /// is only raised once the queue is full.
    pub open spec fn wf(self) -> bool {
        &&& self.cap() >= 1
        &&& self.items().len() <= self.cap()
        &&& self.steady() ==> self.items().len() == self.cap()
    }

    /// Create an empty delay line of the given capacity.
    pub fn new(delaysamples: usize) -> (r: Self)
        requires
            1 <= delaysamples,
        ensures
            r.wf(),
            r.cap() == delaysamples as nat,
            r.items() == Seq::<i64>::empty(),
            !r.steady(),
    {
        DelayLine { q: ring_new(delaysamples), steady_state: false }
    }

    /// Process one block: for each position exactly one sample is consumed and
    /// one produced, in order. Output position `j` carries [`dl_out`] of the
    /// pre-call queue, and the queue afterwards holds [`dl_next`] of it.
    pub fn process(&mut self, out: &mut Vec<i64>, inp: &Vec<i64>)
        requires
            old(self).wf(),
            old(out).len() == inp.len(),
        ensures
            final(self).wf(),
            final(self).cap() == old(self).cap(),
            final(self).items() == dl_next(old(self).items(), old(self).cap(), inp@),
            final(self).steady() <==> (old(self).steady() || old(self).items().len()
                + inp@.len() > old(self).cap()),
            final(out).len() == inp.len(),
            forall|j: int|
                0 <= j < inp@.len() ==> final(out)@[j] == dl_out(
                    old(self).items(),
                    old(self).cap(),
                    inp@,
                    j,
                ),
    {
        let ghost s0 = self.items();
        let ghost cap = self.cap();
        let ghost steady0 = self.steady_state;
        let n = inp.len();
        proof {
            assert(s0 + inp@.take(0) =~= s0);
        }
        for idx in 0..n
            invariant
                cap >= 1,
                s0.len() <= cap,
                steady0 ==> s0.len() == cap,
                self.cap() == cap,
                inp@.len() == n,
                out.len() == n,
                self.items() == dl_next(s0, cap, inp@.take(idx as int)),
                self.items().len() <= cap,
                self.steady_state <==> (steady0 || s0.len() + idx > cap),
                forall|j: int| 0 <= j < idx ==> out@[j] == dl_out(s0, cap, inp@, j),
        {
            proof {
                lemma_dl_step(s0, cap, inp@, idx as int);
            }
            let x = inp[idx];
            let o: i64;
            if self.steady_state {
                o = ring_pop(&mut self.q);
                ring_push(&mut self.q, x);
            } else if ring_is_full(&self.q) {
                o = ring_pop(&mut self.q);
                ring_push(&mut self.q, x);
                self.steady_state = true;
            } else {
                ring_push(&mut self.q, x);
                o = 0;
            }
            out[idx] = o;
        }
        proof {
            assert(inp@.take(n as int) =~= inp@);
        }
    }
}

/// Delay Line FIFO law: starting from an empty line of capacity `cap`, every
/// output before the `cap`-th pushed sample is exactly zero, and from there on
/// the outputs replay the pushed samples in their original order.
pub proof fn lemma_delay_fifo(cap: nat, xs: Seq<i64>)
    requires
        cap >= 1,
    ensures
        forall|j: int| 0 <= j < xs.len() && j < cap ==> dl_out(Seq::<i64>::empty(), cap, xs, j) == 0,
        forall|j: int|
            cap <= j < xs.len() ==> dl_out(Seq::<i64>::empty(), cap, xs, j) == xs[j - cap],
{
    assert forall|j: int|
        cap <= j < xs.len() implies dl_out(Seq::<i64>::empty(), cap, xs, j) == xs[j - cap] by {
        assert((Seq::<i64>::empty() + xs) =~= xs);
    }
}

/// Splitting a block in two does not change what a delay line emits or retains:
/// processing `a` then `b` leaves the queue as processing `a + b` does, and the
/// outputs of the second block sit at their global positions within `a + b`.
pub proof fn lemma_delay_compose(s: Seq<i64>, cap: nat, a: Seq<i64>, b: Seq<i64>)
    requires
        s.len() <= cap,
    ensures
        dl_next(dl_next(s, cap, a), cap, b) == dl_next(s, cap, a + b),
        forall|j: int|
            0 <= j < b.len() ==> dl_out(dl_next(s, cap, a), cap, b, j) == dl_out(
                s,
                cap,
                a + b,
                a.len() + j,
            ),
{
    let t = dl_next(s, cap, a);
    let m = s.len() + a.len();
    assert((s + a) + b =~= s + (a + b));
    assert(t.len() == if m <= cap {
        m as int
    } else {
        cap as int
    });
    assert forall|k: int| 0 <= k < t.len() implies t[k] == (s + (a + b))[m - t.len() + k] by {}
    assert(dl_next(t, cap, b) =~= dl_next(s, cap, a + b));
    assert forall|j: int| 0 <= j < b.len() implies dl_out(t, cap, b, j) == dl_out(
        s,
        cap,
        a + b,
        a.len() + j,
    ) by {
        if t.len() + j >= cap {
            assert((t + b)[t.len() + j - cap] == (s + (a + b))[m + j - cap]);
        }
    }
}

} // verus!
