//! The host audio queue: interleaved stereo samples, oldest first, bounded
//! by a capacity. When a push overflows it, the oldest samples are dropped,
//! always an even number of them so that left and right never swap.

use vstd::prelude::*;
use std::collections::VecDeque;

verus! {

/// How many samples a push drops: the overflow past `capacity`, rounded up
/// to an even count.
pub open spec fn drop_count(total: nat, capacity: nat) -> nat {
    let over: nat = if total > capacity { (total - capacity) as nat } else { 0 };
    over + over % 2
}

/// The queue after `samples` are appended to `queue` and the oldest
/// overflow is dropped.
pub open spec fn pushed(queue: Seq<i16>, samples: Seq<i16>, capacity: nat) -> Seq<i16> {
    let all = queue + samples;
    all.subrange(drop_count(all.len(), capacity) as int, all.len() as int)
}

/// A push can drop the overflow only when it does not round past the end
/// of the queue, which happens only for an odd total with no capacity.
pub open spec fn push_ok(total: nat, capacity: nat) -> bool {
    capacity > 0 || total % 2 == 0
}

/// What a pop of `n` slots hands out: the queue's front, then silence.
pub open spec fn popped(queue: Seq<i16>, n: nat) -> Seq<i16> {
    Seq::new(n, |i: int| if i < queue.len() { queue[i] } else { 0i16 })
}

/// What is left of the queue after a pop of `n` slots.
pub open spec fn remaining(queue: Seq<i16>, n: nat) -> Seq<i16> {
    if n < queue.len() { queue.subrange(n as int, queue.len() as int) } else { Seq::empty() }
}

pub struct Ring {
    buf: VecDeque<i16>,
    capacity: usize,
}

impl View for Ring {
    type V = Seq<i16>;

    closed spec fn view(&self) -> Seq<i16> {
        self.buf@
    }
}

impl Ring {
    /// The number of samples the queue holds at most.
    pub closed spec fn capacity(&self) -> nat {
        self.capacity as nat
    }

    pub fn new(capacity: usize) -> (r: Ring)
        ensures
            r@ == Seq::<i16>::empty(),
            r.capacity() == capacity,
    {
        Ring { buf: VecDeque::with_capacity(capacity), capacity }
    }

    /// Appends `samples`, then drops the oldest overflow, rounded up to an
    /// even count.
    pub fn push(&mut self, samples: &[i16])
        requires
            old(self)@.len() + samples@.len() <= usize::MAX,
            push_ok(old(self)@.len() + samples@.len(), old(self).capacity()),
        ensures
            final(self)@ == pushed(old(self)@, samples@, old(self).capacity()),
            final(self).capacity() == old(self).capacity(),
    {
        let ghost all = self.buf@ + samples@;
        let mut i: usize = 0;
        while i < samples.len()
            invariant
                i <= samples@.len(),
                self.buf@ == all.subrange(0, (all.len() - samples@.len() + i) as int),
                all == old(self).buf@ + samples@,
                self.capacity == old(self).capacity,
            decreases samples@.len() - i,
        {
            self.buf.push_back(samples[i]);
            i = i + 1;
        }
        assert(self.buf@ == all);
        let len = self.buf.len();
        let over0 = if len > self.capacity { len - self.capacity } else { 0 };
        let over = over0 + over0 % 2;
        assert(over == drop_count(all.len(), self.capacity as nat));
        let mut k: usize = 0;
        while k < over
            invariant
                over == drop_count(all.len(), self.capacity as nat),
                over <= all.len(),
                k <= over,
                self.buf@ == all.subrange(k as int, all.len() as int),
                self.capacity == old(self).capacity,
            decreases over - k,
        {
            let _ = self.buf.pop_front();
            k = k + 1;
        }
    }

    /// Fills `out` from the front of the queue, and with silence once the
    /// queue runs dry.
    pub fn pop_slice(&mut self, out: &mut [i16])
        ensures
            final(out)@ == popped(old(self)@, old(out)@.len()),
            final(self)@ == remaining(old(self)@, old(out)@.len()),
            final(self).capacity() == old(self).capacity(),
    {
        let ghost q = self.buf@;
        let ghost n = out@.len();
        let mut i: usize = 0;
        while i < out.len()
            invariant
                i <= n,
                out@.len() == n,
                forall|j: int| 0 <= j < i ==> out@[j] == popped(q, n)[j],
                self.buf@ == remaining(q, i as nat),
                self.capacity == old(self).capacity,
            decreases n - i,
        {
            let v = match self.buf.pop_front() {
                Some(x) => x,
                None => 0,
            };
            out[i] = v;
            i = i + 1;
        }
        assert(out@ == popped(q, n));
    }

    /// The number of whole stereo frames queued.
    pub fn queued(&self) -> (r: usize)
        ensures
            r == self@.len() / 2,
    {
        self.buf.len() / 2
    }
}

/// A push never leaves more samples queued than the capacity.
pub proof fn law_ring_never_exceeds_capacity(queue: Seq<i16>, samples: Seq<i16>, capacity: nat)
    requires
        push_ok(queue.len() + samples.len(), capacity),
    ensures
        pushed(queue, samples, capacity).len() <= capacity,
{
}

/// A push drops whole stereo frames: an even number of samples, so the
/// samples after the drop keep their left/right positions.
pub proof fn law_ring_drops_whole_frames(queue: Seq<i16>, samples: Seq<i16>, capacity: nat)
    requires
        push_ok(queue.len() + samples.len(), capacity),
    ensures
        ((queue.len() + samples.len()) - pushed(queue, samples, capacity).len()) % 2 == 0,
{
}

/// Samples come out in the order they went in: while nothing overflows,
/// popping everything queued yields the old queue followed by the new
/// samples, and leaves the queue empty.
pub proof fn law_ring_is_fifo(queue: Seq<i16>, samples: Seq<i16>, capacity: nat)
    requires
        queue.len() + samples.len() <= capacity,
    ensures
        pushed(queue, samples, capacity) == queue + samples,
        popped(pushed(queue, samples, capacity), queue.len() + samples.len()) == queue + samples,
        remaining(pushed(queue, samples, capacity), queue.len() + samples.len()) == Seq::<i16>::empty(),
{
    assert((queue + samples).subrange(0, (queue + samples).len() as int) == queue + samples);
    assert(popped(queue + samples, queue.len() + samples.len()) == queue + samples);
}

/// An overflowing push keeps the newest samples: what stays is the tail of
/// everything queued, ending with the last sample pushed.
pub proof fn law_ring_keeps_the_newest(queue: Seq<i16>, samples: Seq<i16>, capacity: nat, i: int)
    requires
        push_ok(queue.len() + samples.len(), capacity),
        0 <= i < pushed(queue, samples, capacity).len(),
    ensures
        pushed(queue, samples, capacity)[pushed(queue, samples, capacity).len() - 1 - i]
            == (queue + samples)[(queue + samples).len() - 1 - i],
{
}

} // verus!
