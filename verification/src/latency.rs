//! A moving average of apply latency over the most recent samples.
//!
//! The window holds at most [`LATENCY_CAPACITY`] samples in arrival order.
//! A sample that arrives at a full window pushes the oldest one out.
//! Samples are whole nanoseconds.

use vstd::prelude::*;

verus! {

/// Number of samples that the window holds at most.
pub const LATENCY_CAPACITY: usize = 30;

/// The sum of `samples`.
pub open spec fn total_of(samples: Seq<u64>) -> nat
    decreases samples.len(),
{
    if samples.len() == 0 {
        0
    } else {
        total_of(samples.drop_last()) + samples.last() as nat
    }
}

/// The mean of `samples`, rounded down, or zero if there are none.
pub open spec fn mean_of(samples: Seq<u64>) -> nat {
    if samples.len() == 0 {
        0
    } else {
        total_of(samples) / samples.len()
    }
}

/// The window after `sample` arrived: `sample` is the newest, and the
/// oldest has left if there was no room.
pub open spec fn slide(window: Seq<u64>, sample: u64) -> Seq<u64> {
    let grown = window.push(sample);
    if grown.len() > LATENCY_CAPACITY {
        grown.skip(1)
    } else {
        grown
    }
}

/// A sum is at most the largest sample times the number of samples.
pub proof fn lemma_total_bounded(samples: Seq<u64>)
    ensures
        total_of(samples) <= samples.len() * u64::MAX,
    decreases samples.len(),
{
    if samples.len() > 0 {
        lemma_total_bounded(samples.drop_last());
        assert(samples.len() * u64::MAX == samples.drop_last().len() * u64::MAX + u64::MAX)
            by (nonlinear_arith)
            requires
                samples.len() == samples.drop_last().len() + 1,
        ;
    }
}

/// A sum is its first sample plus the sum of the others.
pub proof fn lemma_total_first(samples: Seq<u64>)
    requires
        samples.len() > 0,
    ensures
        total_of(samples) == samples[0] + total_of(samples.skip(1)),
    decreases samples.len(),
{
    if samples.len() == 1 {
        assert(samples.skip(1) =~= Seq::empty());
        assert(samples.drop_last() =~= Seq::empty());
    } else {
        lemma_total_first(samples.drop_last());
        assert(samples.skip(1).drop_last() =~= samples.drop_last().skip(1));
    }
}

/// The mean of samples fits in the type of a sample.
pub proof fn lemma_mean_in_range(samples: Seq<u64>)
    ensures
        mean_of(samples) <= u64::MAX,
{
    if samples.len() > 0 {
        lemma_total_bounded(samples);
        assert(total_of(samples) / samples.len() <= u64::MAX) by (nonlinear_arith)
            requires
                samples.len() > 0,
                total_of(samples) <= samples.len() * u64::MAX,
        ;
    }
}

/// The slot that holds the sample of age rank `i`, counted from the oldest,
/// in a ring whose oldest sample is in slot `head`.
pub open spec fn slot_of(head: int, i: int) -> int {
    if head + i >= LATENCY_CAPACITY {
        head + i - LATENCY_CAPACITY
    } else {
        head + i
    }
}

/// The storage of the window: a ring of slots.
#[derive(Clone, Copy)]
struct Ring {
    slots: [u64; LATENCY_CAPACITY],
    /// Slot of the oldest sample.
    head: usize,
    /// Number of samples held.
    len: usize,
    /// Sum of the samples held.
    total: u128,
}

impl Ring {
    spec fn contents(self) -> Seq<u64> {
        Seq::new(self.len as nat, |i: int| self.slots@[slot_of(self.head as int, i)])
    }

    spec fn wf(self) -> bool {
        &&& self.head < LATENCY_CAPACITY
        &&& self.len <= LATENCY_CAPACITY
        &&& self.total == total_of(self.contents())
    }

    /// The slot of the sample of rank `i`.
    fn slot(&self, i: usize) -> (slot: usize)
        requires
            self.head < LATENCY_CAPACITY,
            i < LATENCY_CAPACITY,
        ensures
            slot == slot_of(self.head as int, i as int),
            slot < LATENCY_CAPACITY,
    {
        if self.head + i >= LATENCY_CAPACITY {
            self.head + i - LATENCY_CAPACITY
        } else {
            self.head + i
        }
    }

    /// Adds a sample to a ring that has room.
    fn append(self, sample: u64) -> (ring: Ring)
        requires
            self.wf(),
            self.len < LATENCY_CAPACITY,
        ensures
            ring.wf(),
            ring.contents() == self.contents().push(sample),
    {
        let at: usize = self.slot(self.len);
        let mut ring = self;
        ring.slots[at] = sample;
        ring.len = self.len + 1;
        proof {
            lemma_total_bounded(self.contents());
            assert forall|i: int| 0 <= i < self.len implies ring.slots@[slot_of(
                self.head as int,
                i,
            )] == self.slots@[slot_of(self.head as int, i)] by {
                assert(slot_of(self.head as int, i) != at);
            }
            assert(ring.contents() =~= self.contents().push(sample));
            assert(ring.contents().drop_last() =~= self.contents());
        }
        ring.total = self.total + sample as u128;
        ring
    }

    /// Puts a sample in the place of the oldest one of a full ring.
    fn replace_oldest(self, sample: u64) -> (ring: Ring)
        requires
            self.wf(),
            self.len == LATENCY_CAPACITY,
        ensures
            ring.wf(),
            ring.contents() == self.contents().push(sample).skip(1),
    {
        let evicted: u64 = self.slots[self.head];
        let mut ring = self;
        ring.slots[self.head] = sample;
        ring.head = if self.head + 1 == LATENCY_CAPACITY {
            0
        } else {
            self.head + 1
        };
        proof {
            let before = self.contents();
            let after = before.push(sample).skip(1);
            lemma_total_bounded(before);
            lemma_total_first(before);
            assert(before[0] == evicted);
            assert forall|i: int| 0 <= i < LATENCY_CAPACITY implies ring.contents()[i]
                == after[i] by {
                if i < LATENCY_CAPACITY - 1 {
                    assert(slot_of(ring.head as int, i) == slot_of(self.head as int, i + 1));
                    assert(slot_of(self.head as int, i + 1) != self.head);
                    assert(after[i] == before[i + 1]);
                } else {
                    assert(slot_of(ring.head as int, i) == self.head);
                }
            }
            assert(ring.contents() =~= after);
            assert(after.drop_last() =~= before.skip(1));
        }
        ring.total = self.total - evicted as u128 + sample as u128;
        ring
    }
}

/// The most recent latency samples, oldest first.
pub struct LatencyWindow {
    ring: Ring,
}

impl View for LatencyWindow {
    type V = Seq<u64>;

    closed spec fn view(&self) -> Seq<u64> {
        self.ring.contents()
    }
}

impl LatencyWindow {
    #[verifier::type_invariant]
    spec fn inv(self) -> bool {
        self.ring.wf()
    }

    /// An empty window.
    pub fn new() -> (window: Self)
        ensures
            window@ == Seq::<u64>::empty(),
    {
        let ring = Ring { slots: [0u64; LATENCY_CAPACITY], head: 0, len: 0, total: 0 };
        assert(ring.contents() =~= Seq::empty());
        LatencyWindow { ring }
    }

    /// The number of samples in the window.
    pub fn len(&self) -> (len: usize)
        ensures
            len == self@.len(),
            len <= LATENCY_CAPACITY,
    {
        proof {
            use_type_invariant(self);
        }
        self.ring.len
    }

    /// The samples in the window, oldest first.
    pub fn samples(&self) -> (samples: Vec<u64>)
        ensures
            samples@ == self@,
    {
        proof {
            use_type_invariant(self);
        }
        let mut samples: Vec<u64> = Vec::new();
        let mut i: usize = 0;
        while i < self.ring.len
            invariant
                self.ring.wf(),
                i <= self.ring.len,
                samples@ == self@.take(i as int),
            decreases self.ring.len - i,
        {
            samples.push(self.ring.slots[self.ring.slot(i)]);
            assert(samples@ =~= self@.take(i + 1));
            i += 1;
        }
        assert(self@.take(i as int) =~= self@);
        samples
    }

    /// The mean of the samples in the window, rounded down to whole
    /// nanoseconds; zero while the window is empty.
    pub fn average(&self) -> (average: u64)
        ensures
            average == mean_of(self@),
    {
        proof {
            use_type_invariant(self);
            lemma_mean_in_range(self@);
        }
        if self.ring.len == 0 {
            0
        } else {
            (self.ring.total / self.ring.len as u128) as u64
        }
    }

    /// Takes in a sample and returns the mean of the window that results.
    pub fn record(&mut self, sample: u64) -> (average: u64)
        ensures
            final(self)@ == slide(old(self)@, sample),
            final(self)@.len() <= LATENCY_CAPACITY,
            final(self)@.last() == sample,
            average == mean_of(final(self)@),
    {
        proof {
            use_type_invariant(&*self);
        }
        self.ring = if self.ring.len < LATENCY_CAPACITY {
            self.ring.append(sample)
        } else {
            self.ring.replace_oldest(sample)
        };
        self.average()
    }
}

} // verus!
