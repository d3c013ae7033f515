//! The bounded ring buffer of commitments that wait for batched insertion.
use crate::error::ElusivError;
use crate::fields::U256;
use vstd::arithmetic::power2::{lemma2_to64, pow2};
use vstd::prelude::*;

verus! {

/// Largest batching rate: a batch holds at most `2^MAX_BATCHING_RATE` commitments.
pub const MAX_BATCHING_RATE: u32 = 4;

/// Largest number of commitments in one batch.
pub const MAX_HT_COMMITMENTS: usize = 16;

/// A commitment waiting in the queue, with the fee version and the minimum
/// batching rate that were in force when it was submitted.
#[derive(Clone, Copy, Debug, PartialEq, Eq, Default)]
pub struct CommitmentHashRequest {
    pub commitment: U256,
    pub fee_version: u32,
    pub min_batching_rate: u32,
}

/// Number of commitments in a batch of the given rate.
pub fn commitments_per_batch(batching_rate: u32) -> (r: usize)
    requires
        batching_rate <= MAX_BATCHING_RATE,
    ensures
        r == pow2(batching_rate as nat),
        r <= MAX_HT_COMMITMENTS,
{
    proof {
        lemma2_to64();
    }
    if batching_rate == 0 {
        1
    } else if batching_rate == 1 {
        2
    } else if batching_rate == 2 {
        4
    } else if batching_rate == 3 {
        8
    } else {
        16
    }
}

/// The strictest minimum batching rate among the first `k` entries.
pub open spec fn max_rate(q: Seq<CommitmentHashRequest>, k: int) -> nat
    decreases k,
{
    if k <= 0 {
        0
    } else {
        let m = max_rate(q, k - 1);
        let r = q[k - 1].min_batching_rate as nat;
        if r > m {
            r
        } else {
            m
        }
    }
}

/// Whether the first `k` entries share the fee version of the head.
pub open spec fn same_version_prefix(q: Seq<CommitmentHashRequest>, k: int) -> bool {
    forall|i: int| 0 <= i < k ==> (#[trigger] q[i]).fee_version == q[0].fee_version
}

/// Whether the first `k` entries form a complete batch: one fee version, and
/// exactly `2^r` entries where `r` is their strictest floor.
pub open spec fn is_batch_len(q: Seq<CommitmentHashRequest>, k: int) -> bool {
    &&& 1 <= k <= q.len()
    &&& same_version_prefix(q, k)
    &&& max_rate(q, k) <= MAX_BATCHING_RATE
    &&& k == pow2(max_rate(q, k))
}

/// Whether `k` is the shortest complete batch at the head of `q`.
pub open spec fn is_next_batch_len(q: Seq<CommitmentHashRequest>, k: int) -> bool {
    is_batch_len(q, k) && forall|j: int| 1 <= j < k ==> !is_batch_len(q, j)
}

pub proof fn lemma_max_rate_mono(q: Seq<CommitmentHashRequest>, j: int, k: int)
    requires
        0 <= j <= k,
    ensures
        max_rate(q, j) <= max_rate(q, k),
    decreases k - j,
{
    if j < k {
        lemma_max_rate_mono(q, j, k - 1);
    }
}

pub proof fn lemma_pow2_mono(a: nat, b: nat)
    requires
        a <= b,
    ensures
        pow2(a) <= pow2(b),
{
    if a == b {
    } else {
        vstd::arithmetic::power2::lemma_pow2_strictly_increases(a, b);
    }
}

/// Position `i` places behind `h` in a ring of `cap` slots.
pub proof fn lemma_ring_index(h: int, i: int, cap: int)
    requires
        0 <= h < cap,
        0 <= i < cap,
    ensures
        (h + i) % cap == if h + i < cap {
            h + i
        } else {
            h + i - cap
        },
{
    if h + i < cap {
        vstd::arithmetic::div_mod::lemma_small_mod((h + i) as nat, cap as nat);
    } else {
        vstd::arithmetic::div_mod::lemma_small_mod((h + i - cap) as nat, cap as nat);
        vstd::arithmetic::div_mod::lemma_mod_add_multiples_vanish(h + i - cap, cap);
    }
}

/// Fixed-capacity FIFO of commitments, stored as a ring over `data`.
pub struct CommitmentQueue {
    data: Vec<CommitmentHashRequest>,
    head: usize,
    len: usize,
}

impl CommitmentQueue {
    pub closed spec fn capacity_spec(&self) -> nat {
        self.data@.len()
    }

    pub proof fn lemma_wf(&self)
        requires
            self.wf(),
        ensures
            0 < self.capacity_spec(),
            self@.len() <= self.capacity_spec(),
    {
    }

    pub closed spec fn wf(&self) -> bool {
        &&& self.data@.len() > 0
        &&& self.head < self.data@.len()
        &&& self.len <= self.data@.len()
    }

    /// The queued entries, head first.
    pub closed spec fn view(&self) -> Seq<CommitmentHashRequest> {
        Seq::new(
            self.len as nat,
            |i: int| self.data@[(self.head as int + i) % (self.data@.len() as int)],
        )
    }

    /// An empty queue that holds at most `capacity` entries.
    pub fn new(capacity: usize) -> (r: CommitmentQueue)
        requires
            capacity > 0,
        ensures
            r.wf(),
            r@ == Seq::<CommitmentHashRequest>::empty(),
            r.capacity_spec() == capacity,
    {
        let mut data: Vec<CommitmentHashRequest> = Vec::new();
        let mut i: usize = 0;
        while i < capacity
            invariant
                i <= capacity,
                data@.len() == i,
            decreases capacity - i,
        {
            data.push(CommitmentHashRequest { commitment: [0u8; 32], fee_version: 0, min_batching_rate: 0 });
            i = i + 1;
        }
        let r = CommitmentQueue { data, head: 0, len: 0 };
        assert(r@ =~= Seq::<CommitmentHashRequest>::empty());
        r
    }

    pub fn capacity(&self) -> (r: usize)
        ensures
            r == self.capacity_spec(),
    {
        self.data.len()
    }

    pub fn len(&self) -> (r: usize)
        requires
            self.wf(),
        ensures
            r == self@.len(),
    {
        self.len
    }

    /// The entry `i` places behind the head.
    pub fn view_at(&self, i: usize) -> (r: CommitmentHashRequest)
        requires
            self.wf(),
            i < self@.len(),
        ensures
            r == self@[i as int],
    {
        let cap = self.data.len();
        let pos = if self.head < cap - i {
            self.head + i
        } else {
            self.head - (cap - i)
        };
        proof {
            lemma_ring_index(self.head as int, i as int, cap as int);
        }
        self.data[pos]
    }

    /// Appends `request` at the tail, or fails with `QueueIsFull` and leaves
    /// the queue as it was.
    pub fn enqueue(&mut self, request: CommitmentHashRequest) -> (r: Result<(), ElusivError>)
        requires
            old(self).wf(),
        ensures
            final(self).wf(),
            final(self).capacity_spec() == old(self).capacity_spec(),
            old(self)@.len() == old(self).capacity_spec() ==> r == Err::<(), ElusivError>(
                ElusivError::QueueIsFull,
            ) && final(self)@ == old(self)@,
            old(self)@.len() < old(self).capacity_spec() ==> r is Ok && final(self)@ == old(
                self,
            )@.push(request),
    {
        let cap = self.data.len();
        if self.len == cap {
            return Err(ElusivError::QueueIsFull);
        }
        let pos = if self.head < cap - self.len {
            self.head + self.len
        } else {
            self.head - (cap - self.len)
        };
        let ghost before = self@;
        proof {
            lemma_ring_index(self.head as int, self.len as int, cap as int);
        }
        self.data.set(pos, request);
        self.len = self.len + 1;
        assert forall|i: int| 0 <= i < before.len() implies #[trigger] self@[i] == before[i] by {
            lemma_ring_index(self.head as int, i, cap as int);
        }
        assert(self@ =~= before.push(request));
        Ok(())
    }

    /// Drops the first `n` entries and keeps the order of the rest; fails with
    /// `QueueIsEmpty` and changes nothing where fewer than `n` are queued.
    pub fn remove(&mut self, n: usize) -> (r: Result<(), ElusivError>)
        requires
            old(self).wf(),
        ensures
            final(self).wf(),
            final(self).capacity_spec() == old(self).capacity_spec(),
            n > old(self)@.len() ==> r == Err::<(), ElusivError>(ElusivError::QueueIsEmpty)
                && final(self)@ == old(self)@,
            n <= old(self)@.len() ==> r is Ok && final(self)@ == old(self)@.skip(n as int),
    {
        if n > self.len {
            return Err(ElusivError::QueueIsEmpty);
        }
        let cap = self.data.len();
        let ghost before = self@;
        let h = self.head;
        let new_head = if h < cap - n {
            h + n
        } else {
            h - (cap - n)
        };
        proof {
            if n < cap {
                lemma_ring_index(h as int, n as int, cap as int);
            }
        }
        self.head = new_head;
        self.len = self.len - n;
        assert forall|i: int| 0 <= i < self.len implies #[trigger] self@[i] == before[n + i] by {
            lemma_ring_index(new_head as int, i, cap as int);
            lemma_ring_index(h as int, n + i, cap as int);
        }
        assert(self@ =~= before.skip(n as int));
        Ok(())
    }

    /// The next batch: the shortest prefix of one fee version whose length is
    /// `2^r`, where `r` is the strictest minimum batching rate among its
    /// entries; returned with `r`.
    pub fn next_batch(&self) -> (r: Result<(Vec<CommitmentHashRequest>, u32), ElusivError>)
        requires
            self.wf(),
        ensures
            match r {
                Ok((batch, rate)) => exists|k: int|
                    is_next_batch_len(self@, k) && batch@ == self@.take(k) && rate == max_rate(
                        self@,
                        k,
                    ),
                Err(e) => {
                    &&& self@.len() == 0 ==> e == ElusivError::QueueIsEmpty
                    &&& self@.len() > 0 ==> e == ElusivError::BatchNotReady
                    &&& forall|k: int| !is_next_batch_len(self@, k)
                },
            },
    {
        let n = self.len();
        if n == 0 {
            return Err(ElusivError::QueueIsEmpty);
        }
        let ghost q = self@;
        let first = self.view_at(0);
        let mut highest: u32 = 0;
        let mut batch: Vec<CommitmentHashRequest> = Vec::new();
        let mut i: usize = 0;
        let mut done = false;
        let mut mismatch = false;
        while i < n && !done && !mismatch
            invariant
                mismatch ==> !done && i < n && q[i as int].fee_version != q[0].fee_version,
                self.wf(),
                q == self@,
                n == q.len(),
                first == q[0],
                i <= n,
                batch@ == q.take(i as int),
                highest == max_rate(q, i as int),
                same_version_prefix(q, i as int),
                forall|j: int| 1 <= j < i ==> j < pow2(#[trigger] max_rate(q, j)) && max_rate(q, j)
                    <= MAX_BATCHING_RATE,
                !done ==> i == 0 || (highest <= MAX_BATCHING_RATE && i < pow2(highest as nat)),
                done ==> i >= 1 && (highest > MAX_BATCHING_RATE || i >= pow2(highest as nat)),
                done ==> highest <= MAX_BATCHING_RATE ==> i == pow2(highest as nat),
            decreases n - i + (if mismatch { 0int } else { 1int }),
        {
            let req = self.view_at(i);
            if req.fee_version != first.fee_version {
                mismatch = true;
            } else {
                if req.min_batching_rate > highest {
                    highest = req.min_batching_rate;
                }
                batch.push(req);
                proof {
                    assert(batch@ =~= q.take(i + 1));
                    if i >= 1 {
                        lemma_max_rate_mono(q, i as int, i + 1);
                    }
                }
                let ghost prev = i;
                i = i + 1;
                if highest > MAX_BATCHING_RATE {
                    done = true;
                } else if i >= commitments_per_batch(highest) {
                    proof {
                        if prev >= 1 {
                            lemma_max_rate_mono(q, prev as int, i as int);
                            lemma_pow2_mono(max_rate(q, prev as int), highest as nat);
                        } else {
                            vstd::arithmetic::power2::lemma_pow2_pos(highest as nat);
                        }
                    }
                    done = true;
                }
            }
        }
        if highest <= MAX_BATCHING_RATE && i >= 1 && i == commitments_per_batch(highest) {
            assert(is_batch_len(q, i as int));
            return Ok((batch, highest));
        }
        proof {
            assert forall|k: int| !is_next_batch_len(q, k) by {
                if is_batch_len(q, k) {
                    if k < i {
                        assert(k < pow2(max_rate(q, k)));
                    } else if k == i {
                    } else {
                        // k > i: the scan stopped early at i
                        if mismatch {
                            assert(!same_version_prefix(q, k));
                        } else if done {
                            lemma_max_rate_mono(q, i as int, k);
                        } else {
                            assert(k <= n);
                        }
                    }
                }
            }
        }
        Err(ElusivError::BatchNotReady)
    }
}

} // verus!
