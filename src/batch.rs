//! Batched insertion: a batch of queued commitments is hashed level by level
//! into the rows of new tree nodes, then spliced into the commitment tree.
use crate::base_commitment::{Party, Transfer};
use crate::error::ElusivError;
use crate::fields::{u256_nat, U256};
use crate::merkle::{
    child_value, empty_node, halve, level_values, lemma_level_values_len, tree_node,
    MT_COMMITMENT_COUNT, MT_HEIGHT,
};
use crate::poseidon::{hash_two, load_parameters, poseidon_hash, PoseidonParameters};
use crate::queue::{
    commitments_per_batch, is_next_batch_len, max_rate, CommitmentQueue, MAX_BATCHING_RATE,
};
use crate::storage::StorageAccount;
use vstd::arithmetic::power2::pow2;
use vstd::prelude::*;

verus! {

/// Every row above the leaves holds the new nodes of its level.
pub open spec fn rows_hashed(h: CommitmentHashingAccount) -> bool {
    forall|k: int|
        1 <= k < h.rows() ==> #[trigger] h.row(k) == level_values(
            h.batch(),
            h.ordering_spec(),
            h.sib(),
            k as nat,
        )
}

/// The field elements that a sequence of values denotes.
pub open spec fn nats(s: Seq<U256>) -> Seq<nat> {
    s.map_values(|x: U256| u256_nat(x))
}

/// Whether node `index` at `level` is among the new nodes of a batch of `n`
/// leaves appended at leaf `o`.
pub open spec fn in_rows(o: nat, n: nat, index: nat, level: nat) -> bool {
    halve(o, level) <= index <= halve((o + n - 1) as nat, level)
}

/// `x` halved `k` times.
pub fn halve_exec(x: u32, k: u32) -> (r: u32)
    ensures
        r == halve(x as nat, k as nat),
        r <= x,
{
    let mut r = x;
    let mut i: u32 = 0;
    while i < k
        invariant
            i <= k,
            r == halve(x as nat, i as nat),
            r <= x,
        decreases k - i,
    {
        r = r / 2;
        i = i + 1;
    }
    r
}

/// The single slot of the batch computation.
pub struct CommitmentHashingAccount {
    is_active: bool,
    setup: bool,
    ordering: u32,
    siblings: Vec<U256>,
    empty: Vec<U256>,
    batching_rate: u32,
    fee_version: u32,
    finalization_ix: u32,
    hash_tree: Vec<Vec<U256>>,
}

impl CommitmentHashingAccount {
    pub closed spec fn wf(&self) -> bool {
        &&& self.siblings@.len() == MT_HEIGHT
        &&& self.empty@.len() == MT_HEIGHT + 1
        &&& forall|l: int|
            0 <= l <= MT_HEIGHT ==> u256_nat(#[trigger] self.empty@[l]) == empty_node(l as nat)
        &&& self.batching_rate <= MAX_BATCHING_RATE
        &&& self.ordering <= MT_COMMITMENT_COUNT
        &&& self.finalization_ix <= self.batching_rate + 1
        &&& self.hash_tree@.len() <= MT_HEIGHT + 1
        &&& self.is_active ==> self.hash_tree@.len() >= 1
        &&& self.hash_tree@.len() >= 1 ==> {
            &&& self.hash_tree@[0]@.len() == pow2(self.batching_rate as nat)
            &&& self.ordering + pow2(self.batching_rate as nat) <= MT_COMMITMENT_COUNT
        }
        &&& forall|k: int|
            1 <= k < self.hash_tree@.len() ==> nats((#[trigger] self.hash_tree@[k])@)
                == level_values(self.batch(), self.ordering as nat, self.sib(), k as nat)
    }

    /// The leaves of the current batch.
    pub closed spec fn batch(&self) -> Seq<nat> {
        nats(self.hash_tree@[0]@)
    }

    /// The sibling path recorded at setup.
    pub closed spec fn sib(&self) -> Seq<nat> {
        nats(self.siblings@)
    }

    /// Number of rows computed so far (leaves included).
    pub closed spec fn rows(&self) -> nat {
        self.hash_tree@.len()
    }

    pub closed spec fn active(&self) -> bool {
        self.is_active
    }

    pub closed spec fn is_setup(&self) -> bool {
        self.setup
    }

    pub closed spec fn ordering_spec(&self) -> nat {
        self.ordering as nat
    }

    pub closed spec fn rate(&self) -> nat {
        self.batching_rate as nat
    }

    pub closed spec fn version(&self) -> u32 {
        self.fee_version
    }

    pub closed spec fn finalization(&self) -> nat {
        self.finalization_ix as nat
    }

    /// Row `k` of new nodes, as computed so far.
    pub closed spec fn row(&self, k: int) -> Seq<nat> {
        nats(self.hash_tree@[k]@)
    }

    /// An idle slot.
    pub fn new() -> (r: CommitmentHashingAccount)
        ensures
            r.wf(),
            !r.active(),
            !r.is_setup(),
            r.rows() == 0,
    {
        let mut siblings: Vec<U256> = Vec::new();
        let mut i: usize = 0;
        while i < MT_HEIGHT as usize
            invariant
                i <= MT_HEIGHT,
                siblings@.len() == i,
            decreases MT_HEIGHT - i,
        {
            siblings.push([0u8; 32]);
            i = i + 1;
        }
        let empty = crate::storage::empty_tree();
        CommitmentHashingAccount {
            is_active: false,
            setup: false,
            ordering: 0,
            siblings,
            empty,
            batching_rate: 0,
            fee_version: 0,
            finalization_ix: 0,
            hash_tree: Vec::new(),
        }
    }

    pub fn get_is_active(&self) -> (r: bool)
        ensures
            r == self.active(),
    {
        self.is_active
    }

    pub fn set_is_active(&mut self, v: bool)
        requires
            old(self).wf(),
            v ==> old(self).rows() >= 1,
        ensures
            final(self).wf(),
            final(self).active() == v,
            final(self).is_setup() == old(self).is_setup(),
            final(self).rows() == old(self).rows(),
    {
        self.is_active = v;
    }

    pub fn get_setup(&self) -> (r: bool)
        ensures
            r == self.is_setup(),
    {
        self.setup
    }

    pub fn set_setup(&mut self, v: bool)
        requires
            old(self).wf(),
        ensures
            final(self).wf(),
            final(self).is_setup() == v,
            final(self).active() == old(self).active(),
            final(self).rows() == old(self).rows(),
    {
        self.setup = v;
    }

    pub fn get_ordering(&self) -> (r: u32)
        ensures
            r == self.ordering_spec(),
    {
        self.ordering
    }

    pub fn get_batching_rate(&self) -> (r: u32)
        ensures
            r == self.rate(),
    {
        self.batching_rate
    }

    pub fn get_fee_version(&self) -> (r: u32)
        ensures
            r == self.version(),
    {
        self.fee_version
    }

    pub fn get_finalization_ix(&self) -> (r: u32)
        ensures
            r == self.finalization(),
    {
        self.finalization_ix
    }

    /// Number of hashing steps done for the current batch.
    pub fn get_instruction(&self) -> (r: u32)
        requires
            self.wf(),
        ensures
            r == if self.rows() == 0 {
                0
            } else {
                self.rows() - 1
            },
    {
        if self.hash_tree.len() == 0 {
            0
        } else {
            (self.hash_tree.len() - 1) as u32
        }
    }

    /// Sibling `i` of the recorded path.
    pub fn get_siblings(&self, i: usize) -> (r: U256)
        requires
            self.wf(),
            i < MT_HEIGHT,
        ensures
            u256_nat(r) == self.sib()[i as int],
    {
        self.siblings[i]
    }

    /// Leaf `i` of the current batch.
    pub fn get_hash_tree(&self, i: usize) -> (r: U256)
        requires
            self.wf(),
            self.rows() >= 1,
            i < self.batch().len(),
        ensures
            u256_nat(r) == self.batch()[i as int],
    {
        self.hash_tree[0][i]
    }

    /// Computes row `hash_tree.len()` from the row below and appends it.
    fn push_row(&mut self, p: &PoseidonParameters)
        requires
            old(self).wf(),
            p.wf(),
            1 <= old(self).rows() <= MT_HEIGHT,
        ensures
            final(self).wf(),
            final(self).rows() == old(self).rows() + 1,
            final(self).batch() == old(self).batch(),
            final(self).active() == old(self).active(),
            final(self).is_setup() == old(self).is_setup(),
            final(self).rate() == old(self).rate(),
            final(self).version() == old(self).version(),
            final(self).finalization() == old(self).finalization(),
            final(self).ordering_spec() == old(self).ordering_spec(),
            final(self).sib() == old(self).sib(),
            forall|k: int| 0 <= k < old(self).rows() ==> #[trigger] final(self).row(k) == old(
                self,
            ).row(k),
    {
        let k = self.hash_tree.len();
        let level = k as u32;
        let n = commitments_per_batch(self.batching_rate);
        proof {
            vstd::arithmetic::power2::lemma_pow2_pos(self.batching_rate as nat);
            assert(self.batch().len() == self.hash_tree@[0]@.len());
        }
        let o = self.ordering;
        let plo = halve_exec(o, level - 1);
        let lo = halve_exec(o, level);
        let hi = halve_exec(o + n as u32 - 1, level);
        proof {
            lemma_level_values_len(self.batch(), o as nat, self.sib(), level as nat);
            lemma_level_values_len(self.batch(), o as nat, self.sib(), (level - 1) as nat);
            assert(self.hash_tree@[0]@.len() == nats(self.hash_tree@[0]@).len());
        }
        let ghost prevs = nats(self.hash_tree@[k - 1]@);
        assert(prevs == level_values(self.batch(), o as nat, self.sib(), (level - 1) as nat));
        let sib = self.siblings[k - 1];
        let e = self.empty[k - 1];
        let mut row: Vec<U256> = Vec::new();
        let mut i: u32 = 0;
        let count = hi - lo + 1;
        while i < count
            invariant
                p.wf(),
                self.wf(),
                k == self.hash_tree@.len(),
                1 <= k <= MT_HEIGHT,
                level == k,
                count == hi - lo + 1,
                lo <= hi,
                hi <= o + n,
                o + n <= MT_COMMITMENT_COUNT,
                i <= count,
                row@.len() == i,
                prevs == nats(self.hash_tree@[k - 1]@),
                prevs.len() == halve((o + n - 1) as nat, (level - 1) as nat) - plo + 1,
                u256_nat(sib) == self.sib()[k - 1],
                u256_nat(e) == empty_node((level - 1) as nat),
                forall|j: int|
                    0 <= j < i ==> u256_nat(#[trigger] row@[j]) == poseidon_hash(
                        child_value(prevs, plo as nat, self.sib()[k - 1], (level - 1) as nat, 2 * (lo + j) as nat),
                        child_value(prevs, plo as nat, self.sib()[k - 1], (level - 1) as nat, (2 * (lo + j) + 1) as nat),
                    ),
            decreases count - i,
        {
            let c = 2 * (lo as u64 + i as u64);
            let left = self.child(k - 1, plo, &sib, &e, c);
            let right = self.child(k - 1, plo, &sib, &e, c + 1);
            row.push(hash_two(p, &left, &right));
            i = i + 1;
        }
        let ghost before = *self;
        self.hash_tree.push(row);
        assert(nats(row@) =~= level_values(before.batch(), o as nat, before.sib(), level as nat));
        assert(self.batch() == before.batch());
        assert forall|j: int| 1 <= j < self.hash_tree@.len() implies nats(
            (#[trigger] self.hash_tree@[j])@,
        ) == level_values(self.batch(), self.ordering as nat, self.sib(), j as nat) by {
            if j < k {
                assert(self.hash_tree@[j] == before.hash_tree@[j]);
            }
        }
        assert forall|j: int| 0 <= j < before.rows() implies #[trigger] self.row(j) == before.row(
            j,
        ) by {
            assert(self.hash_tree@[j] == before.hash_tree@[j]);
        }
    }

    /// Child `c` at `level` while computing the row above.
    fn child(&self, level: usize, plo: u32, sib: &U256, e: &U256, c: u64) -> (r: U256)
        requires
            self.wf(),
            level < self.rows(),
            u256_nat(*e) == empty_node(level as nat),
        ensures
            u256_nat(r) == child_value(
                nats(self.hash_tree@[level as int]@),
                plo as nat,
                u256_nat(*sib),
                level as nat,
                c as nat,
            ),
    {
        let row = &self.hash_tree[level];
        if c < plo as u64 {
            *sib
        } else if c - (plo as u64) < row.len() as u64 {
            row[(c - plo as u64) as usize]
        } else {
            *e
        }
    }
}

/// The commitments of a sequence of queue entries, as field elements.
pub open spec fn commitments_of(s: Seq<crate::queue::CommitmentHashRequest>) -> Seq<nat> {
    s.map_values(|r: crate::queue::CommitmentHashRequest| u256_nat(r.commitment))
}

/// `h` is set up for the next free leaf of `storage`, with its sibling path.
pub open spec fn set_up_from(h: CommitmentHashingAccount, storage: StorageAccount) -> bool {
    &&& h.wf()
    &&& h.is_setup()
    &&& !h.active()
    &&& h.rows() == 0
    &&& h.finalization() == 0
    &&& h.ordering_spec() == storage.next_ptr()
    &&& h.sib().len() == MT_HEIGHT
    &&& forall|l: int|
        0 <= l < MT_HEIGHT ==> #[trigger] h.sib()[l] == storage.node(
            crate::merkle::sibling_index(halve(storage.next_ptr(), l as nat)),
            l as nat,
        )
}

pub proof fn lemma_next_batch_unique(q: Seq<crate::queue::CommitmentHashRequest>, a: int, b: int)
    requires
        is_next_batch_len(q, a),
        is_next_batch_len(q, b),
    ensures
        a == b,
{
}

fn init_commitment_hash_setup_inner(
    hashing: &mut CommitmentHashingAccount,
    storage: &StorageAccount,
) -> (r: Result<(), ElusivError>)
    requires
        old(hashing).wf(),
        storage.wf(),
    ensures
        old(hashing).active() ==> r == Err::<(), ElusivError>(
            ElusivError::ComputationIsNotYetFinished,
        ) && *final(hashing) == *old(hashing),
        !old(hashing).active() ==> r is Ok && set_up_from(*final(hashing), *storage),
{
    if hashing.is_active {
        return Err(ElusivError::ComputationIsNotYetFinished);
    }
    let ordering = storage.get_next_commitment_ptr();
    let siblings = storage.get_mt_opening(ordering);
    hashing.setup = true;
    hashing.ordering = ordering;
    hashing.siblings = siblings;
    hashing.hash_tree = Vec::new();
    hashing.finalization_ix = 0;
    proof {
        assert forall|l: int| 0 <= l < MT_HEIGHT implies #[trigger] hashing.sib()[l]
            == storage.node(
            crate::merkle::sibling_index(halve(storage.next_ptr(), l as nat)),
            l as nat,
        ) by {
            assert(hashing.sib()[l] == u256_nat(hashing.siblings@[l]));
        }
    }
    Ok(())
}

/// Records the next free leaf of the tree and its sibling path in the idle
/// batch slot. Fails with `ComputationIsNotYetFinished` while a batch is
/// active; with `insertion_can_fail` that failure is reported as success and
/// nothing changes.
pub fn init_commitment_hash_setup(
    hashing: &mut CommitmentHashingAccount,
    storage: &StorageAccount,
    insertion_can_fail: bool,
) -> (r: Result<(), ElusivError>)
    requires
        old(hashing).wf(),
        storage.wf(),
    ensures
        final(hashing).wf(),
        old(hashing).active() ==> *final(hashing) == *old(hashing) && r == if insertion_can_fail {
            Ok::<(), ElusivError>(())
        } else {
            Err(ElusivError::ComputationIsNotYetFinished)
        },
        !old(hashing).active() ==> r is Ok && set_up_from(*final(hashing), *storage),
{
    match init_commitment_hash_setup_inner(hashing, storage) {
        Ok(()) => Ok(()),
        Err(e) => {
            if insertion_can_fail {
                Ok(())
            } else {
                Err(e)
            }
        },
    }
}

/// What `init_commitment_hash` does when nothing stops it: the next batch of
/// `queue` (length `k`) becomes the leaves of the computation.
pub open spec fn batch_taken(
    q0: CommitmentQueue,
    q1: CommitmentQueue,
    h0: CommitmentHashingAccount,
    h1: CommitmentHashingAccount,
    k: int,
) -> bool {
    &&& q1.wf()
    &&& q1@ == q0@.skip(k)
    &&& q1.capacity_spec() == q0.capacity_spec()
    &&& h1.wf()
    &&& h1.active()
    &&& h1.is_setup()
    &&& h1.rows() == 1
    &&& h1.batch() == commitments_of(q0@.take(k))
    &&& h1.rate() == max_rate(q0@, k)
    &&& h1.version() == q0@[0].fee_version
    &&& h1.finalization() == 0
    &&& h1.ordering_spec() == h0.ordering_spec()
    &&& h1.sib() == h0.sib()
}

/// The error `init_commitment_hash` reports, if any, before it takes a batch.
pub open spec fn init_error(q: CommitmentQueue, h: CommitmentHashingAccount) -> Option<ElusivError> {
    if h.active() || !h.is_setup() {
        Some(ElusivError::ComputationIsNotYetFinished)
    } else if !exists|k: int| is_next_batch_len(q@, k) {
        Some(
            if q@.len() == 0 {
                ElusivError::QueueIsEmpty
            } else {
                ElusivError::BatchNotReady
            },
        )
    } else if h.ordering_spec() + (choose|k: int| is_next_batch_len(q@, k)) > MT_COMMITMENT_COUNT {
        Some(ElusivError::NoRoomForCommitment)
    } else {
        None
    }
}

fn init_commitment_hash_inner(
    queue: &mut CommitmentQueue,
    hashing: &mut CommitmentHashingAccount,
) -> (r: Result<(), ElusivError>)
    requires
        old(queue).wf(),
        old(hashing).wf(),
    ensures
        init_error(*old(queue), *old(hashing)) is Some ==> r == Err::<(), ElusivError>(
            init_error(*old(queue), *old(hashing))->Some_0,
        ) && *final(queue) == *old(queue) && *final(hashing) == *old(hashing),
        init_error(*old(queue), *old(hashing)) is None ==> r is Ok && batch_taken(
            *old(queue),
            *final(queue),
            *old(hashing),
            *final(hashing),
            choose|k: int| is_next_batch_len(old(queue)@, k),
        ),
{
    if hashing.is_active {
        return Err(ElusivError::ComputationIsNotYetFinished);
    }
    if !hashing.setup {
        return Err(ElusivError::ComputationIsNotYetFinished);
    }
    let ghost q0 = queue@;
    let (batch, batching_rate) = match queue.next_batch() {
        Ok(b) => b,
        Err(e) => {
            return Err(e);
        },
    };
    let ghost k = choose|k: int| is_next_batch_len(q0, k);
    proof {
        let k1 = choose|k1: int|
            is_next_batch_len(q0, k1) && batch@ == q0.take(k1) && batching_rate == max_rate(q0, k1);
        lemma_next_batch_unique(q0, k, k1);
    }
    let n = batch.len();
    if n > MT_COMMITMENT_COUNT - hashing.ordering as usize {
        return Err(ElusivError::NoRoomForCommitment);
    }
    let fee_version = batch[0].fee_version;
    match queue.remove(n) {
        Ok(()) => {},
        Err(e) => {
            return Err(e);
        },
    }
    let mut commitments: Vec<U256> = Vec::new();
    let mut i: usize = 0;
    while i < n
        invariant
            n == batch@.len(),
            i <= n,
            commitments@.len() == i,
            forall|j: int| 0 <= j < i ==> (#[trigger] commitments@[j]) == batch@[j].commitment,
        decreases n - i,
    {
        commitments.push(batch[i].commitment);
        i = i + 1;
    }
    hashing.is_active = true;
    hashing.batching_rate = batching_rate;
    hashing.fee_version = fee_version;
    hashing.finalization_ix = 0;
    let mut rows: Vec<Vec<U256>> = Vec::new();
    rows.push(commitments);
    hashing.hash_tree = rows;
    assert(hashing.batch() =~= commitments_of(q0.take(k)));
    Ok(())
}

/// Moves the next batch of the queue into the set-up batch slot and starts
/// its computation. Fails with `ComputationIsNotYetFinished` when a batch is
/// active or the slot is not set up, with the queue's error when no batch is
/// ready, and with `NoRoomForCommitment` when the batch does not fit in the
/// tree at the recorded leaf; a failure changes nothing. With
/// `insertion_can_fail` a failure is reported as success.
pub fn init_commitment_hash(
    queue: &mut CommitmentQueue,
    hashing: &mut CommitmentHashingAccount,
    insertion_can_fail: bool,
) -> (r: Result<(), ElusivError>)
    requires
        old(queue).wf(),
        old(hashing).wf(),
    ensures
        final(queue).wf(),
        final(hashing).wf(),
        init_error(*old(queue), *old(hashing)) is Some ==> *final(queue) == *old(queue)
            && *final(hashing) == *old(hashing) && r == if insertion_can_fail {
            Ok::<(), ElusivError>(())
        } else {
            Err(init_error(*old(queue), *old(hashing))->Some_0)
        },
        init_error(*old(queue), *old(hashing)) is None ==> r is Ok && batch_taken(
            *old(queue),
            *final(queue),
            *old(hashing),
            *final(hashing),
            choose|k: int| is_next_batch_len(old(queue)@, k),
        ),
{
    match init_commitment_hash_inner(queue, hashing) {
        Ok(()) => Ok(()),
        Err(e) => {
            if insertion_can_fail {
                Ok(())
            } else {
                Err(e)
            }
        },
    }
}

/// One hashing step of the active batch: computes the next row of new nodes
/// and returns the transaction compensation of `hash_tx_compensation`
/// lamports that the pool pays to the caller for it.
/// Fails with `ComputationIsNotYetStarted` when no batch is active, with
/// `InvalidFeeVersion` when `fee_version` is not the batch's, and with
/// `ComputationIsAlreadyFinished` once all `batching_rate` steps are done;
/// a failure changes nothing.
pub fn compute_commitment_hash(
    hashing: &mut CommitmentHashingAccount,
    fee_version: u32,
    hash_tx_compensation: u64,
) -> (r: Result<Transfer, ElusivError>)
    requires
        old(hashing).wf(),
    ensures
        final(hashing).wf(),
        !old(hashing).active() ==> r == Err::<Transfer, ElusivError>(
            ElusivError::ComputationIsNotYetStarted,
        ) && *final(hashing) == *old(hashing),
        old(hashing).active() && old(hashing).version() != fee_version ==> r == Err::<
            Transfer,
            ElusivError,
        >(ElusivError::InvalidFeeVersion) && *final(hashing) == *old(hashing),
        old(hashing).active() && old(hashing).version() == fee_version && old(hashing).rows()
            > old(hashing).rate() ==> r == Err::<Transfer, ElusivError>(
            ElusivError::ComputationIsAlreadyFinished,
        ) && *final(hashing) == *old(hashing),
        old(hashing).active() && old(hashing).version() == fee_version && old(hashing).rows()
            <= old(hashing).rate() ==> {
            &&& r == Ok::<Transfer, ElusivError>(
                Transfer {
                    from: Party::Pool,
                    to: Party::FeePayer,
                    amount: hash_tx_compensation,
                    in_lamports: true,
                },
            )
            &&& final(hashing).rows() == old(hashing).rows() + 1
            &&& rows_hashed(*final(hashing))
            &&& final(hashing).active()
            &&& final(hashing).is_setup() == old(hashing).is_setup()
            &&& final(hashing).batch() == old(hashing).batch()
            &&& final(hashing).rate() == old(hashing).rate()
            &&& final(hashing).version() == old(hashing).version()
            &&& final(hashing).finalization() == old(hashing).finalization()
            &&& final(hashing).ordering_spec() == old(hashing).ordering_spec()
            &&& final(hashing).sib() == old(hashing).sib()
        },
{
    if !hashing.is_active {
        return Err(ElusivError::ComputationIsNotYetStarted);
    }
    if hashing.fee_version != fee_version {
        return Err(ElusivError::InvalidFeeVersion);
    }
    if hashing.hash_tree.len() > hashing.batching_rate as usize {
        return Err(ElusivError::ComputationIsAlreadyFinished);
    }
    let p = load_parameters();
    hashing.push_row(&p);
    Ok(Transfer { from: Party::Pool, to: Party::FeePayer, amount: hash_tx_compensation, in_lamports: true })
}

/// The error `finalize_commitment_hash` reports, if any.
pub open spec fn finalize_error(h: CommitmentHashingAccount, s: StorageAccount) -> Option<
    ElusivError,
> {
    if h.finalization() > h.rate() {
        Some(ElusivError::ComputationIsAlreadyFinished)
    } else if !h.active() {
        Some(ElusivError::ComputationIsNotYetStarted)
    } else if h.rows() < h.rate() + 1 {
        Some(ElusivError::ComputationIsNotYetFinished)
    } else if s.next_ptr() + pow2(h.rate()) > MT_COMMITMENT_COUNT {
        Some(ElusivError::NoRoomForCommitment)
    } else {
        None
    }
}

/// Whether `level` is written by the finalization step `f` of a batch of rate `rate`:
/// step `f < rate` writes level `f`, the last step writes the levels from `rate` up to the root.
pub open spec fn written_by(f: nat, rate: nat, level: nat) -> bool {
    if f < rate {
        level == f
    } else {
        rate <= level <= MT_HEIGHT
    }
}

/// One splicing step: writes the next level of new nodes into the tree; the
/// last of the `batching_rate + 1` steps writes every level above the batch,
/// advances the next free leaf by the batch size and frees the slot. Fails
/// with `ComputationIsAlreadyFinished` once all steps are done, with
/// `ComputationIsNotYetStarted` when no batch is active, with
/// `ComputationIsNotYetFinished` before all hashing steps are done, and with
/// `NoRoomForCommitment` when the batch no longer fits after the tree's next
/// free leaf (checked again at every step); a failure changes nothing.
pub fn finalize_commitment_hash(
    hashing: &mut CommitmentHashingAccount,
    storage: &mut StorageAccount,
) -> (r: Result<(), ElusivError>)
    requires
        old(hashing).wf(),
        old(storage).wf(),
    ensures
        final(hashing).wf(),
        final(storage).wf(),
        finalize_error(*old(hashing), *old(storage)) is Some ==> r == Err::<(), ElusivError>(
            finalize_error(*old(hashing), *old(storage))->Some_0,
        ) && *final(hashing) == *old(hashing) && *final(storage) == *old(storage),
        finalize_error(*old(hashing), *old(storage)) is None ==> {
            let h = *old(hashing);
            let o = h.ordering_spec();
            let n = pow2(h.rate());
            let f = h.finalization();
            &&& r is Ok
            &&& final(hashing).finalization() == f + 1
            &&& final(hashing).batch() == h.batch()
            &&& final(hashing).ordering_spec() == o
            &&& final(hashing).sib() == h.sib()
            &&& final(hashing).rate() == h.rate()
            &&& final(hashing).version() == h.version()
            &&& final(hashing).rows() >= h.rows()
            &&& rows_hashed(*final(hashing))
            &&& f < h.rate() ==> final(hashing).active() && final(hashing).is_setup()
                == h.is_setup() && final(hashing).rows() == h.rows() && final(storage).next_ptr()
                == old(storage).next_ptr()
            &&& f == h.rate() ==> !final(hashing).active() && !final(hashing).is_setup()
                && final(storage).next_ptr() == old(storage).next_ptr() + n
            &&& forall|index: nat, level: nat|
                level <= MT_HEIGHT ==> #[trigger] final(storage).node(index, level) == if written_by(
                    f,
                    h.rate(),
                    level,
                ) && in_rows(o, n, index, level) {
                    level_values(h.batch(), o, h.sib(), level)[index - halve(o, level)]
                } else {
                    old(storage).node(index, level)
                }
        },
{
    let f = hashing.finalization_ix;
    let rate = hashing.batching_rate;
    if f > rate {
        return Err(ElusivError::ComputationIsAlreadyFinished);
    }
    if !hashing.is_active {
        return Err(ElusivError::ComputationIsNotYetStarted);
    }
    if hashing.hash_tree.len() < rate as usize + 1 {
        return Err(ElusivError::ComputationIsNotYetFinished);
    }
    let n = commitments_per_batch(rate);
    let ptr = storage.get_next_commitment_ptr();
    if ptr as usize + n > MT_COMMITMENT_COUNT {
        return Err(ElusivError::NoRoomForCommitment);
    }
    proof {
        vstd::arithmetic::power2::lemma_pow2_pos(rate as nat);
        assert(hashing.batch().len() == hashing.hash_tree@[0]@.len());
    }
    let o = hashing.ordering;
    let ghost h0 = *hashing;
    let ghost s0 = *storage;
    let p = load_parameters();
    let last = f == rate;
    let mut level: u32 = f;
    let mut done = false;
    while !done
        invariant
            p.wf(),
            hashing.wf(),
            storage.wf(),
            hashing.batch() == h0.batch(),
            hashing.sib() == h0.sib(),
            hashing.ordering == o,
            o == h0.ordering_spec(),
            hashing.rate() == h0.rate(),
            hashing.is_active == h0.is_active,
            hashing.setup == h0.setup,
            hashing.fee_version == h0.fee_version,
            hashing.finalization_ix == f,
            f == h0.finalization(),
            rate == h0.rate(),
            f <= rate,
            n == pow2(rate as nat),
            n >= 1,
            h0.batch().len() == n,
            o + n <= MT_COMMITMENT_COUNT,
            f <= level <= MT_HEIGHT,
            last == (f == rate),
            !last ==> level == f,
            hashing.rows() >= rate + 1,
            hashing.rows() >= level,
            hashing.rows() <= MT_HEIGHT + 1,
            storage.next_ptr() == ptr,
            ptr + n <= MT_COMMITMENT_COUNT,
            hashing.rows() >= h0.rows(),
            !last ==> hashing.rows() == h0.rows(),
            forall|index: nat, l: nat|
                l <= MT_HEIGHT ==> #[trigger] storage.node(index, l) == if written_by(
                    f as nat,
                    rate as nat,
                    l,
                ) && l < level + (if done { 1int } else { 0int }) && in_rows(
                    o as nat,
                    n as nat,
                    index,
                    l,
                ) {
                    level_values(h0.batch(), o as nat, h0.sib(), l)[index - halve(o as nat, l)]
                } else {
                    s0.node(index, l)
                },
            done ==> (!last || level == MT_HEIGHT),
        decreases MT_HEIGHT - level + (if done { 0int } else { 1int }),
    {
        let ghost rows_before = hashing.rows();
        if hashing.hash_tree.len() <= level as usize {
            assert(last);
            hashing.push_row(&p);
        }
        assert(!last ==> hashing.rows() == rows_before);
        let lo = halve_exec(o, level);
        proof {
            lemma_level_values_len(h0.batch(), o as nat, h0.sib(), level as nat);
            if level >= 1 {
                assert(hashing.row(level as int) == level_values(
                    hashing.batch(),
                    o as nat,
                    hashing.sib(),
                    level as nat,
                ));
            }
            crate::merkle::lemma_halve_le((o + n - 1) as nat, level as nat);
            assert(hashing.hash_tree@[level as int]@.len() == nats(hashing.hash_tree@[level as int]@).len());
        }
        let ghost s1 = *storage;
        storage.write_row(level as usize, lo as usize, &hashing.hash_tree[level as usize]);
        proof {
            assert forall|index: nat, l: nat| l <= MT_HEIGHT implies #[trigger] storage.node(
                index,
                l,
            ) == if written_by(f as nat, rate as nat, l) && l < level + 1 && in_rows(
                o as nat,
                n as nat,
                index,
                l,
            ) {
                level_values(h0.batch(), o as nat, h0.sib(), l)[index - halve(o as nat, l)]
            } else {
                s0.node(index, l)
            } by {
                if l == level {
                    let row = hashing.hash_tree@[level as int]@;
                    if lo <= index < lo + row.len() {
                        assert(u256_nat(row[index - lo]) == nats(row)[index - lo]);
                        if level == 0 {
                        } else {
                            assert(nats(row) == hashing.row(level as int));
                        }
                    }
                }
            }
        }
        if !last || level == MT_HEIGHT {
            done = true;
        } else {
            level = level + 1;
        }
    }
    if last {
        storage.set_next_commitment_ptr(ptr + n as u32);
        hashing.is_active = false;
        hashing.setup = false;
    }
    hashing.finalization_ix = f + 1;
    Ok(())
}

/// A batch appended at the next free leaf of a tree of `leaves`, with the
/// sibling path read at setup, once every level of its new nodes is written
/// (the `batching_rate + 1` steps of `finalize_commitment_hash`) and the next
/// free leaf advanced by its size, leaves the tree of `leaves` followed by the
/// batch: every node equals the node computed from the leaves alone.
pub proof fn lemma_batch_completes(
    before: StorageAccount,
    after: StorageAccount,
    leaves: Seq<nat>,
    batch: Seq<nat>,
    sib: Seq<nat>,
)
    requires
        before.holds(leaves),
        batch.len() >= 1,
        sib.len() == MT_HEIGHT,
        forall|l: int|
            0 <= l < MT_HEIGHT ==> #[trigger] sib[l] == before.node(
                crate::merkle::sibling_index(halve(leaves.len(), l as nat)),
                l as nat,
            ),
        after.next_ptr() == leaves.len() + batch.len(),
        forall|index: nat, level: nat|
            level <= MT_HEIGHT ==> #[trigger] after.node(index, level) == if in_rows(
                leaves.len(),
                batch.len(),
                index,
                level,
            ) {
                level_values(batch, leaves.len(), sib, level)[index - halve(leaves.len(), level)]
            } else {
                before.node(index, level)
            },
    ensures
        after.holds(leaves + batch),
{
    assert(sib =~= crate::merkle::opening(leaves, leaves.len()));
    assert forall|index: nat, level: nat| level <= MT_HEIGHT implies #[trigger] after.node(
        index,
        level,
    ) == tree_node(leaves + batch, index, level) by {
        crate::merkle::lemma_batch_insertion(leaves, batch, sib, index, level);
    }
}

} // verus!
