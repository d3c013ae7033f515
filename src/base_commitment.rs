//! Base commitments: duplicate screening, the fee and fund flows of a
//! submission, and the resumable hash `commitment = poseidon(base_commitment,
//! amount + token_id * 2^64)`, one permutation round per step.
use crate::error::ElusivError;
use crate::fields::{is_element_scalar_field, scalar_modulus, u256_eq, u256_from_u128, u256_nat, U256};
use crate::poseidon::{
    apply_round, load_parameters, poseidon_hash, poseidon_rounds, PoseidonState,
};
use crate::queue::{CommitmentHashRequest, CommitmentQueue};
use vstd::prelude::*;

verus! {

/// Number of hashing steps of a base commitment: one per permutation round.
pub const BASE_COMMITMENT_IX_COUNT: usize = 65;

/// `poseidon(0, 0)`, reserved: it cannot be submitted as a base commitment.
pub const ZERO_BASE_COMMITMENT: U256 = [
    100, 72, 182, 70, 132, 238, 57, 168, 35, 213, 254, 95, 213, 36, 49, 220, 129, 228, 129, 123,
    242, 195, 234, 60, 171, 158, 35, 158, 251, 245, 152, 32,
];

/// A request to store a base commitment.
#[derive(Clone, Copy, Debug, PartialEq, Eq)]
pub struct BaseCommitmentHashRequest {
    pub base_commitment: U256,
    pub commitment_index: u32,
    pub amount: u64,
    pub token_id: u16,
    pub commitment: U256,
    pub fee_version: u32,
    /// The minimum allowed batching rate (the fee is precomputed with it).
    pub min_batching_rate: u32,
}

/// The second hash input: the amount, with the token id above bit 64.
pub open spec fn amount_input(amount: u64, token_id: u16) -> nat {
    amount as nat + token_id as nat * 0x10000000000000000
}

/// Recently submitted base commitments, oldest first, at most `capacity` of
/// them; a new one displaces the oldest when the buffer is full.
pub struct BaseCommitmentBuffer {
    values: Vec<U256>,
    capacity: usize,
}

impl BaseCommitmentBuffer {
    pub closed spec fn view(&self) -> Seq<U256> {
        self.values@
    }

    pub closed spec fn capacity_spec(&self) -> nat {
        self.capacity as nat
    }

    pub closed spec fn wf(&self) -> bool {
        0 < self.capacity && self.values@.len() <= self.capacity
    }

    /// An empty buffer for `capacity` values.
    pub fn new(capacity: usize) -> (r: BaseCommitmentBuffer)
        requires
            capacity > 0,
        ensures
            r.wf(),
            r@ == Seq::<U256>::empty(),
            r.capacity_spec() == capacity,
    {
        BaseCommitmentBuffer { values: Vec::new(), capacity }
    }

    /// Whether `value` is in the buffer.
    pub fn contains(&self, value: &U256) -> (r: bool)
        ensures
            r == self@.contains(*value),
    {
        let mut i: usize = 0;
        while i < self.values.len()
            invariant
                i <= self.values@.len(),
                forall|j: int| 0 <= j < i ==> self.values@[j] != *value,
            decreases self.values@.len() - i,
        {
            if u256_eq(&self.values[i], value) {
                return true;
            }
            i = i + 1;
        }
        false
    }

    /// Inserts `value`, or fails with `DuplicateValue` and changes nothing
    /// where it is already there.
    pub fn try_insert(&mut self, value: &U256) -> (r: Result<(), ElusivError>)
        requires
            old(self).wf(),
        ensures
            final(self).wf(),
            final(self).capacity_spec() == old(self).capacity_spec(),
            old(self)@.contains(*value) ==> r == Err::<(), ElusivError>(ElusivError::DuplicateValue)
                && final(self)@ == old(self)@,
            !old(self)@.contains(*value) ==> r is Ok && final(self)@ == if old(self)@.len()
                == old(self).capacity_spec() {
                old(self)@.drop_first().push(*value)
            } else {
                old(self)@.push(*value)
            },
    {
        if self.contains(value) {
            return Err(ElusivError::DuplicateValue);
        }
        if self.values.len() == self.capacity {
            self.values.remove(0);
        }
        self.values.push(*value);
        proof {
            if old(self)@.len() == old(self).capacity_spec() {
                assert(self@ =~= old(self)@.drop_first().push(*value));
            }
        }
        Ok(())
    }
}

/// The slot of one base-commitment computation.
pub struct BaseCommitmentHashingAccount {
    is_active: bool,
    fee_payer: U256,
    fee_version: u32,
    min_batching_rate: u32,
    instruction: u32,
    state: PoseidonState,
    input: Ghost<Seq<nat>>,
}

impl BaseCommitmentHashingAccount {
    pub closed spec fn wf(&self) -> bool {
        &&& self.instruction <= BASE_COMMITMENT_IX_COUNT
        &&& self.state.view() == poseidon_rounds(self.input@, self.instruction as nat)
    }

    /// The initial permutation state of the hash being computed.
    pub closed spec fn input(&self) -> Seq<nat> {
        self.input@
    }

    pub closed spec fn active(&self) -> bool {
        self.is_active
    }

    pub closed spec fn instruction_spec(&self) -> nat {
        self.instruction as nat
    }

    pub closed spec fn payer(&self) -> U256 {
        self.fee_payer
    }

    pub closed spec fn version(&self) -> u32 {
        self.fee_version
    }

    pub closed spec fn rate(&self) -> u32 {
        self.min_batching_rate
    }

    /// The current output word of the permutation state.
    pub closed spec fn result_spec(&self) -> nat {
        self.state.view()[0]
    }

    /// The cursor of a slot never passes the number of hashing steps.
    pub proof fn lemma_cursor_bounded(&self)
        requires
            self.wf(),
        ensures
            self.instruction_spec() <= BASE_COMMITMENT_IX_COUNT,
    {
    }

    /// An inactive slot whose state is the start of `poseidon(0, 0)`.
    pub fn new() -> (r: BaseCommitmentHashingAccount)
        ensures
            r.wf(),
            !r.active(),
            r.instruction_spec() == 0,
            r.input() == seq![0nat, 0nat, 0nat],
    {
        let z = [0u8; 32];
        let state = PoseidonState::init(z, z);
        proof {
            crate::fields::lemma_zero_u256(z);
        }
        BaseCommitmentHashingAccount {
            is_active: false,
            fee_payer: [0u8; 32],
            fee_version: 0,
            min_batching_rate: 0,
            instruction: 0,
            state,
            input: Ghost(state.view()),
        }
    }

    pub fn get_is_active(&self) -> (r: bool)
        ensures
            r == self.active(),
    {
        self.is_active
    }

    pub fn set_is_active(&mut self, v: bool)
        requires
            old(self).wf(),
        ensures
            final(self).wf(),
            final(self).active() == v,
            final(self).instruction_spec() == old(self).instruction_spec(),
            final(self).input() == old(self).input(),
            final(self).payer() == old(self).payer(),
            final(self).version() == old(self).version(),
            final(self).rate() == old(self).rate(),
    {
        self.is_active = v;
    }

    pub fn set_fee_payer(&mut self, payer: U256)
        requires
            old(self).wf(),
        ensures
            final(self).wf(),
            final(self).payer() == payer,
            final(self).active() == old(self).active(),
            final(self).instruction_spec() == old(self).instruction_spec(),
            final(self).input() == old(self).input(),
            final(self).version() == old(self).version(),
            final(self).rate() == old(self).rate(),
    {
        self.fee_payer = payer;
    }

    pub fn get_instruction(&self) -> (r: u32)
        ensures
            r == self.instruction_spec(),
    {
        self.instruction
    }

    pub fn get_fee_payer(&self) -> (r: U256)
        ensures
            r == self.payer(),
    {
        self.fee_payer
    }

    pub fn get_fee_version(&self) -> (r: u32)
        ensures
            r == self.version(),
    {
        self.fee_version
    }

    pub fn get_min_batching_rate(&self) -> (r: u32)
        ensures
            r == self.rate(),
    {
        self.min_batching_rate
    }

    /// The output word of the current state; the commitment once all steps are done.
    pub fn result(&self) -> (r: U256)
        ensures
            u256_nat(r) == self.result_spec(),
    {
        self.state.result()
    }
}

/// One who sends or receives funds in a submission.
#[derive(Clone, Copy, Debug, PartialEq, Eq, Structural)]
pub enum Party {
    Sender,
    FeePayer,
    Pool,
    FeeCollector,
}

/// A movement of funds: in lamports, or in the submission's token.
#[derive(Clone, Copy, Debug, PartialEq, Eq, Structural)]
pub struct Transfer {
    pub from: Party,
    pub to: Party,
    pub amount: u64,
    pub in_lamports: bool,
}

/// The active fee schedule.
#[derive(Clone, Copy, Debug, PartialEq, Eq, Structural)]
pub struct Governor {
    pub fee_version: u32,
    pub commitment_batching_rate: u32,
}

/// What a submission owes, as quoted by the price oracle for its token.
#[derive(Clone, Copy, Debug, PartialEq, Eq, Structural)]
pub struct BaseCommitmentFees {
    /// Fee for both hash computations, in lamports.
    pub computation_fee: u64,
    /// The same fee in the submission's token.
    pub computation_fee_token: u64,
    /// Part of the computation fee that the fee collector covers, in the token.
    pub subvention_token: u64,
    /// Network fee in the token.
    pub network_fee_token: u64,
    /// Smallest amount of the token that can be submitted.
    pub min_amount: u64,
    /// Largest amount of the token that can be submitted.
    pub max_amount: u64,
}

/// The error a submission fails with, if any, in the order of the checks.
pub open spec fn store_error(
    governor: Governor,
    fees: BaseCommitmentFees,
    buffer: Seq<U256>,
    request: BaseCommitmentHashRequest,
) -> Option<ElusivError> {
    if request.amount < fees.min_amount || request.amount > fees.max_amount {
        Some(ElusivError::InvalidAmount)
    } else if u256_nat(request.base_commitment) >= scalar_modulus() || u256_nat(
        request.commitment,
    ) >= scalar_modulus() {
        Some(ElusivError::NonScalarValue)
    } else if request.base_commitment == ZERO_BASE_COMMITMENT {
        Some(ElusivError::InvalidInstructionData)
    } else if request.fee_version != governor.fee_version {
        Some(ElusivError::InvalidFeeVersion)
    } else if request.min_batching_rate != governor.commitment_batching_rate {
        Some(ElusivError::InvalidBatchingRate)
    } else if fees.computation_fee_token < fees.subvention_token {
        Some(ElusivError::Overflow)
    } else if buffer.contains(request.base_commitment) {
        Some(ElusivError::DuplicateValue)
    } else {
        None
    }
}

/// The funds a valid submission moves, in order.
pub open spec fn store_transfers(fees: BaseCommitmentFees, amount: u64) -> Seq<Transfer> {
    seq![
        Transfer { from: Party::Sender, to: Party::FeePayer, amount: (fees.computation_fee_token - fees.subvention_token) as u64, in_lamports: false },
        Transfer { from: Party::FeePayer, to: Party::Pool, amount: fees.computation_fee, in_lamports: true },
        Transfer { from: Party::Sender, to: Party::FeeCollector, amount: fees.network_fee_token, in_lamports: false },
        Transfer { from: Party::Sender, to: Party::Pool, amount: amount, in_lamports: false },
        Transfer { from: Party::FeeCollector, to: Party::FeePayer, amount: fees.subvention_token, in_lamports: false },
    ]
}

/// Accepts a base commitment: checks the request, registers the base
/// commitment in the duplicate buffer, and returns the new hashing slot (its
/// state the start of `poseidon(base_commitment, amount + token_id * 2^64)`)
/// with the transfers to perform. A failure changes nothing.
pub fn store_base_commitment(
    governor: &Governor,
    fees: &BaseCommitmentFees,
    buffer: &mut BaseCommitmentBuffer,
    fee_payer: U256,
    request: &BaseCommitmentHashRequest,
) -> (r: Result<(BaseCommitmentHashingAccount, Vec<Transfer>), ElusivError>)
    requires
        old(buffer).wf(),
    ensures
        final(buffer).wf(),
        final(buffer).capacity_spec() == old(buffer).capacity_spec(),
        store_error(*governor, *fees, old(buffer)@, *request) is Some ==> r == Err::<
            (BaseCommitmentHashingAccount, Vec<Transfer>),
            ElusivError,
        >(store_error(*governor, *fees, old(buffer)@, *request)->Some_0) && final(buffer)@ == old(
            buffer,
        )@,
        store_error(*governor, *fees, old(buffer)@, *request) is None ==> r is Ok && {
            let (h, transfers) = r->Ok_0;
            &&& h.wf()
            &&& h.active()
            &&& h.instruction_spec() == 0
            &&& h.input() == seq![
                0nat,
                u256_nat(request.base_commitment),
                amount_input(request.amount, request.token_id),
            ]
            &&& h.payer() == fee_payer
            &&& h.version() == request.fee_version
            &&& h.rate() == request.min_batching_rate
            &&& transfers@ == store_transfers(*fees, request.amount)
            &&& final(buffer)@.contains(request.base_commitment)
            &&& final(buffer)@ == if old(buffer)@.len() == old(buffer).capacity_spec() {
                old(buffer)@.drop_first().push(request.base_commitment)
            } else {
                old(buffer)@.push(request.base_commitment)
            }
        },
{
    if request.amount < fees.min_amount || request.amount > fees.max_amount {
        return Err(ElusivError::InvalidAmount);
    }
    if !is_element_scalar_field(&request.base_commitment) || !is_element_scalar_field(
        &request.commitment,
    ) {
        return Err(ElusivError::NonScalarValue);
    }
    if u256_eq(&request.base_commitment, &ZERO_BASE_COMMITMENT) {
        return Err(ElusivError::InvalidInstructionData);
    }
    if request.fee_version != governor.fee_version {
        return Err(ElusivError::InvalidFeeVersion);
    }
    if request.min_batching_rate != governor.commitment_batching_rate {
        return Err(ElusivError::InvalidBatchingRate);
    }
    if fees.computation_fee_token < fees.subvention_token {
        return Err(ElusivError::Overflow);
    }
    match buffer.try_insert(&request.base_commitment) {
        Ok(()) => {},
        Err(e) => {
            return Err(e);
        },
    }
    let input = u256_from_u128(request.amount as u128 + request.token_id as u128 * 0x10000000000000000u128);
    let state = PoseidonState::init(request.base_commitment, input);
    let h = BaseCommitmentHashingAccount {
        is_active: true,
        fee_payer,
        fee_version: request.fee_version,
        min_batching_rate: request.min_batching_rate,
        instruction: 0,
        state,
        input: Ghost(state.view()),
    };
    let mut transfers: Vec<Transfer> = Vec::new();
    transfers.push(Transfer { from: Party::Sender, to: Party::FeePayer, amount: fees.computation_fee_token - fees.subvention_token, in_lamports: false });
    transfers.push(Transfer { from: Party::FeePayer, to: Party::Pool, amount: fees.computation_fee, in_lamports: true });
    transfers.push(Transfer { from: Party::Sender, to: Party::FeeCollector, amount: fees.network_fee_token, in_lamports: false });
    transfers.push(Transfer { from: Party::Sender, to: Party::Pool, amount: request.amount, in_lamports: false });
    transfers.push(Transfer { from: Party::FeeCollector, to: Party::FeePayer, amount: fees.subvention_token, in_lamports: false });
    assert(transfers@ =~= store_transfers(*fees, request.amount));
    assert(buffer@[buffer@.len() - 1] == request.base_commitment);
    assert(h.state.view() == poseidon_rounds(h.input@, 0));
    assert(h.input() == seq![
        0nat,
        u256_nat(request.base_commitment),
        amount_input(request.amount, request.token_id),
    ]);
    Ok((h, transfers))
}

/// One hashing step: applies the next permutation round. Fails with
/// `ComputationIsNotYetStarted` when the slot is inactive and with
/// `ComputationIsAlreadyFinished` once all steps are done; a failure changes
/// nothing.
pub fn compute_base_commitment_hash(hashing: &mut BaseCommitmentHashingAccount) -> (r: Result<
    (),
    ElusivError,
>)
    requires
        old(hashing).wf(),
    ensures
        final(hashing).wf(),
        final(hashing).instruction_spec() <= BASE_COMMITMENT_IX_COUNT,
        !old(hashing).active() ==> r == Err::<(), ElusivError>(
            ElusivError::ComputationIsNotYetStarted,
        ) && *final(hashing) == *old(hashing),
        old(hashing).active() && old(hashing).instruction_spec() >= BASE_COMMITMENT_IX_COUNT ==> r
            == Err::<(), ElusivError>(ElusivError::ComputationIsAlreadyFinished) && *final(hashing)
            == *old(hashing),
        old(hashing).active() && old(hashing).instruction_spec() < BASE_COMMITMENT_IX_COUNT ==> {
            &&& r is Ok
            &&& final(hashing).active()
            &&& final(hashing).instruction_spec() == old(hashing).instruction_spec() + 1
            &&& final(hashing).input() == old(hashing).input()
            &&& final(hashing).payer() == old(hashing).payer()
            &&& final(hashing).version() == old(hashing).version()
            &&& final(hashing).rate() == old(hashing).rate()
        },
{
    if !hashing.is_active {
        return Err(ElusivError::ComputationIsNotYetStarted);
    }
    if hashing.instruction as usize >= BASE_COMMITMENT_IX_COUNT {
        return Err(ElusivError::ComputationIsAlreadyFinished);
    }
    let p = load_parameters();
    hashing.state = apply_round(&p, &hashing.state, hashing.instruction as usize);
    hashing.instruction = hashing.instruction + 1;
    Ok(())
}

/// The error `finalize_base_commitment_hash` fails with, if any.
pub open spec fn finalize_base_error(
    h: BaseCommitmentHashingAccount,
    original_fee_payer: U256,
    queue: CommitmentQueue,
    fee_version: u32,
) -> Option<ElusivError> {
    if h.version() != fee_version {
        Some(ElusivError::ComputationIsNotYetFinished)
    } else if !h.active() {
        Some(ElusivError::ComputationIsNotYetStarted)
    } else if h.payer() != original_fee_payer {
        Some(ElusivError::InvalidAccount)
    } else if h.instruction_spec() != BASE_COMMITMENT_IX_COUNT {
        Some(ElusivError::ComputationIsNotYetFinished)
    } else if queue@.len() == queue.capacity_spec() {
        Some(ElusivError::QueueIsFull)
    } else {
        None
    }
}

/// Ends a finished computation: appends the commitment to the queue with
/// `fee_version` and the slot's minimum batching rate, frees the slot, and
/// returns the refund of `base_commitment_hash_fee` lamports from the pool to
/// the original fee payer. A failure changes nothing.
pub fn finalize_base_commitment_hash(
    hashing: &mut BaseCommitmentHashingAccount,
    original_fee_payer: U256,
    queue: &mut CommitmentQueue,
    fee_version: u32,
    base_commitment_hash_fee: u64,
) -> (r: Result<Transfer, ElusivError>)
    requires
        old(hashing).wf(),
        old(queue).wf(),
    ensures
        final(hashing).wf(),
        final(queue).wf(),
        final(queue).capacity_spec() == old(queue).capacity_spec(),
        finalize_base_error(*old(hashing), original_fee_payer, *old(queue), fee_version) is Some
            ==> r == Err::<Transfer, ElusivError>(
            finalize_base_error(*old(hashing), original_fee_payer, *old(queue), fee_version)->Some_0,
        ) && *final(hashing) == *old(hashing) && final(queue)@ == old(queue)@,
        finalize_base_error(*old(hashing), original_fee_payer, *old(queue), fee_version) is None
            ==> {
            &&& r == Ok::<Transfer, ElusivError>(
                Transfer {
                    from: Party::Pool,
                    to: Party::FeePayer,
                    amount: base_commitment_hash_fee,
                    in_lamports: true,
                },
            )
            &&& !final(hashing).active()
            &&& final(queue)@.len() == old(queue)@.len() + 1
            &&& final(queue)@.drop_last() == old(queue)@
            &&& final(queue)@.last().fee_version == fee_version
            &&& final(queue)@.last().min_batching_rate == old(hashing).rate()
            &&& u256_nat(final(queue)@.last().commitment) == poseidon_rounds(
                old(hashing).input(),
                BASE_COMMITMENT_IX_COUNT as nat,
            )[0]
        },
{
    if hashing.fee_version != fee_version {
        return Err(ElusivError::ComputationIsNotYetFinished);
    }
    if !hashing.is_active {
        return Err(ElusivError::ComputationIsNotYetStarted);
    }
    if !u256_eq(&hashing.fee_payer, &original_fee_payer) {
        return Err(ElusivError::InvalidAccount);
    }
    if hashing.instruction as usize != BASE_COMMITMENT_IX_COUNT {
        return Err(ElusivError::ComputationIsNotYetFinished);
    }
    let commitment = hashing.result();
    let request = CommitmentHashRequest {
        commitment,
        fee_version,
        min_batching_rate: hashing.min_batching_rate,
    };
    proof {
        queue.lemma_wf();
    }
    match queue.enqueue(request) {
        Ok(()) => {},
        Err(e) => {
            return Err(e);
        },
    }
    hashing.is_active = false;
    assert(queue@.drop_last() =~= old(queue)@);
    Ok(Transfer { from: Party::Pool, to: Party::FeePayer, amount: base_commitment_hash_fee, in_lamports: true })
}

/// A finished computation holds the Poseidon hash of its two inputs.
pub proof fn lemma_finished_hash(h: BaseCommitmentHashingAccount, a: nat, b: nat)
    requires
        h.wf(),
        h.input() == seq![0nat, a, b],
        h.instruction_spec() == BASE_COMMITMENT_IX_COUNT,
    ensures
        h.result_spec() == poseidon_hash(a, b),
{
}

/// Submitting a request whose base commitment is already in the buffer,
/// as it is right after that request was accepted, fails as a duplicate.
pub proof fn lemma_resubmission_is_duplicate(
    governor: Governor,
    fees: BaseCommitmentFees,
    before: Seq<U256>,
    after: Seq<U256>,
    request: BaseCommitmentHashRequest,
)
    requires
        store_error(governor, fees, before, request) is None,
        after.contains(request.base_commitment),
    ensures
        store_error(governor, fees, after, request) == Some(ElusivError::DuplicateValue),
{
}

} // verus!
