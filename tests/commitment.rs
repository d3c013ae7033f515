use ark_bn254::Fr;
use ark_ff::{BigInteger, PrimeField};
use elusiv::base_commitment::{
    compute_base_commitment_hash, finalize_base_commitment_hash, store_base_commitment,
    BaseCommitmentBuffer, BaseCommitmentFees, BaseCommitmentHashRequest,
    BaseCommitmentHashingAccount, Governor, Party, Transfer, BASE_COMMITMENT_IX_COUNT,
    ZERO_BASE_COMMITMENT,
};
use elusiv::batch::{
    compute_commitment_hash, finalize_commitment_hash, init_commitment_hash,
    init_commitment_hash_setup, CommitmentHashingAccount,
};
use elusiv::error::ElusivError;
use elusiv::fields::SCALAR_MODULUS_RAW;
use elusiv::merkle::{MT_COMMITMENT_COUNT, MT_HEIGHT, ZERO_COMMITMENT};
use elusiv::poseidon::{hash_two, load_parameters};
use elusiv::queue::{CommitmentHashRequest, CommitmentQueue};
use elusiv::storage::StorageAccount;
use std::str::FromStr;

const QUEUE_CAPACITY: usize = 16;
const LAMPORTS_PER_SOL: u64 = 1_000_000_000;

fn dec(s: &str) -> [u8; 32] {
    Fr::from_str(s).unwrap().into_bigint().to_bytes_le().try_into().unwrap()
}

fn small(v: u8) -> [u8; 32] {
    let mut r = [0u8; 32];
    r[0] = v;
    r
}

fn entry(c: u8, fee_version: u32, min_batching_rate: u32) -> CommitmentHashRequest {
    CommitmentHashRequest { commitment: [c; 32], fee_version, min_batching_rate }
}

fn fees(min_amount: u64, max_amount: u64) -> BaseCommitmentFees {
    BaseCommitmentFees {
        computation_fee: 123,
        computation_fee_token: 123,
        subvention_token: 39,
        network_fee_token: 7,
        min_amount,
        max_amount,
    }
}

fn request(token_id: u16, amount: u64) -> BaseCommitmentHashRequest {
    BaseCommitmentHashRequest {
        base_commitment: small(1),
        commitment_index: 123,
        amount,
        token_id,
        commitment: small(1),
        fee_version: 1,
        min_batching_rate: 4,
    }
}

fn active_batch_slot(
    storage: &StorageAccount,
    entries: &[CommitmentHashRequest],
) -> (CommitmentQueue, CommitmentHashingAccount) {
    let mut q = CommitmentQueue::new(QUEUE_CAPACITY);
    for e in entries {
        q.enqueue(*e).unwrap();
    }
    let mut h = CommitmentHashingAccount::new();
    init_commitment_hash_setup(&mut h, storage, false).unwrap();
    init_commitment_hash(&mut q, &mut h, false).unwrap();
    (q, h)
}

#[test]
fn test_zero_commitment() {
    let p = load_parameters();
    let z = [0u8; 32];
    assert_eq!(
        dec("10550412122474489085186760340904980499891544584677836768300371073631951867242"),
        ZERO_COMMITMENT
    );
    assert_eq!(hash_two(&p, &hash_two(&p, &z, &z), &z), ZERO_COMMITMENT);
    assert_eq!(hash_two(&p, &z, &z), ZERO_BASE_COMMITMENT);
    assert_eq!(
        dec("14744269619966411208579211824598458697587494354926760081771325075741142829156"),
        ZERO_BASE_COMMITMENT
    );
}

fn invalid_requests(base: BaseCommitmentHashRequest, f: &BaseCommitmentFees) -> Vec<(BaseCommitmentHashRequest, ElusivError)> {
    let mut requests = Vec::new();
    let mut r = base;
    r.amount = f.min_amount - 1;
    requests.push((r, ElusivError::InvalidAmount));
    let mut r = base;
    r.amount = f.max_amount + 1;
    requests.push((r, ElusivError::InvalidAmount));
    let mut r = base;
    r.base_commitment = SCALAR_MODULUS_RAW;
    requests.push((r, ElusivError::NonScalarValue));
    let mut r = base;
    r.commitment = SCALAR_MODULUS_RAW;
    requests.push((r, ElusivError::NonScalarValue));
    let mut r = base;
    r.base_commitment = ZERO_BASE_COMMITMENT;
    requests.push((r, ElusivError::InvalidInstructionData));
    let mut r = base;
    r.fee_version = 0;
    requests.push((r, ElusivError::InvalidFeeVersion));
    let mut r = base;
    r.min_batching_rate = 0;
    requests.push((r, ElusivError::InvalidBatchingRate));
    requests
}

#[test]
fn test_store_base_commitment_lamports() {
    let governor = Governor { fee_version: 1, commitment_batching_rate: 4 };
    let f = fees(100_000, 1_000 * LAMPORTS_PER_SOL);
    let mut buffer = BaseCommitmentBuffer::new(8);
    let valid = request(0, LAMPORTS_PER_SOL);
    for (r, e) in invalid_requests(valid, &f) {
        assert_eq!(store_base_commitment(&governor, &f, &mut buffer, [9; 32], &r).err(), Some(e));
    }
    assert!(!buffer.contains(&valid.base_commitment));

    let (h, transfers) = store_base_commitment(&governor, &f, &mut buffer, [9; 32], &valid).unwrap();
    assert!(h.get_is_active());
    assert_eq!(h.get_instruction(), 0);
    assert_eq!(h.get_fee_payer(), [9; 32]);
    assert_eq!(h.get_fee_version(), 1);
    assert_eq!(h.get_min_batching_rate(), 4);
    assert_eq!(transfers[1], Transfer { from: Party::FeePayer, to: Party::Pool, amount: 123, in_lamports: true });
    assert_eq!(transfers[3], Transfer { from: Party::Sender, to: Party::Pool, amount: LAMPORTS_PER_SOL, in_lamports: false });
    assert!(buffer.contains(&valid.base_commitment));

    // The same base commitment again is a duplicate
    assert_eq!(
        store_base_commitment(&governor, &f, &mut buffer, [9; 32], &valid).err(),
        Some(ElusivError::DuplicateValue)
    );
}

#[test]
fn test_store_base_commitment_token() {
    let governor = Governor { fee_version: 1, commitment_batching_rate: 4 };
    let f = fees(1_000_000, 1_000_000_000_000);
    let mut buffer = BaseCommitmentBuffer::new(8);
    let valid = request(1, 1_000_000);
    for (r, e) in invalid_requests(valid, &f) {
        assert_eq!(store_base_commitment(&governor, &f, &mut buffer, [9; 32], &r).err(), Some(e));
    }
    let (_, transfers) = store_base_commitment(&governor, &f, &mut buffer, [9; 32], &valid).unwrap();
    assert_eq!(
        transfers,
        vec![
            Transfer { from: Party::Sender, to: Party::FeePayer, amount: 123 - 39, in_lamports: false },
            Transfer { from: Party::FeePayer, to: Party::Pool, amount: 123, in_lamports: true },
            Transfer { from: Party::Sender, to: Party::FeeCollector, amount: 7, in_lamports: false },
            Transfer { from: Party::Sender, to: Party::Pool, amount: 1_000_000, in_lamports: false },
            Transfer { from: Party::FeeCollector, to: Party::FeePayer, amount: 39, in_lamports: false },
        ]
    );
    let mut too_generous = f;
    too_generous.subvention_token = 124;
    let mut other = valid;
    other.base_commitment = small(2);
    assert_eq!(
        store_base_commitment(&governor, &too_generous, &mut buffer, [9; 32], &other).err(),
        Some(ElusivError::Overflow)
    );
}

#[test]
fn duplicate_buffer_displaces_oldest() {
    let mut b = BaseCommitmentBuffer::new(2);
    b.try_insert(&small(1)).unwrap();
    b.try_insert(&small(2)).unwrap();
    assert_eq!(b.try_insert(&small(2)), Err(ElusivError::DuplicateValue));
    b.try_insert(&small(3)).unwrap();
    assert!(!b.contains(&small(1)));
    assert!(b.contains(&small(2)) && b.contains(&small(3)));
}

#[test]
fn test_compute_base_commitment_hash() {
    let mut hashing_account = BaseCommitmentHashingAccount::new();

    // Inactive
    assert!(compute_base_commitment_hash(&mut hashing_account).is_err());

    hashing_account.set_is_active(true);
    for _ in 0..BASE_COMMITMENT_IX_COUNT {
        assert_eq!(compute_base_commitment_hash(&mut hashing_account), Ok(()));
    }

    // Additional computations will fail
    assert!(compute_base_commitment_hash(&mut hashing_account).is_err());
    assert_eq!(
        hashing_account.result(),
        dec("14744269619966411208579211824598458697587494354926760081771325075741142829156")
    );
}

fn finished_slot(fee_payer: [u8; 32]) -> BaseCommitmentHashingAccount {
    let mut h = BaseCommitmentHashingAccount::new();
    h.set_fee_payer(fee_payer);
    h.set_is_active(true);
    for _ in 0..BASE_COMMITMENT_IX_COUNT {
        compute_base_commitment_hash(&mut h).unwrap();
    }
    h
}

#[test]
fn test_finalize_base_commitment_hash() {
    let fee_payer = [5u8; 32];
    let mut q = CommitmentQueue::new(QUEUE_CAPACITY);

    // Inactive hashing account
    let mut h = finished_slot(fee_payer);
    h.set_is_active(false);
    assert!(finalize_base_commitment_hash(&mut h, fee_payer, &mut q, 0, 32).is_err());

    // Invalid original fee payer
    h.set_is_active(true);
    h.set_fee_payer([0; 32]);
    assert!(finalize_base_commitment_hash(&mut h, fee_payer, &mut q, 0, 32).is_err());

    // Computation not finished
    let mut unfinished = BaseCommitmentHashingAccount::new();
    unfinished.set_fee_payer(fee_payer);
    unfinished.set_is_active(true);
    assert!(finalize_base_commitment_hash(&mut unfinished, fee_payer, &mut q, 0, 32).is_err());

    // Invalid fee version
    h.set_fee_payer(fee_payer);
    assert!(finalize_base_commitment_hash(&mut h, fee_payer, &mut q, 1, 32).is_err());

    // Commitment queue is full
    for _ in 0..QUEUE_CAPACITY {
        q.enqueue(entry(0, 0, 0)).unwrap();
    }
    assert_eq!(
        finalize_base_commitment_hash(&mut h, fee_payer, &mut q, 0, 32),
        Err(ElusivError::QueueIsFull)
    );

    let mut q = CommitmentQueue::new(QUEUE_CAPACITY);
    assert_eq!(
        finalize_base_commitment_hash(&mut h, fee_payer, &mut q, 0, 32),
        Ok(Transfer { from: Party::Pool, to: Party::FeePayer, amount: 32, in_lamports: true })
    );
    assert!(!h.get_is_active());
    assert_eq!(q.len(), 1);
}

#[test]
fn finish_before_last_step_is_unfinished() {
    let fee_payer = [5u8; 32];
    let mut q = CommitmentQueue::new(QUEUE_CAPACITY);
    let mut h = BaseCommitmentHashingAccount::new();
    h.set_fee_payer(fee_payer);
    h.set_is_active(true);
    for _ in 0..BASE_COMMITMENT_IX_COUNT {
        assert_eq!(
            finalize_base_commitment_hash(&mut h, fee_payer, &mut q, 0, 1),
            Err(ElusivError::ComputationIsNotYetFinished)
        );
        compute_base_commitment_hash(&mut h).unwrap();
    }
    assert!(finalize_base_commitment_hash(&mut h, fee_payer, &mut q, 0, 1).is_ok());
    assert_eq!(q.len(), 1);
}

#[test]
fn stored_request_hashes_to_its_commitment() {
    let governor = Governor { fee_version: 1, commitment_batching_rate: 4 };
    let f = fees(1, u64::MAX);
    let mut buffer = BaseCommitmentBuffer::new(8);
    let mut r = request(3, 0x0102030405060708);
    r.base_commitment = small(77);
    let fee_payer = [6u8; 32];
    let (mut h, _) = store_base_commitment(&governor, &f, &mut buffer, fee_payer, &r).unwrap();
    for _ in 0..BASE_COMMITMENT_IX_COUNT {
        compute_base_commitment_hash(&mut h).unwrap();
    }
    let mut q = CommitmentQueue::new(QUEUE_CAPACITY);
    finalize_base_commitment_hash(&mut h, fee_payer, &mut q, 1, 0).unwrap();
    assert_eq!(q.len(), 1);

    let mut input = [0u8; 32];
    input[..8].copy_from_slice(&0x0102030405060708u64.to_le_bytes());
    input[8..10].copy_from_slice(&3u16.to_le_bytes());
    let p = load_parameters();
    let e = q.view_at(0);
    assert_eq!(e.commitment, hash_two(&p, &small(77), &input));
    assert_eq!(e.fee_version, 1);
    assert_eq!(e.min_batching_rate, 4);
}

#[test]
fn test_init_commitment_hash_empty_queue() {
    let storage_account = StorageAccount::new();
    let mut queue = CommitmentQueue::new(QUEUE_CAPACITY);
    let mut hashing_account = CommitmentHashingAccount::new();

    init_commitment_hash_setup(&mut hashing_account, &storage_account, false).unwrap();
    assert!(init_commitment_hash(&mut queue, &mut hashing_account, false).is_err());
}

#[test]
fn test_init_commitment_hash_active_computation() {
    let storage_account = StorageAccount::new();
    let (mut queue, mut hashing_account) = active_batch_slot(&storage_account, &[entry(0, 0, 0)]);
    queue.enqueue(entry(0, 0, 0)).unwrap();
    assert!(hashing_account.get_is_active());
    assert_eq!(
        init_commitment_hash(&mut queue, &mut hashing_account, false),
        Err(ElusivError::ComputationIsNotYetFinished)
    );
    assert_eq!(queue.len(), 1);
}

#[test]
fn test_init_commitment_hash_full_storage() {
    let mut storage_account = StorageAccount::new();
    let mut queue = CommitmentQueue::new(QUEUE_CAPACITY);
    let mut hashing_account = CommitmentHashingAccount::new();
    queue.enqueue(entry(0, 0, 0)).unwrap();

    storage_account.set_next_commitment_ptr(MT_COMMITMENT_COUNT as u32);
    init_commitment_hash_setup(&mut hashing_account, &storage_account, false).unwrap();
    assert_eq!(
        init_commitment_hash(&mut queue, &mut hashing_account, false),
        Err(ElusivError::NoRoomForCommitment)
    );
    assert_eq!(queue.len(), 1);
}

#[test]
fn test_init_commitment_hash_incomplete_batch() {
    let storage_account = StorageAccount::new();
    let mut queue = CommitmentQueue::new(QUEUE_CAPACITY);
    let mut hashing_account = CommitmentHashingAccount::new();
    queue.enqueue(entry(0, 0, 1)).unwrap();

    init_commitment_hash_setup(&mut hashing_account, &storage_account, false).unwrap();
    assert_eq!(
        init_commitment_hash(&mut queue, &mut hashing_account, false),
        Err(ElusivError::BatchNotReady)
    );
}

#[test]
fn test_init_commitment_hash_batch_too_big() {
    let mut storage_account = StorageAccount::new();
    let mut queue = CommitmentQueue::new(QUEUE_CAPACITY);
    let mut hashing_account = CommitmentHashingAccount::new();
    queue.enqueue(entry(0, 0, 1)).unwrap();
    queue.enqueue(entry(0, 0, 1)).unwrap();

    storage_account.set_next_commitment_ptr(MT_COMMITMENT_COUNT as u32 - 1);
    init_commitment_hash_setup(&mut hashing_account, &storage_account, false).unwrap();
    assert_eq!(
        init_commitment_hash(&mut queue, &mut hashing_account, false),
        Err(ElusivError::NoRoomForCommitment)
    );
}

#[test]
fn test_init_commitment_hash_valid() {
    let storage_account = StorageAccount::new();
    let (_, hashing_account) = active_batch_slot(
        &storage_account,
        &[entry(1, 0, 2), entry(2, 0, 0), entry(3, 0, 0), entry(4, 0, 0)],
    );
    assert_eq!(hashing_account.get_batching_rate(), 2);

    // Check correct siblings
    let empty = storage_account.empty_nodes();
    for i in 0..MT_HEIGHT as usize {
        assert_eq!(hashing_account.get_siblings(i), empty[i]);
    }

    // Check correct commitments
    for i in 0..4 {
        assert_eq!(hashing_account.get_hash_tree(i), [i as u8 + 1; 32]);
    }
}

#[test]
fn test_init_commitment_hash_setup_insertion_can_fail() {
    let storage_account = StorageAccount::new();
    let (_, mut hashing_account) = active_batch_slot(&storage_account, &[entry(0, 0, 0)]);
    assert!(init_commitment_hash_setup(&mut hashing_account, &storage_account, false).is_err());
    assert_eq!(init_commitment_hash_setup(&mut hashing_account, &storage_account, true), Ok(()));
    assert!(hashing_account.get_is_active());
}

#[test]
fn test_init_commitment_hash_insertion_can_fail() {
    let mut queue = CommitmentQueue::new(QUEUE_CAPACITY);
    let mut hashing_account = CommitmentHashingAccount::new();
    assert!(init_commitment_hash(&mut queue, &mut hashing_account, false).is_err());
    assert_eq!(init_commitment_hash(&mut queue, &mut hashing_account, true), Ok(()));
}

#[test]
fn test_compute_commitment_hash() {
    let storage_account = StorageAccount::new();
    let mut idle = CommitmentHashingAccount::new();

    // Inactive account
    assert_eq!(compute_commitment_hash(&mut idle, 0, 5), Err(ElusivError::ComputationIsNotYetStarted));

    // Invalid fee_version
    let (_, mut hashing_account) = active_batch_slot(&storage_account, &[entry(1, 0, 1), entry(2, 0, 1)]);
    assert_eq!(compute_commitment_hash(&mut hashing_account, 1, 5), Err(ElusivError::InvalidFeeVersion));

    assert_eq!(
        compute_commitment_hash(&mut hashing_account, 0, 5),
        Ok(Transfer { from: Party::Pool, to: Party::FeePayer, amount: 5, in_lamports: true })
    );
    assert_eq!(hashing_account.get_instruction(), 1);
    assert_eq!(
        compute_commitment_hash(&mut hashing_account, 0, 5),
        Err(ElusivError::ComputationIsAlreadyFinished)
    );
}

#[test]
fn test_finalize_commitment_hash() {
    let mut storage_account = StorageAccount::new();
    let (_, mut hashing_account) = active_batch_slot(&storage_account, &[entry(1, 0, 1), entry(2, 0, 1)]);

    // Computation not finished
    assert_eq!(
        finalize_commitment_hash(&mut hashing_account, &mut storage_account),
        Err(ElusivError::ComputationIsNotYetFinished)
    );

    // Hashing account inactive
    compute_commitment_hash(&mut hashing_account, 0, 5).unwrap();
    hashing_account.set_is_active(false);
    assert!(finalize_commitment_hash(&mut hashing_account, &mut storage_account).is_err());

    // Storage account is full
    hashing_account.set_is_active(true);
    let mut full_storage = StorageAccount::new();
    full_storage.set_next_commitment_ptr(MT_COMMITMENT_COUNT as u32);
    assert_eq!(
        finalize_commitment_hash(&mut hashing_account, &mut full_storage),
        Err(ElusivError::NoRoomForCommitment)
    );

    finalize_commitment_hash(&mut hashing_account, &mut storage_account).unwrap();
}

#[test]
fn test_finalize_commitment_hash_valid() {
    let mut storage_account = StorageAccount::new();
    let batching_rate = 4u32;
    let commitment_count = 16usize;
    let entries: Vec<CommitmentHashRequest> =
        (0..commitment_count).map(|i| entry(i as u8 + 1, 0, batching_rate)).collect();
    let (_, mut hashing_account) = active_batch_slot(&storage_account, &entries);
    for _ in 0..batching_rate {
        compute_commitment_hash(&mut hashing_account, 0, 5).unwrap();
    }

    let empty = storage_account.empty_nodes();
    for level in 0..=MT_HEIGHT as usize {
        for index in 0..(commitment_count >> level).max(1) {
            assert_eq!(storage_account.get_node(index, level), empty[level]);
        }
    }

    for _ in 0..=batching_rate {
        finalize_commitment_hash(&mut hashing_account, &mut storage_account).unwrap();
    }

    assert!(!hashing_account.get_is_active());
    assert!(!hashing_account.get_setup());
    assert_eq!(storage_account.get_next_commitment_ptr(), commitment_count as u32);

    // Check that the tree is updated
    for level in 0..=MT_HEIGHT as usize {
        for index in 0..(commitment_count >> level).max(1) {
            assert_ne!(storage_account.get_node(index, level), empty[level]);
        }
    }
    assert_eq!(
        finalize_commitment_hash(&mut hashing_account, &mut storage_account),
        Err(ElusivError::ComputationIsAlreadyFinished)
    );
}

fn assert_consistent(storage: &StorageAccount, first_leaf: usize, leaves: usize) {
    let p = load_parameters();
    for level in 1..=MT_HEIGHT as usize {
        let lo = first_leaf >> level;
        let hi = (first_leaf + leaves - 1) >> level;
        for index in lo..=hi {
            let left = storage.get_node(2 * index, level - 1);
            let right = storage.get_node(2 * index + 1, level - 1);
            assert_eq!(storage.get_node(index, level), hash_two(&p, &left, &right));
        }
    }
}

#[test]
fn unaligned_batches_keep_the_tree_consistent() {
    let mut storage = StorageAccount::new();
    let mut q = CommitmentQueue::new(QUEUE_CAPACITY);
    for (c, rate) in [(1u8, 0u32), (2, 1), (3, 1), (4, 0)] {
        q.enqueue(entry(c, 0, rate)).unwrap();
    }
    let mut h = CommitmentHashingAccount::new();
    let mut leaf = 0usize;
    for size in [1usize, 2, 1] {
        init_commitment_hash_setup(&mut h, &storage, false).unwrap();
        init_commitment_hash(&mut q, &mut h, false).unwrap();
        let rate = h.get_batching_rate();
        for _ in 0..rate {
            compute_commitment_hash(&mut h, 0, 5).unwrap();
        }
        for _ in 0..=rate {
            finalize_commitment_hash(&mut h, &mut storage).unwrap();
        }
        assert_eq!(storage.get_next_commitment_ptr() as usize, leaf + size);
        assert_consistent(&storage, leaf, size);
        leaf += size;
    }
    for i in 0..4 {
        assert_eq!(storage.get_node(i, 0), [i as u8 + 1; 32]);
    }
}

#[test]
fn finalize_rechecks_room() {
    let mut storage = StorageAccount::new();
    let (_, mut h) = active_batch_slot(&storage, &[entry(1, 0, 1), entry(2, 0, 1)]);
    compute_commitment_hash(&mut h, 0, 5).unwrap();
    storage.set_next_commitment_ptr(MT_COMMITMENT_COUNT as u32 - 1);
    assert_eq!(finalize_commitment_hash(&mut h, &mut storage), Err(ElusivError::NoRoomForCommitment));
    assert_eq!(h.get_finalization_ix(), 0);
    assert!(h.get_is_active());
}

#[test]
fn finalize_steps_keep_going_until_done() {
    let mut storage = StorageAccount::new();
    let (_, mut h) = active_batch_slot(&storage, &[entry(1, 0, 2), entry(2, 0, 0), entry(3, 0, 0), entry(4, 0, 0)]);
    for _ in 0..2 {
        compute_commitment_hash(&mut h, 0, 5).unwrap();
    }
    for step in 0..3u32 {
        assert_eq!(storage.get_next_commitment_ptr(), 0);
        assert_eq!(finalize_commitment_hash(&mut h, &mut storage), Ok(()));
        assert_eq!(h.get_finalization_ix(), step + 1);
    }
    assert_eq!(storage.get_next_commitment_ptr(), 4);
    assert!(!h.get_is_active());
    assert_eq!(
        finalize_commitment_hash(&mut h, &mut storage),
        Err(ElusivError::ComputationIsAlreadyFinished)
    );
    assert_eq!(
        compute_commitment_hash(&mut CommitmentHashingAccount::new(), 0, 5),
        Err(ElusivError::ComputationIsNotYetStarted)
    );
    assert_eq!(
        finalize_commitment_hash(&mut CommitmentHashingAccount::new(), &mut storage),
        Err(ElusivError::ComputationIsNotYetStarted)
    );
}
