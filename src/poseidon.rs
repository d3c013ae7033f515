//! The circom-compatible Poseidon permutation of width three over BN254,
//! computed one round at a time so that a hash can be spread over many steps.
use crate::fields::{fadd, fmul, fr_add, fr_mul, u256_nat, U256};
use ark_bn254::Fr;
use ark_ff::{BigInteger, PrimeField};
use light_poseidon::parameters::bn254_x5::get_poseidon_parameters;
use vstd::prelude::*;

verus! {

/// Number of rounds of the width-three permutation (8 full and 57 partial).
pub const POSEIDON_ROUNDS: usize = 65;

/// The round constants and the MDS matrix of the circom Poseidon instance of
/// the given width, as field elements.
pub uninterp spec fn circom_parameters(width: nat) -> (Seq<nat>, Seq<Seq<nat>>);

/// Round constants (`ark`, three per round) and MDS matrix (`mds`, three rows
/// of three) as canonical little-endian values.
pub struct PoseidonParameters {
    pub ark: Vec<U256>,
    pub mds: Vec<Vec<U256>>,
}

impl PoseidonParameters {
    pub open spec fn wf(&self) -> bool {
        &&& self.ark@.len() == 3 * POSEIDON_ROUNDS
        &&& self.mds@.len() == 3
        &&& forall|i: int| 0 <= i < 3 ==> (#[trigger] self.mds@[i])@.len() == 3
        &&& forall|i: int|
            0 <= i < 3 * POSEIDON_ROUNDS ==> u256_nat(#[trigger] self.ark@[i])
                == circom_parameters(3).0[i]
        &&& forall|i: int, j: int|
            0 <= i < 3 && 0 <= j < 3 ==> u256_nat(#[trigger] self.mds@[i]@[j])
                == circom_parameters(3).1[i][j]
    }
}

/// Relies on `light_poseidon::parameters::bn254_x5::get_poseidon_parameters`:
/// for width 3 it returns 195 round constants and a 3 x 3 MDS matrix.
#[verifier::external_body]
fn poseidon_parameters(width: u8) -> (r: PoseidonParameters)
    requires
        width == 3,
    ensures
        r.ark@.len() == 3 * POSEIDON_ROUNDS,
        r.mds@.len() == 3,
        forall|i: int| 0 <= i < 3 ==> (#[trigger] r.mds@[i])@.len() == 3,
        forall|i: int|
            0 <= i < 3 * POSEIDON_ROUNDS ==> u256_nat(#[trigger] r.ark@[i])
                == circom_parameters(3).0[i],
        forall|i: int, j: int|
            0 <= i < 3 && 0 <= j < 3 ==> u256_nat(#[trigger] r.mds@[i]@[j])
                == circom_parameters(3).1[i][j],
{
    let p = get_poseidon_parameters::<Fr>(width).unwrap();
    let to = |f: &Fr| -> U256 { f.into_bigint().to_bytes_le().try_into().unwrap() };
    PoseidonParameters {
        ark: p.ark.iter().map(to).collect(),
        mds: p.mds.iter().map(|row| row.iter().map(to).collect()).collect(),
    }
}

/// The three field elements of a permutation state.
#[derive(Clone, Copy, Debug, PartialEq, Eq)]
pub struct PoseidonState {
    pub s0: U256,
    pub s1: U256,
    pub s2: U256,
}

impl PoseidonState {
    pub open spec fn view(&self) -> Seq<nat> {
        seq![u256_nat(self.s0), u256_nat(self.s1), u256_nat(self.s2)]
    }

    /// The state that starts a hash of `a` and `b` (domain tag zero).
    pub fn init(a: U256, b: U256) -> (r: PoseidonState)
        ensures
            r.view() == seq![0nat, u256_nat(a), u256_nat(b)],
    {
        let zero = [0u8; 32];
        proof {
            crate::fields::lemma_zero_u256(zero);
        }
        let r = PoseidonState { s0: zero, s1: a, s2: b };
        r
    }

    /// The hash output of a finished state.
    pub fn result(&self) -> (r: U256)
        ensures
            u256_nat(r) == self.view()[0],
    {
        self.s0
    }
}

pub open spec fn is_full_round(r: nat) -> bool {
    r < 4 || r >= 61
}

pub open spec fn pow5(x: nat) -> nat {
    fmul(fmul(fmul(x, x), fmul(x, x)), x)
}

pub open spec fn add_round_constants(ark: Seq<nat>, s: Seq<nat>, r: int) -> Seq<nat> {
    seq![fadd(s[0], ark[3 * r as int]), fadd(s[1], ark[3 * r + 1]), fadd(s[2], ark[3 * r + 2])]
}

pub open spec fn sbox(s: Seq<nat>, full: bool) -> Seq<nat> {
    if full {
        seq![pow5(s[0]), pow5(s[1]), pow5(s[2])]
    } else {
        seq![pow5(s[0]), s[1], s[2]]
    }
}

pub open spec fn mix_row(mds: Seq<Seq<nat>>, s: Seq<nat>, i: int) -> nat {
    fadd(fadd(fadd(0, fmul(s[0], mds[i][0])), fmul(s[1], mds[i][1])), fmul(s[2], mds[i][2]))
}

pub open spec fn mix(mds: Seq<Seq<nat>>, s: Seq<nat>) -> Seq<nat> {
    seq![mix_row(mds, s, 0), mix_row(mds, s, 1), mix_row(mds, s, 2)]
}

/// Round `r` of the permutation.
pub open spec fn poseidon_round(s: Seq<nat>, r: nat) -> Seq<nat> {
    let (ark, mds) = circom_parameters(3);
    mix(mds, sbox(add_round_constants(ark, s, r as int), is_full_round(r)))
}

/// The first `n` rounds of the permutation applied to `s`.
pub open spec fn poseidon_rounds(s: Seq<nat>, n: nat) -> Seq<nat>
    decreases n,
{
    if n == 0 {
        s
    } else {
        poseidon_round(poseidon_rounds(s, (n - 1) as nat), (n - 1) as nat)
    }
}

/// Poseidon hash of two field elements.
pub open spec fn poseidon_hash(a: nat, b: nat) -> nat {
    poseidon_rounds(seq![0nat, a, b], POSEIDON_ROUNDS as nat)[0]
}

fn pow5_exec(x: &U256) -> (r: U256)
    ensures
        u256_nat(r) == pow5(u256_nat(*x)),
{
    let x2 = fr_mul(x, x);
    let x4 = fr_mul(&x2, &x2);
    fr_mul(&x4, x)
}

fn mix_row_exec(p: &PoseidonParameters, s: &PoseidonState, i: usize) -> (r: U256)
    requires
        p.wf(),
        i < 3,
    ensures
        u256_nat(r) == mix_row(circom_parameters(3).1, s.view(), i as int),
{
    let row = &p.mds[i];
    let zero = [0u8; 32];
    proof {
        crate::fields::lemma_zero_u256(zero);
    }
    let t0 = fr_mul(&s.s0, &row[0]);
    let a0 = fr_add(&zero, &t0);
    let t1 = fr_mul(&s.s1, &row[1]);
    let a1 = fr_add(&a0, &t1);
    let t2 = fr_mul(&s.s2, &row[2]);
    fr_add(&a1, &t2)
}

/// Applies round `r` of the permutation to `s`.
pub fn apply_round(p: &PoseidonParameters, s: &PoseidonState, r: usize) -> (out: PoseidonState)
    requires
        p.wf(),
        r < POSEIDON_ROUNDS,
    ensures
        out.view() == poseidon_round(s.view(), r as nat),
{
    let c0 = fr_add(&s.s0, &p.ark[3 * r]);
    let c1 = fr_add(&s.s1, &p.ark[3 * r + 1]);
    let c2 = fr_add(&s.s2, &p.ark[3 * r + 2]);
    let full = r < 4 || r >= 61;
    let b0 = pow5_exec(&c0);
    let (b1, b2) = if full {
        (pow5_exec(&c1), pow5_exec(&c2))
    } else {
        (c1, c2)
    };
    let t = PoseidonState { s0: b0, s1: b1, s2: b2 };
    let ghost ark = circom_parameters(3).0;
    assert(t.view() =~= sbox(add_round_constants(ark, s.view(), r as int), full));
    let m0 = mix_row_exec(p, &t, 0);
    let m1 = mix_row_exec(p, &t, 1);
    let m2 = mix_row_exec(p, &t, 2);
    let out = PoseidonState { s0: m0, s1: m1, s2: m2 };
    assert(out.view() =~= mix(circom_parameters(3).1, t.view()));
    out
}

/// Loads the parameters of the width-three permutation.
pub fn load_parameters() -> (r: PoseidonParameters)
    ensures
        r.wf(),
{
    poseidon_parameters(3)
}

/// Poseidon hash of two field elements, all rounds at once.
pub fn hash_two(p: &PoseidonParameters, a: &U256, b: &U256) -> (r: U256)
    requires
        p.wf(),
    ensures
        u256_nat(r) == poseidon_hash(u256_nat(*a), u256_nat(*b)),
{
    let mut s = PoseidonState::init(*a, *b);
    let ghost s0 = s.view();
    let mut i: usize = 0;
    while i < POSEIDON_ROUNDS
        invariant
            p.wf(),
            i <= POSEIDON_ROUNDS,
            s0 == seq![0nat, u256_nat(*a), u256_nat(*b)],
            s.view() == poseidon_rounds(s0, i as nat),
        decreases POSEIDON_ROUNDS - i,
    {
        s = apply_round(p, &s, i);
        i = i + 1;
    }
    s.result()
}

} // verus!
