//! 256-bit little-endian values and arithmetic in the BN254 scalar field.
use ark_bn254::Fr;
use ark_ff::{BigInteger, PrimeField};
use vstd::prelude::*;

verus! {

/// A 256-bit value in little-endian byte order.
pub type U256 = [u8; 32];

/// The order of the BN254 scalar field in little-endian bytes:
/// 21888242871839275222246405745257275088548364400416034343698204186575808495617.
pub const SCALAR_MODULUS_RAW: U256 = [
    1, 0, 0, 240, 147, 245, 225, 67, 145, 112, 185, 121, 72, 232, 51, 40, 93, 88, 129, 129, 182,
    69, 80, 184, 41, 160, 49, 225, 114, 78, 100, 48,
];

/// The order of the BN254 scalar field.
pub open spec fn scalar_modulus() -> nat {
    le_nat(SCALAR_MODULUS_RAW@)
}

pub open spec fn pow256(n: nat) -> nat
    decreases n,
{
    if n == 0 {
        1
    } else {
        256 * pow256((n - 1) as nat)
    }
}

/// The number that a little-endian byte sequence denotes.
pub open spec fn le_nat(s: Seq<u8>) -> nat
    decreases s.len(),
{
    if s.len() == 0 {
        0
    } else {
        le_nat(s.drop_last()) + (s.last() as nat) * pow256((s.len() - 1) as nat)
    }
}

/// The field element that a 256-bit value denotes.
pub open spec fn u256_nat(x: U256) -> nat {
    le_nat(x@)
}

pub open spec fn fadd(a: nat, b: nat) -> nat {
    (a + b) % scalar_modulus()
}

pub open spec fn fmul(a: nat, b: nat) -> nat {
    (a * b) % scalar_modulus()
}

pub proof fn lemma_pow256_pos(n: nat)
    ensures
        pow256(n) > 0,
    decreases n,
{
    if n > 0 {
        lemma_pow256_pos((n - 1) as nat);
    }
}

pub proof fn lemma_le_nat_bound(s: Seq<u8>)
    ensures
        le_nat(s) < pow256(s.len()),
    decreases s.len(),
{
    if s.len() > 0 {
        let n = (s.len() - 1) as nat;
        lemma_le_nat_bound(s.drop_last());
        let x = le_nat(s.drop_last());
        let b = s.last() as nat;
        let p = pow256(n);
        assert(x + b * p < 256 * p) by (nonlinear_arith)
            requires
                x < p,
                b <= 255,
        ;
    }
}

/// The all-zero value denotes zero.
pub proof fn lemma_zero_u256(x: U256)
    requires
        forall|i: int| 0 <= i < 32 ==> x@[i] == 0,
    ensures
        u256_nat(x) == 0,
{
    lemma_le_nat_zero(x@);
}

pub proof fn lemma_le_nat_zero(s: Seq<u8>)
    requires
        forall|i: int| 0 <= i < s.len() ==> s[i] == 0,
    ensures
        le_nat(s) == 0,
    decreases s.len(),
{
    if s.len() > 0 {
        lemma_le_nat_zero(s.drop_last());
    }
}

pub proof fn lemma_le_nat_step(s: Seq<u8>, i: int)
    requires
        0 <= i < s.len(),
    ensures
        le_nat(s.take(i + 1)) == le_nat(s.take(i)) + (s[i] as nat) * pow256(i as nat),
{
    assert(s.take(i + 1).drop_last() =~= s.take(i));
}

/// Whether `x` is the canonical form of a scalar-field element.
pub fn is_element_scalar_field(x: &U256) -> (r: bool)
    ensures
        r == (u256_nat(*x) < scalar_modulus()),
{
    let m = SCALAR_MODULUS_RAW;
    let mut lt = false;
    let mut i: usize = 0;
    while i < 32
        invariant
            0 <= i <= 32,
            lt == (le_nat(x@.take(i as int)) < le_nat(m@.take(i as int))),
        decreases 32 - i,
    {
        proof {
            lemma_le_nat_step(x@, i as int);
            lemma_le_nat_step(m@, i as int);
            lemma_le_nat_bound(x@.take(i as int));
            lemma_le_nat_bound(m@.take(i as int));
            let xa = le_nat(x@.take(i as int));
            let ma = le_nat(m@.take(i as int));
            let xb = x@[i as int] as nat;
            let mb = m@[i as int] as nat;
            let p = pow256(i as nat);
            if xb < mb {
                assert(xa + xb * p < ma + mb * p) by (nonlinear_arith)
                    requires
                        xa < p,
                        xb + 1 <= mb,
                ;
            } else if xb > mb {
                assert(xa + xb * p >= ma + mb * p) by (nonlinear_arith)
                    requires
                        ma < p,
                        mb + 1 <= xb,
                ;
            }
        }
        if x[i] < m[i] {
            lt = true;
        } else if x[i] > m[i] {
            lt = false;
        }
        i = i + 1;
    }
    proof {
        assert(x@.take(32) =~= x@);
        assert(m@.take(32) =~= m@);
    }
    lt
}

/// Relies on ark_ff's addition in `ark_bn254::Fr`, entered through
/// `PrimeField::from_le_bytes_mod_order` and left through the canonical
/// little-endian bytes of `into_bigint`.
#[verifier::external_body]
pub(crate) fn fr_add(a: &U256, b: &U256) -> (r: U256)
    ensures
        u256_nat(r) == fadd(u256_nat(*a), u256_nat(*b)),
{
    let x = Fr::from_le_bytes_mod_order(a);
    let y = Fr::from_le_bytes_mod_order(b);
    let v = (x + y).into_bigint().to_bytes_le();
    let mut r = [0u8; 32];
    r.copy_from_slice(&v);
    r
}

/// Relies on ark_ff's multiplication in `ark_bn254::Fr`, entered through
/// `PrimeField::from_le_bytes_mod_order` and left through the canonical
/// little-endian bytes of `into_bigint`.
#[verifier::external_body]
pub(crate) fn fr_mul(a: &U256, b: &U256) -> (r: U256)
    ensures
        u256_nat(r) == fmul(u256_nat(*a), u256_nat(*b)),
{
    let x = Fr::from_le_bytes_mod_order(a);
    let y = Fr::from_le_bytes_mod_order(b);
    let v = (x * y).into_bigint().to_bytes_le();
    let mut r = [0u8; 32];
    r.copy_from_slice(&v);
    r
}

/// Bytes past position `k` that are zero add nothing.
pub proof fn lemma_le_nat_zero_tail(s: Seq<u8>, k: int)
    requires
        0 <= k <= s.len(),
        forall|i: int| k <= i < s.len() ==> s[i] == 0,
    ensures
        le_nat(s) == le_nat(s.take(k)),
    decreases s.len(),
{
    if s.len() > k {
        assert(s.drop_last().take(k) =~= s.take(k));
        lemma_le_nat_zero_tail(s.drop_last(), k);
    } else {
        assert(s.take(k) =~= s);
    }
}

/// The 256-bit value of a 128-bit integer.
pub fn u256_from_u128(x: u128) -> (r: U256)
    ensures
        u256_nat(r) == x,
{
    let mut r = [0u8; 32];
    let mut rem = x;
    let mut i: usize = 0;
    assert(r@.take(0) =~= Seq::<u8>::empty());
    assert(le_nat(r@.take(0)) == 0);
    assert(pow256(0) == 1);
    while i < 16
        invariant
            i <= 16,
            forall|j: int| i <= j < 32 ==> r@[j] == 0,
            le_nat(r@.take(i as int)) + pow256(i as nat) * rem == x,
        decreases 16 - i,
    {
        let b = (rem % 256) as u8;
        let ghost old_r = r@;
        let ghost p = pow256(i as nat);
        let ghost old_rem = rem;
        r[i] = b;
        proof {
            lemma_le_nat_step(r@, i as int);
            assert(r@.take(i as int) =~= old_r.take(i as int));
            assert(pow256((i + 1) as nat) == 256 * p);
            assert(p * old_rem == p * (old_rem % 256) + (256 * p) * (old_rem / 256)) by (nonlinear_arith);
            assert(r@[i as int] as nat == old_rem % 256);
            assert(le_nat(r@.take(i + 1)) == le_nat(old_r.take(i as int)) + (old_rem % 256) * p);
        }
        rem = rem / 256;
        i = i + 1;
    }
    proof {
        reveal_with_fuel(pow256, 17);
        assert(pow256(16) == 0x100000000000000000000000000000000);
        if rem > 0 {
            assert(pow256(16) * rem >= pow256(16)) by (nonlinear_arith)
                requires
                    rem >= 1,
            ;
        }
        lemma_le_nat_zero_tail(r@, 16);
    }
    r
}

/// Whether two values are equal, byte by byte.
pub fn u256_eq(a: &U256, b: &U256) -> (r: bool)
    ensures
        r == (*a == *b),
{
    let mut i: usize = 0;
    while i < 32
        invariant
            i <= 32,
            forall|j: int| 0 <= j < i ==> a@[j] == b@[j],
        decreases 32 - i,
    {
        if a[i] != b[i] {
            return false;
        }
        i = i + 1;
    }
    proof {
        assert(a@ =~= b@);
        vstd::array::axiom_array_ext_equal(*a, *b);
    }
    true
}

/// Two byte sequences of one length that denote the same number are equal.
pub proof fn lemma_le_nat_injective(a: Seq<u8>, b: Seq<u8>)
    requires
        a.len() == b.len(),
        le_nat(a) == le_nat(b),
    ensures
        a == b,
    decreases a.len(),
{
    if a.len() > 0 {
        let n = (a.len() - 1) as nat;
        let p = pow256(n);
        lemma_pow256_pos(n);
        lemma_le_nat_bound(a.drop_last());
        lemma_le_nat_bound(b.drop_last());
        let x = le_nat(a.drop_last());
        let y = le_nat(b.drop_last());
        let ca = a.last() as nat;
        let cb = b.last() as nat;
        assert(ca == cb) by {
            if ca < cb {
                assert(x + ca * p < y + cb * p) by (nonlinear_arith)
                    requires
                        x < p,
                        ca + 1 <= cb,
                ;
            } else if ca > cb {
                assert(y + cb * p < x + ca * p) by (nonlinear_arith)
                    requires
                        y < p,
                        cb + 1 <= ca,
                ;
            }
        }
        lemma_le_nat_injective(a.drop_last(), b.drop_last());
        assert(a =~= a.drop_last().push(a.last()));
        assert(b =~= b.drop_last().push(b.last()));
    }
}

} // verus!
