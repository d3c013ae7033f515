//! Fixed-size binary records: sizes, optional values, and byte scans.
use crate::error::ElusivError;
use crate::fields::le_nat;
use vstd::prelude::*;
use vstd::slice::slice_subrange;

verus! {

/// A type whose serialized form always takes `SIZE` bytes.
pub trait BorshSerDeSized {
    const SIZE: usize;
}

impl BorshSerDeSized for u8 {
    const SIZE: usize = 1;
}

impl BorshSerDeSized for u32 {
    const SIZE: usize = 4;
}

impl BorshSerDeSized for u64 {
    const SIZE: usize = 8;
}

impl BorshSerDeSized for bool {
    const SIZE: usize = 1;
}

/// The larger of two sizes.
pub fn max(a: usize, b: usize) -> (r: usize)
    ensures
        r == if a < b {
            b
        } else {
            a
        },
{
    if a < b {
        b
    } else {
        a
    }
}

/// An optional value with a fixed-size encoding: a flag byte, then the value
/// (or zeros).
#[derive(Clone, Copy, Debug, PartialEq, Eq)]
pub enum ElusivOption<N> {
    Present(N),
    Absent,
}

impl<N: Copy> ElusivOption<N> {
    /// The value, or `InvalidArgument` where there is none.
    pub fn unwrap(&self) -> (r: Result<N, ElusivError>)
        ensures
            match *self {
                ElusivOption::Present(v) => r == Ok::<N, ElusivError>(v),
                ElusivOption::Absent => r == Err::<N, ElusivError>(ElusivError::InvalidArgument),
            },
    {
        match *self {
            ElusivOption::Present(v) => Ok(v),
            ElusivOption::Absent => Err(ElusivError::InvalidArgument),
        }
    }
}

impl<N: BorshSerDeSized> BorshSerDeSized for ElusivOption<N> {
    const SIZE: usize = N::SIZE + 1;
}

/// Relies on borsh's encoding of `u64`: its eight little-endian bytes.
#[verifier::external_body]
fn borsh_u64(v: u64) -> (r: Vec<u8>)
    ensures
        r@.len() == 8,
        le_nat(r@) == v,
{
    borsh::BorshSerialize::try_to_vec(&v).unwrap()
}

/// Relies on borsh's decoding of `u64` from exactly eight bytes: little-endian.
#[verifier::external_body]
fn borsh_u64_from(bytes: &[u8]) -> (r: u64)
    requires
        bytes@.len() == 8,
    ensures
        r == le_nat(bytes@),
{
    <u64 as borsh::BorshDeserialize>::try_from_slice(bytes).unwrap()
}

impl ElusivOption<u64> {
    /// The fixed-size encoding: flag byte 1 and the value's eight
    /// little-endian bytes, or nine zero bytes.
    pub fn serialize(&self) -> (r: Vec<u8>)
        ensures
            r@.len() == 9,
            match *self {
                ElusivOption::Present(v) => r@[0] == 1 && le_nat(r@.skip(1)) == v,
                ElusivOption::Absent => forall|i: int| 0 <= i < 9 ==> r@[i] == 0,
            },
    {
        match *self {
            ElusivOption::Present(v) => {
                let bytes = borsh_u64(v);
                let mut r: Vec<u8> = Vec::new();
                r.push(1);
                let mut i: usize = 0;
                while i < 8
                    invariant
                        bytes@.len() == 8,
                        i <= 8,
                        r@.len() == i + 1,
                        r@[0] == 1,
                        forall|k: int| 0 <= k < i ==> r@[k + 1] == bytes@[k],
                    decreases 8 - i,
                {
                    r.push(bytes[i]);
                    i = i + 1;
                }
                assert(r@.skip(1) =~= bytes@);
                r
            },
            ElusivOption::Absent => {
                let mut r: Vec<u8> = Vec::new();
                let mut i: usize = 0;
                while i < 9
                    invariant
                        i <= 9,
                        r@.len() == i,
                        forall|k: int| 0 <= k < i ==> r@[k] == 0,
                    decreases 9 - i,
                {
                    r.push(0);
                    i = i + 1;
                }
                r
            },
        }
    }

    /// Reads the nine-byte record of an optional value from the start of
    /// `buf`: a flag byte 0 gives no value, a flag byte 1 the value in the
    /// next eight bytes; either way the whole record is read. Fails with
    /// `InvalidArgument` on another flag or where fewer than nine bytes are there.
    pub fn deserialize(buf: &[u8]) -> (r: Result<(ElusivOption<u64>, usize), ElusivError>)
        ensures
            buf@.len() < 9 ==> r == Err::<(ElusivOption<u64>, usize), ElusivError>(
                ElusivError::InvalidArgument,
            ),
            buf@.len() >= 9 && buf@[0] == 0 ==> r == Ok::<(ElusivOption<u64>, usize), ElusivError>(
                (ElusivOption::Absent, 9),
            ),
            buf@.len() >= 9 && buf@[0] == 1 ==> r == Ok::<(ElusivOption<u64>, usize), ElusivError>(
                (ElusivOption::Present(le_nat(buf@.subrange(1, 9)) as u64), 9),
            ),
            buf@.len() >= 9 && buf@[0] > 1 ==> r == Err::<(ElusivOption<u64>, usize), ElusivError>(
                ElusivError::InvalidArgument,
            ),
    {
        if buf.len() < 9 {
            return Err(ElusivError::InvalidArgument);
        }
        if buf[0] == 0 {
            return Ok((ElusivOption::Absent, 9));
        }
        if buf[0] > 1 {
            return Err(ElusivError::InvalidArgument);
        }
        let value = slice_subrange(buf, 1, 9);
        let v = borsh_u64_from(value);
        Ok((ElusivOption::Present(v), 9))
    }
}

/// Whether record `i` of `data` (records of `size` bytes) equals `bytes`.
pub open spec fn record_matches(data: Seq<u8>, bytes: Seq<u8>, size: int, i: int) -> bool {
    forall|j: int| 0 <= j < size ==> #[trigger] data[i * size + j] == bytes[j]
}

fn record_eq(data: &[u8], bytes: &Vec<u8>, i: usize) -> (r: bool)
    requires
        bytes@.len() == 8,
        (i + 1) * 8 <= data@.len(),
    ensures
        r == record_matches(data@, bytes@, 8, i as int),
{
    let mut j: usize = 0;
    while j < 8
        invariant
            bytes@.len() == 8,
            (i + 1) * 8 <= data@.len(),
            j <= 8,
            forall|k: int| 0 <= k < j ==> #[trigger] data@[i * 8 + k] == bytes@[k],
        decreases 8 - j,
    {
        let n = data.len();
        assert(i * 8 + 8 <= n);
        let base = i * 8;
        if data[base + j] != bytes[j] {
            return false;
        }
        j = j + 1;
    }
    true
}

/// The index of the first of the first `length` eight-byte records of `data`
/// that encodes `v`.
pub fn find(v: u64, data: &[u8], length: usize) -> (r: Option<usize>)
    requires
        length * 8 <= data@.len(),
    ensures
        match r {
            Some(i) => i < length && exists|bytes: Seq<u8>|
                bytes.len() == 8 && le_nat(bytes) == v && record_matches(data@, bytes, 8, i as int)
                    && forall|k: int| 0 <= k < i ==> !record_matches(data@, bytes, 8, k),
            None => forall|bytes: Seq<u8>, k: int|
                bytes.len() == 8 && le_nat(bytes) == v && 0 <= k < length ==> !record_matches(
                    data@,
                    bytes,
                    8,
                    k,
                ),
        },
{
    let bytes = borsh_u64(v);
    let mut i: usize = 0;
    while i < length
        invariant
            length * 8 <= data@.len(),
            bytes@.len() == 8,
            le_nat(bytes@) == v,
            i <= length,
            forall|k: int| 0 <= k < i ==> !record_matches(data@, bytes@, 8, k),
        decreases length - i,
    {
        assert((i + 1) * 8 <= data@.len()) by (nonlinear_arith)
            requires
                length * 8 <= data@.len(),
                i < length,
        ;
        if record_eq(data, &bytes, i) {
            return Some(i);
        }
        i = i + 1;
    }
    proof {
        assert forall|b: Seq<u8>, k: int|
            b.len() == 8 && le_nat(b) == v && 0 <= k < length implies !record_matches(data@, b, 8, k) by {
            crate::fields::lemma_le_nat_injective(b, bytes@);
        }
    }
    None
}

/// Whether `data`, read as eight-byte records, holds `v`.
pub fn contains(v: u64, data: &[u8]) -> (r: bool)
    ensures
        r == exists|bytes: Seq<u8>, k: int|
            bytes.len() == 8 && le_nat(bytes) == v && 0 <= k < data@.len() / 8 && record_matches(
                data@,
                bytes,
                8,
                k,
            ),
{
    let length = data.len() / 8;
    assert(length * 8 <= data@.len()) by (nonlinear_arith)
        requires
            length == data@.len() / 8,
    ;
    match find(v, data, length) {
        Some(_) => true,
        None => false,
    }
}

/// Whether every byte of `s` is zero.
pub fn is_zero(s: &[u8]) -> (r: bool)
    ensures
        r == forall|i: int| 0 <= i < s@.len() ==> s@[i] == 0,
{
    let mut i: usize = 0;
    while i < s.len()
        invariant
            i <= s@.len(),
            forall|k: int| 0 <= k < i ==> s@[k] == 0,
        decreases s@.len() - i,
    {
        if s[i] != 0 {
            return false;
        }
        i = i + 1;
    }
    true
}

/// The first `SIZE` elements of `s` as an array.
pub fn slice_to_array<N: Copy, const SIZE: usize>(s: &[N], fill: N) -> (r: [N; SIZE])
    requires
        s@.len() >= SIZE,
    ensures
        forall|i: int| 0 <= i < SIZE ==> r@[i] == s@[i],
{
    let mut a = [fill; SIZE];
    let mut i: usize = 0;
    while i < SIZE
        invariant
            i <= SIZE,
            s@.len() >= SIZE,
            a@.len() == SIZE,
            forall|k: int| 0 <= k < i ==> a@[k] == s@[k],
        decreases SIZE - i,
    {
        a[i] = s[i];
        i = i + 1;
    }
    a
}

} // verus!
