use elusiv::bytes::{contains, find, is_zero, max, slice_to_array, BorshSerDeSized, ElusivOption};
use elusiv::error::ElusivError;

struct A {}
impl BorshSerDeSized for A {
    const SIZE: usize = 11;
}

struct B {
    _a0: A,
    _a1: A,
    _a2: A,
}
impl BorshSerDeSized for B {
    const SIZE: usize = A::SIZE + A::SIZE + A::SIZE;
}

enum C {
    _A { a: A },
    _B { b: B },
    _AB { a: A, b: B },
}
const fn larger(a: usize, b: usize) -> usize {
    [a, b][(a < b) as usize]
}
impl BorshSerDeSized for C {
    const SIZE: usize = 1 + larger(larger(A::SIZE, B::SIZE), A::SIZE + B::SIZE);
}

#[test]
fn test_borsh_ser_de_sized() {
    assert_eq!(A::SIZE, 11);
    assert_eq!(B::SIZE, 33);
    assert_eq!(C::SIZE, 11 + 33 + 1);
}

#[test]
fn test_find_contains() {
    let length = 1000usize;
    let mut data = vec![0; length * 8];
    for i in 0..length {
        let bytes = u64::to_le_bytes(i as u64);
        for j in 0..8 {
            data[i * 8 + j] = bytes[j];
        }
    }

    for i in 0..length {
        assert_eq!(contains(i as u64, &data[..]), true);
        assert_eq!(find(i as u64, &data[..], length).unwrap(), i as usize);
    }
    for i in length..length + 20 {
        assert_eq!(contains(i as u64, &data[..]), false);
        assert!(matches!(find(i as u64, &data[..], length), None));
    }
}

#[test]
fn find_stops_at_length() {
    let mut data = vec![0u8; 24];
    data[16] = 7;
    assert_eq!(find(7, &data, 2), None);
    assert_eq!(find(7, &data, 3), Some(2));
    assert_eq!(find(0, &data, 3), Some(0));
}

#[test]
fn max_picks_larger() {
    assert_eq!(max(3, 9), 9);
    assert_eq!(max(9, 3), 9);
    assert_eq!(max(4, 4), 4);
}

#[test]
fn is_zero_scans_every_byte() {
    assert!(is_zero(&[]));
    assert!(is_zero(&[0u8; 40]));
    let mut v = vec![0u8; 40];
    v[39] = 1;
    assert!(!is_zero(&v));
    v[39] = 0;
    v[3] = 5;
    assert!(!is_zero(&v));
}

#[test]
fn slice_to_array_takes_prefix() {
    let s = [1u8, 2, 3, 4, 5];
    let a: [u8; 3] = slice_to_array(&s, 0);
    assert_eq!(a, [1, 2, 3]);
}

#[test]
fn elusiv_option_unwrap_and_size() {
    assert_eq!(ElusivOption::Present(5u64).unwrap(), Ok(5));
    assert_eq!(ElusivOption::<u64>::Absent.unwrap(), Err(ElusivError::InvalidArgument));
    assert_eq!(<ElusivOption<u64> as BorshSerDeSized>::SIZE, 9);
    assert_eq!(<ElusivOption<u32> as BorshSerDeSized>::SIZE, 5);
}

#[test]
fn elusiv_option_encoding() {
    let some = ElusivOption::Present(0x0102030405060708u64).serialize();
    assert_eq!(some, vec![1, 8, 7, 6, 5, 4, 3, 2, 1]);
    assert_eq!(ElusivOption::<u64>::Absent.serialize(), vec![0; 9]);
    assert_eq!(
        ElusivOption::<u64>::deserialize(&some),
        Ok((ElusivOption::Present(0x0102030405060708u64), 9))
    );
    assert_eq!(ElusivOption::<u64>::deserialize(&[0; 9]), Ok((ElusivOption::Absent, 9)));
    assert_eq!(
        ElusivOption::<u64>::deserialize(&ElusivOption::<u64>::Absent.serialize()),
        Ok((ElusivOption::Absent, 9))
    );
    assert_eq!(ElusivOption::<u64>::deserialize(&[0, 0, 0]), Err(ElusivError::InvalidArgument));
    assert_eq!(ElusivOption::<u64>::deserialize(&[1, 2, 3]), Err(ElusivError::InvalidArgument));
    assert_eq!(ElusivOption::<u64>::deserialize(&[2; 9]), Err(ElusivError::InvalidArgument));
    assert_eq!(ElusivOption::<u64>::deserialize(&[]), Err(ElusivError::InvalidArgument));
}
