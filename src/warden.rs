//! Warden records: fixed-length identifiers, activity statistics and the
//! index of a warden's yearly statistics record.
use crate::error::ElusivError;
use vstd::prelude::*;
use vstd::utf8::encode_utf8;

verus! {

/// A unique ID publicly identifying a single warden.
pub type ElusivWardenID = u32;

/// First year with statistics records.
pub const BASE_YEAR: u16 = 2022;

/// Number of years with statistics records.
pub const YEARS_COUNT: usize = 100;

/// Number of wardens with statistics records per year (`u32::MAX / YEARS_COUNT`).
pub const WARDENS_COUNT: u32 = 42949672;

/// A string of at most `MAX_LEN` bytes stored in a fixed-size record.
#[derive(Clone, Copy, Debug)]
pub struct FixedLenString<const MAX_LEN: usize> {
    len: u64,
    data: [u8; MAX_LEN],
}

impl<const MAX_LEN: usize> FixedLenString<MAX_LEN> {
    pub closed spec fn view(&self) -> Seq<u8> {
        self.data@.take(self.len as int)
    }

    /// The whole fixed-size data array.
    pub closed spec fn record(&self) -> Seq<u8> {
        self.data@
    }

    /// The stored length.
    pub closed spec fn len_spec(&self) -> nat {
        self.len as nat
    }

    /// The string's bytes, or an error where they do not fit.
    pub fn try_from(value: String) -> (r: Result<Self, ElusivError>)
        ensures
            encode_utf8(value@).len() <= MAX_LEN ==> {
                &&& r is Ok
                &&& r->Ok_0@ == encode_utf8(value@)
                &&& r->Ok_0.len_spec() == encode_utf8(value@).len()
                &&& r->Ok_0.record().len() == MAX_LEN
                &&& forall|i: int|
                    encode_utf8(value@).len() <= i < MAX_LEN ==> r->Ok_0.record()[i] == 0
            },
            encode_utf8(value@).len() > MAX_LEN ==> r == Err::<Self, ElusivError>(
                ElusivError::InvalidArgument,
            ),
    {
        let bytes = value.as_str().as_bytes();
        if bytes.len() > MAX_LEN {
            return Err(ElusivError::InvalidArgument);
        }
        let mut data = [0u8; MAX_LEN];
        let mut i: usize = 0;
        while i < bytes.len()
            invariant
                bytes@.len() <= MAX_LEN,
                i <= bytes@.len(),
                data@.len() == MAX_LEN,
                forall|k: int| 0 <= k < i ==> data@[k] == bytes@[k],
                forall|k: int| i <= k < MAX_LEN ==> data@[k] == 0,
            decreases bytes@.len() - i,
        {
            data[i] = bytes[i];
            i = i + 1;
        }
        let r = FixedLenString { len: bytes.len() as u64, data };
        assert(r@ =~= bytes@);
        Ok(r)
    }
}

/// Activity counts of a warden for each day of a year, and in total.
#[derive(Clone, Copy, Debug)]
pub struct WardenStatistics {
    pub activity: [u32; 366],
    pub total: u32,
}

impl WardenStatistics {
    /// Checks that one more activity on `day` can be counted: fails with
    /// `StatsError` for a day past the year and with `Overflow` where the total
    /// or the day's count is at its maximum.
    pub fn inc(&self, day: u32) -> (r: Result<&Self, ElusivError>)
        ensures
            day >= 366 ==> r == Err::<&Self, ElusivError>(ElusivError::StatsError),
            day < 366 && self.total == u32::MAX ==> r == Err::<&Self, ElusivError>(
                ElusivError::Overflow,
            ),
            day < 366 && self.total < u32::MAX && self.activity@[day as int] == u32::MAX ==> r
                == Err::<&Self, ElusivError>(ElusivError::Overflow),
            day < 366 && self.total < u32::MAX && self.activity@[day as int] < u32::MAX ==> r
                == Ok::<&Self, ElusivError>(self),
    {
        if day >= 366 {
            return Err(ElusivError::StatsError);
        }
        if self.total == u32::MAX {
            return Err(ElusivError::Overflow);
        }
        if self.activity[day as usize] == u32::MAX {
            return Err(ElusivError::Overflow);
        }
        Ok(self)
    }
}

/// Index of the statistics record of `warden_id` for `year`.
pub fn stats_account_pda_offset(warden_id: ElusivWardenID, year: u16) -> (r: u32)
    requires
        year >= BASE_YEAR,
        warden_id < WARDENS_COUNT,
        (year - BASE_YEAR) * WARDENS_COUNT + warden_id <= u32::MAX,
    ensures
        r == (year - BASE_YEAR) * WARDENS_COUNT + warden_id,
{
    (year - BASE_YEAR) as u32 * WARDENS_COUNT + warden_id
}

} // verus!
