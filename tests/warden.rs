use elusiv::error::ElusivError;
use elusiv::warden::{stats_account_pda_offset, FixedLenString, WardenStatistics, WARDENS_COUNT};

#[test]
fn stats_offset_by_year_and_id() {
    assert_eq!(stats_account_pda_offset(0, 2022), 0);
    assert_eq!(stats_account_pda_offset(5, 2022), 5);
    assert_eq!(stats_account_pda_offset(5, 2023), WARDENS_COUNT + 5);
    assert_eq!(stats_account_pda_offset(1, 2024), 2 * WARDENS_COUNT + 1);
}

#[test]
fn warden_statistics_inc_checks() {
    let mut s = WardenStatistics { activity: [0; 366], total: 0 };
    assert!(s.inc(0).is_ok());
    assert!(s.inc(365).is_ok());
    assert_eq!(s.inc(366).err(), Some(ElusivError::StatsError));
    s.activity[10] = u32::MAX;
    assert_eq!(s.inc(10).err(), Some(ElusivError::Overflow));
    s.total = u32::MAX;
    assert_eq!(s.inc(0).err(), Some(ElusivError::Overflow));
}

#[test]
fn fixed_len_string_bounds() {
    let ok = FixedLenString::<4>::try_from(String::from("abcd"));
    assert!(ok.is_ok());
    let err = FixedLenString::<4>::try_from(String::from("abcde"));
    assert_eq!(err.err(), Some(ElusivError::InvalidArgument));
}
