use fat32expander::fat32::{ClusterId, SectorNum};
use fat32expander::resize::log::Operation;
use fat32expander::resize::ResizePhase;
use fat32expander::text::decimal;
use fat32expander::version::{
    days_to_ymd, format_build_time, is_leap_year, padded, parse_u64, version_long,
};

#[test]
fn leap_years() {
    assert!(is_leap_year(2024));
    assert!(is_leap_year(2000));
    assert!(!is_leap_year(1900));
    assert!(!is_leap_year(2023));
    assert!(is_leap_year(1972));
}

#[test]
fn dates_from_day_numbers() {
    assert_eq!(days_to_ymd(0), (1970, 1, 1));
    assert_eq!(days_to_ymd(30), (1970, 1, 31));
    assert_eq!(days_to_ymd(31), (1970, 2, 1));
    assert_eq!(days_to_ymd(58), (1970, 2, 28));
    assert_eq!(days_to_ymd(59), (1970, 3, 1));
    assert_eq!(days_to_ymd(364), (1970, 12, 31));
    assert_eq!(days_to_ymd(365), (1971, 1, 1));
    assert_eq!(days_to_ymd(11_016), (2000, 2, 29));
    assert_eq!(days_to_ymd(11_017), (2000, 3, 1));
    assert_eq!(days_to_ymd(19_723), (2024, 1, 1));
    assert_eq!(days_to_ymd(19_782), (2024, 2, 29));
    assert_eq!(days_to_ymd(19_723 + 365), (2024, 12, 31));
    assert_eq!(days_to_ymd(19_723 + 366), (2025, 1, 1));
}

#[test]
fn build_time_text() {
    assert_eq!(format_build_time(0), "1970-01-01 00:00:00 UTC");
    assert_eq!(format_build_time(86_399), "1970-01-01 23:59:59 UTC");
    assert_eq!(format_build_time(86_400), "1970-01-02 00:00:00 UTC");
    assert_eq!(format_build_time(1_700_000_000), "2023-11-14 22:13:20 UTC");
}

#[test]
fn version_line() {
    assert_eq!(
        version_long("1.2.3", 1_700_000_000, "abc1234"),
        "1.2.3 (built 2023-11-14 22:13:20 UTC git:abc1234)"
    );
    assert_eq!(version_long("0.1.0", 0, "unknown"), "0.1.0 (built 1970-01-01 00:00:00 UTC git:unknown)");
}

#[test]
fn numbers_from_digits() {
    assert_eq!(parse_u64(b""), Some(0));
    assert_eq!(parse_u64(b"0"), Some(0));
    assert_eq!(parse_u64(b"007"), Some(7));
    assert_eq!(parse_u64(b"1700000000"), Some(1_700_000_000));
    assert_eq!(parse_u64(b"18446744073709551615"), Some(u64::MAX));
    assert_eq!(parse_u64(b"18446744073709551616"), None);
    assert_eq!(parse_u64(b"99999999999999999999"), None);
    assert_eq!(parse_u64(b"12a"), None);
    assert_eq!(parse_u64(b"-1"), None);
    assert_eq!(parse_u64(b" 1"), None);
}

#[test]
fn numbers_as_text() {
    assert_eq!(decimal(0), "0");
    assert_eq!(decimal(9), "9");
    assert_eq!(decimal(10), "10");
    assert_eq!(decimal(1_234_567_890), "1234567890");
    assert_eq!(decimal(u64::MAX), "18446744073709551615");
    assert_eq!(padded(7, 2), "07");
    assert_eq!(padded(7, 4), "0007");
    assert_eq!(padded(0, 2), "00");
    assert_eq!(padded(12345, 4), "12345");
    assert_eq!(padded(5, 0), "5");
}

#[test]
fn cluster_and_sector_text() {
    assert_eq!(ClusterId::new(5).to_text(), "cluster 5");
    assert_eq!(SectorNum::new(0).to_text(), "sector 0");
    assert_eq!(ClusterId::first_data_cluster().get(), 2);
    assert_eq!(ClusterId::from(9u32), ClusterId::new(9));
    assert_eq!(u32::from(ClusterId::new(9)), 9);
    assert_eq!(SectorNum::from(9u64), SectorNum::new(9));
    assert_eq!(u64::from(SectorNum::new(9)), 9);
    assert!(ClusterId::new(2) < ClusterId::new(3));
}

#[test]
fn log_entries_as_text() {
    assert_eq!(
        Operation::DetectedIncompleteResize { phase: ResizePhase::Started }.describe(),
        "Detected incomplete resize at phase Started"
    );
    assert_eq!(
        Operation::DetectedIncompleteResize { phase: ResizePhase::FatWritten }.describe(),
        "Detected incomplete resize at phase FatWritten"
    );
    assert_eq!(Operation::SkippedFatOperations.describe(), "Skipping FAT operations (already done)");
    assert_eq!(
        Operation::PlannedDataShift { clusters: 3, bytes: 12_288 }.describe(),
        "Planned data shift for 3 clusters (12288 bytes)"
    );
}
