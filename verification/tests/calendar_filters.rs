use chrono_data_manager::anomaly_filter::{
    count_filtered_epochs, get_anomaly_windows, is_in_anomaly_window, is_standard_sample_month,
    should_filter_epoch, STANDARD_SAMPLE_MONTHS,
};
use chrono_data_manager::calendar::{utc_datetime_text, CivilDate};
use chrono_data_manager::observatory::aligned_epoch_order;

const SEP_01_2017: u64 = 1504224000;
const AUG_01_2017: u64 = 1501545600;
const SEP_24_2017_NOON: u64 = 1506211200 + 43200;
const SEP_25_2017: u64 = 1506297600;

#[test]
fn anomaly_windows_per_year() {
    let w = get_anomaly_windows("2017");
    assert_eq!(w.len(), 1);
    assert_eq!((w[0].start.year(), w[0].start.month(), w[0].start.day()), (2017, 9, 24));
    assert_eq!((w[0].end.year(), w[0].end.month(), w[0].end.day()), (2017, 9, 24));
    assert_eq!(w[0].satellite, "E14");
    assert_eq!(w[0].tier, "ELEVATED");
    assert!(get_anomaly_windows("2016").is_empty());
    assert!(get_anomaly_windows("2018").is_empty());
    assert!(get_anomaly_windows("1999").is_empty());
}

#[test]
fn standard_months_are_the_quarter_ends() {
    assert_eq!(STANDARD_SAMPLE_MONTHS, [3, 6, 9, 12]);
    assert!(is_standard_sample_month(SEP_01_2017));
    assert!(!is_standard_sample_month(AUG_01_2017));
    // u64::MAX read as i64 is -1: 31 December 1969.
    assert!(is_standard_sample_month(u64::MAX));
    // 2^63 read as i64 is i64::MIN, whose date chrono cannot represent.
    assert!(!is_standard_sample_month(1u64 << 63));
}

#[test]
fn window_days_are_filtered() {
    let w = get_anomaly_windows("2017");
    assert!(is_in_anomaly_window(SEP_24_2017_NOON, &w));
    assert!(!is_in_anomaly_window(SEP_25_2017, &w));
    assert!(!is_in_anomaly_window(SEP_24_2017_NOON - 43201, &w));
    assert!(should_filter_epoch(AUG_01_2017, &w, true));
    assert!(!should_filter_epoch(AUG_01_2017, &w, false));
    assert!(should_filter_epoch(SEP_24_2017_NOON, &w, false));
    assert!(!should_filter_epoch(SEP_01_2017, &w, true));
    assert_eq!(
        count_filtered_epochs(&[SEP_24_2017_NOON, SEP_25_2017, SEP_01_2017], &w),
        (3, 1)
    );
    assert_eq!(count_filtered_epochs(&[1506211200, 0, 86400], &w), (3, 1));
    assert_eq!(count_filtered_epochs(&[], &w), (0, 0));
}

#[test]
fn dates_are_checked_by_chrono() {
    assert!(CivilDate::from_ymd(2016, 2, 29).is_some());
    assert!(CivilDate::from_ymd(2017, 2, 29).is_none());
    assert!(CivilDate::from_ymd(2017, 13, 1).is_none());
    let d = CivilDate::from_yo(2017, 247).unwrap();
    assert_eq!((d.year(), d.month(), d.day()), (2017, 9, 4));
    assert!(CivilDate::from_yo(2017, 366).is_none());
    assert!(CivilDate::from_yo(2016, 366).is_some());
}

#[test]
fn timestamps_are_written_as_utc_text() {
    assert_eq!(utc_datetime_text(1504501200), "2017-09-04 05:00:00");
    assert_eq!(utc_datetime_text(0), "1970-01-01 00:00:00");
    assert_eq!(utc_datetime_text(-1), "1969-12-31 23:59:59");
    assert_eq!(utc_datetime_text(1506211200 + 45296), "2017-09-24 12:34:56");
    assert_eq!(utc_datetime_text(253402300800), "+10000-01-01 00:00:00");
    assert_eq!(utc_datetime_text(-62167219200), "0000-01-01 00:00:00");
    assert_eq!(utc_datetime_text(-62198755200), "-0001-01-01 00:00:00");
    assert_eq!(utc_datetime_text(i64::MAX), "1970-01-01 00:00:00");
}

#[test]
fn aligned_epochs_hold_the_whole_fleet_in_time_order() {
    let ts = vec![300, 100, 200, 100];
    let complete = vec![true, false, true, true];
    assert_eq!(aligned_epoch_order(&ts, &complete), vec![3, 2, 0]);
}
