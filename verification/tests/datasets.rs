use chrono_data_manager::datasets::{
    dataset_name_of, extract_gps_dataset_id, extract_gps_week, get_year_datasets,
    is_excluded_dataset, year_datasets_ids, YEARS, YEARS_INCL_2016,
};

#[test]
fn year_dataset_counts_and_bounds() {
    let y16 = get_year_datasets("2016");
    assert_eq!(y16.len(), 371);
    assert_eq!(y16.first().unwrap(), "gbm18770");
    assert_eq!(y16.last().unwrap(), "gbm19296");
    let y17 = get_year_datasets("2017");
    assert_eq!(y17.len(), 364);
    assert_eq!(y17.first().unwrap(), "gbm19300");
    assert_eq!(y17.last().unwrap(), "gbm19816");
    let y18 = get_year_datasets("2018");
    assert_eq!(y18.len(), 369);
    assert_eq!(y18.first().unwrap(), "gbm19820");
    assert_eq!(y18.last().unwrap(), "gbm20346");
    assert!(!y18.contains(&"gbm20194".to_string()));
    assert!(!y18.contains(&"gbm20236".to_string()));
    assert!(y18.contains(&"gbm20195".to_string()));
    assert!(get_year_datasets("2019").is_empty());
    assert!(get_year_datasets("").is_empty());
}

#[test]
fn year_datasets_are_consecutive_days() {
    let ids = year_datasets_ids("2017");
    assert_eq!(ids[0], 19300);
    assert_eq!(ids[6], 19306);
    assert_eq!(ids[7], 19310);
    for w in ids.windows(2) {
        assert!(w[0] < w[1]);
    }
    assert_eq!(YEARS, ["2017", "2018"]);
    assert_eq!(YEARS_INCL_2016, ["2016", "2017", "2018"]);
}

#[test]
fn dataset_names_round_trip_through_ids() {
    for year in YEARS_INCL_2016 {
        for name in get_year_datasets(year) {
            let id = extract_gps_dataset_id(&name).unwrap();
            assert_eq!(dataset_name_of(id), name);
            assert_eq!(extract_gps_week(&name), Some(id / 10));
        }
    }
}

#[test]
fn gps_ids_and_weeks_are_read_from_names() {
    assert_eq!(extract_gps_dataset_id("gbm19670"), Some(19670));
    assert_eq!(extract_gps_dataset_id("gbm19670.clk"), Some(19670));
    assert_eq!(extract_gps_dataset_id("gbm1967"), None);
    assert_eq!(extract_gps_dataset_id("igs19670"), None);
    assert_eq!(extract_gps_dataset_id("gbm1967x"), None);
    assert_eq!(extract_gps_week("gbm19670"), Some(1967));
    assert_eq!(extract_gps_week("gbm1967"), Some(1967));
    assert_eq!(extract_gps_week("gbm196"), None);
    assert_eq!(extract_gps_week("gbm+967"), Some(967));
    assert!(is_excluded_dataset("gbm19670", &[1967, 1968]));
    assert!(!is_excluded_dataset("gbm19690", &[1967, 1968]));
    assert!(!is_excluded_dataset("tmp", &[1967]));
}

#[test]
fn year_names_ascend_and_years_follow_each_other() {
    let years: Vec<Vec<String>> = YEARS_INCL_2016.iter().map(|y| get_year_datasets(y)).collect();
    for names in &years {
        assert!(names.windows(2).all(|w| w[0] < w[1]));
    }
    for pair in years.windows(2) {
        assert!(pair[0].last().unwrap() < pair[1].first().unwrap());
    }
}

#[test]
fn week_is_the_id_without_its_day_digit() {
    for name in ["gbm12345", "gbm00007", "gbm99999", "gbm19670x"] {
        let id = extract_gps_dataset_id(name).unwrap();
        assert_eq!(extract_gps_week(name), Some(id / 10));
    }
    assert_eq!(extract_gps_week("gbm12345"), Some(1234));
}
