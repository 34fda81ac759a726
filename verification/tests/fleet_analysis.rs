use chrono_data_manager::datasets::{is_anomalous_dataset, ANOMALOUS_WEEKS};
use chrono_data_manager::observatory::{
    build_5t_fields, catalogue_order, incident_phase, AnomalyTier, EpochClocks,
};
use chrono_data_manager::order::stable_order_by_key;
use chrono_data_manager::windowing::analysis_windows;

fn epoch(timestamp: i64, e12: bool, e18: bool, e14: bool) -> EpochClocks {
    EpochClocks { timestamp, has_e12: e12, has_e18: e18, has_e14: e14 }
}

#[test]
fn stable_order_keeps_ties_in_input_order() {
    assert_eq!(stable_order_by_key(&vec![5, 3, 5, 1]), vec![3, 1, 0, 2]);
    assert_eq!(stable_order_by_key(&vec![]), Vec::<usize>::new());
    assert_eq!(stable_order_by_key(&vec![2, 2, 2]), vec![0, 1, 2]);
}

#[test]
fn five_t_fields_join_later_e14_readings() {
    let epochs = vec![
        epoch(3600, false, false, true),
        epoch(0, true, true, true),
        epoch(7200, false, false, true),
    ];
    let fields = build_5t_fields(&epochs);
    assert_eq!(fields.len(), 1);
    let f = &fields[0];
    assert_eq!(f.timestamp, 0);
    assert_eq!(f.t1_e12, Some(1));
    assert_eq!(f.t2_e18, Some(1));
    assert_eq!(f.t3_e14_t0, Some(1));
    assert_eq!(f.t4_e14_t1h, Some(0));
    assert_eq!(f.t5_e14_t2h, Some(2));
    assert!(f.is_complete());
}

#[test]
fn five_t_fields_need_three_clocks_and_use_the_last_epoch_at_a_time() {
    let epochs = vec![
        epoch(0, true, false, false),
        epoch(3600, false, false, true),
        epoch(3600, false, false, false),
        epoch(7200, false, false, true),
        epoch(100, false, true, true),
    ];
    let fields = build_5t_fields(&epochs);
    // At 0: E12 only, the epoch at 3600 that counts is the later one (no E14),
    // E14 at 7200 — two clocks, dropped. At 100: E18 and E14, nothing later.
    assert!(fields.is_empty());
    let epochs2 = vec![
        epoch(0, true, false, false),
        epoch(3600, false, false, false),
        epoch(3600, false, false, true),
        epoch(7200, false, false, true),
    ];
    let fields2 = build_5t_fields(&epochs2);
    assert_eq!(fields2.len(), 1);
    assert_eq!(fields2[0].t4_e14_t1h, Some(2));
    assert_eq!(fields2[0].t5_e14_t2h, Some(3));
    assert!(!fields2[0].has_valid_differential());
}

#[test]
fn catalogue_lists_non_normal_incidents_by_time() {
    let timestamps = vec![30, 10, 20, 10];
    let tiers = vec![
        AnomalyTier::Extreme,
        AnomalyTier::Normal,
        AnomalyTier::Elevated,
        AnomalyTier::Significant,
    ];
    assert_eq!(catalogue_order(&timestamps, &tiers), vec![3, 2, 0]);
}

#[test]
fn incident_phases_follow_the_timeline() {
    assert_eq!(incident_phase("2016-06-12 03:00", "E14", false, false), "Initial Signs");
    assert_eq!(incident_phase("2016-09-01", "E14", false, false), "Early Warning");
    assert_eq!(incident_phase("2016-11-05 12:00", "E11", true, true), "Crisis Origin");
    assert_eq!(incident_phase("2016-11-05 12:00", "E11", false, true), "Pre-Crisis");
    assert_eq!(incident_phase("2016-11-05 12:00", "E12", true, true), "Pre-Crisis");
    assert_eq!(incident_phase("2017-01-18", "E18", true, true), "Public Ack");
    assert_eq!(incident_phase("2017-09-10", "E14", false, true), "Peak Crisis");
    assert_eq!(incident_phase("2017-09-10", "E14", true, false), "Escalation");
    assert_eq!(incident_phase("2018-01-01", "E14", true, true), "Persistent");
}

#[test]
fn scan_windows_are_cut_at_the_limit() {
    assert_eq!(analysis_windows(250, 120, 60), vec![(0, 120), (60, 180), (120, 240)]);
    assert_eq!(analysis_windows(99, 500, 10), Vec::<(usize, usize)>::new());
    assert_eq!(analysis_windows(100, 500, 200), vec![(0, 100)]);
}

#[test]
fn anomalous_datasets_are_recognised_by_id() {
    assert_eq!(ANOMALOUS_WEEKS.len(), 104);
    assert!(is_anomalous_dataset("gbm19300"));
    assert!(is_anomalous_dataset("gbm19625"));
    assert!(is_anomalous_dataset("gbm20226.clk"));
    assert!(!is_anomalous_dataset("gbm19307"));
    assert!(!is_anomalous_dataset("gbm19670"));
    assert!(!is_anomalous_dataset("igs19300"));
}
