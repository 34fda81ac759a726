use chrono_data_manager::interferometry::parse_matlab_array;
use chrono_data_manager::mass_data::{is_detailed_analysis_file, mass_energy_fields};
use chrono_data_manager::observatory::{build_5t_fields, find_or_add_epoch, EpochClocks};
use chrono_data_manager::order::{stable_order_by_key, stable_order_by_name};
use chrono_data_manager::pulsar::normalize_exponent_text;
use chrono_data_manager::records::{
    ActionPhaseResults, EinsteinElevatorData, HourlyStats, MhdScenario, OmniRecord, RamanShot,
};
use chrono_data_manager::sparc::{rotmod_file_name, skips_catalogue_line};
use chrono_data_manager::text::{split_on_char, string_of};
use chrono_data_manager::windowing::analysis_windows;

fn strings(v: &[&str]) -> Vec<String> {
    v.iter().map(|s| s.to_string()).collect()
}

#[test]
fn records_give_back_what_they_hold() {
    let shot = RamanShot::new(7, "2019-05-01 10:00:00".to_string(), 0.5, 0.61, 0.02);
    assert_eq!(shot.iteration(), 7);
    assert_eq!(shot.timestamp(), "2019-05-01 10:00:00");
    assert_eq!(shot.phase_rad(), 0.5);
    assert_eq!(shot.ratio_mean(), 0.61);
    assert_eq!(shot.ratio_std_dev(), 0.02);

    let ee = EinsteinElevatorData::new(vec![1.0, 2.0], vec![0.5], vec![], vec![0.1], 0.48, 7.5e-6);
    assert_eq!(ee.freq_data(), &vec![1.0, 2.0]);
    assert_eq!(ee.ratio_data(), &vec![0.5]);
    assert!(ee.pe_simulated().is_empty());
    assert_eq!(ee.residual(), &vec![0.1]);
    assert_eq!(ee.interrogation_time_s(), 0.48);
    assert_eq!(ee.temperature_k(), 7.5e-6);

    let omni = OmniRecord::new(1504501200, -20.0, 33.0, 85.2);
    assert_eq!(omni.timestamp(), 1504501200);
    assert_eq!(omni.dst_index(), -20.0);
    assert_eq!(omni.kp_index(), 33.0);
    assert_eq!(omni.f10_7_index(), 85.2);

    let hour = HourlyStats::new(3600, 2.5, 7);
    assert_eq!(hour.timestamp(), 3600);
    assert_eq!(hour.variance_ns2(), 2.5);
    assert_eq!(hour.sat_count(), 7);

    let mhd = MhdScenario::new("storm".to_string(), 1e-4, 1e6, 20.0);
    assert_eq!(mhd.name(), "storm");
    assert_eq!(mhd.b_field_tesla(), 1e-4);
    assert_eq!(mhd.volume_m3(), 1e6);
    assert_eq!(mhd.distance_m(), 20.0);

    let ap = ActionPhaseResults::new(10, 1.1e-16, 0.3, 1.0, 2.0, 0.5, 0.01, 0.98);
    assert_eq!(ap.sample_size(), 10);
    assert_eq!(ap.t_field_gradient(), 1.1e-16);
    assert_eq!(ap.mean_phase_rad(), 0.3);
    assert_eq!(ap.action_measured_j_s(), 1.0);
    assert_eq!(ap.action_predicted_j_s(), 2.0);
    assert_eq!(ap.action_ratio(), 0.5);
    assert_eq!(ap.phase_std_dev(), 0.01);
    assert_eq!(ap.energy_balance_ratio(), 0.98);
}

#[test]
fn names_are_ordered_stably() {
    let names = strings(&["NGC6503", "DDO154", "NGC6503", "NGC0024", "DDO"]);
    assert_eq!(stable_order_by_name(&names), vec![4, 1, 3, 0, 2]);
    assert!(stable_order_by_name(&Vec::new()).is_empty());
}

#[test]
fn stable_order_is_a_sorted_permutation() {
    let keys = vec![9, -3, 9, 0, -3, 12, 0];
    let p = stable_order_by_key(&keys);
    let mut seen = p.clone();
    seen.sort();
    assert_eq!(seen, (0..keys.len()).collect::<Vec<_>>());
    for w in p.windows(2) {
        assert!(keys[w[0]] < keys[w[1]] || (keys[w[0]] == keys[w[1]] && w[0] < w[1]));
    }
}

#[test]
fn epochs_are_found_or_added() {
    let mut times = vec![10, 20, 10];
    assert_eq!(find_or_add_epoch(&mut times, 10), 0);
    assert_eq!(times, vec![10, 20, 10]);
    assert_eq!(find_or_add_epoch(&mut times, 20), 1);
    assert_eq!(find_or_add_epoch(&mut times, 30), 3);
    assert_eq!(times, vec![10, 20, 10, 30]);
}

#[test]
fn detailed_analysis_rows() {
    assert!(is_detailed_analysis_file("gbm19670_detailed_analysis.csv"));
    assert!(!is_detailed_analysis_file("gbm19670_summary.csv"));
    let lines = strings(&[
        "Timestamp,R_A,R_B,Delta_H_km,G,Error_Pct,Term_Time,Term_Kinetic,Term_Potential",
        "1,2.9e7,2.8e7,100,6.67e-11,0.1,5,6,7",
        "1,2,3",
        "t,a,b,h,g,e,x,y,z,extra",
    ]);
    let rows = mass_energy_fields(&lines);
    assert_eq!(rows.len(), 2);
    assert_eq!(rows[0], strings(&["2.9e7", "2.8e7", "6.67e-11", "5", "6", "7"]));
    assert_eq!(rows[1], strings(&["a", "b", "g", "x", "y", "z"]));
}

#[test]
fn catalogue_helpers() {
    assert_eq!(rotmod_file_name("NGC6503"), "NGC6503_rotmod.dat");
    assert!(skips_catalogue_line("Byte-by-byte Description of file"));
    assert!(skips_catalogue_line(""));
    let row = "NGC6503      6  6.26 0.31  74.0 2.0 12.845        1.48         1.74          1.744     115.3  1.1  1";
    assert!(!skips_catalogue_line(row));
}

#[test]
fn split_pieces_join_back() {
    for (text, sep) in [("a,b,,c", ','), ("", ','), (",", ','), ("x\ty", '\t'), ("no separator", ';')] {
        let cs: Vec<char> = text.chars().collect();
        let pieces = split_on_char(&cs, sep);
        assert_eq!(pieces.join(&sep.to_string()), text);
        assert!(pieces.iter().all(|p| !p.contains(sep)));
    }
    assert_eq!(split_on_char(&['a', ',', 'b'], ','), strings(&["a", "b"]));
    assert_eq!(string_of(&['h', 'i']), "hi");
}

#[test]
fn exponent_normalisation_is_idempotent() {
    let once = normalize_exponent_text("6.1D+01d");
    assert_eq!(once, "6.1E+01e");
    assert_eq!(normalize_exponent_text(&once), once);
    assert_eq!(once.len(), "6.1D+01d".len());
}

#[test]
fn matlab_entries_hold_no_separators() {
    let content: Vec<char> = "X = [1;2, 3 ... % c\n # 4]".chars().collect();
    let entries = parse_matlab_array(&content);
    assert_eq!(entries, strings(&["X", "=", "1", "2", "3", "c", "4"]));
    for e in &entries {
        assert!(!e.is_empty() && !e.starts_with('%') && !e.starts_with('#'));
        assert!(!e.chars().any(|c| c.is_whitespace() || c == ',' || c == '[' || c == ']' || c == ';'));
    }
}

#[test]
fn windows_stay_within_the_scan() {
    let limit = 1000;
    for (size, step) in [(100, 50), (250, 100), (99, 10), (400, 400)] {
        for (a, b) in analysis_windows(limit, size, step) {
            assert!(a < b && b <= limit);
            assert!(b - a >= 100 && b - a <= size);
        }
    }
}

#[test]
fn five_t_measurements_hold_three_clocks_in_time_order() {
    let mut epochs = Vec::new();
    for k in 0..12i64 {
        epochs.push(EpochClocks {
            timestamp: (11 - k) * 1800,
            has_e12: k % 2 == 0,
            has_e18: k % 3 == 0,
            has_e14: k % 4 != 1,
        });
    }
    let fields = build_5t_fields(&epochs);
    assert!(!fields.is_empty());
    for w in fields.windows(2) {
        assert!(w[0].timestamp <= w[1].timestamp);
    }
    for f in &fields {
        let count = [f.t1_e12, f.t2_e18, f.t3_e14_t0, f.t4_e14_t1h, f.t5_e14_t2h]
            .iter()
            .filter(|s| s.is_some())
            .count();
        assert!(count >= 3);
        if let Some(j) = f.t4_e14_t1h {
            assert_eq!(epochs[j].timestamp, f.timestamp + 3600);
            assert!(epochs[j].has_e14);
        }
        if let Some(j) = f.t5_e14_t2h {
            assert_eq!(epochs[j].timestamp, f.timestamp + 7200);
            assert!(epochs[j].has_e14);
        }
        if let Some(j) = f.t1_e12 {
            assert_eq!(epochs[j].timestamp, f.timestamp);
        }
    }
}
