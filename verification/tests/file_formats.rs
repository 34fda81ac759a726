use chrono_data_manager::interferometry::{
    extract_matlab_value, gm_value_fields, is_avg_ratios_file, parse_matlab_array,
    parse_raman_line, scan_elevator_lines,
};
use chrono_data_manager::omni::parse_omni_line;
use chrono_data_manager::pulsar::{
    classify_ipta_tim_line, classify_nanograv_tim_line, classify_par_line, classify_residual_line,
    is_binary_par, is_ipta_tim_file, is_par_file, is_pint_tim_file, normalize_exponent_text,
    pulsar_name, residual_file_name, BinaryPulsarParams, ParKey, ParLine, TimLine,
};
use chrono_data_manager::sparc::{
    classify_rotmod_line, find_catalogue_row, galaxy_name_from_stem, parse_catalogue_line,
    RotmodLine,
};
use chrono_data_manager::text::lines_of;

const CATALOGUE_ROW: &str = "NGC6503      6  6.26 0.31  74.0 2.0 12.845        1.48         1.74          1.744     115.3  1.1  1";

fn strings(v: &[&str]) -> Vec<String> {
    v.iter().map(|s| s.to_string()).collect()
}

#[test]
fn catalogue_row_is_read_by_columns() {
    assert_eq!(CATALOGUE_ROW.len(), 100);
    let row = parse_catalogue_line(CATALOGUE_ROW).expect("a galaxy row");
    assert_eq!(row.name, "NGC6503");
    assert_eq!(row.hubble_type, 6);
    assert_eq!(row.distance_mpc, "6.26");
    assert_eq!(row.distance_err, "0.31");
    assert_eq!(row.inclination, "74.0");
    assert_eq!(row.inclination_err, "2.0");
    assert_eq!(row.luminosity_3p6, "12.845");
    assert_eq!(row.r_eff, "1.48");
    assert_eq!(row.r_disk, "1.74");
    assert_eq!(row.m_hi, "1.744");
    assert_eq!(row.v_flat, "115.3");
    assert_eq!(row.v_flat_err, "1.1");
    assert_eq!(row.quality, 1);
}

#[test]
fn catalogue_row_without_quality_column_reads_zero() {
    let row = parse_catalogue_line(&CATALOGUE_ROW[..99]).expect("a galaxy row");
    assert_eq!(row.quality, 0);
    assert_eq!(row.v_flat_err, "1.1");
}

#[test]
fn catalogue_headers_are_skipped() {
    assert!(parse_catalogue_line("").is_none());
    assert!(parse_catalogue_line("Title: Galaxy rotation curves").is_none());
    let galaxy_header = format!("{:<100}", "Galaxy   T    D");
    assert!(parse_catalogue_line(&galaxy_header).is_none());
    let rule = "-".repeat(100);
    assert!(parse_catalogue_line(&rule).is_none());
    let equals = "=".repeat(100);
    assert!(parse_catalogue_line(&equals).is_none());
    let indented_rule = format!(" {}", "-".repeat(99));
    assert!(parse_catalogue_line(&indented_rule).is_none());
    assert!(parse_catalogue_line(&CATALOGUE_ROW[..98]).is_none());
    let blank_name = format!("{}{}", " ".repeat(11), &CATALOGUE_ROW[11..]);
    assert!(parse_catalogue_line(&blank_name).is_none());
}

#[test]
fn catalogue_lookup_keeps_the_last_row_of_a_name() {
    let a = parse_catalogue_line(CATALOGUE_ROW).unwrap();
    let other = format!("{:<11}{}", "DDO154", &CATALOGUE_ROW[11..]);
    let b = parse_catalogue_line(&other).unwrap();
    let rows = vec![a.clone(), b, a];
    assert_eq!(find_catalogue_row(&rows, "NGC6503"), Some(2));
    assert_eq!(find_catalogue_row(&rows, "DDO154"), Some(1));
    assert_eq!(find_catalogue_row(&rows, "UGC00128"), None);
}

#[test]
fn rotation_curve_lines_are_classified() {
    match classify_rotmod_line("# Distance = 6.26 Mpc") {
        RotmodLine::Distance(Some(d)) => assert_eq!(d, "6.26"),
        other => panic!("unexpected {:?}", other),
    }
    assert!(matches!(classify_rotmod_line("# Distance"), RotmodLine::Distance(None)));
    assert!(matches!(classify_rotmod_line("# Rad Vobs errV"), RotmodLine::Skip));
    assert!(matches!(classify_rotmod_line("   "), RotmodLine::Skip));
    assert!(matches!(classify_rotmod_line("1.0 2.0 3.0"), RotmodLine::Skip));
    match classify_rotmod_line("  0.76 77.0 3.0 10.0 50.0 0.0 100.0 0.0 extra") {
        RotmodLine::Point(f) => {
            assert_eq!(f, strings(&["0.76", "77.0", "3.0", "10.0", "50.0", "0.0", "100.0", "0.0"]))
        }
        other => panic!("unexpected {:?}", other),
    }
    assert_eq!(galaxy_name_from_stem("NGC6503_rotmod"), "NGC6503");
    assert_eq!(galaxy_name_from_stem("DDO154"), "DDO154");
}

#[test]
fn ipta_tim_lines_are_classified() {
    match classify_ipta_tim_line("INCLUDE J0437-4715/tims/a.tim") {
        TimLine::Include(Some(f)) => assert_eq!(f, "J0437-4715/tims/a.tim"),
        other => panic!("unexpected {:?}", other),
    }
    assert!(matches!(classify_ipta_tim_line("INCLUDE"), TimLine::Include(None)));
    assert!(matches!(classify_ipta_tim_line("C a b c d"), TimLine::Skip));
    assert!(matches!(classify_ipta_tim_line("CLK UNCORR a b"), TimLine::Skip));
    assert!(matches!(classify_ipta_tim_line("# note a b c"), TimLine::Skip));
    assert!(matches!(classify_ipta_tim_line("FORMAT 1"), TimLine::Skip));
    assert!(matches!(classify_ipta_tim_line("MODE 1"), TimLine::Skip));
    assert!(matches!(classify_ipta_tim_line("file.fits 1400.5 58000.1"), TimLine::Skip));
    match classify_ipta_tim_line("  file.fits 1400.5 58000.123456 0.5 ao -fe L-wide") {
        TimLine::Toa(f) => assert_eq!(f, strings(&["1400.5", "58000.123456", "0.5"])),
        other => panic!("unexpected {:?}", other),
    }
}

#[test]
fn nanograv_tim_and_residual_lines() {
    assert_eq!(classify_nanograv_tim_line("C file 1 2 3"), None);
    assert_eq!(classify_nanograv_tim_line("FORMAT 1"), None);
    assert_eq!(
        classify_nanograv_tim_line("CLK a b c d"),
        Some(strings(&["a", "b", "c"]))
    );
    assert_eq!(classify_nanograv_tim_line("f 1 2"), None);
    assert_eq!(classify_residual_line("# MJD res err"), None);
    assert_eq!(classify_residual_line("1 2"), None);
    assert_eq!(
        classify_residual_line(" 58000.1 1.5 0.2 x"),
        Some(strings(&["58000.1", "1.5", "0.2"]))
    );
}

#[test]
fn par_lines_are_classified() {
    match classify_par_line("PSRJ  J1713+0747") {
        ParLine::Name(n) => assert_eq!(n, "J1713+0747"),
        other => panic!("unexpected {:?}", other),
    }
    match classify_par_line("BINARY ELL1") {
        ParLine::Model(m) => assert_eq!(m, "ELL1"),
        other => panic!("unexpected {:?}", other),
    }
    match classify_par_line("PB 67.8251 1 1.0e-9") {
        ParLine::Value(k, Some(v)) => {
            assert_eq!(k, ParKey::Pb);
            assert_eq!(v, "67.8251");
        }
        other => panic!("unexpected {:?}", other),
    }
    match classify_par_line("A1 3.2D+01 1") {
        ParLine::Value(k, Some(v)) => {
            assert_eq!(k, ParKey::A1);
            assert_eq!(v, "3.2E+01");
        }
        other => panic!("unexpected {:?}", other),
    }
    match classify_par_line("MASS1 1.4") {
        ParLine::Value(k, _) => assert_eq!(k, ParKey::M1),
        other => panic!("unexpected {:?}", other),
    }
    assert!(matches!(classify_par_line("M2"), ParLine::Value(ParKey::M2, None)));
    assert!(matches!(classify_par_line("MTOT 2.9"), ParLine::Value(ParKey::Mtot, Some(_))));
    assert!(matches!(classify_par_line("# PB 3"), ParLine::Skip));
    assert!(matches!(classify_par_line("PSR"), ParLine::Skip));
    assert!(matches!(classify_par_line("F0 218.8"), ParLine::Skip));
    assert!(matches!(classify_par_line(""), ParLine::Skip));
    assert_eq!(normalize_exponent_text("1.5D-10"), "1.5E-10");
    assert_eq!(normalize_exponent_text("2d3"), "2e3");
}

#[test]
fn par_file_names_and_flags() {
    assert!(is_binary_par("PSRJ J1\nBINARY DD\n"));
    assert!(!is_binary_par("PSRJ J1\nF0 1\n"));
    assert_eq!(pulsar_name("PSRJ J1\nF0 1\nPSRJ J2\r\n", None), "J2");
    assert_eq!(pulsar_name("PSR J9\nF0 1\n", Some("J0437-4715.IPTADR2".to_string())), "J0437-4715.IPTADR2");
    assert_eq!(pulsar_name("PSRJ\n", None), "");
    assert!(is_ipta_tim_file("J0437-4715.IPTADR2.tim"));
    assert!(!is_ipta_tim_file("J0437-4715.tim"));
    assert!(is_pint_tim_file("J1713+0747_PINT_20220305.nb.tim", "J1713+0747"));
    assert!(!is_pint_tim_file("J1713+0747_PINT_20220305.nb.par", "J1713+0747"));
    assert!(!is_pint_tim_file("J1909-3744_PINT_20220305.nb.tim", "J1713+0747"));
    assert_eq!(residual_file_name("J1713+0747"), "J1713+0747_NG15yr_nb.full.res");
    assert!(is_par_file("J1713+0747.par"));
    assert!(!is_par_file("J1713+0747.par.bak"));
    assert!(!is_par_file(".par"));
}

#[test]
fn binary_params_fill_and_usability() {
    let mut p: BinaryPulsarParams<f64> = BinaryPulsarParams::new("UNKNOWN".to_string());
    assert!(!p.is_usable());
    assert!(!p.has_well_constrained_masses());
    p.binary_model = "ELL1".to_string();
    p.set_param(ParKey::Pb, Some(5.74));
    p.set_param(ParKey::A1, Some(3.36));
    assert!(!p.is_usable());
    p.set_param(ParKey::Tasc, Some(55000.0));
    assert!(p.is_usable());
    p.set_param(ParKey::Pb, None);
    assert!(!p.is_usable());
    p.set_param(ParKey::Mtot, Some(2.0));
    assert_eq!(p.m_pulsar, None);
    p.set_param(ParKey::M2, Some(0.2));
    p.apply_default_masses(1.4, 0.5);
    assert_eq!(p.m_pulsar, Some(1.4));
    assert_eq!(p.m_companion, Some(0.2));
    assert!(p.has_well_constrained_masses());
}

#[test]
fn raman_lines_are_split_at_tabs() {
    let f = parse_raman_line("12\t2019-05-01\t10:00:00\tx\t0.5\ty\t0.61\t0.02").expect("a shot");
    assert_eq!(f.iteration, 12);
    assert_eq!(f.timestamp, "2019-05-01 10:00:00");
    assert_eq!(f.phase_rad, "0.5");
    assert_eq!(f.ratio_mean, "0.61");
    assert_eq!(f.ratio_std_dev, "0.02");
    assert!(parse_raman_line("# iter\tdate").is_none());
    assert!(parse_raman_line("").is_none());
    assert!(parse_raman_line("a\tb\tc\td\te\tf\tg\th").is_none());
    assert!(parse_raman_line("1\tb\tc\td\te\tf\tg").is_none());
    assert!(is_avg_ratios_file("Run3_AvgRatios-kD.txt"));
    assert!(!is_avg_ratios_file("Run3_Ratios.txt"));
}

#[test]
fn matlab_values_and_arrays() {
    let line: Vec<char> = "Temp = 7.5e-6; % K".chars().collect();
    assert_eq!(extract_matlab_value(&line, "Temp ="), Some("7.5e-6".to_string()));
    assert_eq!(extract_matlab_value(&line, "Pe ="), None);
    let content: Vec<char> = "Freq_data = [1.0, 2.5 ...\n 3e2]; % comment".chars().collect();
    assert_eq!(
        parse_matlab_array(&content),
        strings(&["Freq_data", "=", "1.0", "2.5", "3e2", "comment"])
    );
}

#[test]
fn elevator_script_arrays_span_lines() {
    let lines = strings(&[
        "Temp = 7.5e-6;",
        "Freq_data = [1 2",
        "3];",
        "Pe = [0.1 0.2];",
        "Residual = [5]",
        "Ratio_data = [9 ...",
        "8]",
        "Temp = 8e-6",
    ]);
    let a = scan_elevator_lines(&lines);
    assert_eq!(a.freq, strings(&["Freq_data", "=", "1", "2", "3"]));
    assert_eq!(a.pe, strings(&["Pe", "=", "0.1", "0.2"]));
    assert_eq!(a.ratio, strings(&["Ratio_data", "=", "9", "8"]));
    assert!(a.residual.is_empty());
    assert_eq!(a.temperatures, strings(&["7.5e-6", "8e-6"]));
}

#[test]
fn gm_column_skips_header_and_short_rows() {
    let lines = strings(&[
        "Timestamp,R_A,R_B,Delta_H_km,GM,Error_Pct",
        "1,2,3,4,3.986e14,0.1",
        "bad",
        "a,b,c,d,e",
    ]);
    assert_eq!(gm_value_fields(&lines), strings(&["3.986e14", "e"]));
    assert!(gm_value_fields(&strings(&["1,2,3,4,5"])).is_empty());
}

#[test]
fn omni_rows_of_the_storm_window() {
    let r = parse_omni_line("2017 247  5 1 2 33 -20 85.2").expect("in window");
    assert_eq!(r.timestamp, 1504501200);
    assert_eq!(r.kp_index, "33");
    assert_eq!(r.dst_index, "-20");
    assert_eq!(r.f10_7_index, "85.2");
    assert!(parse_omni_line("2017 239 5 1 2 33 -20 85.2").is_none());
    assert!(parse_omni_line("2017 281 5 1 2 33 -20 85.2").is_none());
    assert!(parse_omni_line("2017 247 24 1 2 33 -20 85.2").is_none());
    assert!(parse_omni_line("2016 247 5 1 2 33 -20 85.2").is_none());
    assert!(parse_omni_line("2017 247 5 1 2 33 -20").is_none());
    assert!(parse_omni_line("YEAR DOY HR").is_none());
    assert!(parse_omni_line("+2017 247 5 1 2 33 -20 85.2").is_none());
    let first = parse_omni_line("2017 240 0 0 0 0 0 0").unwrap();
    assert_eq!(first.timestamp, 1503878400);
}

#[test]
fn lines_follow_str_lines() {
    assert_eq!(lines_of("a\r\nb\n\nc\r"), strings(&["a", "b", "", "c\r"]));
    assert!(lines_of("").is_empty());
    assert_eq!(lines_of("x\n"), strings(&["x"]));
}
