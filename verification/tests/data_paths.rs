use chrono_data_manager::data_manager::{DataError, DataManager};
use chrono_data_manager::paths::{
    get_data_output_path, get_data_root_path, get_gnss_data_input_path, get_ipta_data_path,
    get_nanograv_data_path, get_sparc_data_path, get_zenodo_data_path, DataPath,
};

const CRATE_DIR: &str = "/work/chrono_data_manager";

#[test]
fn test_get_sparc_data_path() {
    let path = get_sparc_data_path(CRATE_DIR);
    assert!(path.as_str().contains("sparc"));
}

#[test]
fn default_paths_hang_below_the_crate_directory() {
    assert_eq!(get_data_root_path(CRATE_DIR).as_str(), "/work/chrono_data_manager/data");
    assert_eq!(get_gnss_data_input_path(CRATE_DIR).as_str(), "/work/chrono_data_manager/data/gnss");
    assert_eq!(get_sparc_data_path(CRATE_DIR).as_str(), "/work/chrono_data_manager/data/zenodo/sparc");
    assert_eq!(get_zenodo_data_path(CRATE_DIR).as_str(), "/work/chrono_data_manager/data/zenodo");
    assert_eq!(
        get_ipta_data_path(CRATE_DIR).as_str(),
        "/work/chrono_data_manager/data/ipta/DR2-master/release/VersionB"
    );
    assert_eq!(
        get_nanograv_data_path(CRATE_DIR).as_str(),
        "/work/chrono_data_manager/data/zenodo/nanograv"
    );
    assert_eq!(
        get_data_output_path(CRATE_DIR, "gqcd_chrono_mass").as_str(),
        "/work/chrono_data_manager/data/output/gqcd_chrono_mass"
    );
}

#[test]
fn push_follows_pathbuf_rules() {
    let mut p = DataPath::from_str("a/");
    p.push("b");
    assert_eq!(p.as_str(), "a/b");
    let mut q = DataPath::from_str("a");
    q.push("/abs");
    assert_eq!(q.as_str(), "/abs");
    let mut e = DataPath::from_str("");
    e.push("x");
    assert_eq!(e.as_str(), "x");
    assert_eq!(get_data_output_path("/r", "/tmp/out").as_str(), "/tmp/out");
}

#[test]
fn manager_uses_overrides_then_defaults() {
    let dm = DataManager::new();
    assert_eq!(dm.get_sparc_data_path(CRATE_DIR).as_str(), "/work/chrono_data_manager/data/zenodo/sparc");
    let dm2 = DataManager::with_paths(
        None,
        Some(DataPath::from_str("/z")),
        Some(DataPath::from_str("/i")),
        None,
        Some(DataPath::from_str("/s")),
        Some(DataPath::from_str("/p")),
    );
    assert_eq!(dm2.get_interferometry_data_path(CRATE_DIR).as_str(), "/z");
    assert_eq!(dm2.get_pta_ipta_path(CRATE_DIR).as_str(), "/i");
    assert_eq!(dm2.get_pta_nanograv_path(CRATE_DIR).as_str(), "/work/chrono_data_manager/data/zenodo/nanograv");
    assert_eq!(dm2.get_sparc_data_path(CRATE_DIR).as_str(), "/s");
    assert_eq!(dm2.sparc_rotmod_dir(CRATE_DIR).as_str(), "/s/Rotmod_LTG");
}

#[test]
fn galaxies_are_listed_sorted_from_dat_files() {
    let dm = DataManager::new();
    let entries = vec![
        "UGC00128_rotmod.dat".to_string(),
        "NGC6503_rotmod.dat".to_string(),
        "README.txt".to_string(),
        ".dat".to_string(),
        "DDO154_rotmod.dat".to_string(),
        "NGC0024_rotmod.dat".to_string(),
    ];
    let names = dm.list_sparc_galaxies(Some(entries)).unwrap();
    assert_eq!(names, vec!["DDO154", "NGC0024", "NGC6503", "UGC00128"]);
    assert_eq!(dm.list_sparc_galaxies(None), Err(DataError::NotFound));
}
