//! Verified core of the GNSS chronometric data tooling: dataset naming,
//! data-directory layout, calendar filtering and the text formats of the
//! observation files.

pub mod text;
pub mod datasets;
pub mod order;
pub mod paths;
pub mod data_manager;
pub mod calendar;
pub mod anomaly_filter;
pub mod observatory;
pub mod sparc;
pub mod pulsar;
pub mod interferometry;
pub mod omni;
pub mod windowing;
pub mod records;
pub mod analysis_types;
pub mod mass_data;
