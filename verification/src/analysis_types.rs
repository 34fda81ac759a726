//! Result records of the chronometric analyses. `R` is the type of the real
//! numbers; the records only hold values.

use vstd::prelude::*;

verus! {

/// Physical constants and the time delay used by the observatory analysis.
#[derive(Clone, Copy, Debug)]
pub struct ObservatoryConfigParams<R> {
    /// Gravitational constant (NIST), m³/(kg s²).
    pub g_ref: R,
    /// Speed of light, m/s.
    pub c: R,
    /// Geocentric gravitational constant, m³/s².
    pub gm_earth: R,
    /// Delay of the pseudo-2T reading (s).
    pub time_delay_s: u64,
}

/// The state of one satellite at an epoch.
#[derive(Clone, Debug)]
pub struct SatelliteStateR<R> {
    pub sat_id: String,
    /// Clock bias (ns).
    pub clock_bias_ns: R,
    /// ECEF position (m).
    pub x_m: R,
    pub y_m: R,
    pub z_m: R,
    /// Distance from the Earth's centre (m).
    pub radius_m: R,
}

/// Gravitational-wave indicators of a satellite pair.
#[derive(Clone, Debug)]
pub struct GwAnalysisResults<R> {
    /// Strain from geodesic deviation (Δa / a).
    pub geodesic_strain: R,
    /// Strain from timing residuals.
    pub timing_strain: R,
    /// Hellings-Downs correlation coefficient.
    pub hellings_downs_correlation: R,
    /// Angular separation of the pair (rad).
    pub angular_separation_rad: R,
    /// Correlation expected for an isotropic background.
    pub expected_hd_correlation: R,
    /// How well the measured correlation matches the expected one.
    pub hd_significance: R,
}

/// One component of a power spectrum.
#[derive(Clone, Debug)]
pub struct SpectralComponent<R> {
    pub frequency_hz: R,
    pub power: R,
    pub period_hr: R,
}

/// The spectral powers at the periods of interest.
#[derive(Clone, Debug, Default)]
pub struct SpectralPeaks<R> {
    /// Earth orbit (12 h).
    pub peak_12h_power: R,
    /// Galileo orbit (14 h).
    pub peak_14h_power: R,
    /// Moon (27 d).
    pub peak_27d_power: R,
    /// Nanohertz background.
    pub nhz_background_power: R,
}

/// Eigen-decomposition of the covariance of five satellites.
#[derive(Clone, Debug)]
pub struct SwarmCovarianceResult<R> {
    pub eigenvalues: [R; 5],
    pub eigenvectors: [[R; 5]; 5],
    /// Power of the quadrupole modes.
    pub quadrupole_power: R,
    /// Power of the common mode.
    pub monopole_power: R,
}

/// Eigen-decomposition of the covariance of any number of satellites.
#[derive(Clone, Debug)]
pub struct DynamicSwarmResult<R> {
    pub eigenvalues: Vec<R>,
    pub eigenvectors: Vec<Vec<R>>,
    pub quadrupole_power: R,
    pub monopole_power: R,
    pub num_satellites: usize,
}

/// A principal-component analysis.
#[derive(Clone, Debug)]
pub struct PcaResult<R> {
    pub eigenvalues: Vec<R>,
    pub eigenvectors: Vec<Vec<R>>,
    pub variance_explained: Vec<R>,
    /// The components.
    pub loadings: Vec<Vec<R>>,
}

/// The Earth's mass derived from one dataset.
#[derive(Clone, Debug)]
pub struct MassDerivationResult<R> {
    pub dataset_name: String,
    pub derived_gm: R,
    pub derived_mass: R,
    pub derived_gravity: R,
    pub gm_error_percent: R,
    pub mass_error_percent: R,
    pub filtered_values: Vec<R>,
}

/// The Moon's mass and distance derived from the gravity map.
#[derive(Clone, Copy, Debug)]
pub struct LunarParameters<T> {
    pub mass_kg: T,
    pub distance_m: T,
    pub mass_error_pct: T,
    pub distance_error_pct: T,
}

} // verus!
