//! Records of the loaded datasets. `R` is the type of the real numbers; the
//! records only hold values, so nothing here depends on what `R` is.

use vstd::prelude::*;

verus! {

/// One Raman interferometry shot of the arbitrary-orientation runs.
#[derive(Clone, Debug)]
pub struct RamanShot<R> {
    iteration: u32,
    timestamp: String,
    phase_rad: R,
    ratio_mean: R,
    ratio_std_dev: R,
}

impl<R> RamanShot<R> {
    /// Iteration counter of the run.
    pub closed spec fn iteration_value(&self) -> u32 {
        self.iteration
    }

    /// Date and time of the shot.
    pub closed spec fn timestamp_value(&self) -> Seq<char> {
        self.timestamp@
    }

    /// Interferometer phase (rad).
    pub closed spec fn phase_rad_value(&self) -> R {
        self.phase_rad
    }

    /// Mean population ratio (the fringe).
    pub closed spec fn ratio_mean_value(&self) -> R {
        self.ratio_mean
    }

    /// Uncertainty of the ratio.
    pub closed spec fn ratio_std_dev_value(&self) -> R {
        self.ratio_std_dev
    }

    /// A record holding the given values.
    pub fn new(iteration: u32, timestamp: String, phase_rad: R, ratio_mean: R, ratio_std_dev: R) -> (r: Self)
        ensures
            r.iteration_value() == iteration,
            r.timestamp_value() == timestamp@,
            r.phase_rad_value() == phase_rad,
            r.ratio_mean_value() == ratio_mean,
            r.ratio_std_dev_value() == ratio_std_dev,
    {
        RamanShot { iteration, timestamp, phase_rad, ratio_mean, ratio_std_dev }
    }

    /// Iteration counter of the run.
    pub fn iteration(&self) -> (r: u32)
        ensures
            r == self.iteration_value(),
    {
        self.iteration
    }

    /// Date and time of the shot.
    pub fn timestamp(&self) -> (r: &str)
        ensures
            r@ == self.timestamp_value(),
    {
        self.timestamp.as_str()
    }

    /// Interferometer phase (rad).
    pub fn phase_rad(&self) -> (r: R)
        where
            R: Copy,
        ensures
            r == self.phase_rad_value(),
    {
        self.phase_rad
    }

    /// Mean population ratio (the fringe).
    pub fn ratio_mean(&self) -> (r: R)
        where
            R: Copy,
        ensures
            r == self.ratio_mean_value(),
    {
        self.ratio_mean
    }

    /// Uncertainty of the ratio.
    pub fn ratio_std_dev(&self) -> (r: R)
        where
            R: Copy,
        ensures
            r == self.ratio_std_dev_value(),
    {
        self.ratio_std_dev
    }

}

/// The arrays and settings of the Einstein-elevator run.
#[derive(Clone, Debug)]
pub struct EinsteinElevatorData<R> {
    freq_data: Vec<R>,
    ratio_data: Vec<R>,
    pe_simulated: Vec<R>,
    residual: Vec<R>,
    interrogation_time_s: R,
    temperature_k: R,
}

impl<R> EinsteinElevatorData<R> {
    /// Frequency sweep (Hz).
    pub closed spec fn freq_data_value(&self) -> Seq<R> {
        self.freq_data@
    }

    /// Population ratios.
    pub closed spec fn ratio_data_value(&self) -> Seq<R> {
        self.ratio_data@
    }

    /// Simulated transition probability.
    pub closed spec fn pe_simulated_value(&self) -> Seq<R> {
        self.pe_simulated@
    }

    /// Model minus experiment.
    pub closed spec fn residual_value(&self) -> Seq<R> {
        self.residual@
    }

    /// Interrogation time T (s).
    pub closed spec fn interrogation_time_s_value(&self) -> R {
        self.interrogation_time_s
    }

    /// Atom temperature (K).
    pub closed spec fn temperature_k_value(&self) -> R {
        self.temperature_k
    }

    /// A record holding the given values.
    pub fn new(freq_data: Vec<R>, ratio_data: Vec<R>, pe_simulated: Vec<R>, residual: Vec<R>, interrogation_time_s: R, temperature_k: R) -> (r: Self)
        ensures
            r.freq_data_value() == freq_data@,
            r.ratio_data_value() == ratio_data@,
            r.pe_simulated_value() == pe_simulated@,
            r.residual_value() == residual@,
            r.interrogation_time_s_value() == interrogation_time_s,
            r.temperature_k_value() == temperature_k,
    {
        EinsteinElevatorData { freq_data, ratio_data, pe_simulated, residual, interrogation_time_s, temperature_k }
    }

    /// Frequency sweep (Hz).
    pub fn freq_data(&self) -> (r: &Vec<R>)
        ensures
            r@ == self.freq_data_value(),
    {
        &self.freq_data
    }

    /// Population ratios.
    pub fn ratio_data(&self) -> (r: &Vec<R>)
        ensures
            r@ == self.ratio_data_value(),
    {
        &self.ratio_data
    }

    /// Simulated transition probability.
    pub fn pe_simulated(&self) -> (r: &Vec<R>)
        ensures
            r@ == self.pe_simulated_value(),
    {
        &self.pe_simulated
    }

    /// Model minus experiment.
    pub fn residual(&self) -> (r: &Vec<R>)
        ensures
            r@ == self.residual_value(),
    {
        &self.residual
    }

    /// Interrogation time T (s).
    pub fn interrogation_time_s(&self) -> (r: R)
        where
            R: Copy,
        ensures
            r == self.interrogation_time_s_value(),
    {
        self.interrogation_time_s
    }

    /// Atom temperature (K).
    pub fn temperature_k(&self) -> (r: R)
        where
            R: Copy,
        ensures
            r == self.temperature_k_value(),
    {
        self.temperature_k
    }

}

/// Results of comparing the measured interferometer phase with the predicted action.
#[derive(Clone, Debug)]
pub struct ActionPhaseResults<R> {
    sample_size: usize,
    t_field_gradient: R,
    mean_phase_rad: R,
    action_measured_j_s: R,
    action_predicted_j_s: R,
    action_ratio: R,
    phase_std_dev: R,
    energy_balance_ratio: R,
}

impl<R> ActionPhaseResults<R> {
    /// Number of shots.
    pub closed spec fn sample_size_value(&self) -> usize {
        self.sample_size
    }

    /// Gradient of the time field, g/c² (s/m).
    pub closed spec fn t_field_gradient_value(&self) -> R {
        self.t_field_gradient
    }

    /// Mean measured phase (rad).
    pub closed spec fn mean_phase_rad_value(&self) -> R {
        self.mean_phase_rad
    }

    /// Action from the phase, ħΔφ (J s).
    pub closed spec fn action_measured_j_s_value(&self) -> R {
        self.action_measured_j_s
    }

    /// Predicted action, -mc²Δτ (J s).
    pub closed spec fn action_predicted_j_s_value(&self) -> R {
        self.action_predicted_j_s
    }

    /// Measured over predicted action.
    pub closed spec fn action_ratio_value(&self) -> R {
        self.action_ratio
    }

    /// Standard deviation of the phase.
    pub closed spec fn phase_std_dev_value(&self) -> R {
        self.phase_std_dev
    }

    /// Energy balance ratio.
    pub closed spec fn energy_balance_ratio_value(&self) -> R {
        self.energy_balance_ratio
    }

    /// A record holding the given values.
    pub fn new(sample_size: usize, t_field_gradient: R, mean_phase_rad: R, action_measured_j_s: R, action_predicted_j_s: R, action_ratio: R, phase_std_dev: R, energy_balance_ratio: R) -> (r: Self)
        ensures
            r.sample_size_value() == sample_size,
            r.t_field_gradient_value() == t_field_gradient,
            r.mean_phase_rad_value() == mean_phase_rad,
            r.action_measured_j_s_value() == action_measured_j_s,
            r.action_predicted_j_s_value() == action_predicted_j_s,
            r.action_ratio_value() == action_ratio,
            r.phase_std_dev_value() == phase_std_dev,
            r.energy_balance_ratio_value() == energy_balance_ratio,
    {
        ActionPhaseResults { sample_size, t_field_gradient, mean_phase_rad, action_measured_j_s, action_predicted_j_s, action_ratio, phase_std_dev, energy_balance_ratio }
    }

    /// Number of shots.
    pub fn sample_size(&self) -> (r: usize)
        ensures
            r == self.sample_size_value(),
    {
        self.sample_size
    }

    /// Gradient of the time field, g/c² (s/m).
    pub fn t_field_gradient(&self) -> (r: R)
        where
            R: Copy,
        ensures
            r == self.t_field_gradient_value(),
    {
        self.t_field_gradient
    }

    /// Mean measured phase (rad).
    pub fn mean_phase_rad(&self) -> (r: R)
        where
            R: Copy,
        ensures
            r == self.mean_phase_rad_value(),
    {
        self.mean_phase_rad
    }

    /// Action from the phase, ħΔφ (J s).
    pub fn action_measured_j_s(&self) -> (r: R)
        where
            R: Copy,
        ensures
            r == self.action_measured_j_s_value(),
    {
        self.action_measured_j_s
    }

    /// Predicted action, -mc²Δτ (J s).
    pub fn action_predicted_j_s(&self) -> (r: R)
        where
            R: Copy,
        ensures
            r == self.action_predicted_j_s_value(),
    {
        self.action_predicted_j_s
    }

    /// Measured over predicted action.
    pub fn action_ratio(&self) -> (r: R)
        where
            R: Copy,
        ensures
            r == self.action_ratio_value(),
    {
        self.action_ratio
    }

    /// Standard deviation of the phase.
    pub fn phase_std_dev(&self) -> (r: R)
        where
            R: Copy,
        ensures
            r == self.phase_std_dev_value(),
    {
        self.phase_std_dev
    }

    /// Energy balance ratio.
    pub fn energy_balance_ratio(&self) -> (r: R)
        where
            R: Copy,
        ensures
            r == self.energy_balance_ratio_value(),
    {
        self.energy_balance_ratio
    }

}

/// One hourly OMNI space-weather record.
#[derive(Clone, Debug)]
pub struct OmniRecord<R> {
    timestamp: i64,
    dst_index: R,
    kp_index: R,
    f10_7_index: R,
}

impl<R> OmniRecord<R> {
    /// UNIX timestamp (s).
    pub closed spec fn timestamp_value(&self) -> i64 {
        self.timestamp
    }

    /// Dst index (storm intensity).
    pub closed spec fn dst_index_value(&self) -> R {
        self.dst_index
    }

    /// Kp index (geomagnetic activity).
    pub closed spec fn kp_index_value(&self) -> R {
        self.kp_index
    }

    /// F10.7 solar radio flux.
    pub closed spec fn f10_7_index_value(&self) -> R {
        self.f10_7_index
    }

    /// A record holding the given values.
    pub fn new(timestamp: i64, dst_index: R, kp_index: R, f10_7_index: R) -> (r: Self)
        ensures
            r.timestamp_value() == timestamp,
            r.dst_index_value() == dst_index,
            r.kp_index_value() == kp_index,
            r.f10_7_index_value() == f10_7_index,
    {
        OmniRecord { timestamp, dst_index, kp_index, f10_7_index }
    }

    /// UNIX timestamp (s).
    pub fn timestamp(&self) -> (r: i64)
        ensures
            r == self.timestamp_value(),
    {
        self.timestamp
    }

    /// Dst index (storm intensity).
    pub fn dst_index(&self) -> (r: R)
        where
            R: Copy,
        ensures
            r == self.dst_index_value(),
    {
        self.dst_index
    }

    /// Kp index (geomagnetic activity).
    pub fn kp_index(&self) -> (r: R)
        where
            R: Copy,
        ensures
            r == self.kp_index_value(),
    {
        self.kp_index
    }

    /// F10.7 solar radio flux.
    pub fn f10_7_index(&self) -> (r: R)
        where
            R: Copy,
        ensures
            r == self.f10_7_index_value(),
    {
        self.f10_7_index
    }

}

/// Swarm statistics of one hour.
#[derive(Clone, Debug)]
pub struct HourlyStats<R> {
    timestamp: i64,
    variance_ns2: R,
    sat_count: usize,
}

impl<R> HourlyStats<R> {
    /// UNIX timestamp of the start of the hour.
    pub closed spec fn timestamp_value(&self) -> i64 {
        self.timestamp
    }

    /// Median variance of the swarm (ns²).
    pub closed spec fn variance_ns2_value(&self) -> R {
        self.variance_ns2
    }

    /// Number of satellites that contributed.
    pub closed spec fn sat_count_value(&self) -> usize {
        self.sat_count
    }

    /// A record holding the given values.
    pub fn new(timestamp: i64, variance_ns2: R, sat_count: usize) -> (r: Self)
        ensures
            r.timestamp_value() == timestamp,
            r.variance_ns2_value() == variance_ns2,
            r.sat_count_value() == sat_count,
    {
        HourlyStats { timestamp, variance_ns2, sat_count }
    }

    /// UNIX timestamp of the start of the hour.
    pub fn timestamp(&self) -> (r: i64)
        ensures
            r == self.timestamp_value(),
    {
        self.timestamp
    }

    /// Median variance of the swarm (ns²).
    pub fn variance_ns2(&self) -> (r: R)
        where
            R: Copy,
        ensures
            r == self.variance_ns2_value(),
    {
        self.variance_ns2
    }

    /// Number of satellites that contributed.
    pub fn sat_count(&self) -> (r: usize)
        ensures
            r == self.sat_count_value(),
    {
        self.sat_count
    }

}

/// A magnetic field scenario near a clock.
#[derive(Clone, Debug)]
pub struct MhdScenario<R> {
    name: String,
    b_field_tesla: R,
    volume_m3: R,
    distance_m: R,
}

impl<R> MhdScenario<R> {
    /// Name of the scenario.
    pub closed spec fn name_value(&self) -> Seq<char> {
        self.name@
    }

    /// Field strength (T).
    pub closed spec fn b_field_tesla_value(&self) -> R {
        self.b_field_tesla
    }

    /// Characteristic volume of the field (m³).
    pub closed spec fn volume_m3_value(&self) -> R {
        self.volume_m3
    }

    /// Distance from the field centre to the clock (m).
    pub closed spec fn distance_m_value(&self) -> R {
        self.distance_m
    }

    /// A record holding the given values.
    pub fn new(name: String, b_field_tesla: R, volume_m3: R, distance_m: R) -> (r: Self)
        ensures
            r.name_value() == name@,
            r.b_field_tesla_value() == b_field_tesla,
            r.volume_m3_value() == volume_m3,
            r.distance_m_value() == distance_m,
    {
        MhdScenario { name, b_field_tesla, volume_m3, distance_m }
    }

    /// Name of the scenario.
    pub fn name(&self) -> (r: &str)
        ensures
            r@ == self.name_value(),
    {
        self.name.as_str()
    }

    /// Field strength (T).
    pub fn b_field_tesla(&self) -> (r: R)
        where
            R: Copy,
        ensures
            r == self.b_field_tesla_value(),
    {
        self.b_field_tesla
    }

    /// Characteristic volume of the field (m³).
    pub fn volume_m3(&self) -> (r: R)
        where
            R: Copy,
        ensures
            r == self.volume_m3_value(),
    {
        self.volume_m3
    }

    /// Distance from the field centre to the clock (m).
    pub fn distance_m(&self) -> (r: R)
        where
            R: Copy,
        ensures
            r == self.distance_m_value(),
    {
        self.distance_m
    }

}

/// One time of arrival of a pulsar, as an IPTA `.tim` file gives it.
#[derive(Clone, Debug)]
pub struct PulsarDataPoint<R> {
    /// UNIX timestamp (s) of the arrival.
    pub timestamp_unix: i64,
    /// Modified Julian Date of the arrival.
    pub mjd: R,
    /// Error of the arrival time (µs).
    pub error_us: R,
    /// Observing frequency (MHz).
    pub freq_mhz: R,
    /// Timing residual (s); zero until a timing model is subtracted.
    pub residual_s: R,
}

/// The arrivals of one pulsar.
#[derive(Clone, Debug)]
pub struct PulsarObservation<R> {
    pub name: String,
    pub observations: Vec<PulsarDataPoint<R>>,
}

/// One timing residual of a NANOGrav residual file.
#[derive(Clone, Debug)]
pub struct TimingResidual<R> {
    pub mjd: R,
    pub residual_ns: R,
    pub uncertainty_ns: R,
}

/// One raw time of arrival of a NANOGrav `.tim` file.
#[derive(Clone, Debug)]
pub struct RawTOA<R> {
    pub mjd: R,
    pub frequency_mhz: R,
    pub error_us: R,
}

} // verus!
