//! The satellite fleet of the observatory, anomaly tiers, and the five-clock
//! (5T) measurement slots.

use crate::order::{
    is_stable_order, latest_with_key, latest_with_key_in_order, law_stable_order_is_sorted_permutation,
    law_stable_order_unique, lemma_latest_with_key, stable_order, stable_order_by_key,
};
use crate::text::{chars_of, starts_with, starts_with_exec};
use vstd::prelude::*;

verus! {

/// Shape of a satellite orbit.
#[derive(Clone, Copy, Debug, PartialEq, Eq)]
pub enum OrbitType {
    /// Stable orbit, constant altitude.
    Circular,
    /// Varying altitude (E14, E18 were launched into a wrong orbit).
    Eccentric,
}

/// What a satellite's clock is used for.
#[derive(Clone, Copy, Debug, PartialEq, Eq)]
pub enum SatelliteRole {
    /// Stable clock for the baseline.
    Reference,
    /// Clock in a varying gravitational potential.
    Dynamic,
}

/// One satellite of the observatory fleet.
#[derive(Clone, Copy, Debug)]
pub struct SatelliteConfig {
    pub id: &'static str,
    pub orbit_type: OrbitType,
    pub role: SatelliteRole,
}

/// The seven satellites of the fleet, in the order of the analysis matrices:
/// E14 and E18 (eccentric, dynamic), then E12, E11, E19, E08, E09 (circular,
/// reference).
pub fn observatory_config() -> (r: Vec<SatelliteConfig>)
    ensures
        r@.len() == 7,
        r@[0].id@ == "E14"@ && r@[1].id@ == "E18"@ && r@[2].id@ == "E12"@ && r@[3].id@ == "E11"@ && r@[4].id@ == "E19"@ && r@[5].id@ == "E08"@ && r@[6].id@ == "E09"@,
        forall|i: int| 0 <= i < 2 ==> #[trigger] r@[i].orbit_type == OrbitType::Eccentric && r@[i].role == SatelliteRole::Dynamic,
        forall|i: int| 2 <= i < 7 ==> #[trigger] r@[i].orbit_type == OrbitType::Circular && r@[i].role == SatelliteRole::Reference,
{
    let mut r: Vec<SatelliteConfig> = Vec::new();
    r.push(SatelliteConfig { id: "E14", orbit_type: OrbitType::Eccentric, role: SatelliteRole::Dynamic });
    r.push(SatelliteConfig { id: "E18", orbit_type: OrbitType::Eccentric, role: SatelliteRole::Dynamic });
    r.push(SatelliteConfig { id: "E12", orbit_type: OrbitType::Circular, role: SatelliteRole::Reference });
    r.push(SatelliteConfig { id: "E11", orbit_type: OrbitType::Circular, role: SatelliteRole::Reference });
    r.push(SatelliteConfig { id: "E19", orbit_type: OrbitType::Circular, role: SatelliteRole::Reference });
    r.push(SatelliteConfig { id: "E08", orbit_type: OrbitType::Circular, role: SatelliteRole::Reference });
    r.push(SatelliteConfig { id: "E09", orbit_type: OrbitType::Circular, role: SatelliteRole::Reference });
    r
}

/// Significance tier of a detected anomaly, by percentile of the null distribution.
#[derive(Clone, Copy, Debug, PartialEq, Eq)]
pub enum AnomalyTier {
    Normal,
    /// Above the 90th percentile.
    Elevated,
    /// Above the 99th percentile.
    Significant,
    /// Above the 99.9th percentile.
    Extreme,
}

/// The label of a tier in the anomaly table.
pub fn tier_label(tier: AnomalyTier) -> (s: &'static str)
    ensures
        s@ == match tier {
            AnomalyTier::Extreme => "EXTREME ***"@,
            AnomalyTier::Significant => "SIGNIF **"@,
            AnomalyTier::Elevated => "ELEVATED *"@,
            AnomalyTier::Normal => "NORMAL"@,
        },
{
    match tier {
        AnomalyTier::Extreme => "EXTREME ***",
        AnomalyTier::Significant => "SIGNIF **",
        AnomalyTier::Elevated => "ELEVATED *",
        AnomalyTier::Normal => "NORMAL",
    }
}

/// The status of a tier in the incident catalogue.
pub fn incident_status(tier: AnomalyTier) -> (s: &'static str)
    ensures
        s@ == match tier {
            AnomalyTier::Extreme => "CRITICAL"@,
            AnomalyTier::Significant => "SEVERE"@,
            AnomalyTier::Elevated => "MODERATE"@,
            AnomalyTier::Normal => "NORMAL"@,
        },
{
    match tier {
        AnomalyTier::Extreme => "CRITICAL",
        AnomalyTier::Significant => "SEVERE",
        AnomalyTier::Elevated => "MODERATE",
        AnomalyTier::Normal => "NORMAL",
    }
}

/// Whether an anomaly of this tier enters the incident list (significant or extreme).
pub fn is_incident_tier(tier: AnomalyTier) -> (r: bool)
    ensures
        r == (tier == AnomalyTier::Significant || tier == AnomalyTier::Extreme),
{
    match tier {
        AnomalyTier::Significant | AnomalyTier::Extreme => true,
        _ => false,
    }
}

/// A five-clock measurement at one epoch: E12 and E18 as references, and E14
/// at the epoch, one hour later and two hours later.
#[derive(Clone, Debug)]
pub struct FiveT<S> {
    pub timestamp: i64,
    pub t1_e12: Option<S>,
    pub t2_e18: Option<S>,
    pub t3_e14_t0: Option<S>,
    pub t4_e14_t1h: Option<S>,
    pub t5_e14_t2h: Option<S>,
}

impl<S> FiveT<S> {
    /// An empty measurement at `timestamp`.
    pub fn new(timestamp: i64) -> (f: FiveT<S>)
        ensures
            f.timestamp == timestamp,
            f.t1_e12 is None && f.t2_e18 is None && f.t3_e14_t0 is None && f.t4_e14_t1h is None && f.t5_e14_t2h is None,
    {
        FiveT {
            timestamp,
            t1_e12: None,
            t2_e18: None,
            t3_e14_t0: None,
            t4_e14_t1h: None,
            t5_e14_t2h: None,
        }
    }

    /// E14 is present at the epoch, with at least one reference clock.
    pub fn has_valid_differential(&self) -> (r: bool)
        ensures
            r == (self.t3_e14_t0 is Some && (self.t1_e12 is Some || self.t2_e18 is Some)),
    {
        self.t3_e14_t0.is_some() && (self.t1_e12.is_some() || self.t2_e18.is_some())
    }

    /// All five clocks are present.
    pub fn is_complete(&self) -> (r: bool)
        ensures
            r == (self.t1_e12 is Some && self.t2_e18 is Some && self.t3_e14_t0 is Some && self.t4_e14_t1h is Some && self.t5_e14_t2h is Some),
    {
        self.t1_e12.is_some() && self.t2_e18.is_some() && self.t3_e14_t0.is_some()
            && self.t4_e14_t1h.is_some() && self.t5_e14_t2h.is_some()
    }
}

/// A complete measurement always has a valid differential.
pub proof fn law_complete_has_differential<S>(f: FiveT<S>)
    ensures
        (f.t1_e12 is Some && f.t2_e18 is Some && f.t3_e14_t0 is Some && f.t4_e14_t1h is Some && f.t5_e14_t2h is Some) ==> (f.t3_e14_t0 is Some && (f.t1_e12 is Some || f.t2_e18 is Some)),
{
}

/// Lattice shape used per epoch: 8 sites along each of the four axes.
pub const DEFAULT_LATTICE_SHAPE: [usize; 4] = [8, 8, 8, 8];

/// The number of sites of the default lattice: the product of its shape.
pub fn default_lattice_sites() -> (n: usize)
    ensures
        n == 8 * 8 * 8 * 8,
{
    let shape = DEFAULT_LATTICE_SHAPE;
    let mut n: usize = 1;
    let mut i: usize = 0;
    while i < 4
        invariant
            shape@ == seq![8usize, 8, 8, 8],
            i <= 4,
            n == if i == 0 { 1usize } else if i == 1 { 8 } else if i == 2 { 64 } else if i == 3 { 512 } else { 4096 },
        decreases 4 - i,
    {
        n = n * shape[i];
        i = i + 1;
    }
    n
}

/// Which of the clocks of a 5T measurement an epoch of the fleet holds.
#[derive(Clone, Copy, Debug, PartialEq, Eq)]
pub struct EpochClocks {
    pub timestamp: i64,
    pub has_e12: bool,
    pub has_e18: bool,
    pub has_e14: bool,
}

/// Delay of the pseudo-2T reading of E14 after the epoch (seconds).
pub const TIME_DELAY_S: u64 = 7200;

/// Delay of the one-hour reading of E14 after the epoch (seconds).
pub const ONE_HOUR_S: i64 = 3600;

pub open spec fn epoch_keys(epochs: Seq<EpochClocks>) -> Seq<i64> {
    epochs.map_values(|e: EpochClocks| e.timestamp)
}

/// The epoch that gives the E14 reading at time `t`: the last epoch at `t`,
/// when it holds E14.
pub open spec fn e14_at(epochs: Seq<EpochClocks>, t: int) -> Option<usize> {
    match latest_with_key(epoch_keys(epochs), t) {
        Some(k) => if epochs[k].has_e14 {
            Some(k as usize)
        } else {
            None
        },
        None => None,
    }
}

/// The 5T measurement at epoch `j`, each clock given by the position of the
/// epoch that holds its reading.
pub open spec fn five_t_of(epochs: Seq<EpochClocks>, j: int) -> FiveT<usize> {
    let e = epochs[j];
    FiveT {
        timestamp: e.timestamp,
        t1_e12: if e.has_e12 {
            Some(j as usize)
        } else {
            None
        },
        t2_e18: if e.has_e18 {
            Some(j as usize)
        } else {
            None
        },
        t3_e14_t0: if e.has_e14 {
            Some(j as usize)
        } else {
            None
        },
        t4_e14_t1h: e14_at(epochs, e.timestamp + ONE_HOUR_S),
        t5_e14_t2h: e14_at(epochs, e.timestamp + TIME_DELAY_S),
    }
}

/// How many of the five clocks a measurement holds.
pub open spec fn clock_count<S>(f: FiveT<S>) -> int {
    (if f.t1_e12 is Some { 1int } else { 0 }) + (if f.t2_e18 is Some { 1int } else { 0 }) + (
    if f.t3_e14_t0 is Some { 1int } else { 0 }) + (if f.t4_e14_t1h is Some { 1int } else { 0 })
        + (if f.t5_e14_t2h is Some { 1int } else { 0 })
}

/// The measurements with at least three clocks, taking the epochs in the
/// order `p`.
pub open spec fn five_t_fields(epochs: Seq<EpochClocks>, p: Seq<usize>) -> Seq<FiveT<usize>>
    decreases p.len(),
{
    if p.len() == 0 {
        seq![]
    } else {
        let prev = five_t_fields(epochs, p.drop_last());
        let f = five_t_of(epochs, p.last() as int);
        if clock_count(f) >= 3 {
            prev.push(f)
        } else {
            prev
        }
    }
}

fn count_present(f: &FiveT<usize>) -> (n: u8)
    ensures
        n == clock_count(*f),
{
    let mut n: u8 = 0;
    if f.t1_e12.is_some() {
        n = n + 1;
    }
    if f.t2_e18.is_some() {
        n = n + 1;
    }
    if f.t3_e14_t0.is_some() {
        n = n + 1;
    }
    if f.t4_e14_t1h.is_some() {
        n = n + 1;
    }
    if f.t5_e14_t2h.is_some() {
        n = n + 1;
    }
    n
}

fn e14_at_exec(epochs: &Vec<EpochClocks>, keys: &Vec<i64>, p: &Vec<usize>, t: i64) -> (r: Option<
    usize,
>)
    requires
        keys@ == epoch_keys(epochs@),
        is_stable_order(keys@, p@),
    ensures
        r == e14_at(epochs@, t as int),
{
    proof {
        lemma_latest_with_key(keys@, t as int);
    }
    match latest_with_key_in_order(keys, p, t) {
        Some(k) => if epochs[k].has_e14 {
            Some(k)
        } else {
            None
        },
        None => None,
    }
}

/// Builds the 5T measurements of a fleet: the epochs are taken in time order
/// (stably), and each one yields E12, E18 and E14 at the epoch, E14 one hour
/// later and E14 two hours later, each from the last epoch at that time; the
/// measurements with at least three clocks are kept.
pub fn build_5t_fields(epochs: &Vec<EpochClocks>) -> (r: Vec<FiveT<usize>>)
    requires
        forall|i: int| 0 <= i < epochs@.len() ==> #[trigger] epochs@[i].timestamp <= i64::MAX - 7200,
    ensures
        r@ == five_t_fields(epochs@, stable_order(epoch_keys(epochs@))),
        forall|p: Seq<usize>| #[trigger] is_stable_order(epoch_keys(epochs@), p) ==> r@ == five_t_fields(epochs@, p),
{
    let n = epochs.len();
    let mut keys: Vec<i64> = Vec::new();
    let mut i: usize = 0;
    while i < n
        invariant
            n == epochs@.len(),
            i <= n,
            keys@ == epoch_keys(epochs@).take(i as int),
        decreases n - i,
    {
        keys.push(epochs[i].timestamp);
        i = i + 1;
        assert(keys@ =~= epoch_keys(epochs@).take(i as int));
    }
    assert(keys@ =~= epoch_keys(epochs@));
    let p = stable_order_by_key(&keys);
    let mut r: Vec<FiveT<usize>> = Vec::new();
    let mut k: usize = 0;
    assert(p@.take(0) =~= Seq::<usize>::empty());
    while k < n
        invariant
            n == epochs@.len(),
            keys@ == epoch_keys(epochs@),
            is_stable_order(keys@, p@),
            k <= n,
            forall|i: int| 0 <= i < epochs@.len() ==> #[trigger] epochs@[i].timestamp <= i64::MAX - 7200,
            r@ == five_t_fields(epochs@, p@.take(k as int)),
        decreases n - k,
    {
        let j = p[k];
        let e = epochs[j];
        let ts = e.timestamp;
        let f = FiveT {
            timestamp: ts,
            t1_e12: if e.has_e12 {
                Some(j)
            } else {
                None
            },
            t2_e18: if e.has_e18 {
                Some(j)
            } else {
                None
            },
            t3_e14_t0: if e.has_e14 {
                Some(j)
            } else {
                None
            },
            t4_e14_t1h: e14_at_exec(epochs, &keys, &p, ts + ONE_HOUR_S),
            t5_e14_t2h: e14_at_exec(epochs, &keys, &p, ts + 7200),
        };
        assert(f == five_t_of(epochs@, j as int));
        assert(p@.take(k + 1).drop_last() =~= p@.take(k as int));
        assert(p@.take(k + 1).last() == j);
        if count_present(&f) >= 3 {
            r.push(f);
        }
        k = k + 1;
    }
    assert(p@.take(n as int) =~= p@);
    proof {
        assert forall|q: Seq<usize>| #[trigger] is_stable_order(epoch_keys(epochs@), q) implies r@
            == five_t_fields(epochs@, q) by {
            law_stable_order_unique(keys@, p@, q);
        }
    }
    r
}

pub open spec fn date_prefix(y0: char, y1: char, y2: char, y3: char, m0: char, m1: char) -> Seq<
    char,
> {
    seq![y0, y1, y2, y3, '-', m0, m1]
}

/// The phase of the constellation crisis that an incident's date (`YYYY-MM-...`)
/// falls in, refined by its satellite and by whether its PC2 variance exceeds
/// 25 % (`above_25`) and 22 % (`above_22`).
pub open spec fn incident_phase_spec(
    date: Seq<char>,
    satellite: Seq<char>,
    above_25: bool,
    above_22: bool,
) -> Seq<char> {
    if starts_with(date, date_prefix('2', '0', '1', '6', '0', '6')) {
        "Initial Signs"@
    } else if starts_with(date, date_prefix('2', '0', '1', '6', '0', '9')) {
        "Early Warning"@
    } else if starts_with(date, date_prefix('2', '0', '1', '6', '1', '1')) {
        if satellite == seq!['E', '1', '1'] && above_25 {
            "Crisis Origin"@
        } else {
            "Pre-Crisis"@
        }
    } else if starts_with(date, date_prefix('2', '0', '1', '7', '0', '1')) {
        "Public Ack"@
    } else if starts_with(date, date_prefix('2', '0', '1', '7', '0', '9')) {
        if above_22 {
            "Peak Crisis"@
        } else {
            "Escalation"@
        }
    } else {
        "Persistent"@
    }
}

/// The phase of an incident in the catalogue (see `incident_phase_spec`).
pub fn incident_phase(date: &str, satellite: &str, above_25: bool, above_22: bool) -> (r:
    &'static str)
    ensures
        r@ == incident_phase_spec(date@, satellite@, above_25, above_22),
{
    let d = chars_of(date);
    let s = chars_of(satellite);
    proof {
        reveal_strlit("2016-06");
        reveal_strlit("2016-09");
        reveal_strlit("2016-11");
        reveal_strlit("2017-01");
        reveal_strlit("2017-09");
        reveal_strlit("E11");
        assert("2016-06"@ =~= date_prefix('2', '0', '1', '6', '0', '6'));
        assert("2016-09"@ =~= date_prefix('2', '0', '1', '6', '0', '9'));
        assert("2016-11"@ =~= date_prefix('2', '0', '1', '6', '1', '1'));
        assert("2017-01"@ =~= date_prefix('2', '0', '1', '7', '0', '1'));
        assert("2017-09"@ =~= date_prefix('2', '0', '1', '7', '0', '9'));
    }
    let is_e11 = s.len() == 3 && s[0] == 'E' && s[1] == '1' && s[2] == '1';
    assert(is_e11 <==> s@ == seq!['E', '1', '1']) by {
        if is_e11 {
            assert(s@ =~= seq!['E', '1', '1']);
        }
    }
    if starts_with_exec(d.as_slice(), "2016-06") {
        "Initial Signs"
    } else if starts_with_exec(d.as_slice(), "2016-09") {
        "Early Warning"
    } else if starts_with_exec(d.as_slice(), "2016-11") {
        if is_e11 && above_25 {
            "Crisis Origin"
        } else {
            "Pre-Crisis"
        }
    } else if starts_with_exec(d.as_slice(), "2017-01") {
        "Public Ack"
    } else if starts_with_exec(d.as_slice(), "2017-09") {
        if above_22 {
            "Peak Crisis"
        } else {
            "Escalation"
        }
    } else {
        "Persistent"
    }
}

/// The incidents listed in the catalogue, in the order `p`: those above the
/// normal tier.
pub open spec fn catalogue_rows(tiers: Seq<AnomalyTier>, p: Seq<usize>) -> Seq<usize>
    decreases p.len(),
{
    if p.len() == 0 {
        seq![]
    } else {
        let prev = catalogue_rows(tiers, p.drop_last());
        if tiers[p.last() as int] != AnomalyTier::Normal {
            prev.push(p.last())
        } else {
            prev
        }
    }
}

/// The incidents of the catalogue, as positions in the input: those above the
/// normal tier, in time order (stably). The row of an incident is its rank.
pub fn catalogue_order(timestamps: &Vec<i64>, tiers: &Vec<AnomalyTier>) -> (r: Vec<usize>)
    requires
        timestamps@.len() == tiers@.len(),
    ensures
        r@ == catalogue_rows(tiers@, stable_order(timestamps@)),
        forall|p: Seq<usize>| #[trigger] is_stable_order(timestamps@, p) ==> r@ == catalogue_rows(tiers@, p),
{
    let p = stable_order_by_key(timestamps);
    let mut r: Vec<usize> = Vec::new();
    let mut k: usize = 0;
    assert(p@.take(0) =~= Seq::<usize>::empty());
    while k < p.len()
        invariant
            is_stable_order(timestamps@, p@),
            timestamps@.len() == tiers@.len(),
            k <= p@.len(),
            r@ == catalogue_rows(tiers@, p@.take(k as int)),
        decreases p.len() - k,
    {
        let j = p[k];
        assert(p@.take(k + 1).drop_last() =~= p@.take(k as int));
        assert(p@.take(k + 1).last() == j);
        match tiers[j] {
            AnomalyTier::Normal => {},
            _ => r.push(j),
        }
        k = k + 1;
    }
    assert(p@.take(p@.len() as int) =~= p@);
    proof {
        assert forall|q: Seq<usize>| #[trigger] is_stable_order(timestamps@, q) implies r@
            == catalogue_rows(tiers@, q) by {
            law_stable_order_unique(timestamps@, p@, q);
        }
    }
    r
}

/// Every 5T measurement that is kept holds at least three clocks, each taken
/// from an epoch at the right time: E12, E18 and E14 from the measurement's
/// own epoch, the later E14 readings from an epoch one and two hours later that
/// holds E14.
pub proof fn law_five_t_fields_sound(epochs: Seq<EpochClocks>, p: Seq<usize>)
    requires
        epochs.len() <= usize::MAX,
        forall|i: int| 0 <= i < p.len() ==> #[trigger] p[i] < epochs.len(),
    ensures
        forall|i: int|
            0 <= i < five_t_fields(epochs, p).len() ==> {
                let f = #[trigger] five_t_fields(epochs, p)[i];
                &&& clock_count(f) >= 3
                &&& (f.t1_e12 matches Some(j) ==> j < epochs.len() && epochs[j as int].timestamp == f.timestamp && epochs[j as int].has_e12)
                &&& (f.t2_e18 matches Some(j) ==> j < epochs.len() && epochs[j as int].timestamp == f.timestamp && epochs[j as int].has_e18)
                &&& (f.t3_e14_t0 matches Some(j) ==> j < epochs.len() && epochs[j as int].timestamp == f.timestamp && epochs[j as int].has_e14)
                &&& (f.t4_e14_t1h matches Some(j) ==> j < epochs.len() && epochs[j as int].timestamp == f.timestamp + ONE_HOUR_S && epochs[j as int].has_e14)
                &&& (f.t5_e14_t2h matches Some(j) ==> j < epochs.len() && epochs[j as int].timestamp == f.timestamp + TIME_DELAY_S && epochs[j as int].has_e14)
            },
    decreases p.len(),
{
    if p.len() > 0 {
        let q = p.drop_last();
        law_five_t_fields_sound(epochs, q);
        let j = p.last() as int;
        let ts = epochs[j].timestamp as int;
        let keys = epoch_keys(epochs);
        lemma_latest_with_key(keys, ts + ONE_HOUR_S);
        lemma_latest_with_key(keys, ts + TIME_DELAY_S);
        match latest_with_key(keys, ts + ONE_HOUR_S) {
            Some(k) => {
                assert(keys[k] == epochs[k].timestamp);
            },
            None => {},
        }
        match latest_with_key(keys, ts + TIME_DELAY_S) {
            Some(k) => {
                assert(keys[k] == epochs[k].timestamp);
            },
            None => {},
        }
        let prev = five_t_fields(epochs, q);
        assert forall|i: int| 0 <= i < prev.len() implies five_t_fields(epochs, p)[i] == prev[i] by {}
    }
}

/// The per-epoch measurements, taking the epochs in the order `p`.
pub open spec fn measurements_in_order(epochs: Seq<EpochClocks>, p: Seq<usize>) -> Seq<FiveT<usize>> {
    Seq::new(p.len(), |k: int| five_t_of(epochs, p[k] as int))
}

/// A measurement holds at least three of its five clocks.
pub open spec fn holds_three_clocks() -> spec_fn(FiveT<usize>) -> bool {
    |f: FiveT<usize>| clock_count(f) >= 3
}

/// Holding at least three clocks is the only condition for keeping a
/// measurement: the kept measurements are exactly the per-epoch measurements,
/// in the order `p`, that hold three clocks or more, so every epoch whose
/// measurement holds three clocks yields a kept measurement (whether or not
/// later E14 readings exist).
pub proof fn law_five_t_fields_complete(epochs: Seq<EpochClocks>, p: Seq<usize>)
    ensures
        five_t_fields(epochs, p) == measurements_in_order(epochs, p).filter(holds_three_clocks()),
        forall|k: int|
            0 <= k < p.len() && clock_count(#[trigger] five_t_of(epochs, p[k] as int)) >= 3 ==> five_t_fields(
                epochs,
                p,
            ).contains(five_t_of(epochs, p[k] as int)),
    decreases p.len(),
{
    let pred = holds_three_clocks();
    let m = measurements_in_order(epochs, p);
    if p.len() > 0 {
        let q = p.drop_last();
        law_five_t_fields_complete(epochs, q);
        assert(m.drop_last() =~= measurements_in_order(epochs, q));
        let f = five_t_of(epochs, p.last() as int);
        assert(m.last() == f);
        let prev = five_t_fields(epochs, q);
        assert(prev == m.drop_last().filter(pred));
        reveal(Seq::filter);
        assert(m.filter(pred) == if pred(m.last()) {
            m.drop_last().filter(pred).push(m.last())
        } else {
            m.drop_last().filter(pred)
        });
        assert(pred(f) == (clock_count(f) >= 3));
        assert(five_t_fields(epochs, p) == if clock_count(f) >= 3 {
            prev.push(f)
        } else {
            prev
        });
    } else {
        assert(m =~= Seq::<FiveT<usize>>::empty());
    }
    assert(five_t_fields(epochs, p) == m.filter(pred));
    assert forall|k: int|
        0 <= k < p.len() && clock_count(#[trigger] five_t_of(epochs, p[k] as int)) >= 3 implies five_t_fields(
            epochs,
            p,
        ).contains(five_t_of(epochs, p[k] as int)) by {
        assert(m[k] == five_t_of(epochs, p[k] as int));
        m.lemma_filter_contains(pred, k);
    }
}

/// The kept measurements come in time order when the epochs are taken in a
/// stable time order.
pub proof fn law_five_t_fields_in_time_order(epochs: Seq<EpochClocks>, p: Seq<usize>)
    requires
        is_stable_order(epoch_keys(epochs), p),
    ensures
        forall|i: int, k: int|
            0 <= i < k < five_t_fields(epochs, p).len() ==> (#[trigger] five_t_fields(epochs, p)[i]).timestamp <= (#[trigger] five_t_fields(epochs, p)[k]).timestamp,
{
    law_stable_order_is_sorted_permutation(epoch_keys(epochs), p);
    lemma_five_t_sources(epochs, p);
}

/// Each kept measurement comes from one position of `p`, in order.
proof fn lemma_five_t_sources(epochs: Seq<EpochClocks>, p: Seq<usize>)
    requires
        forall|i: int| 0 <= i < p.len() ==> #[trigger] p[i] < epochs.len(),
        forall|i: int, j: int| 0 <= i <= j < p.len() ==> epoch_keys(epochs)[p[i] as int] <= epoch_keys(epochs)[p[j] as int],
    ensures
        forall|i: int, k: int|
            0 <= i < k < five_t_fields(epochs, p).len() ==> (#[trigger] five_t_fields(epochs, p)[i]).timestamp <= (#[trigger] five_t_fields(epochs, p)[k]).timestamp,
        forall|i: int|
            0 <= i < five_t_fields(epochs, p).len() ==> exists|m: int|
                0 <= m < p.len() && (#[trigger] five_t_fields(epochs, p)[i]).timestamp == epochs[p[m] as int].timestamp,
    decreases p.len(),
{
    if p.len() > 0 {
        let q = p.drop_last();
        assert forall|i: int, j: int| 0 <= i <= j < q.len() implies epoch_keys(epochs)[q[i] as int] <= epoch_keys(epochs)[q[j] as int] by {
            assert(q[i] == p[i] && q[j] == p[j]);
        }
        lemma_five_t_sources(epochs, q);
        let prev = five_t_fields(epochs, q);
        let cur = five_t_fields(epochs, p);
        let last = p.last() as int;
        assert forall|i: int| 0 <= i < prev.len() implies cur[i] == prev[i] by {}
        assert forall|i: int| 0 <= i < prev.len() implies prev[i].timestamp <= epochs[last].timestamp by {
            let m = choose|m: int| 0 <= m < q.len() && prev[i].timestamp == epochs[q[m] as int].timestamp;
            assert(epoch_keys(epochs)[p[m] as int] <= epoch_keys(epochs)[p[p.len() - 1] as int]);
        }
        assert forall|i: int| 0 <= i < cur.len() implies exists|m: int|
            0 <= m < p.len() && (#[trigger] cur[i]).timestamp == epochs[p[m] as int].timestamp by {
            if i < prev.len() {
                let m = choose|m: int| 0 <= m < q.len() && prev[i].timestamp == epochs[q[m] as int].timestamp;
                assert(p[m] == q[m]);
            } else {
                assert(cur[i].timestamp == epochs[p[p.len() - 1] as int].timestamp);
            }
        }
    }
}

/// The catalogue lists only incidents above the normal tier, in time order.
pub proof fn law_catalogue_rows(timestamps: Seq<i64>, tiers: Seq<AnomalyTier>, p: Seq<usize>)
    requires
        timestamps.len() == tiers.len(),
        is_stable_order(timestamps, p),
    ensures
        forall|i: int|
            0 <= i < catalogue_rows(tiers, p).len() ==> #[trigger] catalogue_rows(tiers, p)[i] < tiers.len()
                && tiers[catalogue_rows(tiers, p)[i] as int] != AnomalyTier::Normal,
        forall|i: int, k: int|
            0 <= i < k < catalogue_rows(tiers, p).len() ==> timestamps[#[trigger] catalogue_rows(tiers, p)[i] as int] <= timestamps[#[trigger] catalogue_rows(tiers, p)[k] as int],
{
    law_stable_order_is_sorted_permutation(timestamps, p);
    lemma_catalogue_rows(timestamps, tiers, p);
}

proof fn lemma_catalogue_rows(timestamps: Seq<i64>, tiers: Seq<AnomalyTier>, p: Seq<usize>)
    requires
        timestamps.len() == tiers.len(),
        forall|i: int| 0 <= i < p.len() ==> #[trigger] p[i] < tiers.len(),
        forall|i: int, j: int| 0 <= i <= j < p.len() ==> timestamps[p[i] as int] <= timestamps[p[j] as int],
    ensures
        forall|i: int|
            0 <= i < catalogue_rows(tiers, p).len() ==> #[trigger] catalogue_rows(tiers, p)[i] < tiers.len()
                && tiers[catalogue_rows(tiers, p)[i] as int] != AnomalyTier::Normal,
        forall|i: int, k: int|
            0 <= i < k < catalogue_rows(tiers, p).len() ==> timestamps[#[trigger] catalogue_rows(tiers, p)[i] as int] <= timestamps[#[trigger] catalogue_rows(tiers, p)[k] as int],
        forall|i: int|
            0 <= i < catalogue_rows(tiers, p).len() ==> exists|m: int|
                0 <= m < p.len() && #[trigger] catalogue_rows(tiers, p)[i] == p[m],
    decreases p.len(),
{
    if p.len() > 0 {
        let q = p.drop_last();
        assert forall|i: int, j: int| 0 <= i <= j < q.len() implies timestamps[q[i] as int] <= timestamps[q[j] as int] by {
            assert(q[i] == p[i] && q[j] == p[j]);
        }
        lemma_catalogue_rows(timestamps, tiers, q);
        let prev = catalogue_rows(tiers, q);
        let cur = catalogue_rows(tiers, p);
        let last = p.last();
        assert forall|i: int| 0 <= i < prev.len() implies cur[i] == prev[i] by {}
        assert forall|i: int| 0 <= i < prev.len() implies timestamps[prev[i] as int] <= timestamps[last as int] by {
            let m = choose|m: int| 0 <= m < q.len() && prev[i] == q[m];
            assert(timestamps[p[m] as int] <= timestamps[p[p.len() - 1] as int]);
        }
        assert forall|i: int| 0 <= i < cur.len() implies exists|m: int|
            0 <= m < p.len() && #[trigger] cur[i] == p[m] by {
            if i < prev.len() {
                let m = choose|m: int| 0 <= m < q.len() && prev[i] == q[m];
                assert(p[m] == q[m]);
            } else {
                assert(cur[i] == p[p.len() - 1]);
            }
        }
    }
}

/// The slot of the epoch at time `ts` among epochs with the given times: the
/// first epoch at `ts`, or a new epoch appended at the end.
pub fn find_or_add_epoch(times: &mut Vec<i64>, ts: i64) -> (r: usize)
    ensures
        old(times)@.contains(ts) ==> {
            &&& final(times)@ == old(times)@
            &&& r < old(times)@.len()
            &&& old(times)@[r as int] == ts
            &&& forall|j: int| 0 <= j < r ==> old(times)@[j] != ts
        },
        !old(times)@.contains(ts) ==> final(times)@ == old(times)@.push(ts) && r == old(times)@.len(),
{
    let mut i: usize = 0;
    while i < times.len()
        invariant
            times@ == old(times)@,
            i <= times@.len(),
            forall|j: int| 0 <= j < i ==> times@[j] != ts,
        decreases times.len() - i,
    {
        if times[i] == ts {
            return i;
        }
        i = i + 1;
    }
    let n = times.len();
    times.push(ts);
    n
}

/// The positions of `p` whose epoch holds every satellite of the fleet, in the
/// order of `p`.
pub open spec fn complete_in_order(complete: Seq<bool>, p: Seq<usize>) -> Seq<usize>
    decreases p.len(),
{
    if p.len() == 0 {
        seq![]
    } else {
        let prev = complete_in_order(complete, p.drop_last());
        if complete[p.last() as int] {
            prev.push(p.last())
        } else {
            prev
        }
    }
}

/// The epochs that enter the principal-component analysis, as positions in the
/// input: those that hold every satellite of the fleet, in time order (stably).
pub fn aligned_epoch_order(timestamps: &Vec<i64>, complete: &Vec<bool>) -> (r: Vec<usize>)
    requires
        timestamps@.len() == complete@.len(),
    ensures
        r@ == complete_in_order(complete@, stable_order(timestamps@)),
        forall|p: Seq<usize>| #[trigger] is_stable_order(timestamps@, p) ==> r@ == complete_in_order(complete@, p),
{
    let p = stable_order_by_key(timestamps);
    let mut r: Vec<usize> = Vec::new();
    let mut k: usize = 0;
    assert(p@.take(0) =~= Seq::<usize>::empty());
    while k < p.len()
        invariant
            is_stable_order(timestamps@, p@),
            timestamps@.len() == complete@.len(),
            k <= p@.len(),
            r@ == complete_in_order(complete@, p@.take(k as int)),
        decreases p.len() - k,
    {
        let j = p[k];
        assert(p@.take(k + 1).drop_last() =~= p@.take(k as int));
        assert(p@.take(k + 1).last() == j);
        if complete[j] {
            r.push(j);
        }
        k = k + 1;
    }
    assert(p@.take(p@.len() as int) =~= p@);
    proof {
        assert forall|q: Seq<usize>| #[trigger] is_stable_order(timestamps@, q) implies r@
            == complete_in_order(complete@, q) by {
            law_stable_order_unique(timestamps@, p@, q);
        }
    }
    r
}

} // verus!
