//! Filtering of epochs by date: the known anomaly windows of the E14 clock and
//! the standard sample months (March, June, September, December).

use crate::calendar::{
    date_day, date_from_ymd, date_ok, day_in_range, day_of_timestamp,
    lemma_day_number_order, utc_date_of_timestamp, CivilDate,
};
use crate::text::chars_of;
use vstd::prelude::*;

verus! {

/// Months sampled for a fair comparison between years.
pub const STANDARD_SAMPLE_MONTHS: [u32; 4] = [3, 6, 9, 12];

/// Month `m` is one of `STANDARD_SAMPLE_MONTHS`.
pub open spec fn is_standard_month(m: int) -> bool {
    exists|i: int| 0 <= i < STANDARD_SAMPLE_MONTHS@.len() && #[trigger] STANDARD_SAMPLE_MONTHS@[i] == m
}

/// A range of days (both ends included) on which a satellite clock was unstable.
#[derive(Clone, Debug)]
pub struct AnomalyWindow {
    pub start: CivilDate,
    pub end: CivilDate,
    pub satellite: String,
    pub tier: String,
}

/// The known anomaly windows of a year: one day, 24 September 2017, for E14
/// (tier ELEVATED); none for any other year.
pub fn get_anomaly_windows(year: &str) -> (r: Vec<AnomalyWindow>)
    ensures
        year@ == seq!['2', '0', '1', '7'] ==> r@.len() == 1 && r@[0].start@ == (2017int, 9int, 24int) && r@[0].end@ == (2017int, 9int, 24int) && r@[0].satellite@ == seq!['E', '1', '4'] && r@[0].tier@ == seq!['E', 'L', 'E', 'V', 'A', 'T', 'E', 'D'],
        year@ != seq!['2', '0', '1', '7'] ==> r@.len() == 0,
{
    let cs = chars_of(year);
    let is_2017 = cs.len() == 4 && cs[0] == '2' && cs[1] == '0' && cs[2] == '1' && cs[3] == '7';
    assert(is_2017 <==> cs@ == seq!['2', '0', '1', '7']) by {
        if is_2017 {
            assert(cs@ =~= seq!['2', '0', '1', '7']);
        }
    }
    let mut r: Vec<AnomalyWindow> = Vec::new();
    if is_2017 {
        let start = date_from_ymd(2017, 9, 24).unwrap();
        let end = date_from_ymd(2017, 9, 24).unwrap();
        let mut satellite = String::new();
        crate::text::push_char(&mut satellite, 'E');
        crate::text::push_char(&mut satellite, '1');
        crate::text::push_char(&mut satellite, '4');
        let mut tier = String::new();
        crate::text::push_char(&mut tier, 'E');
        crate::text::push_char(&mut tier, 'L');
        crate::text::push_char(&mut tier, 'E');
        crate::text::push_char(&mut tier, 'V');
        crate::text::push_char(&mut tier, 'A');
        crate::text::push_char(&mut tier, 'T');
        crate::text::push_char(&mut tier, 'E');
        crate::text::push_char(&mut tier, 'D');
        assert(satellite@ =~= seq!['E', '1', '4']);
        assert(tier@ =~= seq!['E', 'L', 'E', 'V', 'A', 'T', 'E', 'D']);
        r.push(AnomalyWindow { start, end, satellite, tier });
    }
    r
}

/// The UTC day of a timestamp given as unsigned seconds, read as `i64` (as
/// `as i64` converts it: values above `i64::MAX` wrap to negative ones).
pub open spec fn utc_day(timestamp: u64) -> int {
    day_of_timestamp((timestamp as i64) as int)
}

/// The calendar month of a day number within `chrono`'s range.
pub open spec fn month_of_day(n: int) -> int {
    (choose|v: (int, int, int)| date_ok(v) && date_day(v) == n).1
}

/// The day `n` falls within the window: on or after its start, on or before its end.
pub open spec fn window_holds_day(w: AnomalyWindow, n: int) -> bool {
    date_day(w.start@) <= n <= date_day(w.end@)
}

/// Some window holds the UTC day of `timestamp`.
pub open spec fn in_some_window(timestamp: u64, windows: Seq<AnomalyWindow>) -> bool {
    day_in_range(utc_day(timestamp)) && exists|i: int|
        0 <= i < windows.len() && window_holds_day(#[trigger] windows[i], utc_day(timestamp))
}

/// The UTC month of `timestamp` is March, June, September or December.
pub open spec fn in_standard_month(timestamp: u64) -> bool {
    day_in_range(utc_day(timestamp)) && is_standard_month(month_of_day(utc_day(timestamp)))
}

/// A date is the only valid date with its day number.
proof fn lemma_date_of_day_unique(v: (int, int, int))
    requires
        date_ok(v),
    ensures
        month_of_day(date_day(v)) == v.1,
{
    let n = date_day(v);
    let w = choose|w: (int, int, int)| date_ok(w) && date_day(w) == n;
    assert(date_ok(w) && date_day(w) == n);
    lemma_day_number_order(v, w);
}

/// Whether the UTC month of `timestamp` is March, June, September or December;
/// false for a timestamp whose date `chrono` cannot represent.
pub fn is_standard_sample_month(timestamp: u64) -> (r: bool)
    ensures
        r == in_standard_month(timestamp),
{
    match utc_date_of_timestamp(timestamp as i64) {
        Some((d, _)) => {
            let m = d.month();
            proof {
                lemma_date_of_day_unique(d@);
            }
            let months = STANDARD_SAMPLE_MONTHS;
            let mut i: usize = 0;
            while i < months.len()
                invariant
                    months@ == STANDARD_SAMPLE_MONTHS@,
                    i <= months@.len(),
                    day_in_range(utc_day(timestamp)),
                    month_of_day(utc_day(timestamp)) == m,
                    forall|j: int| 0 <= j < i ==> months@[j] != m,
                decreases months.len() - i,
            {
                if months[i] == m {
                    assert(STANDARD_SAMPLE_MONTHS@[i as int] == m);
                    return true;
                }
                i = i + 1;
            }
            false
        },
        None => false,
    }
}

/// Whether some window holds the UTC day of `timestamp`; false for a timestamp
/// whose date `chrono` cannot represent.
pub fn is_in_anomaly_window(timestamp: u64, windows: &[AnomalyWindow]) -> (r: bool)
    ensures
        r == in_some_window(timestamp, windows@),
{
    match utc_date_of_timestamp(timestamp as i64) {
        Some((date, _)) => {
            let ghost n = utc_day(timestamp);
            let mut i: usize = 0;
            while i < windows.len()
                invariant
                    i <= windows@.len(),
                    date_ok(date@),
                    date_day(date@) == n,
                    n == utc_day(timestamp),
                    day_in_range(n),
                    forall|j: int| 0 <= j < i ==> !window_holds_day(#[trigger] windows@[j], n),
                decreases windows.len() - i,
            {
                let w = &windows[i];
                let after_start = w.start.on_or_before(&date);
                let before_end = date.on_or_before(&w.end);
                // The accessors state that both dates are valid.
                let _ = w.start.year();
                let _ = w.end.year();
                proof {
                    lemma_day_number_order(w.start@, date@);
                    lemma_day_number_order(date@, w.end@);
                }
                if after_start && before_end {
                    assert(window_holds_day(windows@[i as int], n));
                    return true;
                }
                i = i + 1;
            }
            false
        },
        None => false,
    }
}

/// An epoch is left out: outside the standard months when `filter_months` is
/// set, or inside an anomaly window.
pub open spec fn epoch_filtered(timestamp: u64, windows: Seq<AnomalyWindow>, filter_months: bool) -> bool {
    (filter_months && !in_standard_month(timestamp)) || in_some_window(timestamp, windows)
}

/// Whether an epoch is left out: outside the standard months when
/// `filter_months` is set, or inside an anomaly window.
pub fn should_filter_epoch(timestamp: u64, windows: &[AnomalyWindow], filter_months: bool) -> (r:
    bool)
    ensures
        r == epoch_filtered(timestamp, windows@, filter_months),
{
    if filter_months && !is_standard_sample_month(timestamp) {
        return true;
    }
    is_in_anomaly_window(timestamp, windows)
}

/// How many of `timestamps` lie within some window.
pub open spec fn count_inside(timestamps: Seq<u64>, windows: Seq<AnomalyWindow>) -> nat
    decreases timestamps.len(),
{
    if timestamps.len() == 0 {
        0
    } else {
        count_inside(timestamps.drop_last(), windows) + if in_some_window(
            timestamps.last(),
            windows,
        ) {
            1nat
        } else {
            0nat
        }
    }
}

/// The number of timestamps, and how many of them fall within an anomaly window.
pub fn count_filtered_epochs(timestamps: &[u64], windows: &[AnomalyWindow]) -> (r: (usize, usize))
    ensures
        r.0 == timestamps@.len(),
        r.1 == count_inside(timestamps@, windows@),
        r.1 <= r.0,
{
    let total = timestamps.len();
    let mut filtered: usize = 0;
    let mut i: usize = 0;
    while i < total
        invariant
            total == timestamps@.len(),
            i <= total,
            filtered <= i,
            filtered == count_inside(timestamps@.take(i as int), windows@),
        decreases total - i,
    {
        assert(timestamps@.take(i + 1).drop_last() =~= timestamps@.take(i as int));
        if is_in_anomaly_window(timestamps[i], windows) {
            filtered = filtered + 1;
        }
        i = i + 1;
    }
    assert(timestamps@.take(total as int) =~= timestamps@);
    (total, filtered)
}

/// The verdict depends only on the UTC day: two timestamps of the same day are
/// both in a window or both outside every window, and both are in a standard
/// month or both are not.
pub proof fn law_filter_depends_on_day_only(t1: u64, t2: u64, windows: Seq<AnomalyWindow>)
    requires
        utc_day(t1) == utc_day(t2),
    ensures
        in_some_window(t1, windows) == in_some_window(t2, windows),
        in_standard_month(t1) == in_standard_month(t2),
{
}

/// Every timestamp whose UTC day lies from a window's start to its end is in
/// an anomaly window, and so is filtered whatever `filter_months` says.
pub proof fn law_window_days_are_filtered(timestamp: u64, windows: Seq<AnomalyWindow>, i: int)
    requires
        0 <= i < windows.len(),
        day_in_range(utc_day(timestamp)),
        date_day(windows[i].start@) <= utc_day(timestamp) <= date_day(windows[i].end@),
    ensures
        in_some_window(timestamp, windows),
{
    assert(window_holds_day(windows[i], utc_day(timestamp)));
}

/// Filtering by month only adds to what the windows filter: every epoch left out
/// without month filtering is left out with it.
pub proof fn law_month_filter_only_adds(timestamp: u64, windows: Seq<AnomalyWindow>)
    ensures
        epoch_filtered(timestamp, windows, false) ==> epoch_filtered(timestamp, windows, true),
        epoch_filtered(timestamp, windows, false) == in_some_window(timestamp, windows),
{
}

/// The count of epochs within a window never exceeds the count of epochs.
pub proof fn law_count_inside_bounded(timestamps: Seq<u64>, windows: Seq<AnomalyWindow>)
    ensures
        count_inside(timestamps, windows) <= timestamps.len(),
    decreases timestamps.len(),
{
    if timestamps.len() > 0 {
        law_count_inside_bounded(timestamps.drop_last(), windows);
    }
}

/// The standard sample months are the quarter ends: a timestamp whose UTC date
/// is `(y, m, d)` is in a standard month exactly when `m` is March, June,
/// September or December.
pub proof fn law_standard_months_are_quarter_ends(timestamp: u64, y: int, m: int, d: int)
    requires
        date_ok((y, m, d)),
        utc_day(timestamp) == date_day((y, m, d)),
    ensures
        in_standard_month(timestamp) <==> (m == 3 || m == 6 || m == 9 || m == 12),
{
    let v = (y, m, d);
    lemma_date_of_day_unique(v);
    lemma_day_number_order((-262143int, 1int, 1int), v);
    lemma_day_number_order(v, (262142int, 12int, 31int));
    assert(day_in_range(utc_day(timestamp)));
    assert(STANDARD_SAMPLE_MONTHS@ =~= seq![3u32, 6, 9, 12]);
    if m == 3 || m == 6 || m == 9 || m == 12 {
        let i: int = if m == 3 { 0 } else if m == 6 { 1 } else if m == 9 { 2 } else { 3 };
        assert(STANDARD_SAMPLE_MONTHS@[i] == m);
    }
}

} // verus!
