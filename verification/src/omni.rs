//! OMNI space-weather records: which hourly rows of an OMNI file fall in the
//! September 2017 storm window, their UTC timestamps, and the texts of their
//! Kp, Dst and F10.7 columns.

use crate::calendar::{
    date_day, date_ok, date_from_yo, day_of_timestamp, days_before_month, days_before_year,
    utc_timestamp_at_hour,
};
use crate::text::{
    chars_of, parse_i32, parse_u32, spec_parse_i32, spec_parse_u32, split_words, trim,
    trimmed_chars, words,
};
use vstd::prelude::*;

verus! {

/// Whether a character is numeric in Unicode (general category `Nd`, `Nl` or
/// `No`), which is what `char::is_numeric` tests.
pub uninterp spec fn unicode_numeric(c: char) -> bool;

/// `char::is_numeric`. Its result is named `unicode_numeric`; below U+0080 the
/// documentation pins it to the ASCII digits. Above it the Unicode tables
/// decide, and those are not restated here.
#[verifier::external_body]
fn is_numeric(c: char) -> (r: bool)
    ensures
        r == unicode_numeric(c),
        (c as u32) < 128 ==> (r <==> ('0' <= c && c <= '9')),
{
    c.is_numeric()
}

/// The year of the storm window.
pub const WINDOW_YEAR: i32 = 2017;

/// The first day of the year in the storm window.
pub const WINDOW_FIRST_DAY: u32 = 240;

/// The last day of the year in the storm window.
pub const WINDOW_LAST_DAY: u32 = 280;

/// The UNIX timestamp (seconds) of hour `hour` of day `doy` (1-based) of year
/// `y`, UTC.
pub open spec fn ordinal_timestamp(y: int, doy: int, hour: int) -> int {
    (days_before_year(y) + doy - 1 - 719162) * 86400 + hour * 3600
}

/// Whether a row of an OMNI file is a record of the storm window: it begins
/// with a numeral, has at least eight fields, its year is 2017, its day of year
/// is within 240..=280 and its hour is a valid hour.
pub open spec fn omni_accepts(line: Seq<char>) -> bool {
    let t = trim(line);
    let w = words(line);
    &&& t.len() > 0 && unicode_numeric(t[0])
    &&& w.len() >= 8
    &&& spec_parse_i32(w[0]) == Some(WINDOW_YEAR)
    &&& spec_parse_u32(w[1]) is Some
    &&& WINDOW_FIRST_DAY <= spec_parse_u32(w[1])->0 <= WINDOW_LAST_DAY
    &&& spec_parse_u32(w[2]) is Some
    &&& spec_parse_u32(w[2])->0 < 24
}

/// One storm-window record: its UTC timestamp and the texts of its Kp, Dst and
/// F10.7 columns (fields 5, 6 and 7).
#[derive(Clone, Debug)]
pub struct OmniFields {
    pub timestamp: i64,
    pub kp_index: String,
    pub dst_index: String,
    pub f10_7_index: String,
}

/// Reads one row of an OMNI file (`Year DOY Hour ... Kp Dst F10.7`): the
/// record when the row is one of the storm window (see `omni_accepts`).
pub fn parse_omni_line(line: &str) -> (r: Option<OmniFields>)
    ensures
        r is Some <==> omni_accepts(line@),
        r matches Some(f) ==> {
            let w = words(line@);
            &&& f.timestamp == ordinal_timestamp(
                WINDOW_YEAR as int,
                spec_parse_u32(w[1])->0 as int,
                spec_parse_u32(w[2])->0 as int,
            )
            &&& f.kp_index@ == w[5]
            &&& f.dst_index@ == w[6]
            &&& f.f10_7_index@ == w[7]
        },
{
    let t = trimmed_chars(line);
    if t.len() == 0 || !is_numeric(t[0]) {
        return None;
    }
    let cs = chars_of(line);
    let parts = split_words(cs.as_slice());
    let ghost w = words(line@);
    assert(parts@.map_values(|s: String| s@).len() == parts@.len());
    if parts.len() < 3 {
        return None;
    }
    let c0 = chars_of(parts[0].as_str());
    let c1 = chars_of(parts[1].as_str());
    let c2 = chars_of(parts[2].as_str());
    assert(c0@ == w[0] && c1@ == w[1] && c2@ == w[2]);
    let year = match parse_i32(c0.as_slice()) {
        Some(v) => v,
        None => {
            return None;
        },
    };
    let doy = match parse_u32(c1.as_slice()) {
        Some(v) => v,
        None => {
            return None;
        },
    };
    let hour = match parse_u32(c2.as_slice()) {
        Some(v) => v,
        None => {
            return None;
        },
    };
    if year != WINDOW_YEAR || !(WINDOW_FIRST_DAY <= doy && doy <= WINDOW_LAST_DAY) {
        return None;
    }
    let date = match date_from_yo(year, doy) {
        Some(d) => d,
        None => {
            return None;
        },
    };
    let stamp = match utc_timestamp_at_hour(&date, hour) {
        Some(s) => s,
        None => {
            return None;
        },
    };
    if parts.len() < 8 {
        return None;
    }
    assert(parts@.map_values(|s: String| s@)[5] == parts@[5]@);
    assert(parts@.map_values(|s: String| s@)[6] == parts@[6]@);
    assert(parts@.map_values(|s: String| s@)[7] == parts@[7]@);
    Some(
        OmniFields {
            timestamp: stamp,
            kp_index: parts[5].clone(),
            dst_index: parts[6].clone(),
            f10_7_index: parts[7].clone(),
        },
    )
}

/// Every hour of a storm-window day is read: a row that begins with a numeral,
/// has at least eight fields, year 2017 and a day of the year from 240 to 280
/// is accepted exactly when its hour field is an hour of the day (below 24).
pub proof fn law_storm_rows_accepted_at_every_hour(line: Seq<char>, doy: u32, hour: u32)
    requires
        trim(line).len() > 0 && unicode_numeric(trim(line)[0]),
        words(line).len() >= 8,
        spec_parse_i32(words(line)[0]) == Some(2017i32),
        spec_parse_u32(words(line)[1]) == Some(doy),
        240 <= doy <= 280,
        spec_parse_u32(words(line)[2]) == Some(hour),
    ensures
        omni_accepts(line) <==> hour < 24,
{
}

/// The timestamp of a row is the UTC timestamp of its hour on its date: for the
/// date `(y, m, d)` (day `days_before_month(y, m) + d` of the year), hour `h`
/// lies `h` hours after midnight of that date, counted from 1970-01-01 UTC.
pub proof fn law_row_timestamp_is_utc_hour(y: int, m: int, d: int, h: int)
    requires
        date_ok((y, m, d)),
        0 <= h < 24,
    ensures
        ordinal_timestamp(y, days_before_month(y, m) + d, h) == date_day((y, m, d)) * 86400 + h * 3600,
        ordinal_timestamp(y, days_before_month(y, m) + d, h) == day_of_timestamp(
            ordinal_timestamp(y, days_before_month(y, m) + d, h),
        ) * 86400 + h * 3600,
{
    let n = date_day((y, m, d));
    assert((n * 86400 + h * 3600) / 86400 == n) by (nonlinear_arith)
        requires
            0 <= h < 24,
    {
        assert(0 <= h * 3600 < 86400);
    }
}

} // verus!
