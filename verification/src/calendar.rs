//! Proleptic Gregorian calendar dates, and the conversions between dates and
//! UNIX timestamps, which `chrono` computes.

use crate::datasets::{digit_to_char, digits_of, pow10};
use crate::text::push_char;
use chrono::{Datelike, Timelike};
use vstd::prelude::*;

verus! {

pub open spec fn is_leap(y: int) -> bool {
    y % 4 == 0 && (y % 100 != 0 || y % 400 == 0)
}

pub open spec fn days_in_year(y: int) -> int {
    if is_leap(y) {
        366
    } else {
        365
    }
}

pub open spec fn days_in_month(y: int, m: int) -> int {
    if m == 2 {
        if is_leap(y) {
            29
        } else {
            28
        }
    } else if m == 4 || m == 6 || m == 9 || m == 11 {
        30
    } else {
        31
    }
}

/// Days of the year `y` before the first of month `m` (1 to 12).
pub open spec fn days_before_month(y: int, m: int) -> int {
    let leap_day: int = if is_leap(y) && m > 2 {
        1
    } else {
        0
    };
    leap_day + if m <= 1 {
        0int
    } else if m == 2 {
        31
    } else if m == 3 {
        59
    } else if m == 4 {
        90
    } else if m == 5 {
        120
    } else if m == 6 {
        151
    } else if m == 7 {
        181
    } else if m == 8 {
        212
    } else if m == 9 {
        243
    } else if m == 10 {
        273
    } else if m == 11 {
        304
    } else {
        334
    }
}

/// Days from 1 January of year 1 to 1 January of year `y`.
pub open spec fn days_before_year(y: int) -> int {
    let p = y - 1;
    365 * p + p / 4 - p / 100 + p / 400
}

/// Days from 1 January 1970 to the given date (negative before it).
pub open spec fn day_number(y: int, m: int, d: int) -> int {
    days_before_year(y) + days_before_month(y, m) + d - 1 - 719162
}

pub open spec fn valid_date(y: int, m: int, d: int) -> bool {
    1 <= m <= 12 && 1 <= d <= days_in_month(y, m)
}

/// The years `chrono::NaiveDate` can represent.
pub open spec fn year_in_range(y: int) -> bool {
    -262143 <= y <= 262142
}

/// The day numbers of the dates `chrono::NaiveDate` can represent.
pub open spec fn day_in_range(n: int) -> bool {
    day_number(-262143, 1, 1) <= n <= day_number(262142, 12, 31)
}

/// The UTC day of a UNIX timestamp (seconds), counted from 1 January 1970.
pub open spec fn day_of_timestamp(secs: int) -> int {
    secs / 86400
}

/// A calendar date that `chrono::NaiveDate` can represent.
#[derive(Clone, Copy, Debug, PartialEq, Eq)]
pub struct CivilDate {
    year: i32,
    month: u32,
    day: u32,
}

impl View for CivilDate {
    type V = (int, int, int);

    closed spec fn view(&self) -> (int, int, int) {
        (self.year as int, self.month as int, self.day as int)
    }
}

pub open spec fn date_ok(v: (int, int, int)) -> bool {
    valid_date(v.0, v.1, v.2) && year_in_range(v.0)
}

pub open spec fn date_day(v: (int, int, int)) -> int {
    day_number(v.0, v.1, v.2)
}

/// `a` falls on or before `b`, comparing year, then month, then day.
pub open spec fn date_le(a: (int, int, int), b: (int, int, int)) -> bool {
    a.0 < b.0 || (a.0 == b.0 && (a.1 < b.1 || (a.1 == b.1 && a.2 <= b.2)))
}

impl CivilDate {
    #[verifier::type_invariant]
    closed spec fn inv(self) -> bool {
        date_ok(self@)
    }

    pub fn year(&self) -> (y: i32)
        ensures
            y as int == self@.0,
            date_ok(self@),
    {
        proof {
            use_type_invariant(self);
        }
        self.year
    }

    pub fn month(&self) -> (m: u32)
        ensures
            m as int == self@.1,
            date_ok(self@),
    {
        proof {
            use_type_invariant(self);
        }
        self.month
    }

    pub fn day(&self) -> (d: u32)
        ensures
            d as int == self@.2,
            date_ok(self@),
    {
        proof {
            use_type_invariant(self);
        }
        self.day
    }

    /// The date with that year, month and day, when it exists and lies within
    /// `chrono`'s range of years.
    pub fn from_ymd(year: i32, month: u32, day: u32) -> (r: Option<CivilDate>)
        ensures
            r is Some <==> (valid_date(year as int, month as int, day as int) && year_in_range(year as int)),
            r matches Some(d) ==> d@ == (year as int, month as int, day as int),
    {
        date_from_ymd(year, month, day)
    }

    /// The date of day `ordinal` (from 1) of `year`, when the year has that day
    /// and lies within `chrono`'s range.
    pub fn from_yo(year: i32, ordinal: u32) -> (r: Option<CivilDate>)
        ensures
            r is Some <==> (year_in_range(year as int) && 1 <= ordinal <= days_in_year(year as int)),
            r matches Some(d) ==> (d@.0 == year && date_ok(d@) && days_before_month(d@.0, d@.1) + d@.2 == ordinal),
    {
        date_from_yo(year, ordinal)
    }

    /// Whether this date falls on or before `other`.
    pub fn on_or_before(&self, other: &CivilDate) -> (r: bool)
        ensures
            r == date_le(self@, other@),
    {
        self.year < other.year || (self.year == other.year && (self.month < other.month || (
        self.month == other.month && self.day <= other.day)))
    }
}

/// `NaiveDate::from_ymd_opt`: the date with that year, month and day, when it
/// exists and lies within `chrono`'s range of years.
#[verifier::external_body]
pub(crate) fn date_from_ymd(year: i32, month: u32, day: u32) -> (r: Option<CivilDate>)
    ensures
        r is Some <==> (valid_date(year as int, month as int, day as int) && year_in_range(year as int)),
        r matches Some(d) ==> d@ == (year as int, month as int, day as int),
{
    match chrono::NaiveDate::from_ymd_opt(year, month, day) {
        Some(_) => Some(CivilDate { year, month, day }),
        None => None,
    }
}

/// `NaiveDate::from_yo_opt`: the date of day `ordinal` (from 1) of `year`, when
/// the year has that day and lies within `chrono`'s range.
#[verifier::external_body]
pub(crate) fn date_from_yo(year: i32, ordinal: u32) -> (r: Option<CivilDate>)
    ensures
        r is Some <==> (year_in_range(year as int) && 1 <= ordinal <= days_in_year(year as int)),
        r matches Some(d) ==> (d@.0 == year && date_ok(d@) && days_before_month(d@.0, d@.1) + d@.2 == ordinal),
{
    match chrono::NaiveDate::from_yo_opt(year, ordinal) {
        Some(d) => Some(CivilDate { year: d.year(), month: d.month(), day: d.day() }),
        None => None,
    }
}

/// `DateTime::<Utc>::from_timestamp(secs, 0)`, as its date and its seconds since
/// midnight: the UTC date and time of the timestamp, when that date lies within
/// `chrono`'s range.
#[verifier::external_body]
pub(crate) fn utc_date_of_timestamp(secs: i64) -> (r: Option<(CivilDate, u32)>)
    ensures
        r is Some <==> day_in_range(day_of_timestamp(secs as int)),
        r matches Some(p) ==> (date_ok(p.0@) && date_day(p.0@) == day_of_timestamp(secs as int) && p.1 == secs as int % 86400),
{
    match chrono::DateTime::<chrono::Utc>::from_timestamp(secs, 0) {
        Some(dt) => Some((CivilDate { year: dt.year(), month: dt.month(), day: dt.day() }, dt.num_seconds_from_midnight())),
        None => None,
    }
}

/// `NaiveDate::and_hms_opt(hour, 0, 0)` followed by `.and_utc().timestamp()`:
/// the UNIX timestamp of the start of `hour` on `date`, when `hour` is below 24.
#[verifier::external_body]
pub(crate) fn utc_timestamp_at_hour(date: &CivilDate, hour: u32) -> (r: Option<i64>)
    ensures
        r is Some <==> hour < 24,
        r matches Some(t) ==> t == date_day(date@) * 86400 + hour * 3600,
{
    match chrono::NaiveDate::from_ymd_opt(date.year, date.month, date.day) {
        Some(d) => match d.and_hms_opt(hour, 0, 0) {
            Some(dt) => Some(dt.and_utc().timestamp()),
            None => None,
        },
        None => None,
    }
}

/// One year further moves the start of the year by that year's length.
pub proof fn lemma_days_before_next_year(y: int)
    ensures
        days_before_year(y + 1) == days_before_year(y) + days_in_year(y),
{
    let p = y - 1;
    assert(y / 4 == p / 4 + (if y % 4 == 0 { 1int } else { 0 }));
    assert(y / 100 == p / 100 + (if y % 100 == 0 { 1int } else { 0 }));
    assert(y / 400 == p / 400 + (if y % 400 == 0 { 1int } else { 0 }));
    assert(y % 400 == 0 ==> y % 100 == 0 && y % 4 == 0);
    assert(y % 100 == 0 ==> y % 4 == 0);
}

/// The start of the year moves forward with the year.
pub proof fn lemma_days_before_year_monotone(y1: int, y2: int)
    requires
        y1 < y2,
    ensures
        days_before_year(y1) + days_in_year(y1) <= days_before_year(y2),
    decreases y2 - y1,
{
    lemma_days_before_next_year(y1);
    if y1 + 1 < y2 {
        lemma_days_before_year_monotone(y1 + 1, y2);
    }
}

/// A valid date's day within its year.
pub proof fn lemma_day_of_year_bounds(y: int, m: int, d: int)
    requires
        valid_date(y, m, d),
    ensures
        0 <= days_before_month(y, m) + d - 1 < days_in_year(y),
{
}

/// Within a year, a later month starts after every day of an earlier one.
pub proof fn lemma_month_order(y: int, m1: int, d1: int, m2: int)
    requires
        valid_date(y, m1, d1),
        m1 < m2 <= 12,
    ensures
        days_before_month(y, m1) + d1 <= days_before_month(y, m2),
{
}

/// Day numbers put valid dates in calendar order: one date falls on or before
/// another exactly when its day number is not larger.
pub proof fn lemma_day_number_order(a: (int, int, int), b: (int, int, int))
    requires
        valid_date(a.0, a.1, a.2),
        valid_date(b.0, b.1, b.2),
    ensures
        date_le(a, b) <==> date_day(a) <= date_day(b),
        a == b <==> date_day(a) == date_day(b),
{
    lemma_day_of_year_bounds(a.0, a.1, a.2);
    lemma_day_of_year_bounds(b.0, b.1, b.2);
    if a.0 < b.0 {
        lemma_days_before_year_monotone(a.0, b.0);
    } else if b.0 < a.0 {
        lemma_days_before_year_monotone(b.0, a.0);
    } else if a.1 < b.1 {
        lemma_month_order(a.0, a.1, a.2, b.1);
    } else if b.1 < a.1 {
        lemma_month_order(b.0, b.1, b.2, a.1);
    }
}

/// The date of day number `n` (days since 1 January 1970).
pub open spec fn date_of_day(n: int) -> (int, int, int) {
    choose|v: (int, int, int)| date_ok(v) && date_day(v) == n
}

/// A valid date is the date of its day number.
pub proof fn lemma_date_of_day(v: (int, int, int))
    requires
        date_ok(v),
    ensures
        date_of_day(date_day(v)) == v,
{
    let w = date_of_day(date_day(v));
    assert(date_ok(w) && date_day(w) == date_day(v));
    lemma_day_number_order(v, w);
}

/// The number of decimal digits of `n`.
pub open spec fn decimal_width(n: nat) -> nat
    decreases n,
{
    if n < 10 {
        1
    } else {
        1 + decimal_width(n / 10)
    }
}

proof fn lemma_decimal_width_bound(n: nat, k: nat)
    requires
        k >= 1,
        n < pow10(k),
    ensures
        decimal_width(n) <= k,
    decreases k,
{
    if n >= 10 && k > 1 {
        assert(n / 10 < pow10((k - 1) as nat));
        lemma_decimal_width_bound(n / 10, (k - 1) as nat);
    } else if n >= 10 {
        reveal_with_fuel(pow10, 2);
    }
}

/// A year as the `%Y` format writes it: four digits for years 0 to 9999,
/// otherwise a sign and at least four digits.
pub open spec fn year_text(y: int) -> Seq<char> {
    if 0 <= y <= 9999 {
        digits_of(y, 4)
    } else {
        let a = if y < 0 {
            -y
        } else {
            y
        };
        let w = if decimal_width(a as nat) > 4 {
            decimal_width(a as nat)
        } else {
            4
        };
        (if y < 0 {
            seq!['-']
        } else {
            seq!['+']
        }) + digits_of(a, w)
    }
}

pub open spec fn epoch_start_text() -> Seq<char> {
    seq!['1', '9', '7', '0', '-', '0', '1', '-', '0', '1', ' ', '0', '0', ':', '0', '0', ':', '0', '0']
}

/// The UTC date and time of a UNIX timestamp as `%Y-%m-%d %H:%M:%S` writes it;
/// the start of 1970 for a timestamp whose date `chrono` cannot represent.
pub open spec fn datetime_text(ts: int) -> Seq<char> {
    let n = day_of_timestamp(ts);
    if day_in_range(n) {
        let v = date_of_day(n);
        let s = ts % 86400;
        year_text(v.0) + seq!['-'] + digits_of(v.1, 2) + seq!['-'] + digits_of(v.2, 2) + seq![' ']
            + digits_of(s / 3600, 2) + seq![':'] + digits_of((s % 3600) / 60, 2) + seq![':']
            + digits_of(s % 60, 2)
    } else {
        epoch_start_text()
    }
}

/// The last `k` decimal digits of `n`, zero-padded.
fn decimal_chars(n: u32, k: usize) -> (r: Vec<char>)
    requires
        k <= 10,
    ensures
        r@ == digits_of(n as int, k as nat),
    decreases k,
{
    if k == 0 {
        Vec::new()
    } else {
        let mut v = decimal_chars(n / 10, k - 1);
        v.push(digit_to_char(n % 10));
        v
    }
}

/// The number of decimal digits of `n`.
fn decimal_width_of(n: u32) -> (w: usize)
    requires
        n < 1000000,
    ensures
        w == decimal_width(n as nat),
        w <= 6,
    decreases n,
{
    proof {
        reveal_with_fuel(pow10, 7);
        lemma_decimal_width_bound(n as nat, 6);
    }
    if n < 10 {
        1
    } else {
        1 + decimal_width_of(n / 10)
    }
}

/// Appends characters to a string.
fn push_chars(out: &mut String, cs: &Vec<char>)
    ensures
        final(out)@ == old(out)@ + cs@,
{
    let mut i: usize = 0;
    while i < cs.len()
        invariant
            i <= cs@.len(),
            out@ == old(out)@ + cs@.take(i as int),
        decreases cs.len() - i,
    {
        push_char(out, cs[i]);
        i = i + 1;
        assert(out@ =~= old(out)@ + cs@.take(i as int));
    }
    assert(cs@.take(cs@.len() as int) =~= cs@);
}

/// A year as the `%Y` format writes it (see `year_text`).
fn year_chars(y: i32) -> (r: Vec<char>)
    requires
        year_in_range(y as int),
    ensures
        r@ == year_text(y as int),
{
    if 0 <= y && y <= 9999 {
        decimal_chars(y as u32, 4)
    } else {
        let a: u32 = if y < 0 {
            (0 - y) as u32
        } else {
            y as u32
        };
        let w0 = decimal_width_of(a);
        let w = if w0 > 4 {
            w0
        } else {
            4
        };
        let mut r: Vec<char> = Vec::new();
        r.push(
            if y < 0 {
                '-'
            } else {
                '+'
            },
        );
        let digits = decimal_chars(a, w);
        let mut i: usize = 0;
        while i < digits.len()
            invariant
                i <= digits@.len(),
                r@.len() == 1 + i,
                r@[0] == (if y < 0 { '-' } else { '+' }),
                forall|q: int| 0 <= q < i ==> r@[q + 1] == digits@[q],
            decreases digits.len() - i,
        {
            r.push(digits[i]);
            i = i + 1;
        }
        assert(r@ =~= (if y < 0 {
            seq!['-']
        } else {
            seq!['+']
        }) + digits@);
        r
    }
}

/// The UTC date and time of a UNIX timestamp as `%Y-%m-%d %H:%M:%S` writes it
/// (see `datetime_text`).
pub fn utc_datetime_text(ts: i64) -> (r: String)
    ensures
        r@ == datetime_text(ts as int),
{
    match utc_date_of_timestamp(ts) {
        Some((d, s)) => {
            let y = d.year();
            let m = d.month();
            let dd = d.day();
            proof {
                lemma_date_of_day(d@);
            }
            let mut out = String::new();
            push_chars(&mut out, &year_chars(y));
            push_char(&mut out, '-');
            push_chars(&mut out, &decimal_chars(m, 2));
            push_char(&mut out, '-');
            push_chars(&mut out, &decimal_chars(dd, 2));
            push_char(&mut out, ' ');
            push_chars(&mut out, &decimal_chars(s / 3600, 2));
            push_char(&mut out, ':');
            push_chars(&mut out, &decimal_chars((s % 3600) / 60, 2));
            push_char(&mut out, ':');
            push_chars(&mut out, &decimal_chars(s % 60, 2));
            assert(out@ =~= datetime_text(ts as int));
            out
        },
        None => {
            let r = "1970-01-01 00:00:00".to_owned();
            proof {
                reveal_strlit("1970-01-01 00:00:00");
                assert("1970-01-01 00:00:00"@ =~= epoch_start_text());
            }
            r
        },
    }
}

/// For a date of the years 0 to 9999 the text has the fixed layout
/// `YYYY-MM-DD hh:mm:ss`: nineteen characters, the year, month and day first.
pub proof fn law_datetime_text_layout(ts: int)
    requires
        day_in_range(day_of_timestamp(ts)),
        0 <= date_of_day(day_of_timestamp(ts)).0 <= 9999,
    ensures
        datetime_text(ts).len() == 19,
        datetime_text(ts).take(4) == digits_of(date_of_day(day_of_timestamp(ts)).0, 4),
        datetime_text(ts)[4] == '-' && datetime_text(ts)[7] == '-' && datetime_text(ts)[10] == ' ',
        datetime_text(ts)[13] == ':' && datetime_text(ts)[16] == ':',
        datetime_text(ts).subrange(5, 7) == digits_of(date_of_day(day_of_timestamp(ts)).1, 2),
        datetime_text(ts).subrange(8, 10) == digits_of(date_of_day(day_of_timestamp(ts)).2, 2),
{
    let v = date_of_day(day_of_timestamp(ts));
    let s = ts % 86400;
    lemma_digits_len(v.0, 4);
    lemma_digits_len(v.1, 2);
    lemma_digits_len(v.2, 2);
    lemma_digits_len(s / 3600, 2);
    lemma_digits_len((s % 3600) / 60, 2);
    lemma_digits_len(s % 60, 2);
    let t = datetime_text(ts);
    assert(t.take(4) =~= digits_of(v.0, 4));
    assert(t.subrange(5, 7) =~= digits_of(v.1, 2));
    assert(t.subrange(8, 10) =~= digits_of(v.2, 2));
}

proof fn lemma_digits_len(n: int, k: nat)
    ensures
        digits_of(n, k).len() == k,
    decreases k,
{
    if k > 0 {
        lemma_digits_len(n / 10, (k - 1) as nat);
    }
}

} // verus!
