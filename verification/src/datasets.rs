//! Daily GNSS product datasets: their names (`gbm` + GPS week + weekday), the
//! datasets of each processed year, and the identifiers read back from a name.

use crate::order::lex_le;
use crate::text::{chars_of, push_char, spec_parse_u32, parse_u32, digits_value, all_digits};
use vstd::prelude::*;
use vstd::string::StringSliceAdditionalSpecFns;

verus! {

/// Years processed by default: 2017 and 2018 use the IGS14 reference frame.
pub const YEARS: [&'static str; 2] = ["2017", "2018"];

/// All years with datasets, 2016 (older IGS08 frame) included.
pub const YEARS_INCL_2016: [&'static str; 3] = ["2016", "2017", "2018"];

pub open spec fn pow10(k: nat) -> int
    decreases k,
{
    if k == 0 {
        1
    } else {
        10 * pow10((k - 1) as nat)
    }
}

/// The decimal digit character for `d` in `0..10`.
pub open spec fn digit_char(d: int) -> char {
    (d + 48) as char
}

/// The last `k` decimal digits of `n`, most significant first, zero-padded.
pub open spec fn digits_of(n: int, k: nat) -> Seq<char>
    decreases k,
{
    if k == 0 {
        seq![]
    } else {
        digits_of(n / 10, (k - 1) as nat).push(digit_char(n % 10))
    }
}

/// The name of dataset `id` (a five-digit GPS week-and-day number), e.g. `gbm19670`.
pub open spec fn dataset_name(id: u32) -> Seq<char> {
    seq!['g', 'b', 'm'] + digits_of(id as int, 5)
}

/// The dataset id of the `k`-th day counted from GPS week `w0`: week times ten plus weekday.
pub open spec fn day_id(w0: int, k: int) -> int {
    (w0 + k / 7) * 10 + k % 7
}

/// The ids of the first `k` days counted from week `w0`, leaving out those in `skip`.
pub open spec fn day_ids(w0: int, skip: Set<int>, k: nat) -> Seq<u32>
    decreases k,
{
    if k == 0 {
        seq![]
    } else {
        let prev = day_ids(w0, skip, (k - 1) as nat);
        let id = day_id(w0, k - 1);
        if skip.contains(id) {
            prev
        } else {
            prev.push(id as u32)
        }
    }
}

pub open spec fn year_2016() -> Seq<char> {
    seq!['2', '0', '1', '6']
}

pub open spec fn year_2017() -> Seq<char> {
    seq!['2', '0', '1', '7']
}

pub open spec fn year_2018() -> Seq<char> {
    seq!['2', '0', '1', '8']
}

/// First GPS week of each year's datasets, the number of weeks, and the days
/// without a product.
pub open spec fn first_week(year: Seq<char>) -> int {
    if year == year_2016() {
        1877
    } else if year == year_2017() {
        1930
    } else {
        1982
    }
}

pub open spec fn week_count(year: Seq<char>) -> nat {
    if year == year_2016() {
        53
    } else if year == year_2017() {
        52
    } else if year == year_2018() {
        53
    } else {
        0
    }
}

pub open spec fn missing_days(year: Seq<char>) -> Set<int> {
    if year == year_2018() {
        set![20194int, 20236int]
    } else {
        Set::empty()
    }
}

/// The dataset ids of a year, in order; empty for a year without datasets.
pub open spec fn year_dataset_ids(year: Seq<char>) -> Seq<u32> {
    day_ids(first_week(year), missing_days(year), week_count(year) * 7)
}

/// The dataset names of a year, in order.
pub open spec fn year_dataset_names(year: Seq<char>) -> Seq<Seq<char>> {
    year_dataset_ids(year).map_values(|id: u32| dataset_name(id))
}

pub(crate) fn digit_to_char(d: u32) -> (c: char)
    requires
        d < 10,
    ensures
        c == digit_char(d as int),
{
    ((d + 48) as u8) as char
}

/// The name of dataset `id`, `gbm` followed by its five digits.
pub fn dataset_name_of(id: u32) -> (r: String)
    requires
        id < 100000,
    ensures
        r@ == dataset_name(id),
{
    let mut r = String::new();
    push_char(&mut r, 'g');
    push_char(&mut r, 'b');
    push_char(&mut r, 'm');
    push_char(&mut r, digit_to_char((id / 10000) % 10));
    push_char(&mut r, digit_to_char((id / 1000) % 10));
    push_char(&mut r, digit_to_char((id / 100) % 10));
    push_char(&mut r, digit_to_char((id / 10) % 10));
    push_char(&mut r, digit_to_char(id % 10));
    proof {
        let n = id as int;
        assert(n / 10 / 10 == n / 100);
        assert(n / 100 / 10 == n / 1000);
        assert(n / 1000 / 10 == n / 10000);
        assert(n / 10000 / 10 == 0);
        reveal_with_fuel(digits_of, 6);
        assert(r@ =~= dataset_name(id));
    }
    r
}

fn year_is(cs: &Vec<char>, d3: char) -> (r: bool)
    ensures
        r == (cs@ == seq!['2', '0', '1', d3]),
{
    let r = cs.len() == 4 && cs[0] == '2' && cs[1] == '0' && cs[2] == '1' && cs[3] == d3;
    assert(r ==> cs@ =~= seq!['2', '0', '1', d3]);
    r
}

/// The dataset ids of `year` ("2016", "2017" or "2018"), in calendar order.
pub fn year_datasets_ids(year: &str) -> (r: Vec<u32>)
    ensures
        r@ == year_dataset_ids(year@),
{
    let cs = chars_of(year);
    let (w0, weeks): (u32, u32) = if year_is(&cs, '6') {
        (1877, 53)
    } else if year_is(&cs, '7') {
        (1930, 52)
    } else if year_is(&cs, '8') {
        (1982, 53)
    } else {
        (1982, 0)
    };
    let skip_a: u32 = if year_is(&cs, '8') {
        20194
    } else {
        0
    };
    let skip_b: u32 = if year_is(&cs, '8') {
        20236
    } else {
        0
    };
    let ghost skip = missing_days(year@);
    assert(forall|id: int| id > 0 ==> (skip.contains(id) <==> (id == skip_a || id == skip_b)));
    let total = weeks * 7;
    let mut r: Vec<u32> = Vec::new();
    let mut k: u32 = 0;
    while k < total
        invariant
            k <= total,
            total == week_count(year@) * 7,
            w0 == first_week(year@),
            w0 <= 1982,
            total <= 371,
            skip == missing_days(year@),
            forall|id: int| id > 0 ==> (skip.contains(id) <==> (id == skip_a || id == skip_b)),
            r@ == day_ids(w0 as int, skip, k as nat),
        decreases total - k,
    {
        let id = (w0 + k / 7) * 10 + k % 7;
        assert(id as int == day_id(w0 as int, k as int));
        if id != skip_a && id != skip_b {
            r.push(id);
        }
        k = k + 1;
    }
    r
}

/// The dataset names of `year` ("2016", "2017" or "2018"), in calendar order;
/// empty for any other year.
pub fn get_year_datasets(year: &str) -> (r: Vec<String>)
    ensures
        r@.map_values(|s: String| s@) == year_dataset_names(year@),
{
    let ids = year_datasets_ids(year);
    proof {
        lemma_year_ids_bounded(year@);
    }
    let mut r: Vec<String> = Vec::new();
    let mut i: usize = 0;
    while i < ids.len()
        invariant
            ids@ == year_dataset_ids(year@),
            forall|j: int| 0 <= j < ids@.len() ==> 18770 <= #[trigger] ids@[j] < 20350,
            i <= ids@.len(),
            r@.len() == i,
            r@.map_values(|s: String| s@) == ids@.take(i as int).map_values(
                |id: u32| dataset_name(id),
            ),
        decreases ids.len() - i,
    {
        let name = dataset_name_of(ids[i]);
        let ghost old_r = r@;
        let ghost name_v = name@;
        r.push(name);
        assert(ids@.take(i + 1) =~= ids@.take(i as int).push(ids@[i as int]));
        assert(r@ =~= old_r.push(r@[i as int]));
        assert(r@[i as int]@ == name_v);
        assert(r@.map_values(|s: String| s@) =~= old_r.map_values(|s: String| s@).push(name_v));
        assert(r@.map_values(|s: String| s@) =~= ids@.take(i + 1).map_values(
            |id: u32| dataset_name(id),
        ));
        i = i + 1;
    }
    assert(ids@.take(ids@.len() as int) =~= ids@);
    r
}

/// Every id among the first `k` days from week `w0` lies within those weeks,
/// with a weekday from 0 to 6.
pub proof fn lemma_day_ids_shape(w0: int, skip: Set<int>, k: nat)
    requires
        w0 >= 0,
        (w0 + (k + 6) / 7) * 10 <= u32::MAX,
    ensures
        forall|j: int|
            0 <= j < day_ids(w0, skip, k).len() ==> {
                let id = #[trigger] day_ids(w0, skip, k)[j] as int;
                &&& w0 * 10 <= id
                &&& id < (w0 + (k + 6) / 7) * 10
                &&& id % 10 <= 6
                &&& !skip.contains(id)
            },
        day_ids(w0, skip, k).len() <= k,
    decreases k,
{
    if k > 0 {
        lemma_day_ids_shape(w0, skip, (k - 1) as nat);
        let km = k - 1;
        assert(day_id(w0, km) % 10 == km % 7);
        assert((w0 + km / 7) * 10 + km % 7 < (w0 + (k + 6) / 7) * 10);
        assert((w0 + (km + 6) / 7) * 10 <= (w0 + (k + 6) / 7) * 10);
        let id = day_id(w0, km);
        assert(id as u32 as int == id);
        assert(forall|j: int|
            0 <= j < day_ids(w0, skip, (k - 1) as nat).len() ==> (day_ids(w0, skip, k)[j]
                == day_ids(w0, skip, (k - 1) as nat)[j]));
    }
}

/// The ids of the first `k` days are strictly increasing.
pub proof fn lemma_day_ids_increasing(w0: int, skip: Set<int>, k: nat)
    requires
        w0 >= 0,
        w0 * 10 + (k + 6) / 7 * 10 <= u32::MAX,
    ensures
        forall|a: int, b: int|
            0 <= a < b < day_ids(w0, skip, k).len() ==> #[trigger] day_ids(w0, skip, k)[a]
                < #[trigger] day_ids(w0, skip, k)[b],
        forall|a: int|
            0 <= a < day_ids(w0, skip, k).len() ==> #[trigger] day_ids(w0, skip, k)[a]
                < day_id(w0, k as int),
    decreases k,
{
    if k > 0 {
        let km = (k - 1) as nat;
        lemma_day_ids_increasing(w0, skip, km);
        assert(day_id(w0, km as int) < day_id(w0, k as int));
        assert(forall|j: int|
            0 <= j < day_ids(w0, skip, km).len() ==> (day_ids(w0, skip, k)[j] == day_ids(
                w0,
                skip,
                km,
            )[j]));
    }
}

proof fn lemma_year_ids_bounded(year: Seq<char>)
    ensures
        forall|j: int|
            0 <= j < year_dataset_ids(year).len() ==> 18770 <= #[trigger] year_dataset_ids(
                year,
            )[j] < 20350,
{
    lemma_day_ids_shape(first_week(year), missing_days(year), week_count(year) * 7);
}


/// A UTF-8 continuation byte: a string cannot be cut in front of one.
pub open spec fn is_continuation_byte(b: u8) -> bool {
    0x80 <= b && b < 0xC0
}

/// Bytes read as the characters with the same code (ASCII stays ASCII).
pub open spec fn bytes_as_chars(b: Seq<u8>) -> Seq<char> {
    b.map_values(|x: u8| x as char)
}

pub open spec fn has_gbm_prefix(b: Seq<u8>) -> bool {
    b.len() >= 3 && b[0] == 103 && b[1] == 98 && b[2] == 109
}

/// The five-digit id in a dataset name: the bytes after `gbm` up to byte 8, as
/// an unsigned integer, when the name is long enough and starts with `gbm`.
pub open spec fn spec_dataset_id(b: Seq<u8>) -> Option<u32> {
    if b.len() >= 8 && has_gbm_prefix(b) {
        spec_parse_u32(bytes_as_chars(b.subrange(3, 8)))
    } else {
        None
    }
}

/// The four-digit GPS week in a dataset name (bytes 3 to 7).
pub open spec fn spec_gps_week(b: Seq<u8>) -> Option<u32> {
    if b.len() >= 7 && has_gbm_prefix(b) {
        spec_parse_u32(bytes_as_chars(b.subrange(3, 7)))
    } else {
        None
    }
}

/// Parses the integer in bytes `from..to` of `b`.
fn parse_u32_bytes(b: &[u8], from: usize, to: usize) -> (r: Option<u32>)
    requires
        from <= to <= b@.len(),
    ensures
        r == spec_parse_u32(bytes_as_chars(b@.subrange(from as int, to as int))),
{
    let mut cs: Vec<char> = Vec::new();
    let mut i = from;
    while i < to
        invariant
            from <= i <= to <= b@.len(),
            cs@ == bytes_as_chars(b@.subrange(from as int, i as int)),
        decreases to - i,
    {
        cs.push(b[i] as char);
        i = i + 1;
        assert(cs@ =~= bytes_as_chars(b@.subrange(from as int, i as int)));
    }
    parse_u32(cs.as_slice())
}

/// The dataset identifier in a dataset name, e.g. `gbm19670` gives 19670.
///
/// Cutting the name after byte 8 must not split a character.
pub fn extract_gps_dataset_id(dataset: &str) -> (r: Option<u32>)
    requires
        dataset.spec_bytes().len() > 8 && has_gbm_prefix(dataset.spec_bytes())
            ==> !is_continuation_byte(dataset.spec_bytes()[8]),
    ensures
        r == spec_dataset_id(dataset.spec_bytes()),
{
    let b = dataset.as_bytes();
    if b.len() >= 8 && b[0] == 103 && b[1] == 98 && b[2] == 109 {
        parse_u32_bytes(b, 3, 8)
    } else {
        None
    }
}

/// The GPS week in a dataset name, e.g. `gbm19670` gives 1967.
///
/// Cutting the name after byte 7 must not split a character.
pub fn extract_gps_week(dataset: &str) -> (r: Option<u32>)
    requires
        dataset.spec_bytes().len() > 7 && has_gbm_prefix(dataset.spec_bytes())
            ==> !is_continuation_byte(dataset.spec_bytes()[7]),
    ensures
        r == spec_gps_week(dataset.spec_bytes()),
{
    let b = dataset.as_bytes();
    if b.len() >= 7 && b[0] == 103 && b[1] == 98 && b[2] == 109 {
        parse_u32_bytes(b, 3, 7)
    } else {
        None
    }
}

/// The digits of `n` read back give `n`, when `n` has at most `k` digits.
pub proof fn lemma_digits_of_value(n: int, k: nat)
    requires
        0 <= n < pow10(k),
    ensures
        digits_of(n, k).len() == k,
        all_digits(digits_of(n, k)),
        digits_value(digits_of(n, k)) == n,
    decreases k,
{
    if k > 0 {
        assert(n / 10 < pow10((k - 1) as nat));
        lemma_digits_of_value(n / 10, (k - 1) as nat);
        let d = digits_of(n, k);
        assert(d.drop_last() =~= digits_of(n / 10, (k - 1) as nat));
        assert forall|i: int| 0 <= i < d.len() implies crate::text::is_digit(#[trigger] d[i]) by {
            if i < d.len() - 1 {
                assert(d[i] == digits_of(n / 10, (k - 1) as nat)[i]);
            }
        }
    }
}

/// The bytes of a dataset name, which is all ASCII.
pub proof fn lemma_dataset_name_bytes(id: u32)
    requires
        id < 100000,
    ensures
        vstd::utf8::encode_utf8(dataset_name(id)).len() == 8,
        bytes_as_chars(vstd::utf8::encode_utf8(dataset_name(id))) == dataset_name(id),
{
    let name = dataset_name(id);
    reveal_with_fuel(digits_of, 6);
    reveal_with_fuel(pow10, 6);
    assert(vstd::utf8::is_ascii_chars(name)) by {
        lemma_digits_of_value(id as int, 5);
        assert forall|i: int| 0 <= i < name.len() implies '\0' <= #[trigger] name[i] <= '\u{7f}' by {
            if i >= 3 {
                assert(name[i] == digits_of(id as int, 5)[i - 3]);
            }
        }
    }
    vstd::utf8::is_ascii_chars_encode_utf8(name);
    let b = vstd::utf8::encode_utf8(name);
    assert forall|i: int| 0 <= i < name.len() implies bytes_as_chars(b)[i] == name[i] by {
        assert(name[i] as u8 == b[i]);
        let c = name[i];
        assert(c as u32 <= 0x7f);
        assert((c as u8) as char == c);
    }
    assert(bytes_as_chars(b) =~= name);
}

/// Reading a dataset name back: for every dataset of a year, the name gives
/// back its id, and its GPS week is the id without the weekday digit.
pub proof fn law_year_dataset_names_round_trip(year: Seq<char>, j: int)
    requires
        0 <= j < year_dataset_ids(year).len(),
    ensures
        ({
            let id = year_dataset_ids(year)[j];
            let b = vstd::utf8::encode_utf8(year_dataset_names(year)[j]);
            &&& b.len() == 8
            &&& spec_dataset_id(b) == Some(id)
            &&& spec_gps_week(b) == Some((id / 10) as u32)
        }),
{
    lemma_year_ids_bounded(year);
    let id = year_dataset_ids(year)[j];
    let name = dataset_name(id);
    assert(year_dataset_names(year)[j] == name);
    lemma_dataset_name_bytes(id);
    let b = vstd::utf8::encode_utf8(name);
    reveal_with_fuel(digits_of, 6);
    reveal_with_fuel(pow10, 6);
    assert(bytes_as_chars(b.subrange(3, 8)) =~= bytes_as_chars(b).subrange(3, 8));
    assert(bytes_as_chars(b.subrange(3, 7)) =~= bytes_as_chars(b).subrange(3, 7));
    assert(name.subrange(3, 8) =~= digits_of(id as int, 5));
    assert(digits_of(id as int, 5).drop_last() =~= digits_of(id as int / 10, 4));
    assert(name.subrange(3, 7) =~= digits_of(id as int / 10, 4));
    assert(b[0] == 103 && b[1] == 98 && b[2] == 109) by {
        assert(bytes_as_chars(b)[0] == 'g');
        assert(bytes_as_chars(b)[1] == 'b');
        assert(bytes_as_chars(b)[2] == 'm');
    }
    lemma_digits_of_value(id as int, 5);
    lemma_digits_of_value(id as int / 10, 4);
}


/// The datasets of a year come in strictly increasing order of id (so no name
/// repeats), every id carries a weekday digit from 0 to 6, and lies in the
/// year's GPS weeks.
pub proof fn law_year_dataset_ids_ordered(year: Seq<char>)
    ensures
        forall|a: int, b: int|
            0 <= a < b < year_dataset_ids(year).len() ==> #[trigger] year_dataset_ids(year)[a]
                < #[trigger] year_dataset_ids(year)[b],
        forall|j: int|
            0 <= j < year_dataset_ids(year).len() ==> {
                let id = #[trigger] year_dataset_ids(year)[j] as int;
                &&& id % 10 <= 6
                &&& first_week(year) <= id / 10 < first_week(year) + week_count(year)
            },
{
    let w0 = first_week(year);
    let k = week_count(year) * 7;
    lemma_day_ids_shape(w0, missing_days(year), k);
    lemma_day_ids_increasing(w0, missing_days(year), k);
    assert((k + 6) / 7 == week_count(year));
}

/// `a` comes strictly before `b` in the character-by-character order of names.
pub open spec fn lex_lt(a: Seq<char>, b: Seq<char>) -> bool {
    lex_le(a, b) && a != b
}

/// Two names of one length keep a strict order when the same character follows each.
proof fn lemma_lex_lt_push_both(x: Seq<char>, y: Seq<char>, c: char, d: char)
    requires
        x.len() == y.len(),
        lex_lt(x, y),
    ensures
        lex_lt(x.push(c), y.push(d)),
    decreases x.len(),
{
    if x.len() == 0 {
        assert(x =~= y);
    } else {
        assert(x.push(c).drop_first() =~= x.drop_first().push(c));
        assert(y.push(d).drop_first() =~= y.drop_first().push(d));
        if x[0] == y[0] {
            if x.drop_first() == y.drop_first() {
                assert(x =~= seq![x[0]] + x.drop_first());
                assert(y =~= seq![y[0]] + y.drop_first());
            }
            lemma_lex_lt_push_both(x.drop_first(), y.drop_first(), c, d);
        }
        assert(x.push(c)[0] == x[0] && y.push(d)[0] == y[0]);
        if x.push(c) == y.push(d) {
            assert(x =~= x.push(c).drop_last());
            assert(y =~= y.push(d).drop_last());
        }
    }
}

/// One name followed by a smaller and by a larger character.
proof fn lemma_lex_lt_push_last(x: Seq<char>, c: char, d: char)
    requires
        c < d,
    ensures
        lex_lt(x.push(c), x.push(d)),
    decreases x.len(),
{
    if x.len() > 0 {
        assert(x.push(c).drop_first() =~= x.drop_first().push(c));
        assert(x.push(d).drop_first() =~= x.drop_first().push(d));
        lemma_lex_lt_push_last(x.drop_first(), c, d);
    }
    assert(x.push(c)[x.len() as int] != x.push(d)[x.len() as int]);
}

/// A common prefix does not change the order.
proof fn lemma_lex_lt_common_prefix(p: Seq<char>, x: Seq<char>, y: Seq<char>)
    requires
        lex_lt(x, y),
    ensures
        lex_lt(p + x, p + y),
    decreases p.len(),
{
    if p.len() > 0 {
        assert((p + x).drop_first() =~= p.drop_first() + x);
        assert((p + y).drop_first() =~= p.drop_first() + y);
        lemma_lex_lt_common_prefix(p.drop_first(), x, y);
        if p + x == p + y {
            assert(x =~= (p + x).subrange(p.len() as int, (p + x).len() as int));
            assert(y =~= (p + y).subrange(p.len() as int, (p + y).len() as int));
        }
    }
}

/// Smaller numbers have smaller zero-padded digit strings.
proof fn lemma_digits_of_order(a: int, b: int, k: nat)
    requires
        0 <= a < b < pow10(k),
    ensures
        digits_of(a, k).len() == k,
        lex_lt(digits_of(a, k), digits_of(b, k)),
    decreases k,
{
    lemma_digits_of_value(a, k);
    lemma_digits_of_value(b, k);
    if k > 0 {
        let km = (k - 1) as nat;
        assert(b / 10 < pow10(km));
        lemma_digits_of_value(a / 10, km);
        lemma_digits_of_value(b / 10, km);
        if a / 10 < b / 10 {
            lemma_digits_of_order(a / 10, b / 10, km);
            lemma_lex_lt_push_both(digits_of(a / 10, km), digits_of(b / 10, km), digit_char(a % 10), digit_char(b % 10));
        } else {
            assert(a % 10 < b % 10);
            assert(digit_char(a % 10) < digit_char(b % 10));
            lemma_lex_lt_push_last(digits_of(a / 10, km), digit_char(a % 10), digit_char(b % 10));
        }
    }
}

/// Names of smaller ids come first.
proof fn lemma_dataset_name_order(a: u32, b: u32)
    requires
        a < b < 100000,
    ensures
        lex_lt(dataset_name(a), dataset_name(b)),
{
    reveal_with_fuel(pow10, 6);
    lemma_digits_of_order(a as int, b as int, 5);
    lemma_lex_lt_common_prefix(seq!['g', 'b', 'm'], digits_of(a as int, 5), digits_of(b as int, 5));
}

/// The dataset names of a year ascend as strings, so none repeats.
pub proof fn law_year_dataset_names_ascend(year: Seq<char>)
    ensures
        forall|a: int, b: int|
            0 <= a < b < year_dataset_names(year).len() ==> lex_lt(
                #[trigger] year_dataset_names(year)[a],
                #[trigger] year_dataset_names(year)[b],
            ),
{
    law_year_dataset_ids_ordered(year);
    lemma_year_ids_bounded(year);
    let ids = year_dataset_ids(year);
    assert forall|a: int, b: int|
        0 <= a < b < year_dataset_names(year).len() implies lex_lt(
            #[trigger] year_dataset_names(year)[a],
            #[trigger] year_dataset_names(year)[b],
        ) by {
        assert(ids[a] < ids[b]);
        lemma_dataset_name_order(ids[a], ids[b]);
    }
}

/// `y1` is a year with datasets that comes before the year `y2` with datasets.
pub open spec fn earlier_dataset_year(y1: Seq<char>, y2: Seq<char>) -> bool {
    ||| y1 == year_2016() && (y2 == year_2017() || y2 == year_2018())
    ||| y1 == year_2017() && y2 == year_2018()
}

/// The years are disjoint and in calendar order: every dataset of an earlier
/// year has a smaller id, and a name earlier as a string, than every dataset of
/// a later year.
pub proof fn law_years_in_calendar_order(y1: Seq<char>, y2: Seq<char>)
    requires
        earlier_dataset_year(y1, y2),
    ensures
        forall|i: int, j: int|
            0 <= i < year_dataset_ids(y1).len() && 0 <= j < year_dataset_ids(y2).len() ==> {
                &&& #[trigger] year_dataset_ids(y1)[i] < #[trigger] year_dataset_ids(y2)[j]
                &&& lex_lt(year_dataset_names(y1)[i], year_dataset_names(y2)[j])
            },
{
    law_year_dataset_ids_ordered(y1);
    law_year_dataset_ids_ordered(y2);
    lemma_year_ids_bounded(y1);
    lemma_year_ids_bounded(y2);
    assert(year_2016() != year_2017() && year_2016() != year_2018() && year_2017() != year_2018());
    assert forall|i: int, j: int|
        0 <= i < year_dataset_ids(y1).len() && 0 <= j < year_dataset_ids(y2).len() implies {
            &&& #[trigger] year_dataset_ids(y1)[i] < #[trigger] year_dataset_ids(y2)[j]
            &&& lex_lt(year_dataset_names(y1)[i], year_dataset_names(y2)[j])
        } by {
        let a = year_dataset_ids(y1)[i];
        let b = year_dataset_ids(y2)[j];
        assert(first_week(y1) + week_count(y1) <= first_week(y2));
        assert((a as int) / 10 < first_week(y1) + week_count(y1));
        assert(first_week(y2) <= (b as int) / 10);
        assert(a < b);
        lemma_dataset_name_order(a, b);
    }
}

/// A string of decimal digits is worth less than ten to the power of its length.
proof fn lemma_digits_value_bound(d: Seq<char>)
    requires
        all_digits(d),
    ensures
        0 <= digits_value(d) < pow10(d.len()),
    decreases d.len(),
{
    if d.len() > 0 {
        lemma_digits_value_bound(d.drop_last());
        assert(crate::text::is_digit(d[d.len() - 1]));
    }
}

/// For every name `gbm` followed by five digits, the GPS week is the dataset id
/// without its weekday digit.
pub proof fn law_week_is_id_without_day(b: Seq<u8>)
    requires
        b.len() >= 8,
        has_gbm_prefix(b),
        forall|i: int| 3 <= i < 8 ==> 48 <= #[trigger] b[i] <= 57,
    ensures
        spec_dataset_id(b) is Some,
        spec_gps_week(b) == Some((spec_dataset_id(b)->0 / 10) as u32),
{
    let d5 = bytes_as_chars(b.subrange(3, 8));
    let d4 = bytes_as_chars(b.subrange(3, 7));
    assert forall|i: int| 0 <= i < d5.len() implies crate::text::is_digit(#[trigger] d5[i]) by {
        let x = b[3 + i];
        assert(48 <= x <= 57);
        assert(d5[i] == x as char);
        assert(('0' as u32) == 48 && ('9' as u32) == 57);
        assert((x as char) as u32 == x as u32);
    }
    assert(d4 =~= d5.drop_last());
    assert(all_digits(d4));
    reveal_with_fuel(pow10, 6);
    lemma_digits_value_bound(d5);
    lemma_digits_value_bound(d4);
    assert(d5[0] != '+');
    assert(d4[0] != '+');
    assert(crate::text::is_digit(d5.last()));
    assert(digits_value(d5) == digits_value(d4) * 10 + (d5.last() as int - '0' as int));
    assert(digits_value(d5) / 10 == digits_value(d4));
}

/// Whether the GPS week of a dataset name is one of `anomalous_weeks`; a name
/// without a readable week is never excluded.
///
/// Cutting the name after byte 7 must not split a character.
pub fn is_excluded_dataset(dataset_name: &str, anomalous_weeks: &[u32]) -> (r: bool)
    requires
        dataset_name.spec_bytes().len() > 7 && has_gbm_prefix(dataset_name.spec_bytes())
            ==> !is_continuation_byte(dataset_name.spec_bytes()[7]),
    ensures
        r == match spec_gps_week(dataset_name.spec_bytes()) {
            Some(w) => anomalous_weeks@.contains(w),
            None => false,
        },
{
    match extract_gps_week(dataset_name) {
        Some(week) => {
            let mut i: usize = 0;
            while i < anomalous_weeks.len()
                invariant
                    i <= anomalous_weeks@.len(),
                    spec_gps_week(dataset_name.spec_bytes()) == Some(week),
                    forall|j: int| 0 <= j < i ==> anomalous_weeks@[j] != week,
                decreases anomalous_weeks.len() - i,
            {
                if anomalous_weeks[i] == week {
                    assert(anomalous_weeks@[i as int] == week);
                    assert(anomalous_weeks@.contains(week));
                    return true;
                }
                i = i + 1;
            }
            false
        },
        None => false,
    }
}

/// Datasets left out of the analyses, by their five-digit id (GPS week and
/// day): E14-specific problems of 2016, the IGS08 to IGS14 reference-frame
/// transition of January and February 2017, the E14 anomaly of 18 August 2017,
/// the E18 anomaly of GPS week 1999 (2018), and September 2018.
pub const ANOMALOUS_WEEKS: [u32; 104] = [
    19236, 19095, 1923, 1909, 19300, 19301, 19302,
    19303, 19304, 19305, 19306, 19310, 19311, 19312,
    19313, 19314, 19315, 19316, 19320, 19321, 19322,
    19323, 19324, 19325, 19326, 19330, 19331, 19332,
    19333, 19334, 19335, 19336, 19340, 19341, 19342,
    19343, 19344, 19345, 19346, 19350, 19351, 19352,
    19353, 19354, 19355, 19356, 19360, 19361, 19362,
    19363, 19364, 19365, 19366, 19370, 19371, 19372,
    19373, 19374, 19375, 19376, 19625, 19990, 19991,
    19992, 19993, 19994, 19995, 19996, 20176, 20180,
    20181, 20182, 20183, 20184, 20185, 20186, 20190,
    20191, 20192, 20193, 20194, 20195, 20196, 20200,
    20201, 20202, 20203, 20204, 20205, 20206, 20210,
    20211, 20212, 20213, 20214, 20215, 20216, 20220,
    20221, 20222, 20223, 20224, 20225, 20226,
];

/// Whether the five-digit id of a dataset name is one of `ids`; a name without a
/// readable id is never listed.
///
/// Cutting the name after byte 8 must not split a character.
pub fn is_listed_dataset(dataset: &str, ids: &[u32]) -> (r: bool)
    requires
        dataset.spec_bytes().len() > 8 && has_gbm_prefix(dataset.spec_bytes())
            ==> !is_continuation_byte(dataset.spec_bytes()[8]),
    ensures
        r == match spec_dataset_id(dataset.spec_bytes()) {
            Some(id) => ids@.contains(id),
            None => false,
        },
{
    match extract_gps_dataset_id(dataset) {
        Some(id) => {
            let mut i: usize = 0;
            while i < ids.len()
                invariant
                    i <= ids@.len(),
                    spec_dataset_id(dataset.spec_bytes()) == Some(id),
                    forall|j: int| 0 <= j < i ==> ids@[j] != id,
                decreases ids.len() - i,
            {
                if ids[i] == id {
                    assert(ids@[i as int] == id);
                    return true;
                }
                i = i + 1;
            }
            false
        },
        None => false,
    }
}

/// Whether a dataset is one of the anomalous datasets (see `ANOMALOUS_WEEKS`).
pub fn is_anomalous_dataset(dataset: &str) -> (r: bool)
    requires
        dataset.spec_bytes().len() > 8 && has_gbm_prefix(dataset.spec_bytes())
            ==> !is_continuation_byte(dataset.spec_bytes()[8]),
    ensures
        r == match spec_dataset_id(dataset.spec_bytes()) {
            Some(id) => ANOMALOUS_WEEKS@.contains(id),
            None => false,
        },
{
    let ids = ANOMALOUS_WEEKS;
    is_listed_dataset(dataset, ids.as_slice())
}

} // verus!
