//! Character-level text handling shared by the line parsers: whitespace
//! classification, token splitting, trimming and decimal integer parsing.

use vstd::prelude::*;
use vstd::string::StringSliceAdditionalSpecFns;
use vstd::utf8::{
    decode_utf8, encode_utf8_decode_utf8, encode_utf8_valid_utf8, is_char_boundary,
    is_char_boundary_iff_not_is_continuation_byte, is_char_boundary_start_end_of_seq,
};

verus! {

/// The Unicode `White_Space` property, which is what `char::is_whitespace` tests.
pub open spec fn is_ws(c: char) -> bool {
    let u = c as u32;
    ||| 9 <= u && u <= 13
    ||| u == 32
    ||| u == 0x85
    ||| u == 0xA0
    ||| u == 0x1680
    ||| 0x2000 <= u && u <= 0x200A
    ||| u == 0x2028
    ||| u == 0x2029
    ||| u == 0x202F
    ||| u == 0x205F
    ||| u == 0x3000
}

/// Whether `c` is a Unicode whitespace character.
pub fn is_whitespace(c: char) -> (r: bool)
    ensures
        r == is_ws(c),
{
    let u = c as u32;
    (9 <= u && u <= 13) || u == 32 || u == 0x85 || u == 0xA0 || u == 0x1680 || (0x2000 <= u && u
        <= 0x200A) || u == 0x2028 || u == 0x2029 || u == 0x202F || u == 0x205F || u == 0x3000
}

/// The characters of a string slice, in order.
pub fn chars_of(s: &str) -> (v: Vec<char>)
    ensures
        v@ == s@,
{
    let n = s.unicode_len();
    let mut v: Vec<char> = Vec::new();
    let mut i: usize = 0;
    while i < n
        invariant
            n == s@.len(),
            i <= n,
            v@ == s@.take(i as int),
        decreases n - i,
    {
        v.push(s.get_char(i));
        i = i + 1;
        assert(v@ =~= s@.take(i as int));
    }
    assert(v@ =~= s@);
    v
}

/// `String::push`: appends one character to a string.
#[verifier::external_body]
pub(crate) fn push_char(s: &mut String, c: char)
    ensures
        final(s)@ == old(s)@.push(c),
{
    s.push(c);
}

/// A string holding the characters `cs[from..to]`.
pub fn string_from_chars(cs: &[char], from: usize, to: usize) -> (r: String)
    requires
        from <= to <= cs@.len(),
    ensures
        r@ == cs@.subrange(from as int, to as int),
{
    let mut r = String::new();
    let mut i = from;
    while i < to
        invariant
            from <= i <= to <= cs@.len(),
            r@ == cs@.subrange(from as int, i as int),
        decreases to - i,
    {
        push_char(&mut r, cs[i]);
        i = i + 1;
        assert(r@ =~= cs@.subrange(from as int, i as int));
    }
    r
}

/// Number of leading characters of `s` that are not whitespace.
pub open spec fn word_len(s: Seq<char>) -> nat
    decreases s.len(),
{
    if s.len() == 0 || is_ws(s[0]) {
        0
    } else {
        1 + word_len(s.drop_first())
    }
}

/// The whitespace-separated words of `s`, as `str::split_whitespace` yields them.
pub open spec fn words(s: Seq<char>) -> Seq<Seq<char>>
    decreases s.len(),
{
    if s.len() == 0 {
        seq![]
    } else if is_ws(s[0]) {
        words(s.drop_first())
    } else {
        proof {
            lemma_word_len_bound(s);
        }
        seq![s.take(word_len(s) as int)] + words(s.skip(word_len(s) as int))
    }
}

pub proof fn lemma_word_len_bound(s: Seq<char>)
    ensures
        word_len(s) <= s.len(),
        s.len() > 0 && !is_ws(s[0]) ==> word_len(s) >= 1,
        forall|k: int| 0 <= k < word_len(s) ==> !is_ws(#[trigger] s[k]),
        word_len(s) < s.len() ==> is_ws(s[word_len(s) as int]),
    decreases s.len(),
{
    if s.len() > 0 && !is_ws(s[0]) {
        lemma_word_len_bound(s.drop_first());
        assert forall|k: int| 0 <= k < word_len(s) implies !is_ws(#[trigger] s[k]) by {
            if k > 0 {
                assert(s[k] == s.drop_first()[k - 1]);
            }
        }
    }
}

/// `word_len` of a suffix, computed from its first whitespace position.
proof fn lemma_word_len_at(s: Seq<char>, i: int, j: int)
    requires
        0 <= i <= j <= s.len(),
        forall|k: int| i <= k < j ==> !is_ws(#[trigger] s[k]),
        j == s.len() || is_ws(s[j]),
    ensures
        word_len(s.skip(i)) == j - i,
    decreases j - i,
{
    if i == j {
    } else {
        lemma_word_len_at(s, i + 1, j);
        assert(s.skip(i).drop_first() =~= s.skip(i + 1));
    }
}

/// The whitespace-separated words of `cs`, each as a `String`.
pub fn split_words(cs: &[char]) -> (r: Vec<String>)
    ensures
        r@.map_values(|w: String| w@) == words(cs@),
{
    let n = cs.len();
    let mut r: Vec<String> = Vec::new();
    let mut i: usize = 0;
    assert(cs@.skip(0) =~= cs@);
    assert(r@.map_values(|w: String| w@) =~= Seq::<Seq<char>>::empty());
    while i < n
        invariant
            n == cs@.len(),
            i <= n,
            r@.map_values(|w: String| w@) + words(cs@.skip(i as int)) == words(cs@),
        decreases n - i,
    {
        let ghost rest = cs@.skip(i as int);
        if is_whitespace(cs[i]) {
            assert(rest.drop_first() =~= cs@.skip(i + 1));
            i = i + 1;
        } else {
            let mut j = i + 1;
            while j < n && !is_whitespace(cs[j])
                invariant
                    n == cs@.len(),
                    i < j <= n,
                    forall|k: int| i <= k < j ==> !is_ws(#[trigger] cs@[k]),
                decreases n - j,
            {
                j = j + 1;
            }
            proof {
                lemma_word_len_at(cs@, i as int, j as int);
                assert(rest.take(word_len(rest) as int) =~= cs@.subrange(i as int, j as int));
                assert(rest.skip(word_len(rest) as int) =~= cs@.skip(j as int));
            }
            let ghost before = r@.map_values(|w: String| w@);
            let w = string_from_chars(cs, i, j);
            r.push(w);
            assert(r@.map_values(|w: String| w@) =~= before.push(cs@.subrange(i as int, j as int)));
            i = j;
        }
    }
    assert(cs@.skip(n as int) =~= Seq::<char>::empty());
    assert(r@.map_values(|w: String| w@) =~= words(cs@));
    r
}


/// Whether `c` is an ASCII decimal digit.
pub open spec fn is_digit(c: char) -> bool {
    '0' <= c && c <= '9'
}

pub open spec fn all_digits(d: Seq<char>) -> bool {
    forall|i: int| 0 <= i < d.len() ==> is_digit(#[trigger] d[i])
}

/// The value of a string of decimal digits, most significant first.
pub open spec fn digits_value(d: Seq<char>) -> int
    decreases d.len(),
{
    if d.len() == 0 {
        0
    } else {
        digits_value(d.drop_last()) * 10 + (d.last() as int - '0' as int)
    }
}

/// What `str::parse::<u32>` gives: an optional `+`, then one or more decimal
/// digits whose value fits in a `u32`.
pub open spec fn spec_parse_u32(s: Seq<char>) -> Option<u32> {
    let d = if s.len() > 0 && s[0] == '+' {
        s.drop_first()
    } else {
        s
    };
    if d.len() > 0 && all_digits(d) && digits_value(d) <= u32::MAX {
        Some(digits_value(d) as u32)
    } else {
        None
    }
}

/// What `str::parse::<i32>` gives: an optional `+` or `-`, then one or more
/// decimal digits, the signed value fitting in an `i32`.
pub open spec fn spec_parse_i32(s: Seq<char>) -> Option<i32> {
    let signed = s.len() > 0 && (s[0] == '+' || s[0] == '-');
    let neg = s.len() > 0 && s[0] == '-';
    let d = if signed {
        s.drop_first()
    } else {
        s
    };
    let v = if neg {
        -digits_value(d)
    } else {
        digits_value(d)
    };
    if d.len() > 0 && all_digits(d) && i32::MIN <= v <= i32::MAX {
        Some(v as i32)
    } else {
        None
    }
}

pub proof fn lemma_digits_value_nonneg(d: Seq<char>)
    requires
        all_digits(d),
    ensures
        digits_value(d) >= 0,
    decreases d.len(),
{
    if d.len() > 0 {
        lemma_digits_value_nonneg(d.drop_last());
    }
}

/// A digit string is worth at least as much as any of its prefixes.
pub proof fn lemma_digits_value_prefix(d: Seq<char>, k: int)
    requires
        all_digits(d),
        0 <= k <= d.len(),
    ensures
        digits_value(d.take(k)) <= digits_value(d),
    decreases d.len(),
{
    if k < d.len() {
        assert(d.drop_last().take(k) =~= d.take(k));
        lemma_digits_value_prefix(d.drop_last(), k);
        lemma_digits_value_nonneg(d.drop_last());
    } else {
        assert(d.take(k) =~= d);
    }
}

/// The value of the decimal digits `d[from..]`, or `None` when one of them is not
/// a digit or the value exceeds `limit`.
fn digits_value_upto(d: &[char], from: usize, limit: u64) -> (r: Option<u64>)
    requires
        from <= d@.len(),
        limit <= u32::MAX + 1,
    ensures
        r is Some <==> all_digits(d@.skip(from as int)) && digits_value(d@.skip(from as int))
            <= limit,
        r matches Some(v) ==> v == digits_value(d@.skip(from as int)),
{
    let n = d.len();
    let ghost t = d@.skip(from as int);
    let mut i = from;
    let mut acc: u64 = 0;
    assert(t.take(0) =~= Seq::<char>::empty());
    while i < n
        invariant
            n == d@.len(),
            from <= i <= n,
            t == d@.skip(from as int),
            limit <= u32::MAX + 1,
            all_digits(t.take(i - from)),
            acc == digits_value(t.take(i - from)),
            acc <= limit,
        decreases n - i,
    {
        let c = d[i];
        if !('0' <= c && c <= '9') {
            assert(t[i - from] == c);
            return None;
        }
        let dv = (c as u64) - ('0' as u64);
        assert(t.take(i + 1 - from).drop_last() =~= t.take(i - from));
        assert(t.take(i + 1 - from).last() == c);
        let next = acc * 10 + dv;
        if next > limit {
            proof {
                assert(all_digits(t.take(i + 1 - from)));
                if all_digits(t) {
                    lemma_digits_value_prefix(t, i + 1 - from);
                }
            }
            return None;
        }
        acc = next;
        i = i + 1;
    }
    assert(t.take(n - from) =~= t);
    Some(acc)
}

/// `str::parse::<u32>` over the characters of a token.
pub fn parse_u32(s: &[char]) -> (r: Option<u32>)
    ensures
        r == spec_parse_u32(s@),
{
    let start: usize = if s.len() > 0 && s[0] == '+' {
        1
    } else {
        0
    };
    assert(start == 1 ==> s@.skip(1) =~= s@.drop_first());
    assert(start == 0 ==> s@.skip(0) =~= s@);
    if start >= s.len() {
        return None;
    }
    match digits_value_upto(s, start, 0xFFFF_FFFF) {
        Some(v) => Some(v as u32),
        None => None,
    }
}

/// `str::parse::<i32>` over the characters of a token.
pub fn parse_i32(s: &[char]) -> (r: Option<i32>)
    ensures
        r == spec_parse_i32(s@),
{
    let signed = s.len() > 0 && (s[0] == '+' || s[0] == '-');
    let neg = s.len() > 0 && s[0] == '-';
    let start: usize = if signed {
        1
    } else {
        0
    };
    assert(start == 1 ==> s@.skip(1) =~= s@.drop_first());
    assert(start == 0 ==> s@.skip(0) =~= s@);
    if start >= s.len() {
        return None;
    }
    let limit: u64 = if neg {
        0x8000_0000
    } else {
        0x7FFF_FFFF
    };
    match digits_value_upto(s, start, limit) {
        Some(v) => {
            if neg {
                Some((0 - (v as i64)) as i32)
            } else {
                Some(v as i32)
            }
        },
        None => None,
    }
}


/// Number of leading whitespace characters.
pub open spec fn lead_ws(s: Seq<char>) -> nat
    decreases s.len(),
{
    if s.len() == 0 || !is_ws(s[0]) {
        0
    } else {
        1 + lead_ws(s.drop_first())
    }
}

/// Number of trailing whitespace characters.
pub open spec fn trail_ws(s: Seq<char>) -> nat
    decreases s.len(),
{
    if s.len() == 0 || !is_ws(s.last()) {
        0
    } else {
        1 + trail_ws(s.drop_last())
    }
}

/// `s` without leading and trailing whitespace, as `str::trim` gives it.
pub open spec fn trim(s: Seq<char>) -> Seq<char> {
    let a = lead_ws(s);
    if a == s.len() {
        seq![]
    } else {
        s.subrange(a as int, s.len() - trail_ws(s))
    }
}

pub proof fn lemma_lead_ws(s: Seq<char>)
    ensures
        lead_ws(s) <= s.len(),
        forall|k: int| 0 <= k < lead_ws(s) ==> is_ws(#[trigger] s[k]),
        lead_ws(s) < s.len() ==> !is_ws(s[lead_ws(s) as int]),
    decreases s.len(),
{
    if s.len() > 0 && is_ws(s[0]) {
        lemma_lead_ws(s.drop_first());
        assert forall|k: int| 0 <= k < lead_ws(s) implies is_ws(#[trigger] s[k]) by {
            if k > 0 {
                assert(s[k] == s.drop_first()[k - 1]);
            }
        }
    }
}

pub proof fn lemma_trail_ws(s: Seq<char>)
    ensures
        trail_ws(s) <= s.len(),
        forall|k: int| s.len() - trail_ws(s) <= k < s.len() ==> is_ws(#[trigger] s[k]),
        trail_ws(s) < s.len() ==> !is_ws(s[s.len() - trail_ws(s) - 1]),
    decreases s.len(),
{
    if s.len() > 0 && is_ws(s.last()) {
        lemma_trail_ws(s.drop_last());
        assert forall|k: int| s.len() - trail_ws(s) <= k < s.len() implies is_ws(#[trigger] s[k]) by {
            if k < s.len() - 1 {
                assert(s[k] == s.drop_last()[k]);
            }
        }
    }
}

proof fn lemma_lead_ws_at(s: Seq<char>, i: int)
    requires
        0 <= i <= s.len(),
        forall|k: int| 0 <= k < i ==> is_ws(#[trigger] s[k]),
        i == s.len() || !is_ws(s[i]),
    ensures
        lead_ws(s) == i,
    decreases i,
{
    if i > 0 {
        lemma_lead_ws_at(s.drop_first(), i - 1);
    }
}

proof fn lemma_trail_ws_at(s: Seq<char>, j: int)
    requires
        0 <= j <= s.len(),
        forall|k: int| j <= k < s.len() ==> is_ws(#[trigger] s[k]),
        j == 0 || !is_ws(s[j - 1]),
    ensures
        trail_ws(s) == s.len() - j,
    decreases s.len() - j,
{
    if j < s.len() {
        lemma_trail_ws_at(s.drop_last(), j);
    }
}

/// The bounds `(a, b)` of `trim(cs)` within `cs`.
pub fn trim_bounds(cs: &[char]) -> (r: (usize, usize))
    ensures
        r.0 <= r.1 <= cs@.len(),
        cs@.subrange(r.0 as int, r.1 as int) == trim(cs@),
{
    let n = cs.len();
    let mut a: usize = 0;
    while a < n && is_whitespace(cs[a])
        invariant
            a <= n == cs@.len(),
            forall|k: int| 0 <= k < a ==> is_ws(#[trigger] cs@[k]),
        decreases n - a,
    {
        a = a + 1;
    }
    proof {
        lemma_lead_ws_at(cs@, a as int);
    }
    if a == n {
        return (n, n);
    }
    let mut b: usize = n;
    while b > a && is_whitespace(cs[b - 1])
        invariant
            a < n == cs@.len(),
            a <= b <= n,
            !is_ws(cs@[a as int]),
            forall|k: int| b <= k < n ==> is_ws(#[trigger] cs@[k]),
        decreases b,
    {
        b = b - 1;
    }
    proof {
        lemma_trail_ws_at(cs@, b as int);
    }
    (a, b)
}

/// The characters of `s` with surrounding whitespace removed.
pub fn trimmed_chars(s: &str) -> (r: Vec<char>)
    ensures
        r@ == trim(s@),
{
    let cs = chars_of(s);
    trimmed_vec(cs.as_slice())
}

pub open spec fn starts_with(s: Seq<char>, p: Seq<char>) -> bool {
    p.len() <= s.len() && s.take(p.len() as int) == p
}

pub open spec fn ends_with(s: Seq<char>, p: Seq<char>) -> bool {
    p.len() <= s.len() && s.skip(s.len() - p.len()) == p
}

pub open spec fn contains_at(s: Seq<char>, p: Seq<char>, i: int) -> bool {
    0 <= i && i + p.len() <= s.len() && s.subrange(i, i + p.len()) == p
}

/// `p` occurs in `s`, as `str::contains` tests.
pub open spec fn contains(s: Seq<char>, p: Seq<char>) -> bool {
    exists|i: int| contains_at(s, p, i)
}

/// Whether `s[i..]` begins with `p`.
pub fn matches_at(s: &[char], p: &[char], i: usize) -> (r: bool)
    requires
        i <= s@.len(),
    ensures
        r == (i + p@.len() <= s@.len() && s@.subrange(i as int, i + p@.len()) == p@),
{
    let n = s.len();
    if p.len() > n - i {
        return false;
    }
    let mut k: usize = 0;
    while k < p.len()
        invariant
            n == s@.len(),
            i + p@.len() <= s@.len(),
            k <= p@.len(),
            forall|q: int| 0 <= q < k ==> s@[i + q] == p@[q],
        decreases p.len() - k,
    {
        if s[i + k] != p[k] {
            assert(s@.subrange(i as int, i + p@.len())[k as int] != p@[k as int]);
            return false;
        }
        k = k + 1;
    }
    assert(s@.subrange(i as int, i + p@.len()) =~= p@);
    true
}

/// Whether `s` begins with `p`.
pub fn starts_with_exec(s: &[char], p: &str) -> (r: bool)
    ensures
        r == starts_with(s@, p@),
{
    let pc = chars_of(p);
    let r = matches_at(s, pc.as_slice(), 0);
    assert(s@.subrange(0, pc@.len() as int) == s@.take(pc@.len() as int));
    r
}

/// Whether `s` ends with `p`.
pub fn ends_with_exec(s: &[char], p: &str) -> (r: bool)
    ensures
        r == ends_with(s@, p@),
{
    let pc = chars_of(p);
    if pc.len() > s.len() {
        return false;
    }
    let r = matches_at(s, pc.as_slice(), s.len() - pc.len());
    assert(s@.subrange(s@.len() - pc@.len(), s@.len() as int) == s@.skip(s@.len() - pc@.len()));
    r
}

/// Whether `p` occurs in `s`.
pub fn contains_exec(s: &[char], p: &str) -> (r: bool)
    ensures
        r == contains(s@, p@),
{
    let pc = chars_of(p);
    let n = s.len();
    let mut i: usize = 0;
    while i < n
        invariant
            n == s@.len(),
            i <= n,
            pc@ == p@,
            forall|j: int| 0 <= j < i ==> !contains_at(s@, p@, j),
        decreases n - i,
    {
        if matches_at(s, pc.as_slice(), i) {
            assert(contains_at(s@, p@, i as int));
            return true;
        }
        i = i + 1;
    }
    if matches_at(s, pc.as_slice(), n) {
        assert(contains_at(s@, p@, n as int));
        return true;
    }
    assert forall|j: int| !contains_at(s@, p@, j) by {
        if 0 <= j && j + p@.len() <= s@.len() {
            assert(j <= n);
        }
    }
    false
}

/// Splitting on whitespace ignores the whitespace around the text.
pub proof fn law_words_of_trim(s: Seq<char>)
    ensures
        words(trim(s)) == words(s),
    decreases s.len(),
{
    lemma_lead_ws(s);
    lemma_trail_ws(s);
    lemma_words_skip_ws(s, lead_ws(s) as int);
    let a = lead_ws(s) as int;
    if a < s.len() {
        let t = s.skip(a);
        lemma_words_drop_trailing_ws(t, trail_ws(s) as int);
        assert(trim(s) =~= t.take(t.len() - trail_ws(s)));
    } else {
        assert(s.skip(a) =~= Seq::<char>::empty());
    }
}

/// Leading whitespace does not change the words.
proof fn lemma_words_skip_ws(s: Seq<char>, a: int)
    requires
        0 <= a <= s.len(),
        forall|k: int| 0 <= k < a ==> is_ws(#[trigger] s[k]),
    ensures
        words(s.skip(a)) == words(s),
    decreases a,
{
    if a > 0 {
        assert(s.skip(0) =~= s);
        lemma_words_skip_ws(s.drop_first(), a - 1);
        assert(s.drop_first().skip(a - 1) =~= s.skip(a));
    } else {
        assert(s.skip(0) =~= s);
    }
}

/// Trailing whitespace does not change the words.
proof fn lemma_words_drop_trailing_ws(t: Seq<char>, k: int)
    requires
        0 <= k <= t.len(),
        forall|q: int| t.len() - k <= q < t.len() ==> is_ws(#[trigger] t[q]),
    ensures
        words(t.take(t.len() - k)) == words(t),
    decreases t.len(),
{
    if k == 0 {
        assert(t.take(t.len() as int) =~= t);
    } else if t.len() == 0 {
    } else if is_ws(t[0]) {
        if k == t.len() {
            lemma_words_all_ws(t);
            assert(t.take(0) =~= Seq::<char>::empty());
        } else {
            lemma_words_drop_trailing_ws(t.drop_first(), k);
            assert(t.take(t.len() - k).drop_first() =~= t.drop_first().take(t.len() - 1 - k));
        }
    } else {
        let u = t.take(t.len() - k);
        lemma_word_len_bound(t);
        lemma_word_len_bound(u);
        let w = word_len(t) as int;
        assert(w <= t.len() - k) by {
            if w > t.len() - k {
                assert(!is_ws(t[t.len() - k]));
            }
        }
        lemma_word_len_at(u, 0, w);
        assert(u.skip(0) =~= u);
        assert(u.take(w) =~= t.take(w));
        lemma_words_drop_trailing_ws(t.skip(w), k);
        assert(t.skip(w).take(t.skip(w).len() - k) =~= u.skip(w));
    }
}

proof fn lemma_words_all_ws(t: Seq<char>)
    requires
        forall|q: int| 0 <= q < t.len() ==> is_ws(#[trigger] t[q]),
    ensures
        words(t) == Seq::<Seq<char>>::empty(),
    decreases t.len(),
{
    if t.len() > 0 {
        lemma_words_all_ws(t.drop_first());
    }
}


/// The pieces of `s` between occurrences of `sep`, as `str::split` with a
/// `char` pattern yields them (empty pieces included).
pub open spec fn split_char(s: Seq<char>, sep: char) -> Seq<Seq<char>>
    decreases s.len(),
{
    if s.len() == 0 {
        seq![Seq::<char>::empty()]
    } else {
        let rest = split_char(s.drop_last(), sep);
        if s.last() == sep {
            rest.push(Seq::<char>::empty())
        } else {
            rest.update(rest.len() - 1, rest.last().push(s.last()))
        }
    }
}

pub proof fn lemma_split_char_nonempty(s: Seq<char>, sep: char)
    ensures
        split_char(s, sep).len() >= 1,
    decreases s.len(),
{
    if s.len() > 0 {
        lemma_split_char_nonempty(s.drop_last(), sep);
    }
}

/// The pieces of `cs` between occurrences of `sep`, each as a `String`.
pub fn split_on_char(cs: &[char], sep: char) -> (r: Vec<String>)
    ensures
        r@.map_values(|w: String| w@) == split_char(cs@, sep),
{
    let n = cs.len();
    let mut done: Vec<String> = Vec::new();
    let mut start: usize = 0;
    let mut i: usize = 0;
    assert(cs@.take(0) =~= Seq::<char>::empty());
    assert(cs@.subrange(0, 0) =~= Seq::<char>::empty());
    while i < n
        invariant
            n == cs@.len(),
            start <= i <= n,
            done@.map_values(|w: String| w@).push(cs@.subrange(start as int, i as int))
                == split_char(cs@.take(i as int), sep),
        decreases n - i,
    {
        let ghost before = done@.map_values(|w: String| w@);
        proof {
            lemma_split_char_nonempty(cs@.take(i as int), sep);
            assert(cs@.take(i + 1).drop_last() =~= cs@.take(i as int));
            assert(cs@.take(i + 1).last() == cs@[i as int]);
        }
        if cs[i] == sep {
            let w = string_from_chars(cs, start, i);
            done.push(w);
            assert(done@.map_values(|w: String| w@) =~= before.push(
                cs@.subrange(start as int, i as int),
            ));
            i = i + 1;
            start = i;
            assert(cs@.subrange(start as int, i as int) =~= Seq::<char>::empty());
        } else {
            assert(cs@.subrange(start as int, i + 1) =~= cs@.subrange(start as int, i as int).push(
                cs@[i as int],
            ));
            i = i + 1;
        }
    }
    let w = string_from_chars(cs, start, n);
    let ghost before = done@.map_values(|w: String| w@);
    done.push(w);
    assert(done@.map_values(|w: String| w@) =~= before.push(cs@.subrange(start as int, n as int)));
    assert(cs@.take(n as int) =~= cs@);
    done
}


/// `str::get(from..to)` over the UTF-8 bytes `b` of a string: the characters
/// that bytes `from..to` encode, when both ends fall on character boundaries.
pub open spec fn str_get(b: Seq<u8>, from: int, to: int) -> Option<Seq<char>> {
    if 0 <= from <= to <= b.len() && is_char_boundary(b, from) && is_char_boundary(b, to) {
        Some(decode_utf8(b.subrange(from, to)))
    } else {
        None
    }
}

/// The characters of `s` in its byte range `from..to` (see `str_get`).
pub fn substring(s: &str, from: usize, to: usize) -> (r: Option<Vec<char>>)
    ensures
        match r {
            Some(v) => str_get(s.spec_bytes(), from as int, to as int) == Some(v@),
            None => str_get(s.spec_bytes(), from as int, to as int) is None,
        },
{
    let n = s.as_bytes().len();
    if !(from <= to && to <= n && s.is_char_boundary(from) && s.is_char_boundary(to)) {
        return None;
    }
    let ghost b = s.spec_bytes();
    proof {
        encode_utf8_valid_utf8(s@);
    }
    let (_, tail) = s.split_at(from);
    let ghost tb = tail.spec_bytes();
    proof {
        encode_utf8_valid_utf8(tail@);
        assert(tb == b.subrange(from as int, n as int));
        if to == n {
            is_char_boundary_start_end_of_seq(tb);
        } else {
            is_char_boundary_iff_not_is_continuation_byte(b, to as int);
            assert(tb[to - from] == b[to as int]);
            is_char_boundary_iff_not_is_continuation_byte(tb, to - from);
        }
    }
    let (mid, _) = tail.split_at(to - from);
    proof {
        assert(mid.spec_bytes() =~= b.subrange(from as int, to as int));
        encode_utf8_decode_utf8(mid@);
    }
    Some(chars_of(mid))
}

/// The characters of `cs` without surrounding whitespace, as a `String`.
pub fn trimmed_string(cs: &[char]) -> (r: String)
    ensures
        r@ == trim(cs@),
{
    let (a, b) = trim_bounds(cs);
    string_from_chars(cs, a, b)
}

/// The characters of `cs` without surrounding whitespace.
pub fn trimmed_vec(cs: &[char]) -> (r: Vec<char>)
    ensures
        r@ == trim(cs@),
{
    let (a, b) = trim_bounds(cs);
    let mut r: Vec<char> = Vec::new();
    let mut i = a;
    while i < b
        invariant
            a <= i <= b <= cs@.len(),
            r@ == cs@.subrange(a as int, i as int),
        decreases b - i,
    {
        r.push(cs[i]);
        i = i + 1;
        assert(r@ =~= cs@.subrange(a as int, i as int));
    }
    r
}

/// A line without the `\r` of a CRLF ending.
pub open spec fn strip_cr(l: Seq<char>) -> Seq<char> {
    if l.len() > 0 && l.last() == '\r' {
        l.drop_last()
    } else {
        l
    }
}

/// The lines of `s`, as `str::lines` yields them: split at `\n`, a `\r` before
/// a `\n` dropped, and no empty line after a final line ending.
pub open spec fn str_lines(s: Seq<char>) -> Seq<Seq<char>> {
    let p = split_char(s, '\n');
    let ended = p.drop_last().map_values(|l: Seq<char>| strip_cr(l));
    if p.last().len() == 0 {
        ended
    } else {
        ended.push(p.last())
    }
}

/// A string holding the characters of `cs`.
pub fn string_of(cs: &[char]) -> (r: String)
    ensures
        r@ == cs@,
{
    assert(cs@.subrange(0, cs@.len() as int) =~= cs@);
    string_from_chars(cs, 0, cs.len())
}

/// The lines of `s` (see `str_lines`).
pub fn lines_of(s: &str) -> (r: Vec<String>)
    ensures
        r@.map_values(|l: String| l@) == str_lines(s@),
{
    let cs = chars_of(s);
    let pieces = split_on_char(cs.as_slice(), '\n');
    let ghost pv = pieces@.map_values(|l: String| l@);
    proof {
        lemma_split_char_nonempty(s@, '\n');
    }
    let m = pieces.len();
    let mut r: Vec<String> = Vec::new();
    let mut i: usize = 0;
    while i + 1 < m
        invariant
            pv == pieces@.map_values(|l: String| l@),
            pv.len() == m >= 1,
            i < m,
            r@.map_values(|l: String| l@) == pv.take(i as int).map_values(
                |l: Seq<char>| strip_cr(l),
            ),
        decreases m - i,
    {
        let pc = chars_of(pieces[i].as_str());
        let k = if pc.len() > 0 && pc[pc.len() - 1] == '\r' {
            pc.len() - 1
        } else {
            pc.len()
        };
        let line = string_from_chars(pc.as_slice(), 0, k);
        assert(line@ =~= strip_cr(pv[i as int]));
        let ghost before = r@.map_values(|l: String| l@);
        r.push(line);
        assert(r@.map_values(|l: String| l@) =~= before.push(strip_cr(pv[i as int])));
        assert(pv.take(i + 1).map_values(|l: Seq<char>| strip_cr(l)) =~= pv.take(
            i as int,
        ).map_values(|l: Seq<char>| strip_cr(l)).push(strip_cr(pv[i as int])));
        i = i + 1;
    }
    assert(pv.take(i as int) =~= pv.drop_last());
    let last_len = chars_of(pieces[m - 1].as_str()).len();
    if last_len > 0 {
        let last = pieces[m - 1].clone();
        let ghost before = r@.map_values(|l: String| l@);
        r.push(last);
        assert(r@.map_values(|l: String| l@) =~= before.push(pv.last()));
    }
    r
}

/// The string `a` followed by `b`.
pub fn concat_str(a: &str, b: &str) -> (r: String)
    ensures
        r@ == a@ + b@,
{
    let ca = chars_of(a);
    let cb = chars_of(b);
    let mut r = string_of(ca.as_slice());
    let mut i: usize = 0;
    while i < cb.len()
        invariant
            i <= cb@.len(),
            r@ == a@ + cb@.take(i as int),
            cb@ == b@,
        decreases cb.len() - i,
    {
        push_char(&mut r, cb[i]);
        i = i + 1;
        assert(r@ =~= a@ + cb@.take(i as int));
    }
    assert(cb@.take(cb@.len() as int) =~= cb@);
    r
}

/// A trimmed text begins and ends with a visible character.
pub proof fn lemma_trim_ends(s: Seq<char>)
    ensures
        trim(s).len() > 0 ==> !is_ws(trim(s)[0]) && !is_ws(trim(s).last()),
{
    lemma_lead_ws(s);
    lemma_trail_ws(s);
    if lead_ws(s) < s.len() {
        assert(trim(s)[0] == s[lead_ws(s) as int]);
        if trail_ws(s) == s.len() {
            assert(is_ws(s[lead_ws(s) as int]));
        }
    }
}

/// A text that begins with a visible character has at least one word.
pub proof fn lemma_words_nonempty(t: Seq<char>)
    ensures
        t.len() > 0 && !is_ws(t[0]) ==> words(t).len() >= 1,
{
}

/// A trimmed text that is not empty has at least one word.
pub proof fn lemma_trimmed_words_nonempty(s: Seq<char>)
    ensures
        trim(s).len() > 0 ==> words(trim(s)).len() >= 1,
{
    lemma_trim_ends(s);
    lemma_words_nonempty(trim(s));
}

/// The pieces joined again with the separator between them.
pub open spec fn join_char(ps: Seq<Seq<char>>, sep: char) -> Seq<char>
    decreases ps.len(),
{
    if ps.len() == 0 {
        seq![]
    } else if ps.len() == 1 {
        ps[0]
    } else {
        join_char(ps.drop_last(), sep) + seq![sep] + ps.last()
    }
}

/// Joining the pieces of a split with the separator gives back the text.
pub proof fn law_split_char_join(s: Seq<char>, sep: char)
    ensures
        join_char(split_char(s, sep), sep) == s,
    decreases s.len(),
{
    if s.len() > 0 {
        let t = s.drop_last();
        law_split_char_join(t, sep);
        lemma_split_char_nonempty(t, sep);
        let ps = split_char(t, sep);
        if s.last() == sep {
            assert(split_char(s, sep).drop_last() =~= ps);
            assert(s =~= t + seq![sep] + Seq::<char>::empty());
        } else {
            let qs = ps.update(ps.len() - 1, ps.last().push(s.last()));
            assert(qs.drop_last() =~= ps.drop_last());
            if ps.len() == 1 {
                assert(s =~= ps[0].push(s.last()));
            } else {
                assert(join_char(qs, sep) =~= join_char(ps.drop_last(), sep) + seq![sep] + ps.last().push(
                    s.last(),
                ));
                assert(s =~= join_char(ps.drop_last(), sep) + seq![sep] + ps.last() + seq![s.last()]);
            }
        }
    }
}

/// No piece of a split holds the separator.
pub proof fn law_split_char_pieces(s: Seq<char>, sep: char)
    ensures
        forall|i: int, k: int|
            0 <= i < split_char(s, sep).len() && 0 <= k < split_char(s, sep)[i].len() ==> #[trigger] split_char(s, sep)[i][k] != sep,
    decreases s.len(),
{
    if s.len() > 0 {
        let t = s.drop_last();
        law_split_char_pieces(t, sep);
        lemma_split_char_nonempty(t, sep);
        let ps = split_char(t, sep);
        if s.last() != sep {
            let qs = split_char(s, sep);
            assert forall|i: int, k: int| 0 <= i < qs.len() && 0 <= k < qs[i].len() implies #[trigger] qs[i][k] != sep by {
                if i < ps.len() - 1 {
                    assert(qs[i] == ps[i]);
                } else {
                    assert(qs[i] == ps.last().push(s.last()));
                    if k < ps.last().len() {
                        assert(qs[i][k] == ps[ps.len() - 1][k]);
                    }
                }
            }
        } else {
            let qs = split_char(s, sep);
            assert forall|i: int, k: int| 0 <= i < qs.len() && 0 <= k < qs[i].len() implies #[trigger] qs[i][k] != sep by {
                if i < ps.len() {
                    assert(qs[i] == ps[i]);
                }
            }
        }
    }
}

/// Every character of a piece of a split is a character of the text.
pub proof fn lemma_split_char_chars(s: Seq<char>, sep: char)
    ensures
        forall|i: int, k: int|
            0 <= i < split_char(s, sep).len() && 0 <= k < split_char(s, sep)[i].len() ==> exists|m: int|
                0 <= m < s.len() && s[m] == #[trigger] split_char(s, sep)[i][k],
    decreases s.len(),
{
    if s.len() > 0 {
        let t = s.drop_last();
        lemma_split_char_chars(t, sep);
        lemma_split_char_nonempty(t, sep);
        let ps = split_char(t, sep);
        let qs = split_char(s, sep);
        assert forall|i: int, k: int| 0 <= i < qs.len() && 0 <= k < qs[i].len() implies exists|m: int|
            0 <= m < s.len() && s[m] == #[trigger] qs[i][k] by {
            if i < ps.len() && (s.last() == sep || i < ps.len() - 1) {
                assert(qs[i] == ps[i]);
                let m = choose|m: int| 0 <= m < t.len() && t[m] == ps[i][k];
                assert(s[m] == t[m]);
            } else if s.last() != sep {
                assert(qs[i] == ps.last().push(s.last()));
                if k < ps.last().len() {
                    assert(qs[i][k] == ps[ps.len() - 1][k]);
                    let m = choose|m: int| 0 <= m < t.len() && t[m] == ps[ps.len() - 1][k];
                    assert(s[m] == t[m]);
                } else {
                    assert(s[s.len() - 1] == qs[i][k]);
                }
            }
        }
    }
}

/// No line holds a line break.
pub proof fn law_lines_hold_no_newline(s: Seq<char>)
    ensures
        forall|i: int, k: int|
            0 <= i < str_lines(s).len() && 0 <= k < str_lines(s)[i].len() ==> #[trigger] str_lines(s)[i][k] != '\n',
{
    let p = split_char(s, '\n');
    law_split_char_pieces(s, '\n');
    lemma_split_char_nonempty(s, '\n');
    let ls = str_lines(s);
    assert forall|i: int, k: int| 0 <= i < ls.len() && 0 <= k < ls[i].len() implies #[trigger] ls[i][k] != '\n' by {
        if i < p.len() - 1 {
            assert(ls[i] == strip_cr(p[i]));
            if p[i].len() > 0 && p[i].last() == '\r' {
                assert(ls[i][k] == p[i][k]);
            }
        } else {
            assert(ls[i] == p[p.len() - 1]);
        }
    }
}

} // verus!
