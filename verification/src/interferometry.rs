//! Atom-interferometry data files: the tab-separated Raman `AvgRatios` files
//! and the MATLAB script of the Einstein-elevator run, with its numeric arrays
//! and the atom temperature. Numbers are handed out as their text.

use crate::text::{
    chars_of, contains, contains_exec, ends_with, parse_u32, spec_parse_u32, split_char,
    split_on_char, starts_with, starts_with_exec, string_of, trim, trimmed_chars,
};
use vstd::prelude::*;

verus! {

/// The fields of one Raman shot line: the iteration counter, the timestamp (date
/// and time joined by a space), and the texts of the phase (rad), the mean
/// population ratio and its standard deviation.
#[derive(Clone, Debug)]
pub struct RamanFields {
    pub iteration: u32,
    pub timestamp: String,
    pub phase_rad: String,
    pub ratio_mean: String,
    pub ratio_std_dev: String,
}

/// Reads one line of an `AvgRatios` file: `None` for an empty line, a `#`
/// header, a line of fewer than eight tab-separated fields, or one whose first
/// field is not an iteration number.
pub fn parse_raman_line(line: &str) -> (r: Option<RamanFields>)
    ensures
        ({
            let p = split_char(line@, '\t');
            match r {
                Some(f) => {
                    &&& line@.len() > 0 && line@[0] != '#'
                    &&& p.len() >= 8
                    &&& spec_parse_u32(p[0]) == Some(f.iteration)
                    &&& f.timestamp@ == p[1] + seq![' '] + p[2]
                    &&& f.phase_rad@ == p[4]
                    &&& f.ratio_mean@ == p[6]
                    &&& f.ratio_std_dev@ == p[7]
                },
                None => line@.len() == 0 || line@[0] == '#' || p.len() < 8 || spec_parse_u32(
                    p[0],
                ) is None,
            }
        }),
{
    let cs = chars_of(line);
    if cs.len() == 0 || cs[0] == '#' {
        return None;
    }
    let parts = split_on_char(cs.as_slice(), '\t');
    let ghost pv = parts@.map_values(|s: String| s@);
    assert(pv.len() == parts@.len());
    if parts.len() < 8 {
        return None;
    }
    let first = chars_of(parts[0].as_str());
    assert(first@ == pv[0]);
    let iteration = match parse_u32(first.as_slice()) {
        Some(v) => v,
        None => {
            return None;
        },
    };
    let date = chars_of(parts[1].as_str());
    let time = chars_of(parts[2].as_str());
    let mut stamp: Vec<char> = Vec::new();
    let mut i: usize = 0;
    while i < date.len()
        invariant
            i <= date@.len(),
            stamp@ == date@.take(i as int),
        decreases date.len() - i,
    {
        stamp.push(date[i]);
        i = i + 1;
        assert(stamp@ =~= date@.take(i as int));
    }
    stamp.push(' ');
    let mut j: usize = 0;
    assert(date@.take(date@.len() as int) =~= date@);
    while j < time.len()
        invariant
            j <= time@.len(),
            stamp@ == date@ + seq![' '] + time@.take(j as int),
        decreases time.len() - j,
    {
        stamp.push(time[j]);
        j = j + 1;
        assert(stamp@ =~= date@ + seq![' '] + time@.take(j as int));
    }
    assert(time@.take(time@.len() as int) =~= time@);
    assert(pv[1] == parts@[1]@ && pv[2] == parts@[2]@);
    assert(pv[4] == parts@[4]@ && pv[6] == parts@[6]@ && pv[7] == parts@[7]@);
    Some(
        RamanFields {
            iteration,
            timestamp: string_of(stamp.as_slice()),
            phase_rad: parts[4].clone(),
            ratio_mean: parts[6].clone(),
            ratio_std_dev: parts[7].clone(),
        },
    )
}

pub open spec fn avg_ratios_marker() -> Seq<char> {
    seq!['A', 'v', 'g', 'R', 'a', 't', 'i', 'o', 's', '-', 'k', 'D', '.', 't', 'x', 't']
}

/// Whether a file of a Raman run directory holds averaged ratios (its name
/// contains `AvgRatios-kD.txt`).
pub fn is_avg_ratios_file(name: &str) -> (r: bool)
    ensures
        r == contains(name@, avg_ratios_marker()),
{
    let cs = chars_of(name);
    let r = contains_exec(cs.as_slice(), "AvgRatios-kD.txt");
    proof {
        reveal_strlit("AvgRatios-kD.txt");
        assert("AvgRatios-kD.txt"@ =~= avg_ratios_marker());
    }
    r
}

/// The characters that can make up a number in a MATLAB assignment.
pub open spec fn is_value_char(c: char) -> bool {
    ('0' <= c && c <= '9') || c == '.' || c == '-' || c == 'E' || c == 'e' || c == '+'
}

/// The characters of `s` that can make up a number, in order.
pub open spec fn value_chars(s: Seq<char>) -> Seq<char>
    decreases s.len(),
{
    if s.len() == 0 {
        seq![]
    } else if is_value_char(s.last()) {
        value_chars(s.drop_last()).push(s.last())
    } else {
        value_chars(s.drop_last())
    }
}

/// The numeric text of a MATLAB assignment `prefix value`: the characters after
/// the prefix that can make up a number; `None` where the line does not begin
/// with the prefix.
pub open spec fn matlab_value_text(line: Seq<char>, prefix: Seq<char>) -> Option<Seq<char>> {
    if starts_with(line, prefix) {
        Some(value_chars(line.skip(prefix.len() as int)))
    } else {
        None
    }
}

/// The numeric text of a MATLAB assignment (see `matlab_value_text`).
pub fn extract_matlab_value(line: &[char], prefix: &str) -> (r: Option<String>)
    ensures
        match r {
            Some(v) => matlab_value_text(line@, prefix@) == Some(v@),
            None => matlab_value_text(line@, prefix@) is None,
        },
{
    if !starts_with_exec(line, prefix) {
        return None;
    }
    let p = chars_of(prefix);
    let mut out: Vec<char> = Vec::new();
    let mut i = p.len();
    let ghost rest = line@.skip(p@.len() as int);
    assert(rest.take(0) =~= Seq::<char>::empty());
    while i < line.len()
        invariant
            p@.len() <= i <= line@.len(),
            rest == line@.skip(p@.len() as int),
            out@ == value_chars(rest.take(i - p@.len())),
        decreases line.len() - i,
    {
        let c = line[i];
        assert(rest.take(i + 1 - p@.len()).drop_last() =~= rest.take(i - p@.len()));
        assert(rest.take(i + 1 - p@.len()).last() == c);
        if ('0' <= c && c <= '9') || c == '.' || c == '-' || c == 'E' || c == 'e' || c == '+' {
            out.push(c);
        }
        i = i + 1;
    }
    assert(rest.take(line@.len() - p@.len()) =~= rest);
    Some(string_of(out.as_slice()))
}

/// `s` with `[`, `]` and `;` made spaces.
pub open spec fn blank_brackets(s: Seq<char>) -> Seq<char> {
    s.map_values(
        |c: char|
            if c == '[' || c == ']' || c == ';' {
                ' '
            } else {
                c
            },
    )
}

/// `s` with every `...` (continuation marker) made one space, scanning from the
/// left, as `str::replace("...", " ")` does.
pub open spec fn replace_ellipsis(s: Seq<char>) -> Seq<char>
    decreases s.len(),
{
    if s.len() < 3 {
        s
    } else if s[0] == '.' && s[1] == '.' && s[2] == '.' {
        seq![' '] + replace_ellipsis(s.skip(3))
    } else {
        seq![s[0]] + replace_ellipsis(s.drop_first())
    }
}

/// The characters that separate the entries of a MATLAB array: whitespace and
/// commas.
pub open spec fn is_entry_sep(c: char) -> bool {
    crate::text::is_ws(c) || c == ','
}

/// `s` with every separator made a space.
pub open spec fn unify_separators(s: Seq<char>) -> Seq<char> {
    s.map_values(
        |c: char|
            if is_entry_sep(c) {
                ' '
            } else {
                c
            },
    )
}

/// Whether a piece of a MATLAB array is an entry: not empty and not a `%` or `#`
/// comment.
pub open spec fn is_entry(t: Seq<char>) -> bool {
    t.len() > 0 && t[0] != '%' && t[0] != '#'
}

/// The pieces that are entries, in order.
pub open spec fn entries_of(ps: Seq<Seq<char>>) -> Seq<Seq<char>>
    decreases ps.len(),
{
    if ps.len() == 0 {
        seq![]
    } else if is_entry(ps.last()) {
        entries_of(ps.drop_last()).push(ps.last())
    } else {
        entries_of(ps.drop_last())
    }
}

/// The entries of a MATLAB array text `[a b c ...]` or `[a, b, c];`: brackets
/// and semicolons blanked, continuation markers blanked, then the pieces between
/// whitespace and commas that are not empty and not comments. (Line ends are
/// whitespace, so blanking them as well changes no piece.)
pub open spec fn matlab_entries(content: Seq<char>) -> Seq<Seq<char>> {
    entries_of(split_char(unify_separators(replace_ellipsis(blank_brackets(content))), ' '))
}

fn blank_brackets_exec(cs: &[char]) -> (r: Vec<char>)
    ensures
        r@ == blank_brackets(cs@),
{
    let mut r: Vec<char> = Vec::new();
    let mut i: usize = 0;
    while i < cs.len()
        invariant
            i <= cs@.len(),
            r@ == blank_brackets(cs@.take(i as int)),
        decreases cs.len() - i,
    {
        let c = cs[i];
        r.push(
            if c == '[' || c == ']' || c == ';' {
                ' '
            } else {
                c
            },
        );
        i = i + 1;
        assert(r@ =~= blank_brackets(cs@.take(i as int)));
    }
    assert(cs@.take(cs@.len() as int) =~= cs@);
    r
}

fn unify_separators_exec(cs: &[char]) -> (r: Vec<char>)
    ensures
        r@ == unify_separators(cs@),
{
    let mut r: Vec<char> = Vec::new();
    let mut i: usize = 0;
    while i < cs.len()
        invariant
            i <= cs@.len(),
            r@ == unify_separators(cs@.take(i as int)),
        decreases cs.len() - i,
    {
        let c = cs[i];
        r.push(
            if crate::text::is_whitespace(c) || c == ',' {
                ' '
            } else {
                c
            },
        );
        i = i + 1;
        assert(r@ =~= unify_separators(cs@.take(i as int)));
    }
    assert(cs@.take(cs@.len() as int) =~= cs@);
    r
}

fn replace_ellipsis_exec(cs: &[char]) -> (r: Vec<char>)
    ensures
        r@ == replace_ellipsis(cs@),
{
    let n = cs.len();
    let mut r: Vec<char> = Vec::new();
    let mut i: usize = 0;
    assert(cs@.skip(0) =~= cs@);
    while i < n
        invariant
            n == cs@.len(),
            i <= n,
            replace_ellipsis(cs@) == r@ + replace_ellipsis(cs@.skip(i as int)),
        decreases n - i,
    {
        let ghost rest = cs@.skip(i as int);
        if n - i >= 3 && cs[i] == '.' && cs[i + 1] == '.' && cs[i + 2] == '.' {
            assert(rest.skip(3) =~= cs@.skip(i + 3));
            let ghost r0 = r@;
            r.push(' ');
            assert(r@ + replace_ellipsis(cs@.skip(i + 3)) =~= r0 + (seq![' '] + replace_ellipsis(
                rest.skip(3),
            )));
            i = i + 3;
        } else if n - i < 3 {
            assert(replace_ellipsis(rest) == rest);
            let ghost r0 = r@;
            while i < n
                invariant
                    n == cs@.len(),
                    i <= n,
                    r0 + rest == r@ + cs@.skip(i as int),
                decreases n - i,
            {
                r.push(cs[i]);
                assert(cs@.skip(i as int) =~= seq![cs@[i as int]] + cs@.skip(i + 1));
                i = i + 1;
            }
            assert(cs@.skip(n as int) =~= Seq::<char>::empty());
            assert(r@ =~= r0 + rest);
            return r;
        } else {
            assert(rest.drop_first() =~= cs@.skip(i + 1));
            let ghost r0 = r@;
            r.push(cs[i]);
            assert(r@ + replace_ellipsis(cs@.skip(i + 1)) =~= r0 + (seq![rest[0]]
                + replace_ellipsis(rest.drop_first())));
            i = i + 1;
        }
    }
    assert(cs@.skip(n as int) =~= Seq::<char>::empty());
    assert(r@ =~= r@ + Seq::<char>::empty());
    r
}

/// The entries of a MATLAB array text (see `matlab_entries`).
pub fn parse_matlab_array(content: &[char]) -> (r: Vec<String>)
    ensures
        r@.map_values(|s: String| s@) == matlab_entries(content@),
{
    let a = blank_brackets_exec(content);
    let b = replace_ellipsis_exec(a.as_slice());
    let c = unify_separators_exec(b.as_slice());
    let pieces = split_on_char(c.as_slice(), ' ');
    let ghost pv = pieces@.map_values(|s: String| s@);
    let mut r: Vec<String> = Vec::new();
    let mut i: usize = 0;
    assert(pv.take(0) =~= Seq::<Seq<char>>::empty());
    while i < pieces.len()
        invariant
            pv == pieces@.map_values(|s: String| s@),
            i <= pieces@.len(),
            r@.map_values(|s: String| s@) == entries_of(pv.take(i as int)),
        decreases pieces.len() - i,
    {
        let t = chars_of(pieces[i].as_str());
        assert(pv.take(i + 1).drop_last() =~= pv.take(i as int));
        assert(pv.take(i + 1).last() == t@);
        if t.len() > 0 && t[0] != '%' && t[0] != '#' {
            let ghost before = r@.map_values(|s: String| s@);
            r.push(pieces[i].clone());
            assert(r@.map_values(|s: String| s@) =~= before.push(t@));
        }
        i = i + 1;
    }
    assert(pv.take(pieces@.len() as int) =~= pv);
    r
}

/// The arrays of the Einstein-elevator script.
#[derive(Clone, Copy, Debug, PartialEq, Eq)]
pub enum ArrayKind {
    /// `Freq_data`: the frequency sweep (Hz).
    Freq,
    /// `Ratio_data`: the measured population ratios.
    Ratio,
    /// `Pe`: the simulated transition probability.
    Pe,
    /// `Residual`: model minus experiment.
    Residual,
}

pub open spec fn freq_prefix() -> Seq<char> {
    seq!['F', 'r', 'e', 'q', '_', 'd', 'a', 't', 'a', ' ', '=']
}

pub open spec fn ratio_prefix() -> Seq<char> {
    seq!['R', 'a', 't', 'i', 'o', '_', 'd', 'a', 't', 'a', ' ', '=']
}

pub open spec fn pe_prefix() -> Seq<char> {
    seq!['P', 'e', ' ', '=']
}

pub open spec fn pepoch_prefix() -> Seq<char> {
    seq!['P', 'E', 'p', 'o', 'c', 'h']
}

pub open spec fn residual_prefix() -> Seq<char> {
    seq!['R', 'e', 's', 'i', 'd', 'u', 'a', 'l', ' ', '=']
}

pub open spec fn temp_prefix() -> Seq<char> {
    seq!['T', 'e', 'm', 'p', ' ', '=']
}

/// The array whose assignment a trimmed line begins, if any.
pub open spec fn array_start(t: Seq<char>) -> Option<ArrayKind> {
    if starts_with(t, freq_prefix()) {
        Some(ArrayKind::Freq)
    } else if starts_with(t, ratio_prefix()) {
        Some(ArrayKind::Ratio)
    } else if starts_with(t, pe_prefix()) && !starts_with(t, pepoch_prefix()) {
        Some(ArrayKind::Pe)
    } else if starts_with(t, residual_prefix()) {
        Some(ArrayKind::Residual)
    } else {
        None
    }
}

/// Whether a trimmed line closes an array: it holds `];`, or ends with `]`
/// without opening one.
pub open spec fn array_end(t: Seq<char>) -> bool {
    contains(t, seq![']', ';']) || (ends_with(t, seq![']']) && !contains(t, seq!['[']))
}

/// The array being read and the text gathered for it, after a line opened a
/// new array or not.
pub open spec fn opened(m: (Option<ArrayKind>, Seq<char>), l: Seq<char>) -> (
    Option<ArrayKind>,
    Seq<char>,
) {
    match array_start(trim(l)) {
        Some(k) => (Some(k), seq![]),
        None => m,
    }
}

/// The array being read, and its text so far, after one more line.
pub open spec fn step_mode(m: (Option<ArrayKind>, Seq<char>), l: Seq<char>) -> (
    Option<ArrayKind>,
    Seq<char>,
) {
    let o = opened(m, l);
    if o.0 is Some {
        if array_end(trim(l)) {
            (None, seq![])
        } else {
            (o.0, o.1 + l + seq![' '])
        }
    } else {
        o
    }
}

/// The array that one more line completes, with its entries.
pub open spec fn completed(m: (Option<ArrayKind>, Seq<char>), l: Seq<char>) -> Option<
    (ArrayKind, Seq<Seq<char>>),
> {
    let o = opened(m, l);
    match o.0 {
        Some(k) => if array_end(trim(l)) {
            Some((k, matlab_entries(o.1 + l + seq![' '])))
        } else {
            None
        },
        None => None,
    }
}

/// The array being read, and its text so far, after the given lines.
pub open spec fn scan_mode(lines: Seq<Seq<char>>) -> (Option<ArrayKind>, Seq<char>)
    decreases lines.len(),
{
    if lines.len() == 0 {
        (None, seq![])
    } else {
        step_mode(scan_mode(lines.drop_last()), lines.last())
    }
}

/// The entries of the last completed assignment of array `k` in the lines.
pub open spec fn scan_array(lines: Seq<Seq<char>>, k: ArrayKind) -> Seq<Seq<char>>
    decreases lines.len(),
{
    if lines.len() == 0 {
        seq![]
    } else {
        match completed(scan_mode(lines.drop_last()), lines.last()) {
            Some(c) => if c.0 == k {
                c.1
            } else {
                scan_array(lines.drop_last(), k)
            },
            None => scan_array(lines.drop_last(), k),
        }
    }
}

/// The numeric texts of the `Temp =` assignments in the lines, in order.
pub open spec fn scan_temperatures(lines: Seq<Seq<char>>) -> Seq<Seq<char>>
    decreases lines.len(),
{
    if lines.len() == 0 {
        seq![]
    } else {
        let prev = scan_temperatures(lines.drop_last());
        match matlab_value_text(trim(lines.last()), temp_prefix()) {
            Some(v) => prev.push(v),
            None => prev,
        }
    }
}

/// What the Einstein-elevator script holds: the entries of each array (of its
/// last complete assignment) and the texts of the temperature assignments, in
/// order.
#[derive(Clone, Debug)]
pub struct ElevatorArrays {
    pub freq: Vec<String>,
    pub ratio: Vec<String>,
    pub pe: Vec<String>,
    pub residual: Vec<String>,
    pub temperatures: Vec<String>,
}

pub open spec fn texts(v: Seq<String>) -> Seq<Seq<char>> {
    v.map_values(|s: String| s@)
}

fn array_start_of(t: &[char]) -> (r: Option<ArrayKind>)
    ensures
        r == array_start(t@),
{
    proof {
        reveal_strlit("Freq_data =");
        reveal_strlit("Ratio_data =");
        reveal_strlit("Pe =");
        reveal_strlit("PEpoch");
        reveal_strlit("Residual =");
        assert("Freq_data ="@ =~= freq_prefix());
        assert("Ratio_data ="@ =~= ratio_prefix());
        assert("Pe ="@ =~= pe_prefix());
        assert("PEpoch"@ =~= pepoch_prefix());
        assert("Residual ="@ =~= residual_prefix());
    }
    if starts_with_exec(t, "Freq_data =") {
        Some(ArrayKind::Freq)
    } else if starts_with_exec(t, "Ratio_data =") {
        Some(ArrayKind::Ratio)
    } else if starts_with_exec(t, "Pe =") && !starts_with_exec(t, "PEpoch") {
        Some(ArrayKind::Pe)
    } else if starts_with_exec(t, "Residual =") {
        Some(ArrayKind::Residual)
    } else {
        None
    }
}

fn array_end_of(t: &[char]) -> (r: bool)
    ensures
        r == array_end(t@),
{
    proof {
        reveal_strlit("];");
        reveal_strlit("]");
        reveal_strlit("[");
        assert("];"@ =~= seq![']', ';']);
        assert("]"@ =~= seq![']']);
        assert("["@ =~= seq!['[']);
    }
    contains_exec(t, "];") || (crate::text::ends_with_exec(t, "]") && !contains_exec(t, "["))
}

/// Reads the lines of the Einstein-elevator MATLAB script: the entries of the
/// `Freq_data`, `Ratio_data`, `Pe` and `Residual` arrays (an array may span
/// lines up to its closing `]`; a later assignment replaces an earlier one) and
/// the texts of the `Temp =` assignments.
pub fn scan_elevator_lines(lines: &Vec<String>) -> (r: ElevatorArrays)
    ensures
        texts(r.freq@) == scan_array(texts(lines@), ArrayKind::Freq),
        texts(r.ratio@) == scan_array(texts(lines@), ArrayKind::Ratio),
        texts(r.pe@) == scan_array(texts(lines@), ArrayKind::Pe),
        texts(r.residual@) == scan_array(texts(lines@), ArrayKind::Residual),
        texts(r.temperatures@) == scan_temperatures(texts(lines@)),
{
    let ghost lv = texts(lines@);
    let mut freq: Vec<String> = Vec::new();
    let mut ratio: Vec<String> = Vec::new();
    let mut pe: Vec<String> = Vec::new();
    let mut residual: Vec<String> = Vec::new();
    let mut temps: Vec<String> = Vec::new();
    let mut current: Option<ArrayKind> = None;
    let mut buffer: Vec<char> = Vec::new();
    let mut i: usize = 0;
    proof {
        reveal_strlit("Temp =");
        assert("Temp ="@ =~= temp_prefix());
        assert(texts(freq@) =~= Seq::<Seq<char>>::empty());
        assert(texts(ratio@) =~= Seq::<Seq<char>>::empty());
        assert(texts(pe@) =~= Seq::<Seq<char>>::empty());
        assert(texts(residual@) =~= Seq::<Seq<char>>::empty());
        assert(texts(temps@) =~= Seq::<Seq<char>>::empty());
        assert(lv.take(0) =~= Seq::<Seq<char>>::empty());
    }
    while i < lines.len()
        invariant
            lv == texts(lines@),
            i <= lines@.len(),
            "Temp ="@ == temp_prefix(),
            (current, buffer@) == scan_mode(lv.take(i as int)),
            texts(freq@) == scan_array(lv.take(i as int), ArrayKind::Freq),
            texts(ratio@) == scan_array(lv.take(i as int), ArrayKind::Ratio),
            texts(pe@) == scan_array(lv.take(i as int), ArrayKind::Pe),
            texts(residual@) == scan_array(lv.take(i as int), ArrayKind::Residual),
            texts(temps@) == scan_temperatures(lv.take(i as int)),
        decreases lines.len() - i,
    {
        let ghost prev = lv.take(i as int);
        let ghost m = (current, buffer@);
        let line = chars_of(lines[i].as_str());
        assert(lv.take(i + 1).drop_last() =~= prev);
        assert(lv.take(i + 1).last() == line@);
        let t = trimmed_chars(lines[i].as_str());
        match extract_matlab_value(t.as_slice(), "Temp =") {
            Some(v) => {
                let ghost before = texts(temps@);
                temps.push(v);
                assert(texts(temps@) =~= before.push(v@));
            },
            None => {},
        }
        match array_start_of(t.as_slice()) {
            Some(k) => {
                current = Some(k);
                buffer = Vec::new();
            },
            None => {},
        }
        assert((current, buffer@) == opened(m, line@));
        match current {
            Some(k) => {
                let mut j: usize = 0;
                let ghost b0 = buffer@;
                while j < line.len()
                    invariant
                        j <= line@.len(),
                        buffer@ == b0 + line@.take(j as int),
                    decreases line.len() - j,
                {
                    buffer.push(line[j]);
                    j = j + 1;
                    assert(buffer@ =~= b0 + line@.take(j as int));
                }
                buffer.push(' ');
                assert(line@.take(line@.len() as int) =~= line@);
                assert(buffer@ =~= b0 + line@ + seq![' ']);
                if array_end_of(t.as_slice()) {
                    let values = parse_matlab_array(buffer.as_slice());
                    match k {
                        ArrayKind::Freq => freq = values,
                        ArrayKind::Ratio => ratio = values,
                        ArrayKind::Pe => pe = values,
                        ArrayKind::Residual => residual = values,
                    }
                    current = None;
                    buffer = Vec::new();
                }
            },
            None => {},
        }
        assert(buffer@ =~= step_mode(m, line@).1);
        i = i + 1;
    }
    assert(lv.take(lines@.len() as int) =~= lv);
    ElevatorArrays { freq, ratio, pe, residual, temperatures: temps }
}

/// The GM column (the fifth comma-separated field) of the rows of a derived
/// GM table: every line after the header that has at least five fields.
pub open spec fn gm_column(lines: Seq<Seq<char>>) -> Seq<Seq<char>>
    decreases lines.len(),
{
    if lines.len() <= 1 {
        seq![]
    } else {
        let prev = gm_column(lines.drop_last());
        let p = split_char(lines.last(), ',');
        if p.len() >= 5 {
            prev.push(p[4])
        } else {
            prev
        }
    }
}

/// The texts of the GM values of a derived GM table (see `gm_column`); the
/// table's columns are timestamp, the two radii, the altitude difference, GM,
/// the error and the three energy terms.
pub fn gm_value_fields(lines: &Vec<String>) -> (r: Vec<String>)
    ensures
        texts(r@) == gm_column(texts(lines@)),
{
    let ghost lv = texts(lines@);
    let mut r: Vec<String> = Vec::new();
    if lines.len() == 0 {
        assert(texts(r@) =~= Seq::<Seq<char>>::empty());
        return r;
    }
    let mut i: usize = 1;
    assert(texts(r@) =~= Seq::<Seq<char>>::empty());
    while i < lines.len()
        invariant
            lv == texts(lines@),
            1 <= i <= lines@.len(),
            texts(r@) == gm_column(lv.take(i as int)),
        decreases lines.len() - i,
    {
        let cs = chars_of(lines[i].as_str());
        assert(lv.take(i + 1).drop_last() =~= lv.take(i as int));
        assert(lv.take(i + 1).last() == cs@);
        let parts = split_on_char(cs.as_slice(), ',');
        assert(texts(parts@).len() == parts@.len());
        if parts.len() >= 5 {
            let ghost before = texts(r@);
            r.push(parts[4].clone());
            assert(texts(r@) =~= before.push(texts(parts@)[4]));
        }
        i = i + 1;
    }
    assert(lv.take(lines@.len() as int) =~= lv);
    r
}

/// The pieces kept as entries are entries.
proof fn lemma_entries_of(ps: Seq<Seq<char>>)
    ensures
        forall|i: int| 0 <= i < entries_of(ps).len() ==> is_entry(#[trigger] entries_of(ps)[i]),
        forall|i: int|
            0 <= i < entries_of(ps).len() ==> exists|j: int| 0 <= j < ps.len() && #[trigger] entries_of(ps)[i] == ps[j],
    decreases ps.len(),
{
    if ps.len() > 0 {
        lemma_entries_of(ps.drop_last());
        let prev = entries_of(ps.drop_last());
        let cur = entries_of(ps);
        assert forall|i: int| 0 <= i < cur.len() implies exists|j: int| 0 <= j < ps.len() && #[trigger] cur[i] == ps[j] by {
            if i < prev.len() {
                assert(cur[i] == prev[i]);
                let j = choose|j: int| 0 <= j < ps.len() - 1 && prev[i] == ps.drop_last()[j];
                assert(ps.drop_last()[j] == ps[j]);
            } else {
                assert(cur[i] == ps[ps.len() - 1]);
            }
        }
        assert forall|i: int| 0 <= i < cur.len() implies is_entry(#[trigger] cur[i]) by {
            if i < prev.len() {
                assert(cur[i] == prev[i]);
            }
        }
    }
}

/// Every entry of a MATLAB array is a non-empty token that is not a comment and
/// holds no whitespace, comma, bracket or semicolon.
pub proof fn law_matlab_entries(content: Seq<char>)
    ensures
        forall|i: int|
            0 <= i < matlab_entries(content).len() ==> {
                let e = #[trigger] matlab_entries(content)[i];
                &&& is_entry(e)
                &&& forall|k: int| 0 <= k < e.len() ==> !is_entry_sep(#[trigger] e[k]) && e[k] != '[' && e[k] != ']' && e[k] != ';'
            },
{
    let b = replace_ellipsis(blank_brackets(content));
    let u = unify_separators(b);
    let ps = split_char(u, ' ');
    lemma_entries_of(ps);
    crate::text::law_split_char_pieces(u, ' ');
    lemma_no_brackets_after_ellipsis(blank_brackets(content));
    assert forall|i: int| 0 <= i < matlab_entries(content).len() implies {
        let e = #[trigger] matlab_entries(content)[i];
        forall|k: int| 0 <= k < e.len() ==> !is_entry_sep(#[trigger] e[k]) && e[k] != '[' && e[k] != ']' && e[k] != ';'
    } by {
        let e = matlab_entries(content)[i];
        let j = choose|j: int| 0 <= j < ps.len() && e == ps[j];
        crate::text::lemma_split_char_chars(u, ' ');
        assert forall|k: int| 0 <= k < e.len() implies !is_entry_sep(#[trigger] e[k]) && e[k] != '[' && e[k] != ']' && e[k] != ';' by {
            assert(ps[j][k] != ' ');
            let m = choose|m: int| 0 <= m < u.len() && u[m] == e[k];
            assert(u[m] == if is_entry_sep(b[m]) { ' ' } else { b[m] });
        }
    }
}

/// After blanking brackets, replacing continuation markers adds none.
proof fn lemma_no_brackets_after_ellipsis(s: Seq<char>)
    requires
        forall|k: int| 0 <= k < s.len() ==> s[k] != '[' && s[k] != ']' && s[k] != ';',
    ensures
        forall|k: int| 0 <= k < replace_ellipsis(s).len() ==> #[trigger] replace_ellipsis(s)[k] != '[' && replace_ellipsis(s)[k] != ']' && replace_ellipsis(s)[k] != ';',
    decreases s.len(),
{
    if s.len() >= 3 {
        if s[0] == '.' && s[1] == '.' && s[2] == '.' {
            lemma_no_brackets_after_ellipsis(s.skip(3));
            let r = replace_ellipsis(s);
            assert forall|k: int| 0 <= k < r.len() implies #[trigger] r[k] != '[' && r[k] != ']' && r[k] != ';' by {
                if k > 0 {
                    assert(r[k] == replace_ellipsis(s.skip(3))[k - 1]);
                }
            }
        } else {
            lemma_no_brackets_after_ellipsis(s.drop_first());
            let r = replace_ellipsis(s);
            assert forall|k: int| 0 <= k < r.len() implies #[trigger] r[k] != '[' && r[k] != ']' && r[k] != ';' by {
                if k > 0 {
                    assert(r[k] == replace_ellipsis(s.drop_first())[k - 1]);
                }
            }
        }
    }
}

} // verus!
