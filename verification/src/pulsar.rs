//! Pulsar timing files: the lines of tempo2 `.tim` files (IPTA and NANOGrav
//! flavours), of `.par` parameter files and of NANOGrav residual files, the
//! names of those files, and the binary-pulsar parameter record that a `.par`
//! file fills. Numeric fields are handed out as text; what the text is worth as
//! a real number is decided where it is read.

use crate::data_manager::file_extension;
use crate::text::{
    chars_of, concat_str, contains, contains_exec, ends_with, ends_with_exec, lines_of,
    split_words, starts_with, starts_with_exec, str_lines, string_of, trim, trimmed_chars, words,
};
use vstd::prelude::*;

verus! {

pub open spec fn incl_directive() -> Seq<char> {
    seq!['I', 'N', 'C', 'L', 'U', 'D', 'E']
}

pub open spec fn format_word() -> Seq<char> {
    seq!['F', 'O', 'R', 'M', 'A', 'T']
}

pub open spec fn mode_word() -> Seq<char> {
    seq!['M', 'O', 'D', 'E']
}

/// What one line of a `.tim` file holds.
#[derive(Clone, Debug)]
pub enum TimLine {
    /// An `INCLUDE` directive, with the file it names; `None` where it names
    /// none.
    Include(Option<String>),
    /// A time of arrival: the frequency (MHz), MJD and error (µs) fields, in
    /// that order.
    Toa(Vec<String>),
    /// A comment, a directive, an empty line or a line of fewer than four fields.
    Skip,
}

/// The three measurement fields of a TOA line: fields 1, 2 and 3 of its words
/// (frequency, MJD, error).
pub open spec fn toa_fields(t: Seq<char>) -> Seq<Seq<char>> {
    words(t).subrange(1, 4)
}

/// Whether an IPTA `.tim` line (trimmed) carries no TOA: it is empty, or begins
/// with `C`, `#`, `FORMAT` or `MODE`.
pub open spec fn ipta_tim_skips(t: Seq<char>) -> bool {
    ||| t.len() == 0
    ||| t[0] == 'C'
    ||| t[0] == '#'
    ||| starts_with(t, format_word())
    ||| starts_with(t, mode_word())
}

/// The measurement fields of a line, as `Strings`.
fn fields_1_to_3(all: &Vec<String>) -> (r: Vec<String>)
    requires
        all@.len() >= 4,
    ensures
        r@.map_values(|f: String| f@) == all@.map_values(|f: String| f@).subrange(1, 4),
{
    let mut r: Vec<String> = Vec::new();
    r.push(all[1].clone());
    r.push(all[2].clone());
    r.push(all[3].clone());
    assert(r@.map_values(|f: String| f@) =~= all@.map_values(|f: String| f@).subrange(1, 4));
    r
}

/// Classifies one line of an IPTA `.tim` file, which may `INCLUDE` others.
pub fn classify_ipta_tim_line(line: &str) -> (r: TimLine)
    ensures
        ({
            let t = trim(line@);
            match r {
                TimLine::Include(f) => {
                    &&& starts_with(t, incl_directive())
                    &&& match f {
                        Some(name) => words(t).len() >= 2 && name@ == words(t)[1],
                        None => words(t).len() < 2,
                    }
                },
                TimLine::Toa(fields) => {
                    &&& !starts_with(t, incl_directive())
                    &&& !ipta_tim_skips(t)
                    &&& words(t).len() >= 4
                    &&& fields@.map_values(|f: String| f@) == toa_fields(t)
                },
                TimLine::Skip => {
                    &&& !starts_with(t, incl_directive())
                    &&& (ipta_tim_skips(t) || words(t).len() < 4)
                },
            }
        }),
{
    let t = trimmed_chars(line);
    let directive = starts_with_exec(t.as_slice(), "INCLUDE");
    let format = starts_with_exec(t.as_slice(), "FORMAT");
    let mode = starts_with_exec(t.as_slice(), "MODE");
    proof {
        reveal_strlit("INCLUDE");
        reveal_strlit("FORMAT");
        reveal_strlit("MODE");
        assert("INCLUDE"@ =~= incl_directive());
        assert("FORMAT"@ =~= format_word());
        assert("MODE"@ =~= mode_word());
    }
    let parts = split_words(t.as_slice());
    if directive {
        if parts.len() >= 2 {
            let name = parts[1].clone();
            return TimLine::Include(Some(name));
        }
        return TimLine::Include(None);
    }
    if t.len() == 0 || t[0] == 'C' || t[0] == '#' || format || mode {
        return TimLine::Skip;
    }
    if parts.len() < 4 {
        return TimLine::Skip;
    }
    TimLine::Toa(fields_1_to_3(&parts))
}

/// Whether a NANOGrav `.tim` line (trimmed) carries no TOA: it is empty, or
/// begins with `C ` or `FORMAT`.
pub open spec fn nanograv_tim_skips(t: Seq<char>) -> bool {
    ||| t.len() == 0
    ||| starts_with(t, seq!['C', ' '])
    ||| starts_with(t, format_word())
}

/// The measurement fields of one line of a NANOGrav `.tim` file, or `None` for a
/// line that carries none.
pub fn classify_nanograv_tim_line(line: &str) -> (r: Option<Vec<String>>)
    ensures
        ({
            let t = trim(line@);
            match r {
                Some(fields) => {
                    &&& !nanograv_tim_skips(t)
                    &&& words(t).len() >= 4
                    &&& fields@.map_values(|f: String| f@) == toa_fields(t)
                },
                None => nanograv_tim_skips(t) || words(t).len() < 4,
            }
        }),
{
    let t = trimmed_chars(line);
    let comment = starts_with_exec(t.as_slice(), "C ");
    let format = starts_with_exec(t.as_slice(), "FORMAT");
    proof {
        reveal_strlit("C ");
        reveal_strlit("FORMAT");
        assert("C "@ =~= seq!['C', ' ']);
        assert("FORMAT"@ =~= format_word());
    }
    if t.len() == 0 || comment || format {
        return None;
    }
    let parts = split_words(t.as_slice());
    if parts.len() < 4 {
        return None;
    }
    Some(fields_1_to_3(&parts))
}

/// The fields of one line of a NANOGrav residual file (MJD, residual and
/// uncertainty, both in µs), or `None` for an empty line, a `#` comment or a
/// line of fewer than three fields.
pub fn classify_residual_line(line: &str) -> (r: Option<Vec<String>>)
    ensures
        ({
            let t = trim(line@);
            match r {
                Some(fields) => {
                    &&& t.len() > 0
                    &&& t[0] != '#'
                    &&& words(t).len() >= 3
                    &&& fields@.map_values(|f: String| f@) == words(t).take(3)
                },
                None => t.len() == 0 || t[0] == '#' || words(t).len() < 3,
            }
        }),
{
    let t = trimmed_chars(line);
    if t.len() == 0 || t[0] == '#' {
        return None;
    }
    let parts = split_words(t.as_slice());
    if parts.len() < 3 {
        return None;
    }
    let mut r: Vec<String> = Vec::new();
    r.push(parts[0].clone());
    r.push(parts[1].clone());
    r.push(parts[2].clone());
    assert(r@.map_values(|f: String| f@) =~= parts@.map_values(|f: String| f@).take(3));
    Some(r)
}

/// A numeric token with Fortran exponents made ordinary: every `D` becomes `E`
/// and every `d` becomes `e`.
pub open spec fn normalize_exponent(s: Seq<char>) -> Seq<char> {
    s.map_values(
        |c: char|
            if c == 'D' {
                'E'
            } else if c == 'd' {
                'e'
            } else {
                c
            },
    )
}

/// Rewrites the Fortran exponents of a numeric token (`1.5D-10` as `1.5E-10`).
pub fn normalize_exponent_text(token: &str) -> (r: String)
    ensures
        r@ == normalize_exponent(token@),
{
    let cs = chars_of(token);
    let mut out: Vec<char> = Vec::new();
    let mut i: usize = 0;
    while i < cs.len()
        invariant
            i <= cs@.len(),
            cs@ == token@,
            out@ == normalize_exponent(cs@.take(i as int)),
        decreases cs.len() - i,
    {
        let c = cs[i];
        let d = if c == 'D' {
            'E'
        } else if c == 'd' {
            'e'
        } else {
            c
        };
        out.push(d);
        i = i + 1;
        assert(out@ =~= normalize_exponent(cs@.take(i as int)));
    }
    assert(cs@.take(cs@.len() as int) =~= cs@);
    string_of(out.as_slice())
}

/// The parameters of a `.par` file that carry a number.
#[derive(Clone, Copy, Debug, PartialEq, Eq)]
pub enum ParKey {
    /// `PB`: orbital period (days).
    Pb,
    /// `ECC`: eccentricity.
    Ecc,
    /// `A1`: projected semi-major axis (light-seconds).
    A1,
    /// `T0`: epoch of periastron (MJD).
    T0,
    /// `OM`: longitude of periastron (degrees).
    Om,
    /// `M2`: companion mass (solar masses).
    M2,
    /// `MTOT`: total mass (solar masses).
    Mtot,
    /// `M1` or `MASS1`: pulsar mass (solar masses).
    M1,
    /// `GAMMA`: gravitational redshift parameter (ms).
    Gamma,
    /// `PBDOT`: orbital decay.
    Pbdot,
    /// `EPS1`: first Laplace-Lagrange parameter.
    Eps1,
    /// `EPS2`: second Laplace-Lagrange parameter.
    Eps2,
    /// `TASC`: epoch of the ascending node (MJD).
    Tasc,
}

/// The numeric parameter that a `.par` keyword names.
pub open spec fn par_key(k: Seq<char>) -> Option<ParKey> {
    if k == seq!['P', 'B'] {
        Some(ParKey::Pb)
    } else if k == seq!['E', 'C', 'C'] {
        Some(ParKey::Ecc)
    } else if k == seq!['A', '1'] {
        Some(ParKey::A1)
    } else if k == seq!['T', '0'] {
        Some(ParKey::T0)
    } else if k == seq!['O', 'M'] {
        Some(ParKey::Om)
    } else if k == seq!['M', '2'] {
        Some(ParKey::M2)
    } else if k == seq!['M', 'T', 'O', 'T'] {
        Some(ParKey::Mtot)
    } else if k == seq!['M', '1'] || k == seq!['M', 'A', 'S', 'S', '1'] {
        Some(ParKey::M1)
    } else if k == seq!['G', 'A', 'M', 'M', 'A'] {
        Some(ParKey::Gamma)
    } else if k == seq!['P', 'B', 'D', 'O', 'T'] {
        Some(ParKey::Pbdot)
    } else if k == seq!['E', 'P', 'S', '1'] {
        Some(ParKey::Eps1)
    } else if k == seq!['E', 'P', 'S', '2'] {
        Some(ParKey::Eps2)
    } else if k == seq!['T', 'A', 'S', 'C'] {
        Some(ParKey::Tasc)
    } else {
        None
    }
}

pub open spec fn is_name_key(k: Seq<char>) -> bool {
    k == seq!['P', 'S', 'R'] || k == seq!['P', 'S', 'R', 'J']
}

pub open spec fn is_binary_key(k: Seq<char>) -> bool {
    k == seq!['B', 'I', 'N', 'A', 'R', 'Y']
}

/// What one line of a `.par` file sets.
#[derive(Clone, Debug)]
pub enum ParLine {
    /// `PSR`/`PSRJ` with a value: the pulsar's name.
    Name(String),
    /// `BINARY` with a value: the binary model.
    Model(String),
    /// A numeric parameter with its value token, exponents normalized; `None`
    /// where the keyword stands alone.
    Value(ParKey, Option<String>),
    /// A comment, an empty line, an unknown keyword, or a name or model keyword
    /// without a value.
    Skip,
}

/// Whether two character sequences are equal.
fn chars_eq(a: &[char], b: &[char]) -> (r: bool)
    ensures
        r == (a@ == b@),
{
    if a.len() != b.len() {
        return false;
    }
    let mut i: usize = 0;
    while i < a.len()
        invariant
            a@.len() == b@.len(),
            i <= a@.len(),
            forall|q: int| 0 <= q < i ==> a@[q] == b@[q],
        decreases a.len() - i,
    {
        if a[i] != b[i] {
            return false;
        }
        i = i + 1;
    }
    assert(a@ =~= b@);
    true
}

/// Whether `k` spells the literal `w`.
fn is_word(k: &[char], w: &str) -> (r: bool)
    ensures
        r == (k@ == w@),
{
    let wc = chars_of(w);
    chars_eq(k, wc.as_slice())
}

fn par_key_of(k: &[char]) -> (r: Option<ParKey>)
    ensures
        r == par_key(k@),
{
    proof {
        reveal_strlit("PB");
        reveal_strlit("ECC");
        reveal_strlit("A1");
        reveal_strlit("T0");
        reveal_strlit("OM");
        reveal_strlit("M2");
        reveal_strlit("MTOT");
        reveal_strlit("M1");
        reveal_strlit("MASS1");
        reveal_strlit("GAMMA");
        reveal_strlit("PBDOT");
        reveal_strlit("EPS1");
        reveal_strlit("EPS2");
        reveal_strlit("TASC");
        assert("PB"@ =~= seq!['P', 'B']);
        assert("ECC"@ =~= seq!['E', 'C', 'C']);
        assert("A1"@ =~= seq!['A', '1']);
        assert("T0"@ =~= seq!['T', '0']);
        assert("OM"@ =~= seq!['O', 'M']);
        assert("M2"@ =~= seq!['M', '2']);
        assert("MTOT"@ =~= seq!['M', 'T', 'O', 'T']);
        assert("M1"@ =~= seq!['M', '1']);
        assert("MASS1"@ =~= seq!['M', 'A', 'S', 'S', '1']);
        assert("GAMMA"@ =~= seq!['G', 'A', 'M', 'M', 'A']);
        assert("PBDOT"@ =~= seq!['P', 'B', 'D', 'O', 'T']);
        assert("EPS1"@ =~= seq!['E', 'P', 'S', '1']);
        assert("EPS2"@ =~= seq!['E', 'P', 'S', '2']);
        assert("TASC"@ =~= seq!['T', 'A', 'S', 'C']);
    }
    if is_word(k, "PB") {
        Some(ParKey::Pb)
    } else if is_word(k, "ECC") {
        Some(ParKey::Ecc)
    } else if is_word(k, "A1") {
        Some(ParKey::A1)
    } else if is_word(k, "T0") {
        Some(ParKey::T0)
    } else if is_word(k, "OM") {
        Some(ParKey::Om)
    } else if is_word(k, "M2") {
        Some(ParKey::M2)
    } else if is_word(k, "MTOT") {
        Some(ParKey::Mtot)
    } else if is_word(k, "M1") || is_word(k, "MASS1") {
        Some(ParKey::M1)
    } else if is_word(k, "GAMMA") {
        Some(ParKey::Gamma)
    } else if is_word(k, "PBDOT") {
        Some(ParKey::Pbdot)
    } else if is_word(k, "EPS1") {
        Some(ParKey::Eps1)
    } else if is_word(k, "EPS2") {
        Some(ParKey::Eps2)
    } else if is_word(k, "TASC") {
        Some(ParKey::Tasc)
    } else {
        None
    }
}

/// Classifies one line of a `.par` file (`KEY value [uncertainty] [fit]`).
pub fn classify_par_line(line: &str) -> (r: ParLine)
    ensures
        ({
            let t = trim(line@);
            let w = words(t);
            let live = t.len() > 0 && t[0] != '#';
            match r {
                ParLine::Name(n) => live && is_name_key(w[0]) && w.len() > 1 && n@ == w[1],
                ParLine::Model(m) => live && is_binary_key(w[0]) && w.len() > 1 && m@ == w[1],
                ParLine::Value(k, v) => {
                    &&& live
                    &&& par_key(w[0]) == Some(k)
                    &&& match v {
                        Some(x) => w.len() > 1 && x@ == normalize_exponent(w[1]),
                        None => w.len() <= 1,
                    }
                },
                ParLine::Skip => !live || (!(is_name_key(w[0]) && w.len() > 1) && !(
                is_binary_key(w[0]) && w.len() > 1) && par_key(w[0]) is None),
            }
        }),
{
    let t = trimmed_chars(line);
    if t.len() == 0 || t[0] == '#' {
        return ParLine::Skip;
    }
    let tokens = split_words(t.as_slice());
    let ghost w = words(t@);
    proof {
        crate::text::lemma_trimmed_words_nonempty(line@);
    }
    let key = chars_of(tokens[0].as_str());
    let has_value = tokens.len() > 1;
    proof {
        reveal_strlit("PSR");
        reveal_strlit("PSRJ");
        reveal_strlit("BINARY");
        assert("PSR"@ =~= seq!['P', 'S', 'R']);
        assert("PSRJ"@ =~= seq!['P', 'S', 'R', 'J']);
        assert("BINARY"@ =~= seq!['B', 'I', 'N', 'A', 'R', 'Y']);
    }
    if is_word(key.as_slice(), "PSR") || is_word(key.as_slice(), "PSRJ") {
        if has_value {
            return ParLine::Name(tokens[1].clone());
        }
        return ParLine::Skip;
    }
    if is_word(key.as_slice(), "BINARY") {
        if has_value {
            return ParLine::Model(tokens[1].clone());
        }
        return ParLine::Skip;
    }
    match par_key_of(key.as_slice()) {
        Some(k) => {
            if has_value {
                ParLine::Value(k, Some(normalize_exponent_text(tokens[1].as_str())))
            } else {
                ParLine::Value(k, None)
            }
        },
        None => ParLine::Skip,
    }
}

pub open spec fn binary_word() -> Seq<char> {
    seq!['B', 'I', 'N', 'A', 'R', 'Y']
}

pub open spec fn psrj_word() -> Seq<char> {
    seq!['P', 'S', 'R', 'J']
}

/// Whether a `.par` file describes a binary pulsar: it mentions `BINARY`
/// anywhere.
pub fn is_binary_par(content: &str) -> (r: bool)
    ensures
        r == contains(content@, binary_word()),
{
    let cs = chars_of(content);
    let r = contains_exec(cs.as_slice(), "BINARY");
    proof {
        reveal_strlit("BINARY");
        assert("BINARY"@ =~= binary_word());
    }
    r
}

/// The name that the last `PSRJ` line with a value among `lines` gives.
pub open spec fn psrj_name(lines: Seq<Seq<char>>) -> Option<Seq<char>>
    decreases lines.len(),
{
    if lines.len() == 0 {
        None
    } else {
        let l = lines.last();
        if starts_with(l, psrj_word()) && words(l).len() >= 2 {
            Some(words(l)[1])
        } else {
            psrj_name(lines.drop_last())
        }
    }
}

/// The name of a pulsar from the text of its `.par` file: the value of the last
/// `PSRJ` line, else the stem of the file's name, else empty.
pub open spec fn pulsar_name_spec(content: Seq<char>, stem: Option<Seq<char>>) -> Seq<char> {
    match psrj_name(str_lines(content)) {
        Some(n) => n,
        None => match stem {
            Some(s) => s,
            None => seq![],
        },
    }
}

/// The name of a pulsar (see `pulsar_name_spec`).
pub fn pulsar_name(content: &str, stem: Option<String>) -> (r: String)
    ensures
        r@ == pulsar_name_spec(
            content@,
            match stem {
                Some(s) => Some(s@),
                None => None,
            },
        ),
{
    let lines = lines_of(content);
    let ghost lv = lines@.map_values(|l: String| l@);
    let mut i = lines.len();
    proof {
        reveal_strlit("PSRJ");
        assert("PSRJ"@ =~= psrj_word());
        assert(lv.take(i as int) =~= lv);
    }
    while i > 0
        invariant
            i <= lines@.len(),
            lv == lines@.map_values(|l: String| l@),
            lv == str_lines(content@),
            "PSRJ"@ == psrj_word(),
            psrj_name(lv) == psrj_name(lv.take(i as int)),
        decreases i,
    {
        let l = chars_of(lines[i - 1].as_str());
        assert(lv.take(i as int).last() == l@);
        assert(lv.take(i as int).drop_last() =~= lv.take(i - 1));
        if starts_with_exec(l.as_slice(), "PSRJ") {
            let parts = split_words(l.as_slice());
            assert(parts@.map_values(|f: String| f@).len() == parts@.len());
            if parts.len() >= 2 {
                assert(parts@.map_values(|f: String| f@)[1] == parts@[1]@);
                return parts[1].clone();
            }
        }
        i = i - 1;
    }
    match stem {
        Some(s) => s,
        None => String::new(),
    }
}

pub open spec fn ipta_tim_suffix() -> Seq<char> {
    seq!['.', 'I', 'P', 'T', 'A', 'D', 'R', '2', '.', 't', 'i', 'm']
}

pub open spec fn tim_suffix() -> Seq<char> {
    seq!['.', 't', 'i', 'm']
}

pub open spec fn pint_marker() -> Seq<char> {
    seq!['_', 'P', 'I', 'N', 'T', '_']
}

pub open spec fn residual_suffix() -> Seq<char> {
    seq!['_', 'N', 'G', '1', '5', 'y', 'r', '_', 'n', 'b', '.', 'f', 'u', 'l', 'l', '.', 'r', 'e', 's']
}

/// Whether a file is one of the combined IPTA DR2 timing files
/// (`*.IPTADR2.tim`).
pub fn is_ipta_tim_file(name: &str) -> (r: bool)
    ensures
        r == ends_with(name@, ipta_tim_suffix()),
{
    let cs = chars_of(name);
    let r = ends_with_exec(cs.as_slice(), ".IPTADR2.tim");
    proof {
        reveal_strlit(".IPTADR2.tim");
        assert(".IPTADR2.tim"@ =~= ipta_tim_suffix());
    }
    r
}

/// Whether a file is the NANOGrav narrowband timing file of a pulsar
/// (`{pulsar}_PINT_*.tim`).
pub fn is_pint_tim_file(name: &str, pulsar: &str) -> (r: bool)
    ensures
        r == (starts_with(name@, pulsar@ + pint_marker()) && ends_with(name@, tim_suffix())),
{
    let pattern = concat_str(pulsar, "_PINT_");
    let cs = chars_of(name);
    let head = starts_with_exec(cs.as_slice(), pattern.as_str());
    let tail = ends_with_exec(cs.as_slice(), ".tim");
    proof {
        reveal_strlit("_PINT_");
        reveal_strlit(".tim");
        assert("_PINT_"@ =~= pint_marker());
        assert(".tim"@ =~= tim_suffix());
    }
    head && tail
}

/// The name of the NANOGrav residual file of a pulsar
/// (`{pulsar}_NG15yr_nb.full.res`).
pub fn residual_file_name(pulsar: &str) -> (r: String)
    ensures
        r@ == pulsar@ + residual_suffix(),
{
    let r = concat_str(pulsar, "_NG15yr_nb.full.res");
    proof {
        reveal_strlit("_NG15yr_nb.full.res");
        assert("_NG15yr_nb.full.res"@ =~= residual_suffix());
    }
    r
}

/// Whether a file name has the extension `par`.
pub fn is_par_file(name: &str) -> (r: bool)
    ensures
        r == (file_extension(name@) == Some(seq!['p', 'a', 'r'])),
{
    match crate::data_manager::extension_of(name) {
        Some(e) => {
            let r = e.len() == 3 && e[0] == 'p' && e[1] == 'a' && e[2] == 'r';
            proof {
                if r {
                    assert(e@ =~= seq!['p', 'a', 'r']);
                }
            }
            r
        },
        None => false,
    }
}

/// The orbital parameters of a binary pulsar, as its `.par` file gives them.
/// `R` is the type of the real numbers.
#[derive(Clone, Debug)]
pub struct BinaryPulsarParams<R> {
    /// Pulsar J-name (e.g. `J0437-4715`).
    pub psrj: String,
    /// Binary model (`DD`, `ELL1`, `BT`).
    pub binary_model: String,
    /// Orbital period (days).
    pub pb_days: Option<R>,
    /// Eccentricity.
    pub ecc: Option<R>,
    /// Projected semi-major axis (light-seconds).
    pub a1_lt_s: Option<R>,
    /// Epoch of periastron (MJD).
    pub t0_mjd: Option<R>,
    /// Longitude of periastron (degrees).
    pub om_deg: Option<R>,
    /// Pulsar mass (solar masses).
    pub m_pulsar: Option<R>,
    /// Companion mass (solar masses).
    pub m_companion: Option<R>,
    /// Gravitational redshift parameter (ms).
    pub gamma_ms: Option<R>,
    /// Orbital decay.
    pub pbdot: Option<R>,
    /// First Laplace-Lagrange parameter (e sin ω).
    pub eps1: Option<R>,
    /// Second Laplace-Lagrange parameter (e cos ω).
    pub eps2: Option<R>,
    /// Epoch of the ascending node (MJD).
    pub tasc_mjd: Option<R>,
}

impl<R> BinaryPulsarParams<R> {
    /// The value stored for a numeric parameter; the total mass is not stored.
    pub open spec fn param(&self, key: ParKey) -> Option<R> {
        match key {
            ParKey::Pb => self.pb_days,
            ParKey::Ecc => self.ecc,
            ParKey::A1 => self.a1_lt_s,
            ParKey::T0 => self.t0_mjd,
            ParKey::Om => self.om_deg,
            ParKey::M2 => self.m_companion,
            ParKey::Mtot => None,
            ParKey::M1 => self.m_pulsar,
            ParKey::Gamma => self.gamma_ms,
            ParKey::Pbdot => self.pbdot,
            ParKey::Eps1 => self.eps1,
            ParKey::Eps2 => self.eps2,
            ParKey::Tasc => self.tasc_mjd,
        }
    }

    /// A record for the named pulsar with no parameter known.
    pub fn new(psrj: String) -> (r: Self)
        ensures
            r.psrj == psrj,
            r.binary_model@.len() == 0,
            forall|k: ParKey| #[trigger] r.param(k) is None,
    {
        BinaryPulsarParams {
            psrj,
            binary_model: String::new(),
            pb_days: None,
            ecc: None,
            a1_lt_s: None,
            t0_mjd: None,
            om_deg: None,
            m_pulsar: None,
            m_companion: None,
            gamma_ms: None,
            pbdot: None,
            eps1: None,
            eps2: None,
            tasc_mjd: None,
        }
    }

    /// Whether the orbit can be analysed: a binary model, the orbital period,
    /// the semi-major axis, and an epoch (of periastron or of the ascending
    /// node) are known.
    pub open spec fn usable(&self) -> bool {
        &&& self.binary_model@.len() > 0
        &&& self.pb_days is Some
        &&& self.a1_lt_s is Some
        &&& (self.t0_mjd is Some || self.tasc_mjd is Some)
    }

    /// Whether the orbit can be analysed (see `usable`).
    pub fn is_usable(&self) -> (r: bool)
        ensures
            r == self.usable(),
    {
        !self.binary_model.as_str().is_empty() && self.pb_days.is_some() && self.a1_lt_s.is_some()
            && (self.t0_mjd.is_some() || self.tasc_mjd.is_some())
    }

    /// Whether both masses are known.
    pub fn has_well_constrained_masses(&self) -> (r: bool)
        ensures
            r == (self.m_pulsar is Some && self.m_companion is Some),
    {
        self.m_pulsar.is_some() && self.m_companion.is_some()
    }

    /// Stores the value that a `.par` line gives a parameter, replacing what was
    /// there (also by `None`). The total mass is not stored: it leaves the
    /// record unchanged.
    pub fn set_param(&mut self, key: ParKey, value: Option<R>)
        ensures
            key != ParKey::Mtot ==> final(self).param(key) == value,
            key == ParKey::Mtot ==> *final(self) == *old(self),
            forall|k: ParKey| k != key ==> #[trigger] final(self).param(k) == old(self).param(k),
            final(self).psrj == old(self).psrj,
            final(self).binary_model == old(self).binary_model,
    {
        match key {
            ParKey::Pb => self.pb_days = value,
            ParKey::Ecc => self.ecc = value,
            ParKey::A1 => self.a1_lt_s = value,
            ParKey::T0 => self.t0_mjd = value,
            ParKey::Om => self.om_deg = value,
            ParKey::M2 => self.m_companion = value,
            ParKey::Mtot => {},
            ParKey::M1 => self.m_pulsar = value,
            ParKey::Gamma => self.gamma_ms = value,
            ParKey::Pbdot => self.pbdot = value,
            ParKey::Eps1 => self.eps1 = value,
            ParKey::Eps2 => self.eps2 = value,
            ParKey::Tasc => self.tasc_mjd = value,
        }
    }

    /// Fills in the masses that the file left unknown with the given defaults
    /// (a canonical neutron star and a typical white dwarf companion).
    pub fn apply_default_masses(&mut self, pulsar_mass: R, companion_mass: R)
        ensures
            final(self).m_pulsar == (match old(self).m_pulsar {
                Some(m) => Some(m),
                None => Some(pulsar_mass),
            }),
            final(self).m_companion == (match old(self).m_companion {
                Some(m) => Some(m),
                None => Some(companion_mass),
            }),
            forall|k: ParKey| k != ParKey::M1 && k != ParKey::M2 ==> #[trigger] final(self).param(k) == old(self).param(k),
            final(self).psrj == old(self).psrj,
            final(self).binary_model == old(self).binary_model,
    {
        if self.m_pulsar.is_none() {
            self.m_pulsar = Some(pulsar_mass);
        }
        if self.m_companion.is_none() {
            self.m_companion = Some(companion_mass);
        }
    }
}

/// Normalizing exponents keeps the length, leaves no `D` or `d`, and changes
/// nothing a second time.
pub proof fn law_normalize_exponent(s: Seq<char>)
    ensures
        normalize_exponent(s).len() == s.len(),
        forall|i: int| 0 <= i < s.len() ==> #[trigger] normalize_exponent(s)[i] != 'D' && normalize_exponent(s)[i] != 'd',
        normalize_exponent(normalize_exponent(s)) == normalize_exponent(s),
{
    assert(normalize_exponent(normalize_exponent(s)) =~= normalize_exponent(s));
}

/// Each `.par` keyword fills the parameter of the same name: `PB` the orbital
/// period, `ECC` the eccentricity, `A1` the semi-major axis, `T0` the epoch of
/// periastron, `OM` the longitude of periastron, `M2` the companion mass, `M1`
/// and `MASS1` the pulsar mass, `GAMMA` the redshift parameter, `PBDOT` the
/// orbital decay, `EPS1` and `EPS2` the first and second Laplace-Lagrange
/// parameters, `TASC` the epoch of the ascending node; `MTOT` is read but not
/// stored, and the name and model keywords carry no number.
pub proof fn law_par_keywords_name_their_parameter<R>(b: BinaryPulsarParams<R>)
    ensures
        par_key("PB"@) == Some(ParKey::Pb) && b.param(ParKey::Pb) == b.pb_days,
        par_key("ECC"@) == Some(ParKey::Ecc) && b.param(ParKey::Ecc) == b.ecc,
        par_key("A1"@) == Some(ParKey::A1) && b.param(ParKey::A1) == b.a1_lt_s,
        par_key("T0"@) == Some(ParKey::T0) && b.param(ParKey::T0) == b.t0_mjd,
        par_key("OM"@) == Some(ParKey::Om) && b.param(ParKey::Om) == b.om_deg,
        par_key("M2"@) == Some(ParKey::M2) && b.param(ParKey::M2) == b.m_companion,
        par_key("M1"@) == Some(ParKey::M1) && b.param(ParKey::M1) == b.m_pulsar,
        par_key("MASS1"@) == Some(ParKey::M1) && b.param(ParKey::M1) == b.m_pulsar,
        par_key("GAMMA"@) == Some(ParKey::Gamma) && b.param(ParKey::Gamma) == b.gamma_ms,
        par_key("PBDOT"@) == Some(ParKey::Pbdot) && b.param(ParKey::Pbdot) == b.pbdot,
        par_key("EPS1"@) == Some(ParKey::Eps1) && b.param(ParKey::Eps1) == b.eps1,
        par_key("EPS2"@) == Some(ParKey::Eps2) && b.param(ParKey::Eps2) == b.eps2,
        par_key("TASC"@) == Some(ParKey::Tasc) && b.param(ParKey::Tasc) == b.tasc_mjd,
        par_key("MTOT"@) == Some(ParKey::Mtot) && b.param(ParKey::Mtot) is None,
        par_key("PSR"@) is None && par_key("PSRJ"@) is None && par_key("BINARY"@) is None,
{
    reveal_strlit("PB");
    assert("PB"@ =~= seq!['P', 'B']);
    reveal_strlit("ECC");
    assert("ECC"@ =~= seq!['E', 'C', 'C']);
    reveal_strlit("A1");
    assert("A1"@ =~= seq!['A', '1']);
    reveal_strlit("T0");
    assert("T0"@ =~= seq!['T', '0']);
    reveal_strlit("OM");
    assert("OM"@ =~= seq!['O', 'M']);
    reveal_strlit("M2");
    assert("M2"@ =~= seq!['M', '2']);
    reveal_strlit("M1");
    assert("M1"@ =~= seq!['M', '1']);
    reveal_strlit("MASS1");
    assert("MASS1"@ =~= seq!['M', 'A', 'S', 'S', '1']);
    reveal_strlit("GAMMA");
    assert("GAMMA"@ =~= seq!['G', 'A', 'M', 'M', 'A']);
    reveal_strlit("PBDOT");
    assert("PBDOT"@ =~= seq!['P', 'B', 'D', 'O', 'T']);
    reveal_strlit("EPS1");
    assert("EPS1"@ =~= seq!['E', 'P', 'S', '1']);
    reveal_strlit("EPS2");
    assert("EPS2"@ =~= seq!['E', 'P', 'S', '2']);
    reveal_strlit("TASC");
    assert("TASC"@ =~= seq!['T', 'A', 'S', 'C']);
    reveal_strlit("MTOT");
    assert("MTOT"@ =~= seq!['M', 'T', 'O', 'T']);
    reveal_strlit("PSR");
    assert("PSR"@ =~= seq!['P', 'S', 'R']);
    reveal_strlit("PSRJ");
    assert("PSRJ"@ =~= seq!['P', 'S', 'R', 'J']);
    reveal_strlit("BINARY");
    assert("BINARY"@ =~= seq!['B', 'I', 'N', 'A', 'R', 'Y']);
}

} // verus!
