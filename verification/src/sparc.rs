//! SPARC galaxy data: the fixed-width columns of the galaxy catalogue
//! (`SPARC_Lelli2016c.mrt`) and the lines of the `*_rotmod.dat` rotation-curve
//! files. Numeric columns are handed out as their trimmed text; the integer
//! columns are parsed here.

use crate::data_manager::{remove_all, remove_all_exec, rotmod_suffix};
use crate::text::{
    chars_of, concat_str, contains, contains_exec, parse_i32, spec_parse_i32, split_char,
    split_on_char, split_words, starts_with, starts_with_exec, str_get, string_from_chars,
    substring, trim, trimmed_chars, trimmed_string, trimmed_vec, words,
};
use vstd::prelude::*;
use vstd::string::StringSliceAdditionalSpecFns;
use vstd::utf8::encode_utf8;

verus! {

/// Whether a character has the Unicode `Alphabetic` property or a numeric
/// general category, which is what `char::is_alphanumeric` tests.
pub uninterp spec fn unicode_alphanumeric(c: char) -> bool;

pub open spec fn is_ascii_alphanumeric(c: char) -> bool {
    ('0' <= c && c <= '9') || ('a' <= c && c <= 'z') || ('A' <= c && c <= 'Z')
}

/// `char::is_alphanumeric`. Its result is named `unicode_alphanumeric`; below
/// U+0080 the documentation pins it to the ASCII letters and digits. Above it
/// the Unicode tables decide, and those are not restated here.
#[verifier::external_body]
fn is_alphanumeric(c: char) -> (r: bool)
    ensures
        r == unicode_alphanumeric(c),
        (c as u32) < 128 ==> (r <==> is_ascii_alphanumeric(c)),
{
    c.is_alphanumeric()
}

pub open spec fn galaxy_word() -> Seq<char> {
    seq!['G', 'a', 'l', 'a', 'x', 'y']
}

/// The catalogue lines that hold no galaxy: empty lines, lines that begin with a
/// space and whose first visible character is not alphanumeric, lines shorter
/// than 99 bytes, lines that mention `Galaxy` and rule lines of `-` or `=`.
pub open spec fn catalogue_skips(line: Seq<char>) -> bool {
    let n = encode_utf8(line).len();
    ||| line.len() == 0
    ||| (line[0] == ' ' && !(trim(line).len() > 0 && unicode_alphanumeric(trim(line)[0])))
    ||| n < 99
    ||| contains(line, galaxy_word())
    ||| line[0] == '-'
    ||| line[0] == '='
}

/// The trimmed text of the byte columns `from..to` of a line; empty where the
/// line does not reach them or they cut a character.
pub open spec fn column(line: Seq<char>, from: int, to: int) -> Seq<char> {
    match str_get(encode_utf8(line), from, to) {
        Some(c) => trim(c),
        None => seq![],
    }
}

/// The integer in the byte columns `from..to` of a line, 0 where there is none.
pub open spec fn int_column(line: Seq<char>, from: int, to: int) -> i32 {
    match spec_parse_i32(column(line, from, to)) {
        Some(v) => v,
        None => 0,
    }
}

/// One galaxy row of the SPARC catalogue. The integer columns are parsed; the
/// other columns are kept as their trimmed text, where an empty or malformed
/// text stands for 0.
#[derive(Clone, Debug)]
pub struct CatalogueRow {
    pub name: String,
    pub hubble_type: i32,
    pub distance_mpc: String,
    pub distance_err: String,
    pub inclination: String,
    pub inclination_err: String,
    pub luminosity_3p6: String,
    pub r_eff: String,
    pub r_disk: String,
    pub m_hi: String,
    pub v_flat: String,
    pub v_flat_err: String,
    pub quality: i32,
}

/// The trimmed characters of the byte columns `from..to` of `line`.
fn column_chars(line: &str, from: usize, to: usize) -> (r: Vec<char>)
    ensures
        r@ == column(line@, from as int, to as int),
{
    match substring(line, from, to) {
        Some(cs) => trimmed_vec(cs.as_slice()),
        None => Vec::new(),
    }
}

/// The trimmed text of the byte columns `from..to` of `line`.
fn column_text(line: &str, from: usize, to: usize) -> (r: String)
    ensures
        r@ == column(line@, from as int, to as int),
{
    match substring(line, from, to) {
        Some(cs) => trimmed_string(cs.as_slice()),
        None => String::new(),
    }
}

/// The integer in the byte columns `from..to` of `line`, or 0.
fn int_column_value(line: &str, from: usize, to: usize) -> (r: i32)
    ensures
        r == int_column(line@, from as int, to as int),
{
    let cs = column_chars(line, from, to);
    match parse_i32(cs.as_slice()) {
        Some(v) => v,
        None => 0,
    }
}

/// Whether a catalogue line holds no galaxy (see `catalogue_skips`).
pub fn skips_catalogue_line(line: &str) -> (r: bool)
    ensures
        r == catalogue_skips(line@),
{
    let cs = chars_of(line);
    let n = line.as_bytes().len();
    if cs.len() == 0 {
        return true;
    }
    if cs[0] == ' ' {
        let t = trimmed_chars(line);
        let visible = t.len() > 0 && is_alphanumeric(t[0]);
        if !visible {
            return true;
        }
    }
    let mentions_galaxy = contains_exec(cs.as_slice(), "Galaxy");
    proof {
        reveal_strlit("Galaxy");
        assert("Galaxy"@ =~= galaxy_word());
    }
    n < 99 || mentions_galaxy || cs[0] == '-' || cs[0] == '='
}

/// Reads one line of the SPARC catalogue: `None` for the lines that hold no
/// galaxy (see `catalogue_skips`) and for a row whose name column is blank.
pub fn parse_catalogue_line(line: &str) -> (r: Option<CatalogueRow>)
    requires
        !catalogue_skips(line@) ==> str_get(line.spec_bytes(), 0, 11) is Some,
    ensures
        r is None <==> (catalogue_skips(line@) || column(line@, 0, 11).len() == 0),
        r matches Some(row) ==> {
            &&& row.name@ == column(line@, 0, 11)
            &&& row.hubble_type == int_column(line@, 11, 14)
            &&& row.distance_mpc@ == column(line@, 14, 20)
            &&& row.distance_err@ == column(line@, 20, 25)
            &&& row.inclination@ == column(line@, 26, 31)
            &&& row.inclination_err@ == column(line@, 31, 35)
            &&& row.luminosity_3p6@ == column(line@, 35, 42)
            &&& row.r_eff@ == column(line@, 49, 54)
            &&& row.r_disk@ == column(line@, 62, 67)
            &&& row.m_hi@ == column(line@, 75, 82)
            &&& row.v_flat@ == column(line@, 87, 92)
            &&& row.v_flat_err@ == column(line@, 92, 97)
            &&& row.quality == int_column(line@, 97, 100)
        },
{
    if skips_catalogue_line(line) {
        return None;
    }
    let name_chars = column_chars(line, 0, 11);
    if name_chars.len() == 0 {
        return None;
    }
    Some(
        CatalogueRow {
            name: column_text(line, 0, 11),
            hubble_type: int_column_value(line, 11, 14),
            distance_mpc: column_text(line, 14, 20),
            distance_err: column_text(line, 20, 25),
            inclination: column_text(line, 26, 31),
            inclination_err: column_text(line, 31, 35),
            luminosity_3p6: column_text(line, 35, 42),
            r_eff: column_text(line, 49, 54),
            r_disk: column_text(line, 62, 67),
            m_hi: column_text(line, 75, 82),
            v_flat: column_text(line, 87, 92),
            v_flat_err: column_text(line, 92, 97),
            quality: int_column_value(line, 97, 100),
        },
    )
}

/// The catalogue row that names `name`; where several do, the last one, as a
/// map filled row by row keeps it.
pub fn find_catalogue_row(rows: &Vec<CatalogueRow>, name: &str) -> (r: Option<usize>)
    ensures
        match r {
            Some(i) => {
                &&& i < rows@.len()
                &&& rows@[i as int].name@ == name@
                &&& forall|j: int| i < j < rows@.len() ==> (#[trigger] rows@[j]).name@ != name@
            },
            None => forall|j: int| 0 <= j < rows@.len() ==> (#[trigger] rows@[j]).name@ != name@,
        },
{
    let key = name.to_owned();
    let mut i = rows.len();
    while i > 0
        invariant
            i <= rows@.len(),
            key@ == name@,
            forall|j: int| i <= j < rows@.len() ==> (#[trigger] rows@[j]).name@ != name@,
        decreases i,
    {
        if rows[i - 1].name == key {
            return Some(i - 1);
        }
        i = i - 1;
    }
    None
}

pub open spec fn distance_prefix() -> Seq<char> {
    seq!['#', ' ', 'D', 'i', 's', 't', 'a', 'n', 'c', 'e']
}

pub open spec fn mpc_unit() -> Seq<char> {
    seq!['M', 'p', 'c']
}

/// The distance that a header line `# Distance = 6.26 Mpc` gives, as text: the
/// piece after its first `=`, trimmed, without `Mpc`, trimmed again; `None`
/// where the line has no `=`.
pub open spec fn distance_text(t: Seq<char>) -> Option<Seq<char>> {
    let pieces = split_char(t, '=');
    if pieces.len() > 1 {
        Some(trim(remove_all(trim(pieces[1]), mpc_unit())))
    } else {
        None
    }
}

/// Whether a trimmed line of a rotation-curve file is empty or a comment.
pub open spec fn rotmod_comment(t: Seq<char>) -> bool {
    t.len() == 0 || t[0] == '#'
}

/// What one line of a rotation-curve file holds.
#[derive(Clone, Debug)]
pub enum RotmodLine {
    /// The distance header, with the text of the distance (see
    /// `distance_text`); `None` where the header has no `=`.
    Distance(Option<String>),
    /// A data row: its first eight whitespace-separated fields, which are
    /// radius, observed velocity, its error, gas, disk and bulge velocities,
    /// and disk and bulge surface brightness.
    Point(Vec<String>),
    /// A comment, an empty line, or a row of fewer than eight fields.
    Skip,
}

/// Classifies one line of a `*_rotmod.dat` file.
pub fn classify_rotmod_line(line: &str) -> (r: RotmodLine)
    ensures
        ({
            let t = trim(line@);
            match r {
                RotmodLine::Distance(d) => {
                    &&& starts_with(t, distance_prefix())
                    &&& match d {
                        Some(x) => distance_text(t) == Some(x@),
                        None => distance_text(t) is None,
                    }
                },
                RotmodLine::Point(fields) => {
                    &&& !starts_with(t, distance_prefix())
                    &&& !rotmod_comment(t)
                    &&& words(t).len() >= 8
                    &&& fields@.map_values(|f: String| f@) == words(t).take(8)
                },
                RotmodLine::Skip => {
                    &&& !starts_with(t, distance_prefix())
                    &&& (rotmod_comment(t) || words(t).len() < 8)
                },
            }
        }),
{
    let t = trimmed_chars(line);
    let is_header = starts_with_exec(t.as_slice(), "# Distance");
    proof {
        reveal_strlit("# Distance");
        assert("# Distance"@ =~= distance_prefix());
    }
    if is_header {
        let pieces = split_on_char(t.as_slice(), '=');
        if pieces.len() > 1 {
            let piece = chars_of(pieces[1].as_str());
            let inner = trimmed_vec(piece.as_slice());
            let unit = vec!['M', 'p', 'c'];
            assert(unit@ =~= mpc_unit());
            let without = remove_all_exec(&inner, &unit);
            return RotmodLine::Distance(Some(trimmed_string(without.as_slice())));
        }
        return RotmodLine::Distance(None);
    }
    if t.len() == 0 || t[0] == '#' {
        return RotmodLine::Skip;
    }
    let all = split_words(t.as_slice());
    if all.len() < 8 {
        return RotmodLine::Skip;
    }
    let mut fields: Vec<String> = Vec::new();
    let mut i: usize = 0;
    while i < 8
        invariant
            all@.len() >= 8,
            i <= 8,
            fields@.map_values(|f: String| f@) == all@.map_values(|f: String| f@).take(i as int),
        decreases 8 - i,
    {
        let f = all[i].clone();
        assert(f@ == all@[i as int]@);
        let ghost before = fields@.map_values(|f: String| f@);
        fields.push(f);
        assert(fields@.map_values(|f: String| f@) =~= before.push(all@[i as int]@));
        assert(fields@.map_values(|f: String| f@) =~= all@.map_values(|f: String| f@).take(
            i + 1,
        ));
        i = i + 1;
    }
    RotmodLine::Point(fields)
}

/// The galaxy named by the stem of a rotation-curve file: the stem with
/// `_rotmod` taken out.
pub fn galaxy_name_from_stem(stem: &str) -> (r: String)
    ensures
        r@ == remove_all(stem@, rotmod_suffix()),
{
    let cs = chars_of(stem);
    let pat = vec!['_', 'r', 'o', 't', 'm', 'o', 'd'];
    assert(pat@ =~= rotmod_suffix());
    let g = remove_all_exec(&cs, &pat);
    assert(g@.subrange(0, g@.len() as int) =~= g@);
    string_from_chars(g.as_slice(), 0, g.len())
}

pub open spec fn rotmod_file_suffix() -> Seq<char> {
    seq!['_', 'r', 'o', 't', 'm', 'o', 'd', '.', 'd', 'a', 't']
}

/// The name of the rotation-curve file of a galaxy (`{galaxy}_rotmod.dat`).
pub fn rotmod_file_name(galaxy: &str) -> (r: String)
    ensures
        r@ == galaxy@ + rotmod_file_suffix(),
{
    let r = concat_str(galaxy, "_rotmod.dat");
    proof {
        reveal_strlit("_rotmod.dat");
        assert("_rotmod.dat"@ =~= rotmod_file_suffix());
    }
    r
}

} // verus!
