//! The detailed-analysis tables written by the mass experiment
//! (`*_detailed_analysis.csv`): which files they are and the fields of their
//! rows that the energy-term analysis reads.

use crate::text::{chars_of, ends_with, ends_with_exec, split_char, split_on_char};
use vstd::prelude::*;

verus! {

pub open spec fn detailed_analysis_suffix() -> Seq<char> {
    seq![
        '_', 'd', 'e', 't', 'a', 'i', 'l', 'e', 'd', '_', 'a', 'n', 'a', 'l', 'y', 's', 'i', 's',
        '.', 'c', 's', 'v',
    ]
}

/// Whether a file is a detailed-analysis table (`*_detailed_analysis.csv`).
pub fn is_detailed_analysis_file(name: &str) -> (r: bool)
    ensures
        r == ends_with(name@, detailed_analysis_suffix()),
{
    let cs = chars_of(name);
    let r = ends_with_exec(cs.as_slice(), "_detailed_analysis.csv");
    proof {
        reveal_strlit("_detailed_analysis.csv");
        assert("_detailed_analysis.csv"@ =~= detailed_analysis_suffix());
    }
    r
}

/// The fields of a table row that hold the energy terms: `R_A`, `R_B`, `G`,
/// `Term_Time`, `Term_Kinetic`, `Term_Potential` (fields 1, 2, 4, 6, 7 and 8 of
/// `Timestamp,R_A,R_B,Delta_H_km,G,Error_Pct,Term_Time,Term_Kinetic,Term_Potential`).
pub open spec fn energy_fields(p: Seq<Seq<char>>) -> Seq<Seq<char>> {
    seq![p[1], p[2], p[4], p[6], p[7], p[8]]
}

/// The energy-term fields of the rows of a table: every line after the header
/// that has at least nine comma-separated fields.
pub open spec fn energy_rows(lines: Seq<Seq<char>>) -> Seq<Seq<Seq<char>>>
    decreases lines.len(),
{
    if lines.len() <= 1 {
        seq![]
    } else {
        let prev = energy_rows(lines.drop_last());
        let p = split_char(lines.last(), ',');
        if p.len() >= 9 {
            prev.push(energy_fields(p))
        } else {
            prev
        }
    }
}

pub open spec fn row_texts(rows: Seq<Vec<String>>) -> Seq<Seq<Seq<char>>> {
    rows.map_values(|r: Vec<String>| r@.map_values(|s: String| s@))
}

/// The energy-term fields of the rows of a detailed-analysis table (see
/// `energy_rows`).
pub fn mass_energy_fields(lines: &Vec<String>) -> (r: Vec<Vec<String>>)
    ensures
        row_texts(r@) == energy_rows(lines@.map_values(|s: String| s@)),
{
    let ghost lv = lines@.map_values(|s: String| s@);
    let mut r: Vec<Vec<String>> = Vec::new();
    if lines.len() == 0 {
        assert(row_texts(r@) =~= Seq::<Seq<Seq<char>>>::empty());
        return r;
    }
    let mut i: usize = 1;
    assert(row_texts(r@) =~= Seq::<Seq<Seq<char>>>::empty());
    while i < lines.len()
        invariant
            lv == lines@.map_values(|s: String| s@),
            1 <= i <= lines@.len(),
            row_texts(r@) == energy_rows(lv.take(i as int)),
        decreases lines.len() - i,
    {
        let cs = chars_of(lines[i].as_str());
        assert(lv.take(i + 1).drop_last() =~= lv.take(i as int));
        assert(lv.take(i + 1).last() == cs@);
        let parts = split_on_char(cs.as_slice(), ',');
        let ghost pv = parts@.map_values(|s: String| s@);
        assert(pv.len() == parts@.len());
        if parts.len() >= 9 {
            let mut row: Vec<String> = Vec::new();
            row.push(parts[1].clone());
            row.push(parts[2].clone());
            row.push(parts[4].clone());
            row.push(parts[6].clone());
            row.push(parts[7].clone());
            row.push(parts[8].clone());
            assert(row@.map_values(|s: String| s@) =~= energy_fields(pv));
            let ghost before = row_texts(r@);
            r.push(row);
            assert(row_texts(r@) =~= before.push(energy_fields(pv)));
        }
        i = i + 1;
    }
    assert(lv.take(lines@.len() as int) =~= lv);
    r
}

} // verus!
