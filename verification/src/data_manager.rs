//! The data manager: optional overrides of the data directories, their
//! defaults, and the listing of SPARC galaxies from the rotation-curve files.

use crate::order::{lex_leq, sort_names};
use crate::paths::{
    get_ipta_data_path, get_nanograv_data_path, get_sparc_data_path, get_zenodo_data_path,
    path_push, DataPath,
};
use crate::text::{chars_of, string_from_chars};
use vstd::prelude::*;
use vstd::relations::sorted_by;

verus! {

/// Errors of the data manager.
#[derive(Clone, Copy, Debug, PartialEq, Eq)]
pub enum DataError {
    /// A directory that should hold data files does not exist.
    NotFound,
}

/// Index of the last `.` in `s`, or -1 when there is none.
pub open spec fn last_dot(s: Seq<char>) -> int
    decreases s.len(),
{
    if s.len() == 0 {
        -1
    } else if s.last() == '.' {
        s.len() - 1
    } else {
        last_dot(s.drop_last())
    }
}

pub proof fn lemma_last_dot(s: Seq<char>)
    ensures
        -1 <= last_dot(s) < s.len(),
        last_dot(s) >= 0 ==> s[last_dot(s)] == '.',
        forall|k: int| last_dot(s) < k < s.len() ==> s[k] != '.',
    decreases s.len(),
{
    if s.len() > 0 && s.last() != '.' {
        lemma_last_dot(s.drop_last());
        assert forall|k: int| last_dot(s) < k < s.len() implies s[k] != '.' by {
            if k < s.len() - 1 {
                assert(s[k] == s.drop_last()[k]);
            }
        }
    }
}

/// The extension of a file name, as `Path::extension` gives it: the text after
/// the last `.`, when that dot is not the first character.
pub open spec fn file_extension(name: Seq<char>) -> Option<Seq<char>> {
    if name == seq!['.', '.'] || last_dot(name) <= 0 {
        None
    } else {
        Some(name.skip(last_dot(name) + 1))
    }
}

/// The stem of a file name, as `Path::file_stem` gives it: the name without its
/// extension and the dot before it.
pub open spec fn file_stem(name: Seq<char>) -> Seq<char> {
    if last_dot(name) <= 0 || name == seq!['.', '.'] {
        name
    } else {
        name.take(last_dot(name))
    }
}

/// `s` with every occurrence of `pat` removed, scanning from the left, as
/// `str::replace(pat, "")` does.
pub open spec fn remove_all(s: Seq<char>, pat: Seq<char>) -> Seq<char>
    decreases s.len(),
{
    if pat.len() == 0 || s.len() < pat.len() {
        s
    } else if s.take(pat.len() as int) == pat {
        remove_all(s.skip(pat.len() as int), pat)
    } else {
        seq![s[0]] + remove_all(s.drop_first(), pat)
    }
}

pub open spec fn rotmod_suffix() -> Seq<char> {
    seq!['_', 'r', 'o', 't', 'm', 'o', 'd']
}

pub open spec fn dat_extension() -> Seq<char> {
    seq!['d', 'a', 't']
}

/// The galaxy named by a rotation-curve file, when the file is a `.dat` file:
/// its stem with `_rotmod` taken out.
pub open spec fn galaxy_of_file(name: Seq<char>) -> Option<Seq<char>> {
    if file_extension(name) == Some(dat_extension()) {
        Some(remove_all(file_stem(name), rotmod_suffix()))
    } else {
        None
    }
}

/// The galaxies named by a directory's files, in directory order.
pub open spec fn galaxies_of_files(names: Seq<Seq<char>>) -> Seq<Seq<char>>
    decreases names.len(),
{
    if names.len() == 0 {
        seq![]
    } else {
        let prev = galaxies_of_files(names.drop_last());
        match galaxy_of_file(names.last()) {
            Some(g) => prev.push(g),
            None => prev,
        }
    }
}

fn last_dot_index(cs: &Vec<char>) -> (r: Option<usize>)
    ensures
        match r {
            Some(k) => last_dot(cs@) == k as int,
            None => last_dot(cs@) == -1,
        },
{
    let mut i = cs.len();
    assert(cs@.take(i as int) =~= cs@);
    while i > 0
        invariant
            i <= cs@.len(),
            last_dot(cs@) == last_dot(cs@.take(i as int)),
        decreases i,
    {
        assert(cs@.take(i as int).drop_last() =~= cs@.take(i - 1));
        if cs[i - 1] == '.' {
            return Some(i - 1);
        }
        i = i - 1;
    }
    None
}

/// The extension of a file name (see `file_extension`).
pub fn extension_of(name: &str) -> (r: Option<Vec<char>>)
    ensures
        match r {
            Some(e) => file_extension(name@) == Some(e@),
            None => file_extension(name@) is None,
        },
{
    let cs = chars_of(name);
    let is_dotdot = cs.len() == 2 && cs[0] == '.' && cs[1] == '.';
    assert(is_dotdot <==> cs@ == seq!['.', '.']) by {
        if cs@ == seq!['.', '.'] {
            assert(cs@.len() == 2 && cs@[0] == '.' && cs@[1] == '.');
        }
        if is_dotdot {
            assert(cs@ =~= seq!['.', '.']);
        }
    }
    match last_dot_index(&cs) {
        Some(k) => {
            if k == 0 || is_dotdot {
                return None;
            }
            proof {
                lemma_last_dot(cs@);
            }
            let mut e: Vec<char> = Vec::new();
            let mut i = k + 1;
            while i < cs.len()
                invariant
                    k < cs@.len(),
                    k + 1 <= i <= cs@.len(),
                    e@ == cs@.subrange(k + 1, i as int),
                decreases cs.len() - i,
            {
                e.push(cs[i]);
                i = i + 1;
                assert(e@ =~= cs@.subrange(k + 1, i as int));
            }
            assert(e@ =~= cs@.skip(k + 1));
            Some(e)
        },
        None => None,
    }
}

/// `s` with every occurrence of `pat` removed (see `remove_all`).
pub(crate) fn remove_all_exec(s: &Vec<char>, pat: &Vec<char>) -> (r: Vec<char>)
    ensures
        r@ == remove_all(s@, pat@),
{
    let n = s.len();
    let m = pat.len();
    let mut r: Vec<char> = Vec::new();
    let mut i: usize = 0;
    assert(s@.skip(0) =~= s@);
    while i < n
        invariant
            n == s@.len(),
            m == pat@.len(),
            i <= n,
            remove_all(s@, pat@) == r@ + remove_all(s@.skip(i as int), pat@),
        decreases n - i,
    {
        let ghost rest = s@.skip(i as int);
        if m == 0 || n - i < m {
            assert(remove_all(rest, pat@) == rest);
            let ghost r0 = r@;
            while i < n
                invariant
                    n == s@.len(),
                    i <= n,
                    r0 + rest == r@ + s@.skip(i as int),
                decreases n - i,
            {
                r.push(s[i]);
                assert(s@.skip(i as int) =~= seq![s@[i as int]] + s@.skip(i + 1));
                i = i + 1;
            }
            assert(s@.skip(n as int) =~= Seq::<char>::empty());
            assert(r@ =~= r0 + rest);
            return r;
        }
        let mut k: usize = 0;
        while k < m && s[i + k] == pat[k]
            invariant
                m == pat@.len(),
                i + m <= n,
                n == s@.len(),
                k <= m,
                forall|q: int| 0 <= q < k ==> s@[i + q] == pat@[q],
            decreases m - k,
        {
            k = k + 1;
        }
        if k == m {
            assert(rest.take(m as int) =~= pat@);
            assert(rest.skip(m as int) =~= s@.skip(i + m));
            i = i + m;
        } else {
            assert(rest.take(m as int)[k as int] != pat@[k as int]);
            assert(rest.drop_first() =~= s@.skip(i + 1));
            let ghost r0 = r@;
            r.push(s[i]);
            assert(r@ =~= r0 + seq![rest[0]]);
            i = i + 1;
        }
    }
    assert(s@.skip(n as int) =~= Seq::<char>::empty());
    assert(r@ =~= r@ + Seq::<char>::empty());
    r
}

/// The galaxy named by a rotation-curve file name, if it is a `.dat` file.
pub fn galaxy_name_of_file(name: &str) -> (r: Option<Vec<char>>)
    ensures
        match r {
            Some(g) => galaxy_of_file(name@) == Some(g@),
            None => galaxy_of_file(name@) is None,
        },
{
    let cs = chars_of(name);
    let is_dotdot = cs.len() == 2 && cs[0] == '.' && cs[1] == '.';
    assert(is_dotdot <==> cs@ == seq!['.', '.']) by {
        if cs@ == seq!['.', '.'] {
            assert(cs@.len() == 2 && cs@[0] == '.' && cs@[1] == '.');
        }
        if is_dotdot {
            assert(cs@ =~= seq!['.', '.']);
        }
    }
    match last_dot_index(&cs) {
        Some(k) => {
            if k == 0 || is_dotdot {
                return None;
            }
            proof {
                lemma_last_dot(cs@);
            }
            let is_dat = cs.len() - k == 4 && cs[k + 1] == 'd' && cs[k + 2] == 'a' && cs[k + 3]
                == 't';
            assert(is_dat <==> cs@.skip(k + 1) == dat_extension()) by {
                if is_dat {
                    assert(cs@.skip(k + 1) =~= dat_extension());
                }
                if cs@.skip(k + 1) == dat_extension() {
                    assert(cs@.skip(k + 1).len() == 3);
                    assert(cs@.skip(k + 1)[0] == 'd');
                    assert(cs@.skip(k + 1)[1] == 'a');
                    assert(cs@.skip(k + 1)[2] == 't');
                }
            }
            if !is_dat {
                return None;
            }
            let mut stem: Vec<char> = Vec::new();
            let mut i: usize = 0;
            while i < k
                invariant
                    k < cs@.len(),
                    i <= k,
                    stem@ == cs@.take(i as int),
                decreases k - i,
            {
                stem.push(cs[i]);
                i = i + 1;
                assert(stem@ =~= cs@.take(i as int));
            }
            let pat = vec!['_', 'r', 'o', 't', 'm', 'o', 'd'];
            assert(pat@ =~= rotmod_suffix());
            Some(remove_all_exec(&stem, &pat))
        },
        None => None,
    }
}

/// The names of the galaxies with a `.dat` rotation-curve file among the file
/// names of a directory, in lexicographic order.
pub fn galaxy_names(entries: &Vec<String>) -> (r: Vec<String>)
    ensures
        r@.map_values(|s: String| s@).to_multiset() == galaxies_of_files(
            entries@.map_values(|s: String| s@),
        ).to_multiset(),
        sorted_by(r@.map_values(|s: String| s@), lex_leq()),
{
    let ghost ev = entries@.map_values(|s: String| s@);
    let mut found: Vec<Vec<char>> = Vec::new();
    let mut i: usize = 0;
    assert(ev.take(0) =~= Seq::<Seq<char>>::empty());
    assert(found@.map_values(|s: Vec<char>| s@) =~= Seq::<Seq<char>>::empty());
    while i < entries.len()
        invariant
            ev == entries@.map_values(|s: String| s@),
            i <= entries@.len(),
            found@.map_values(|s: Vec<char>| s@) == galaxies_of_files(ev.take(i as int)),
        decreases entries.len() - i,
    {
        assert(ev.take(i + 1).drop_last() =~= ev.take(i as int));
        assert(ev.take(i + 1).last() == entries@[i as int]@);
        let ghost before = found@.map_values(|s: Vec<char>| s@);
        match galaxy_name_of_file(entries[i].as_str()) {
            Some(g) => {
                let ghost gv = g@;
                found.push(g);
                assert(found@.map_values(|s: Vec<char>| s@) =~= before.push(gv));
            },
            None => {},
        }
        i = i + 1;
    }
    assert(ev.take(entries@.len() as int) =~= ev);
    let sorted = sort_names(found);
    let mut r: Vec<String> = Vec::new();
    let mut j: usize = 0;
    while j < sorted.len()
        invariant
            j <= sorted@.len(),
            r@.len() == j,
            forall|q: int| 0 <= q < j ==> (#[trigger] r@[q])@ == sorted@[q]@,
        decreases sorted.len() - j,
    {
        let s = string_from_chars(sorted[j].as_slice(), 0, sorted[j].len());
        assert(sorted[j as int]@.subrange(0, sorted[j as int]@.len() as int) =~= sorted[j as int]@);
        r.push(s);
        j = j + 1;
    }
    assert(r@.map_values(|s: String| s@) =~= sorted@.map_values(|s: Vec<char>| s@));
    r
}

/// Overrides of the data directories; a directory left as `None` is found at
/// its default place under the crate directory.
#[derive(Clone, Debug)]
pub struct DataManager {
    gnss_data_path: Option<DataPath>,
    zenodo_data_path: Option<DataPath>,
    ipta_data_path: Option<DataPath>,
    nanograv_data_path: Option<DataPath>,
    sparc_data_path: Option<DataPath>,
}

impl DataManager {
    pub closed spec fn gnss_override(&self) -> Option<DataPath> {
        self.gnss_data_path
    }

    pub closed spec fn zenodo_override(&self) -> Option<DataPath> {
        self.zenodo_data_path
    }

    pub closed spec fn ipta_override(&self) -> Option<DataPath> {
        self.ipta_data_path
    }

    pub closed spec fn nanograv_override(&self) -> Option<DataPath> {
        self.nanograv_data_path
    }

    pub closed spec fn sparc_override(&self) -> Option<DataPath> {
        self.sparc_data_path
    }

    /// A data manager that uses the default directories.
    pub fn new() -> (dm: DataManager)
        ensures
            dm.gnss_override() is None,
            dm.zenodo_override() is None,
            dm.ipta_override() is None,
            dm.nanograv_override() is None,
            dm.sparc_override() is None,
    {
        DataManager {
            gnss_data_path: None,
            zenodo_data_path: None,
            ipta_data_path: None,
            nanograv_data_path: None,
            sparc_data_path: None,
        }
    }

    /// A data manager with the given directories; the pulsar directory is not kept.
    pub fn with_paths(
        gnss_data_path: Option<DataPath>,
        zenodo_data_path: Option<DataPath>,
        ipta_data_path: Option<DataPath>,
        nanograv_data_path: Option<DataPath>,
        sparc_data_path: Option<DataPath>,
        _pulsar_data_path: Option<DataPath>,
    ) -> (dm: DataManager)
        ensures
            dm.gnss_override() == gnss_data_path,
            dm.zenodo_override() == zenodo_data_path,
            dm.ipta_override() == ipta_data_path,
            dm.nanograv_override() == nanograv_data_path,
            dm.sparc_override() == sparc_data_path,
    {
        DataManager {
            gnss_data_path,
            zenodo_data_path,
            ipta_data_path,
            nanograv_data_path,
            sparc_data_path,
        }
    }

    /// The Zenodo interferometry directory: the override, else its default.
    pub fn get_interferometry_data_path(&self, crate_dir: &str) -> (p: DataPath)
        ensures
            p@ == match self.zenodo_override() {
                Some(o) => o@,
                None => path_push(path_push(crate_dir@, "data"@), "zenodo"@),
            },
    {
        match &self.zenodo_data_path {
            Some(p) => p.duplicate(),
            None => get_zenodo_data_path(crate_dir),
        }
    }

    /// The IPTA directory: the override, else its default.
    pub fn get_pta_ipta_path(&self, crate_dir: &str) -> (p: DataPath)
        ensures
            p@ == match self.ipta_override() {
                Some(o) => o@,
                None => path_push(crate_dir@, "data/ipta/DR2-master/release/VersionB"@),
            },
    {
        match &self.ipta_data_path {
            Some(p) => p.duplicate(),
            None => get_ipta_data_path(crate_dir),
        }
    }

    /// The NANOGrav directory: the override, else its default.
    pub fn get_pta_nanograv_path(&self, crate_dir: &str) -> (p: DataPath)
        ensures
            p@ == match self.nanograv_override() {
                Some(o) => o@,
                None => path_push(path_push(crate_dir@, "data"@), "zenodo/nanograv"@),
            },
    {
        match &self.nanograv_data_path {
            Some(p) => p.duplicate(),
            None => get_nanograv_data_path(crate_dir),
        }
    }

    /// The SPARC directory: the override, else its default.
    pub fn get_sparc_data_path(&self, crate_dir: &str) -> (p: DataPath)
        ensures
            p@ == match self.sparc_override() {
                Some(o) => o@,
                None => path_push(crate_dir@, "data/zenodo/sparc"@),
            },
    {
        match &self.sparc_data_path {
            Some(p) => p.duplicate(),
            None => get_sparc_data_path(crate_dir),
        }
    }

    /// The directory whose files are listed for `list_sparc_galaxies`:
    /// `Rotmod_LTG` under the SPARC directory.
    pub fn sparc_rotmod_dir(&self, crate_dir: &str) -> (p: DataPath)
        ensures
            p@ == path_push(self.get_sparc_data_path_spec(crate_dir@), "Rotmod_LTG"@),
    {
        self.get_sparc_data_path(crate_dir).join("Rotmod_LTG")
    }

    pub open spec fn get_sparc_data_path_spec(&self, crate_dir: Seq<char>) -> Seq<char> {
        match self.sparc_override() {
            Some(o) => o@,
            None => path_push(crate_dir, "data/zenodo/sparc"@),
        }
    }

    /// The galaxy names, sorted, given the file names in `sparc_rotmod_dir`, or
    /// `NotFound` when that directory does not exist (`rotmod_entries` is `None`).
    pub fn list_sparc_galaxies(&self, rotmod_entries: Option<Vec<String>>) -> (r: Result<
        Vec<String>,
        DataError,
    >)
        ensures
            rotmod_entries is None ==> r == Err::<Vec<String>, DataError>(DataError::NotFound),
            rotmod_entries matches Some(es) ==> r matches Ok(names) && names@.map_values(
                |s: String| s@,
            ).to_multiset() == galaxies_of_files(es@.map_values(|s: String| s@)).to_multiset()
                && sorted_by(names@.map_values(|s: String| s@), lex_leq()),
    {
        match rotmod_entries {
            Some(es) => Ok(galaxy_names(&es)),
            None => Err(DataError::NotFound),
        }
    }
}

impl Default for DataManager {
    /// A data manager that uses the default directories.
    fn default() -> (dm: DataManager)
        ensures
            dm.gnss_override() is None,
            dm.zenodo_override() is None,
            dm.ipta_override() is None,
            dm.nanograv_override() is None,
            dm.sparc_override() is None,
    {
        DataManager::new()
    }
}

} // verus!
