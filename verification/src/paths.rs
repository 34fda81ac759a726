//! Filesystem paths of the data tree, built as `PathBuf` builds them, and the
//! file-name rules used to pick data files out of a directory listing.

use crate::text::{chars_of, push_char};
use vstd::prelude::*;

verus! {

/// `base` with `rel` pushed on, as `PathBuf::push` does it on Unix: an absolute
/// `rel` replaces `base`; otherwise a `/` goes between them unless `base` is
/// empty or already ends with one.
pub open spec fn path_push(base: Seq<char>, rel: Seq<char>) -> Seq<char> {
    if rel.len() > 0 && rel[0] == '/' {
        rel
    } else if base.len() > 0 && base.last() != '/' {
        base + seq!['/'] + rel
    } else {
        base + rel
    }
}

/// An owned filesystem path, kept as the text of its UTF-8 form.
#[derive(Clone, Debug, PartialEq, Eq)]
pub struct DataPath {
    text: String,
}

impl View for DataPath {
    type V = Seq<char>;

    closed spec fn view(&self) -> Seq<char> {
        self.text@
    }
}

impl DataPath {
    /// The path with the given text.
    pub fn from_str(s: &str) -> (p: DataPath)
        ensures
            p@ == s@,
    {
        DataPath { text: String::from_str(s) }
    }

    /// A copy of the path.
    pub fn duplicate(&self) -> (p: DataPath)
        ensures
            p@ == self@,
    {
        DataPath { text: self.text.clone() }
    }

    /// The path's text.
    pub fn as_str(&self) -> (s: &str)
        ensures
            s@ == self@,
    {
        self.text.as_str()
    }

    /// Pushes `rel` onto the path (see `path_push`).
    pub fn push(&mut self, rel: &str)
        ensures
            final(self)@ == path_push(old(self)@, rel@),
    {
        let cs = chars_of(rel);
        if cs.len() > 0 && cs[0] == '/' {
            self.text = String::from_str(rel);
        } else {
            let base = chars_of(self.text.as_str());
            if base.len() > 0 && base[base.len() - 1] != '/' {
                push_char(&mut self.text, '/');
            }
            self.text.append(rel);
        }
    }

    /// A new path: this one with `rel` pushed on.
    pub fn join(&self, rel: &str) -> (p: DataPath)
        ensures
            p@ == path_push(self@, rel@),
    {
        let mut p = DataPath { text: self.text.clone() };
        p.push(rel);
        p
    }
}

/// The root of the data tree under a crate directory: `<crate_dir>/data`.
pub fn get_data_root_path(crate_dir: &str) -> (p: DataPath)
    ensures
        p@ == path_push(crate_dir@, "data"@),
{
    let mut p = DataPath::from_str(crate_dir);
    p.push("data");
    p
}

/// The GNSS input directory: `<crate_dir>/data/gnss`.
pub fn get_gnss_data_input_path(crate_dir: &str) -> (p: DataPath)
    ensures
        p@ == path_push(crate_dir@, "data/gnss"@),
{
    let mut p = DataPath::from_str(crate_dir);
    p.push("data/gnss");
    p
}

/// The output directory of one experiment: `<crate_dir>/data/output/<subdir>`.
pub fn get_data_output_path(crate_dir: &str, subdir: &str) -> (p: DataPath)
    ensures
        p@ == path_push(path_push(crate_dir@, "data/output"@), subdir@),
{
    let mut p = DataPath::from_str(crate_dir);
    p.push("data/output");
    p.push(subdir);
    p
}

/// The SPARC galaxy directory: `<crate_dir>/data/zenodo/sparc`.
pub fn get_sparc_data_path(crate_dir: &str) -> (p: DataPath)
    ensures
        p@ == path_push(crate_dir@, "data/zenodo/sparc"@),
{
    let mut p = DataPath::from_str(crate_dir);
    p.push("data/zenodo/sparc");
    p
}

/// The Zenodo directory: `<crate_dir>/data/zenodo`.
pub fn get_zenodo_data_path(crate_dir: &str) -> (p: DataPath)
    ensures
        p@ == path_push(path_push(crate_dir@, "data"@), "zenodo"@),
{
    let p = DataPath::from_str(crate_dir);
    let p = p.join("data");
    p.join("zenodo")
}

/// The IPTA DR2 directory: `<crate_dir>/data/ipta/DR2-master/release/VersionB`.
pub fn get_ipta_data_path(crate_dir: &str) -> (p: DataPath)
    ensures
        p@ == path_push(crate_dir@, "data/ipta/DR2-master/release/VersionB"@),
{
    let mut p = DataPath::from_str(crate_dir);
    p.push("data/ipta/DR2-master/release/VersionB");
    p
}

/// The NANOGrav directory: the data root joined with `zenodo/nanograv`.
pub fn get_nanograv_data_path(crate_dir: &str) -> (p: DataPath)
    ensures
        p@ == path_push(path_push(crate_dir@, "data"@), "zenodo/nanograv"@),
{
    get_data_root_path(crate_dir).join("zenodo/nanograv")
}

/// Pushing two relative components one after the other is pushing them joined
/// by a `/`.
pub proof fn law_push_two_components(base: Seq<char>, a: Seq<char>, b: Seq<char>)
    requires
        a.len() > 0,
        a[0] != '/',
        a.last() != '/',
        b.len() > 0,
        b[0] != '/',
    ensures
        path_push(path_push(base, a), b) == path_push(base, a + seq!['/'] + b),
{
    let ab = a + seq!['/'] + b;
    assert(ab[0] == a[0]);
    let pa = path_push(base, a);
    assert(pa.len() > 0 && pa.last() == a.last());
    if base.len() > 0 && base.last() != '/' {
        assert(path_push(pa, b) =~= base + seq!['/'] + ab);
    } else {
        assert(path_push(pa, b) =~= base + ab);
    }
}

/// Every default data directory hangs below the data root of the same crate
/// directory, and the SPARC and NANOGrav directories below the Zenodo one.
pub proof fn law_data_tree_layout(crate_dir: Seq<char>)
    ensures
        path_push(crate_dir, "data/gnss"@) == path_push(path_push(crate_dir, "data"@), "gnss"@),
        path_push(crate_dir, "data/zenodo/sparc"@) == path_push(
            path_push(path_push(crate_dir, "data"@), "zenodo"@),
            "sparc"@,
        ),
        path_push(path_push(crate_dir, "data"@), "zenodo/nanograv"@) == path_push(
            path_push(path_push(crate_dir, "data"@), "zenodo"@),
            "nanograv"@,
        ),
        path_push(crate_dir, "data/ipta/DR2-master/release/VersionB"@) == path_push(
            path_push(crate_dir, "data"@),
            "ipta/DR2-master/release/VersionB"@,
        ),
        path_push(crate_dir, "data/output"@) == path_push(
            path_push(crate_dir, "data"@),
            "output"@,
        ),
{
    reveal_strlit("data");
    reveal_strlit("gnss");
    reveal_strlit("data/gnss");
    reveal_strlit("zenodo");
    reveal_strlit("sparc");
    reveal_strlit("data/zenodo/sparc");
    reveal_strlit("zenodo/nanograv");
    reveal_strlit("nanograv");
    reveal_strlit("data/ipta/DR2-master/release/VersionB");
    reveal_strlit("ipta/DR2-master/release/VersionB");
    reveal_strlit("data/output");
    reveal_strlit("output");
    let data = "data"@;
    law_push_two_components(crate_dir, data, "gnss"@);
    assert(data + seq!['/'] + "gnss"@ =~= "data/gnss"@);
    law_push_two_components(crate_dir, data, "zenodo"@);
    let dz = data + seq!['/'] + "zenodo"@;
    law_push_two_components(crate_dir, dz, "sparc"@);
    assert(dz + seq!['/'] + "sparc"@ =~= "data/zenodo/sparc"@);
    let root = path_push(crate_dir, data);
    law_push_two_components(root, "zenodo"@, "nanograv"@);
    assert("zenodo"@ + seq!['/'] + "nanograv"@ =~= "zenodo/nanograv"@);
    law_push_two_components(crate_dir, data, "ipta/DR2-master/release/VersionB"@);
    assert(data + seq!['/'] + "ipta/DR2-master/release/VersionB"@
        =~= "data/ipta/DR2-master/release/VersionB"@);
    law_push_two_components(crate_dir, data, "output"@);
    assert(data + seq!['/'] + "output"@ =~= "data/output"@);
}

} // verus!
