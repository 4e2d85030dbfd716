//! Camera RAW files: which extensions are RAW, how a RAW file is paired
//! with the image that shares its directory and base name, and which files a
//! scan hashes.

use vstd::prelude::*;
use vstd::string::*;
use crate::config::ScanConfig;
use crate::hash::{is_supported_image, is_supported_image_path};
use crate::paths::{
    extension_lower, norm, norm_chars, norm_text, parent_chars, path_extension_lower, path_parent,
    path_stem, stem_and_extension_lower, stem_lower,
};
use crate::text::{chars_of, lower_char, lower_seq, str_eq, string_of};
use crate::textmap::TextMap;

verus! {

/// Camera RAW extensions, lowercase. `tif` is listed for pairing only.
pub open spec fn raw_exts() -> Seq<Seq<char>> {
    seq![
        "3fr"@, "ari"@, "arw"@, "bay"@, "braw"@, "crw"@, "cr2"@, "cr3"@, "cap"@, "data"@,
        "dcs"@, "dcr"@, "dng"@, "drf"@, "eip"@, "erf"@, "fff"@, "gpr"@, "iiq"@, "k25"@,
        "kdc"@, "mdc"@, "mef"@, "mos"@, "mrw"@, "nef"@, "nrw"@, "obm"@, "orf"@, "pef"@,
        "ptx"@, "pxn"@, "r3d"@, "raf"@, "raw"@, "rwl"@, "rw2"@, "rwz"@, "sr2"@, "srf"@,
        "srw"@, "tif"@, "x3f"@
    ]
}

/// The RAW extensions, in the order they are tried when pairing.
pub fn raw_extensions() -> (a: [&'static str; 43])
    ensures
        forall|k: int| 0 <= k < 43 ==> (#[trigger] a@[k])@ == raw_exts()[k],
{
    [
        "3fr", "ari", "arw", "bay", "braw", "crw", "cr2", "cr3", "cap", "data",
        "dcs", "dcr", "dng", "drf", "eip", "erf", "fff", "gpr", "iiq", "k25",
        "kdc", "mdc", "mef", "mos", "mrw", "nef", "nrw", "obm", "orf", "pef",
        "ptx", "pxn", "r3d", "raf", "raw", "rwl", "rw2", "rwz", "sr2", "srf",
        "srw", "tif", "x3f",
    ]
}

/// Lowercasing twice is lowercasing once.
pub proof fn lemma_lower_idempotent(s: Seq<char>)
    ensures
        lower_seq(lower_seq(s)) == lower_seq(s),
{
    assert(lower_seq(lower_seq(s)) =~= lower_seq(s));
}

/// The lowercase string of `s`.
fn lower_string(s: &str) -> (r: String)
    ensures
        r@ == lower_seq(s@),
{
    let v = chars_of(s);
    let mut out: Vec<char> = Vec::new();
    let mut i: usize = 0;
    while i < v.len()
        invariant
            i <= v@.len(),
            v@ == s@,
            out@ == lower_seq(v@.take(i as int)),
        decreases v@.len() - i,
    {
        out.push(crate::text::ascii_lower(v[i]));
        assert(out@ =~= lower_seq(v@.take(i + 1)));
        i = i + 1;
    }
    assert(v@.take(v@.len() as int) =~= v@);
    string_of(&out)
}

/// Whether `e` is one of the lowercase RAW extensions.
fn is_raw_lower(e: &str) -> (b: bool)
    ensures
        b == raw_exts().contains(e@),
{
    let exts = raw_extensions();
    let mut i: usize = 0;
    while i < 43
        invariant
            i <= 43,
            forall|k: int| 0 <= k < 43 ==> (#[trigger] exts@[k])@ == raw_exts()[k],
            forall|k: int| 0 <= k < i ==> raw_exts()[k] != e@,
        decreases 43 - i,
    {
        if str_eq(exts[i], e) {
            assert(raw_exts()[i as int] == e@);
            return true;
        }
        i = i + 1;
    }
    false
}

/// Whether an extension, in any case, is a RAW extension.
pub fn is_raw_extension(ext: &str) -> (b: bool)
    ensures
        b == raw_exts().contains(lower_seq(ext@)),
{
    let l = lower_string(ext);
    is_raw_lower(l.as_str())
}

/// An extension, in any case, of the TIFF family.
pub open spec fn is_tiff_ext(e: Seq<char>) -> bool {
    lower_seq(e) == "tif"@ || lower_seq(e) == "tiff"@
}

/// Whether an extension, in any case, is `tif` or `tiff`.
pub fn is_tiff_family(ext: &str) -> (b: bool)
    ensures
        b == is_tiff_ext(ext@),
{
    let l = lower_string(ext);
    str_eq(l.as_str(), "tif") || str_eq(l.as_str(), "tiff")
}

/// A RAW file that is never scanned on its own: one with a RAW extension
/// other than the TIFF family.
pub open spec fn is_standalone_raw(p: Seq<char>) -> bool {
    match path_extension_lower(p) {
        Some(e) => raw_exts().contains(e) && !is_tiff_ext(e),
        None => false,
    }
}

/// Whether a path is a RAW file that is never scanned on its own.
pub fn is_standalone_raw_path(path: &str) -> (b: bool)
    ensures
        b == is_standalone_raw(path@),
{
    match extension_lower(path) {
        Some(e) => {
            proof {
                lemma_lower_idempotent(crate::paths::path_extension(path@).unwrap());
            }
            is_raw_extension(e.as_str()) && !is_tiff_family(e.as_str())
        },
        None => false,
    }
}

/// The index key of a path: lowercased stem, a dot, lowercased extension.
pub open spec fn path_file_key(p: Seq<char>) -> Option<Seq<char>> {
    match (path_stem(p), path_extension_lower(p)) {
        (Some(s), Some(e)) => Some(lower_seq(s) + "."@ + e),
        _ => None,
    }
}

/// The index key of a path, from its characters.
fn file_key_chars(v: &Vec<char>) -> (r: Option<String>)
    ensures
        match r {
            Some(k) => path_file_key(v@) == Some(k@),
            None => path_file_key(v@) is None,
        },
{
    match stem_and_extension_lower(v) {
        None => None,
        Some((s, e)) => {
            let mut k = string_of(&s);
            k.append(".");
            let es = string_of(&e);
            k.append(es.as_str());
            Some(k)
        },
    }
}

/// The index key of a path: lowercased `stem.ext`, when it has both.
pub fn file_key(path: &str) -> (r: Option<String>)
    ensures
        match r {
            Some(k) => path_file_key(path@) == Some(k@),
            None => path_file_key(path@) is None,
        },
{
    let v = chars_of(path);
    file_key_chars(&v)
}

/// The directory a path is filed under: the component text of its parent.
pub open spec fn dir_key(p: Seq<char>) -> Option<Seq<char>> {
    match path_parent(p) {
        Some(d) => Some(norm(d)),
        None => None,
    }
}

/// The directory a path given by its characters is filed under.
fn dir_key_chars(v: &Vec<char>) -> (r: Option<String>)
    ensures
        match r {
            Some(d) => dir_key(v@) == Some(d@),
            None => dir_key(v@) is None,
        },
{
    match parent_chars(v) {
        None => None,
        Some(d) => {
            let nd = norm_chars(&d);
            Some(string_of(&nd))
        },
    }
}

/// Directory index of a list of paths: for each directory, each index key
/// maps to the last listed path of that directory with that key.
pub open spec fn index_of(ps: Seq<Seq<char>>) -> Map<Seq<char>, Map<Seq<char>, Seq<char>>>
    decreases ps.len(),
{
    if ps.len() == 0 {
        Map::empty()
    } else {
        let prev = index_of(ps.drop_last());
        let p = ps.last();
        match (dir_key(p), path_file_key(p)) {
            (Some(d), Some(k)) => prev.insert(
                d,
                (if prev.contains_key(d) {
                    prev[d]
                } else {
                    Map::empty()
                }).insert(k, p),
            ),
            _ => prev,
        }
    }
}

/// The texts of a sequence of strings.
pub open spec fn texts(v: Seq<String>) -> Seq<Seq<char>> {
    v.map_values(|s: String| s@)
}

/// Per-directory lookup of files by index key.
pub struct DirectoryIndex {
    dirs: Vec<String>,
    maps: Vec<TextMap>,
}

/// Directory `i` of the index is `d`.
pub open spec fn has_dir_at(ds: Seq<String>, i: int, d: Seq<char>) -> bool {
    0 <= i < ds.len() && ds[i]@ == d
}

impl View for DirectoryIndex {
    type V = Map<Seq<char>, Map<Seq<char>, Seq<char>>>;

    closed spec fn view(&self) -> Map<Seq<char>, Map<Seq<char>, Seq<char>>> {
        Map::new(
            |d: Seq<char>| exists|i: int| has_dir_at(self.dirs@, i, d),
            |d: Seq<char>| self.maps@[choose|i: int| has_dir_at(self.dirs@, i, d)]@,
        )
    }
}

impl DirectoryIndex {
    /// Internal invariant: one map per directory, directories distinct, and
    /// every map well formed.
    pub closed spec fn wf(&self) -> bool {
        &&& self.dirs@.len() == self.maps@.len()
        &&& forall|i: int, j: int|
            0 <= i < j < self.dirs@.len() ==> (#[trigger] self.dirs@[i])@ != (#[trigger] self.dirs@[j])@
        &&& forall|i: int| 0 <= i < self.maps@.len() ==> (#[trigger] self.maps@[i]).wf()
    }

    proof fn lemma_lookup(&self, i: int)
        requires
            self.wf(),
            0 <= i < self.dirs@.len(),
        ensures
            self@.contains_key(self.dirs@[i]@),
            self@[self.dirs@[i]@] == self.maps@[i]@,
    {
        assert(has_dir_at(self.dirs@, i, self.dirs@[i]@));
        let j = choose|j: int| has_dir_at(self.dirs@, j, self.dirs@[i]@);
        if j != i {
            if j < i {
                assert(self.dirs@[j]@ != self.dirs@[i]@);
            } else {
                assert(self.dirs@[i]@ != self.dirs@[j]@);
            }
        }
    }

    fn new() -> (x: Self)
        ensures
            x.wf(),
            x@ == Map::<Seq<char>, Map<Seq<char>, Seq<char>>>::empty(),
    {
        let x = DirectoryIndex { dirs: Vec::new(), maps: Vec::new() };
        assert(x@ =~= Map::<Seq<char>, Map<Seq<char>, Seq<char>>>::empty());
        x
    }

    fn position(&self, dir: &str) -> (r: Option<usize>)
        requires
            self.wf(),
        ensures
            match r {
                Some(i) => i < self.dirs@.len() && self.dirs@[i as int]@ == dir@,
                None => !self@.contains_key(dir@),
            },
    {
        let mut i: usize = 0;
        while i < self.dirs.len()
            invariant
                self.wf(),
                i <= self.dirs@.len(),
                forall|j: int| 0 <= j < i ==> self.dirs@[j]@ != dir@,
            decreases self.dirs@.len() - i,
        {
            if str_eq(self.dirs[i].as_str(), dir) {
                return Some(i);
            }
            i = i + 1;
        }
        proof {
            if self@.contains_key(dir@) {
                let j = choose|j: int| has_dir_at(self.dirs@, j, dir@);
                assert(self.dirs@[j]@ == dir@);
            }
        }
        None
    }

    /// The lookup of one directory, if any file of it was indexed.
    pub fn get(&self, dir: &str) -> (r: Option<&TextMap>)
        requires
            self.wf(),
        ensures
            match r {
                Some(m) => self@.contains_key(dir@) && self@[dir@] == m@ && m.wf(),
                None => !self@.contains_key(dir@),
            },
    {
        match self.position(dir) {
            Some(i) => {
                proof {
                    self.lemma_lookup(i as int);
                }
                Some(&self.maps[i])
            },
            None => None,
        }
    }

    /// Records `path` under index key `key` of directory `dir`.
    fn insert(&mut self, dir: String, key: String, path: String)
        requires
            old(self).wf(),
        ensures
            final(self).wf(),
            final(self)@ == old(self)@.insert(
                dir@,
                (if old(self)@.contains_key(dir@) {
                    old(self)@[dir@]
                } else {
                    Map::empty()
                }).insert(key@, path@),
            ),
    {
        let ghost m0 = self@;
        let ghost ds0 = self.dirs@;
        let ghost ms0 = self.maps@;
        let ghost target = (if m0.contains_key(dir@) {
            m0[dir@]
        } else {
            Map::empty()
        }).insert(key@, path@);
        match self.position(dir.as_str()) {
            Some(i) => {
                proof {
                    self.lemma_lookup(i as int);
                }
                self.maps[i].insert(key, path);
                proof {
                    assert(self.dirs@ == ds0);
                    assert(self.maps@[i as int]@ == target);
                    assert forall|j: int| 0 <= j < self.maps@.len() implies (#[trigger] self.maps@[j]).wf() by {
                        if j != i {
                            assert(self.maps@[j] == ms0[j]);
                        }
                    }
                    assert forall|d: Seq<char>| #![auto] self@.contains_key(d) == m0.insert(dir@, target).contains_key(d) by {
                        if m0.insert(dir@, target).contains_key(d) && d != dir@ {
                            let j = choose|j: int| has_dir_at(ds0, j, d);
                            assert(has_dir_at(self.dirs@, j, d));
                        }
                        if d == dir@ {
                            assert(has_dir_at(self.dirs@, i as int, d));
                        }
                    }
                    assert forall|d: Seq<char>| #![auto] self@.contains_key(d) implies self@[d] == m0.insert(dir@, target)[d] by {
                        let j = choose|j: int| has_dir_at(self.dirs@, j, d);
                        self.lemma_lookup(j);
                        if j != i as int {
                            assert(self.maps@[j] == ms0[j]);
                            assert(d != dir@) by {
                                if j < i {
                                    assert(ds0[j]@ != ds0[i as int]@);
                                } else {
                                    assert(ds0[i as int]@ != ds0[j]@);
                                }
                            }
                        }
                    }
                    assert(self@ =~= m0.insert(dir@, target));
                }
            },
            None => {
                let ghost dd = dir@;
                let mut m = TextMap::new();
                m.insert(key, path);
                self.dirs.push(dir);
                self.maps.push(m);
                proof {
                    let n = ds0.len() as int;
                    assert(self.maps@[n]@ == target);
                    assert forall|j: int| 0 <= j < self.maps@.len() implies (#[trigger] self.maps@[j]).wf() by {
                        if j < n {
                            assert(self.maps@[j] == ms0[j]);
                        }
                    }
                    assert forall|i: int, j: int|
                        0 <= i < j < self.dirs@.len() implies (#[trigger] self.dirs@[i])@ != (#[trigger] self.dirs@[j])@ by {
                        if j == n {
                            assert(self.dirs@[i] == ds0[i]);
                            assert(has_dir_at(ds0, i, ds0[i]@));
                        } else {
                            assert(self.dirs@[i] == ds0[i]);
                            assert(self.dirs@[j] == ds0[j]);
                        }
                    }
                    assert forall|d: Seq<char>| #![auto] self@.contains_key(d) == m0.insert(dd, target).contains_key(d) by {
                        if self@.contains_key(d) {
                            let j = choose|j: int| has_dir_at(self.dirs@, j, d);
                            if j < n {
                                assert(has_dir_at(ds0, j, d));
                            }
                        }
                        if m0.insert(dd, target).contains_key(d) {
                            if d == dd {
                                assert(has_dir_at(self.dirs@, n, d));
                            } else {
                                let j = choose|j: int| has_dir_at(ds0, j, d);
                                assert(has_dir_at(self.dirs@, j, d));
                            }
                        }
                    }
                    assert forall|d: Seq<char>| #![auto] self@.contains_key(d) implies self@[d] == m0.insert(dd, target)[d] by {
                        let j = choose|j: int| has_dir_at(self.dirs@, j, d);
                        self.lemma_lookup(j);
                        if j < n {
                            assert(self.maps@[j] == ms0[j]);
                            assert(has_dir_at(ds0, j, d));
                            assert(m0.contains_key(d));
                            assert(d != dd);
                            let j0 = choose|j0: int| has_dir_at(ds0, j0, d);
                            if j0 != j {
                                if j0 < j {
                                    assert(ds0[j0]@ != ds0[j]@);
                                } else {
                                    assert(ds0[j]@ != ds0[j0]@);
                                }
                            }
                        }
                    }
                    assert(self@ =~= m0.insert(dd, target));
                }
            },
        }
    }
}

/// Builds the per-directory lookup of lowercase `stem.ext` to path.
pub fn index_directory_files(paths: &[String]) -> (idx: DirectoryIndex)
    ensures
        idx.wf(),
        idx@ == index_of(texts(paths@)),
{
    let mut idx = DirectoryIndex::new();
    let mut i: usize = 0;
    while i < paths.len()
        invariant
            i <= paths@.len(),
            idx.wf(),
            idx@ == index_of(texts(paths@).take(i as int)),
        decreases paths@.len() - i,
    {
        let ghost prefix = texts(paths@).take(i + 1);
        proof {
            assert(prefix.drop_last() =~= texts(paths@).take(i as int));
            assert(prefix.last() == paths@[i as int]@);
        }
        let v = chars_of(paths[i].as_str());
        match dir_key_chars(&v) {
            None => {},
            Some(d) => match file_key_chars(&v) {
                None => {},
                Some(k) => {
                    idx.insert(d, k, paths[i].clone());
                },
            },
        }
        i = i + 1;
    }
    assert(texts(paths@).take(paths@.len() as int) =~= texts(paths@));
    idx
}

/// The first RAW companion of `image` with lowercased stem `stem`, trying
/// the RAW extensions from position `k` on: the file indexed under
/// `stem.ext` for the first extension whose file is not `image` itself
/// (compared by components).
pub open spec fn companion_from(
    idx: Map<Seq<char>, Seq<char>>,
    image: Seq<char>,
    stem: Seq<char>,
    k: int,
) -> Option<Seq<char>>
    decreases 43 - k,
{
    if k < 0 || k >= 43 {
        None
    } else {
        let key = stem + "."@ + raw_exts()[k];
        if idx.contains_key(key) && norm(idx[key]) != norm(image) {
            Some(idx[key])
        } else {
            companion_from(idx, image, stem, k + 1)
        }
    }
}

/// The RAW companion of an image in the lookup of its directory.
pub open spec fn companion_raw(idx: Map<Seq<char>, Seq<char>>, image: Seq<char>) -> Option<Seq<char>> {
    match path_stem(image) {
        Some(s) => companion_from(idx, image, lower_seq(s), 0),
        None => None,
    }
}

/// Finds a RAW file with the same base name as `image_path` in the lookup
/// of its directory.
pub fn find_companion_raw(image_path: &str, dir_index: &TextMap) -> (r: Option<String>)
    requires
        dir_index.wf(),
    ensures
        match r {
            Some(p) => companion_raw(dir_index@, image_path@) == Some(p@),
            None => companion_raw(dir_index@, image_path@) is None,
        },
{
    let v = chars_of(image_path);
    let stem_chars = match stem_lower(&v) {
        Some(s) => s,
        None => return None,
    };
    let stem = string_of(&stem_chars);
    let image_norm = norm_text(image_path);
    let exts = raw_extensions();
    let mut k: usize = 0;
    while k < 43
        invariant
            k <= 43,
            dir_index.wf(),
            v@ == image_path@,
            image_norm@ == norm(image_path@),
            path_stem(image_path@) is Some,
            stem@ == lower_seq(path_stem(image_path@).unwrap()),
            forall|j: int| 0 <= j < 43 ==> (#[trigger] exts@[j])@ == raw_exts()[j],
            companion_raw(dir_index@, image_path@) == companion_from(dir_index@, image_path@, stem@, k as int),
        decreases 43 - k,
    {
        let mut key = stem.clone();
        key.append(".");
        key.append(exts[k]);
        proof {
            assert(key@ == stem@ + "."@ + raw_exts()[k as int]);
        }
        match dir_index.get(key.as_str()) {
            Some(candidate) => {
                let candidate_norm = norm_text(candidate.as_str());
                if !str_eq(candidate_norm.as_str(), image_norm.as_str()) {
                    return Some(candidate.clone());
                }
            },
            None => {},
        }
        k = k + 1;
    }
    None
}

/// Files a scan hashes, and the RAW companion recorded for each image.
pub struct ScanEntryPlan {
    pub entries: Vec<String>,
    pub companion_raw_by_image: TextMap,
}

/// A path a scan considers: a supported image, and, unless RAW pairing is
/// on, not a standalone RAW file.
pub open spec fn is_scannable(p: Seq<char>, include_raw: bool) -> bool {
    is_supported_image_path(p) && (include_raw || !is_standalone_raw(p))
}

/// The paths a scan considers, in input order.
pub open spec fn scannable(ps: Seq<Seq<char>>, include_raw: bool) -> Seq<Seq<char>> {
    ps.filter(|p: Seq<char>| is_scannable(p, include_raw))
}

/// The RAW companion of `p` among the files `ps`.
pub open spec fn planned_companion(ps: Seq<Seq<char>>, p: Seq<char>) -> Option<Seq<char>> {
    match dir_key(p) {
        Some(d) => if index_of(ps).contains_key(d) {
            companion_raw(index_of(ps)[d], p)
        } else {
            None
        },
        None => None,
    }
}

/// Component text of the RAW companion of `p` among the files `ps`.
pub open spec fn raw_norm_at(ps: Seq<Seq<char>>, p: Seq<char>) -> Option<Seq<char>> {
    match planned_companion(ps, p) {
        Some(r) => Some(norm(r)),
        None => None,
    }
}

/// `r` is, by its components, the companion of some considered image.
pub open spec fn is_planned_raw(ps: Seq<Seq<char>>, r: Seq<char>) -> bool {
    exists|p: Seq<char>| scannable(ps, true).contains(p) && #[trigger] raw_norm_at(ps, p) == Some(norm(r))
}

/// Companions recorded when RAW pairing is on: each considered image with a
/// companion, mapped to it.
pub open spec fn planned_companions(ps: Seq<Seq<char>>) -> Map<Seq<char>, Seq<char>> {
    Map::new(
        |p: Seq<char>| scannable(ps, true).contains(p) && planned_companion(ps, p) is Some,
        |p: Seq<char>| planned_companion(ps, p).unwrap(),
    )
}

/// Files hashed: the considered paths, without any path that is the
/// companion of a considered image when RAW pairing is on.
pub open spec fn planned_entries(ps: Seq<Seq<char>>, include_raw: bool) -> Seq<Seq<char>> {
    if include_raw {
        scannable(ps, true).filter(|p: Seq<char>| !is_planned_raw(ps, p))
    } else {
        scannable(ps, false)
    }
}

/// Decides which files a scan hashes and which RAW companions it associates
/// with them.
pub fn plan_scan_entries(all_files: &[String], config: &ScanConfig) -> (plan: ScanEntryPlan)
    ensures
        texts(plan.entries@) == planned_entries(texts(all_files@), config.include_raw),
        plan.companion_raw_by_image.wf(),
        plan.companion_raw_by_image@ == (if config.include_raw {
            planned_companions(texts(all_files@))
        } else {
            Map::empty()
        }),
{
    let ghost ps = texts(all_files@);
    let include_raw = config.include_raw;
    let mut scan: Vec<String> = Vec::new();
    let mut i: usize = 0;
    while i < all_files.len()
        invariant
            i <= all_files@.len(),
            ps == texts(all_files@),
            texts(scan@) == ps.take(i as int).filter(|p: Seq<char>| is_scannable(p, include_raw)),
        decreases all_files@.len() - i,
    {
        proof {
            reveal_with_fuel(Seq::filter, 1);
            assert(ps.take(i + 1).drop_last() =~= ps.take(i as int));
        }
        let path = &all_files[i];
        let keep = is_supported_image(path.as_str()) && (include_raw || !is_standalone_raw_path(path.as_str()));
        if keep {
            scan.push(path.clone());
            assert(texts(scan@) =~= ps.take(i as int).filter(|p: Seq<char>| is_scannable(p, include_raw)).push(path@));
        }
        i = i + 1;
    }
    assert(ps.take(all_files@.len() as int) =~= ps);
    if !include_raw {
        return ScanEntryPlan { entries: scan, companion_raw_by_image: TextMap::new() };
    }
    let idx = index_directory_files(all_files);
    let mut companions = TextMap::new();
    let mut raws: Vec<String> = Vec::new();
    let mut j: usize = 0;
    while j < scan.len()
        invariant
            j <= scan@.len(),
            include_raw,
            ps == texts(all_files@),
            texts(scan@) == scannable(ps, true),
            idx.wf(),
            idx@ == index_of(ps),
            companions.wf(),
            companions@ == Map::new(
                |p: Seq<char>| texts(scan@).take(j as int).contains(p) && planned_companion(ps, p) is Some,
                |p: Seq<char>| planned_companion(ps, p).unwrap(),
            ),
            forall|r: Seq<char>|
                #![trigger texts(raws@).contains(r)]
                texts(raws@).contains(r) <==> exists|k: int|
                    0 <= k < j && raw_norm_at(ps, #[trigger] texts(scan@)[k]) == Some(r),
        decreases scan@.len() - j,
    {
        let ghost m0 = companions@;
        let ghost r0 = texts(raws@);
        let image = &scan[j];
        let ghost img = image@;
        assert(texts(scan@)[j as int] == img);
        let v = chars_of(image.as_str());
        let found: Option<String> = match dir_key_chars(&v) {
            None => None,
            Some(ds) => match idx.get(ds.as_str()) {
                None => None,
                Some(m) => find_companion_raw(image.as_str(), m),
            },
        };
        proof {
            match &found {
                Some(f) => assert(planned_companion(ps, img) == Some(f@)),
                None => assert(planned_companion(ps, img) is None),
            }
        }
        match found {
            Some(raw) => {
                let rn = norm_text(raw.as_str());
                companions.insert(image.clone(), raw);
                raws.push(rn);
            },
            None => {},
        }
        proof {
            let t1 = texts(scan@).take(j + 1);
            assert(t1 =~= texts(scan@).take(j as int).push(img));
            assert(companions@ =~= Map::new(
                |p: Seq<char>| t1.contains(p) && planned_companion(ps, p) is Some,
                |p: Seq<char>| planned_companion(ps, p).unwrap(),
            )) by {
                assert forall|p: Seq<char>| #![auto] t1.contains(p) <==> (texts(scan@).take(j as int).contains(p) || p == img) by {
                    if t1.contains(p) && p != img {
                        let q = choose|q: int| 0 <= q < t1.len() && t1[q] == p;
                        assert(texts(scan@).take(j as int)[q] == p);
                    }
                    if texts(scan@).take(j as int).contains(p) {
                        let q = choose|q: int| 0 <= q < j && texts(scan@).take(j as int)[q] == p;
                        assert(t1[q] == p);
                    }
                    if p == img {
                        assert(t1[j as int] == p);
                    }
                }
            }
            assert forall|r: Seq<char>| #![trigger texts(raws@).contains(r)]
                texts(raws@).contains(r) <==> exists|k: int|
                    0 <= k < j + 1 && raw_norm_at(ps, #[trigger] texts(scan@)[k]) == Some(r) by {
                match &found {
                    Some(f) => {
                        assert(texts(raws@) =~= r0.push(norm(f@)));
                        if texts(raws@).contains(r) {
                            let q = choose|q: int| 0 <= q < texts(raws@).len() && texts(raws@)[q] == r;
                            if q < r0.len() {
                                assert(r0[q] == r);
                                assert(r0.contains(r));
                            } else {
                                assert(raw_norm_at(ps, texts(scan@)[j as int]) == Some(r));
                            }
                        }
                        if exists|k: int| 0 <= k < j + 1 && raw_norm_at(ps, #[trigger] texts(scan@)[k]) == Some(r) {
                            let k = choose|k: int| 0 <= k < j + 1 && raw_norm_at(ps, #[trigger] texts(scan@)[k]) == Some(r);
                            if k < j {
                                assert(r0.contains(r));
                                let q = choose|q: int| 0 <= q < r0.len() && r0[q] == r;
                                assert(texts(raws@)[q] == r);
                            } else {
                                assert(texts(raws@)[r0.len() as int] == r);
                            }
                        }
                    },
                    None => {
                        assert(texts(raws@) =~= r0);
                        if exists|k: int| 0 <= k < j + 1 && raw_norm_at(ps, #[trigger] texts(scan@)[k]) == Some(r) {
                            let k = choose|k: int| 0 <= k < j + 1 && raw_norm_at(ps, #[trigger] texts(scan@)[k]) == Some(r);
                            assert(k < j);
                        }
                    },
                }
            }
        }
        j = j + 1;
    }
    proof {
        assert(texts(scan@).take(scan@.len() as int) =~= texts(scan@));
        assert(companions@ =~= planned_companions(ps));
        assert forall|r: Seq<char>| #![trigger texts(raws@).contains(r)]
            texts(raws@).contains(r) <==> exists|p: Seq<char>|
                scannable(ps, true).contains(p) && #[trigger] raw_norm_at(ps, p) == Some(r) by {
            if texts(raws@).contains(r) {
                let k = choose|k: int| 0 <= k < scan@.len() && raw_norm_at(ps, #[trigger] texts(scan@)[k]) == Some(r);
                assert(scannable(ps, true).contains(texts(scan@)[k]));
            }
            if exists|p: Seq<char>| scannable(ps, true).contains(p) && #[trigger] raw_norm_at(ps, p) == Some(r) {
                let p = choose|p: Seq<char>| scannable(ps, true).contains(p) && #[trigger] raw_norm_at(ps, p) == Some(r);
                let k = choose|k: int| 0 <= k < scannable(ps, true).len() && scannable(ps, true)[k] == p;
                assert(texts(scan@)[k] == p);
            }
        }
    }
    let mut entries: Vec<String> = Vec::new();
    let mut k: usize = 0;
    while k < scan.len()
        invariant
            k <= scan@.len(),
            forall|r: Seq<char>| #![trigger texts(raws@).contains(r)]
                texts(raws@).contains(r) <==> exists|p: Seq<char>|
                    scannable(ps, true).contains(p) && #[trigger] raw_norm_at(ps, p) == Some(r),
            texts(entries@) == texts(scan@).take(k as int).filter(|p: Seq<char>| !is_planned_raw(ps, p)),
        decreases scan@.len() - k,
    {
        proof {
            reveal_with_fuel(Seq::filter, 1);
            assert(texts(scan@).take(k + 1).drop_last() =~= texts(scan@).take(k as int));
        }
        let sn = norm_text(scan[k].as_str());
        let mut hidden = false;
        let mut q: usize = 0;
        while q < raws.len()
            invariant
                q <= raws@.len(),
                k < scan@.len(),
                sn@ == norm(scan@[k as int]@),
                hidden == exists|t: int| 0 <= t < q && raws@[t]@ == sn@,
            decreases raws@.len() - q,
        {
            if str_eq(raws[q].as_str(), sn.as_str()) {
                hidden = true;
            }
            q = q + 1;
        }
        proof {
            if hidden {
                let t = choose|t: int| 0 <= t < raws@.len() && raws@[t]@ == sn@;
                assert(texts(raws@)[t] == sn@);
            } else {
                if texts(raws@).contains(sn@) {
                    let t = choose|t: int| 0 <= t < texts(raws@).len() && texts(raws@)[t] == sn@;
                    assert(raws@[t]@ == sn@);
                }
            }
            assert(hidden == texts(raws@).contains(sn@));
            assert(hidden == is_planned_raw(ps, scan@[k as int]@));
        }
        if !hidden {
            entries.push(scan[k].clone());
            assert(texts(entries@) =~= texts(scan@).take(k as int).filter(|p: Seq<char>| !is_planned_raw(ps, p)).push(scan@[k as int]@));
        }
        k = k + 1;
    }
    assert(texts(scan@).take(scan@.len() as int) =~= texts(scan@));
    ScanEntryPlan { entries, companion_raw_by_image: companions }
}

} // verus!
