//! Discovery and pairing: classify the files found under the watched root
//! into two identifier-keyed mappings, convertible containers and candidate
//! subtitle files. Walking the directory tree is the caller's I/O; this
//! module fixes what the walk's listing means.

use vstd::prelude::*;
use crate::paths::{path_has_ext, path_ext_is, stem_of_path, path_stem};
use crate::text::str_eq;

verus! {

/// One file the directory walk reported: its path, and whether the walk saw
/// a regular file (directories and other entries are never paired).
pub struct FileRecord {
    pub path: String,
    pub is_regular: bool,
}

impl View for FileRecord {
    type V = (Seq<char>, bool);

    open spec fn view(&self) -> (Seq<char>, bool) {
        (self.path@, self.is_regular)
    }
}

impl DeepView for FileRecord {
    type V = (Seq<char>, bool);

    open spec fn deep_view(&self) -> (Seq<char>, bool) {
        self.view()
    }
}

/// One pairing-map entry: an identifier and the path it maps to.
pub struct MediaEntry {
    pub stem: String,
    pub path: String,
}

impl View for MediaEntry {
    type V = (Seq<char>, Seq<char>);

    open spec fn view(&self) -> (Seq<char>, Seq<char>) {
        (self.stem@, self.path@)
    }
}

impl DeepView for MediaEntry {
    type V = (Seq<char>, Seq<char>);

    open spec fn deep_view(&self) -> (Seq<char>, Seq<char>) {
        self.view()
    }
}

/// The mapping an association list denotes, later entries overriding earlier
/// ones with the same key.
pub open spec fn assoc_map(s: Seq<(Seq<char>, Seq<char>)>) -> Map<Seq<char>, Seq<char>>
    decreases s.len(),
{
    if s.len() == 0 {
        Map::empty()
    } else {
        assoc_map(s.drop_last()).insert(s.last().0, s.last().1)
    }
}

/// A key held by no entry is not in the denoted mapping.
pub proof fn lemma_assoc_map_absent(s: Seq<(Seq<char>, Seq<char>)>, key: Seq<char>)
    requires
        forall|i: int| 0 <= i < s.len() ==> (#[trigger] s[i]).0 != key,
    ensures
        !assoc_map(s).contains_key(key),
    decreases s.len(),
{
    if s.len() > 0 {
        assert(s.last() == s[s.len() - 1]);
        lemma_assoc_map_absent(s.drop_last(), key);
    }
}

/// An entry after which its key never recurs gives the key's mapped value.
pub proof fn lemma_assoc_map_found(s: Seq<(Seq<char>, Seq<char>)>, i: int)
    requires
        0 <= i < s.len(),
        forall|j: int| i < j < s.len() ==> (#[trigger] s[j]).0 != s[i].0,
    ensures
        assoc_map(s).contains_key(s[i].0),
        assoc_map(s)[s[i].0] == s[i].1,
    decreases s.len(),
{
    if i == s.len() - 1 {
    } else {
        let t = s.drop_last();
        assert forall|j: int| i < j < t.len() implies (#[trigger] t[j]).0 != t[i].0 by {
            assert(t[j] == s[j]);
        }
        lemma_assoc_map_found(t, i);
        assert(s.last() == s[s.len() - 1]);
        assert(s.last().0 != s[i].0);
    }
}

/// Overwriting the one entry that holds a key denotes the same mapping as
/// inserting the key's new value.
pub proof fn lemma_assoc_map_overwrite(
    s: Seq<(Seq<char>, Seq<char>)>,
    i: int,
    v: Seq<char>,
)
    requires
        0 <= i < s.len(),
        forall|j: int, k: int| 0 <= j < k < s.len() ==> (#[trigger] s[j]).0 != (#[trigger] s[k]).0,
    ensures
        assoc_map(s.update(i, (s[i].0, v))) == assoc_map(s).insert(s[i].0, v),
    decreases s.len(),
{
    let key = s[i].0;
    let u = s.update(i, (key, v));
    if i == s.len() - 1 {
        assert(u.drop_last() =~= s.drop_last());
        assert(u.last() == (key, v));
        assert(assoc_map(u) =~= assoc_map(s).insert(key, v));
    } else {
        let t = s.drop_last();
        assert forall|j: int, k: int| 0 <= j < k < t.len() implies (#[trigger] t[j]).0 != (
        #[trigger] t[k]).0 by {
            assert(t[j] == s[j] && t[k] == s[k]);
        }
        lemma_assoc_map_overwrite(t, i, v);
        assert(u.drop_last() =~= t.update(i, (key, v)));
        assert(u.last() == s.last());
        assert(s.last().0 != key);
        assert(assoc_map(u) == assoc_map(t).insert(key, v).insert(s.last().0, s.last().1));
        assert(assoc_map(t).insert(key, v).insert(s.last().0, s.last().1) =~= assoc_map(
            t,
        ).insert(s.last().0, s.last().1).insert(key, v));
    }
}

/// An identifier-keyed mapping built by discovery: insertion order kept,
/// a later insert of an identifier already present overwriting its path.
pub struct StemMap {
    entries: Vec<MediaEntry>,
}

impl View for StemMap {
    type V = Seq<(Seq<char>, Seq<char>)>;

    closed spec fn view(&self) -> Seq<(Seq<char>, Seq<char>)> {
        self.entries.deep_view()
    }
}

impl StemMap {
    /// No identifier keys two entries.
    pub open spec fn wf(&self) -> bool {
        forall|i: int, j: int|
            0 <= i < j < self@.len() ==> (#[trigger] self@[i]).0 != (#[trigger] self@[j]).0
    }

    /// The mapping this association list denotes.
    pub open spec fn as_map(&self) -> Map<Seq<char>, Seq<char>> {
        assoc_map(self@)
    }

    /// The empty mapping.
    pub fn new() -> (r: StemMap)
        ensures
            r@ == Seq::<(Seq<char>, Seq<char>)>::empty(),
            r.wf(),
            r.as_map() == Map::<Seq<char>, Seq<char>>::empty(),
    {
        let r = StemMap { entries: Vec::new() };
        proof {
            assert(r@ =~= Seq::<(Seq<char>, Seq<char>)>::empty());
            assert(r.as_map() =~= Map::<Seq<char>, Seq<char>>::empty());
        }
        r
    }

    /// The number of identifiers held.
    pub fn len(&self) -> (n: usize)
        ensures
            n == self@.len(),
    {
        self.entries.len()
    }

    /// The identifier and path at one position, copied out.
    pub fn entry_at(&self, i: usize) -> (r: (String, String))
        requires
            i < self@.len(),
        ensures
            (r.0@, r.1@) == self@[i as int],
    {
        let e = &self.entries[i];
        (e.stem.clone(), e.path.clone())
    }

    /// Insert one identifier, overwriting the path it already mapped to.
    pub fn insert(&mut self, stem: String, path: String)
        requires
            old(self).wf(),
        ensures
            final(self).wf(),
            final(self).as_map() == old(self).as_map().insert(stem@, path@),
    {
        let n = self.entries.len();
        let mut i: usize = 0;
        while i < n
            invariant
                n == self.entries.len(),
                i <= n,
                self@.len() == n,
                self.wf(),
                self@ == old(self)@,
                forall|k: int| 0 <= k < i ==> (#[trigger] self@[k]).0 != stem@,
            decreases n - i,
        {
            if str_eq(self.entries[i].stem.as_str(), stem.as_str()) {
                assert(self@[i as int].0 == stem@);
                self.entries[i] = MediaEntry { stem, path };
                proof {
                    assert(self@ =~= old(self)@.update(i as int, (stem@, path@)));
                    lemma_assoc_map_overwrite(old(self)@, i as int, path@);
                }
                return ;
            }
            i += 1;
        }
        self.entries.push(MediaEntry { stem, path });
        proof {
            assert(self@ =~= old(self)@.push((stem@, path@)));
            assert(self@.drop_last() =~= old(self)@);
        }
    }

    /// Look an identifier up, copying its path out.
    pub fn get(&self, stem: &str) -> (r: Option<String>)
        requires
            self.wf(),
        ensures
            match r {
                Some(p) => self.as_map().contains_key(stem@) && p@ == self.as_map()[stem@],
                None => !self.as_map().contains_key(stem@),
            },
    {
        let n = self.entries.len();
        let mut i: usize = 0;
        while i < n
            invariant
                n == self.entries.len(),
                i <= n,
                self@.len() == n,
                self.wf(),
                forall|k: int| 0 <= k < i ==> (#[trigger] self@[k]).0 != stem@,
            decreases n - i,
        {
            if str_eq(self.entries[i].stem.as_str(), stem) {
                proof {
                    assert(self@[i as int].0 == stem@);
                    lemma_assoc_map_found(self@, i as int);
                }
                return Some(self.entries[i].path.clone());
            }
            i += 1;
        }
        proof {
            lemma_assoc_map_absent(self@, stem@);
        }
        None
    }
}

/// The extension that marks a convertible container file.
pub open spec fn container_ext() -> Seq<char> {
    "mkv"@
}

/// The extension that marks a subtitle candidate.
pub open spec fn subtitle_ext() -> Seq<char> {
    "srt"@
}

/// The classification fold of one discovery pass: every regular file whose
/// name carries the given extension is keyed by its stem, later files
/// overwriting earlier ones with the same stem.
pub open spec fn spec_pairing(
    files: Seq<(Seq<char>, bool)>,
    ext: Seq<char>,
) -> Map<Seq<char>, Seq<char>>
    decreases files.len(),
{
    if files.len() == 0 {
        Map::empty()
    } else {
        let m = spec_pairing(files.drop_last(), ext);
        let f = files.last();
        if f.1 && path_has_ext(f.0, ext) {
            m.insert(stem_of_path(f.0), f.0)
        } else {
            m
        }
    }
}

/// The two mappings of one discovery pass, consumed once and discarded.
pub struct Pairing {
    pub containers: StemMap,
    pub subtitles: StemMap,
}

/// Classify a directory listing into the container and subtitle mappings.
pub fn pair_files(files: &Vec<FileRecord>) -> (r: Pairing)
    ensures
        r.containers.wf(),
        r.subtitles.wf(),
        r.containers.as_map() == spec_pairing(files.deep_view(), container_ext()),
        r.subtitles.as_map() == spec_pairing(files.deep_view(), subtitle_ext()),
{
    let ghost fs = files.deep_view();
    let n = files.len();
    let mut containers = StemMap::new();
    let mut subtitles = StemMap::new();
    proof {
        assert(fs.take(0) =~= Seq::<(Seq<char>, bool)>::empty());
    }
    let mut i: usize = 0;
    while i < n
        invariant
            n == files.len(),
            fs == files.deep_view(),
            fs.len() == n,
            i <= n,
            containers.wf(),
            subtitles.wf(),
            containers.as_map() == spec_pairing(fs.take(i as int), container_ext()),
            subtitles.as_map() == spec_pairing(fs.take(i as int), subtitle_ext()),
        decreases n - i,
    {
        let f = &files[i];
        assert(fs[i as int] == (f.path@, f.is_regular));
        if f.is_regular {
            if path_ext_is(f.path.as_str(), "mkv") {
                let stem = path_stem(f.path.as_str());
                containers.insert(stem, f.path.clone());
            } else if path_ext_is(f.path.as_str(), "srt") {
                let stem = path_stem(f.path.as_str());
                subtitles.insert(stem, f.path.clone());
            }
        }
        proof {
            reveal_strlit("mkv");
            reveal_strlit("srt");
            assert(container_ext()[0] == 'm' && subtitle_ext()[0] == 's');
            assert(container_ext() != subtitle_ext());
            assert(fs.take(i + 1).drop_last() =~= fs.take(i as int));
            assert(fs.take(i + 1).last() == fs[i as int]);
        }
        i += 1;
    }
    proof {
        assert(fs.take(n as int) =~= fs);
    }
    Pairing { containers, subtitles }
}

} // verus!
