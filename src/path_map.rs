//! Root-relative path maps: for one traversal root, each regular file's path
//! relative to the root, with the digest of its content.
use vstd::prelude::*;
use crate::EngineError;
use crate::text::strings_view;

verus! {

/// One entry of a path map, as plain values: (relative path, digest text).
pub type EntryView = (Seq<char>, Seq<char>);

/// No two entries share a path.
pub open spec fn keys_distinct(m: Seq<EntryView>) -> bool {
    forall|i: int, j: int| 0 <= i < j < m.len() ==> m[i].0 != m[j].0
}

pub open spec fn has_key(m: Seq<EntryView>, k: Seq<char>) -> bool {
    exists|i: int| 0 <= i < m.len() && m[i].0 == k
}

pub open spec fn key_index(m: Seq<EntryView>, k: Seq<char>) -> int {
    choose|i: int| 0 <= i < m.len() && m[i].0 == k
}

/// The digest recorded for `k`, if any.
pub open spec fn lookup(m: Seq<EntryView>, k: Seq<char>) -> Option<Seq<char>> {
    if has_key(m, k) {
        Some(m[key_index(m, k)].1)
    } else {
        None
    }
}

/// Records `d` under `k`: replaces the digest in place when `k` is known,
/// appends a new entry otherwise.
pub open spec fn put(m: Seq<EntryView>, k: Seq<char>, d: Seq<char>) -> Seq<EntryView> {
    if has_key(m, k) {
        m.update(key_index(m, k), (k, d))
    } else {
        m.push((k, d))
    }
}

/// With distinct keys, the entry at `i` is the one that `lookup` finds.
pub proof fn lemma_lookup_at(m: Seq<EntryView>, i: int)
    requires
        keys_distinct(m),
        0 <= i < m.len(),
    ensures
        has_key(m, m[i].0),
        key_index(m, m[i].0) == i,
        lookup(m, m[i].0) == Some(m[i].1),
{
    assert(has_key(m, m[i].0));
    let j = key_index(m, m[i].0);
    if j < i {
        assert(m[j].0 != m[i].0);
    } else if i < j {
        assert(m[i].0 != m[j].0);
    }
}

/// Putting keeps the keys distinct.
pub proof fn lemma_put_distinct(m: Seq<EntryView>, k: Seq<char>, d: Seq<char>)
    requires
        keys_distinct(m),
    ensures
        keys_distinct(put(m, k, d)),
        put(m, k, d).len() == m.len() + if has_key(m, k) { 0int } else { 1int },
        forall|k2: Seq<char>| #[trigger] has_key(put(m, k, d), k2) <==> (has_key(m, k2) || k2 == k),
{
    let r = put(m, k, d);
    if has_key(m, k) {
        let x = key_index(m, k);
        assert forall|k2: Seq<char>| #[trigger] has_key(r, k2) <==> (has_key(m, k2) || k2 == k) by {
            if has_key(m, k2) {
                let i = choose|i: int| 0 <= i < m.len() && m[i].0 == k2;
                assert(r[i].0 == k2);
            }
            if has_key(r, k2) {
                let i = choose|i: int| 0 <= i < r.len() && r[i].0 == k2;
                assert(m[i].0 == k2);
            }
        }
    } else {
        assert forall|k2: Seq<char>| #[trigger] has_key(r, k2) <==> (has_key(m, k2) || k2 == k) by {
            if has_key(m, k2) {
                let i = choose|i: int| 0 <= i < m.len() && m[i].0 == k2;
                assert(r[i].0 == k2);
            }
            if k2 == k {
                assert(r[m.len() as int].0 == k2);
            }
            if has_key(r, k2) && k2 != k {
                let i = choose|i: int| 0 <= i < r.len() && r[i].0 == k2;
                assert(m[i].0 == k2);
            }
        }
    }
}

/// Relative path of `path` under `base`, as `pathdiff` computes it.
pub uninterp spec fn relative_path_of(path: Seq<char>, base: Seq<char>) -> Option<Seq<char>>;

/// Relies on `pathdiff::diff_paths`: the path of `path` relative to `base`,
/// or none where the two cannot be related.
#[verifier::external_body]
fn relative_path(path: &String, base: &String) -> (r: Option<String>)
    ensures
        match r {
            Some(s) => relative_path_of(path@, base@) == Some(s@),
            None => relative_path_of(path@, base@) is None,
        },
{
    match pathdiff::diff_paths(std::path::Path::new(path), std::path::Path::new(base)) {
        Some(p) => match p.to_str() {
            Some(s) => Some(s.to_string()),
            None => None,
        },
        None => None,
    }
}

/// Mapping from root-relative path to digest, in order of first insertion.
pub struct PathMap {
    paths: Vec<String>,
    digests: Vec<String>,
}

impl View for PathMap {
    type V = Seq<EntryView>;

    closed spec fn view(&self) -> Seq<EntryView> {
        Seq::new(self.paths@.len(), |i: int| (self.paths@[i]@, self.digests@[i]@))
    }
}

impl PathMap {
    pub closed spec fn wf(&self) -> bool {
        &&& self.paths@.len() == self.digests@.len()
        &&& keys_distinct(self@)
    }

    pub fn new() -> (r: PathMap)
        ensures
            r.wf(),
            r@ == Seq::<EntryView>::empty(),
    {
        let r = PathMap { paths: Vec::new(), digests: Vec::new() };
        assert(r@ =~= Seq::<EntryView>::empty());
        r
    }

    pub fn len(&self) -> (r: usize)
        requires
            self.wf(),
        ensures
            r == self@.len(),
    {
        self.paths.len()
    }

    /// The path of the entry at `i`.
    pub fn path_at(&self, i: usize) -> (r: &String)
        requires
            self.wf(),
            i < self@.len(),
        ensures
            r@ == self@[i as int].0,
    {
        &self.paths[i]
    }

    /// The digest of the entry at `i`.
    pub fn digest_at(&self, i: usize) -> (r: &String)
        requires
            self.wf(),
            i < self@.len(),
        ensures
            r@ == self@[i as int].1,
    {
        &self.digests[i]
    }

    fn find(&self, key: &String) -> (r: Option<usize>)
        requires
            self.wf(),
        ensures
            match r {
                Some(i) => i < self@.len() && self@[i as int].0 == key@,
                None => !has_key(self@, key@),
            },
    {
        let mut i: usize = 0;
        while i < self.paths.len()
            invariant
                self.wf(),
                i <= self@.len(),
                forall|j: int| 0 <= j < i ==> self@[j].0 != key@,
            decreases self.paths.len() - i,
        {
            if self.paths[i] == *key {
                return Some(i);
            }
            i = i + 1;
        }
        None
    }

    /// The digest recorded for `key`, if any.
    pub fn get(&self, key: &String) -> (r: Option<&String>)
        requires
            self.wf(),
        ensures
            match r {
                Some(d) => lookup(self@, key@) == Some(d@),
                None => lookup(self@, key@) is None,
            },
    {
        match self.find(key) {
            Some(i) => {
                proof { lemma_lookup_at(self@, i as int); }
                Some(&self.digests[i])
            },
            None => None,
        }
    }

    /// Records `digest` under `path`, replacing an earlier digest for it.
    pub fn insert(&mut self, path: String, digest: String)
        requires
            old(self).wf(),
        ensures
            final(self).wf(),
            final(self)@ == put(old(self)@, path@, digest@),
    {
        proof { lemma_put_distinct(self@, path@, digest@); }
        match self.find(&path) {
            Some(i) => {
                proof { lemma_lookup_at(self@, i as int); }
                let ghost before = self@;
                self.digests.set(i, digest);
                assert(self@ =~= before.update(i as int, (path@, digest@)));
            },
            None => {
                let ghost before = self@;
                let ghost (kp, kd) = (path@, digest@);
                self.paths.push(path);
                self.digests.push(digest);
                assert(self@ =~= before.push((kp, kd)));
            },
        }
    }
}

/// A visited file and the digest text of its content (or the marker of an
/// unreadable file).
pub struct HashedFile {
    pub path: String,
    pub digest: String,
}

pub open spec fn hashed_view(files: Seq<HashedFile>) -> Seq<EntryView> {
    Seq::new(files.len(), |i: int| (files[i].path@, files[i].digest@))
}

/// The path map of `root` from its visited files, in visiting order; none
/// where a file's path cannot be made relative to the root.
pub open spec fn built(root: Seq<char>, files: Seq<EntryView>) -> Option<Seq<EntryView>>
    decreases files.len(),
{
    if files.len() == 0 {
        Some(Seq::empty())
    } else {
        match built(root, files.drop_last()) {
            None => None,
            Some(m) => match relative_path_of(files.last().0, root) {
                None => None,
                Some(rel) => Some(put(m, rel, files.last().1)),
            },
        }
    }
}

/// Builds the path map of `root` from the files a traversal of it visited.
pub fn build_path_map(root: &String, files: &Vec<HashedFile>) -> (r: Option<PathMap>)
    ensures
        match r {
            Some(m) => m.wf() && built(root@, hashed_view(files@)) == Some(m@),
            None => built(root@, hashed_view(files@)) is None,
        },
{
    let mut m = PathMap::new();
    let mut i: usize = 0;
    while i < files.len()
        invariant
            i <= files@.len(),
            m.wf(),
            built(root@, hashed_view(files@).take(i as int)) == Some(m@),
        decreases files.len() - i,
    {
        let ghost hv = hashed_view(files@);
        assert(hv.take(i + 1).drop_last() =~= hv.take(i as int));
        match relative_path(&files[i].path, root) {
            Some(rel) => {
                m.insert(rel, files[i].digest.clone());
            },
            None => {
                proof { lemma_built_none_extends(root@, hv, i as int + 1); }
                return None;
            },
        }
        i = i + 1;
    }
    assert(hashed_view(files@).take(files@.len() as int) =~= hashed_view(files@));
    Some(m)
}

/// Once a prefix fails to build, every longer prefix fails too.
proof fn lemma_built_none_extends(root: Seq<char>, files: Seq<EntryView>, n: int)
    requires
        0 <= n <= files.len(),
        built(root, files.take(n)) is None,
    ensures
        built(root, files) is None,
    decreases files.len() - n,
{
    if n < files.len() {
        assert(files.take(n + 1).drop_last() =~= files.take(n));
        lemma_built_none_extends(root, files, n + 1);
    } else {
        assert(files.take(n) =~= files);
    }
}

/// A built path map holds one entry per distinct relative path of the
/// visited files, and nothing else: its keys are exactly those paths, each
/// once, and it has no more entries than files were visited.
pub proof fn built_keys_are_relative_paths(root: Seq<char>, files: Seq<EntryView>)
    requires
        built(root, files) is Some,
    ensures
        keys_distinct(built(root, files)->0),
        built(root, files)->0.len() <= files.len(),
        forall|k: Seq<char>| #[trigger] has_key(built(root, files)->0, k) <==> exists|i: int|
            0 <= i < files.len() && relative_path_of(#[trigger] files[i].0, root) == Some(k),
    decreases files.len(),
{
    if files.len() > 0 {
        let init = files.drop_last();
        built_keys_are_relative_paths(root, init);
        let m = built(root, init)->0;
        let rel = relative_path_of(files.last().0, root)->0;
        lemma_put_distinct(m, rel, files.last().1);
        assert forall|k: Seq<char>| #[trigger] has_key(built(root, files)->0, k) <==> exists|i: int|
            0 <= i < files.len() && relative_path_of(#[trigger] files[i].0, root) == Some(k) by {
            if has_key(m, k) {
                let i = choose|i: int| 0 <= i < init.len() && relative_path_of(#[trigger] init[i].0, root) == Some(k);
                assert(files[i] == init[i]);
            }
            if k == rel {
                assert(files[files.len() - 1] == files.last());
            }
            if exists|i: int| 0 <= i < files.len() && relative_path_of(#[trigger] files[i].0, root) == Some(k) {
                let i = choose|i: int| 0 <= i < files.len() && relative_path_of(#[trigger] files[i].0, root) == Some(k);
                if i < init.len() {
                    assert(init[i] == files[i]);
                }
            }
        }
    }
}

pub open spec fn roots_built(roots: Seq<Seq<char>>, files: Seq<Seq<EntryView>>) -> bool {
    forall|i: int| 0 <= i < roots.len() ==> #[trigger] built(roots[i], files[i]) is Some
}

pub open spec fn files_views(files: Seq<Vec<HashedFile>>) -> Seq<Seq<EntryView>> {
    Seq::new(files.len(), |i: int| hashed_view(files[i]@))
}

/// Builds one path map per root from the files visited under it; fails when
/// some visited file cannot be made relative to its root.
pub fn create_lists(roots: &Vec<String>, files: &Vec<Vec<HashedFile>>) -> (r: Result<Vec<PathMap>, EngineError>)
    requires
        roots@.len() == files@.len(),
    ensures
        roots_built(strings_view(roots@), files_views(files@)) <==> r is Ok,
        r is Err ==> r == Err::<Vec<PathMap>, EngineError>(EngineError::UnrelatedPath),
        r matches Ok(maps) ==> maps@.len() == roots@.len() && forall|i: int| 0 <= i < maps@.len() ==>
            (#[trigger] maps@[i]).wf() && built(roots@[i]@, hashed_view(files@[i]@)) == Some(maps@[i]@),
{
    let ghost rv = strings_view(roots@);
    let ghost fv = files_views(files@);
    let mut maps: Vec<PathMap> = Vec::new();
    let mut i: usize = 0;
    while i < roots.len()
        invariant
            i <= roots@.len(),
            roots@.len() == files@.len(),
            rv == strings_view(roots@),
            fv == files_views(files@),
            maps@.len() == i,
            forall|j: int| 0 <= j < i ==> (#[trigger] maps@[j]).wf() && built(roots@[j]@, hashed_view(files@[j]@))
                == Some(maps@[j]@),
        decreases roots.len() - i,
    {
        match build_path_map(&roots[i], &files[i]) {
            Some(m) => maps.push(m),
            None => {
                assert(built(rv[i as int], fv[i as int]) is None);
                return Err(EngineError::UnrelatedPath);
            },
        }
        i = i + 1;
    }
    assert forall|j: int| 0 <= j < rv.len() implies #[trigger] built(rv[j], fv[j]) is Some by {
        assert(built(roots@[j]@, hashed_view(files@[j]@)) == Some(maps@[j]@));
    }
    Ok(maps)
}

} // verus!
