use vstd::prelude::*;
use crate::error::FsError;
use crate::fs_types::{
    cache_after_insert, law_cache_insert_idempotent, law_cache_insert_records, metadata_of, node_metadata, DirEntry, Metadata, NegativeLookupCache,
    OpenOptionsConfig,
};
use crate::index::{
    entry_paths, index_shape, is_child, segments_prefix, ArchiveIndex, NodeKind,
};
use crate::order::seq_lt;
use crate::path::{
    law_normalize_render_roundtrip, normalize_path, normalized_segments, parent_segments, render,
    render_path, seg_views, spec_normalize, valid_segments,
};

verus! {

/// What a normalized path names in `m`, or `EntryNotFound`.
pub open spec fn spec_lookup_segments(m: Map<Seq<Seq<char>>, NodeKind>, s: Seq<Seq<char>>) -> Result<NodeKind, FsError> {
    if m.contains_key(s) {
        Ok(m[s])
    } else {
        Err(FsError::EntryNotFound)
    }
}

/// What a path names in `m`: its normalized form is looked up; an empty path
/// is invalid input.
pub open spec fn spec_lookup(m: Map<Seq<Seq<char>>, NodeKind>, path: Seq<char>) -> Result<NodeKind, FsError> {
    match spec_normalize(path, false, false) {
        Ok(s) => spec_lookup_segments(m, s),
        Err(e) => Err(e),
    }
}

/// The metadata of what a path names.
pub open spec fn spec_metadata(m: Map<Seq<Seq<char>>, NodeKind>, path: Seq<char>) -> Result<Metadata, FsError> {
    match spec_lookup(m, path) {
        Ok(k) => Ok(node_metadata(k)),
        Err(e) => Err(e),
    }
}

/// The error answered when asked to create directory `path`: an archive is
/// read-only, so the answer is always an error, chosen by what exists.
pub open spec fn spec_create_dir(m: Map<Seq<Seq<char>>, NodeKind>, path: Seq<char>) -> FsError {
    if spec_metadata(m, path) is Ok {
        FsError::AlreadyExists
    } else {
        match spec_normalize(path, false, false) {
            Err(e) => e,
            Ok(s) => match spec_lookup_segments(m, parent_segments(s)) {
                Ok(k) => if k == NodeKind::Dir {
                    FsError::PermissionDenied
                } else {
                    FsError::BaseNotDirectory
                },
                Err(e) => e,
            },
        }
    }
}

/// The error answered when asked to remove directory `path`.
pub open spec fn spec_remove_dir(m: Map<Seq<Seq<char>>, NodeKind>, path: Seq<char>) -> FsError {
    match spec_lookup(m, path) {
        Err(e) => e,
        Ok(k) => if k == NodeKind::Dir {
            FsError::PermissionDenied
        } else {
            FsError::BaseNotDirectory
        },
    }
}

/// The error answered when asked to rename `from` to `to`.
pub open spec fn spec_rename(m: Map<Seq<Seq<char>>, NodeKind>, from: Seq<char>, to: Seq<char>) -> FsError {
    match spec_lookup(m, from) {
        Err(e) => e,
        Ok(_) => match spec_normalize(to, false, false) {
            Err(e) => e,
            Ok(t) => match spec_lookup_segments(m, parent_segments(t)) {
                Err(e) => e,
                Ok(k) => if k == NodeKind::Dir {
                    FsError::PermissionDenied
                } else {
                    FsError::BaseNotDirectory
                },
            },
        },
    }
}

/// The error answered when asked to remove file `path`.
pub open spec fn spec_remove_file(m: Map<Seq<Seq<char>>, NodeKind>, path: Seq<char>) -> FsError {
    match spec_lookup(m, path) {
        Err(e) => e,
        Ok(k) => if k is File {
            FsError::PermissionDenied
        } else {
            FsError::NotAFile
        },
    }
}

/// The file that opening `path` with `conf` reaches, or the error answered.
pub open spec fn spec_open(m: Map<Seq<Seq<char>>, NodeKind>, path: Seq<char>, conf: OpenOptionsConfig) -> Result<
    NodeKind,
    FsError,
> {
    match spec_normalize(path, false, false) {
        Err(e) => Err(e),
        Ok(s) => match spec_lookup_segments(m, parent_segments(s)) {
            Err(e) => Err(e),
            Ok(pk) => if pk != NodeKind::Dir {
                Err(FsError::BaseNotDirectory)
            } else if conf.spec_mutates() {
                Err(FsError::PermissionDenied)
            } else if !m.contains_key(s) {
                Err(FsError::EntryNotFound)
            } else if m[s] == NodeKind::Dir {
                Err(FsError::NotAFile)
            } else {
                Ok(m[s])
            },
        },
    }
}

/// The paths cached as missing after looking the normalized path `s` up: a
/// path that is neither in the index nor cached yet is recorded.
pub open spec fn cached_after_segments(
    m: Map<Seq<Seq<char>>, NodeKind>,
    cached: Seq<Seq<Seq<char>>>,
    max: nat,
    s: Seq<Seq<char>>,
) -> Seq<Seq<Seq<char>>> {
    if cached.contains(s) || m.contains_key(s) {
        cached
    } else {
        cache_after_insert(cached, max, s)
    }
}

/// The paths cached as missing after looking `path` up.
pub open spec fn cached_after_lookup(
    m: Map<Seq<Seq<char>>, NodeKind>,
    cached: Seq<Seq<Seq<char>>>,
    max: nat,
    path: Seq<char>,
) -> Seq<Seq<Seq<char>>> {
    match spec_normalize(path, false, false) {
        Err(_) => cached,
        Ok(s) => cached_after_segments(m, cached, max, s),
    }
}

/// The paths cached as missing after being asked to create directory
/// `path`: the path is looked up and, when missing, its parent.
pub open spec fn cached_after_create_dir(
    m: Map<Seq<Seq<char>>, NodeKind>,
    cached: Seq<Seq<Seq<char>>>,
    max: nat,
    path: Seq<char>,
) -> Seq<Seq<Seq<char>>> {
    let c1 = cached_after_lookup(m, cached, max, path);
    if spec_metadata(m, path) is Ok {
        c1
    } else {
        match spec_normalize(path, false, false) {
            Err(_) => c1,
            Ok(s) => cached_after_segments(m, c1, max, parent_segments(s)),
        }
    }
}

/// The paths cached as missing after being asked to rename `from` to `to`:
/// `from` is looked up and, when present, the parent of `to`.
pub open spec fn cached_after_rename(
    m: Map<Seq<Seq<char>>, NodeKind>,
    cached: Seq<Seq<Seq<char>>>,
    max: nat,
    from: Seq<char>,
    to: Seq<char>,
) -> Seq<Seq<Seq<char>>> {
    let c1 = cached_after_lookup(m, cached, max, from);
    if spec_lookup(m, from) is Err {
        c1
    } else {
        match spec_normalize(to, false, false) {
            Err(_) => c1,
            Ok(t) => cached_after_segments(m, c1, max, parent_segments(t)),
        }
    }
}

/// The paths cached as missing after opening `path` with `conf`: a missing
/// parent is recorded; with the parent a directory and `conf` not asking to
/// change anything, a missing file is recorded.
pub open spec fn cached_after_open(
    m: Map<Seq<Seq<char>>, NodeKind>,
    cached: Seq<Seq<Seq<char>>>,
    max: nat,
    path: Seq<char>,
    conf: OpenOptionsConfig,
) -> Seq<Seq<Seq<char>>> {
    match spec_normalize(path, false, false) {
        Err(_) => cached,
        Ok(s) => {
            let p = parent_segments(s);
            if !m.contains_key(p) {
                if cached.contains(p) {
                    cached
                } else {
                    cache_after_insert(cached, max, p)
                }
            } else if m[p] == NodeKind::Dir && !conf.spec_mutates() && !m.contains_key(s) {
                cache_after_insert(cached, max, s)
            } else {
                cached
            }
        },
    }
}

/// The error answered when asked to list `path`, if listing it fails.
pub open spec fn spec_read_dir_error(m: Map<Seq<Seq<char>>, NodeKind>, path: Seq<char>) -> Option<FsError> {
    match spec_lookup(m, path) {
        Err(e) => Some(e),
        Ok(k) => if k == NodeKind::Dir {
            None
        } else {
            Some(FsError::BaseNotDirectory)
        },
    }
}

/// The normalized path of a listed entry.
pub open spec fn listed_path(e: DirEntry) -> Seq<Seq<char>> {
    normalized_segments(e.path@, false)
}

/// A listing of directory `d` of `m`: each child once, sorted by name, each
/// with its rendered path and its metadata.
pub open spec fn is_listing(m: Map<Seq<Seq<char>>, NodeKind>, d: Seq<Seq<char>>, v: Seq<DirEntry>) -> bool {
    &&& forall|i: int| 0 <= i < v.len() ==> {
        let q = #[trigger] listed_path(v[i]);
        &&& is_child(m, d, q)
        &&& v[i].path@ == render_path(q)
        &&& v[i].metadata == Ok::<Metadata, FsError>(node_metadata(m[q]))
    }
    &&& forall|i: int, j: int| 0 <= i < j < v.len() ==> seq_lt(#[trigger] listed_path(v[i]).last(), #[trigger] listed_path(v[j]).last())
    &&& forall|q: Seq<Seq<char>>| #[trigger] is_child(m, d, q) ==> exists|i: int| 0 <= i < v.len() && listed_path(v[i]) == q
}

/// A cached path is never in the index.
pub open spec fn cache_disjoint(m: Map<Seq<Seq<char>>, NodeKind>, cached: Seq<Seq<Seq<char>>>) -> bool {
    forall|i: int| 0 <= i < cached.len() ==> !m.contains_key(#[trigger] cached[i])
}

/// Every path the cache holds after recording `p` was held before or is `p`.
pub proof fn lemma_cache_insert_from(order: Seq<Seq<Seq<char>>>, max: nat, p: Seq<Seq<char>>)
    ensures
        forall|i: int| 0 <= i < cache_after_insert(order, max, p).len() ==> (order.contains(
            #[trigger] cache_after_insert(order, max, p)[i],
        ) || cache_after_insert(order, max, p)[i] == p),
{
    let s = if order.contains(p) { order } else { order.push(p) };
    assert forall|i: int| 0 <= i < cache_after_insert(order, max, p).len() implies (order.contains(
        #[trigger] cache_after_insert(order, max, p)[i],
    ) || cache_after_insert(order, max, p)[i] == p) by {
        let x = cache_after_insert(order, max, p)[i];
        let k = if s.len() > max { i + (s.len() - max) } else { i };
        assert(x == s[k]);
        if !order.contains(p) && k < order.len() {
            assert(s[k] == order[k]);
        } else if order.contains(p) {
            assert(s[k] == order[k]);
        }
    }
}

/// The directory tree of an archive, with a bounded cache of missing paths
/// that spares repeated searches.
pub struct ArchiveTree {
    index: ArchiveIndex,
    negative: NegativeLookupCache,
}

impl ArchiveTree {
    /// What each path names.
    pub closed spec fn model(&self) -> Map<Seq<Seq<char>>, NodeKind> {
        self.index.model()
    }

    /// The paths cached as missing, oldest first.
    pub closed spec fn cached(&self) -> Seq<Seq<Seq<char>>> {
        self.negative.entries()
    }

    /// The most paths cached as missing.
    pub closed spec fn cache_max(&self) -> nat {
        self.negative.max()
    }

    /// Well formed: a well-formed index, and a cache holding only missing
    /// paths.
    pub closed spec fn wf(&self) -> bool {
        &&& self.index.wf()
        &&& self.negative.wf()
        &&& cache_disjoint(self.model(), self.cached())
    }

    /// The shape of every tree: the root is a directory, every path is made
    /// of valid segments and every path's parent is a directory; and the cache
    /// of missing paths keeps to its bound.
    pub proof fn law_tree_shape(&self)
        requires
            self.wf(),
        ensures
            index_shape(self.model()),
            self.cached().len() <= self.cache_max(),
    {
        self.index.lemma_wf_shape();
        self.negative.lemma_wf_bound();
    }

    /// A tree holding only the root, caching up to `max_cached` missing paths.
    pub fn new(max_cached: usize) -> (r: Self)
        ensures
            r.wf(),
            r.model() == Map::<Seq<Seq<char>>, NodeKind>::empty().insert(Seq::empty(), NodeKind::Dir),
            r.cached() == Seq::<Seq<Seq<char>>>::empty(),
            r.cache_max() == max_cached,
    {
        ArchiveTree { index: ArchiveIndex::new(), negative: NegativeLookupCache::new(max_cached) }
    }

    /// The number of paths cached as missing.
    pub fn cached_len(&self) -> (r: usize)
        ensures
            r == self.cached().len(),
    {
        self.negative.len()
    }

    /// Makes sure a normalized path and its ancestors are directories (see
    /// `ArchiveIndex::ensure_dir`). The cache of missing paths is emptied.
    pub fn ensure_dir(&mut self, segs: &Vec<String>) -> (r: Result<(), FsError>)
        requires
            old(self).wf(),
            valid_segments(seg_views(segs@)),
        ensures
            final(self).wf(),
            final(self).cached() == Seq::<Seq<Seq<char>>>::empty(),
            final(self).cache_max() == old(self).cache_max(),
            match r {
                Ok(()) => !crate::index::file_on_path(old(self).model(), seg_views(segs@))
                    && final(self).model() == crate::index::with_dirs(old(self).model(), seg_views(segs@)),
                Err(e) => e == FsError::InvalidData && crate::index::file_on_path(old(self).model(), seg_views(segs@))
                    && final(self).model() == old(self).model(),
            },
    {
        let max = self.negative.max_len();
        self.negative = NegativeLookupCache::new(max);
        self.index.ensure_dir(segs)
    }

    /// Adds a file under a normalized path (see `ArchiveIndex::add_file`). The
    /// cache of missing paths is emptied.
    pub fn add_file(&mut self, segs: &Vec<String>, slot: usize, len: u64) -> (r: Result<(), FsError>)
        requires
            old(self).wf(),
            valid_segments(seg_views(segs@)),
        ensures
            final(self).wf(),
            final(self).cached() == Seq::<Seq<Seq<char>>>::empty(),
            final(self).cache_max() == old(self).cache_max(),
            ({
                let s = seg_views(segs@);
                let m = old(self).model();
                let m1 = crate::index::with_dirs(m, s.drop_last());
                if s.len() == 0 || crate::index::file_on_path(m, s.drop_last()) {
                    r == Err::<(), FsError>(FsError::InvalidData) && final(self).model() == m
                } else if m1.contains_key(s) && m1[s] == NodeKind::Dir {
                    r == Err::<(), FsError>(FsError::InvalidData) && final(self).model() == m1
                } else {
                    r == Ok::<(), FsError>(()) && final(self).model() == m1.insert(
                        s,
                        NodeKind::File { slot, len },
                    )
                }
            }),
    {
        let max = self.negative.max_len();
        self.negative = NegativeLookupCache::new(max);
        self.index.add_file(segs, slot, len)
    }

    /// Looks up a normalized path, answering from the cache of missing paths
    /// when it can and recording the path there when it is missing.
    pub fn node_for_segments(&mut self, segs: Vec<String>) -> (r: Result<NodeKind, FsError>)
        requires
            old(self).wf(),
        ensures
            final(self).wf(),
            final(self).model() == old(self).model(),
            final(self).cache_max() == old(self).cache_max(),
            r == spec_lookup_segments(old(self).model(), seg_views(segs@)),
            final(self).cached() == if old(self).cached().contains(seg_views(segs@)) || old(
                self,
            ).model().contains_key(seg_views(segs@)) {
                old(self).cached()
            } else {
                cache_after_insert(old(self).cached(), old(self).cache_max(), seg_views(segs@))
            },
    {
        let ghost p = seg_views(segs@);
        if self.negative.contains(&segs) {
            proof {
                let i = choose|i: int| 0 <= i < self.cached().len() && self.cached()[i] == p;
                assert(!self.model().contains_key(self.cached()[i]));
            }
            return Err(FsError::EntryNotFound);
        }
        match self.index.get(&segs) {
            Some(k) => Ok(k),
            None => {
                let ghost before = self.cached();
                self.negative.insert(segs);
                proof {
                    lemma_cache_insert_from(before, self.cache_max(), p);
                    assert forall|i: int| 0 <= i < self.cached().len() implies !self.model().contains_key(#[trigger] self.cached()[i]) by {
                        if before.contains(self.cached()[i]) {
                            let j = choose|j: int| 0 <= j < before.len() && before[j] == self.cached()[i];
                            assert(!self.model().contains_key(before[j]));
                        }
                    }
                }
                Err(FsError::EntryNotFound)
            },
        }
    }

    /// Looks up a path after normalizing it.
    pub fn node_for_path(&mut self, path: &str) -> (r: Result<(Vec<String>, NodeKind), FsError>)
        requires
            old(self).wf(),
        ensures
            final(self).wf(),
            final(self).model() == old(self).model(),
            final(self).cache_max() == old(self).cache_max(),
            final(self).cached() == cached_after_lookup(old(self).model(), old(self).cached(), old(self).cache_max(), path@),
            match r {
                Ok((s, k)) => spec_normalize(path@, false, false) == Ok::<Seq<Seq<char>>, FsError>(seg_views(s@))
                    && spec_lookup(old(self).model(), path@) == Ok::<NodeKind, FsError>(k)
                    && valid_segments(seg_views(s@)),
                Err(e) => spec_lookup(old(self).model(), path@) == Err::<NodeKind, FsError>(e),
            },
    {
        let segs = normalize_path(path, false, false)?;
        let copy = segments_prefix(&segs, segs.len());
        proof {
            assert(seg_views(segs@).take(segs@.len() as int) =~= seg_views(segs@));
        }
        let k = self.node_for_segments(copy)?;
        Ok((segs, k))
    }

    /// The metadata of what a path names.
    pub fn metadata(&mut self, path: &str) -> (r: Result<Metadata, FsError>)
        requires
            old(self).wf(),
        ensures
            final(self).wf(),
            final(self).model() == old(self).model(),
            final(self).cache_max() == old(self).cache_max(),
            final(self).cached() == cached_after_lookup(old(self).model(), old(self).cached(), old(self).cache_max(), path@),
            r == spec_metadata(old(self).model(), path@),
    {
        let (_, k) = self.node_for_path(path)?;
        Ok(metadata_of(k))
    }

    /// The metadata of what a path names; archives hold no symbolic links.
    pub fn symlink_metadata(&mut self, path: &str) -> (r: Result<Metadata, FsError>)
        requires
            old(self).wf(),
        ensures
            final(self).wf(),
            final(self).model() == old(self).model(),
            final(self).cache_max() == old(self).cache_max(),
            final(self).cached() == cached_after_lookup(old(self).model(), old(self).cached(), old(self).cache_max(), path@),
            r == spec_metadata(old(self).model(), path@),
    {
        self.metadata(path)
    }

    /// Lists a directory: its children sorted by name, each with its metadata.
    pub fn read_dir(&mut self, path: &str) -> (r: Result<Vec<DirEntry>, FsError>)
        requires
            old(self).wf(),
        ensures
            final(self).wf(),
            final(self).model() == old(self).model(),
            final(self).cache_max() == old(self).cache_max(),
            final(self).cached() == cached_after_lookup(old(self).model(), old(self).cached(), old(self).cache_max(), path@),
            match r {
                Ok(v) => spec_read_dir_error(old(self).model(), path@) is None && ({
                    let d = spec_normalize(path@, false, false)->Ok_0;
                    is_listing(old(self).model(), d, v@)
                }),
                Err(e) => spec_read_dir_error(old(self).model(), path@) == Some(e),
            },
    {
        let (segs, k) = self.node_for_path(path)?;
        if k != NodeKind::Dir {
            return Err(FsError::BaseNotDirectory);
        }
        let children = self.index.children(&segs);
        proof {
            self.index.lemma_wf_shape();
        }
        let ghost m = self.model();
        let ghost d = seg_views(segs@);
        let mut out: Vec<DirEntry> = Vec::new();
        let mut i: usize = 0;
        while i < children.len()
            invariant
                self.wf(),
                m == self.model(),
                d == seg_views(segs@),
                i <= children@.len(),
                out@.len() == i,
                index_shape(m),
                forall|j: int| 0 <= j < children@.len() ==> #[trigger] is_child(m, d, entry_paths(children@)[j])
                    && m[entry_paths(children@)[j]] == children@[j].kind,
                forall|j: int| 0 <= j < i ==> #[trigger] listed_path(out@[j]) == entry_paths(children@)[j]
                    && out@[j].path@ == render_path(entry_paths(children@)[j])
                    && out@[j].metadata == Ok::<Metadata, FsError>(node_metadata(children@[j].kind)),
            decreases children@.len() - i,
        {
            let c = &children[i];
            let p = render(&c.segments);
            proof {
                let q = entry_paths(children@)[i as int];
                assert(is_child(m, d, q));
                assert(valid_segments(q));
                law_normalize_render_roundtrip(q);
            }
            out.push(DirEntry { path: p, metadata: Ok(metadata_of(c.kind)) });
            i = i + 1;
        }
        proof {
            let v = out@;
            assert forall|a: int, b: int| 0 <= a < b < v.len() implies seq_lt(#[trigger] listed_path(v[a]).last(), #[trigger] listed_path(v[b]).last()) by {
                assert(listed_path(v[a]) == entry_paths(children@)[a]);
                assert(listed_path(v[b]) == entry_paths(children@)[b]);
            }
            assert forall|q: Seq<Seq<char>>| #[trigger] is_child(m, d, q) implies exists|j: int| 0 <= j < v.len() && listed_path(v[j]) == q by {
                assert(entry_paths(children@).contains(q));
                let j = choose|j: int| 0 <= j < entry_paths(children@).len() && entry_paths(children@)[j] == q;
                assert(listed_path(v[j]) == q);
            }
        }
        Ok(out)
    }

    /// Archives are read-only: creating a directory always fails.
    pub fn create_dir(&mut self, path: &str) -> (r: Result<(), FsError>)
        requires
            old(self).wf(),
        ensures
            final(self).wf(),
            final(self).model() == old(self).model(),
            final(self).cache_max() == old(self).cache_max(),
            final(self).cached() == cached_after_create_dir(old(self).model(), old(self).cached(), old(self).cache_max(), path@),
            r == Err::<(), FsError>(spec_create_dir(old(self).model(), path@)),
    {
        if self.metadata(path).is_ok() {
            return Err(FsError::AlreadyExists);
        }
        let segs = normalize_path(path, false, false)?;
        let parent = segments_prefix(&segs, if segs.len() == 0 { 0 } else { segs.len() - 1 });
        proof {
            if segs@.len() > 0 {
                assert(seg_views(segs@).take(segs@.len() - 1) =~= seg_views(segs@).drop_last());
            } else {
                assert(seg_views(segs@).take(0) =~= seg_views(segs@));
            }
        }
        match self.node_for_segments(parent) {
            Ok(k) => if k == NodeKind::Dir {
                Err(FsError::PermissionDenied)
            } else {
                Err(FsError::BaseNotDirectory)
            },
            Err(e) => Err(e),
        }
    }

    /// Archives are read-only: removing a directory always fails.
    pub fn remove_dir(&mut self, path: &str) -> (r: Result<(), FsError>)
        requires
            old(self).wf(),
        ensures
            final(self).wf(),
            final(self).model() == old(self).model(),
            final(self).cache_max() == old(self).cache_max(),
            final(self).cached() == cached_after_lookup(old(self).model(), old(self).cached(), old(self).cache_max(), path@),
            r == Err::<(), FsError>(spec_remove_dir(old(self).model(), path@)),
    {
        let meta = self.metadata(path)?;
        if !meta.is_dir() {
            return Err(FsError::BaseNotDirectory);
        }
        Err(FsError::PermissionDenied)
    }

    /// Archives are read-only: renaming always fails.
    pub fn rename(&mut self, from: &str, to: &str) -> (r: Result<(), FsError>)
        requires
            old(self).wf(),
        ensures
            final(self).wf(),
            final(self).model() == old(self).model(),
            final(self).cache_max() == old(self).cache_max(),
            final(self).cached() == cached_after_rename(old(self).model(), old(self).cached(), old(self).cache_max(), from@, to@),
            r == Err::<(), FsError>(spec_rename(old(self).model(), from@, to@)),
    {
        let _ = self.metadata(from)?;
        let segs = normalize_path(to, false, false)?;
        let parent = segments_prefix(&segs, if segs.len() == 0 { 0 } else { segs.len() - 1 });
        proof {
            if segs@.len() > 0 {
                assert(seg_views(segs@).take(segs@.len() - 1) =~= seg_views(segs@).drop_last());
            } else {
                assert(seg_views(segs@).take(0) =~= seg_views(segs@));
            }
        }
        let k = self.node_for_segments(parent)?;
        if k != NodeKind::Dir {
            return Err(FsError::BaseNotDirectory);
        }
        Err(FsError::PermissionDenied)
    }

    /// Archives are read-only: removing a file always fails.
    pub fn remove_file(&mut self, path: &str) -> (r: Result<(), FsError>)
        requires
            old(self).wf(),
        ensures
            final(self).wf(),
            final(self).model() == old(self).model(),
            final(self).cache_max() == old(self).cache_max(),
            final(self).cached() == cached_after_lookup(old(self).model(), old(self).cached(), old(self).cache_max(), path@),
            r == Err::<(), FsError>(spec_remove_file(old(self).model(), path@)),
    {
        let meta = self.metadata(path)?;
        if !meta.is_file() {
            return Err(FsError::NotAFile);
        }
        Err(FsError::PermissionDenied)
    }

    /// Finds the file that opening `path` with `conf` reaches. Opening for
    /// creating, appending or truncating is refused.
    pub fn open_node(&mut self, path: &str, conf: &OpenOptionsConfig) -> (r: Result<NodeKind, FsError>)
        requires
            old(self).wf(),
        ensures
            final(self).wf(),
            final(self).model() == old(self).model(),
            final(self).cache_max() == old(self).cache_max(),
            r == spec_open(old(self).model(), path@, *conf),
            final(self).cached() == cached_after_open(
                old(self).model(),
                old(self).cached(),
                old(self).cache_max(),
                path@,
                *conf,
            ),
    {
        let segs = normalize_path(path, false, false)?;
        let parent = segments_prefix(&segs, if segs.len() == 0 { 0 } else { segs.len() - 1 });
        proof {
            if segs@.len() > 0 {
                assert(seg_views(segs@).take(segs@.len() - 1) =~= seg_views(segs@).drop_last());
            } else {
                assert(seg_views(segs@).take(0) =~= seg_views(segs@));
            }
        }
        let pk = self.node_for_segments(parent)?;
        if pk != NodeKind::Dir {
            return Err(FsError::BaseNotDirectory);
        }
        if conf.create() || conf.create_new() || conf.append() || conf.truncate() {
            return Err(FsError::PermissionDenied);
        }
        match self.index.get(&segs) {
            Some(NodeKind::Dir) => Err(FsError::NotAFile),
            Some(k) => Ok(k),
            None => {
                let ghost before = self.cached();
                let ghost p = seg_views(segs@);
                self.negative.insert(segs);
                proof {
                    lemma_cache_insert_from(before, self.cache_max(), p);
                    assert forall|i: int| 0 <= i < self.cached().len() implies !self.model().contains_key(#[trigger] self.cached()[i]) by {
                        if before.contains(self.cached()[i]) {
                            let j = choose|j: int| 0 <= j < before.len() && before[j] == self.cached()[i];
                            assert(!self.model().contains_key(before[j]));
                        }
                    }
                }
                Err(FsError::EntryNotFound)
            },
        }
    }
}

/// Opening a path twice leaves the cache of missing paths as opening it once
/// does, and after opening a missing file (its parent a directory, nothing
/// asked to change) the file is cached as missing.
pub proof fn law_open_caches_missing_once(
    m: Map<Seq<Seq<char>>, NodeKind>,
    cached: Seq<Seq<Seq<char>>>,
    max: nat,
    path: Seq<char>,
    conf: OpenOptionsConfig,
)
    requires
        max > 0,
        cached.len() <= max,
    ensures
        cached_after_open(m, cached_after_open(m, cached, max, path, conf), max, path, conf)
            == cached_after_open(m, cached, max, path, conf),
        spec_open(m, path, conf) == Err::<NodeKind, FsError>(FsError::EntryNotFound) && m.contains_key(
            parent_segments(spec_normalize(path, false, false)->Ok_0),
        ) ==> cached_after_open(m, cached, max, path, conf).contains(spec_normalize(path, false, false)->Ok_0),
{
    match spec_normalize(path, false, false) {
        Err(_) => {},
        Ok(s) => {
            let p = parent_segments(s);
            if !m.contains_key(p) {
                if !cached.contains(p) {
                    law_cache_insert_records(cached, max, p);
                }
            } else if m[p] == NodeKind::Dir && !conf.spec_mutates() && !m.contains_key(s) {
                law_cache_insert_idempotent(cached, max, s);
                law_cache_insert_records(cached, max, s);
            }
        },
    }
}

} // verus!
