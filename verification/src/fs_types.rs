use vstd::prelude::*;
use crate::error::FsError;
use crate::index::NodeKind;
use crate::path::seg_views;
use std::collections::VecDeque;

verus! {

/// The type of a file system entry.
#[derive(Clone, Copy, Debug, PartialEq, Eq, Structural)]
pub struct FileType {
    pub dir: bool,
    pub file: bool,
    pub symlink: bool,
    pub char_device: bool,
    pub block_device: bool,
    pub socket: bool,
    pub fifo: bool,
}

impl FileType {
    /// The type of a directory.
    pub fn new_dir() -> (r: Self)
        ensures
            r == dir_file_type(),
    {
        FileType {
            dir: true,
            file: false,
            symlink: false,
            char_device: false,
            block_device: false,
            socket: false,
            fifo: false,
        }
    }

    /// The type of a regular file.
    pub fn new_file() -> (r: Self)
        ensures
            r == file_file_type(),
    {
        FileType {
            dir: false,
            file: true,
            symlink: false,
            char_device: false,
            block_device: false,
            socket: false,
            fifo: false,
        }
    }

    pub fn is_dir(&self) -> (r: bool)
        ensures
            r == self.dir,
    {
        self.dir
    }

    pub fn is_file(&self) -> (r: bool)
        ensures
            r == self.file,
    {
        self.file
    }
}

pub open spec fn dir_file_type() -> FileType {
    FileType {
        dir: true,
        file: false,
        symlink: false,
        char_device: false,
        block_device: false,
        socket: false,
        fifo: false,
    }
}

pub open spec fn file_file_type() -> FileType {
    FileType {
        dir: false,
        file: true,
        symlink: false,
        char_device: false,
        block_device: false,
        socket: false,
        fifo: false,
    }
}

/// Metadata of a file system entry. Archive entries carry no timestamps.
#[derive(Clone, Copy, Debug, PartialEq, Eq, Structural)]
pub struct Metadata {
    pub ft: FileType,
    pub accessed: u64,
    pub created: u64,
    pub modified: u64,
    pub len: u64,
}

impl Metadata {
    pub fn is_dir(&self) -> (r: bool)
        ensures
            r == self.ft.dir,
    {
        self.ft.dir
    }

    pub fn is_file(&self) -> (r: bool)
        ensures
            r == self.ft.file,
    {
        self.ft.file
    }

    pub fn len(&self) -> (r: u64)
        ensures
            r == self.len,
    {
        self.len
    }
}

/// The metadata of a directory.
pub open spec fn spec_dir_metadata() -> Metadata {
    Metadata { ft: dir_file_type(), accessed: 0, created: 0, modified: 0, len: 0 }
}

/// The metadata of a file of `len` bytes.
pub open spec fn spec_file_metadata(len: u64) -> Metadata {
    Metadata { ft: file_file_type(), accessed: 0, created: 0, modified: 0, len }
}

/// The metadata of what an index node names.
pub open spec fn node_metadata(k: NodeKind) -> Metadata {
    match k {
        NodeKind::Dir => spec_dir_metadata(),
        NodeKind::File { len, .. } => spec_file_metadata(len),
    }
}

/// Metadata of a directory.
pub fn dir_metadata() -> (r: Metadata)
    ensures
        r == spec_dir_metadata(),
{
    Metadata { ft: FileType::new_dir(), accessed: 0, created: 0, modified: 0, len: 0 }
}

/// Metadata of a file of `len` bytes.
pub fn file_metadata(len: u64) -> (r: Metadata)
    ensures
        r == spec_file_metadata(len),
{
    Metadata { ft: FileType::new_file(), accessed: 0, created: 0, modified: 0, len }
}

/// Metadata of what an index node names.
pub fn metadata_of(k: NodeKind) -> (r: Metadata)
    ensures
        r == node_metadata(k),
{
    match k {
        NodeKind::Dir => dir_metadata(),
        NodeKind::File { len, .. } => file_metadata(len),
    }
}

/// An entry of a directory listing.
pub struct DirEntry {
    /// The absolute path of the entry.
    pub path: String,
    /// The metadata of the entry.
    pub metadata: Result<Metadata, FsError>,
}

/// How a file is to be opened.
#[derive(Clone, Copy, Debug, PartialEq, Eq, Structural)]
pub struct OpenOptionsConfig {
    pub read: bool,
    pub write: bool,
    pub create_new: bool,
    pub create: bool,
    pub append: bool,
    pub truncate: bool,
}

impl OpenOptionsConfig {
    /// Whether opening would create, append to or truncate the file.
    pub open spec fn spec_mutates(&self) -> bool {
        self.create || self.create_new || self.append || self.truncate
    }

    pub fn read(&self) -> (r: bool)
        ensures
            r == self.read,
    {
        self.read
    }

    pub fn write(&self) -> (r: bool)
        ensures
            r == self.write,
    {
        self.write
    }

    pub fn create_new(&self) -> (r: bool)
        ensures
            r == self.create_new,
    {
        self.create_new
    }

    pub fn create(&self) -> (r: bool)
        ensures
            r == self.create,
    {
        self.create
    }

    pub fn append(&self) -> (r: bool)
        ensures
            r == self.append,
    {
        self.append
    }

    pub fn truncate(&self) -> (r: bool)
        ensures
            r == self.truncate,
    {
        self.truncate
    }
}

/// The paths a bounded cache of missing paths holds after recording `p`: `p`
/// is appended unless present, then the oldest paths are dropped until at most
/// `max` remain.
pub open spec fn cache_after_insert(order: Seq<Seq<Seq<char>>>, max: nat, p: Seq<Seq<char>>) -> Seq<
    Seq<Seq<char>>,
> {
    let s = if order.contains(p) {
        order
    } else {
        order.push(p)
    };
    if s.len() > max {
        s.skip(s.len() - max)
    } else {
        s
    }
}

/// The views of a list of segment lists.
pub open spec fn path_list_view(s: Seq<Vec<String>>) -> Seq<Seq<Seq<char>>> {
    s.map_values(|v: Vec<String>| seg_views(v@))
}

/// A bounded cache of paths known to be missing, forgetting the oldest first.
pub struct NegativeLookupCache {
    max_entries: usize,
    order: VecDeque<Vec<String>>,
}

impl NegativeLookupCache {
    /// The cached paths, oldest first.
    pub closed spec fn entries(&self) -> Seq<Seq<Seq<char>>> {
        path_list_view(self.order@)
    }

    /// The most paths the cache holds.
    pub closed spec fn max(&self) -> nat {
        self.max_entries as nat
    }

    /// No path is cached twice, and the bound is kept.
    pub closed spec fn wf(&self) -> bool {
        &&& self.entries().no_duplicates()
        &&& self.entries().len() <= self.max()
    }

    /// A well-formed cache keeps its bound.
    pub proof fn lemma_wf_bound(&self)
        requires
            self.wf(),
        ensures
            self.entries().len() <= self.max(),
            self.entries().no_duplicates(),
    {
    }

    /// An empty cache holding at most `max_entries` paths.
    pub fn new(max_entries: usize) -> (r: Self)
        ensures
            r.wf(),
            r.entries() == Seq::<Seq<Seq<char>>>::empty(),
            r.max() == max_entries,
    {
        let r = NegativeLookupCache { max_entries, order: VecDeque::new() };
        assert(r.entries() =~= Seq::<Seq<Seq<char>>>::empty());
        r
    }

    /// The most paths the cache holds.
    pub fn max_len(&self) -> (r: usize)
        ensures
            r == self.max(),
    {
        self.max_entries
    }

    /// The number of cached paths.
    pub fn len(&self) -> (r: usize)
        ensures
            r == self.entries().len(),
    {
        self.order.len()
    }

    /// Whether the path is cached.
    pub fn contains(&self, segs: &Vec<String>) -> (r: bool)
        ensures
            r == self.entries().contains(seg_views(segs@)),
    {
        let mut i: usize = 0;
        while i < self.order.len()
            invariant
                i <= self.order@.len(),
                forall|j: int| 0 <= j < i ==> self.entries()[j] != seg_views(segs@),
            decreases self.order@.len() - i,
        {
            if crate::index::segments_equal(&self.order[i], segs) {
                assert(self.entries()[i as int] == seg_views(segs@));
                return true;
            }
            i = i + 1;
        }
        false
    }

    /// Records a missing path, dropping the oldest paths beyond the bound.
    pub fn insert(&mut self, segs: Vec<String>)
        requires
            old(self).wf(),
        ensures
            final(self).wf(),
            final(self).max() == old(self).max(),
            final(self).entries() == cache_after_insert(old(self).entries(), old(self).max(), seg_views(segs@)),
    {
        let ghost p = seg_views(segs@);
        let ghost s = if self.entries().contains(p) {
            self.entries()
        } else {
            self.entries().push(p)
        };
        if !self.contains(&segs) {
            let ghost before = self.entries();
            self.order.push_back(segs);
            proof {
                assert(self.entries() =~= before.push(p));
                assert(self.entries().no_duplicates()) by {
                    assert forall|i: int, j: int| 0 <= i < self.entries().len() && 0 <= j < self.entries().len() && i != j
                        implies self.entries()[i] != self.entries()[j] by {
                        if i < before.len() && j < before.len() {
                            assert(self.entries()[i] == before[i] && self.entries()[j] == before[j]);
                        } else if i < before.len() {
                            assert(self.entries()[i] == before[i]);
                        } else if j < before.len() {
                            assert(self.entries()[j] == before[j]);
                        }
                    }
                }
            }
        }
        assert(self.entries() == s);
        let ghost mut dropped: int = 0;
        while self.order.len() > self.max_entries
            invariant
                self.max_entries == old(self).max_entries,
                0 <= dropped <= s.len(),
                self.entries() == s.subrange(dropped, s.len() as int),
                self.entries().len() == self.order@.len(),
                s.no_duplicates(),
                dropped > 0 ==> self.entries().len() >= self.max(),
            decreases self.order@.len(),
        {
            let ghost before = self.order@;
            let _ = self.order.pop_front();
            proof {
                assert(self.order@ =~= before.subrange(1, before.len() as int));
                assert forall|k: int| 0 <= k < self.entries().len() implies self.entries()[k] == s.subrange(dropped + 1, s.len() as int)[k] by {
                    assert(self.order@[k] == before[k + 1]);
                    assert(path_list_view(before)[k + 1] == s[dropped + k + 1]);
                }
                assert(self.entries() =~= s.subrange(dropped + 1, s.len() as int));
                dropped = dropped + 1;
            }
        }
        proof {
            if s.len() > self.max() {
                assert(self.entries().len() == self.max());
                assert(dropped == s.len() - self.max());
            } else {
                assert(dropped == 0);
                assert(s.subrange(0, s.len() as int) =~= s);
            }
            assert(self.entries().no_duplicates()) by {
                assert forall|a: int, b: int| 0 <= a < self.entries().len() && 0 <= b < self.entries().len() && a != b
                    implies self.entries()[a] != self.entries()[b] by {
                    assert(self.entries()[a] == s[a + dropped] && self.entries()[b] == s[b + dropped]);
                }
            }
        }
    }
}

/// Recording a path in a cache that holds at least one path makes it cached.
pub proof fn law_cache_insert_records(order: Seq<Seq<Seq<char>>>, max: nat, p: Seq<Seq<char>>)
    requires
        max > 0,
        order.len() <= max,
    ensures
        cache_after_insert(order, max, p).contains(p),
        cache_after_insert(order, max, p).len() <= max,
{
    let s = if order.contains(p) { order } else { order.push(p) };
    if order.contains(p) {
        assert(cache_after_insert(order, max, p) == order);
    } else {
        assert(s[s.len() - 1] == p);
        if s.len() > max {
            let r = s.skip(s.len() - max);
            assert(r[r.len() - 1] == p);
        }
    }
}

/// Recording a path twice caches it as once.
pub proof fn law_cache_insert_idempotent(order: Seq<Seq<Seq<char>>>, max: nat, p: Seq<Seq<char>>)
    requires
        max > 0,
        order.len() <= max,
    ensures
        cache_after_insert(cache_after_insert(order, max, p), max, p) == cache_after_insert(order, max, p),
{
    law_cache_insert_records(order, max, p);
}

/// The cache never holds more paths than its bound.
pub proof fn law_cache_insert_bounded(order: Seq<Seq<Seq<char>>>, max: nat, p: Seq<Seq<char>>)
    ensures
        cache_after_insert(order, max, p).len() <= max,
{
}

} // verus!
