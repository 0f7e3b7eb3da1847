use vstd::prelude::*;
use shared_buffer::OwnedBuffer;
use std::io::Cursor;
use std::io::ErrorKind;
use std::io::Read;
use zip::result::ZipError;
use zip::ZipArchive;
use crate::buffer::{buffer_bytes, buffer_clone, buffer_from_vec};
use crate::lru::{evicted, law_put_then_cached, lemma_evicted_submap, lru_put, lru_touch, put_before_evict};
use crate::error::{FsError, IoErrorKind};
use crate::fs_types::{DirEntry, Metadata, OpenOptionsConfig};
use crate::index::NodeKind;
use crate::indexed::{add_file_outcome, ensure_dir_outcome, DEFAULT_NEGATIVE_LOOKUP_ENTRIES};
use crate::lru::DecompressedLruCache;
use crate::path::{normalize_path, spec_normalize};
use crate::tree::{
    cached_after_create_dir, cached_after_lookup, cached_after_open, cached_after_rename, is_listing, spec_create_dir, spec_metadata, spec_open, spec_read_dir_error, spec_remove_dir,
    spec_remove_file, spec_rename, ArchiveTree,
};

verus! {

/// How many bytes of decompressed contents a ZIP file system keeps.
pub const DEFAULT_DECOMPRESSED_CACHE_BYTES: usize = 134217728;

#[verifier::external_type_specification]
#[verifier::external_body]
#[verifier::reject_recursive_types(T)]
pub struct ExCursor<T>(Cursor<T>);

#[verifier::external_type_specification]
#[verifier::external_body]
#[verifier::reject_recursive_types(R)]
pub struct ExZipArchive<R>(ZipArchive<R>);

#[verifier::external_type_specification]
#[verifier::external_body]
pub struct ExIoError(std::io::Error);

/// A ZIP archive read from bytes held in memory.
pub type MemZipArchive = ZipArchive<Cursor<Vec<u8>>>;

/// What opening an entry of a ZIP archive tells of it.
pub struct ZipEntryInfo {
    /// The entry's name as stored in the archive.
    pub name: String,
    /// Whether the entry is a directory.
    pub is_dir: bool,
    /// The uncompressed size of the entry.
    pub size: u64,
}

/// What a ZIP archive holds, entry by entry in index order: the entry's name,
/// directory flag and uncompressed size as opening the entry gives them (or
/// how opening it or decoding its name fails), and the entry's decompressed
/// contents (or how opening or decompressing it fails).
pub uninterp spec fn zip_entries(a: MemZipArchive) -> Seq<(Result<(Seq<char>, bool, u64), ZipFailure>, Result<Seq<u8>, ZipFailure>)>;

/// What a ZIP archive made of `bytes` holds (as `zip_entries` says), or how
/// reading its central directory fails.
pub uninterp spec fn zip_directory(bytes: Seq<u8>) -> Result<Seq<(Result<(Seq<char>, bool, u64), ZipFailure>, Result<Seq<u8>, ZipFailure>)>, ZipFailure>;

/// `ZipArchive::new` over the bytes: reads the central directory. The
/// archive it gives holds what the bytes hold; its error, told apart by
/// variant, is the named failure.
#[verifier::external_body]
fn zip_open(bytes: Vec<u8>) -> (r: Result<MemZipArchive, ZipErrorClass>)
    ensures
        match r {
            Ok(a) => zip_directory(bytes@) == Ok::<ZipEntries, ZipFailure>(zip_entries(a)),
            Err(c) => zip_directory(bytes@) == Err::<ZipEntries, ZipFailure>(failure_of(c)),
        },
{
    ZipArchive::new(Cursor::new(bytes)).map_err(|e| match e {
        ZipError::FileNotFound => ZipErrorClass::FileNotFound,
        ZipError::Io(err) => ZipErrorClass::Io(err),
        _ => ZipErrorClass::Other,
    })
}

/// `ZipArchive::len`: the number of entries.
#[verifier::external_body]
fn zip_len(a: &MemZipArchive) -> (r: usize)
    ensures
        r == zip_entries(*a).len(),
{
    a.len()
}

/// `ZipArchive::by_index` then `ZipFile::name`, `is_dir` and `size`: what the
/// archive lists for entry `index`, or its failure told apart by variant.
/// Reading moves the archive's reader, not its contents.
#[verifier::external_body]
fn zip_entry_info(a: &mut MemZipArchive, index: usize) -> (r: Result<ZipEntryInfo, ZipErrorClass>)
    requires
        index < zip_entries(*old(a)).len(),
    ensures
        zip_entries(*final(a)) == zip_entries(*old(a)),
        match r {
            Ok(info) => zip_entries(*old(a))[index as int].0 == Ok::<(Seq<char>, bool, u64), ZipFailure>(
                (info.name@, info.is_dir, info.size),
            ),
            Err(c) => zip_entries(*old(a))[index as int].0 == Err::<(Seq<char>, bool, u64), ZipFailure>(failure_of(c)),
        },
{
    let class = |e: ZipError| match e {
        ZipError::FileNotFound => ZipErrorClass::FileNotFound,
        ZipError::Io(err) => ZipErrorClass::Io(err),
        _ => ZipErrorClass::Other,
    };
    let file = a.by_index(index).map_err(class)?;
    let name = file.name().map_err(class)?.into_owned();
    Ok(ZipEntryInfo { name, is_dir: file.is_dir(), size: file.size() })
}

/// `ZipArchive::by_index` then `Read::read_to_end`: the decompressed contents
/// of entry `index`, or the failure told apart by variant (a failed read is an
/// I/O failure). Reading moves the archive's reader, not its contents.
#[verifier::external_body]
fn zip_read_entry(a: &mut MemZipArchive, index: usize) -> (r: Result<Vec<u8>, ZipErrorClass>)
    requires
        index < zip_entries(*old(a)).len(),
    ensures
        zip_entries(*final(a)) == zip_entries(*old(a)),
        match r {
            Ok(v) => zip_entries(*old(a))[index as int].1 == Ok::<Seq<u8>, ZipFailure>(v@),
            Err(c) => zip_entries(*old(a))[index as int].1 == Err::<Seq<u8>, ZipFailure>(failure_of(c)),
        },
{
    let class = |e: ZipError| match e {
        ZipError::FileNotFound => ZipErrorClass::FileNotFound,
        ZipError::Io(err) => ZipErrorClass::Io(err),
        _ => ZipErrorClass::Other,
    };
    let mut file = a.by_index(index).map_err(class)?;
    let mut bytes = Vec::new();
    file.read_to_end(&mut bytes).map_err(ZipErrorClass::Io)?;
    Ok(bytes)
}

/// The variant of a `ZipError`, as far as file system errors distinguish it.
pub enum ZipErrorClass {
    FileNotFound,
    Io(std::io::Error),
    Other,
}

/// How a ZIP operation fails, by the variant of its error.
#[derive(Clone, Copy, Debug, PartialEq, Eq, Structural)]
pub enum ZipFailure {
    /// The entry or file is not there.
    FileNotFound,
    /// Reading the bytes failed.
    Io,
    /// Anything else: the archive is not valid.
    Other,
}

/// The failure a ZIP error class stands for.
pub open spec fn failure_of(c: ZipErrorClass) -> ZipFailure {
    match c {
        ZipErrorClass::FileNotFound => ZipFailure::FileNotFound,
        ZipErrorClass::Io(_) => ZipFailure::Io,
        ZipErrorClass::Other => ZipFailure::Other,
    }
}

/// `e` is the file system error a ZIP failure is answered with: a missing file
/// is `EntryNotFound`, an I/O failure the error of its kind, anything else
/// `InvalidData`.
pub open spec fn answers_failure(f: ZipFailure, e: FsError) -> bool {
    match f {
        ZipFailure::FileNotFound => e == FsError::EntryNotFound,
        ZipFailure::Io => exists|k: IoErrorKind| e == crate::error::spec_fs_error_from_io_kind(k),
        ZipFailure::Other => e == FsError::InvalidData,
    }
}

#[verifier::external_type_specification]
#[verifier::external_body]
pub struct ExErrorKind(ErrorKind);

/// `std::io::Error::kind`.
#[verifier::external_body]
fn error_kind(e: &std::io::Error) -> (r: ErrorKind) {
    e.kind()
}

/// Tells the network kinds of `ErrorKind` apart; `None` for any other kind.
/// Which kind comes out is not stated.
#[verifier::external_body]
fn network_kind(k: &ErrorKind) -> (r: Option<IoErrorKind>) {
    match k {
        ErrorKind::AddrInUse => Some(IoErrorKind::AddrInUse),
        ErrorKind::AddrNotAvailable => Some(IoErrorKind::AddrNotAvailable),
        ErrorKind::BrokenPipe => Some(IoErrorKind::BrokenPipe),
        ErrorKind::ConnectionAborted => Some(IoErrorKind::ConnectionAborted),
        ErrorKind::ConnectionRefused => Some(IoErrorKind::ConnectionRefused),
        ErrorKind::ConnectionReset => Some(IoErrorKind::ConnectionReset),
        ErrorKind::NotConnected => Some(IoErrorKind::NotConnected),
        _ => None,
    }
}

/// Tells the data and timing kinds of `ErrorKind` apart; `None` for any other
/// kind. Which kind comes out is not stated.
#[verifier::external_body]
fn stream_kind(k: &ErrorKind) -> (r: Option<IoErrorKind>) {
    match k {
        ErrorKind::InvalidData => Some(IoErrorKind::InvalidData),
        ErrorKind::InvalidInput => Some(IoErrorKind::InvalidInput),
        ErrorKind::UnexpectedEof => Some(IoErrorKind::UnexpectedEof),
        ErrorKind::WriteZero => Some(IoErrorKind::WriteZero),
        ErrorKind::Interrupted => Some(IoErrorKind::Interrupted),
        ErrorKind::TimedOut => Some(IoErrorKind::TimedOut),
        ErrorKind::WouldBlock => Some(IoErrorKind::WouldBlock),
        _ => None,
    }
}

/// Tells the remaining kinds of `ErrorKind` apart: existence, access and
/// `Other`; every kind not named is uncategorized. Which kind comes out is
/// not stated.
#[verifier::external_body]
fn access_kind(k: &ErrorKind) -> (r: IoErrorKind) {
    match k {
        ErrorKind::AlreadyExists => IoErrorKind::AlreadyExists,
        ErrorKind::NotFound => IoErrorKind::NotFound,
        ErrorKind::PermissionDenied => IoErrorKind::PermissionDenied,
        ErrorKind::Other => IoErrorKind::Other,
        _ => IoErrorKind::Uncategorized,
    }
}

/// The kind of an I/O error, among those the file system tells apart.
pub fn io_error_kind(e: &std::io::Error) -> (r: IoErrorKind) {
    let k = error_kind(e);
    match network_kind(&k) {
        Some(kind) => kind,
        None => match stream_kind(&k) {
            Some(kind) => kind,
            None => access_kind(&k),
        },
    }
}

/// The file system error an I/O error stands for.
pub fn fs_error_from_io(e: &std::io::Error) -> (r: FsError)
    ensures
        exists|k: IoErrorKind| r == crate::error::spec_fs_error_from_io_kind(k),
{
    FsError::from_io_kind(io_error_kind(e))
}

/// The file system error a ZIP error stands for: a missing file is a missing
/// entry, an I/O error maps by its kind, anything else is invalid data.
pub fn map_zip_error_class(c: ZipErrorClass) -> (r: FsError)
    ensures
        match c {
            ZipErrorClass::FileNotFound => r == FsError::EntryNotFound,
            ZipErrorClass::Other => r == FsError::InvalidData,
            ZipErrorClass::Io(_) => exists|k: IoErrorKind| r == crate::error::spec_fs_error_from_io_kind(k),
        },
{
    match c {
        ZipErrorClass::FileNotFound => FsError::EntryNotFound,
        ZipErrorClass::Io(err) => fs_error_from_io(&err),
        ZipErrorClass::Other => FsError::InvalidData,
    }
}

/// What a ZIP archive holds, entry by entry (see `zip_entries`).
pub type ZipEntries = Seq<(Result<(Seq<char>, bool, u64), ZipFailure>, Result<Seq<u8>, ZipFailure>)>;

/// Every file of `m` is stored under a slot below `n`.
pub open spec fn slots_below(m: Map<Seq<Seq<char>>, NodeKind>, n: int) -> bool {
    forall|p: Seq<Seq<char>>| #[trigger] m.contains_key(p) && m[p] is File ==> (m[p]->slot as int) < n
}

/// Why building the tree of a ZIP archive stopped.
#[derive(Clone, Copy, Debug, PartialEq, Eq, Structural)]
pub enum ZipTreeError {
    /// An entry cannot be opened, failing so.
    Unreadable(ZipFailure),
    /// An entry conflicts with the tree built so far (a directory where a
    /// file is, or a file where a directory is).
    Conflict,
}

/// The tree the first `k` entries of a ZIP listing build, or why building it
/// stopped. Entries with an empty name or naming the root are skipped; a
/// file's slot is its index.
pub open spec fn zip_tree(listing: ZipEntries, k: int) -> Result<Map<Seq<Seq<char>>, NodeKind>, ZipTreeError>
    decreases k,
{
    if k <= 0 {
        Ok(Map::<Seq<Seq<char>>, NodeKind>::empty().insert(Seq::empty(), NodeKind::Dir))
    } else {
        match zip_tree(listing, k - 1) {
            Err(e) => Err(e),
            Ok(m) => match listing[k - 1].0 {
                Err(f) => Err(ZipTreeError::Unreadable(f)),
                Ok((name, is_dir, size)) => {
                    let s = spec_normalize(name, true, false)->Ok_0;
                    if name.len() == 0 || s.len() == 0 {
                        Ok(m)
                    } else if is_dir {
                        let (r, m2) = ensure_dir_outcome(m, s);
                        if r is Ok { Ok(m2) } else { Err(ZipTreeError::Conflict) }
                    } else {
                        let (r, m2) = add_file_outcome(m, s, NodeKind::File { slot: (k - 1) as usize, len: size });
                        if r is Ok { Ok(m2) } else { Err(ZipTreeError::Conflict) }
                    }
                },
            },
        }
    }
}

/// Once building the tree stops, it stays stopped, for the same reason.
pub proof fn lemma_zip_tree_fails_onward(listing: ZipEntries, k: int, j: int)
    requires
        0 <= k <= j,
        zip_tree(listing, k) is Err,
    ensures
        zip_tree(listing, j) == zip_tree(listing, k),
    decreases j - k,
{
    if k < j {
        lemma_zip_tree_fails_onward(listing, k, j - 1);
    }
}

/// The files of the tree the first `k` entries build are stored under the
/// indices of those entries.
pub proof fn lemma_zip_tree_slots(listing: ZipEntries, k: int)
    requires
        0 <= k <= usize::MAX,
        zip_tree(listing, k) is Ok,
    ensures
        slots_below(zip_tree(listing, k)->Ok_0, k),
    decreases k,
{
    if k > 0 {
        lemma_zip_tree_slots(listing, k - 1);
        let m = zip_tree(listing, k - 1)->Ok_0;
        let m2 = zip_tree(listing, k)->Ok_0;
        assert forall|p: Seq<Seq<char>>| #[trigger] m2.contains_key(p) && m2[p] is File implies (m2[p]->slot as int) < k by {
            if m.contains_key(p) && m2[p] == m[p] {
                assert((m[p]->slot as int) < k - 1);
            }
        }
    }
}

/// The path a ZIP entry's raw name stands for.
pub open spec fn zip_entry_path(name: Seq<char>) -> Seq<Seq<char>> {
    spec_normalize(name, true, false)->Ok_0
}

/// Entry `i` of a listing is a readable file (not a directory) whose name
/// stands for a path below the root, and no later entry names that path.
pub open spec fn last_file_entry(listing: ZipEntries, i: int) -> bool {
    &&& 0 <= i < listing.len()
    &&& listing[i].0 is Ok
    &&& !listing[i].0->Ok_0.1
    &&& listing[i].0->Ok_0.0.len() > 0
    &&& zip_entry_path(listing[i].0->Ok_0.0).len() > 0
    &&& forall|j: int| #![trigger listing[j]] i < j < listing.len() && listing[j].0 is Ok && listing[j].0->Ok_0.0.len() > 0
        ==> zip_entry_path(listing[j].0->Ok_0.0) != zip_entry_path(listing[i].0->Ok_0.0)
}

/// Once a file entry is in the tree, later entries naming other paths keep it.
proof fn lemma_zip_tree_keeps_file(listing: ZipEntries, i: int, k: int)
    requires
        last_file_entry(listing, i),
        i < k <= listing.len(),
        k <= usize::MAX,
        zip_tree(listing, k) is Ok,
    ensures
        zip_tree(listing, k)->Ok_0.contains_key(zip_entry_path(listing[i].0->Ok_0.0)),
        zip_tree(listing, k)->Ok_0[zip_entry_path(listing[i].0->Ok_0.0)] == (NodeKind::File {
            slot: i as usize,
            len: listing[i].0->Ok_0.2,
        }),
    decreases k,
{
    let p = zip_entry_path(listing[i].0->Ok_0.0);
    if zip_tree(listing, k - 1) is Err {
        lemma_zip_tree_fails_onward(listing, k - 1, k);
    }
    let m = zip_tree(listing, k - 1)->Ok_0;
    if k - 1 > i {
        lemma_zip_tree_keeps_file(listing, i, k - 1);
        let e = listing[k - 1].0->Ok_0;
        if e.0.len() > 0 {
            assert(zip_entry_path(e.0) != p);
        }
    }
}

/// Every readable file entry of a ZIP archive (not a directory) whose name
/// stands for a path below the root is in the index as a file stored under
/// the entry's index with the entry's size, whatever that size is (empty files
/// included), unless a later entry names the same path.
pub proof fn law_zip_file_entries_are_indexed(listing: ZipEntries, m: Map<Seq<Seq<char>>, NodeKind>, i: int)
    requires
        listing.len() <= usize::MAX,
        zip_tree(listing, listing.len() as int) == Ok::<Map<Seq<Seq<char>>, NodeKind>, ZipTreeError>(m),
        last_file_entry(listing, i),
    ensures
        m.contains_key(zip_entry_path(listing[i].0->Ok_0.0)),
        m[zip_entry_path(listing[i].0->Ok_0.0)] == (NodeKind::File { slot: i as usize, len: listing[i].0->Ok_0.2 }),
{
    lemma_zip_tree_keeps_file(listing, i, listing.len() as int);
}

/// A read-only file system backed by a ZIP archive. Paths are indexed from the
/// central directory when the file system is made; contents are only
/// decompressed when a file is opened, and kept in a bounded cache.
pub struct ZipArchiveFileSystem {
    archive: MemZipArchive,
    tree: ArchiveTree,
    decompressed: DecompressedLruCache,
}

impl ZipArchiveFileSystem {
    /// What each path names; a file names its entry index and size.
    pub closed spec fn model(&self) -> Map<Seq<Seq<char>>, NodeKind> {
        self.tree.model()
    }

    /// The archive's entries.
    pub closed spec fn listing(&self) -> ZipEntries {
        zip_entries(self.archive)
    }

    /// The decompressed contents of an entry, when there is such an entry and
    /// its contents can be read.
    pub closed spec fn entry_data(&self, index: usize) -> Option<Seq<u8>> {
        if index < zip_entries(self.archive).len() {
            match zip_entries(self.archive)[index as int].1 {
                Ok(d) => Some(d),
                Err(_) => None,
            }
        } else {
            None
        }
    }

    /// The paths cached as missing, oldest first.
    pub closed spec fn cached(&self) -> Seq<Seq<Seq<char>>> {
        self.tree.cached()
    }

    /// The most paths cached as missing.
    pub closed spec fn cache_max(&self) -> nat {
        self.tree.cache_max()
    }

    /// The entries whose decompressed contents are cached.
    pub closed spec fn decompressed_indices(&self) -> Set<usize> {
        self.decompressed.entries().dom()
    }

    /// The cache of decompressed contents: its usage order (least recently
    /// used first), its entries, and the bytes it counts.
    pub closed spec fn decompressed_state(&self) -> (Seq<usize>, Map<usize, OwnedBuffer>, nat) {
        (self.decompressed.order(), self.decompressed.entries(), self.decompressed.total())
    }

    /// The most bytes of decompressed contents kept.
    pub closed spec fn decompressed_max(&self) -> nat {
        self.decompressed.max()
    }

    /// Well formed: a well-formed tree, and a cache holding only the entries'
    /// true contents.
    pub closed spec fn wf(&self) -> bool {
        &&& self.tree.wf()
        &&& self.decompressed.wf()
        &&& forall|i: usize| #[trigger] self.decompressed.entries().contains_key(i)
            ==> self.entry_data(i) == Some(buffer_bytes(self.decompressed.entries()[i]))
        &&& slots_below(self.model(), zip_entries(self.archive).len() as int)
    }

    /// Every ZIP file system has a root directory, valid paths, and a
    /// directory as the parent of every path; every file is stored under the
    /// index of an entry of the archive, and every entry whose decompressed
    /// contents are cached has contents that can be read.
    pub proof fn law_zip_shape(&self)
        requires
            self.wf(),
        ensures
            crate::index::index_shape(self.model()),
            slots_below(self.model(), self.listing().len() as int),
            forall|i: usize| #[trigger] self.decompressed_indices().contains(i) ==> self.entry_data(i) is Some,
    {
        self.tree.law_tree_shape();
    }

    /// Indexes a ZIP archive held in memory.
    pub fn new(bytes: Vec<u8>) -> (r: Result<Self, FsError>)
        ensures
            match r {
                Ok(fs) => fs.wf() && fs.cached().len() == 0 && fs.cache_max() == DEFAULT_NEGATIVE_LOOKUP_ENTRIES
                    && fs.decompressed_indices().is_empty() && fs.decompressed_max() == DEFAULT_DECOMPRESSED_CACHE_BYTES
                    && zip_directory(bytes@) == Ok::<ZipEntries, ZipFailure>(fs.listing()) && zip_tree(
                    fs.listing(),
                    fs.listing().len() as int,
                ) == Ok::<Map<Seq<Seq<char>>, NodeKind>, ZipTreeError>(fs.model()) && (forall|i: int|
                    #[trigger] last_file_entry(fs.listing(), i) ==> fs.model().contains_key(
                        zip_entry_path(fs.listing()[i].0->Ok_0.0),
                    ) && fs.model()[zip_entry_path(fs.listing()[i].0->Ok_0.0)] == (NodeKind::File {
                        slot: i as usize,
                        len: fs.listing()[i].0->Ok_0.2,
                    })),
                Err(e) => match zip_directory(bytes@) {
                    Err(f) => answers_failure(f, e),
                    Ok(l) => match zip_tree(l, l.len() as int) {
                        Ok(_) => false,
                        Err(ZipTreeError::Conflict) => e == FsError::InvalidData,
                        Err(ZipTreeError::Unreadable(f)) => answers_failure(f, e),
                    },
                },
            },
    {
        Self::from_bytes(bytes)
    }

    #[verifier::loop_isolation(false)]
    fn from_bytes(bytes: Vec<u8>) -> (r: Result<Self, FsError>)
        ensures
            match r {
                Ok(fs) => fs.wf() && fs.cached().len() == 0 && fs.cache_max() == DEFAULT_NEGATIVE_LOOKUP_ENTRIES
                    && fs.decompressed_indices().is_empty() && fs.decompressed_max() == DEFAULT_DECOMPRESSED_CACHE_BYTES
                    && zip_directory(bytes@) == Ok::<ZipEntries, ZipFailure>(fs.listing()) && zip_tree(
                    fs.listing(),
                    fs.listing().len() as int,
                ) == Ok::<Map<Seq<Seq<char>>, NodeKind>, ZipTreeError>(fs.model()) && (forall|i: int|
                    #[trigger] last_file_entry(fs.listing(), i) ==> fs.model().contains_key(
                        zip_entry_path(fs.listing()[i].0->Ok_0.0),
                    ) && fs.model()[zip_entry_path(fs.listing()[i].0->Ok_0.0)] == (NodeKind::File {
                        slot: i as usize,
                        len: fs.listing()[i].0->Ok_0.2,
                    })),
                Err(e) => match zip_directory(bytes@) {
                    Err(f) => answers_failure(f, e),
                    Ok(l) => match zip_tree(l, l.len() as int) {
                        Ok(_) => false,
                        Err(ZipTreeError::Conflict) => e == FsError::InvalidData,
                        Err(ZipTreeError::Unreadable(f)) => answers_failure(f, e),
                    },
                },
            },
    {
        let ghost input = bytes@;
        let mut archive = match zip_open(bytes) {
            Ok(a) => a,
            Err(c) => {
                return Err(map_zip_error_class(c));
            },
        };
        let ghost listing = zip_entries(archive);
        let mut tree = ArchiveTree::new(DEFAULT_NEGATIVE_LOOKUP_ENTRIES);
        let n = zip_len(&archive);
        let mut index: usize = 0;
        while index < n
            invariant
                n == listing.len(),
                index <= n,
                zip_directory(input) == Ok::<ZipEntries, ZipFailure>(listing),
                zip_entries(archive) == listing,
                tree.wf(),
                tree.cached().len() == 0,
                tree.cache_max() == DEFAULT_NEGATIVE_LOOKUP_ENTRIES,
                zip_tree(listing, index as int) == Ok::<Map<Seq<Seq<char>>, NodeKind>, ZipTreeError>(tree.model()),
            decreases n - index,
        {
            let info = match zip_entry_info(&mut archive, index) {
                Ok(info) => info,
                Err(c) => {
                    proof {
                        assert(zip_tree(listing, index + 1) == Err::<Map<Seq<Seq<char>>, NodeKind>, ZipTreeError>(
                            ZipTreeError::Unreadable(failure_of(c)),
                        ));
                        lemma_zip_tree_fails_onward(listing, index + 1, n as int);
                    }
                    return Err(map_zip_error_class(c));
                },
            };
            let ghost m = tree.model();
            if info.name.as_str().unicode_len() != 0 {
                let segs = match normalize_path(info.name.as_str(), true, false) {
                    Ok(s) => s,
                    Err(e) => {
                        return Err(e);
                    },
                };
                if segs.len() != 0 {
                    if info.is_dir {
                        let r = tree.ensure_dir(&segs);
                        if r.is_err() {
                            proof {
                                assert(zip_tree(listing, index + 1) == Err::<Map<Seq<Seq<char>>, NodeKind>, ZipTreeError>(ZipTreeError::Conflict));
                                lemma_zip_tree_fails_onward(listing, index + 1, n as int);
                            }
                            return Err(FsError::InvalidData);
                        }
                    } else {
                        let r = tree.add_file(&segs, index, info.size);
                        if r.is_err() {
                            proof {
                                assert(zip_tree(listing, index + 1) == Err::<Map<Seq<Seq<char>>, NodeKind>, ZipTreeError>(ZipTreeError::Conflict));
                                lemma_zip_tree_fails_onward(listing, index + 1, n as int);
                            }
                            return Err(FsError::InvalidData);
                        }
                    }
                }
            }
            index = index + 1;
        }
        let decompressed = DecompressedLruCache::new(DEFAULT_DECOMPRESSED_CACHE_BYTES);
        proof {
            lemma_zip_tree_slots(listing, n as int);
            assert forall|i: int| #[trigger] last_file_entry(listing, i) implies tree.model().contains_key(
                zip_entry_path(listing[i].0->Ok_0.0),
            ) && tree.model()[zip_entry_path(listing[i].0->Ok_0.0)] == (NodeKind::File {
                slot: i as usize,
                len: listing[i].0->Ok_0.2,
            }) by {
                law_zip_file_entries_are_indexed(listing, tree.model(), i);
            }
        }
        Ok(ZipArchiveFileSystem { archive, tree, decompressed })
    }
    /// Symbolic links are not supported.
    pub fn readlink(&self, path: &str) -> (r: Result<String, FsError>)
        ensures
            r == Err::<String, FsError>(FsError::InvalidInput),
    {
        Err(FsError::InvalidInput)
    }

    /// The metadata of what `path` names.
    pub fn metadata(&mut self, path: &str) -> (r: Result<Metadata, FsError>)
        requires
            old(self).wf(),
        ensures
            final(self).wf(),
            final(self).model() == old(self).model(),
            same_contents(*final(self), *old(self)),
            final(self).cached() == cached_after_lookup(old(self).model(), old(self).cached(), old(self).cache_max(), path@),
            r == spec_metadata(old(self).model(), path@),
    {
        self.tree.metadata(path)
    }

    /// The metadata of what `path` names (archives hold no symbolic links).
    pub fn symlink_metadata(&mut self, path: &str) -> (r: Result<Metadata, FsError>)
        requires
            old(self).wf(),
        ensures
            final(self).cached() == cached_after_lookup(old(self).model(), old(self).cached(), old(self).cache_max(), path@),
            final(self).cache_max() == old(self).cache_max(),
            final(self).wf(),
            final(self).model() == old(self).model(),
            same_contents(*final(self), *old(self)),
            r == spec_metadata(old(self).model(), path@),
    {
        self.metadata(path)
    }

    /// Lists directory `path`: its children, sorted by name.
    pub fn read_dir(&mut self, path: &str) -> (r: Result<Vec<DirEntry>, FsError>)
        requires
            old(self).wf(),
        ensures
            final(self).cached() == cached_after_lookup(old(self).model(), old(self).cached(), old(self).cache_max(), path@),
            final(self).cache_max() == old(self).cache_max(),
            final(self).wf(),
            final(self).model() == old(self).model(),
            same_contents(*final(self), *old(self)),
            match r {
                Ok(v) => spec_read_dir_error(old(self).model(), path@) is None && is_listing(
                    old(self).model(),
                    spec_normalize(path@, false, false)->Ok_0,
                    v@,
                ),
                Err(e) => spec_read_dir_error(old(self).model(), path@) == Some(e),
            },
    {
        self.tree.read_dir(path)
    }

    /// Archives are read-only: creating a directory always fails.
    pub fn create_dir(&mut self, path: &str) -> (r: Result<(), FsError>)
        requires
            old(self).wf(),
        ensures
            final(self).cached() == cached_after_create_dir(old(self).model(), old(self).cached(), old(self).cache_max(), path@),
            final(self).cache_max() == old(self).cache_max(),
            final(self).wf(),
            final(self).model() == old(self).model(),
            same_contents(*final(self), *old(self)),
            r == Err::<(), FsError>(spec_create_dir(old(self).model(), path@)),
    {
        self.tree.create_dir(path)
    }

    /// Archives are read-only: removing a directory always fails.
    pub fn remove_dir(&mut self, path: &str) -> (r: Result<(), FsError>)
        requires
            old(self).wf(),
        ensures
            final(self).cached() == cached_after_lookup(old(self).model(), old(self).cached(), old(self).cache_max(), path@),
            final(self).cache_max() == old(self).cache_max(),
            final(self).wf(),
            final(self).model() == old(self).model(),
            same_contents(*final(self), *old(self)),
            r == Err::<(), FsError>(spec_remove_dir(old(self).model(), path@)),
    {
        self.tree.remove_dir(path)
    }

    /// Archives are read-only: renaming always fails.
    pub fn rename(&mut self, from: &str, to: &str) -> (r: Result<(), FsError>)
        requires
            old(self).wf(),
        ensures
            final(self).cached() == cached_after_rename(old(self).model(), old(self).cached(), old(self).cache_max(), from@, to@),
            final(self).cache_max() == old(self).cache_max(),
            final(self).wf(),
            final(self).model() == old(self).model(),
            same_contents(*final(self), *old(self)),
            r == Err::<(), FsError>(spec_rename(old(self).model(), from@, to@)),
    {
        self.tree.rename(from, to)
    }

    /// Archives are read-only: removing a file always fails.
    pub fn remove_file(&mut self, path: &str) -> (r: Result<(), FsError>)
        requires
            old(self).wf(),
        ensures
            final(self).cached() == cached_after_lookup(old(self).model(), old(self).cached(), old(self).cache_max(), path@),
            final(self).cache_max() == old(self).cache_max(),
            final(self).wf(),
            final(self).model() == old(self).model(),
            same_contents(*final(self), *old(self)),
            r == Err::<(), FsError>(spec_remove_file(old(self).model(), path@)),
    {
        self.tree.remove_file(path)
    }

    /// Mounting another file system inside an archive is not supported.
    pub fn mount(&self, name: String, path: &str) -> (r: Result<(), FsError>)
        ensures
            r == Err::<(), FsError>(FsError::Unsupported),
    {
        Err(FsError::Unsupported)
    }

    /// Opens the file at `path`, decompressing its entry unless its contents
    /// are cached; freshly decompressed contents are cached (least recently
    /// used entries giving way when the byte bound is exceeded).
    pub fn open(&mut self, path: &str, conf: &OpenOptionsConfig) -> (r: Result<OwnedBuffer, FsError>)
        requires
            old(self).wf(),
        ensures
            final(self).wf(),
            final(self).model() == old(self).model(),
            final(self).listing() == old(self).listing(),
            forall|i: usize| #[trigger] final(self).entry_data(i) == old(self).entry_data(i),
            final(self).decompressed_max() == old(self).decompressed_max(),
            final(self).cache_max() == old(self).cache_max(),
            final(self).cached() == cached_after_open(
                old(self).model(),
                old(self).cached(),
                old(self).cache_max(),
                path@,
                *conf,
            ),
            match spec_open(old(self).model(), path@, *conf) {
                Err(e) => r == Err::<OwnedBuffer, FsError>(e) && final(self).decompressed_state()
                    == old(self).decompressed_state(),
                Ok(NodeKind::File { slot, len }) => match r {
                    Ok(b) => {
                        &&& old(self).entry_data(slot) == Some(buffer_bytes(b))
                        &&& if old(self).decompressed_indices().contains(slot) {
                            final(self).decompressed_state() == lru_touch(old(self).decompressed_state(), slot)
                        } else {
                            exists|c: OwnedBuffer| buffer_bytes(c) == buffer_bytes(b) && final(self).decompressed_state()
                                == lru_put(old(self).decompressed_state(), old(self).decompressed_max(), slot, c)
                        }
                        &&& final(self).decompressed_indices().subset_of(old(self).decompressed_indices().insert(slot))
                        &&& buffer_bytes(b).len() <= final(self).decompressed_max()
                            ==> final(self).decompressed_indices().contains(slot)
                    },
                    Err(e) => {
                        &&& old(self).entry_data(slot) is None
                        &&& final(self).decompressed_state() == old(self).decompressed_state()
                        &&& slot < old(self).listing().len()
                        &&& old(self).listing()[slot as int].1 matches Err(f) && answers_failure(f, e)
                    },
                },
                Ok(NodeKind::Dir) => false,
            },
    {
        let k = self.tree.open_node(path, conf);
        let slot = match k {
            Ok(NodeKind::File { slot, len }) => slot,
            Ok(NodeKind::Dir) => {
                return Err(FsError::NotAFile);
            },
            Err(e) => {
                return Err(e);
            },
        };
        match self.decompressed.get(slot) {
            Some(b) => {
                return Ok(b);
            },
            None => {},
        }
        let bytes = match zip_read_entry(&mut self.archive, slot) {
            Ok(v) => v,
            Err(c) => {
                return Err(map_zip_error_class(c));
            },
        };
        let owned = buffer_from_vec(bytes);
        let ghost o = self.decompressed.order();
        let ghost e = self.decompressed.entries();
        let ghost t = self.decompressed.total();
        let ghost max = self.decompressed.max();
        proof {
            self.decompressed.lemma_wf();
        }
        let copy = buffer_clone(&owned);
        let ghost c = copy;
        self.decompressed.put(slot, copy);
        proof {
            let (o2, e2, t2) = put_before_evict(o, e, t, slot, c);
            lemma_evicted_submap(o2, e2, t2, max);
            if buffer_bytes(c).len() <= max {
                law_put_then_cached(o, e, t, max, slot, c);
            }
            assert(self.decompressed.entries() == evicted(o2, e2, t2, max).1);
            assert(self.decompressed_indices().subset_of(e.dom().insert(slot)));
        }
        Ok(owned)
    }

    /// How many entries have their decompressed contents cached, and how many
    /// paths are cached as missing.
    pub fn cache_state(&self) -> (r: (usize, usize))
        requires
            self.wf(),
        ensures
            r.0 == self.decompressed_indices().len(),
            r.1 == self.cached().len(),
    {
        (self.decompressed.len(), self.tree.cached_len())
    }
}

/// Nothing but the caches of missing paths differ: the same entries, the same
/// contents, the same decompressed entries cached.
pub open spec fn same_contents(a: ZipArchiveFileSystem, b: ZipArchiveFileSystem) -> bool {
    &&& a.listing() == b.listing()
    &&& forall|i: usize| #[trigger] a.entry_data(i) == b.entry_data(i)
    &&& a.decompressed_indices() == b.decompressed_indices()
    &&& a.decompressed_max() == b.decompressed_max()
    &&& a.cache_max() == b.cache_max()
}

} // verus!
