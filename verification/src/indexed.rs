use vstd::prelude::*;
use std::io::Cursor;
use std::io::Read;
use flate2::read::GzDecoder;
use sevenz_rust2::{ArchiveReader, Password};
use shared_buffer::OwnedBuffer;
use crate::buffer::{buffer_bytes, buffer_clone, buffer_from_vec};
use crate::error::{spec_fs_error_from_io_kind, FsError, IoErrorKind};
use crate::zipfs::{fs_error_from_io, io_error_kind};
use crate::archive::{map_7z_error, SevenZErrorClass};
use crate::fs_types::{DirEntry, Metadata, OpenOptionsConfig};
use crate::index::{file_on_path, with_dirs, NodeKind};
use crate::path::{normalize_path, seg_views, spec_normalize, valid_segments};
use crate::tree::{
    cached_after_create_dir, cached_after_lookup, cached_after_open, cached_after_rename,
    is_listing, spec_create_dir, spec_metadata, spec_open, spec_read_dir_error,
    spec_remove_dir, spec_remove_file, spec_rename, ArchiveTree,
};

verus! {

/// How many missing paths a file system remembers.
pub const DEFAULT_NEGATIVE_LOOKUP_ENTRIES: usize = 32768;

/// What an archive entry is, as far as indexing it goes.
#[derive(Clone, Copy, Debug, PartialEq, Eq, Structural)]
pub enum ArchiveEntryKind {
    /// A directory.
    Directory,
    /// A regular file, whose contents are indexed.
    File,
    /// Anything else (links, devices, ...), which is skipped.
    Other,
}

/// What ensuring a directory at `s` does to `m`: the result and the new map.
pub open spec fn ensure_dir_outcome(m: Map<Seq<Seq<char>>, NodeKind>, s: Seq<Seq<char>>) -> (
    Result<(), FsError>,
    Map<Seq<Seq<char>>, NodeKind>,
) {
    if file_on_path(m, s) {
        (Err(FsError::InvalidData), m)
    } else {
        (Ok(()), with_dirs(m, s))
    }
}

/// What adding a file `k` at `s` does to `m`: the result and the new map.
pub open spec fn add_file_outcome(m: Map<Seq<Seq<char>>, NodeKind>, s: Seq<Seq<char>>, k: NodeKind) -> (
    Result<(), FsError>,
    Map<Seq<Seq<char>>, NodeKind>,
) {
    let m1 = with_dirs(m, s.drop_last());
    if s.len() == 0 || file_on_path(m, s.drop_last()) {
        (Err(FsError::InvalidData), m)
    } else if m1.contains_key(s) && m1[s] == NodeKind::Dir {
        (Err(FsError::InvalidData), m1)
    } else {
        (Ok(()), m1.insert(s, k))
    }
}

/// One entry of an archive as read from it: its raw name, its kind and, for a
/// file, its contents.
pub struct ArchiveEntry {
    pub name: String,
    pub kind: ArchiveEntryKind,
    pub bytes: Vec<u8>,
}

/// An entry by its views.
pub open spec fn entry_view(e: ArchiveEntry) -> (Seq<char>, ArchiveEntryKind, Seq<u8>) {
    (e.name@, e.kind, e.bytes@)
}

/// The entries of a list, by their views.
pub open spec fn entries_view(v: Seq<ArchiveEntry>) -> Seq<(Seq<char>, ArchiveEntryKind, Seq<u8>)> {
    v.map_values(|e: ArchiveEntry| entry_view(e))
}

/// What indexing one entry does to an index `m` whose files hold the contents
/// in `c` (a file's slot is its position there): the new index and contents,
/// or the error that stops indexing.
pub open spec fn index_step(
    st: (Map<Seq<Seq<char>>, NodeKind>, Seq<Seq<u8>>),
    e: (Seq<char>, ArchiveEntryKind, Seq<u8>),
) -> Result<(Map<Seq<Seq<char>>, NodeKind>, Seq<Seq<u8>>), FsError> {
    let (m, c) = st;
    let (name, kind, bytes) = e;
    let s = spec_normalize(name, true, true)->Ok_0;
    if s.len() == 0 || kind == ArchiveEntryKind::Other {
        Ok(st)
    } else if kind == ArchiveEntryKind::Directory {
        let (r, m2) = ensure_dir_outcome(m, s);
        match r {
            Ok(_) => Ok((m2, c)),
            Err(err) => Err(err),
        }
    } else {
        let (r, m2) = add_file_outcome(m, s, NodeKind::File { slot: c.len() as usize, len: bytes.len() as u64 });
        match r {
            Ok(_) => Ok((m2, c.push(bytes))),
            Err(err) => Err(err),
        }
    }
}

/// Indexing entries one after the other, from a tree holding only the root;
/// the first error stops it.
pub open spec fn index_entries(entries: Seq<(Seq<char>, ArchiveEntryKind, Seq<u8>)>) -> Result<
    (Map<Seq<Seq<char>>, NodeKind>, Seq<Seq<u8>>),
    FsError,
>
    decreases entries.len(),
{
    if entries.len() == 0 {
        Ok((Map::<Seq<Seq<char>>, NodeKind>::empty().insert(Seq::empty(), NodeKind::Dir), Seq::empty()))
    } else {
        match index_entries(entries.drop_last()) {
            Err(err) => Err(err),
            Ok(st) => index_step(st, entries.last()),
        }
    }
}

/// The entries a tar stream holds, in order (each with its path, its kind and
/// the data of a regular file, empty for any other entry), up to the first one
/// that cannot be read, and whether such an entry stopped the reading.
pub uninterp spec fn tar_listing(payload: Seq<u8>) -> (Seq<(Seq<char>, ArchiveEntryKind, Seq<u8>)>, bool);

/// `tar::Archive::entries` over the bytes of a tar stream, each entry read by
/// `Entry::path`, `Header::entry_type` (`is_dir`, `is_file`) and, for a regular
/// file, `read_to_end` (the data of any other entry is left unread and given
/// as empty): the entries read, and the I/O error that stopped reading, if
/// any. Which error is not stated.
#[verifier::external_body]
fn tar_read(payload: &[u8]) -> (r: (Vec<ArchiveEntry>, Option<std::io::Error>))
    ensures
        entries_view(r.0@) == tar_listing(payload@).0,
        r.1 is Some == tar_listing(payload@).1,
{
    let mut out = Vec::new();
    let mut archive = tar::Archive::new(payload);
    let res = archive.entries().and_then(|es| {
        for e in es {
            let mut e = e?;
            let name = e.path()?.to_string_lossy().into_owned();
            let t = e.header().entry_type();
            let kind = if t.is_dir() { ArchiveEntryKind::Directory } else if t.is_file() { ArchiveEntryKind::File } else { ArchiveEntryKind::Other };
            let mut bytes = Vec::new();
            if t.is_file() { e.read_to_end(&mut bytes)?; }
            out.push(ArchiveEntry { name, kind, bytes });
        }
        Ok(())
    });
    (out, res.err())
}

/// How reading a 7z archive fails, by the variant of its error.
#[derive(Clone, Copy, Debug, PartialEq, Eq, Structural)]
pub enum SevenZFailureKind {
    /// A file the archive names is not there.
    FileNotFound,
    /// Reading the bytes failed.
    Io,
    /// Anything else: the archive is not valid (or needs what is not
    /// supported).
    Other,
}

/// The entries a 7z archive holds, in order (each with its name, whether it
/// is a directory, and the data of a file, empty for a directory), up to the
/// first failure, and how that failure stopped the reading, if one did.
pub uninterp spec fn sevenz_listing(bytes: Seq<u8>) -> (Seq<(Seq<char>, ArchiveEntryKind, Seq<u8>)>, Option<SevenZFailureKind>);

/// How a 7z error is told apart, before its I/O error is classified.
pub enum SevenZFailure {
    FileNotFound,
    Io(std::io::Error),
    Other,
}

/// The kind of a told-apart 7z error.
pub open spec fn sevenz_kind(f: SevenZFailure) -> SevenZFailureKind {
    match f {
        SevenZFailure::FileNotFound => SevenZFailureKind::FileNotFound,
        SevenZFailure::Io(_) => SevenZFailureKind::Io,
        SevenZFailure::Other => SevenZFailureKind::Other,
    }
}

/// `e` is the file system error a 7z failure is answered with: a missing file
/// is `EntryNotFound`, an I/O failure the error of its kind, anything else
/// `InvalidData`.
pub open spec fn answers_7z_failure(k: SevenZFailureKind, e: FsError) -> bool {
    match k {
        SevenZFailureKind::FileNotFound => e == FsError::EntryNotFound,
        SevenZFailureKind::Io => exists|ik: IoErrorKind| e == spec_fs_error_from_io_kind(ik),
        SevenZFailureKind::Other => e == FsError::InvalidData,
    }
}

/// `sevenz_rust2::ArchiveReader::new` (without password) over the bytes, then
/// `for_each_entries` with one decoding thread, each entry read by `name`,
/// `is_directory` and, for a file, `read_to_end` (a directory is given empty
/// data): the entries read, and the error that
/// stopped reading, if any, told apart by variant. On one thread the result
/// depends on the bytes alone. The crate's header parser and decoder setup
/// answer `Err`, not a panic, on malformed input: they bound every count and
/// allocation taken from the header (`bounded_count`, `try_with_capacity`),
/// check coder and bind-pair indices, stream counts and the acyclicity of the
/// coder graph, and check property lengths and dictionary sizes before a
/// decoder is built.
#[verifier::external_body]
fn sevenz_read(bytes: Vec<u8>) -> (r: (Vec<ArchiveEntry>, Option<SevenZFailure>))
    ensures
        entries_view(r.0@) == sevenz_listing(bytes@).0,
        match r.1 {
            None => sevenz_listing(bytes@).1 is None,
            Some(f) => sevenz_listing(bytes@).1 == Some(sevenz_kind(f)),
        },
{
    let mut out = Vec::new();
    let res = ArchiveReader::new(Cursor::new(bytes), Password::empty()).and_then(|mut rd| {
        rd.set_thread_count(1);
        rd.for_each_entries(|entry, content| {
            let (mut data, dir) = (Vec::new(), entry.is_directory());
            if !dir { content.read_to_end(&mut data)?; }
            out.push(ArchiveEntry { name: entry.name().to_string(), kind: if dir { ArchiveEntryKind::Directory } else { ArchiveEntryKind::File }, bytes: data });
            Ok(true)
        })
    });
    (out, res.err().map(|e| match e {
        sevenz_rust2::Error::FileNotFound => SevenZFailure::FileNotFound,
        sevenz_rust2::Error::Io(err, _) => SevenZFailure::Io(err),
        _ => SevenZFailure::Other,
    }))
}

/// The file system error a 7z failure stands for (see `map_7z_error`).
fn sevenz_fs_error(f: SevenZFailure) -> (r: FsError)
    ensures
        answers_7z_failure(sevenz_kind(f), r),
{
    let class = match f {
        SevenZFailure::FileNotFound => SevenZErrorClass::FileNotFound,
        SevenZFailure::Io(err) => SevenZErrorClass::Io(io_error_kind(&err)),
        SevenZFailure::Other => SevenZErrorClass::Other,
    };
    map_7z_error(class)
}

/// The entries a gzip-compressed tar stream holds, read while decompressing
/// (as `tar_listing` says of the decompressed stream, but reading stops where
/// the tar stream ends, so what follows it is never checked), and whether an
/// entry that cannot be read or decompressed stopped the reading.
pub uninterp spec fn tar_gz_listing(bytes: Seq<u8>) -> (Seq<(Seq<char>, ArchiveEntryKind, Seq<u8>)>, bool);

/// `tar::Archive::entries` over `flate2::read::GzDecoder` over the bytes, each
/// entry read as `tar_read` reads it: the entries read, and the I/O error that
/// stopped reading, if any. Which error is not stated.
#[verifier::external_body]
fn tar_read_gzip(bytes: &[u8]) -> (r: (Vec<ArchiveEntry>, Option<std::io::Error>))
    ensures
        entries_view(r.0@) == tar_gz_listing(bytes@).0,
        r.1 is Some == tar_gz_listing(bytes@).1,
{
    let mut out = Vec::new();
    let mut archive = tar::Archive::new(GzDecoder::new(bytes));
    let res = archive.entries().and_then(|es| {
        for e in es {
            let mut e = e?;
            let name = e.path()?.to_string_lossy().into_owned();
            let t = e.header().entry_type();
            let kind = if t.is_dir() { ArchiveEntryKind::Directory } else if t.is_file() { ArchiveEntryKind::File } else { ArchiveEntryKind::Other };
            let mut bytes = Vec::new();
            if t.is_file() { e.read_to_end(&mut bytes)?; }
            out.push(ArchiveEntry { name, kind, bytes });
        }
        Ok(())
    });
    (out, res.err())
}

/// `fs` is the file system that indexing gives as model `m` with contents `c`:
/// well formed, nothing cached as missing yet.
pub open spec fn indexed_as(fs: IndexedArchiveFileSystem, m: Map<Seq<Seq<char>>, NodeKind>, c: Seq<Seq<u8>>) -> bool {
    &&& fs.wf()
    &&& fs.model() == m
    &&& fs.slots() == c.len()
    &&& forall|i: usize| i < c.len() ==> #[trigger] fs.contents(i) == c[i as int]
    &&& fs.cached().len() == 0
    &&& fs.cache_max() == DEFAULT_NEGATIVE_LOOKUP_ENTRIES
}

/// What reading and indexing the entries of an archive answers, given the
/// entries read and whether reading stopped at an unreadable entry: an
/// indexing error comes first (it stops before the later entries are read),
/// then the read error, else the file system.
pub open spec fn indexed_outcome(
    entries: Seq<(Seq<char>, ArchiveEntryKind, Seq<u8>)>,
    read_failed: bool,
    r: Result<IndexedArchiveFileSystem, FsError>,
    read_error_ok: spec_fn(FsError) -> bool,
) -> bool {
    match index_entries(entries) {
        Err(e) => r matches Err(e2) && e2 == e,
        Ok((m, c)) => if read_failed {
            r matches Err(e) && read_error_ok(e)
        } else {
            r matches Ok(fs) && indexed_as(fs, m, c)
        },
    }
}

/// Once indexing fails it stays failed, with the same error.
pub proof fn lemma_index_entries_fail_onward(entries: Seq<(Seq<char>, ArchiveEntryKind, Seq<u8>)>, k: int, j: int)
    requires
        0 <= k <= j <= entries.len(),
        index_entries(entries.take(k)) is Err,
    ensures
        index_entries(entries.take(j)) == index_entries(entries.take(k)),
    decreases j - k,
{
    if k < j {
        lemma_index_entries_fail_onward(entries, k, j - 1);
        assert(entries.take(j).drop_last() =~= entries.take(j - 1));
    }
}

/// The path an archive entry's raw name stands for.
pub open spec fn entry_path(name: Seq<char>) -> Seq<Seq<char>> {
    spec_normalize(name, true, true)->Ok_0
}

/// Entry `i` is a file whose name stands for a path below the root, and no
/// later entry names that path.
pub open spec fn last_file_at(entries: Seq<(Seq<char>, ArchiveEntryKind, Seq<u8>)>, i: int) -> bool {
    &&& 0 <= i < entries.len()
    &&& entries[i].1 == ArchiveEntryKind::File
    &&& entry_path(entries[i].0).len() > 0
    &&& forall|j: int| #![trigger entries[j]] i < j < entries.len() ==> entry_path(entries[j].0) != entry_path(entries[i].0)
}

/// Indexing keeps no more contents than there are entries.
proof fn lemma_index_contents_len(entries: Seq<(Seq<char>, ArchiveEntryKind, Seq<u8>)>)
    requires
        index_entries(entries) is Ok,
    ensures
        index_entries(entries)->Ok_0.1.len() <= entries.len(),
    decreases entries.len(),
{
    if entries.len() > 0 {
        lemma_index_contents_len(entries.drop_last());
    }
}

/// Once a file entry is indexed, later entries naming other paths keep it
/// and its contents.
proof fn lemma_index_keeps_file(entries: Seq<(Seq<char>, ArchiveEntryKind, Seq<u8>)>, i: int, k: int)
    requires
        last_file_at(entries, i),
        i < k <= entries.len(),
        entries.len() <= usize::MAX,
        entries[i].2.len() <= u64::MAX,
        index_entries(entries.take(k)) is Ok,
    ensures
        ({
            let (m, c) = index_entries(entries.take(k))->Ok_0;
            let p = entry_path(entries[i].0);
            &&& m.contains_key(p)
            &&& m[p] is File
            &&& m[p]->slot < c.len()
            &&& c[m[p]->slot as int] == entries[i].2
            &&& m[p]->len == entries[i].2.len()
        }),
    decreases k,
{
    assert(entries.take(k).drop_last() =~= entries.take(k - 1));
    assert(entries.take(k).last() == entries[k - 1]);
    if index_entries(entries.take(k - 1)) is Err {
        lemma_index_entries_fail_onward(entries, k - 1, k);
    }
    lemma_index_contents_len(entries.take(k - 1));
    if k - 1 > i {
        lemma_index_keeps_file(entries, i, k - 1);
        assert(entry_path(entries[k - 1].0) != entry_path(entries[i].0));
    }
}

/// Every file entry of an archive whose name stands for a path below the root
/// is in the index as a file holding exactly that entry's bytes (empty ones
/// included), unless a later entry names the same path.
pub proof fn law_file_entries_are_indexed(
    entries: Seq<(Seq<char>, ArchiveEntryKind, Seq<u8>)>,
    m: Map<Seq<Seq<char>>, NodeKind>,
    c: Seq<Seq<u8>>,
    i: int,
)
    requires
        index_entries(entries) == Ok::<(Map<Seq<Seq<char>>, NodeKind>, Seq<Seq<u8>>), FsError>((m, c)),
        last_file_at(entries, i),
        entries.len() <= usize::MAX,
        entries[i].2.len() <= u64::MAX,
    ensures
        m.contains_key(entry_path(entries[i].0)),
        m[entry_path(entries[i].0)] is File,
        m[entry_path(entries[i].0)]->slot < c.len(),
        c[m[entry_path(entries[i].0)]->slot as int] == entries[i].2,
        m[entry_path(entries[i].0)]->len == entries[i].2.len(),
{
    assert(entries.take(entries.len() as int) =~= entries);
    lemma_index_keeps_file(entries, i, entries.len() as int);
}

/// A read-only file system over the entries of an archive, held in memory.
pub struct IndexedArchiveFileSystem {
    tree: ArchiveTree,
    files: Vec<OwnedBuffer>,
}

impl IndexedArchiveFileSystem {
    /// What each path names; a file names the slot holding its contents.
    pub closed spec fn model(&self) -> Map<Seq<Seq<char>>, NodeKind> {
        self.tree.model()
    }

    /// The contents held in a slot.
    pub closed spec fn contents(&self, slot: usize) -> Seq<u8> {
        buffer_bytes(self.files@[slot as int])
    }

    /// The number of content slots.
    pub closed spec fn slots(&self) -> nat {
        self.files@.len()
    }

    /// The paths cached as missing.
    pub closed spec fn cached(&self) -> Seq<Seq<Seq<char>>> {
        self.tree.cached()
    }

    /// The most paths cached as missing.
    pub closed spec fn cache_max(&self) -> nat {
        self.tree.cache_max()
    }

    /// Well formed: a well-formed tree, and every file has a slot holding
    /// exactly its length in bytes.
    pub closed spec fn wf(&self) -> bool {
        &&& self.tree.wf()
        &&& forall|p: Seq<Seq<char>>| #[trigger] self.model().contains_key(p) ==> match self.model()[p] {
            NodeKind::File { slot, len } => slot < self.files@.len() && buffer_bytes(self.files@[slot as int]).len() == len,
            NodeKind::Dir => true,
        }
    }

    /// A file system holding only the root directory.
    pub fn empty() -> (r: Self)
        ensures
            r.wf(),
            r.model() == Map::<Seq<Seq<char>>, NodeKind>::empty().insert(Seq::empty(), NodeKind::Dir),
            r.slots() == 0,
            r.cached().len() == 0,
            r.cache_max() == DEFAULT_NEGATIVE_LOOKUP_ENTRIES,
    {
        IndexedArchiveFileSystem { tree: ArchiveTree::new(DEFAULT_NEGATIVE_LOOKUP_ENTRIES), files: Vec::new() }
    }

    /// Indexes the entries of an archive, in order (see `add_entry`); the
    /// first entry that cannot be indexed stops it with its error.
    #[verifier::loop_isolation(false)]
    pub fn from_entries(entries: Vec<ArchiveEntry>) -> (r: Result<Self, FsError>)
        ensures
            match index_entries(entries_view(entries@)) {
                Ok((m, c)) => match r {
                    Ok(fs) => {
                        &&& fs.wf()
                        &&& fs.model() == m
                        &&& fs.slots() == c.len()
                        &&& forall|i: usize| i < c.len() ==> #[trigger] fs.contents(i) == c[i as int]
                        &&& fs.cached().len() == 0
                        &&& fs.cache_max() == DEFAULT_NEGATIVE_LOOKUP_ENTRIES
                    },
                    Err(_) => false,
                },
                Err(e) => r matches Err(e2) && e2 == e,
            },
    {
        let ghost all = entries_view(entries@);
        let mut fs = Self::empty();
        let ghost mut c: Seq<Seq<u8>> = Seq::empty();
        let n = entries.len();
        let mut k: usize = 0;
        let mut src = entries;
        let mut rest: Vec<ArchiveEntry> = Vec::new();
        while src.len() > 0
            invariant
                n == all.len(),
                src@.len() + rest@.len() == n,
                forall|j: int| 0 <= j < src@.len() ==> entry_view(#[trigger] src@[j]) == all[j],
                forall|j: int| 0 <= j < rest@.len() ==> entry_view(#[trigger] rest@[j]) == all[n - 1 - j],
            decreases src@.len(),
        {
            let e = src.pop().unwrap();
            proof {
                assert(entry_view(e) == all[src@.len() as int]);
            }
            rest.push(e);
        }
        proof {
            assert(all.take(0) =~= Seq::<(Seq<char>, ArchiveEntryKind, Seq<u8>)>::empty());
        }
        while k < n
            invariant
                k <= n,
                n == all.len(),
                rest@.len() == n - k,
                forall|j: int| 0 <= j < rest@.len() ==> entry_view(#[trigger] rest@[j]) == all[n - 1 - j],
                fs.wf(),
                fs.cached().len() == 0,
                fs.cache_max() == DEFAULT_NEGATIVE_LOOKUP_ENTRIES,
                index_entries(all.take(k as int)) == Ok::<(Map<Seq<Seq<char>>, NodeKind>, Seq<Seq<u8>>), FsError>((fs.model(), c)),
                fs.slots() == c.len(),
                forall|i: usize| i < c.len() ==> #[trigger] fs.contents(i) == c[i as int],
            decreases n - k,
        {
            let e = rest.pop().unwrap();
            let ghost ev = entry_view(e);
            proof {
                assert(ev == all[k as int]);
                assert(all.take(k + 1).drop_last() =~= all.take(k as int));
                assert(all.take(k + 1).last() == all[k as int]);
            }
            let ghost before = fs.model();
            let r = fs.add_entry(e.name.as_str(), e.kind, e.bytes);
            proof {
                let st = index_step((before, c), ev);
                assert(index_entries(all.take(k + 1)) == st);
                let sn = spec_normalize(ev.0, true, true)->Ok_0;
                if !(sn.len() == 0 || ev.1 == ArchiveEntryKind::Other) && ev.1 == ArchiveEntryKind::File && r is Ok {
                    c = c.push(ev.2);
                }
            }
            match r {
                Ok(()) => {},
                Err(err) => {
                    proof {
                        lemma_index_entries_fail_onward(all, k + 1, n as int);
                        assert(all.take(n as int) =~= all);
                    }
                    return Err(err);
                },
            }
            k = k + 1;
        }
        proof {
            assert(all.take(n as int) =~= all);
        }
        Ok(fs)
    }

    /// Indexes the entries of a tar stream held in memory (see
    /// `from_entries`). An entry that cannot be read stops reading; an
    /// indexing error among the entries read before it is answered first, and
    /// else the file system error of the read error.
    pub fn from_tar_bytes(payload: &[u8]) -> (r: Result<Self, FsError>)
        ensures
            indexed_outcome(
                tar_listing(payload@).0,
                tar_listing(payload@).1,
                r,
                |e: FsError| exists|k: IoErrorKind| e == spec_fs_error_from_io_kind(k),
            ),
    {
        let (entries, failure) = tar_read(payload);
        let fs = Self::from_entries(entries)?;
        match failure {
            Some(e) => Err(fs_error_from_io(&e)),
            None => Ok(fs),
        }
    }

    /// Indexes the entries of a gzip-compressed tar stream held in memory,
    /// decompressing while reading (see `from_tar_bytes`).
    pub fn from_tar_gz_bytes(bytes: &[u8]) -> (r: Result<Self, FsError>)
        ensures
            indexed_outcome(
                tar_gz_listing(bytes@).0,
                tar_gz_listing(bytes@).1,
                r,
                |e: FsError| exists|k: IoErrorKind| e == spec_fs_error_from_io_kind(k),
            ),
    {
        let (entries, failure) = tar_read_gzip(bytes);
        let fs = Self::from_entries(entries)?;
        match failure {
            Some(e) => Err(fs_error_from_io(&e)),
            None => Ok(fs),
        }
    }

    /// Indexes the entries of a 7z archive held in memory (see
    /// `from_entries`). A failure stops reading; an indexing error among the
    /// entries read before it is answered first, and else the file system
    /// error of the failure.
    pub fn from_7z_bytes(bytes: Vec<u8>) -> (r: Result<Self, FsError>)
        ensures
            indexed_outcome(
                sevenz_listing(bytes@).0,
                sevenz_listing(bytes@).1 is Some,
                r,
                |e: FsError| answers_7z_failure(sevenz_listing(bytes@).1->Some_0, e),
            ),
    {
        let (entries, failure) = sevenz_read(bytes);
        let fs = Self::from_entries(entries)?;
        match failure {
            Some(e) => Err(sevenz_fs_error(e)),
            None => Ok(fs),
        }
    }

    /// The number of paths cached as missing.
    pub fn negative_cache_size(&self) -> (r: usize)
        ensures
            r == self.cached().len(),
    {
        self.tree.cached_len()
    }

    /// Makes sure `path` (normalized, an empty path being the root) and its
    /// ancestors are directories.
    pub fn add_dir(&mut self, path: &str) -> (r: Result<(), FsError>)
        requires
            old(self).wf(),
        ensures
            final(self).wf(),
            final(self).slots() == old(self).slots(),
            forall|i: usize| i < old(self).slots() ==> #[trigger] final(self).contents(i) == old(self).contents(i),
            (r, final(self).model()) == ensure_dir_outcome(
                old(self).model(),
                spec_normalize(path@, true, false)->Ok_0,
            ),
    {
        let segs = normalize_path(path, true, false)?;
        self.add_dir_segments(&segs)
    }

    fn add_dir_segments(&mut self, segs: &Vec<String>) -> (r: Result<(), FsError>)
        requires
            old(self).wf(),
            valid_segments(seg_views(segs@)),
        ensures
            final(self).wf(),
            final(self).cached().len() == 0,
            final(self).cache_max() == old(self).cache_max(),
            final(self).slots() == old(self).slots(),
            forall|i: usize| i < old(self).slots() ==> #[trigger] final(self).contents(i) == old(self).contents(i),
            (r, final(self).model()) == ensure_dir_outcome(old(self).model(), seg_views(segs@)),
    {
        let ghost m = self.model();
        let r = self.tree.ensure_dir(segs);
        proof {
            let s = seg_views(segs@);
            if r is Ok {
                assert(self.model() == with_dirs(m, s));
                assert(ensure_dir_outcome(m, s) == (Ok::<(), FsError>(()), with_dirs(m, s)));
                let u = r->Ok_0;
                assert(u == ());
                assert(r == Ok::<(), FsError>(()));
                assert((r, self.model()) == ensure_dir_outcome(m, s));
            } else {
                assert(ensure_dir_outcome(m, s) == (Err::<(), FsError>(FsError::InvalidData), m));
                assert((r, self.model()) == ensure_dir_outcome(m, s));
            }
            assert forall|p: Seq<Seq<char>>| #[trigger] self.model().contains_key(p) implies match self.model()[p] {
                NodeKind::File { slot, len } => slot < self.files@.len() && buffer_bytes(self.files@[slot as int]).len() == len,
                NodeKind::Dir => true,
            } by {
                if r is Ok && !m.contains_key(p) {
                    assert(self.model()[p] == NodeKind::Dir);
                } else {
                    assert(m.contains_key(p));
                }
            }
        }
        r
    }

    /// Adds a file holding `bytes` at `path` (normalized), after making sure
    /// its ancestors are directories. A file already there is replaced.
    pub fn add_file(&mut self, path: &str, bytes: Vec<u8>) -> (r: Result<(), FsError>)
        requires
            old(self).wf(),
        ensures
            final(self).wf(),
            forall|i: usize| i < old(self).slots() ==> #[trigger] final(self).contents(i) == old(self).contents(i),
            match spec_normalize(path@, false, false) {
                Err(e) => r == Err::<(), FsError>(e) && final(self).model() == old(self).model(),
                Ok(s) => {
                    let k = NodeKind::File { slot: old(self).slots() as usize, len: bytes@.len() as u64 };
                    &&& (r, final(self).model()) == add_file_outcome(old(self).model(), s, k)
                    &&& r is Ok ==> final(self).contents(old(self).slots() as usize) == bytes@
                }
            },
    {
        let segs = normalize_path(path, false, false)?;
        self.add_file_segments(&segs, bytes)
    }

    fn add_file_segments(&mut self, segs: &Vec<String>, bytes: Vec<u8>) -> (r: Result<(), FsError>)
        requires
            old(self).wf(),
            valid_segments(seg_views(segs@)),
        ensures
            final(self).wf(),
            final(self).cached().len() == 0,
            final(self).cache_max() == old(self).cache_max(),
            forall|i: usize| i < old(self).slots() ==> #[trigger] final(self).contents(i) == old(self).contents(i),
            ({
                let k = NodeKind::File { slot: old(self).slots() as usize, len: bytes@.len() as u64 };
                &&& (r, final(self).model()) == add_file_outcome(old(self).model(), seg_views(segs@), k)
                &&& r is Ok ==> final(self).slots() == old(self).slots() + 1 && final(self).contents(
                    old(self).slots() as usize,
                ) == bytes@
                &&& r is Err ==> final(self).slots() == old(self).slots()
            }),
    {
        let ghost m = self.model();
        let slot = self.files.len();
        let len = bytes.len() as u64;
        let r = self.tree.add_file(segs, slot, len);
        if r.is_err() {
            proof {
                assert forall|p: Seq<Seq<char>>| #[trigger] self.model().contains_key(p) implies match self.model()[p] {
                    NodeKind::File { slot, len } => slot < self.files@.len() && buffer_bytes(self.files@[slot as int]).len() == len,
                    NodeKind::Dir => true,
                } by {
                    if !m.contains_key(p) {
                        assert(self.model()[p] == NodeKind::Dir);
                    }
                }
            }
            return r;
        }
        let ghost before = self.files@;
        let buf = buffer_from_vec(bytes);
        self.files.push(buf);
        proof {
            let s = seg_views(segs@);
            assert forall|p: Seq<Seq<char>>| #[trigger] self.model().contains_key(p) implies match self.model()[p] {
                NodeKind::File { slot, len } => slot < self.files@.len() && buffer_bytes(self.files@[slot as int]).len() == len,
                NodeKind::Dir => true,
            } by {
                if p == s {
                } else if !m.contains_key(p) {
                    assert(self.model()[p] == NodeKind::Dir);
                } else {
                    assert(self.model()[p] == m[p]);
                    match m[p] {
                        NodeKind::File { slot, len } => {
                            assert(self.files@[slot as int] == before[slot as int]);
                        },
                        NodeKind::Dir => {},
                    }
                }
            }
            assert forall|i: usize| i < before.len() implies #[trigger] self.files@[i as int] == before[i as int] by {}
        }
        r
    }

    /// Indexes one archive entry by its (raw) name: the name is normalized,
    /// backslashes counting as separators, and the root is skipped. A
    /// directory is added with its ancestors, a file with its contents, and any
    /// other entry is skipped.
    pub fn add_entry(&mut self, name: &str, kind: ArchiveEntryKind, bytes: Vec<u8>) -> (r: Result<(), FsError>)
        requires
            old(self).wf(),
        ensures
            final(self).wf(),
            forall|i: usize| i < old(self).slots() ==> #[trigger] final(self).contents(i) == old(self).contents(i),
            final(self).cache_max() == old(self).cache_max(),
            final(self).cached().len() == 0 || final(self).cached() == old(self).cached(),
            ({
                let s = spec_normalize(name@, true, true)->Ok_0;
                let k = NodeKind::File { slot: old(self).slots() as usize, len: bytes@.len() as u64 };
                if s.len() == 0 || kind == ArchiveEntryKind::Other {
                    r == Ok::<(), FsError>(()) && final(self).model() == old(self).model()
                        && final(self).slots() == old(self).slots()
                } else if kind == ArchiveEntryKind::Directory {
                    (r, final(self).model()) == ensure_dir_outcome(old(self).model(), s)
                        && final(self).slots() == old(self).slots()
                } else {
                    &&& (r, final(self).model()) == add_file_outcome(old(self).model(), s, k)
                    &&& r is Ok ==> final(self).slots() == old(self).slots() + 1
                        && final(self).contents(old(self).slots() as usize) == bytes@
                    &&& r is Err ==> final(self).slots() == old(self).slots()
                }
            }),
    {
        let segs = normalize_path(name, true, true)?;
        if segs.len() == 0 {
            return Ok(());
        }
        match kind {
            ArchiveEntryKind::Directory => self.add_dir_segments(&segs),
            ArchiveEntryKind::File => self.add_file_segments(&segs, bytes),
            ArchiveEntryKind::Other => Ok(()),
        }
    }

    /// Symbolic links are not supported.
    pub fn readlink(&self, path: &str) -> (r: Result<String, FsError>)
        ensures
            r == Err::<String, FsError>(FsError::InvalidInput),
    {
        Err(FsError::InvalidInput)
    }

    /// The metadata of what `path` names.
    pub fn metadata(&mut self, path: &str) -> (r: Result<Metadata, FsError>)
        requires
            old(self).wf(),
        ensures
            final(self).wf(),
            final(self).model() == old(self).model(),
            final(self).slots() == old(self).slots(),
            forall|i: usize| i < old(self).slots() ==> #[trigger] final(self).contents(i) == old(self).contents(i),
            final(self).cache_max() == old(self).cache_max(),
            final(self).cached() == cached_after_lookup(old(self).model(), old(self).cached(), old(self).cache_max(), path@),
            r == spec_metadata(old(self).model(), path@),
    {
        let r = self.tree.metadata(path);
        proof { self.lemma_same_files(old(self)); }
        r
    }

    /// The metadata of what `path` names (archives hold no symbolic links).
    pub fn symlink_metadata(&mut self, path: &str) -> (r: Result<Metadata, FsError>)
        requires
            old(self).wf(),
        ensures
            final(self).cached() == cached_after_lookup(old(self).model(), old(self).cached(), old(self).cache_max(), path@),
            final(self).cache_max() == old(self).cache_max(),
            final(self).wf(),
            final(self).model() == old(self).model(),
            final(self).slots() == old(self).slots(),
            forall|i: usize| i < old(self).slots() ==> #[trigger] final(self).contents(i) == old(self).contents(i),
            r == spec_metadata(old(self).model(), path@),
    {
        self.metadata(path)
    }

    /// Lists directory `path`: its children, sorted by name.
    pub fn read_dir(&mut self, path: &str) -> (r: Result<Vec<DirEntry>, FsError>)
        requires
            old(self).wf(),
        ensures
            final(self).cached() == cached_after_lookup(old(self).model(), old(self).cached(), old(self).cache_max(), path@),
            final(self).cache_max() == old(self).cache_max(),
            final(self).wf(),
            final(self).model() == old(self).model(),
            final(self).slots() == old(self).slots(),
            forall|i: usize| i < old(self).slots() ==> #[trigger] final(self).contents(i) == old(self).contents(i),
            match r {
                Ok(v) => spec_read_dir_error(old(self).model(), path@) is None && is_listing(
                    old(self).model(),
                    spec_normalize(path@, false, false)->Ok_0,
                    v@,
                ),
                Err(e) => spec_read_dir_error(old(self).model(), path@) == Some(e),
            },
    {
        let r = self.tree.read_dir(path);
        proof { self.lemma_same_files(old(self)); }
        r
    }

    /// Archives are read-only: creating a directory always fails.
    pub fn create_dir(&mut self, path: &str) -> (r: Result<(), FsError>)
        requires
            old(self).wf(),
        ensures
            final(self).cached() == cached_after_create_dir(old(self).model(), old(self).cached(), old(self).cache_max(), path@),
            final(self).cache_max() == old(self).cache_max(),
            final(self).wf(),
            final(self).model() == old(self).model(),
            final(self).slots() == old(self).slots(),
            forall|i: usize| i < old(self).slots() ==> #[trigger] final(self).contents(i) == old(self).contents(i),
            r == Err::<(), FsError>(spec_create_dir(old(self).model(), path@)),
    {
        let r = self.tree.create_dir(path);
        proof { self.lemma_same_files(old(self)); }
        r
    }

    /// Archives are read-only: removing a directory always fails.
    pub fn remove_dir(&mut self, path: &str) -> (r: Result<(), FsError>)
        requires
            old(self).wf(),
        ensures
            final(self).cached() == cached_after_lookup(old(self).model(), old(self).cached(), old(self).cache_max(), path@),
            final(self).cache_max() == old(self).cache_max(),
            final(self).wf(),
            final(self).model() == old(self).model(),
            final(self).slots() == old(self).slots(),
            forall|i: usize| i < old(self).slots() ==> #[trigger] final(self).contents(i) == old(self).contents(i),
            r == Err::<(), FsError>(spec_remove_dir(old(self).model(), path@)),
    {
        let r = self.tree.remove_dir(path);
        proof { self.lemma_same_files(old(self)); }
        r
    }

    /// Archives are read-only: renaming always fails.
    pub fn rename(&mut self, from: &str, to: &str) -> (r: Result<(), FsError>)
        requires
            old(self).wf(),
        ensures
            final(self).cached() == cached_after_rename(old(self).model(), old(self).cached(), old(self).cache_max(), from@, to@),
            final(self).cache_max() == old(self).cache_max(),
            final(self).wf(),
            final(self).model() == old(self).model(),
            final(self).slots() == old(self).slots(),
            forall|i: usize| i < old(self).slots() ==> #[trigger] final(self).contents(i) == old(self).contents(i),
            r == Err::<(), FsError>(spec_rename(old(self).model(), from@, to@)),
    {
        let r = self.tree.rename(from, to);
        proof { self.lemma_same_files(old(self)); }
        r
    }

    /// Archives are read-only: removing a file always fails.
    pub fn remove_file(&mut self, path: &str) -> (r: Result<(), FsError>)
        requires
            old(self).wf(),
        ensures
            final(self).cached() == cached_after_lookup(old(self).model(), old(self).cached(), old(self).cache_max(), path@),
            final(self).cache_max() == old(self).cache_max(),
            final(self).wf(),
            final(self).model() == old(self).model(),
            final(self).slots() == old(self).slots(),
            forall|i: usize| i < old(self).slots() ==> #[trigger] final(self).contents(i) == old(self).contents(i),
            r == Err::<(), FsError>(spec_remove_file(old(self).model(), path@)),
    {
        let r = self.tree.remove_file(path);
        proof { self.lemma_same_files(old(self)); }
        r
    }

    /// Mounting another file system inside an archive is not supported.
    pub fn mount(&self, name: String, path: &str) -> (r: Result<(), FsError>)
        ensures
            r == Err::<(), FsError>(FsError::Unsupported),
    {
        Err(FsError::Unsupported)
    }

    /// Opens the file at `path`: its contents are shared, not copied.
    pub fn open(&mut self, path: &str, conf: &OpenOptionsConfig) -> (r: Result<OwnedBuffer, FsError>)
        requires
            old(self).wf(),
        ensures
            final(self).wf(),
            final(self).model() == old(self).model(),
            final(self).slots() == old(self).slots(),
            forall|i: usize| i < old(self).slots() ==> #[trigger] final(self).contents(i) == old(self).contents(i),
            final(self).cache_max() == old(self).cache_max(),
            final(self).cached() == cached_after_open(
                old(self).model(),
                old(self).cached(),
                old(self).cache_max(),
                path@,
                *conf,
            ),
            match r {
                Ok(b) => match spec_open(old(self).model(), path@, *conf) {
                    Ok(NodeKind::File { slot, len }) => slot < old(self).slots() && buffer_bytes(b) == old(self).contents(slot)
                        && buffer_bytes(b).len() == len,
                    _ => false,
                },
                Err(e) => spec_open(old(self).model(), path@, *conf) == Err::<NodeKind, FsError>(e),
            },
    {
        let k = self.tree.open_node(path, conf);
        proof { self.lemma_same_files(old(self)); }
        match k {
            Ok(NodeKind::File { slot, len }) => {
                proof {
                    let s = spec_normalize(path@, false, false)->Ok_0;
                    assert(self.model().contains_key(s));
                }
                Ok(buffer_clone(&self.files[slot]))
            },
            Ok(NodeKind::Dir) => Err(FsError::NotAFile),
            Err(e) => Err(e),
        }
    }

    /// Every indexed file system has a root directory, valid paths, and a
    /// directory as the parent of every path; every file has a slot holding
    /// exactly its length in bytes.
    pub proof fn law_indexed_shape(&self)
        requires
            self.wf(),
        ensures
            crate::index::index_shape(self.model()),
            forall|p: Seq<Seq<char>>| #[trigger] self.model().contains_key(p) && self.model()[p] is File
                ==> self.model()[p]->slot < self.slots() && self.contents(self.model()[p]->slot).len() == self.model()[p]->len,
    {
        self.tree.law_tree_shape();
        assert forall|p: Seq<Seq<char>>| #[trigger] self.model().contains_key(p) && self.model()[p] is File
            implies self.model()[p]->slot < self.slots() && self.contents(self.model()[p]->slot).len() == self.model()[p]->len by {
            match self.model()[p] {
                NodeKind::File { slot, len } => {},
                NodeKind::Dir => {},
            }
        }
    }

    proof fn lemma_same_files(&self, old: &Self)
        requires
            old.wf(),
            self.tree.wf(),
            self.files == old.files,
            self.model() == old.model(),
        ensures
            self.wf(),
            self.slots() == old.slots(),
            forall|i: usize| i < old.slots() ==> #[trigger] self.contents(i) == old.contents(i),
    {
    }
}

/// A file that was added can be opened (for reading) at the same path, and
/// opening reaches exactly the added file.
pub proof fn law_open_after_add_file(
    m: Map<Seq<Seq<char>>, NodeKind>,
    path: Seq<char>,
    k: NodeKind,
    conf: OpenOptionsConfig,
)
    requires
        crate::index::index_shape(m),
        k is File,
        spec_normalize(path, false, false) is Ok,
        add_file_outcome(m, spec_normalize(path, false, false)->Ok_0, k).0 is Ok,
        !conf.spec_mutates(),
    ensures
        spec_open(add_file_outcome(m, spec_normalize(path, false, false)->Ok_0, k).1, path, conf)
            == Ok::<NodeKind, FsError>(k),
        spec_metadata(add_file_outcome(m, spec_normalize(path, false, false)->Ok_0, k).1, path)
            == Ok::<Metadata, FsError>(crate::fs_types::node_metadata(k)),
{
    let s = spec_normalize(path, false, false)->Ok_0;
    crate::index::lemma_with_dirs_has_path(m, s.drop_last());
    assert(s.drop_last() != s);
}

/// Ensuring a directory makes the path and all its ancestors directories.
pub proof fn law_ensure_dir_makes_directories(m: Map<Seq<Seq<char>>, NodeKind>, s: Seq<Seq<char>>, i: int)
    requires
        crate::index::index_shape(m),
        ensure_dir_outcome(m, s).0 is Ok,
        0 <= i <= s.len(),
    ensures
        ensure_dir_outcome(m, s).1.contains_key(s.take(i)),
        ensure_dir_outcome(m, s).1[s.take(i)] == NodeKind::Dir,
{
    let m2 = ensure_dir_outcome(m, s).1;
    assert(crate::index::prefix_dirs(s, s.len() as int).contains_key(s.take(i)));
    if m.contains_key(s.take(i)) && i > 0 {
        assert(!(m[s.take(i)] is File));
    }
    if i == 0 {
        assert(s.take(0) =~= Seq::<Seq<char>>::empty());
    }
}

/// An archive file system never opens a file for creating, appending or
/// truncating.
pub proof fn law_open_refuses_mutation(m: Map<Seq<Seq<char>>, NodeKind>, path: Seq<char>, conf: OpenOptionsConfig)
    requires
        conf.spec_mutates(),
    ensures
        spec_open(m, path, conf) is Err,
{
}

} // verus!
