use vstd::prelude::*;
use shared_buffer::OwnedBuffer;
use crate::buffer::buffer_bytes;
use crate::error::{spec_fs_error_from_io_kind, FsError, IoErrorKind};
use crate::fs_types::{DirEntry, Metadata, OpenOptionsConfig};
use crate::index::NodeKind;
use crate::indexed::{
    answers_7z_failure, entries_view, index_entries, sevenz_listing, tar_gz_listing, tar_listing, ArchiveEntry, ArchiveEntryKind,
    IndexedArchiveFileSystem,
};
use crate::path::{file_name, is_separator, last_named_piece, lemma_split_nonempty, normalize_path, spec_file_name, spec_normalize, split_pieces};
use crate::tree::{
    cached_after_create_dir, cached_after_lookup, cached_after_open, cached_after_rename, is_listing, spec_create_dir, spec_metadata, spec_open, spec_read_dir_error, spec_remove_dir,
    spec_remove_file, spec_rename,
};
use crate::zipfs::{answers_failure, zip_directory, zip_tree, ZipArchiveFileSystem, ZipTreeError};

verus! {

/// The archive formats a file system can be read from.
#[derive(Clone, Copy, Debug, PartialEq, Eq, Structural)]
pub enum ArchiveFormat {
    Zip,
    Tar,
    TarGz,
    TarXz,
    SevenZ,
    Rar,
}

/// `c` with an ASCII capital letter made lower case.
pub open spec fn ascii_lower(c: char) -> char {
    if 65 <= (c as u32) <= 90 {
        ((c as u32) + 32) as char
    } else {
        c
    }
}

/// Whether `name` ends with `suffix` (written in lower case), ASCII letters
/// compared regardless of case.
pub open spec fn ends_with_ci(name: Seq<char>, suffix: Seq<char>) -> bool {
    &&& suffix.len() <= name.len()
    &&& forall|i: int| 0 <= i < suffix.len() ==> ascii_lower(#[trigger] name[name.len() - suffix.len() + i]) == suffix[i]
}

/// The format a file name's suffix names, the longer suffixes first.
pub open spec fn format_of_name(n: Seq<char>) -> Option<ArchiveFormat> {
    if ends_with_ci(n, ".tar.gz"@) || ends_with_ci(n, ".tgz"@) {
        Some(ArchiveFormat::TarGz)
    } else if ends_with_ci(n, ".tar.xz"@) || ends_with_ci(n, ".txz"@) {
        Some(ArchiveFormat::TarXz)
    } else if ends_with_ci(n, ".7z"@) {
        Some(ArchiveFormat::SevenZ)
    } else if ends_with_ci(n, ".rar"@) {
        Some(ArchiveFormat::Rar)
    } else if ends_with_ci(n, ".tar"@) {
        Some(ArchiveFormat::Tar)
    } else if ends_with_ci(n, ".zip"@) || ends_with_ci(n, ".jar"@) || ends_with_ci(n, ".whl"@) || ends_with_ci(
        n,
        ".apk"@,
    ) {
        Some(ArchiveFormat::Zip)
    } else {
        None
    }
}

/// The format a path names by the suffix of its file name; a path without a
/// file name names none.
pub open spec fn spec_archive_format(path: Seq<char>) -> Option<ArchiveFormat> {
    match spec_file_name(path) {
        Some(n) => format_of_name(n),
        None => None,
    }
}

/// Two strings that are equal once ASCII letters are made lower case.
pub open spec fn same_ignoring_ascii_case(a: Seq<char>, b: Seq<char>) -> bool {
    &&& a.len() == b.len()
    &&& forall|i: int| 0 <= i < a.len() ==> ascii_lower(#[trigger] a[i]) == ascii_lower(b[i])
}

/// Making a character lower case keeps `/` and `.` apart from every other
/// character.
proof fn lemma_lower_keeps_punctuation(c: char, d: char)
    requires
        ascii_lower(c) == ascii_lower(d),
    ensures
        c == '/' <==> d == '/',
        c == '.' <==> d == '.',
{
}

/// Suffix tests ignore ASCII case.
proof fn lemma_ends_with_ci_case(a: Seq<char>, b: Seq<char>, suffix: Seq<char>)
    requires
        same_ignoring_ascii_case(a, b),
    ensures
        ends_with_ci(a, suffix) == ends_with_ci(b, suffix),
{
    if suffix.len() <= a.len() {
        assert forall|i: int| 0 <= i < suffix.len() implies ascii_lower(#[trigger] a[a.len() - suffix.len() + i])
            == ascii_lower(b[b.len() - suffix.len() + i]) by {
            let k = a.len() - suffix.len() + i;
            assert(ascii_lower(a[k]) == ascii_lower(b[k]));
        }
        if ends_with_ci(a, suffix) {
            assert forall|i: int| 0 <= i < suffix.len() implies ascii_lower(#[trigger] b[b.len() - suffix.len() + i])
                == suffix[i] by {
                assert(ascii_lower(a[a.len() - suffix.len() + i]) == suffix[i]);
            }
        }
        if ends_with_ci(b, suffix) {
            assert forall|i: int| 0 <= i < suffix.len() implies ascii_lower(#[trigger] a[a.len() - suffix.len() + i])
                == suffix[i] by {
                assert(ascii_lower(b[b.len() - suffix.len() + i]) == suffix[i]);
            }
        }
    }
}

/// The format a file name names does not depend on the case of its ASCII
/// letters: `BACKUP.ZIP` names what `backup.zip` names.
pub proof fn law_format_of_name_ignores_case(a: Seq<char>, b: Seq<char>)
    requires
        same_ignoring_ascii_case(a, b),
    ensures
        format_of_name(a) == format_of_name(b),
{
    lemma_ends_with_ci_case(a, b, ".tar.gz"@);
    lemma_ends_with_ci_case(a, b, ".tgz"@);
    lemma_ends_with_ci_case(a, b, ".tar.xz"@);
    lemma_ends_with_ci_case(a, b, ".txz"@);
    lemma_ends_with_ci_case(a, b, ".7z"@);
    lemma_ends_with_ci_case(a, b, ".rar"@);
    lemma_ends_with_ci_case(a, b, ".tar"@);
    lemma_ends_with_ci_case(a, b, ".zip"@);
    lemma_ends_with_ci_case(a, b, ".jar"@);
    lemma_ends_with_ci_case(a, b, ".whl"@);
    lemma_ends_with_ci_case(a, b, ".apk"@);
}

/// Splitting two paths that differ only in the case of ASCII letters gives
/// pieces that differ only so.
proof fn lemma_split_pieces_case(a: Seq<char>, b: Seq<char>)
    requires
        same_ignoring_ascii_case(a, b),
    ensures
        split_pieces(a, false).len() == split_pieces(b, false).len(),
        forall|i: int| 0 <= i < split_pieces(a, false).len() ==> same_ignoring_ascii_case(
            #[trigger] split_pieces(a, false)[i],
            split_pieces(b, false)[i],
        ),
    decreases a.len(),
{
    if a.len() > 0 {
        let a0 = a.drop_last();
        let b0 = b.drop_last();
        assert(same_ignoring_ascii_case(a0, b0)) by {
            assert forall|i: int| 0 <= i < a0.len() implies ascii_lower(#[trigger] a0[i]) == ascii_lower(b0[i]) by {
                assert(ascii_lower(a[i]) == ascii_lower(b[i]));
            }
        }
        lemma_split_pieces_case(a0, b0);
        lemma_split_nonempty(a0, false);
        assert(a0 =~= a.drop_last() && b0 =~= b.drop_last());
        assert(ascii_lower(a[a.len() - 1]) == ascii_lower(b[b.len() - 1]));
        lemma_lower_keeps_punctuation(a.last(), b.last());
        let pa = split_pieces(a0, false);
        let pb = split_pieces(b0, false);
        if !is_separator(a.last(), false) {
            let la = pa.last().push(a.last());
            let lb = pb.last().push(b.last());
            assert(same_ignoring_ascii_case(pa[pa.len() - 1], pb[pb.len() - 1]));
            assert(same_ignoring_ascii_case(la, lb)) by {
                assert forall|i: int| 0 <= i < la.len() implies ascii_lower(#[trigger] la[i]) == ascii_lower(lb[i]) by {
                    if i < la.len() - 1 {
                        assert(ascii_lower(pa.last()[i]) == ascii_lower(pb.last()[i]));
                    }
                }
            }
        }
    }
}

/// The last named piece of pieces that differ only in the case of ASCII
/// letters differs only so.
proof fn lemma_last_named_piece_case(pa: Seq<Seq<char>>, pb: Seq<Seq<char>>)
    requires
        pa.len() == pb.len(),
        forall|i: int| 0 <= i < pa.len() ==> same_ignoring_ascii_case(#[trigger] pa[i], pb[i]),
    ensures
        last_named_piece(pa) is Some == last_named_piece(pb) is Some,
        last_named_piece(pa) is Some ==> same_ignoring_ascii_case(last_named_piece(pa)->Some_0, last_named_piece(pb)->Some_0),
    decreases pa.len(),
{
    if pa.len() > 0 {
        let x = pa.last();
        let y = pb.last();
        assert(same_ignoring_ascii_case(x, y)) by {
            assert(same_ignoring_ascii_case(pa[pa.len() - 1], pb[pb.len() - 1]));
        }
        if x.len() == 1 {
            assert(ascii_lower(x[0]) == ascii_lower(y[0]));
            lemma_lower_keeps_punctuation(x[0], y[0]);
        }
        assert((x == seq!['.']) == (y == seq!['.'])) by {
            if x == seq!['.'] {
                assert(y =~= seq!['.']);
            }
            if y == seq!['.'] {
                assert(x =~= seq!['.']);
            }
        }
        lemma_last_named_piece_case(pa.drop_last(), pb.drop_last());
    }
}

/// The format a path names does not depend on the case of its ASCII
/// letters: `/downloads/BACKUP.ZIP` names what `/downloads/backup.zip` names.
pub proof fn law_archive_format_ignores_case(a: Seq<char>, b: Seq<char>)
    requires
        same_ignoring_ascii_case(a, b),
    ensures
        spec_archive_format(a) == spec_archive_format(b),
{
    lemma_split_pieces_case(a, b);
    lemma_last_named_piece_case(split_pieces(a, false), split_pieces(b, false));
    let na = last_named_piece(split_pieces(a, false));
    let nb = last_named_piece(split_pieces(b, false));
    if na is Some {
        let x = na->Some_0;
        let y = nb->Some_0;
        if x.len() == 2 {
            assert(ascii_lower(x[0]) == ascii_lower(y[0]));
            assert(ascii_lower(x[1]) == ascii_lower(y[1]));
            lemma_lower_keeps_punctuation(x[0], y[0]);
            lemma_lower_keeps_punctuation(x[1], y[1]);
        }
        assert((x == seq!['.', '.']) == (y == seq!['.', '.'])) by {
            if x == seq!['.', '.'] {
                assert(y =~= seq!['.', '.']);
            }
            if y == seq!['.', '.'] {
                assert(x =~= seq!['.', '.']);
            }
        }
        law_format_of_name_ignores_case(x, y);
    }
}

/// `c` with an ASCII capital letter made lower case.
fn lower_ascii_char(c: char) -> (r: char)
    ensures
        r == ascii_lower(c),
{
    let code = c as u32;
    if 65 <= code && code <= 90 {
        let small = (code + 32) as u8;
        small as char
    } else {
        c
    }
}

/// Whether `name` ends with `suffix`, ASCII letters compared regardless of
/// case (`suffix` is written in lower case).
fn ends_with_ignore_case(name: &str, suffix: &str) -> (r: bool)
    ensures
        r == ends_with_ci(name@, suffix@),
{
    let n = name.unicode_len();
    let m = suffix.unicode_len();
    if m > n {
        return false;
    }
    let start = n - m;
    let mut i: usize = 0;
    while i < m
        invariant
            n == name@.len(),
            m == suffix@.len(),
            m <= n,
            start == n - m,
            i <= m,
            forall|j: int| 0 <= j < i ==> ascii_lower(#[trigger] name@[n - m + j]) == suffix@[j],
        decreases m - i,
    {
        let a = lower_ascii_char(name.get_char(start + i));
        if a != suffix.get_char(i) {
            assert(ascii_lower(name@[n - m + i]) != suffix@[i as int]);
            return false;
        }
        i = i + 1;
    }
    true
}

impl ArchiveFormat {
    /// The format a path names by the suffix of its file name (ASCII letters
    /// in any case): `.tar.gz`/`.tgz`, `.tar.xz`/`.txz`, `.7z`, `.rar`,
    /// `.tar`, and `.zip`/`.jar`/`.whl`/`.apk`.
    pub fn from_path(path: &str) -> (r: Option<Self>)
        ensures
            r == spec_archive_format(path@),
    {
        let name = match file_name(path) {
            Some(n) => n,
            None => {
                return None;
            },
        };
        let n = name.as_str();
        if ends_with_ignore_case(n, ".tar.gz") || ends_with_ignore_case(n, ".tgz") {
            return Some(ArchiveFormat::TarGz);
        }
        if ends_with_ignore_case(n, ".tar.xz") || ends_with_ignore_case(n, ".txz") {
            return Some(ArchiveFormat::TarXz);
        }
        if ends_with_ignore_case(n, ".7z") {
            return Some(ArchiveFormat::SevenZ);
        }
        if ends_with_ignore_case(n, ".rar") {
            return Some(ArchiveFormat::Rar);
        }
        if ends_with_ignore_case(n, ".tar") {
            return Some(ArchiveFormat::Tar);
        }
        if ends_with_ignore_case(n, ".zip") || ends_with_ignore_case(n, ".jar") || ends_with_ignore_case(n, ".whl")
            || ends_with_ignore_case(n, ".apk") {
            return Some(ArchiveFormat::Zip);
        }
        None
    }

    /// Whether the format is a tar archive, compressed or not.
    pub open spec fn spec_is_tar(self) -> bool {
        self is Tar || self is TarGz || self is TarXz
    }
}

#[verifier::external_type_specification]
#[verifier::external_body]
pub struct ExLzmaError(lzma_rs::error::Error);

/// The bytes an xz stream decodes to, or `None` when `bytes` is not a valid xz
/// stream.
pub uninterp spec fn xz_decoded(bytes: Seq<u8>) -> Option<Seq<u8>>;

/// Whether four consecutive bytes of `s` are all `0xFF`.
pub open spec fn has_ff_run(s: Seq<u8>) -> bool {
    exists|i: int| 0 <= i && i + 4 <= s.len() && #[trigger] s[i] == 0xFFu8 && s[i + 1] == 0xFFu8 && s[i + 2] == 0xFFu8 && s[i + 3]
        == 0xFFu8
}

/// Whether four consecutive bytes of `s` are all `0xFF`.
pub fn contains_ff_run(s: &[u8]) -> (r: bool)
    ensures
        r == has_ff_run(s@),
{
    let n = s.len();
    let mut i: usize = 0;
    while n >= 4 && i <= n - 4
        invariant
            n == s@.len(),
            i <= n,
            forall|j: int| 0 <= j < i && j + 4 <= n ==> !(#[trigger] s@[j] == 0xFFu8 && s@[j + 1] == 0xFFu8 && s@[j + 2] == 0xFFu8
                && s@[j + 3] == 0xFFu8),
        decreases n - i,
    {
        if s[i] == 0xFF && s[i + 1] == 0xFF && s[i + 2] == 0xFF && s[i + 3] == 0xFF {
            assert(s@[i as int] == 0xFFu8);
            return true;
        }
        i = i + 1;
    }
    false
}

/// `lzma_rs::xz_decompress`: the decoded bytes of the xz stream, or the error
/// that decoding met. Which error is not stated. The decoder adds one to the
/// 32-bit backward size it reads, as four raw input bytes, from a stream
/// footer, without checking for overflow; an input without four consecutive
/// `0xFF` bytes can never hold the one value that overflows, so it is all
/// this item admits.
#[verifier::external_body]
fn unxz(bytes: &[u8]) -> (r: Result<Vec<u8>, lzma_rs::error::Error>)
    requires
        !has_ff_run(bytes@),
    ensures
        match r {
            Ok(v) => xz_decoded(bytes@) == Some(v@),
            Err(_) => xz_decoded(bytes@) is None,
        },
{
    let mut out = Vec::new();
    lzma_rs::xz_decompress(&mut std::io::BufReader::new(bytes), &mut out)?;
    Ok(out)
}

/// How a 7z error is told apart for the file system.
pub enum SevenZErrorClass {
    /// The archive names a file that is not there.
    FileNotFound,
    /// Reading failed, with an I/O error of this kind.
    Io(IoErrorKind),
    /// Anything else: the archive is not valid.
    Other,
}

/// The file system error a 7z error stands for.
pub fn map_7z_error(e: SevenZErrorClass) -> (r: FsError)
    ensures
        match e {
            SevenZErrorClass::FileNotFound => r == FsError::EntryNotFound,
            SevenZErrorClass::Io(k) => r == spec_fs_error_from_io_kind(k),
            SevenZErrorClass::Other => r == FsError::InvalidData,
        },
{
    match e {
        SevenZErrorClass::FileNotFound => FsError::EntryNotFound,
        SevenZErrorClass::Io(k) => FsError::from_io_kind(k),
        SevenZErrorClass::Other => FsError::InvalidData,
    }
}

/// The status codes of the RAR library.
#[derive(Clone, Copy, Debug, PartialEq, Eq, Structural)]
pub enum UnrarCode {
    Success,
    EndArchive,
    NoMemory,
    BadData,
    BadArchive,
    UnknownFormat,
    EOpen,
    ECreate,
    EClose,
    ERead,
    EWrite,
    SmallBuf,
    Unknown,
    MissingPassword,
    EReference,
    BadPassword,
}

/// The file system error a RAR error code stands for: a file that cannot be
/// opened is missing, memory exhaustion is a full storage, read, write, close
/// and create failures are I/O errors, anything else is invalid data.
pub fn map_unrar_error(code: UnrarCode) -> (r: FsError)
    ensures
        r == (match code {
            UnrarCode::EOpen => FsError::EntryNotFound,
            UnrarCode::NoMemory => FsError::StorageFull,
            UnrarCode::ERead | UnrarCode::EWrite | UnrarCode::EClose | UnrarCode::ECreate => FsError::IOError,
            _ => FsError::InvalidData,
        }),
{
    match code {
        UnrarCode::EOpen => FsError::EntryNotFound,
        UnrarCode::NoMemory => FsError::StorageFull,
        UnrarCode::ERead | UnrarCode::EWrite | UnrarCode::EClose | UnrarCode::ECreate => FsError::IOError,
        _ => FsError::InvalidData,
    }
}

/// `fs` is the file system over an indexed archive whose model is `m` and
/// whose files hold the contents in `c`, nothing cached as missing yet.
pub open spec fn archive_indexed_as(fs: ArchiveFileSystem, m: Map<Seq<Seq<char>>, NodeKind>, c: Seq<Seq<u8>>) -> bool {
    &&& fs.wf()
    &&& !fs.is_zip()
    &&& fs.model() == m
    &&& fs.cached().len() == 0
    &&& forall|i: usize| #[trigger] fs.file_bytes(i) == if i < c.len() {
        Some(c[i as int])
    } else {
        None::<Seq<u8>>
    }
}

/// What reading and indexing the entries of an archive answers, given the
/// entries read and whether reading stopped at a failure: an indexing error
/// first, then the error of the failure (one `read_error_ok` admits), else the
/// file system.
pub open spec fn archive_outcome(
    entries: Seq<(Seq<char>, ArchiveEntryKind, Seq<u8>)>,
    read_failed: bool,
    r: Result<ArchiveFileSystem, FsError>,
    read_error_ok: spec_fn(FsError) -> bool,
) -> bool {
    match index_entries(entries) {
        Err(e) => r matches Err(e2) && e2 == e,
        Ok((m, c)) => if read_failed {
            r matches Err(e) && read_error_ok(e)
        } else {
            r matches Ok(fs) && archive_indexed_as(fs, m, c)
        },
    }
}

/// What opening a tar archive of `format` held in `bytes` answers (see
/// `ArchiveFileSystem::from_tar_bytes`).
pub open spec fn tar_outcome(format: ArchiveFormat, bytes: Seq<u8>, r: Result<ArchiveFileSystem, FsError>) -> bool {
    match format {
        ArchiveFormat::TarGz => archive_outcome(tar_gz_listing(bytes).0, tar_gz_listing(bytes).1, r, |e: FsError| exists|k: IoErrorKind| e == spec_fs_error_from_io_kind(k)),
        ArchiveFormat::TarXz => if has_ff_run(bytes) {
            r matches Err(e) && e == FsError::Unsupported
        } else {
            match xz_decoded(bytes) {
                None => r matches Err(e) && e == FsError::InvalidData,
                Some(d) => archive_outcome(tar_listing(d).0, tar_listing(d).1, r, |e: FsError| exists|k: IoErrorKind| e == spec_fs_error_from_io_kind(k)),
            }
        },
        _ => archive_outcome(tar_listing(bytes).0, tar_listing(bytes).1, r, |e: FsError| exists|k: IoErrorKind| e == spec_fs_error_from_io_kind(k)),
    }
}

/// What opening a 7z archive held in `bytes` answers (see
/// `ArchiveFileSystem::from_7z_bytes`).
pub open spec fn sevenz_outcome(bytes: Seq<u8>, r: Result<ArchiveFileSystem, FsError>) -> bool {
    archive_outcome(
        sevenz_listing(bytes).0,
        sevenz_listing(bytes).1 is Some,
        r,
        |e: FsError| answers_7z_failure(sevenz_listing(bytes).1->Some_0, e),
    )
}

/// What opening a ZIP archive held in `bytes` answers (see
/// `ArchiveFileSystem::from_zip_bytes`).
pub open spec fn zip_outcome(bytes: Seq<u8>, r: Result<ArchiveFileSystem, FsError>) -> bool {
    match r {
        Ok(fs) => fs.wf() && fs.is_zip() && fs.cached().len() == 0 && match zip_directory(bytes) {
            Ok(l) => zip_tree(l, l.len() as int) == Ok::<Map<Seq<Seq<char>>, NodeKind>, ZipTreeError>(fs.model()),
            Err(_) => false,
        },
        Err(e) => match zip_directory(bytes) {
            Err(f) => answers_failure(f, e),
            Ok(l) => match zip_tree(l, l.len() as int) {
                Ok(_) => false,
                Err(ZipTreeError::Conflict) => e == FsError::InvalidData,
                Err(ZipTreeError::Unreadable(f)) => answers_failure(f, e),
            },
        },
    }
}

/// What opening an archive of `format` held in `bytes` answers; RAR archives
/// are read by path and have no outcome here.
pub open spec fn format_outcome(format: ArchiveFormat, bytes: Seq<u8>, r: Result<ArchiveFileSystem, FsError>) -> bool {
    match format {
        ArchiveFormat::Zip => zip_outcome(bytes, r),
        ArchiveFormat::SevenZ => sevenz_outcome(bytes, r),
        ArchiveFormat::Rar => false,
        _ => tar_outcome(format, bytes, r),
    }
}

/// What a step of the walk over a RAR archive does with an entry.
#[derive(Clone, Copy, Debug, PartialEq, Eq, Structural)]
pub enum RarStep {
    /// Pass over the entry: its name stands for the root.
    Skip,
    /// Record a directory and pass over its data.
    AddDir,
    /// Read the file's data and record it.
    ReadFile,
}

/// The step taken on a RAR entry with raw name `name`.
pub open spec fn spec_rar_step(name: Seq<char>, is_directory: bool) -> RarStep {
    if spec_normalize(name, true, true)->Ok_0.len() == 0 {
        RarStep::Skip
    } else if is_directory {
        RarStep::AddDir
    } else {
        RarStep::ReadFile
    }
}

/// Decides what the walk over a RAR archive does with the entry it reached:
/// an entry whose name normalizes to the root is passed over, a directory is
/// recorded without reading, and a file is read.
pub fn rar_step(name: &str, is_directory: bool) -> (r: RarStep)
    ensures
        r == spec_rar_step(name@, is_directory),
{
    let root = match normalize_path(name, true, true) {
        Ok(segs) => segs.len() == 0,
        Err(_) => true,
    };
    if root {
        RarStep::Skip
    } else if is_directory {
        RarStep::AddDir
    } else {
        RarStep::ReadFile
    }
}

impl ArchiveFormat {
    /// The format a path names, or `InvalidInput` when its file name has none
    /// of the known suffixes.
    pub fn of_path(path: &str) -> (r: Result<Self, FsError>)
        ensures
            match spec_archive_format(path@) {
                Some(f) => r == Ok::<ArchiveFormat, FsError>(f),
                None => r == Err::<ArchiveFormat, FsError>(FsError::InvalidInput),
            },
    {
        match Self::from_path(path) {
            Some(f) => Ok(f),
            None => Err(FsError::InvalidInput),
        }
    }
}

/// The file system behind an archive.
enum ArchiveBackend {
    Zip(ZipArchiveFileSystem),
    Indexed(IndexedArchiveFileSystem),
}

/// A read-only file system over the contents of an archive of any of the
/// supported formats.
pub struct ArchiveFileSystem {
    inner: ArchiveBackend,
}

impl ArchiveFileSystem {
    /// What each path names.
    pub closed spec fn model(&self) -> Map<Seq<Seq<char>>, NodeKind> {
        match self.inner {
            ArchiveBackend::Zip(fs) => fs.model(),
            ArchiveBackend::Indexed(fs) => fs.model(),
        }
    }

    /// The contents of the file stored under `slot` (a ZIP entry index, or the
    /// slot of an indexed archive), or `None` when they cannot be read.
    pub closed spec fn file_bytes(&self, slot: usize) -> Option<Seq<u8>> {
        match self.inner {
            ArchiveBackend::Zip(fs) => fs.entry_data(slot),
            ArchiveBackend::Indexed(fs) => if slot < fs.slots() {
                Some(fs.contents(slot))
            } else {
                None
            },
        }
    }

    /// The paths cached as missing, oldest first.
    pub closed spec fn cached(&self) -> Seq<Seq<Seq<char>>> {
        match self.inner {
            ArchiveBackend::Zip(fs) => fs.cached(),
            ArchiveBackend::Indexed(fs) => fs.cached(),
        }
    }

    /// The most paths cached as missing.
    pub closed spec fn cache_max(&self) -> nat {
        match self.inner {
            ArchiveBackend::Zip(fs) => fs.cache_max(),
            ArchiveBackend::Indexed(fs) => fs.cache_max(),
        }
    }

    /// Well formed: the backend is.
    pub closed spec fn wf(&self) -> bool {
        match self.inner {
            ArchiveBackend::Zip(fs) => fs.wf(),
            ArchiveBackend::Indexed(fs) => fs.wf(),
        }
    }

    /// Whether the archive is read through a ZIP backend.
    pub closed spec fn is_zip(&self) -> bool {
        self.inner is Zip
    }

    /// What the file system holds after a call that only reads it.
    pub open spec fn keeps(&self, other: &Self) -> bool {
        &&& self.wf()
        &&& self.model() == other.model()
        &&& self.is_zip() == other.is_zip()
        &&& forall|slot: usize| #[trigger] self.file_bytes(slot) == other.file_bytes(slot)
    }

    /// A file system over a ZIP archive held in memory (see
    /// `ZipArchiveFileSystem::new`).
    pub fn from_zip_bytes(bytes: Vec<u8>) -> (r: Result<Self, FsError>)
        ensures
            zip_outcome(bytes@, r),
    {
        let fs = ZipArchiveFileSystem::new(bytes)?;
        Ok(ArchiveFileSystem { inner: ArchiveBackend::Zip(fs) })
    }

    /// A file system indexing the entries read from a tar, 7z or RAR archive
    /// (see `IndexedArchiveFileSystem::from_entries`).
    pub fn from_entries(entries: Vec<ArchiveEntry>) -> (r: Result<Self, FsError>)
        ensures
            match index_entries(entries_view(entries@)) {
                Ok((m, c)) => match r {
                    Ok(fs) => {
                        &&& fs.wf()
                        &&& !fs.is_zip()
                        &&& fs.model() == m
                        &&& fs.cached().len() == 0
                        &&& forall|i: usize| #[trigger] fs.file_bytes(i) == if i < c.len() {
                            Some(c[i as int])
                        } else {
                            None::<Seq<u8>>
                        }
                    },
                    Err(_) => false,
                },
                Err(e) => r matches Err(e2) && e2 == e,
            },
    {
        let fs = IndexedArchiveFileSystem::from_entries(entries)?;
        Ok(ArchiveFileSystem { inner: ArchiveBackend::Indexed(fs) })
    }

    /// A file system over a tar archive (plain, gzip or xz compressed) held in
    /// memory. A gzip stream is decompressed while the entries are read (see
    /// `IndexedArchiveFileSystem::from_tar_gz_bytes`); an xz stream is decoded
    /// first, and one that does not decode fails with `InvalidData`; the
    /// entries of the tar stream are then read and indexed (see
    /// `IndexedArchiveFileSystem::from_tar_bytes`). An xz stream holding four
    /// consecutive `0xFF` bytes is refused as `Unsupported`: the xz decoder
    /// could overflow on it.
    pub fn from_tar_bytes(format: ArchiveFormat, bytes: Vec<u8>) -> (r: Result<Self, FsError>)
        requires
            format.spec_is_tar(),
        ensures
            tar_outcome(format, bytes@, r),
    {
        let fs = match format {
            ArchiveFormat::TarGz => IndexedArchiveFileSystem::from_tar_gz_bytes(bytes.as_slice())?,
            ArchiveFormat::TarXz => {
                if contains_ff_run(bytes.as_slice()) {
                    return Err(FsError::Unsupported);
                }
                let payload = match unxz(bytes.as_slice()) {
                    Ok(v) => v,
                    Err(_) => {
                        return Err(FsError::InvalidData);
                    },
                };
                IndexedArchiveFileSystem::from_tar_bytes(payload.as_slice())?
            },
            _ => IndexedArchiveFileSystem::from_tar_bytes(bytes.as_slice())?,
        };
        Ok(ArchiveFileSystem { inner: ArchiveBackend::Indexed(fs) })
    }

    /// A file system over a 7z archive held in memory (see
    /// `IndexedArchiveFileSystem::from_7z_bytes`).
    pub fn from_7z_bytes(bytes: Vec<u8>) -> (r: Result<Self, FsError>)
        ensures
            sevenz_outcome(bytes@, r),
    {
        let fs = IndexedArchiveFileSystem::from_7z_bytes(bytes)?;
        Ok(ArchiveFileSystem { inner: ArchiveBackend::Indexed(fs) })
    }

    /// A file system over an archive of `format` held in memory: a ZIP
    /// archive, a tar archive (plain, gzip or xz compressed) or a 7z archive.
    pub fn from_format_bytes(format: ArchiveFormat, bytes: Vec<u8>) -> (r: Result<Self, FsError>)
        requires
            format != ArchiveFormat::Rar,
        ensures
            format_outcome(format, bytes@, r),
    {
        match format {
            ArchiveFormat::Zip => Self::from_zip_bytes(bytes),
            ArchiveFormat::SevenZ => Self::from_7z_bytes(bytes),
            _ => Self::from_tar_bytes(format, bytes),
        }
    }

    /// A file system over the archive named `path` whose bytes are `bytes`,
    /// its format given by the suffix of the file name; a name with no known
    /// suffix is `InvalidInput`. RAR archives are read by path instead.
    pub fn from_named_bytes(path: &str, bytes: Vec<u8>) -> (r: Result<Self, FsError>)
        requires
            spec_archive_format(path@) != Some(ArchiveFormat::Rar),
        ensures
            match spec_archive_format(path@) {
                None => r == Err::<ArchiveFileSystem, FsError>(FsError::InvalidInput),
                Some(f) => format_outcome(f, bytes@, r),
            },
    {
        let format = ArchiveFormat::of_path(path)?;
        Self::from_format_bytes(format, bytes)
    }

    /// A file system over the entries read from an archive before reading
    /// stopped with `failure`, if it did: an indexing error among the entries
    /// read is answered first (it would have stopped reading earlier), then
    /// the failure, else the file system.
    pub fn from_read_entries(entries: Vec<ArchiveEntry>, failure: Option<FsError>) -> (r: Result<Self, FsError>)
        ensures
            match index_entries(entries_view(entries@)) {
                Err(e) => r matches Err(e2) && e2 == e,
                Ok((m, c)) => match failure {
                    Some(e) => r matches Err(e2) && e2 == e,
                    None => r matches Ok(fs) && archive_indexed_as(fs, m, c),
                },
            },
    {
        let fs = Self::from_entries(entries)?;
        match failure {
            Some(e) => Err(e),
            None => Ok(fs),
        }
    }

    /// Symbolic links are not supported.
    pub fn readlink(&self, path: &str) -> (r: Result<String, FsError>)
        ensures
            r == Err::<String, FsError>(FsError::InvalidInput),
    {
        match &self.inner {
            ArchiveBackend::Zip(fs) => fs.readlink(path),
            ArchiveBackend::Indexed(fs) => fs.readlink(path),
        }
    }

    /// The metadata of what `path` names.
    pub fn metadata(&mut self, path: &str) -> (r: Result<Metadata, FsError>)
        requires
            old(self).wf(),
        ensures
            final(self).cached() == cached_after_lookup(old(self).model(), old(self).cached(), old(self).cache_max(), path@),
            final(self).cache_max() == old(self).cache_max(),
            final(self).keeps(old(self)),
            r == spec_metadata(old(self).model(), path@),
    {
        match &mut self.inner {
            ArchiveBackend::Zip(fs) => fs.metadata(path),
            ArchiveBackend::Indexed(fs) => fs.metadata(path),
        }
    }

    /// The metadata of what `path` names (archives hold no symbolic links).
    pub fn symlink_metadata(&mut self, path: &str) -> (r: Result<Metadata, FsError>)
        requires
            old(self).wf(),
        ensures
            final(self).cached() == cached_after_lookup(old(self).model(), old(self).cached(), old(self).cache_max(), path@),
            final(self).cache_max() == old(self).cache_max(),
            final(self).keeps(old(self)),
            r == spec_metadata(old(self).model(), path@),
    {
        match &mut self.inner {
            ArchiveBackend::Zip(fs) => fs.symlink_metadata(path),
            ArchiveBackend::Indexed(fs) => fs.symlink_metadata(path),
        }
    }

    /// Lists directory `path`: its children, sorted by name.
    pub fn read_dir(&mut self, path: &str) -> (r: Result<Vec<DirEntry>, FsError>)
        requires
            old(self).wf(),
        ensures
            final(self).cached() == cached_after_lookup(old(self).model(), old(self).cached(), old(self).cache_max(), path@),
            final(self).cache_max() == old(self).cache_max(),
            final(self).keeps(old(self)),
            match r {
                Ok(v) => spec_read_dir_error(old(self).model(), path@) is None && is_listing(
                    old(self).model(),
                    spec_normalize(path@, false, false)->Ok_0,
                    v@,
                ),
                Err(e) => spec_read_dir_error(old(self).model(), path@) == Some(e),
            },
    {
        match &mut self.inner {
            ArchiveBackend::Zip(fs) => fs.read_dir(path),
            ArchiveBackend::Indexed(fs) => fs.read_dir(path),
        }
    }

    /// Archives are read-only: creating a directory always fails.
    pub fn create_dir(&mut self, path: &str) -> (r: Result<(), FsError>)
        requires
            old(self).wf(),
        ensures
            final(self).cached() == cached_after_create_dir(old(self).model(), old(self).cached(), old(self).cache_max(), path@),
            final(self).cache_max() == old(self).cache_max(),
            final(self).keeps(old(self)),
            r == Err::<(), FsError>(spec_create_dir(old(self).model(), path@)),
    {
        match &mut self.inner {
            ArchiveBackend::Zip(fs) => fs.create_dir(path),
            ArchiveBackend::Indexed(fs) => fs.create_dir(path),
        }
    }

    /// Archives are read-only: removing a directory always fails.
    pub fn remove_dir(&mut self, path: &str) -> (r: Result<(), FsError>)
        requires
            old(self).wf(),
        ensures
            final(self).cached() == cached_after_lookup(old(self).model(), old(self).cached(), old(self).cache_max(), path@),
            final(self).cache_max() == old(self).cache_max(),
            final(self).keeps(old(self)),
            r == Err::<(), FsError>(spec_remove_dir(old(self).model(), path@)),
    {
        match &mut self.inner {
            ArchiveBackend::Zip(fs) => fs.remove_dir(path),
            ArchiveBackend::Indexed(fs) => fs.remove_dir(path),
        }
    }

    /// Archives are read-only: renaming always fails.
    pub fn rename(&mut self, from: &str, to: &str) -> (r: Result<(), FsError>)
        requires
            old(self).wf(),
        ensures
            final(self).cached() == cached_after_rename(old(self).model(), old(self).cached(), old(self).cache_max(), from@, to@),
            final(self).cache_max() == old(self).cache_max(),
            final(self).keeps(old(self)),
            r == Err::<(), FsError>(spec_rename(old(self).model(), from@, to@)),
    {
        match &mut self.inner {
            ArchiveBackend::Zip(fs) => fs.rename(from, to),
            ArchiveBackend::Indexed(fs) => fs.rename(from, to),
        }
    }

    /// Archives are read-only: removing a file always fails.
    pub fn remove_file(&mut self, path: &str) -> (r: Result<(), FsError>)
        requires
            old(self).wf(),
        ensures
            final(self).cached() == cached_after_lookup(old(self).model(), old(self).cached(), old(self).cache_max(), path@),
            final(self).cache_max() == old(self).cache_max(),
            final(self).keeps(old(self)),
            r == Err::<(), FsError>(spec_remove_file(old(self).model(), path@)),
    {
        match &mut self.inner {
            ArchiveBackend::Zip(fs) => fs.remove_file(path),
            ArchiveBackend::Indexed(fs) => fs.remove_file(path),
        }
    }

    /// Mounting another file system inside an archive is not supported.
    pub fn mount(&self, name: String, path: &str) -> (r: Result<(), FsError>)
        ensures
            r == Err::<(), FsError>(FsError::Unsupported),
    {
        match &self.inner {
            ArchiveBackend::Zip(fs) => fs.mount(name, path),
            ArchiveBackend::Indexed(fs) => fs.mount(name, path),
        }
    }

    /// Opens the file at `path` for reading: its contents, or the error
    /// answered. Opening fails only as `spec_open` says, or when the file's
    /// stored contents cannot be read.
    pub fn open(&mut self, path: &str, conf: &OpenOptionsConfig) -> (r: Result<OwnedBuffer, FsError>)
        requires
            old(self).wf(),
        ensures
            final(self).cached() == cached_after_open(old(self).model(), old(self).cached(), old(self).cache_max(), path@, *conf),
            final(self).cache_max() == old(self).cache_max(),
            final(self).keeps(old(self)),
            match spec_open(old(self).model(), path@, *conf) {
                Err(e) => r == Err::<OwnedBuffer, FsError>(e),
                Ok(NodeKind::File { slot, len }) => match r {
                    Ok(b) => old(self).file_bytes(slot) == Some(buffer_bytes(b)),
                    Err(_) => old(self).file_bytes(slot) is None,
                },
                Ok(NodeKind::Dir) => false,
            },
    {
        match &mut self.inner {
            ArchiveBackend::Zip(fs) => fs.open(path, conf),
            ArchiveBackend::Indexed(fs) => fs.open(path, conf),
        }
    }
}

} // verus!
