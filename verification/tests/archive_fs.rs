use std::io::{Cursor, Write};

use flate2::{write::GzEncoder, Compression};
use virtual_fs::archive::{
    map_7z_error, map_unrar_error, rar_step, ArchiveFileSystem, ArchiveFormat, RarStep,
    SevenZErrorClass, UnrarCode,
};
use virtual_fs::error::{FsError, IoErrorKind};
use virtual_fs::fs_types::OpenOptionsConfig;
use virtual_fs::indexed::{ArchiveEntry, ArchiveEntryKind, IndexedArchiveFileSystem};
use virtual_fs::zipfs::ZipArchiveFileSystem;

fn read_only() -> OpenOptionsConfig {
    OpenOptionsConfig { read: true, write: false, create_new: false, create: false, append: false, truncate: false }
}

fn appending() -> OpenOptionsConfig {
    OpenOptionsConfig { read: false, write: false, create_new: false, create: false, append: true, truncate: false }
}

fn sample_tar_bytes() -> Vec<u8> {
    let mut buffer = Vec::new();
    {
        let mut builder = tar::Builder::new(&mut buffer);

        let mut root = tar::Header::new_gnu();
        root.set_entry_type(tar::EntryType::Directory);
        root.set_mode(0o755);
        root.set_size(0);
        root.set_cksum();
        builder.append_data(&mut root, "lib/", std::io::empty()).unwrap();

        let payload = b"x = 1\n";
        let mut file = tar::Header::new_gnu();
        file.set_entry_type(tar::EntryType::Regular);
        file.set_mode(0o644);
        file.set_size(payload.len() as u64);
        file.set_cksum();
        builder
            .append_data(&mut file, "lib/python/__init__.py", Cursor::new(payload.as_slice()))
            .unwrap();

        let payload = b"print('ok')\n";
        let mut file = tar::Header::new_gnu();
        file.set_entry_type(tar::EntryType::Regular);
        file.set_mode(0o644);
        file.set_size(payload.len() as u64);
        file.set_cksum();
        builder
            .append_data(&mut file, "site-packages/pkg/mod.py", Cursor::new(payload.as_slice()))
            .unwrap();

        builder.finish().unwrap();
    }
    buffer
}

fn sample_targz_bytes() -> Vec<u8> {
    let tar_bytes = sample_tar_bytes();
    let mut encoder = GzEncoder::new(Vec::new(), Compression::default());
    encoder.write_all(&tar_bytes).unwrap();
    encoder.finish().unwrap()
}

fn sample_tarxz_bytes() -> Vec<u8> {
    let tar_bytes = sample_tar_bytes();
    let mut input = std::io::BufReader::new(Cursor::new(tar_bytes));
    let mut output = Vec::new();
    lzma_rs::xz_compress(&mut input, &mut output).unwrap();
    output
}

fn sample_zip_bytes() -> Vec<u8> {
    let mut writer = zip::ZipWriter::new(Cursor::new(Vec::new()));
    let options = zip::write::SimpleFileOptions::default().compression_method(zip::CompressionMethod::Deflated);

    writer.add_directory("lib/", options).unwrap();
    writer.add_directory("lib/python/", options).unwrap();

    writer.start_file("lib/python/__init__.py", options).unwrap();
    writer.write_all(b"x = 1\n").unwrap();

    writer.start_file("site-packages/pkg/mod.py", options).unwrap();
    writer.write_all(b"print('ok')\n").unwrap();

    writer.finish().unwrap().into_inner()
}

fn archive_from(format: ArchiveFormat, bytes: Vec<u8>) -> ArchiveFileSystem {
    ArchiveFileSystem::from_tar_bytes(format, bytes).unwrap()
}

fn sample_7z_bytes() -> Vec<u8> {
    let mut writer = sevenz_rust2::ArchiveWriter::new(Cursor::new(Vec::new())).unwrap();
    writer.push_archive_entry::<&[u8]>(sevenz_rust2::ArchiveEntry::new_directory("lib"), None).unwrap();
    writer
        .push_archive_entry(sevenz_rust2::ArchiveEntry::new_file("lib/python/__init__.py"), Some(&b"x = 1\n"[..]))
        .unwrap();
    writer.finish().unwrap().into_inner()
}

fn contents(b: &shared_buffer::OwnedBuffer) -> String {
    String::from_utf8(b.to_vec()).unwrap()
}

fn read_dir_paths(fs: &mut ArchiveFileSystem, path: &str) -> Vec<String> {
    let mut entries: Vec<String> = fs.read_dir(path).unwrap().into_iter().map(|e| e.path).collect();
    entries.sort();
    entries
}

#[test]
fn detect_format_from_suffix() {
    assert_eq!(ArchiveFormat::from_path("/tmp/python3.zip"), Some(ArchiveFormat::Zip));
    assert_eq!(ArchiveFormat::from_path("/tmp/python3.tar"), Some(ArchiveFormat::Tar));
    assert_eq!(ArchiveFormat::from_path("/tmp/python3.tgz"), Some(ArchiveFormat::TarGz));
    assert_eq!(ArchiveFormat::from_path("/tmp/python3.tar.gz"), Some(ArchiveFormat::TarGz));
    assert_eq!(ArchiveFormat::from_path("/tmp/python3.txz"), Some(ArchiveFormat::TarXz));
    assert_eq!(ArchiveFormat::from_path("/tmp/python3.tar.xz"), Some(ArchiveFormat::TarXz));
    assert_eq!(ArchiveFormat::from_path("/tmp/python3.7z"), Some(ArchiveFormat::SevenZ));
    assert_eq!(ArchiveFormat::from_path("/tmp/python3.rar"), Some(ArchiveFormat::Rar));
    assert_eq!(ArchiveFormat::from_path("/tmp/python3.bin"), None);
}

#[test]
fn detect_format_ignores_case_and_needs_a_file_name() {
    assert_eq!(ArchiveFormat::from_path("/tmp/App.JAR"), Some(ArchiveFormat::Zip));
    assert_eq!(ArchiveFormat::from_path("pkg.Whl"), Some(ArchiveFormat::Zip));
    assert_eq!(ArchiveFormat::from_path("/data/app.apk"), Some(ArchiveFormat::Zip));
    assert_eq!(ArchiveFormat::from_path("/tmp/python3.TAR.GZ"), Some(ArchiveFormat::TarGz));
    assert_eq!(ArchiveFormat::from_path("/tmp/archive.zip/"), Some(ArchiveFormat::Zip));
    assert_eq!(ArchiveFormat::from_path("/tmp/archive.zip/.."), None);
    assert_eq!(ArchiveFormat::from_path("/"), None);
    assert_eq!(ArchiveFormat::from_path(""), None);
    assert_eq!(ArchiveFormat::from_path("/tmp/zip"), None);
}

#[test]
fn reads_targz_archive() {
    let mut fs = archive_from(ArchiveFormat::TarGz, sample_targz_bytes());

    assert!(fs.metadata("/lib/python").unwrap().is_dir());
    assert_eq!(read_dir_paths(&mut fs, "/"), vec!["/lib", "/site-packages"]);

    let file = fs.open("/lib/python/__init__.py", &read_only()).unwrap();
    assert_eq!(contents(&file), "x = 1\n");

    let err = fs.open("/lib/python/__init__.py", &appending()).unwrap_err();
    assert_eq!(err, FsError::PermissionDenied);
}

#[test]
fn reads_tarxz_archive() {
    let mut fs = archive_from(ArchiveFormat::TarXz, sample_tarxz_bytes());
    let file = fs.open("/site-packages/pkg/mod.py", &read_only()).unwrap();
    assert_eq!(contents(&file), "print('ok')\n");
}

#[test]
fn reads_plain_tar_archive() {
    let mut fs = archive_from(ArchiveFormat::Tar, sample_tar_bytes());
    let meta = fs.metadata("/site-packages/pkg/mod.py").unwrap();
    assert!(meta.is_file());
    assert_eq!(meta.len(), 12);
}

#[test]
fn tar_formats_read_the_same_entries() {
    for (format, bytes) in [
        (ArchiveFormat::Tar, sample_tar_bytes()),
        (ArchiveFormat::TarGz, sample_targz_bytes()),
        (ArchiveFormat::TarXz, sample_tarxz_bytes()),
    ] {
        let mut fs = archive_from(format, bytes);
        assert_eq!(read_dir_paths(&mut fs, "/"), vec!["/lib", "/site-packages"]);
        assert_eq!(fs.metadata("/lib/python/__init__.py").unwrap().len(), 6);
    }
}

#[test]
fn gzip_trailer_after_the_tar_end_is_not_read() {
    let mut bytes = sample_targz_bytes();
    let n = bytes.len();
    bytes[n - 1] ^= 0xff;
    let mut fs = archive_from(ArchiveFormat::TarGz, bytes);
    assert!(fs.metadata("/site-packages/pkg/mod.py").unwrap().is_file());
}

#[test]
fn caches_negative_lookups_and_reuses_owned_buffer() {
    let mut fs = IndexedArchiveFileSystem::from_tar_bytes(&sample_tar_bytes()).unwrap();

    let file = fs.open("/lib/python/__init__.py", &read_only()).unwrap();
    assert_eq!(contents(&file), "x = 1\n");

    let _ = fs.open("/lib/python/missing.py", &read_only());
    let _ = fs.open("/lib/python/missing.py", &read_only());
    assert_eq!(fs.negative_cache_size(), 1);
}

#[test]
fn indexed_entries_normalize_names_and_skip_others() {
    let entries = vec![
        ArchiveEntry { name: "./a\\b\\c.txt".to_string(), kind: ArchiveEntryKind::File, bytes: b"abc".to_vec() },
        ArchiveEntry { name: "../".to_string(), kind: ArchiveEntryKind::Directory, bytes: Vec::new() },
        ArchiveEntry { name: "link".to_string(), kind: ArchiveEntryKind::Other, bytes: Vec::new() },
        ArchiveEntry { name: "d/e/".to_string(), kind: ArchiveEntryKind::Directory, bytes: Vec::new() },
    ];
    let mut fs = IndexedArchiveFileSystem::from_entries(entries).unwrap();
    assert!(fs.metadata("/a/b").unwrap().is_dir());
    assert_eq!(fs.metadata("/a/b/c.txt").unwrap().len(), 3);
    assert_eq!(fs.metadata("/link"), Err(FsError::EntryNotFound));
    assert!(fs.metadata("/d/e").unwrap().is_dir());
    let file = fs.open("/a/b/c.txt", &read_only()).unwrap();
    assert_eq!(file.len(), 3);
}

#[test]
fn indexed_entries_refuse_conflicts() {
    let file_then_dir = vec![
        ArchiveEntry { name: "a".to_string(), kind: ArchiveEntryKind::File, bytes: b"1".to_vec() },
        ArchiveEntry { name: "a/b".to_string(), kind: ArchiveEntryKind::File, bytes: b"2".to_vec() },
    ];
    assert_eq!(IndexedArchiveFileSystem::from_entries(file_then_dir).err(), Some(FsError::InvalidData));
    let dir_then_file = vec![
        ArchiveEntry { name: "a/".to_string(), kind: ArchiveEntryKind::Directory, bytes: Vec::new() },
        ArchiveEntry { name: "a".to_string(), kind: ArchiveEntryKind::File, bytes: b"1".to_vec() },
    ];
    assert_eq!(IndexedArchiveFileSystem::from_entries(dir_then_file).err(), Some(FsError::InvalidData));
    let replaced = vec![
        ArchiveEntry { name: "a".to_string(), kind: ArchiveEntryKind::File, bytes: b"1".to_vec() },
        ArchiveEntry { name: "a".to_string(), kind: ArchiveEntryKind::File, bytes: b"22".to_vec() },
    ];
    let mut fs = IndexedArchiveFileSystem::from_entries(replaced).unwrap();
    assert_eq!(fs.metadata("/a").unwrap().len(), 2);
}

#[test]
fn indexed_file_system_is_read_only() {
    let mut fs = IndexedArchiveFileSystem::from_tar_bytes(&sample_tar_bytes()).unwrap();
    assert_eq!(fs.create_dir("/lib"), Err(FsError::AlreadyExists));
    assert_eq!(fs.create_dir("/lib/new"), Err(FsError::PermissionDenied));
    assert_eq!(fs.create_dir("/nope/new"), Err(FsError::EntryNotFound));
    assert_eq!(fs.create_dir("/lib/python/__init__.py/x"), Err(FsError::BaseNotDirectory));
    assert_eq!(fs.remove_dir("/lib"), Err(FsError::PermissionDenied));
    assert_eq!(fs.remove_dir("/lib/python/__init__.py"), Err(FsError::BaseNotDirectory));
    assert_eq!(fs.remove_file("/lib/python/__init__.py"), Err(FsError::PermissionDenied));
    assert_eq!(fs.remove_file("/lib"), Err(FsError::NotAFile));
    assert_eq!(fs.rename("/lib", "/other"), Err(FsError::PermissionDenied));
    assert_eq!(fs.rename("/missing", "/other"), Err(FsError::EntryNotFound));
    assert_eq!(fs.rename("/lib", "/lib/python/__init__.py/x"), Err(FsError::BaseNotDirectory));
    assert_eq!(fs.readlink("/lib"), Err(FsError::InvalidInput));
    assert_eq!(fs.mount("x".to_string(), "/lib"), Err(FsError::Unsupported));
    assert_eq!(fs.metadata(""), Err(FsError::InvalidInput));
    assert_eq!(fs.open("/lib", &read_only()).err(), Some(FsError::NotAFile));
    assert_eq!(fs.open("/lib/python/__init__.py/x", &read_only()).err(), Some(FsError::BaseNotDirectory));
    assert!(fs.read_dir("/lib/python/__init__.py").is_err());
}

#[test]
fn indexes_explicit_and_implicit_directories() {
    let mut fs = ZipArchiveFileSystem::new(sample_zip_bytes()).unwrap();

    assert!(fs.metadata("/").unwrap().is_dir());
    assert!(fs.metadata("/lib/python").unwrap().is_dir());
    assert!(fs.metadata("/site-packages/pkg").unwrap().is_dir());

    let mut root: Vec<String> = fs.read_dir("/").unwrap().into_iter().map(|e| e.path).collect();
    root.sort();
    assert_eq!(root, vec!["/lib", "/site-packages"]);
    let mut pkg: Vec<String> = fs.read_dir("/site-packages/pkg").unwrap().into_iter().map(|e| e.path).collect();
    pkg.sort();
    assert_eq!(pkg, vec!["/site-packages/pkg/mod.py"]);
}

#[test]
fn opens_and_reads_files_on_demand() {
    let mut fs = ZipArchiveFileSystem::new(sample_zip_bytes()).unwrap();
    let file = fs.open("/lib/python/__init__.py", &read_only()).unwrap();
    assert_eq!(contents(&file), "x = 1\n");
}

#[test]
fn rejects_mutating_open_flags() {
    let mut fs = ZipArchiveFileSystem::new(sample_zip_bytes()).unwrap();
    let err = fs.open("/lib/python/__init__.py", &appending()).unwrap_err();
    assert_eq!(err, FsError::PermissionDenied);
}

#[test]
fn caches_decompressed_content_and_negative_lookups() {
    let mut fs = ZipArchiveFileSystem::new(sample_zip_bytes()).unwrap();

    let file = fs.open("/lib/python/__init__.py", &read_only()).unwrap();
    assert_eq!(contents(&file), "x = 1\n");

    let file = fs.open("/lib/python/__init__.py", &read_only()).unwrap();
    assert_eq!(contents(&file), "x = 1\n");

    let _ = fs.open("/lib/python/missing.py", &read_only());
    let _ = fs.open("/lib/python/missing.py", &read_only());

    let (decompressed_entries, negative_entries) = fs.cache_state();
    assert_eq!(decompressed_entries, 1);
    assert_eq!(negative_entries, 1);
}

#[test]
fn zip_archive_dispatch_and_bad_input() {
    let mut fs = ArchiveFileSystem::from_zip_bytes(sample_zip_bytes()).unwrap();
    assert_eq!(read_dir_paths(&mut fs, "/lib"), vec!["/lib/python"]);
    let file = fs.open("/site-packages/pkg/mod.py", &read_only()).unwrap();
    assert_eq!(contents(&file), "print('ok')\n");
    assert_eq!(fs.metadata("/lib/python/__init__.py").unwrap().len(), 6);
    assert_eq!(fs.remove_file("/lib/python/__init__.py"), Err(FsError::PermissionDenied));
    assert_eq!(fs.symlink_metadata("/nothing"), Err(FsError::EntryNotFound));
    assert!(ArchiveFileSystem::from_zip_bytes(b"not a zip".to_vec()).is_err());
}

#[test]
fn listing_reports_paths_and_metadata_in_name_order() {
    let entries = vec![
        ArchiveEntry { name: "d/zeta".to_string(), kind: ArchiveEntryKind::File, bytes: b"z".to_vec() },
        ArchiveEntry { name: "d/alpha/".to_string(), kind: ArchiveEntryKind::Directory, bytes: Vec::new() },
        ArchiveEntry { name: "d/mid".to_string(), kind: ArchiveEntryKind::File, bytes: b"mm".to_vec() },
    ];
    let mut fs = IndexedArchiveFileSystem::from_entries(entries).unwrap();
    let listing = fs.read_dir("/d").unwrap();
    let paths: Vec<String> = listing.iter().map(|e| e.path.clone()).collect();
    assert_eq!(paths, vec!["/d/alpha", "/d/mid", "/d/zeta"]);
    assert!(listing[0].metadata.unwrap().is_dir());
    assert_eq!(listing[1].metadata.unwrap().len(), 2);
}

#[test]
fn error_mappings() {
    assert_eq!(map_7z_error(SevenZErrorClass::FileNotFound), FsError::EntryNotFound);
    assert_eq!(map_7z_error(SevenZErrorClass::Io(IoErrorKind::UnexpectedEof)), FsError::UnexpectedEof);
    assert_eq!(map_7z_error(SevenZErrorClass::Other), FsError::InvalidData);
    assert_eq!(map_unrar_error(UnrarCode::EOpen), FsError::EntryNotFound);
    assert_eq!(map_unrar_error(UnrarCode::NoMemory), FsError::StorageFull);
    assert_eq!(map_unrar_error(UnrarCode::ERead), FsError::IOError);
    assert_eq!(map_unrar_error(UnrarCode::ECreate), FsError::IOError);
    assert_eq!(map_unrar_error(UnrarCode::BadArchive), FsError::InvalidData);
    assert_eq!(FsError::from_io_kind(IoErrorKind::NotFound), FsError::EntryNotFound);
    assert_eq!(FsError::from_io_kind(IoErrorKind::Other), FsError::IOError);
}

#[test]
fn indexed_add_dir_and_add_file() {
    let mut fs = IndexedArchiveFileSystem::empty();
    assert_eq!(fs.add_dir("a/b"), Ok(()));
    assert!(fs.metadata("/a").unwrap().is_dir());
    assert_eq!(fs.add_file("/a/b/c", b"hello".to_vec()), Ok(()));
    assert_eq!(fs.add_file("/a/b/c/d", b"x".to_vec()), Err(FsError::InvalidData));
    assert_eq!(fs.add_dir("/a/b/c"), Err(FsError::InvalidData));
    assert_eq!(fs.add_file("", b"x".to_vec()), Err(FsError::InvalidInput));
    assert_eq!(fs.add_file("/", b"x".to_vec()), Err(FsError::InvalidData));
    assert_eq!(fs.add_file("/a", b"x".to_vec()), Err(FsError::InvalidData));
    let file = fs.open("/a/b/c", &read_only()).unwrap();
    assert_eq!(contents(&file), "hello");
    assert_eq!(fs.metadata("/a/b/c").unwrap().len(), 5);
}

#[test]
fn missing_lookups_are_cached_until_the_index_grows() {
    let mut fs = IndexedArchiveFileSystem::empty();
    assert_eq!(fs.metadata("/x"), Err(FsError::EntryNotFound));
    assert_eq!(fs.metadata("/x"), Err(FsError::EntryNotFound));
    assert_eq!(fs.negative_cache_size(), 1);
    assert_eq!(fs.open("/y/z", &read_only()).err(), Some(FsError::EntryNotFound));
    assert_eq!(fs.negative_cache_size(), 2);
    assert_eq!(fs.add_file("/x", b"now".to_vec()), Ok(()));
    assert_eq!(fs.negative_cache_size(), 0);
    assert_eq!(fs.metadata("/x").unwrap().len(), 3);
}

#[test]
fn reads_7z_archive() {
    let mut fs = ArchiveFileSystem::from_7z_bytes(sample_7z_bytes()).unwrap();
    assert!(fs.metadata("/lib/python").unwrap().is_dir());
    let file = fs.open("/lib/python/__init__.py", &read_only()).unwrap();
    assert_eq!(contents(&file), "x = 1\n");
    assert_eq!(
        ArchiveFileSystem::from_7z_bytes(b"not a 7z archive".to_vec()).err(),
        Some(FsError::InvalidData)
    );
    let mut indexed = IndexedArchiveFileSystem::from_7z_bytes(sample_7z_bytes()).unwrap();
    assert_eq!(indexed.metadata("/lib/python/__init__.py").unwrap().len(), 6);
}

#[test]
fn tar_reading_errors_come_after_indexing_errors() {
    let mut truncated = sample_tar_bytes();
    truncated.truncate(512 + 100);
    assert!(ArchiveFileSystem::from_tar_bytes(ArchiveFormat::Tar, truncated).is_err());
    assert!(ArchiveFileSystem::from_tar_bytes(ArchiveFormat::TarGz, b"not gzip".to_vec()).is_err());
    assert_eq!(
        ArchiveFileSystem::from_tar_bytes(ArchiveFormat::TarXz, b"not xz".to_vec()).err(),
        Some(FsError::InvalidData)
    );
    let conflicting = vec![
        ArchiveEntry { name: "a".to_string(), kind: ArchiveEntryKind::File, bytes: b"1".to_vec() },
        ArchiveEntry { name: "a/b".to_string(), kind: ArchiveEntryKind::File, bytes: b"2".to_vec() },
    ];
    assert_eq!(
        ArchiveFileSystem::from_read_entries(conflicting, Some(FsError::UnexpectedEof)).err(),
        Some(FsError::InvalidData)
    );
    let fine = vec![ArchiveEntry { name: "a".to_string(), kind: ArchiveEntryKind::File, bytes: b"1".to_vec() }];
    assert_eq!(
        ArchiveFileSystem::from_read_entries(fine, Some(FsError::UnexpectedEof)).err(),
        Some(FsError::UnexpectedEof)
    );
}

#[test]
fn zip_constructor_answers_invalid_data_for_non_archives() {
    assert_eq!(ZipArchiveFileSystem::new(b"not a zip".to_vec()).err(), Some(FsError::InvalidData));
    assert_eq!(ArchiveFileSystem::from_zip_bytes(Vec::new()).err(), Some(FsError::InvalidData));
}

#[test]
fn seven_z_failures_are_told_apart() {
    assert_eq!(
        IndexedArchiveFileSystem::from_7z_bytes(b"not a 7z archive".to_vec()).err(),
        Some(FsError::InvalidData)
    );
    assert_eq!(
        IndexedArchiveFileSystem::from_7z_bytes(b"7z".to_vec()).err(),
        Some(FsError::UnexpectedEof)
    );
}

#[test]
fn xz_streams_with_a_run_of_ff_bytes_are_refused() {
    let mut bytes = sample_tarxz_bytes();
    bytes.extend_from_slice(&[0xFF, 0xFF, 0xFF, 0xFF]);
    assert_eq!(
        ArchiveFileSystem::from_tar_bytes(ArchiveFormat::TarXz, bytes).err(),
        Some(FsError::Unsupported)
    );
    let mut garbled = sample_tarxz_bytes();
    garbled.push(0);
    assert_eq!(
        ArchiveFileSystem::from_tar_bytes(ArchiveFormat::TarXz, garbled).err(),
        Some(FsError::InvalidData)
    );
}

#[test]
fn named_bytes_pick_the_format_from_the_suffix() {
    assert_eq!(ArchiveFormat::of_path("/tmp/notes.txt"), Err(FsError::InvalidInput));
    assert_eq!(ArchiveFormat::of_path("/tmp/App.JAR"), Ok(ArchiveFormat::Zip));
    assert_eq!(
        ArchiveFileSystem::from_named_bytes("/tmp/notes.txt", sample_tar_bytes()).err(),
        Some(FsError::InvalidInput)
    );
    let mut tar = ArchiveFileSystem::from_named_bytes("/tmp/python.tar", sample_tar_bytes()).unwrap();
    assert!(tar.metadata("/lib/python").unwrap().is_dir());
    let mut tgz = ArchiveFileSystem::from_named_bytes("/tmp/python.tgz", sample_targz_bytes()).unwrap();
    assert!(tgz.metadata("/lib/python").unwrap().is_dir());
    let mut zip = ArchiveFileSystem::from_named_bytes("/tmp/python.whl", sample_zip_bytes()).unwrap();
    assert!(zip.metadata("/lib/python").unwrap().is_dir());
    let mut sz = ArchiveFileSystem::from_format_bytes(ArchiveFormat::SevenZ, sample_7z_bytes()).unwrap();
    assert!(sz.metadata("/lib/python").unwrap().is_dir());
    assert_eq!(
        ArchiveFileSystem::from_named_bytes("/tmp/python.zip", sample_tar_bytes()).err(),
        Some(FsError::InvalidData)
    );
}

#[test]
fn rar_walk_steps() {
    assert_eq!(rar_step("lib/python/__init__.py", false), RarStep::ReadFile);
    assert_eq!(rar_step("lib\\python", true), RarStep::AddDir);
    assert_eq!(rar_step("./", false), RarStep::Skip);
    assert_eq!(rar_step("", true), RarStep::Skip);
    assert_eq!(rar_step("a/..", false), RarStep::Skip);
}
