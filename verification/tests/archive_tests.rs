use std::io::Read;
use std::path::{Path, PathBuf};

use ocinoco::archive::TarDestination;
use ocinoco::path::FsPath;
use tar::EntryType;

#[derive(Debug)]
struct ArchiveEntry {
    path: PathBuf,
    entry_type: EntryType,
    mode: u32,
    uid: u64,
    gid: u64,
    link_name: Option<PathBuf>,
    content: Vec<u8>,
}

fn read_archive(buffer: &[u8]) -> Vec<ArchiveEntry> {
    tar::Archive::new(buffer)
        .entries()
        .unwrap()
        .map(|entry| {
            let mut entry = entry.unwrap();
            let header = entry.header().clone();
            let path = entry.path().unwrap().into_owned();
            let link_name = entry.link_name().unwrap().map(|path| path.into_owned());
            let mut content = Vec::new();

            entry.read_to_end(&mut content).unwrap();

            ArchiveEntry {
                path,
                entry_type: header.entry_type(),
                mode: header.mode().unwrap(),
                uid: header.uid().unwrap(),
                gid: header.gid().unwrap(),
                link_name,
                content,
            }
        })
        .collect()
}

fn find_entry<'a>(entries: &'a [ArchiveEntry], path: &str) -> &'a ArchiveEntry {
    entries
        .iter()
        .find(|entry| entry.path == Path::new(path))
        .unwrap_or_else(|| panic!("missing archive entry: {path}"))
}

#[test]
fn writes_files_with_parent_directories_and_metadata() {
    let buffer = {
        let mut destination = TarDestination::new(1000, 1001);

        destination
            .write(&FsPath::new("/usr/bin/ocinoco"), b"binary", 0o755)
            .unwrap();
        destination
            .write(&FsPath::new("/usr/bin/helper"), b"helper", 0o700)
            .unwrap();
        destination.finish()
    };

    let entries = read_archive(&buffer);
    let usr = find_entry(&entries, "usr");
    let bin = find_entry(&entries, "usr/bin");
    let file = find_entry(&entries, "usr/bin/ocinoco");

    assert_eq!(usr.entry_type, EntryType::Directory);
    assert_eq!(bin.entry_type, EntryType::Directory);
    assert_eq!(file.entry_type, EntryType::Regular);
    assert_eq!(file.content, b"binary");
    assert_eq!(file.mode, 0o755);
    assert_eq!(file.uid, 1000);
    assert_eq!(file.gid, 1001);
    assert_eq!(
        entries
            .iter()
            .filter(|entry| entry.path == Path::new("usr/bin"))
            .count(),
        1
    );
    assert!(!entries.iter().any(|entry| entry.path == Path::new(".")));
}

#[test]
fn writes_symlinks_with_relative_targets() {
    let buffer = {
        let mut destination = TarDestination::new(123, 456);

        destination
            .symlink(&FsPath::new("/usr/bin/tool"), "../lib/tool", 0o777)
            .unwrap();
        destination.finish()
    };

    let entries = read_archive(&buffer);
    let symlink = find_entry(&entries, "usr/bin/tool");

    assert_eq!(symlink.entry_type, EntryType::Symlink);
    assert_eq!(symlink.link_name.as_deref(), Some(Path::new("../lib/tool")));
    assert_eq!(symlink.mode, 0o777);
    assert_eq!(symlink.uid, 123);
    assert_eq!(symlink.gid, 456);
}

#[test]
fn directories_come_before_their_entries_and_once() {
    let mut destination = TarDestination::new(0, 0);
    destination.write(&FsPath::new("/a/b/c"), b"c", 0o644).unwrap();
    let first = destination.take_output();
    destination.write(&FsPath::new("/a/d"), b"d", 0o644).unwrap();
    let mut buffer = first;
    buffer.extend(destination.finish());

    let entries = read_archive(&buffer);
    let paths: Vec<String> = entries
        .iter()
        .map(|entry| entry.path.to_string_lossy().into_owned())
        .collect();
    assert_eq!(paths, ["a", "a/b", "a/b/c", "a/d"]);
    assert_eq!(find_entry(&entries, "a").mode, 0o755);
    assert_eq!(find_entry(&entries, "a/d").content, b"d");
}

#[test]
fn finish_closes_the_archive_with_zero_blocks() {
    let destination = TarDestination::new(0, 0);
    assert_eq!(destination.finish(), vec![0u8; 1024]);
}

#[test]
fn refuses_paths_the_tar_crate_refuses() {
    let mut destination = TarDestination::new(0, 0);
    assert!(destination.write(&FsPath::new("/../escape"), b"x", 0o644).is_err());
}

#[test]
fn keeps_long_symlink_targets_as_written() {
    let target = format!("{}//x/./y/", "d/".repeat(60));
    let buffer = {
        let mut destination = TarDestination::new(0, 0);
        destination.symlink(&FsPath::new("/link"), &target, 0o777).unwrap();
        destination.finish()
    };

    let mut archive = tar::Archive::new(buffer.as_slice());
    let mut entries = archive.entries().unwrap();
    let entry = entries.next().unwrap().unwrap();
    assert_eq!(entry.path().unwrap(), Path::new("link"));
    assert_eq!(
        entry.link_name_bytes().unwrap().as_ref(),
        target.as_bytes()
    );
}
