use ocinoco::fs::{DirEntry, File, FileKind, Symlink};
use ocinoco::os::{OsSource, DEFAULT_FILE_MODE};
use ocinoco::path::FsPath;

#[test]
fn resolves_relative_paths_under_root_dir() {
    let root = FsPath::new("/tmp/ocinoco-os-source");
    let source = OsSource::new(&root);

    assert_eq!(source.resolve(&FsPath::new("/a/b")), root.join(&FsPath::new("a/b")));
    assert_eq!(source.resolve(&FsPath::new("a/b")), root.join(&FsPath::new("a/b")));
}

#[test]
fn lists_entries_relative_to_root_dir() {
    let root = FsPath::new("/srv/source");
    let source = OsSource::new(&root);

    assert_eq!(
        source.dir_entry(&FsPath::new("/srv/source/nested"), FileKind::Directory, None, None),
        Some(DirEntry::Directory(FsPath::new("nested")))
    );
    assert_eq!(
        source.dir_entry(&FsPath::new("/srv/source/root.txt"), FileKind::File, None, Some(0o644)),
        Some(DirEntry::File(File { path: FsPath::new("root.txt"), mode: 0o644 }))
    );
    assert_eq!(
        source.dir_entry(
            &FsPath::new("/srv/source/bin/current"),
            FileKind::Symlink,
            Some("tool".to_string()),
            Some(0o777)
        ),
        Some(DirEntry::Symlink(Symlink {
            path: FsPath::new("bin/current"),
            target: "tool".to_string(),
            mode: 0o777
        }))
    );
}

#[test]
fn lists_files_whose_mode_cannot_be_read() {
    let source = OsSource::new(&FsPath::new("/srv/source"));

    assert_eq!(
        source.dir_entry(&FsPath::new("/srv/source/file"), FileKind::File, None, None),
        Some(DirEntry::File(File { path: FsPath::new("file"), mode: DEFAULT_FILE_MODE }))
    );
    assert_eq!(DEFAULT_FILE_MODE, 0o644);
}

#[test]
fn passes_over_what_cannot_be_listed() {
    let source = OsSource::new(&FsPath::new("/srv/source"));

    assert_eq!(
        source.dir_entry(&FsPath::new("/elsewhere/file"), FileKind::File, None, Some(0o644)),
        None
    );
    assert_eq!(
        source.dir_entry(&FsPath::new("/srv/source/fifo"), FileKind::Other, None, Some(0o644)),
        None
    );
    assert_eq!(
        source.dir_entry(&FsPath::new("/srv/source/link"), FileKind::Symlink, None, Some(0o777)),
        None
    );
    assert_eq!(
        source.dir_entry(
            &FsPath::new("/srv/source/link"),
            FileKind::Symlink,
            Some("x".to_string()),
            None
        ),
        None
    );
}

#[test]
fn listed_entries_resolve_back_to_their_paths() {
    let root = FsPath::new("./dist");
    let source = OsSource::new(&root);
    let path = FsPath::new("./dist/bin/tool");
    match source.dir_entry(&path, FileKind::File, None, Some(0o755)) {
        Some(DirEntry::File(file)) => assert_eq!(source.resolve(&file.path), path),
        other => panic!("unexpected entry: {other:?}"),
    }
}
