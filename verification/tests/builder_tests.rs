use std::collections::HashMap;

use ocinoco::builder::{BuildError, Builder, Step};
use ocinoco::fs::{DirEntry, File, Symlink};
use ocinoco::path::FsPath;

#[derive(Default)]
struct FakeSource {
    dirs: HashMap<String, Vec<DirEntry>>,
    files: HashMap<String, Vec<u8>>,
}

#[derive(Clone, Debug, PartialEq, Eq)]
enum Event {
    Write(FsPath, Vec<u8>, u32),
    Symlink(FsPath, String, u32),
}

fn entry_copy(entry: &DirEntry) -> DirEntry {
    match entry {
        DirEntry::Directory(path) => DirEntry::Directory(path.clone()),
        DirEntry::File(file) => DirEntry::File(File { path: file.path.clone(), mode: file.mode }),
        DirEntry::Symlink(symlink) => DirEntry::Symlink(Symlink {
            path: symlink.path.clone(),
            target: symlink.target.clone(),
            mode: symlink.mode,
        }),
    }
}

/// Runs the steps of a build against the fake source, recording what the
/// destination would be asked to do.
fn run(builder: &Builder, source: &FakeSource) -> Result<Vec<Event>, BuildError> {
    let mut events = Vec::new();
    let mut pending = vec![builder.build()];
    while let Some(step) = pending.pop() {
        match step {
            Step::CopyDir(path) => {
                for entry in source.dirs.get(&path.render()).into_iter().flatten() {
                    pending.push(builder.copy_entry(entry_copy(entry))?);
                }
            }
            Step::WriteFile { source: from, destination, mode } => {
                let content = source.files.get(&from.render()).cloned().expect("missing file");
                events.push(Event::Write(destination, content, mode));
            }
            Step::CreateSymlink { destination, target, mode } => {
                events.push(Event::Symlink(destination, target, mode));
            }
        }
    }
    Ok(events)
}

#[test]
fn recursively_copies_files() {
    let mut source = FakeSource::default();
    source
        .dirs
        .insert("/".to_string(), vec![DirEntry::Directory(FsPath::new("/app"))]);
    source.dirs.insert(
        "/app".to_string(),
        vec![DirEntry::File(File { path: FsPath::new("/app/main"), mode: 0o755 })],
    );
    source.files.insert("/app/main".to_string(), b"binary".to_vec());

    let events = run(&Builder::new(FsPath::new("/")), &source).unwrap();

    assert_eq!(
        events.as_slice(),
        [Event::Write(FsPath::new("/app/main"), b"binary".to_vec(), 0o755)]
    );
}

#[test]
fn makes_absolute_symlink_targets_relative_to_the_symlink_parent() {
    let mut source = FakeSource::default();
    source.dirs.insert(
        "/".to_string(),
        vec![DirEntry::Symlink(Symlink {
            path: FsPath::new("/app/current"),
            target: "/app/releases/v1".to_string(),
            mode: 0o777,
        })],
    );

    let events = run(&Builder::new(FsPath::new("/")), &source).unwrap();

    assert_eq!(
        events.as_slice(),
        [Event::Symlink(FsPath::new("/app/current"), "releases/v1".to_string(), 0o777)]
    );
}

#[test]
fn preserves_relative_symlink_targets() {
    let mut source = FakeSource::default();
    source.dirs.insert(
        "/".to_string(),
        vec![DirEntry::Symlink(Symlink {
            path: FsPath::new("/app/current"),
            target: "releases/v1".to_string(),
            mode: 0o777,
        })],
    );

    let events = run(&Builder::new(FsPath::new("/")), &source).unwrap();

    assert_eq!(
        events.as_slice(),
        [Event::Symlink(FsPath::new("/app/current"), "releases/v1".to_string(), 0o777)]
    );
}

#[test]
fn prefixes_destination_paths_with_root_dir() {
    let mut source = FakeSource::default();
    source.dirs.insert(
        "/".to_string(),
        vec![
            DirEntry::File(File { path: FsPath::new("/bin/tool"), mode: 0o755 }),
            DirEntry::Symlink(Symlink {
                path: FsPath::new("/bin/current"),
                target: "tool".to_string(),
                mode: 0o777,
            }),
        ],
    );
    source.files.insert("/bin/tool".to_string(), b"tool".to_vec());

    let events = run(&Builder::new(FsPath::new("/app")), &source).unwrap();

    assert_eq!(events.len(), 2);
    assert!(events.contains(&Event::Write(FsPath::new("/app/bin/tool"), b"tool".to_vec(), 0o755)));
    assert!(events.contains(&Event::Symlink(
        FsPath::new("/app/bin/current"),
        "tool".to_string(),
        0o777
    )));
}

#[test]
fn symlink_without_parent_is_refused() {
    let builder = Builder::new(FsPath::new("/"));
    let entry = DirEntry::Symlink(Symlink {
        path: FsPath::new("/"),
        target: "/etc".to_string(),
        mode: 0o777,
    });
    assert_eq!(builder.copy_entry(entry), Err(BuildError::InvalidSymlinkPath));
}

#[test]
fn absolute_target_of_relative_link_becomes_relative() {
    let builder = Builder::new(FsPath::new("/"));
    let entry = DirEntry::Symlink(Symlink {
        path: FsPath::new("bin/current"),
        target: "/usr/bin/tool".to_string(),
        mode: 0o777,
    });
    assert_eq!(
        builder.copy_entry(entry),
        Ok(Step::CreateSymlink {
            destination: FsPath::new("/bin/current"),
            target: "../usr/bin/tool".to_string(),
            mode: 0o777
        })
    );
}

#[test]
fn unreachable_target_is_refused() {
    let builder = Builder::new(FsPath::new("/"));
    let entry = DirEntry::Symlink(Symlink {
        path: FsPath::new("/a/../b/link"),
        target: "/a/x".to_string(),
        mode: 0o777,
    });
    assert_eq!(builder.copy_entry(entry), Err(BuildError::InvalidSymlinkTarget));
}

#[test]
fn destination_path_drops_the_leading_root() {
    let builder = Builder::new(FsPath::new("/app"));
    assert_eq!(builder.destination_path(&FsPath::new("/x/y")), FsPath::new("/app/x/y"));
    assert_eq!(builder.destination_path(&FsPath::new("x/y")), FsPath::new("/app/x/y"));
    assert_eq!(builder.build(), Step::CopyDir(FsPath::new("/")));
}
