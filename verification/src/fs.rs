//! The entries that a source directory lists.
use vstd::prelude::*;

use crate::path::{FsPath, PathView};

verus! {

/// A regular file.
#[derive(Debug, PartialEq, Eq)]
pub struct File {
    pub path: FsPath,
    pub mode: u32,
}

/// A symbolic link. Its target is kept as the text the link holds.
#[derive(Debug, PartialEq, Eq)]
pub struct Symlink {
    pub path: FsPath,
    pub target: String,
    pub mode: u32,
}

/// One entry of a directory listing.
#[derive(Debug, PartialEq, Eq)]
pub enum DirEntry {
    Directory(FsPath),
    File(File),
    Symlink(Symlink),
}

/// What a directory listing says an entry is.
#[derive(Debug, Clone, Copy, PartialEq, Eq)]
pub enum FileKind {
    Symlink,
    File,
    Directory,
    Other,
}

/// The model of a directory entry.
pub enum DirEntryView {
    Directory(PathView),
    File { path: PathView, mode: u32 },
    Symlink { path: PathView, target: Seq<char>, mode: u32 },
}

impl View for DirEntry {
    type V = DirEntryView;

    open spec fn view(&self) -> DirEntryView {
        match self {
            DirEntry::Directory(p) => DirEntryView::Directory(p@),
            DirEntry::File(f) => DirEntryView::File { path: f.path@, mode: f.mode },
            DirEntry::Symlink(s) => DirEntryView::Symlink {
                path: s.path@,
                target: s.target@,
                mode: s.mode,
            },
        }
    }
}

/// The model of an optional entry.
pub open spec fn opt_entry_view(e: Option<DirEntry>) -> Option<DirEntryView> {
    match e {
        Some(e) => Some(e@),
        None => None,
    }
}

} // verus!
