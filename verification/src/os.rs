//! The source side: a directory of the local filesystem, read under a root.
use vstd::prelude::*;

use crate::fs::{opt_entry_view, DirEntry, DirEntryView, File, FileKind, Symlink};
use crate::path::{lemma_join_strip_prefix, lemma_join_stays_under, lemma_view_wf, FsPath, PathView};

verus! {

/// A source that reads files under `root_dir`.
pub struct OsSource {
    root_dir: FsPath,
}

/// The mode given to a regular file whose mode bits could not be read.
pub const DEFAULT_FILE_MODE: u32 = 0o644;

/// The entry that a listing under `root` reports for the filesystem path
/// `path`, given what kind of file it is, the text a symlink holds, and the
/// file's mode bits. Paths are made relative to `root`. Every directory and
/// regular file under `root` is listed; a file whose mode could not be read
/// gets `DEFAULT_FILE_MODE`. A symlink is listed when its target and mode
/// could be read. A child outside `root`, a symlink that cannot be read, and
/// anything that is neither a symlink, a file nor a directory are passed over.
pub open spec fn listed_entry(
    root: PathView,
    path: PathView,
    kind: FileKind,
    target: Option<Seq<char>>,
    mode: Option<u32>,
) -> Option<DirEntryView> {
    match path.strip_prefix(root) {
        None => None,
        Some(rel) => match kind {
            FileKind::Symlink => match (target, mode) {
                (Some(t), Some(m)) => Some(DirEntryView::Symlink { path: rel, target: t, mode: m }),
                _ => None,
            },
            FileKind::File => Some(
                DirEntryView::File {
                    path: rel,
                    mode: match mode {
                        Some(m) => m,
                        None => DEFAULT_FILE_MODE,
                    },
                },
            ),
            FileKind::Directory => Some(DirEntryView::Directory(rel)),
            FileKind::Other => None,
        },
    }
}

/// The model of an optional text.
pub open spec fn opt_text_view(s: Option<String>) -> Option<Seq<char>> {
    match s {
        Some(s) => Some(s@),
        None => None,
    }
}

impl OsSource {
    /// The directory that this source reads under.
    pub closed spec fn root_dir(&self) -> PathView {
        self.root_dir@
    }

    pub fn new(root_dir: &FsPath) -> (res: OsSource)
        ensures
            res.root_dir() == root_dir@,
    {
        OsSource { root_dir: root_dir.clone() }
    }

    /// The filesystem path of `path`, read under the root directory: a leading
    /// "/" is dropped, so absolute paths stay under the root too.
    pub fn resolve(&self, path: &FsPath) -> (res: FsPath)
        ensures
            res@ == self.root_dir().join(path@.strip_root()),
    {
        self.root_dir.join(&path.strip_root())
    }

    /// The entry that a directory listing yields for the filesystem path
    /// `path` (see `listed_entry`). A regular file or directory under the
    /// root is always listed.
    pub fn dir_entry(
        &self,
        path: &FsPath,
        kind: FileKind,
        target: Option<String>,
        mode: Option<u32>,
    ) -> (res: Option<DirEntry>)
        ensures
            opt_entry_view(res) == listed_entry(self.root_dir(), path@, kind, opt_text_view(target), mode),
            (kind == FileKind::File || kind == FileKind::Directory) && path@.strip_prefix(
                self.root_dir(),
            ) is Some ==> res is Some,
    {
        let rel = match path.strip_prefix(&self.root_dir) {
            Some(rel) => rel,
            None => return None,
        };
        match kind {
            FileKind::Symlink => match (target, mode) {
                (Some(t), Some(m)) => Some(DirEntry::Symlink(Symlink { path: rel, target: t, mode: m })),
                _ => None,
            },
            FileKind::File => {
                let mode = match mode {
                    Some(m) => m,
                    None => DEFAULT_FILE_MODE,
                };
                Some(DirEntry::File(File { path: rel, mode }))
            },
            FileKind::Directory => Some(DirEntry::Directory(rel)),
            FileKind::Other => None,
        }
    }
}

/// Every regular file and directory under the root is listed, whether or not
/// its mode could be read.
pub proof fn lemma_files_listed(
    root: PathView,
    path: PathView,
    kind: FileKind,
    target: Option<Seq<char>>,
    mode: Option<u32>,
)
    requires
        kind == FileKind::File || kind == FileKind::Directory,
        path.strip_prefix(root) is Some,
    ensures
        listed_entry(root, path, kind, target, mode) is Some,
{
}

/// Resolving a path never leaves the root directory: the result starts with
/// the components of the root, whatever the path.
pub proof fn lemma_resolve_under_root(source: OsSource, path: FsPath)
    ensures
        source.root_dir().join(path@.strip_root()).absolute == source.root_dir().absolute,
        source.root_dir().parts.is_prefix_of(source.root_dir().join(path@.strip_root()).parts),
{
    lemma_join_stays_under(source.root_dir(), path@);
}

/// A path and the same path without its leading "/" resolve alike.
pub proof fn lemma_resolve_ignores_root(source: OsSource, path: PathView)
    ensures
        source.root_dir().join(path.strip_root()) == source.root_dir().join(
            path.strip_root().strip_root(),
        ),
{
}

/// An entry that a listing yields resolves back to the filesystem path it was
/// listed from, unless the root is the empty path and the listed path is
/// absolute.
pub proof fn lemma_listed_entry_resolves(
    source: OsSource,
    path: FsPath,
    kind: FileKind,
    target: Option<Seq<char>>,
    mode: Option<u32>,
)
    requires
        listed_entry(source.root_dir(), path@, kind, target, mode) is Some,
        !source.root_dir().is_empty() || !path@.absolute,
    ensures
        ({
            let e = listed_entry(source.root_dir(), path@, kind, target, mode)->0;
            let rel = match e {
                DirEntryView::Directory(p) => p,
                DirEntryView::File { path, .. } => path,
                DirEntryView::Symlink { path, .. } => path,
            };
            source.root_dir().join(rel.strip_root()) == path@
        }),
{
    lemma_view_wf(path);
    lemma_join_strip_prefix(path@, source.root_dir());
}

/// The mode that was read is the mode listed: a regular file or symlink under
/// the root keeps the mode bits read for it (and a symlink its target text),
/// at its path relative to the root.
pub proof fn lemma_listed_mode_kept(
    root: PathView,
    path: PathView,
    target: Option<Seq<char>>,
    m: u32,
)
    requires
        path.strip_prefix(root) is Some,
    ensures
        listed_entry(root, path, FileKind::File, target, Some(m)) == Some(
            DirEntryView::File { path: path.strip_prefix(root)->0, mode: m },
        ),
        target matches Some(t) ==> listed_entry(root, path, FileKind::Symlink, target, Some(m))
            == Some(
            DirEntryView::Symlink { path: path.strip_prefix(root)->0, target: t, mode: m },
        ),
{
}

} // verus!
