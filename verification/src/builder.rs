//! The decisions that copy a source tree into a destination: where each entry
//! goes and what a symbolic link points to there.
use vstd::prelude::*;

use crate::fs::{DirEntry, DirEntryView, Symlink};
use crate::path::{
    lemma_join_stays_under, root_view, text_is_absolute, FsPath, PathView,
};

verus! {

/// The text that `pathdiff::diff_paths` gives for the paths with texts `path`
/// and `base`: the way from `base` to `path`, or nothing.
pub uninterp spec fn diff_paths_text(path: Seq<char>, base: Seq<char>) -> Option<Seq<char>>;

/// The model of an optional text.
pub open spec fn opt_text(s: Option<String>) -> Option<Seq<char>> {
    match s {
        Some(s) => Some(s@),
        None => None,
    }
}

/// Calls `pathdiff::diff_paths(path, base)` and gives the resulting path as
/// text. The result is named by `diff_paths_text`; beyond that, the crate's
/// source shows that when both paths are absolute what comes back, if
/// anything, is relative (the shared root is never among the components it
/// collects). Which text it gives is not stated beyond that.
#[verifier::external_body]
fn diff_paths(path: &str, base: &str) -> (res: Option<String>)
    ensures
        opt_text(res) == diff_paths_text(path@, base@),
        text_is_absolute(path@) && text_is_absolute(base@) && res is Some ==> !text_is_absolute(
            res->0@,
        ),
{
    match pathdiff::diff_paths(path, base) {
        Some(p) => Some(p.to_string_lossy().into_owned()),
        None => None,
    }
}

/// Why an entry could not be copied.
#[derive(Debug, Clone, Copy, PartialEq, Eq)]
pub enum BuildError {
    /// A symlink whose path has no parent directory.
    InvalidSymlinkPath,
    /// A symlink target that cannot be expressed from the link's directory.
    InvalidSymlinkTarget,
}

/// What copying one entry takes.
#[derive(Debug, PartialEq, Eq)]
pub enum Step {
    /// Copy the directory with this source path, entry by entry.
    CopyDir(FsPath),
    /// Read the source file and write its content at the destination path.
    WriteFile { source: FsPath, destination: FsPath, mode: u32 },
    /// Create a symbolic link at the destination path.
    CreateSymlink { destination: FsPath, target: String, mode: u32 },
}

/// The model of a step.
pub enum StepView {
    CopyDir(PathView),
    WriteFile { source: PathView, destination: PathView, mode: u32 },
    CreateSymlink { destination: PathView, target: Seq<char>, mode: u32 },
}

impl View for Step {
    type V = StepView;

    open spec fn view(&self) -> StepView {
        match self {
            Step::CopyDir(p) => StepView::CopyDir(p@),
            Step::WriteFile { source, destination, mode } => StepView::WriteFile {
                source: source@,
                destination: destination@,
                mode: *mode,
            },
            Step::CreateSymlink { destination, target, mode } => StepView::CreateSymlink {
                destination: destination@,
                target: target@,
                mode: *mode,
            },
        }
    }
}

/// Where a source path goes under `root`: its leading "/" is dropped and the
/// rest joined to `root`.
pub open spec fn destination_of(root: PathView, path: PathView) -> PathView {
    root.join(path.strip_root())
}

/// The target a symlink gets once the way from its directory to it is known.
pub open spec fn relative_target_of(diff: Option<Seq<char>>) -> Result<Seq<char>, BuildError> {
    match diff {
        Some(t) => Ok(t),
        None => Err(BuildError::InvalidSymlinkTarget),
    }
}

/// Where a link at `path` lies in the tree that is copied: `path` taken from
/// the root of the tree.
pub open spec fn link_location(path: PathView) -> PathView {
    root_view().join(path)
}

/// The target written for a symlink at `path` whose text is `target`: a
/// relative target is kept as it is written; an absolute one, which points
/// into the tree being copied, is expressed from the directory that holds
/// the link.
pub open spec fn symlink_target_of(path: PathView, target: Seq<char>) -> Result<Seq<char>, BuildError> {
    if text_is_absolute(target) {
        match link_location(path).parent() {
            None => Err(BuildError::InvalidSymlinkPath),
            Some(parent) => relative_target_of(diff_paths_text(target, parent.text())),
        }
    } else {
        Ok(target)
    }
}

/// The step that copies an entry into the destination under `root`.
pub open spec fn step_of(root: PathView, entry: DirEntryView) -> Result<StepView, BuildError> {
    match entry {
        DirEntryView::Directory(p) => Ok(StepView::CopyDir(p)),
        DirEntryView::File { path, mode } => Ok(
            StepView::WriteFile { source: path, destination: destination_of(root, path), mode },
        ),
        DirEntryView::Symlink { path, target, mode } => match symlink_target_of(path, target) {
            Ok(t) => Ok(
                StepView::CreateSymlink { destination: destination_of(root, path), target: t, mode },
            ),
            Err(e) => Err(e),
        },
    }
}

/// The model of a step or its failure.
pub open spec fn step_result_view(r: Result<Step, BuildError>) -> Result<StepView, BuildError> {
    match r {
        Ok(s) => Ok(s@),
        Err(e) => Err(e),
    }
}

/// The model of a text or its failure.
pub open spec fn text_result_view(r: Result<String, BuildError>) -> Result<Seq<char>, BuildError> {
    match r {
        Ok(t) => Ok(t@),
        Err(e) => Err(e),
    }
}

/// The target of a symlink once the way from its directory is known, or
/// `InvalidSymlinkTarget` when there is none.
pub fn relative_symlink_target(diff: Option<String>) -> (res: Result<String, BuildError>)
    ensures
        text_result_view(res) == relative_target_of(opt_text(diff)),
{
    match diff {
        Some(t) => Ok(t),
        None => Err(BuildError::InvalidSymlinkTarget),
    }
}

/// The target written for a symlink (see `symlink_target_of`); it is always
/// relative.
pub fn symlink_target(symlink: &Symlink) -> (res: Result<String, BuildError>)
    ensures
        text_result_view(res) == symlink_target_of(symlink.path@, symlink.target@),
        res matches Ok(t) ==> !text_is_absolute(t@),
{
    if FsPath::new(symlink.target.as_str()).is_absolute() {
        let location = FsPath::root().join(&symlink.path);
        let parent = match location.parent() {
            Some(parent) => parent,
            None => return Err(BuildError::InvalidSymlinkPath),
        };
        proof {
            assert(text_is_absolute(parent@.text()));
        }
        let diff = diff_paths(symlink.target.as_str(), parent.render().as_str());
        relative_symlink_target(diff)
    } else {
        Ok(symlink.target.clone())
    }
}

/// Copies the files of a source into a destination under `root_dir`.
pub struct Builder {
    root_dir: FsPath,
}

impl Builder {
    /// The directory of the destination that files are copied into.
    pub closed spec fn root_dir(&self) -> PathView {
        self.root_dir@
    }

    pub fn new(root_dir: FsPath) -> (res: Builder)
        ensures
            res.root_dir() == root_dir@,
    {
        Builder { root_dir }
    }

    /// The first step of a build: copy the source's root directory.
    pub fn build(&self) -> (res: Step)
        ensures
            res@ == StepView::CopyDir(root_view()),
    {
        Step::CopyDir(FsPath::root())
    }

    /// Where a source path goes in the destination.
    pub fn destination_path(&self, path: &FsPath) -> (res: FsPath)
        ensures
            res@ == destination_of(self.root_dir(), path@),
    {
        self.root_dir.join(&path.strip_root())
    }

    /// The step that copies one listed entry.
    pub fn copy_entry(&self, entry: DirEntry) -> (res: Result<Step, BuildError>)
        ensures
            step_result_view(res) == step_of(self.root_dir(), entry@),
            res matches Ok(Step::CreateSymlink { target, .. }) ==> !text_is_absolute(target@),
    {
        match entry {
            DirEntry::Directory(path) => Ok(Step::CopyDir(path)),
            DirEntry::File(file) => {
                let destination = self.destination_path(&file.path);
                Ok(Step::WriteFile { source: file.path, destination, mode: file.mode })
            },
            DirEntry::Symlink(symlink) => {
                let target = symlink_target(&symlink)?;
                let destination = self.destination_path(&symlink.path);
                Ok(Step::CreateSymlink { destination, target, mode: symlink.mode })
            },
        }
    }
}

/// A relative symlink target is written as it is, character for character.
pub proof fn lemma_relative_target_kept(path: PathView, target: Seq<char>)
    requires
        !text_is_absolute(target),
    ensures
        symlink_target_of(path, target) == Ok::<Seq<char>, BuildError>(target),
{
}

/// Every file and symlink lands under the root directory of the destination.
pub proof fn lemma_destination_under_root(root: PathView, path: PathView)
    ensures
        destination_of(root, path).absolute == root.absolute,
        root.parts.is_prefix_of(destination_of(root, path).parts),
{
    lemma_join_stays_under(root, path);
}

/// The target written for a symlink does not depend on the root directory of
/// the destination: builders with any two roots make the same target for the
/// same link, with the link's own mode, or fail the same way.
pub proof fn lemma_link_target_ignores_root(
    root1: PathView,
    root2: PathView,
    path: PathView,
    target: Seq<char>,
    mode: u32,
)
    ensures
        match (
            step_of(root1, DirEntryView::Symlink { path, target, mode }),
            step_of(root2, DirEntryView::Symlink { path, target, mode }),
        ) {
            (
                Ok(StepView::CreateSymlink { target: t1, mode: m1, .. }),
                Ok(StepView::CreateSymlink { target: t2, mode: m2, .. }),
            ) => t1 == t2 && m1 == mode && m2 == mode,
            (Err(e1), Err(e2)) => e1 == e2,
            _ => false,
        },
{
}

/// An absolute symlink target is expressed with `pathdiff` from the directory
/// that holds the link in the source tree (the link's source path taken from
/// "/", without its last component), whatever the root of the destination;
/// the link itself goes to the destination path.
pub proof fn lemma_absolute_target_from_source_parent(
    root: PathView,
    path: PathView,
    target: Seq<char>,
    mode: u32,
)
    requires
        text_is_absolute(target),
        path.parts.len() > 0,
        path.parts[0] != crate::path::curdir(),
    ensures
        step_of(root, DirEntryView::Symlink { path, target, mode }) == match diff_paths_text(
            target,
            (PathView { absolute: true, parts: path.parts.drop_last() }).text(),
        ) {
            Some(t) => Ok::<StepView, BuildError>(
                StepView::CreateSymlink { destination: destination_of(root, path), target: t, mode },
            ),
            None => Err(BuildError::InvalidSymlinkTarget),
        },
{
    let loc = root_view().join(path);
    if !path.absolute {
        assert(loc.parts =~= path.parts);
    }
}

/// A path lands under the root with all of its components: the destination
/// is the root followed by every component of the source path (the source
/// path's leading "/" is dropped; so is a leading "." unless the root is the
/// empty path).
pub proof fn lemma_destination_keeps_components(root: PathView, path: PathView)
    requires
        path.parts.len() == 0 || path.parts[0] != crate::path::curdir(),
    ensures
        destination_of(root, path) == (PathView {
            absolute: root.absolute,
            parts: root.parts + path.parts,
        }),
        destination_of(root, path).strip_prefix(root) == Some(
            PathView { absolute: false, parts: path.parts },
        ),
{
    let d = destination_of(root, path);
    assert(d.parts.take(root.parts.len() as int) =~= root.parts);
    assert(d.parts.skip(root.parts.len() as int) =~= path.parts);
    if !root.absolute && root.parts.len() == 0 {
        assert(d.parts =~= path.parts);
        assert(d == (PathView { absolute: false, parts: path.parts }));
    }
}

} // verus!
