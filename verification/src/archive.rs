//! The destination side: a `tar` layer, entry by entry, with every parent
//! directory of an entry written once and before the entry.
use vstd::prelude::*;

use crate::path::{curdir_view, FsPath, PathView};

verus! {

/// Declares `std::io::Error`, the error that the `tar` crate reports, as an
/// opaque type.
#[verifier::external_type_specification]
#[verifier::external_body]
pub struct ExIoError(std::io::Error);

/// Declares `dashmap::DashSet`, the set of directories already claimed, as an
/// opaque type.
#[verifier::external_type_specification]
#[verifier::external_body]
#[verifier::reject_recursive_types(K)]
#[verifier::reject_recursive_types(S)]
pub struct ExDashSet<K, S>(dashmap::DashSet<K, S>);

/// The texts held by a `dashmap::DashSet<String>`.
pub uninterp spec fn dash_set_items(set: dashmap::DashSet<String>) -> Set<Seq<char>>;

/// `dashmap::DashSet::new`: a set that holds nothing.
#[verifier::external_body]
fn dash_set_new() -> (res: dashmap::DashSet<String>)
    ensures
        dash_set_items(res) == Set::<Seq<char>>::empty(),
{
    dashmap::DashSet::new()
}

/// `dashmap::DashSet::insert`: adds `key` and tells whether it was absent
/// before (the set compares `String`s by their characters).
#[verifier::external_body]
fn dash_set_insert(set: &mut dashmap::DashSet<String>, key: String) -> (res: bool)
    ensures
        res == !dash_set_items(*old(set)).contains(key@),
        dash_set_items(*final(set)) == dash_set_items(*old(set)).insert(key@),
{
    set.insert(key)
}

/// The bytes that `tar::Builder::append_data` writes for a directory entry
/// built from `tar::Header::new_gnu` with the given path, mode, owner and
/// group, or nothing when the crate refuses the entry.
pub uninterp spec fn tar_directory_bytes(path: Seq<char>, mode: u32, uid: u64, gid: u64) -> Option<
    Seq<u8>,
>;

/// The bytes that `tar::Builder::append_data` writes for a regular file entry
/// with the given path, content, size, mode, owner and group, or nothing when
/// the crate refuses the entry.
pub uninterp spec fn tar_file_bytes(
    path: Seq<char>,
    content: Seq<u8>,
    size: u64,
    mode: u32,
    uid: u64,
    gid: u64,
) -> Option<Seq<u8>>;

/// The bytes that `tar::Builder::append_link` writes for a symlink entry with
/// the given path, target, mode, owner and group, or nothing when the crate
/// refuses the entry.
pub uninterp spec fn tar_symlink_bytes(
    path: Seq<char>,
    target: Seq<char>,
    mode: u32,
    uid: u64,
    gid: u64,
) -> Option<Seq<u8>>;

/// Encodes a directory entry: a GNU header (`tar::Header::new_gnu`) with the
/// directory type, size 0 and the given mode, owner and group, appended with
/// `tar::Builder::append_data` and no data to an archive held in memory; the
/// bytes appended are returned. Which paths the crate refuses is not stated.
#[verifier::external_body]
fn tar_directory_entry(path: &str, mode: u32, uid: u64, gid: u64) -> (res: Result<
    Vec<u8>,
    std::io::Error,
>)
    ensures
        res is Ok <==> tar_directory_bytes(path@, mode, uid, gid) is Some,
        res matches Ok(b) ==> tar_directory_bytes(path@, mode, uid, gid) == Some(b@),
{
    let mut header = tar::Header::new_gnu();
    header.set_entry_type(tar::EntryType::Directory);
    header.set_size(0);
    header.set_mode(mode);
    header.set_uid(uid);
    header.set_gid(gid);
    header.set_cksum();
    let mut archive = tar::Builder::new(Vec::new());
    archive.append_data(&mut header, path, std::io::empty())?;
    Ok(std::mem::take(archive.get_mut()))
}

/// Encodes a regular file entry: a GNU header (`tar::Header::new_gnu`) with
/// the given size, mode, owner and group, appended with
/// `tar::Builder::append_data` and `content` to an archive held in memory; the
/// bytes appended are returned. Which paths the crate refuses is not stated.
#[verifier::external_body]
fn tar_file_entry(path: &str, content: &[u8], size: u64, mode: u32, uid: u64, gid: u64) -> (res:
    Result<Vec<u8>, std::io::Error>)
    ensures
        res is Ok <==> tar_file_bytes(path@, content@, size, mode, uid, gid) is Some,
        res matches Ok(b) ==> tar_file_bytes(path@, content@, size, mode, uid, gid) == Some(b@),
{
    let mut header = tar::Header::new_gnu();
    header.set_size(size);
    header.set_mode(mode);
    header.set_uid(uid);
    header.set_gid(gid);
    header.set_cksum();
    let mut archive = tar::Builder::new(Vec::new());
    archive.append_data(&mut header, path, content)?;
    Ok(std::mem::take(archive.get_mut()))
}

/// Encodes a symlink entry: a GNU header (`tar::Header::new_gnu`) with the
/// symlink type, size 0 and the given mode, owner and group, appended with
/// `tar::Builder::append_link` to an archive held in memory; the bytes
/// appended are returned. Which paths the crate refuses is not stated.
#[verifier::external_body]
fn tar_symlink_entry(path: &str, target: &str, mode: u32, uid: u64, gid: u64) -> (res: Result<
    Vec<u8>,
    std::io::Error,
>)
    ensures
        res is Ok <==> tar_symlink_bytes(path@, target@, mode, uid, gid) is Some,
        res matches Ok(b) ==> tar_symlink_bytes(path@, target@, mode, uid, gid) == Some(b@),
{
    let mut header = tar::Header::new_gnu();
    header.set_entry_type(tar::EntryType::Symlink);
    header.set_size(0);
    header.set_mode(mode);
    header.set_uid(uid);
    header.set_gid(gid);
    header.set_cksum();
    let mut archive = tar::Builder::new(Vec::new());
    archive.append_link(&mut header, path, target)?;
    Ok(std::mem::take(archive.get_mut()))
}

/// The mode of the directories that the archive creates.
pub const DIRECTORY_MODE: u32 = 0o755;

/// The number of zero bytes that close a tar archive.
pub const END_OF_ARCHIVE_LEN: usize = 1024;

/// Why the archive refused an entry.
#[derive(Debug)]
pub enum ArchiveError {
    /// The `tar` crate refused the entry.
    Io(std::io::Error),
}

/// The path an entry gets in the archive: `"./"` joined to the path without
/// its leading "/".
pub open spec fn relative_of(path: PathView) -> PathView {
    curdir_view().join(path.strip_root())
}

/// `Path::new("./").join(path.strip_prefix("/").unwrap_or(path))`.
pub fn to_relative_path(path: &FsPath) -> (res: FsPath)
    ensures
        res@ == relative_of(path@),
{
    FsPath::current_dir().join(&path.strip_root())
}

/// One entry of the archive.
pub enum Record {
    Directory(PathView),
    File { path: PathView, content: Seq<u8>, mode: u32 },
    Symlink { path: PathView, target: Seq<char>, mode: u32 },
}

impl Record {
    pub open spec fn path(self) -> PathView {
        match self {
            Record::Directory(p) => p,
            Record::File { path, .. } => path,
            Record::Symlink { path, .. } => path,
        }
    }
}

/// The bytes of an entry, owned by `uid` and `gid`.
pub open spec fn record_bytes(r: Record, uid: u64, gid: u64) -> Option<Seq<u8>> {
    match r {
        Record::Directory(p) => tar_directory_bytes(p.text(), DIRECTORY_MODE, uid, gid),
        Record::File { path, content, mode } => tar_file_bytes(
            path.text(),
            content,
            content.len() as u64,
            mode,
            uid,
            gid,
        ),
        Record::Symlink { path, target, mode } => tar_symlink_bytes(
            path.text(),
            target,
            mode,
            uid,
            gid,
        ),
    }
}

/// What an archive has done so far: the texts of the directories it has
/// claimed, the entries it has written, and the bytes not yet taken.
pub struct ArchiveState {
    pub seen: Set<Seq<char>>,
    pub records: Seq<Record>,
    pub output: Seq<u8>,
}

/// Writes one entry; fails, leaving the state as it was, when the entry is refused.
pub open spec fn append_record(st: ArchiveState, r: Record, uid: u64, gid: u64) -> (
    ArchiveState,
    bool,
) {
    match record_bytes(r, uid, gid) {
        Some(b) => (ArchiveState { seen: st.seen, records: st.records.push(r), output: st.output + b }, true),
        None => (st, false),
    }
}

/// The `k`-th ancestor candidate of `q`: its first `k` components.
pub open spec fn candidate(q: PathView, k: int) -> PathView {
    PathView { absolute: q.absolute, parts: q.parts.take(k) }
}

/// A directory that the archive writes: neither "." nor the empty path.
pub open spec fn creatable(d: PathView) -> bool {
    !d.is_curdir() && !d.is_empty()
}

/// Considers one ancestor candidate: a creatable one that is not yet claimed
/// is claimed and written as a directory.
pub open spec fn claim_dir(st: ArchiveState, d: PathView, uid: u64, gid: u64) -> (ArchiveState, bool) {
    if !creatable(d) || st.seen.contains(d.text()) {
        (st, true)
    } else {
        append_record(
            ArchiveState { seen: st.seen.insert(d.text()), ..st },
            Record::Directory(d),
            uid,
            gid,
        )
    }
}

/// The state after considering the first `k` ancestor candidates of `q`,
/// shortest first, until one fails.
pub open spec fn emit_dirs(st: ArchiveState, q: PathView, k: nat, uid: u64, gid: u64) -> (
    ArchiveState,
    bool,
)
    decreases k,
{
    if k == 0 {
        (st, true)
    } else {
        let (prev, ok) = emit_dirs(st, q, (k - 1) as nat, uid, gid);
        if !ok {
            (prev, false)
        } else {
            claim_dir(prev, candidate(q, k - 1), uid, gid)
        }
    }
}

/// Once considering the candidates has failed, later candidates change nothing.
proof fn lemma_emit_dirs_stop(st: ArchiveState, q: PathView, j: nat, m: nat, uid: u64, gid: u64)
    requires
        j <= m,
        !emit_dirs(st, q, j, uid, gid).1,
    ensures
        emit_dirs(st, q, m, uid, gid) == emit_dirs(st, q, j, uid, gid),
    decreases m,
{
    if m > j {
        lemma_emit_dirs_stop(st, q, j, (m - 1) as nat, uid, gid);
    }
}

/// The state after making sure that every ancestor directory of `p` exists.
pub open spec fn ensure_dirs(st: ArchiveState, p: PathView, uid: u64, gid: u64) -> (
    ArchiveState,
    bool,
) {
    match p.parent() {
        None => (st, true),
        Some(q) => emit_dirs(st, q, (q.parts.len() + 1) as nat, uid, gid),
    }
}

/// The state after writing a file at `path`.
pub open spec fn after_write(
    st: ArchiveState,
    path: PathView,
    content: Seq<u8>,
    mode: u32,
    uid: u64,
    gid: u64,
) -> (ArchiveState, bool) {
    let rel = relative_of(path);
    let (s1, ok) = ensure_dirs(st, rel, uid, gid);
    if !ok {
        (s1, false)
    } else {
        append_record(s1, Record::File { path: rel, content, mode }, uid, gid)
    }
}

/// The state after writing a symlink at `path` that points to `target`.
pub open spec fn after_symlink(
    st: ArchiveState,
    path: PathView,
    target: Seq<char>,
    mode: u32,
    uid: u64,
    gid: u64,
) -> (ArchiveState, bool) {
    let rel = relative_of(path);
    let (s1, ok) = ensure_dirs(st, rel, uid, gid);
    if !ok {
        (s1, false)
    } else {
        append_record(s1, Record::Symlink { path: rel, target, mode }, uid, gid)
    }
}

/// The zero bytes that close a tar archive (`tar::Builder::finish`).
pub open spec fn end_of_archive() -> Seq<u8> {
    Seq::new(END_OF_ARCHIVE_LEN as nat, |i: int| 0u8)
}

/// A `tar` archive written entry by entry; the bytes it produces wait in
/// memory until they are taken.
pub struct TarDestination {
    seen: dashmap::DashSet<String>,
    uid: u64,
    gid: u64,
    output: Vec<u8>,
    records: Ghost<Seq<Record>>,
}

impl TarDestination {
    pub closed spec fn state(&self) -> ArchiveState {
        ArchiveState {
            seen: dash_set_items(self.seen),
            records: self.records@,
            output: self.output@,
        }
    }

    pub closed spec fn uid(&self) -> u64 {
        self.uid
    }

    pub closed spec fn gid(&self) -> u64 {
        self.gid
    }

    /// An archive with no entries whose entries belong to `uid` and `gid`.
    pub fn new(uid: u64, gid: u64) -> (res: TarDestination)
        ensures
            res.uid() == uid,
            res.gid() == gid,
            res.state() == (ArchiveState {
                seen: Set::empty(),
                records: Seq::empty(),
                output: Seq::empty(),
            }),
    {
        TarDestination {
            seen: dash_set_new(),
            uid,
            gid,
            output: Vec::new(),
            records: Ghost(Seq::empty()),
        }
    }

    /// Adds the bytes of an entry to the output.
    fn emit(&mut self, bytes: Result<Vec<u8>, std::io::Error>, Ghost(r): Ghost<Record>) -> (res:
        Result<(), ArchiveError>)
        ensures
            final(self).uid() == old(self).uid(),
            final(self).gid() == old(self).gid(),
            res is Ok <==> bytes is Ok,
            bytes matches Ok(b) ==> final(self).state() == (ArchiveState {
                seen: old(self).state().seen,
                records: old(self).state().records.push(r),
                output: old(self).state().output + b@,
            }),
            bytes is Err ==> final(self).state() == old(self).state(),
    {
        match bytes {
            Ok(b) => {
                let mut b = b;
                self.output.append(&mut b);
                self.records = Ghost(self.records@.push(r));
                Ok(())
            },
            Err(e) => Err(ArchiveError::Io(e)),
        }
    }

    /// Writes a directory entry at `path`.
    fn create_dir(&mut self, path: &FsPath) -> (res: Result<(), ArchiveError>)
        ensures
            final(self).uid() == old(self).uid(),
            final(self).gid() == old(self).gid(),
            (final(self).state(), res is Ok) == append_record(
                old(self).state(),
                Record::Directory(path@),
                old(self).uid(),
                old(self).gid(),
            ),
    {
        let bytes = tar_directory_entry(path.render().as_str(), DIRECTORY_MODE, self.uid, self.gid);
        self.emit(bytes, Ghost(Record::Directory(path@)))
    }

    /// Writes every ancestor directory of `path` that is not written yet,
    /// shortest first, skipping "." and the empty path.
    fn ensure_dir(&mut self, path: &FsPath) -> (res: Result<(), ArchiveError>)
        ensures
            final(self).uid() == old(self).uid(),
            final(self).gid() == old(self).gid(),
            (final(self).state(), res is Ok) == ensure_dirs(
                old(self).state(),
                path@,
                old(self).uid(),
                old(self).gid(),
            ),
    {
        let parent = match path.parent() {
            Some(q) => q,
            None => return Ok(()),
        };
        let ghost st0 = self.state();
        let ghost q = parent@;
        let ghost uid = self.uid;
        let ghost gid = self.gid;
        let n = parent.len();
        for k in 0..n
            invariant
                n == q.parts.len(),
                q == parent@,
                path@.parent() == Some(q),
                self.uid == uid,
                self.gid == gid,
                uid == old(self).uid(),
                gid == old(self).gid(),
                st0 == old(self).state(),
                (self.state(), true) == emit_dirs(st0, q, k as nat, uid, gid),
        {
            let d = parent.prefix(k);
            let ghost before = self.state();
            let r = self.claim(&d);
            assert(d@ == candidate(q, k as int));
            assert(emit_dirs(st0, q, (k + 1) as nat, uid, gid) == claim_dir(before, d@, uid, gid));
            if r.is_err() {
                proof {
                    lemma_emit_dirs_stop(st0, q, (k + 1) as nat, (n + 1) as nat, uid, gid);
                }
                return r;
            }
        }
        let d = parent.prefix(n);
        assert(q.parts.take(n as int) =~= q.parts);
        let r = self.claim(&d);
        r
    }

    /// Considers one ancestor candidate (see `claim_dir`).
    fn claim(&mut self, d: &FsPath) -> (res: Result<(), ArchiveError>)
        ensures
            final(self).uid() == old(self).uid(),
            final(self).gid() == old(self).gid(),
            (final(self).state(), res is Ok) == claim_dir(
                old(self).state(),
                d@,
                old(self).uid(),
                old(self).gid(),
            ),
    {
        if !d.is_current_dir() && !d.is_empty() {
            let ghost before = self.state();
            let fresh = dash_set_insert(&mut self.seen, d.render());
            if fresh {
                return self.create_dir(d);
            }
            assert(self.state().seen =~= before.seen);
        }
        Ok(())
    }
    /// Writes a file at `path` (made relative, see `to_relative_path`) with
    /// the given content and mode, after its missing ancestor directories.
    pub fn write(&mut self, path: &FsPath, content: &[u8], mode: u32) -> (res: Result<
        (),
        ArchiveError,
    >)
        ensures
            final(self).uid() == old(self).uid(),
            final(self).gid() == old(self).gid(),
            (final(self).state(), res is Ok) == after_write(
                old(self).state(),
                path@,
                content@,
                mode,
                old(self).uid(),
                old(self).gid(),
            ),
    {
        let path = to_relative_path(path);
        self.ensure_dir(&path)?;
        let size = content.len() as u64;
        let bytes = tar_file_entry(path.render().as_str(), content, size, mode, self.uid, self.gid);
        self.emit(bytes, Ghost(Record::File { path: path@, content: content@, mode }))
    }

    /// Writes a symlink at `path` (made relative, see `to_relative_path`) that
    /// points to `target`, after its missing ancestor directories. The
    /// target text is handed to the `tar` crate as given; the crate stores a
    /// target shorter than its header field component by component, and a
    /// longer one as given.
    pub fn symlink(&mut self, path: &FsPath, target: &str, mode: u32) -> (res: Result<
        (),
        ArchiveError,
    >)
        ensures
            final(self).uid() == old(self).uid(),
            final(self).gid() == old(self).gid(),
            (final(self).state(), res is Ok) == after_symlink(
                old(self).state(),
                path@,
                target@,
                mode,
                old(self).uid(),
                old(self).gid(),
            ),
    {
        let path = to_relative_path(path);
        self.ensure_dir(&path)?;
        let bytes = tar_symlink_entry(
            path.render().as_str(),
            target,
            mode,
            self.uid,
            self.gid,
        );
        self.emit(bytes, Ghost(Record::Symlink { path: path@, target: target@, mode }))
    }

    /// Takes the bytes written so far and not yet taken.
    pub fn take_output(&mut self) -> (res: Vec<u8>)
        ensures
            res@ == old(self).state().output,
            final(self).state() == (ArchiveState { output: Seq::empty(), ..old(self).state() }),
            final(self).uid() == old(self).uid(),
            final(self).gid() == old(self).gid(),
    {
        let mut out: Vec<u8> = Vec::new();
        std::mem::swap(&mut out, &mut self.output);
        out
    }

    /// Closes the archive: the bytes not yet taken, followed by the zero
    /// blocks that end a tar archive.
    pub fn finish(self) -> (res: Vec<u8>)
        ensures
            res@ == self.state().output + end_of_archive(),
    {
        let mut out = self.output;
        let ghost head = out@;
        for i in 0..END_OF_ARCHIVE_LEN
            invariant
                out@ == head + Seq::new(i as nat, |j: int| 0u8),
        {
            out.push(0u8);
            assert(out@ =~= head + Seq::new((i + 1) as nat, |j: int| 0u8));
        }
        out
    }
}

/// The entry `r` is a directory with the text `t`.
pub open spec fn is_dir_text(r: Record, t: Seq<char>) -> bool {
    r is Directory && r.path().text() == t
}

/// Some entry before index `n` is a directory with the text `t`.
pub open spec fn dir_before(records: Seq<Record>, t: Seq<char>, n: int) -> bool {
    exists|j: int| 0 <= j < n && #[trigger] is_dir_text(records[j], t)
}

/// Every directory that the entry at index `i` needs (each ancestor of its
/// path but "." and the empty path) is written before it.
pub open spec fn parents_written(records: Seq<Record>, i: int) -> bool {
    forall|k: int|
        #![trigger candidate(records[i].path().parent()->0, k)]
        records[i].path().parent() is Some && 0 <= k <= records[i].path().parent()->0.parts.len()
            && creatable(candidate(records[i].path().parent()->0, k)) ==> dir_before(
            records,
            candidate(records[i].path().parent()->0, k).text(),
            i,
        )
}

/// What every archive keeps: the claimed texts are those of the directories
/// written; no directory is written twice; "." and the empty path are never
/// written as directories; and the directories that an entry needs come
/// before it.
pub open spec fn archive_wf(st: ArchiveState) -> bool {
    &&& forall|t: Seq<char>| #[trigger]
        st.seen.contains(t) <==> dir_before(st.records, t, st.records.len() as int)
    &&& forall|i: int, j: int|
        #![trigger st.records[i], st.records[j]]
        0 <= i < j < st.records.len() && st.records[i] is Directory && st.records[j] is Directory
            ==> st.records[i].path().text() != st.records[j].path().text()
    &&& forall|i: int|
        #![trigger st.records[i]]
        0 <= i < st.records.len() && st.records[i] is Directory ==> creatable(st.records[i].path())
    &&& forall|i: int| 0 <= i < st.records.len() ==> #[trigger] parents_written(st.records, i)
}

/// A directory before `n` is still before `n` once more entries follow.
proof fn lemma_dir_before_push(records: Seq<Record>, r: Record, t: Seq<char>, n: int)
    requires
        dir_before(records, t, n),
        n <= records.len(),
    ensures
        dir_before(records.push(r), t, n),
{
    let j = choose|j: int| 0 <= j < n && #[trigger] is_dir_text(records[j], t);
    assert(records.push(r)[j] == records[j]);
}

/// Appending an entry whose needed directories are all claimed keeps the
/// archive well formed; a directory entry must be creatable and unclaimed,
/// and is claimed with it.
proof fn lemma_append_keeps_wf(st: ArchiveState, r: Record, seen: Set<Seq<char>>)
    requires
        archive_wf(st),
        r is Directory ==> creatable(r.path()) && !st.seen.contains(r.path().text()) && seen
            == st.seen.insert(r.path().text()),
        !(r is Directory) ==> seen == st.seen,
        r.path().parent() is Some ==> forall|k: int|
            0 <= k <= r.path().parent()->0.parts.len() && creatable(
                #[trigger] candidate(r.path().parent()->0, k),
            ) ==> st.seen.contains(candidate(r.path().parent()->0, k).text()),
    ensures
        archive_wf(ArchiveState { seen, records: st.records.push(r), output: st.output }),
{
    let recs = st.records;
    let n = recs.len() as int;
    let new_recs = recs.push(r);
    let ns = ArchiveState { seen, records: new_recs, output: st.output };
    assert forall|t: Seq<char>| #[trigger] seen.contains(t) <==> dir_before(new_recs, t, n + 1) by {
        if seen.contains(t) {
            if st.seen.contains(t) {
                lemma_dir_before_push(recs, r, t, n);
                let j = choose|j: int| 0 <= j < n && #[trigger] is_dir_text(new_recs[j], t);
                assert(is_dir_text(new_recs[j], t));
            } else {
                assert(is_dir_text(new_recs[n], t));
            }
        }
        if dir_before(new_recs, t, n + 1) {
            let j = choose|j: int| 0 <= j < n + 1 && #[trigger] is_dir_text(new_recs[j], t);
            if j < n {
                assert(new_recs[j] == recs[j]);
                assert(dir_before(recs, t, n));
            }
        }
    }
    assert forall|i: int, j: int|
        #![trigger new_recs[i], new_recs[j]]
        0 <= i < j < new_recs.len() && new_recs[i] is Directory && new_recs[j] is Directory
            implies new_recs[i].path().text() != new_recs[j].path().text() by {
        if j == n {
            assert(new_recs[i] == recs[i]);
            assert(is_dir_text(recs[i], recs[i].path().text()));
            if recs[i].path().text() == r.path().text() {
                assert(dir_before(recs, r.path().text(), n));
            }
        } else {
            assert(new_recs[i] == recs[i]);
            assert(new_recs[j] == recs[j]);
        }
    }
    assert forall|i: int|
        #![trigger new_recs[i]]
        0 <= i < new_recs.len() && new_recs[i] is Directory implies creatable(
            new_recs[i].path(),
        ) by {
        if i < n {
            assert(new_recs[i] == recs[i]);
        }
    }
    assert forall|i: int| 0 <= i < new_recs.len() implies #[trigger] parents_written(new_recs, i) by {
        if i < n {
            assert(new_recs[i] == recs[i]);
            assert(parents_written(recs, i));
            assert forall|k: int|
                #![trigger candidate(new_recs[i].path().parent()->0, k)]
                new_recs[i].path().parent() is Some && 0 <= k <= new_recs[i].path().parent()->0.parts.len()
                    && creatable(candidate(new_recs[i].path().parent()->0, k)) implies dir_before(
                new_recs,
                candidate(new_recs[i].path().parent()->0, k).text(),
                i,
            ) by {
                let t = candidate(recs[i].path().parent()->0, k).text();
                assert(dir_before(recs, t, i));
                lemma_dir_before_push(recs, r, t, i);
            }
        } else {
            assert forall|k: int|
                #![trigger candidate(new_recs[i].path().parent()->0, k)]
                new_recs[i].path().parent() is Some && 0 <= k <= new_recs[i].path().parent()->0.parts.len()
                    && creatable(candidate(new_recs[i].path().parent()->0, k)) implies dir_before(
                new_recs,
                candidate(new_recs[i].path().parent()->0, k).text(),
                i,
            ) by {
                let t = candidate(r.path().parent()->0, k).text();
                assert(st.seen.contains(t));
                assert(dir_before(recs, t, n));
                lemma_dir_before_push(recs, r, t, n);
            }
        }
    }
}

/// The candidates of a candidate are the shorter candidates.
proof fn lemma_candidate_candidate(q: PathView, a: int, b: int)
    requires
        0 <= b <= a <= q.parts.len(),
    ensures
        candidate(candidate(q, a), b) == candidate(q, b),
{
    assert(q.parts.take(a).take(b) =~= q.parts.take(b));
}

/// Considering candidates keeps the archive well formed and claims every
/// creatable candidate considered.
proof fn lemma_emit_dirs_wf(st: ArchiveState, q: PathView, k: nat, uid: u64, gid: u64)
    requires
        archive_wf(st),
        k <= q.parts.len() + 1,
        emit_dirs(st, q, k, uid, gid).1,
    ensures
        archive_wf(emit_dirs(st, q, k, uid, gid).0),
        forall|m: int|
            0 <= m < k && creatable(#[trigger] candidate(q, m)) ==> emit_dirs(
                st,
                q,
                k,
                uid,
                gid,
            ).0.seen.contains(candidate(q, m).text()),
        forall|t: Seq<char>| #[trigger]
            st.seen.contains(t) ==> emit_dirs(st, q, k, uid, gid).0.seen.contains(t),
    decreases k,
{
    if k > 0 {
        let km = (k - 1) as nat;
        lemma_emit_dirs_wf(st, q, km, uid, gid);
        let prev = emit_dirs(st, q, km, uid, gid).0;
        let d = candidate(q, k - 1);
        if creatable(d) && !prev.seen.contains(d.text()) {
            let claimed = ArchiveState { seen: prev.seen.insert(d.text()), ..prev };
            let r = Record::Directory(d);
            let b = record_bytes(r, uid, gid)->0;
            if d.parent() is Some {
                assert(d.parent()->0 == candidate(q, k - 2)) by {
                    assert(q.parts.take(k - 1).drop_last() =~= q.parts.take(k - 2));
                }
                assert forall|m: int|
                    0 <= m <= d.parent()->0.parts.len() && creatable(
                        #[trigger] candidate(d.parent()->0, m),
                    ) implies prev.seen.contains(candidate(d.parent()->0, m).text()) by {
                    lemma_candidate_candidate(q, k - 2, m);
                }
            }
            lemma_append_keeps_wf(prev, r, claimed.seen);
            let next = ArchiveState { seen: claimed.seen, records: prev.records.push(r), output: prev.output };
            assert(archive_wf(next));
            assert(emit_dirs(st, q, k, uid, gid).0 == ArchiveState { output: prev.output + b, ..next });
        }
    }
}

/// A fresh archive is well formed.
pub proof fn lemma_new_archive_wf()
    ensures
        archive_wf(ArchiveState { seen: Set::empty(), records: Seq::empty(), output: Seq::empty() }),
{
}

/// Writing a file keeps the archive well formed: its parent directories come
/// before it, each directory is written once, and "." and the empty path are
/// never written as directories.
pub proof fn lemma_write_keeps_wf(
    st: ArchiveState,
    path: PathView,
    content: Seq<u8>,
    mode: u32,
    uid: u64,
    gid: u64,
)
    requires
        archive_wf(st),
        after_write(st, path, content, mode, uid, gid).1,
    ensures
        archive_wf(after_write(st, path, content, mode, uid, gid).0),
{
    let rel = relative_of(path);
    let r = Record::File { path: rel, content, mode };
    lemma_ensure_dirs_wf(st, rel, uid, gid);
    let s1 = ensure_dirs(st, rel, uid, gid).0;
    lemma_append_keeps_wf(s1, r, s1.seen);
    let next = ArchiveState { seen: s1.seen, records: s1.records.push(r), output: s1.output };
    assert(archive_wf(next));
    let b = record_bytes(r, uid, gid)->0;
    assert(archive_wf(ArchiveState { output: s1.output + b, ..next }));
}

/// Writing a symlink keeps the archive well formed (see `lemma_write_keeps_wf`).
pub proof fn lemma_symlink_keeps_wf(
    st: ArchiveState,
    path: PathView,
    target: Seq<char>,
    mode: u32,
    uid: u64,
    gid: u64,
)
    requires
        archive_wf(st),
        after_symlink(st, path, target, mode, uid, gid).1,
    ensures
        archive_wf(after_symlink(st, path, target, mode, uid, gid).0),
{
    let rel = relative_of(path);
    let r = Record::Symlink { path: rel, target, mode };
    lemma_ensure_dirs_wf(st, rel, uid, gid);
    let s1 = ensure_dirs(st, rel, uid, gid).0;
    lemma_append_keeps_wf(s1, r, s1.seen);
    let next = ArchiveState { seen: s1.seen, records: s1.records.push(r), output: s1.output };
    assert(archive_wf(next));
    let b = record_bytes(r, uid, gid)->0;
    assert(archive_wf(ArchiveState { output: s1.output + b, ..next }));
}

/// Making sure of the ancestors of `p` keeps the archive well formed and
/// claims each creatable ancestor.
proof fn lemma_ensure_dirs_wf(st: ArchiveState, p: PathView, uid: u64, gid: u64)
    requires
        archive_wf(st),
        ensure_dirs(st, p, uid, gid).1,
    ensures
        archive_wf(ensure_dirs(st, p, uid, gid).0),
        p.parent() is Some ==> forall|k: int|
            0 <= k <= p.parent()->0.parts.len() && creatable(#[trigger] candidate(p.parent()->0, k))
                ==> ensure_dirs(st, p, uid, gid).0.seen.contains(candidate(p.parent()->0, k).text()),
{
    if let Some(q) = p.parent() {
        lemma_emit_dirs_wf(st, q, (q.parts.len() + 1) as nat, uid, gid);
    }
}

/// An absolute path and the same path without its leading "/" get the same
/// place in the archive, and that place is a relative path starting with ".".
pub proof fn lemma_relative_ignores_root(path: PathView)
    ensures
        relative_of(path) == relative_of(path.strip_root()),
        !relative_of(path).absolute,
        relative_of(path).parts.len() > 0,
        relative_of(path).parts[0] == crate::path::curdir(),
{
}

/// Making a path relative twice changes nothing more.
pub proof fn lemma_relative_idempotent(path: PathView)
    requires
        path.wf(),
    ensures
        relative_of(relative_of(path)) == relative_of(path),
{
    let r = relative_of(path);
    let p = path.strip_root();
    if p.parts.len() > 0 && p.parts[0] == crate::path::curdir() {
        assert(r.parts =~= seq![crate::path::curdir()] + p.parts.skip(1));
    } else {
        assert(r.parts =~= seq![crate::path::curdir()] + p.parts);
    }
    assert(r.parts.skip(1) =~= r.parts.subrange(1, r.parts.len() as int));
    assert(seq![crate::path::curdir()] + r.parts.skip(1) =~= r.parts);
}

/// The bytes of the given entries, one after another (an entry that the
/// crate refuses contributes nothing).
pub open spec fn entries_bytes(records: Seq<Record>, uid: u64, gid: u64) -> Seq<u8>
    decreases records.len(),
{
    if records.len() == 0 {
        Seq::empty()
    } else {
        entries_bytes(records.drop_last(), uid, gid) + match record_bytes(records.last(), uid, gid) {
            Some(b) => b,
            None => Seq::empty(),
        }
    }
}

/// The output grows by exactly the bytes of the entries written, in order.
pub open spec fn grows_by_entries(before: ArchiveState, after: ArchiveState, uid: u64, gid: u64) -> bool {
    &&& before.records.is_prefix_of(after.records)
    &&& after.output == before.output + entries_bytes(
        after.records.skip(before.records.len() as int),
        uid,
        gid,
    )
}

proof fn lemma_grows_trans(a: ArchiveState, b: ArchiveState, c: ArchiveState, uid: u64, gid: u64)
    requires
        grows_by_entries(a, b, uid, gid),
        grows_by_entries(b, c, uid, gid),
    ensures
        grows_by_entries(a, c, uid, gid),
{
    let ab = b.records.skip(a.records.len() as int);
    let bc = c.records.skip(b.records.len() as int);
    assert(c.records.skip(a.records.len() as int) =~= ab + bc);
    lemma_entries_bytes_concat(ab, bc, uid, gid);
    assert(c.output =~= a.output + entries_bytes(ab + bc, uid, gid));
}

proof fn lemma_entries_bytes_concat(x: Seq<Record>, y: Seq<Record>, uid: u64, gid: u64)
    ensures
        entries_bytes(x + y, uid, gid) == entries_bytes(x, uid, gid) + entries_bytes(y, uid, gid),
    decreases y.len(),
{
    if y.len() == 0 {
        assert(x + y =~= x);
    } else {
        lemma_entries_bytes_concat(x, y.drop_last(), uid, gid);
        assert((x + y).drop_last() =~= x + y.drop_last());
        assert((x + y).last() == y.last());
    }
}

proof fn lemma_append_grows(st: ArchiveState, r: Record, uid: u64, gid: u64)
    ensures
        grows_by_entries(st, append_record(st, r, uid, gid).0, uid, gid),
{
    let after = append_record(st, r, uid, gid).0;
    if append_record(st, r, uid, gid).1 {
        let added = after.records.skip(st.records.len() as int);
        assert(added =~= seq![r]);
        assert(added.drop_last() =~= Seq::<Record>::empty());
        assert(added.last() == r);
        let b = record_bytes(r, uid, gid)->0;
        assert(entries_bytes(added.drop_last(), uid, gid) =~= Seq::<u8>::empty());
        assert(entries_bytes(added, uid, gid) =~= b);
    } else {
        assert(after.records.skip(st.records.len() as int) =~= Seq::<Record>::empty());
    }
    assert(after.output =~= st.output + entries_bytes(
        after.records.skip(st.records.len() as int),
        uid,
        gid,
    ));
}

proof fn lemma_grows_refl(st: ArchiveState, uid: u64, gid: u64)
    ensures
        grows_by_entries(st, st, uid, gid),
{
    assert(st.records.skip(st.records.len() as int) =~= Seq::<Record>::empty());
    assert(st.output =~= st.output + Seq::<u8>::empty());
}

proof fn lemma_emit_dirs_grows(st: ArchiveState, q: PathView, k: nat, uid: u64, gid: u64)
    ensures
        grows_by_entries(st, emit_dirs(st, q, k, uid, gid).0, uid, gid),
    decreases k,
{
    if k == 0 {
        lemma_grows_refl(st, uid, gid);
    } else {
        let km = (k - 1) as nat;
        lemma_emit_dirs_grows(st, q, km, uid, gid);
        let (prev, ok) = emit_dirs(st, q, km, uid, gid);
        if ok {
            let d = candidate(q, k - 1);
            if !creatable(d) || prev.seen.contains(d.text()) {
            } else {
                let claimed = ArchiveState { seen: prev.seen.insert(d.text()), ..prev };
                lemma_append_grows(claimed, Record::Directory(d), uid, gid);
                lemma_grows_trans(st, claimed, emit_dirs(st, q, k, uid, gid).0, uid, gid);
            }
        }
    }
}

/// Writing a file adds to the output exactly the bytes of the entries it
/// writes (its missing parent directories, then the file), and keeps the
/// entries written before.
pub proof fn lemma_write_output(
    st: ArchiveState,
    path: PathView,
    content: Seq<u8>,
    mode: u32,
    uid: u64,
    gid: u64,
)
    ensures
        grows_by_entries(st, after_write(st, path, content, mode, uid, gid).0, uid, gid),
{
    let rel = relative_of(path);
    let s1 = ensure_dirs(st, rel, uid, gid).0;
    if let Some(q) = rel.parent() {
        lemma_emit_dirs_grows(st, q, (q.parts.len() + 1) as nat, uid, gid);
    } else {
        lemma_grows_refl(st, uid, gid);
    }
    if ensure_dirs(st, rel, uid, gid).1 {
        lemma_append_grows(s1, Record::File { path: rel, content, mode }, uid, gid);
        lemma_grows_trans(st, s1, after_write(st, path, content, mode, uid, gid).0, uid, gid);
    }
}

/// Writing a symlink adds to the output exactly the bytes of the entries it
/// writes (see `lemma_write_output`).
pub proof fn lemma_symlink_output(
    st: ArchiveState,
    path: PathView,
    target: Seq<char>,
    mode: u32,
    uid: u64,
    gid: u64,
)
    ensures
        grows_by_entries(st, after_symlink(st, path, target, mode, uid, gid).0, uid, gid),
{
    let rel = relative_of(path);
    let s1 = ensure_dirs(st, rel, uid, gid).0;
    if let Some(q) = rel.parent() {
        lemma_emit_dirs_grows(st, q, (q.parts.len() + 1) as nat, uid, gid);
    } else {
        lemma_grows_refl(st, uid, gid);
    }
    if ensure_dirs(st, rel, uid, gid).1 {
        lemma_append_grows(s1, Record::Symlink { path: rel, target, mode }, uid, gid);
        lemma_grows_trans(st, s1, after_symlink(st, path, target, mode, uid, gid).0, uid, gid);
    }
}

/// One call on an archive.
pub enum ArchiveOp {
    Write { path: PathView, content: Seq<u8>, mode: u32 },
    Symlink { path: PathView, target: Seq<char>, mode: u32 },
}

/// The state after one call, and whether it succeeded.
pub open spec fn apply_op(st: ArchiveState, op: ArchiveOp, uid: u64, gid: u64) -> (ArchiveState, bool) {
    match op {
        ArchiveOp::Write { path, content, mode } => after_write(st, path, content, mode, uid, gid),
        ArchiveOp::Symlink { path, target, mode } => after_symlink(st, path, target, mode, uid, gid),
    }
}

/// The state after a sequence of calls, in order, and whether all of them
/// succeeded (the first failure ends the sequence).
pub open spec fn apply_ops(st: ArchiveState, ops: Seq<ArchiveOp>, uid: u64, gid: u64) -> (
    ArchiveState,
    bool,
)
    decreases ops.len(),
{
    if ops.len() == 0 {
        (st, true)
    } else {
        let (prev, ok) = apply_ops(st, ops.drop_last(), uid, gid);
        if !ok {
            (prev, false)
        } else {
            apply_op(prev, ops.last(), uid, gid)
        }
    }
}

/// The empty archive.
pub open spec fn empty_archive() -> ArchiveState {
    ArchiveState { seen: Set::empty(), records: Seq::empty(), output: Seq::empty() }
}

/// After any sequence of successful writes and symlinks on a new archive, the
/// archive is well formed: no directory is written twice (so after writing
/// `/usr/bin/ocinoco` and `/usr/bin/helper`, `usr/bin` is there once), every
/// entry's parent directories come before it, "." and the empty path are
/// never written; and its bytes are exactly the bytes of its entries, in
/// order.
pub proof fn lemma_ops_from_new(ops: Seq<ArchiveOp>, uid: u64, gid: u64)
    requires
        apply_ops(empty_archive(), ops, uid, gid).1,
    ensures
        archive_wf(apply_ops(empty_archive(), ops, uid, gid).0),
        apply_ops(empty_archive(), ops, uid, gid).0.output == entries_bytes(
            apply_ops(empty_archive(), ops, uid, gid).0.records,
            uid,
            gid,
        ),
{
    lemma_new_archive_wf();
    lemma_ops_keep_wf(empty_archive(), ops, uid, gid);
    lemma_ops_grow(empty_archive(), ops, uid, gid);
    let fin = apply_ops(empty_archive(), ops, uid, gid).0;
    assert(fin.records.skip(0) =~= fin.records);
    assert(fin.output =~= Seq::<u8>::empty() + entries_bytes(fin.records, uid, gid));
}

/// Successful calls keep the archive well formed, whatever their number.
pub proof fn lemma_ops_keep_wf(st: ArchiveState, ops: Seq<ArchiveOp>, uid: u64, gid: u64)
    requires
        archive_wf(st),
        apply_ops(st, ops, uid, gid).1,
    ensures
        archive_wf(apply_ops(st, ops, uid, gid).0),
    decreases ops.len(),
{
    if ops.len() > 0 {
        lemma_ops_keep_wf(st, ops.drop_last(), uid, gid);
        let prev = apply_ops(st, ops.drop_last(), uid, gid).0;
        match ops.last() {
            ArchiveOp::Write { path, content, mode } => {
                lemma_write_keeps_wf(prev, path, content, mode, uid, gid);
            },
            ArchiveOp::Symlink { path, target, mode } => {
                lemma_symlink_keeps_wf(prev, path, target, mode, uid, gid);
            },
        }
    }
}

/// Calls add to the output exactly the bytes of the entries they write, in
/// order, and keep the entries written before.
pub proof fn lemma_ops_grow(st: ArchiveState, ops: Seq<ArchiveOp>, uid: u64, gid: u64)
    ensures
        grows_by_entries(st, apply_ops(st, ops, uid, gid).0, uid, gid),
    decreases ops.len(),
{
    if ops.len() == 0 {
        lemma_grows_refl(st, uid, gid);
    } else {
        lemma_ops_grow(st, ops.drop_last(), uid, gid);
        let (prev, ok) = apply_ops(st, ops.drop_last(), uid, gid);
        if ok {
            match ops.last() {
                ArchiveOp::Write { path, content, mode } => {
                    lemma_write_output(prev, path, content, mode, uid, gid);
                },
                ArchiveOp::Symlink { path, target, mode } => {
                    lemma_symlink_output(prev, path, target, mode, uid, gid);
                },
            }
            lemma_grows_trans(st, prev, apply_ops(st, ops, uid, gid).0, uid, gid);
        }
    }
}

/// Every entry of an archive made for `uid` and `gid` is owned by them:
/// directories are written as `tar` directory entries with mode 0755, files
/// and symlinks with their own mode, all with the archive's `uid` and `gid`.
pub proof fn lemma_entries_owned(r: Record, uid: u64, gid: u64)
    ensures
        record_bytes(r, uid, gid) == match r {
            Record::Directory(p) => tar_directory_bytes(p.text(), 0o755u32, uid, gid),
            Record::File { path, content, mode } => tar_file_bytes(
                path.text(),
                content,
                content.len() as u64,
                mode,
                uid,
                gid,
            ),
            Record::Symlink { path, target, mode } => tar_symlink_bytes(
                path.text(),
                target,
                mode,
                uid,
                gid,
            ),
        },
{
}

/// A write adds to the output, after what was there, exactly the `tar`
/// entries of the new records, each owned by the archive's `uid` and `gid`
/// (a directory record `d` contributes
/// `tar_directory_bytes(d.text(), 0o755, uid, gid)`).
pub proof fn lemma_write_dirs_owned(
    st: ArchiveState,
    path: PathView,
    content: Seq<u8>,
    mode: u32,
    uid: u64,
    gid: u64,
    i: int,
)
    requires
        after_write(st, path, content, mode, uid, gid).1,
        st.records.len() <= i < after_write(st, path, content, mode, uid, gid).0.records.len(),
        after_write(st, path, content, mode, uid, gid).0.records[i] is Directory,
    ensures
        record_bytes(after_write(st, path, content, mode, uid, gid).0.records[i], uid, gid)
            == tar_directory_bytes(
            after_write(st, path, content, mode, uid, gid).0.records[i].path().text(),
            0o755u32,
            uid,
            gid,
        ),
{
    lemma_entries_owned(after_write(st, path, content, mode, uid, gid).0.records[i], uid, gid);
}

/// The place of an entry in the archive is "." followed by every component of
/// its path (a leading "/" or "." is dropped).
pub proof fn lemma_relative_keeps_components(path: PathView)
    requires
        path.parts.len() == 0 || path.parts[0] != crate::path::curdir(),
    ensures
        relative_of(path) == (PathView {
            absolute: false,
            parts: seq![crate::path::curdir()] + path.parts,
        }),
{
}

} // verus!
