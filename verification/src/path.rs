//! Unix paths as sequences of components, with the meaning that `std::path`
//! gives to parsing, joining, stripping and taking the parent of a path.
use vstd::prelude::*;

verus! {

/// The character that separates the components of a path.
pub open spec fn sep() -> char {
    '/'
}

/// The text of the "current directory" component.
pub open spec fn curdir() -> Seq<char> {
    seq!['.']
}

/// The text of a path cut at every separator, left to right.
/// `"a//b/"` gives `["a", "", "b", ""]`; the empty text gives `[""]`.
pub open spec fn segments(s: Seq<char>) -> Seq<Seq<char>>
    decreases s.len(),
{
    if s.len() == 0 {
        seq![Seq::<char>::empty()]
    } else {
        let prev = segments(s.drop_last());
        if s.last() == sep() {
            prev.push(Seq::<char>::empty())
        } else {
            prev.update(prev.len() - 1, prev.last().push(s.last()))
        }
    }
}

/// A segment that stands as a component wherever it occurs: neither empty nor ".".
pub open spec fn is_named(seg: Seq<char>) -> bool {
    seg.len() > 0 && seg != curdir()
}

/// `is_named` as a predicate value.
pub open spec fn named() -> spec_fn(Seq<char>) -> bool {
    |seg: Seq<char>| is_named(seg)
}

/// The components kept from the segments of a path: empty segments and "."
/// vanish, except that a relative path whose first segment is "." keeps it.
pub open spec fn select_parts(segs: Seq<Seq<char>>, absolute: bool) -> Seq<Seq<char>> {
    if !absolute && segs.len() > 0 && segs[0] == curdir() {
        seq![curdir()] + segs.skip(1).filter(named())
    } else {
        segs.filter(named())
    }
}

/// Whether a text is an absolute path (it starts with the separator).
pub open spec fn text_is_absolute(s: Seq<char>) -> bool {
    s.len() > 0 && s[0] == sep()
}

/// What a path is made of: whether it starts at the root, and its components.
pub struct PathView {
    pub absolute: bool,
    pub parts: Seq<Seq<char>>,
}

/// The path that a text denotes.
pub open spec fn parse_path(s: Seq<char>) -> PathView {
    PathView {
        absolute: text_is_absolute(s),
        parts: select_parts(segments(s), text_is_absolute(s)),
    }
}

/// The components written one after another, separated by the separator.
pub open spec fn join_parts(parts: Seq<Seq<char>>) -> Seq<char>
    decreases parts.len(),
{
    if parts.len() == 0 {
        Seq::<char>::empty()
    } else if parts.len() == 1 {
        parts[0]
    } else {
        join_parts(parts.drop_last()) + seq![sep()] + parts.last()
    }
}

/// A valid component: non-empty and free of separators.
pub open spec fn part_wf(p: Seq<char>) -> bool {
    p.len() > 0 && !p.contains(sep())
}

impl PathView {
    /// Every component is valid, and "." stands only first in a relative path.
    pub open spec fn wf(self) -> bool {
        forall|i: int|
            #![trigger self.parts[i]]
            0 <= i < self.parts.len() ==> part_wf(self.parts[i]) && (self.parts[i] == curdir()
                ==> i == 0 && !self.absolute)
    }

    /// The text of the path.
    pub open spec fn text(self) -> Seq<char> {
        if self.absolute {
            seq![sep()] + join_parts(self.parts)
        } else {
            join_parts(self.parts)
        }
    }

    /// `path.strip_prefix("/").unwrap_or(path)`.
    pub open spec fn strip_root(self) -> PathView {
        PathView { absolute: false, parts: self.parts }
    }

    /// `self.join(other)`: an absolute `other` replaces `self`; a relative one
    /// is appended, and its leading "." vanishes unless `self` is empty.
    pub open spec fn join(self, other: PathView) -> PathView {
        if other.absolute {
            other
        } else if (self.absolute || self.parts.len() > 0) && other.parts.len() > 0
            && other.parts[0] == curdir() {
            PathView { absolute: self.absolute, parts: self.parts + other.parts.skip(1) }
        } else {
            PathView { absolute: self.absolute, parts: self.parts + other.parts }
        }
    }

    /// `self.parent()`: the path without its last component, if it has one.
    pub open spec fn parent(self) -> Option<PathView> {
        if self.parts.len() > 0 {
            Some(PathView { absolute: self.absolute, parts: self.parts.drop_last() })
        } else {
            None
        }
    }

    /// `self.strip_prefix(base)`: what follows `base` when the components of
    /// `base` begin those of `self`.
    pub open spec fn strip_prefix(self, base: PathView) -> Option<PathView> {
        if !base.absolute && base.parts.len() == 0 {
            Some(self)
        } else if self.absolute == base.absolute && base.parts.is_prefix_of(self.parts) {
            Some(PathView { absolute: false, parts: self.parts.skip(base.parts.len() as int) })
        } else {
            None
        }
    }

    /// The empty relative path `""`.
    pub open spec fn is_empty(self) -> bool {
        !self.absolute && self.parts.len() == 0
    }

    /// The path `"."`.
    pub open spec fn is_curdir(self) -> bool {
        !self.absolute && self.parts == seq![curdir()]
    }
}

/// The path `"/"`.
pub open spec fn root_view() -> PathView {
    PathView { absolute: true, parts: Seq::empty() }
}

/// The path `"."`.
pub open spec fn curdir_view() -> PathView {
    PathView { absolute: false, parts: seq![curdir()] }
}

/// A filesystem path, kept as its components.
#[derive(Debug, PartialEq, Eq)]
pub struct FsPath {
    absolute: bool,
    parts: Vec<Vec<char>>,
}

impl FsPath {
    /// The stored components, as sequences of characters.
    pub closed spec fn raw_parts(&self) -> Seq<Seq<char>> {
        self.parts@.map_values(|p: Vec<char>| p@)
    }

    /// The stored fields form a well-formed path.
    pub closed spec fn fields_wf(&self) -> bool {
        PathView { absolute: self.absolute, parts: self.raw_parts() }.wf()
    }

    #[verifier::type_invariant]
    closed spec fn inv(&self) -> bool {
        self.fields_wf()
    }
}

impl View for FsPath {
    type V = PathView;

    closed spec fn view(&self) -> PathView {
        if self.fields_wf() {
            PathView { absolute: self.absolute, parts: self.raw_parts() }
        } else {
            PathView { absolute: false, parts: Seq::empty() }
        }
    }
}

impl Clone for FsPath {
    fn clone(&self) -> (res: Self)
        ensures
            res@ == self@,
    {
        proof {
            use_type_invariant(self);
        }
        let mut parts: Vec<Vec<char>> = Vec::new();
        let n = self.parts.len();
        for i in 0..n
            invariant
                n == self.parts@.len(),
                self.fields_wf(),
                parts@.len() == i,
                forall|j: int| 0 <= j < i ==> #[trigger] parts@[j]@ == self.parts@[j]@,
        {
            parts.push(self.parts[i].clone());
        }
        assert(parts@.map_values(|p: Vec<char>| p@) =~= self.raw_parts());
        FsPath { absolute: self.absolute, parts }
    }
}

/// The characters of a text.
fn chars_of(s: &str) -> (res: Vec<char>)
    ensures
        res@ == s@,
{
    broadcast use vstd::string::group_string_axioms;

    let mut res: Vec<char> = Vec::new();
    for c in it: s.chars()
        invariant
            it.seq() == s@,
            res@.len() == it.index(),
            forall|i: int| 0 <= i < res@.len() ==> res@[i] == it.seq()[i],
    {
        res.push(c);
    }
    assert(res@ =~= s@);
    res
}

/// The text made of the given characters (`Iterator::collect` into a `String`).
#[verifier::external_body]
pub(crate) fn string_of(chars: &[char]) -> (res: String)
    ensures
        res@ == chars@,
{
    chars.iter().collect()
}

/// The components of a vector of character vectors.
pub open spec fn parts_view(parts: Seq<Vec<char>>) -> Seq<Seq<char>> {
    parts.map_values(|p: Vec<char>| p@)
}

/// One more segment changes the selected components by at most that segment.
proof fn lemma_select_push(done: Seq<Seq<char>>, seg: Seq<char>, absolute: bool)
    ensures
        select_parts(done.push(seg), absolute) == if done.len() == 0 {
            if (!absolute && seg == curdir()) || is_named(seg) {
                seq![seg]
            } else {
                Seq::<Seq<char>>::empty()
            }
        } else if is_named(seg) {
            select_parts(done, absolute).push(seg)
        } else {
            select_parts(done, absolute)
        },
{
    broadcast use Seq::lemma_filter_push;

    reveal_with_fuel(Seq::filter, 2);
    let pushed = done.push(seg);
    if done.len() == 0 {
        assert(pushed =~= seq![seg]);
        assert(pushed.skip(1) =~= Seq::<Seq<char>>::empty());
        assert(seq![seg].drop_last() =~= Seq::<Seq<char>>::empty());
        if !absolute && seg == curdir() {
            assert(seq![curdir()] + Seq::<Seq<char>>::empty() =~= seq![seg]);
        }
    } else {
        assert(pushed[0] == done[0]);
        assert(pushed.skip(1) =~= done.skip(1).push(seg));
        if !absolute && done[0] == curdir() {
            if is_named(seg) {
                assert(seq![curdir()] + done.skip(1).filter(named()).push(seg) =~= (seq![curdir()]
                    + done.skip(1).filter(named())).push(seg));
            }
        }
    }
}

/// The segments of a text with one more character.
proof fn lemma_segments_push(s: Seq<char>, c: char)
    ensures
        segments(s.push(c)) == if c == sep() {
            segments(s).push(Seq::<char>::empty())
        } else {
            segments(s).update(segments(s).len() - 1, segments(s).last().push(c))
        },
{
    assert(s.push(c).drop_last() =~= s);
}

impl FsPath {
    /// A path from its fields, which must form a well-formed path.
    fn from_parts(absolute: bool, parts: Vec<Vec<char>>) -> (res: FsPath)
        requires
            (PathView { absolute, parts: parts_view(parts@) }).wf(),
        ensures
            res@ == (PathView { absolute, parts: parts_view(parts@) }),
    {
        FsPath { absolute, parts }
    }

    /// Adds the component that a finished segment stands for, if any.
    fn push_segment(
        parts: &mut Vec<Vec<char>>,
        cur: Vec<char>,
        first: bool,
        absolute: bool,
        Ghost(done): Ghost<Seq<Seq<char>>>,
    )
        requires
            first == (done.len() == 0),
            !cur@.contains(sep()),
            parts_view(old(parts)@) == select_parts(done, absolute),
            (PathView { absolute, parts: parts_view(old(parts)@) }).wf(),
        ensures
            parts_view(final(parts)@) == select_parts(done.push(cur@), absolute),
            (PathView { absolute, parts: parts_view(final(parts)@) }).wf(),
    {
        let ghost seg = cur@;
        proof {
            lemma_select_push(done, seg, absolute);
        }
        let is_dot = cur.len() == 1 && cur[0] == '.';
        proof {
            if is_dot {
                assert(cur@ =~= curdir());
            }
            if cur@ == curdir() {
                assert(cur@.len() == 1 && cur@[0] == '.');
            }
        }
        let keep = if first {
            (!absolute && is_dot) || (cur.len() > 0 && !is_dot)
        } else {
            cur.len() > 0 && !is_dot
        };
        let ghost old_parts = parts_view(parts@);
        if keep {
            parts.push(cur);
            proof {
                let np = parts_view(parts@);
                assert(np =~= old_parts.push(seg));
                if first {
                    assert(old_parts.len() == 0);
                }
                assert forall|i: int| 0 <= i < np.len() implies part_wf(#[trigger] np[i]) && (np[i]
                    == curdir() ==> i == 0 && !absolute) by {
                    if i < old_parts.len() {
                        let ov = PathView { absolute, parts: old_parts };
                        assert(ov.wf());
                        assert(np[i] == ov.parts[i]);
                    } else {
                        assert(np[i] == seg);
                        assert(seg.len() > 0);
                    }
                }
            }
        }
    }

    /// The path that a text denotes (`Path::new`).
    pub fn new(s: &str) -> (res: FsPath)
        ensures
            res@ == parse_path(s@),
    {
        let chars = chars_of(s);
        let absolute = chars.len() > 0 && chars[0] == '/';
        let mut parts: Vec<Vec<char>> = Vec::new();
        let mut cur: Vec<char> = Vec::new();
        let mut first = true;
        let ghost mut done: Seq<Seq<char>> = Seq::empty();
        let n = chars.len();
        assert(chars@.take(0) =~= Seq::<char>::empty());
        for i in 0..n
            invariant
                n == chars@.len(),
                chars@ == s@,
                absolute == text_is_absolute(s@),
                segments(chars@.take(i as int)) == done.push(cur@),
                first == (done.len() == 0),
                !cur@.contains(sep()),
                parts_view(parts@) == select_parts(done, absolute),
                (PathView { absolute, parts: parts_view(parts@) }).wf(),
        {
            let c = chars[i];
            proof {
                assert(chars@.take(i + 1) =~= chars@.take(i as int).push(c));
                lemma_segments_push(chars@.take(i as int), c);
            }
            if c == '/' {
                let ghost seg = cur@;
                FsPath::push_segment(&mut parts, cur, first, absolute, Ghost(done));
                cur = Vec::new();
                proof {
                    done = done.push(seg);
                    assert(done.push(cur@) =~= segments(chars@.take(i + 1)));
                }
                first = false;
            } else {
                proof {
                    assert(cur@.push(c) =~= done.push(cur@).last().push(c));
                    assert(done.push(cur@).update(done.len() as int, cur@.push(c)) =~= done.push(
                        cur@.push(c),
                    ));
                    assert(!cur@.push(c).contains(sep())) by {
                        if cur@.push(c).contains(sep()) {
                            let k = choose|k: int|
                                0 <= k < cur@.push(c).len() && cur@.push(c)[k] == sep();
                            if k < cur@.len() {
                                assert(cur@.contains(sep()));
                            }
                        }
                    }
                }
                cur.push(c);
            }
        }
        assert(chars@.take(n as int) =~= chars@);
        FsPath::push_segment(&mut parts, cur, first, absolute, Ghost(done));
        FsPath::from_parts(absolute, parts)
    }
}

/// A copy of the components `from..to`.
fn copy_parts(parts: &Vec<Vec<char>>, from: usize, to: usize) -> (res: Vec<Vec<char>>)
    requires
        from <= to <= parts@.len(),
    ensures
        parts_view(res@) == parts_view(parts@).subrange(from as int, to as int),
{
    let mut res: Vec<Vec<char>> = Vec::new();
    for i in from..to
        invariant
            from <= to <= parts@.len(),
            res@.len() == i - from,
            forall|j: int| 0 <= j < i - from ==> #[trigger] res@[j]@ == parts@[from + j]@,
    {
        res.push(parts[i].clone());
    }
    assert(parts_view(res@) =~= parts_view(parts@).subrange(from as int, to as int));
    res
}

/// Appends the characters of `part` to `out`.
fn push_chars(out: &mut Vec<char>, part: &Vec<char>)
    ensures
        final(out)@ == old(out)@ + part@,
{
    let n = part.len();
    for i in 0..n
        invariant
            n == part@.len(),
            out@ == old(out)@ + part@.take(i as int),
    {
        assert(part@.take(i + 1) =~= part@.take(i as int).push(part@[i as int]));
        out.push(part[i]);
    }
    assert(part@.take(n as int) =~= part@);
}

/// Parts that are a sub-range of well-formed parts stay well formed, as long as
/// a leading "." stays first.
proof fn lemma_subrange_wf(v: PathView, from: int, to: int, absolute: bool)
    requires
        v.wf(),
        0 <= from <= to <= v.parts.len(),
        absolute ==> v.absolute || from > 0,
    ensures
        (PathView { absolute, parts: v.parts.subrange(from, to) }).wf(),
{
    let w = PathView { absolute, parts: v.parts.subrange(from, to) };
    assert forall|i: int| 0 <= i < w.parts.len() implies part_wf(#[trigger] w.parts[i]) && (
    w.parts[i] == curdir() ==> i == 0 && !w.absolute) by {
        assert(w.parts[i] == v.parts[from + i]);
    }
}

impl FsPath {
    /// The text of the path, as `Path::to_str` gives it for a path built from
    /// its components.
    pub fn render(&self) -> (res: String)
        ensures
            res@ == self@.text(),
    {
        proof {
            use_type_invariant(self);
        }
        let ghost parts = self.raw_parts();
        let mut out: Vec<char> = Vec::new();
        if self.absolute {
            out.push('/');
        }
        let ghost head = out@;
        let n = self.parts.len();
        assert(parts.take(0) =~= Seq::<Seq<char>>::empty());
        for i in 0..n
            invariant
                n == parts.len(),
                parts == self.raw_parts(),
                out@ == head + join_parts(parts.take(i as int)),
        {
            let ghost before = out@;
            if i > 0 {
                out.push('/');
            }
            push_chars(&mut out, &self.parts[i]);
            proof {
                let t = parts.take(i + 1);
                assert(t.drop_last() =~= parts.take(i as int));
                assert(t.last() == parts[i as int]);
                if i == 0 {
                    assert(join_parts(t) == parts[0]);
                    assert(out@ =~= head + join_parts(t));
                } else {
                    assert(join_parts(t) == join_parts(parts.take(i as int)) + seq![sep()]
                        + parts[i as int]);
                    assert(out@ =~= head + join_parts(t));
                }
            }
        }
        assert(parts.take(n as int) =~= parts);
        proof {
            if self.absolute {
                assert(head =~= seq![sep()]);
            } else {
                assert(head =~= Seq::<char>::empty());
                assert(out@ =~= join_parts(parts));
            }
        }
        string_of(out.as_slice())
    }

    /// The path `"/"`.
    pub fn root() -> (res: FsPath)
        ensures
            res@ == root_view(),
    {
        let parts: Vec<Vec<char>> = Vec::new();
        assert(parts_view(parts@) =~= Seq::<Seq<char>>::empty());
        FsPath::from_parts(true, parts)
    }

    /// The path `"."`.
    pub fn current_dir() -> (res: FsPath)
        ensures
            res@ == curdir_view(),
    {
        let mut dot: Vec<char> = Vec::new();
        dot.push('.');
        let mut parts: Vec<Vec<char>> = Vec::new();
        parts.push(dot);
        assert(parts_view(parts@) =~= seq![curdir()]);
        assert(!curdir().contains(sep())) by {
            if curdir().contains(sep()) {
                let k = choose|k: int| 0 <= k < curdir().len() && curdir()[k] == sep();
            }
        }
        FsPath::from_parts(false, parts)
    }

    /// Whether the path starts at the root (`Path::is_absolute` on unix).
    pub fn is_absolute(&self) -> (res: bool)
        ensures
            res == self@.absolute,
    {
        proof {
            use_type_invariant(self);
        }
        self.absolute
    }

    /// The number of components after the root.
    pub fn len(&self) -> (res: usize)
        ensures
            res == self@.parts.len(),
    {
        proof {
            use_type_invariant(self);
        }
        self.parts.len()
    }

    /// Whether this is the empty relative path `""`.
    pub fn is_empty(&self) -> (res: bool)
        ensures
            res == self@.is_empty(),
    {
        proof {
            use_type_invariant(self);
        }
        !self.absolute && self.parts.len() == 0
    }

    /// Whether this is the path `"."`.
    pub fn is_current_dir(&self) -> (res: bool)
        ensures
            res == self@.is_curdir(),
    {
        proof {
            use_type_invariant(self);
        }
        let res = !self.absolute && self.parts.len() == 1 && self.parts[0].len() == 1
            && self.parts[0][0] == '.';
        proof {
            let v = self@;
            if res {
                assert(v.parts[0] =~= curdir());
                assert(v.parts =~= seq![curdir()]);
            }
            if v.is_curdir() {
                assert(v.parts[0] == curdir());
            }
        }
        res
    }

    /// The first `k` components, with the root if there is one.
    pub fn prefix(&self, k: usize) -> (res: FsPath)
        requires
            k <= self@.parts.len(),
        ensures
            res@ == (PathView { absolute: self@.absolute, parts: self@.parts.take(k as int) }),
    {
        proof {
            use_type_invariant(self);
        }
        let parts = copy_parts(&self.parts, 0, k);
        proof {
            lemma_subrange_wf(self@, 0, k as int, self.absolute);
            assert(self@.parts.take(k as int) =~= self@.parts.subrange(0, k as int));
        }
        FsPath::from_parts(self.absolute, parts)
    }

    /// `path.strip_prefix("/").unwrap_or(path)`: the same components, relative.
    pub fn strip_root(&self) -> (res: FsPath)
        ensures
            res@ == self@.strip_root(),
    {
        proof {
            use_type_invariant(self);
        }
        let n = self.parts.len();
        let parts = copy_parts(&self.parts, 0, n);
        proof {
            lemma_subrange_wf(self@, 0, n as int, false);
            assert(self@.parts.subrange(0, n as int) =~= self@.parts);
        }
        FsPath::from_parts(false, parts)
    }

    /// `Path::parent`: the path without its last component.
    pub fn parent(&self) -> (res: Option<FsPath>)
        ensures
            res matches Some(p) ==> self@.parent() == Some(p@),
            res is None ==> self@.parent() is None,
    {
        proof {
            use_type_invariant(self);
        }
        let n = self.parts.len();
        if n == 0 {
            None
        } else {
            let p = self.prefix(n - 1);
            assert(self@.parts.take(n - 1) =~= self@.parts.drop_last());
            Some(p)
        }
    }

    /// `Path::strip_prefix`: what follows `base`, if `base` begins this path.
    pub fn strip_prefix(&self, base: &FsPath) -> (res: Option<FsPath>)
        ensures
            res matches Some(p) ==> self@.strip_prefix(base@) == Some(p@),
            res is None ==> self@.strip_prefix(base@) is None,
    {
        proof {
            use_type_invariant(self);
            use_type_invariant(base);
        }
        if !base.absolute && base.parts.len() == 0 {
            return Some(self.clone());
        }
        if self.absolute != base.absolute || base.parts.len() > self.parts.len() {
            return None;
        }
        let m = base.parts.len();
        for i in 0..m
            invariant
                m == base@.parts.len(),
                m <= self@.parts.len(),
                base.fields_wf(),
                self.fields_wf(),
                forall|j: int| 0 <= j < i ==> base@.parts[j] == self@.parts[j],
        {
            if !chars_equal(&base.parts[i], &self.parts[i]) {
                assert(!base@.parts.is_prefix_of(self@.parts)) by {
                    assert(base@.parts[i as int] != self@.parts[i as int]);
                }
                return None;
            }
        }
        let n = self.parts.len();
        let parts = copy_parts(&self.parts, m, n);
        proof {
            lemma_subrange_wf(self@, m as int, n as int, false);
            assert(self@.parts.subrange(m as int, n as int) =~= self@.parts.skip(m as int));
            assert(base@.parts.is_prefix_of(self@.parts));
        }
        Some(FsPath::from_parts(false, parts))
    }

    /// `Path::join`: an absolute `other` replaces this path; a relative one is
    /// appended to it.
    pub fn join(&self, other: &FsPath) -> (res: FsPath)
        ensures
            res@ == self@.join(other@),
    {
        proof {
            use_type_invariant(self);
            use_type_invariant(other);
        }
        if other.absolute {
            return other.clone();
        }
        let n = self.parts.len();
        let mut parts = copy_parts(&self.parts, 0, n);
        let skip_dot = (self.absolute || n > 0) && other.parts.len() > 0 && other.parts[0].len() == 1
            && other.parts[0][0] == '.';
        let m = other.parts.len();
        let start: usize = if skip_dot {
            1
        } else {
            0
        };
        let mut rest = copy_parts(&other.parts, start, m);
        let ghost a = parts_view(parts@);
        let ghost b = parts_view(rest@);
        parts.append(&mut rest);
        proof {
            let sv = self@;
            let ov = other@;
            assert(a =~= sv.parts);
            assert(parts_view(parts@) =~= a + b);
            if ov.parts.len() > 0 && ov.parts[0] == curdir() {
                assert(ov.parts[0].len() == 1 && ov.parts[0][0] == '.');
            }
            if skip_dot {
                assert(ov.parts[0] =~= curdir());
                assert(b =~= ov.parts.skip(1));
            } else {
                assert(b =~= ov.parts);
            }
            let r = PathView { absolute: self.absolute, parts: a + b };
            assert forall|i: int| 0 <= i < r.parts.len() implies part_wf(#[trigger] r.parts[i]) && (
            r.parts[i] == curdir() ==> i == 0 && !r.absolute) by {
                if i < a.len() {
                    assert(r.parts[i] == sv.parts[i]);
                } else {
                    assert(r.parts[i] == ov.parts[i - a.len() + start]);
                }
            }
        }
        FsPath::from_parts(self.absolute, parts)
    }
}

/// Whether two character vectors hold the same characters.
fn chars_equal(a: &Vec<char>, b: &Vec<char>) -> (res: bool)
    ensures
        res == (a@ == b@),
{
    if a.len() != b.len() {
        return false;
    }
    let n = a.len();
    for i in 0..n
        invariant
            n == a@.len(),
            n == b@.len(),
            forall|j: int| 0 <= j < i ==> a@[j] == b@[j],
    {
        if a[i] != b[i] {
            return false;
        }
    }
    assert(a@ =~= b@);
    true
}

proof fn lemma_segments_nonempty(s: Seq<char>)
    ensures
        segments(s).len() >= 1,
    decreases s.len(),
{
    if s.len() > 0 {
        lemma_segments_nonempty(s.drop_last());
    }
}

/// A text without separators is a single segment.
proof fn lemma_segments_single(s: Seq<char>)
    requires
        !s.contains(sep()),
    ensures
        segments(s) == seq![s],
    decreases s.len(),
{
    if s.len() > 0 {
        let init = s.drop_last();
        assert(!init.contains(sep())) by {
            if init.contains(sep()) {
                let k = choose|k: int| 0 <= k < init.len() && init[k] == sep();
                assert(s[k] == sep());
            }
        }
        lemma_segments_single(init);
        assert(s.last() != sep()) by {
            assert(s[s.len() - 1] == s.last());
        }
        assert(init.push(s.last()) =~= s);
        assert(seq![init].update(0, init.push(s.last())) =~= seq![s]);
    } else {
        assert(s =~= Seq::<char>::empty());
    }
}

/// Cutting at a separator splits the segments.
proof fn lemma_segments_concat(x: Seq<char>, y: Seq<char>)
    ensures
        segments(x + seq![sep()] + y) == segments(x) + segments(y),
    decreases y.len(),
{
    lemma_segments_nonempty(x);
    if y.len() == 0 {
        assert(x + seq![sep()] + y =~= x.push(sep()));
        assert((x + seq![sep()] + y).drop_last() =~= x);
        assert(segments(x).push(Seq::<char>::empty()) =~= segments(x) + seq![
            Seq::<char>::empty(),
        ]);
    } else {
        let yi = y.drop_last();
        let c = y.last();
        lemma_segments_concat(x, yi);
        lemma_segments_nonempty(yi);
        let whole = x + seq![sep()] + y;
        assert(whole.drop_last() =~= x + seq![sep()] + yi);
        assert(whole.last() == c);
        let sx = segments(x);
        let sy = segments(yi);
        if c == sep() {
            assert((sx + sy).push(Seq::<char>::empty()) =~= sx + sy.push(Seq::<char>::empty()));
        } else {
            let p = sx + sy;
            assert(p.last() == sy.last());
            assert(p.update(p.len() - 1, p.last().push(c)) =~= sx + sy.update(
                sy.len() - 1,
                sy.last().push(c),
            ));
        }
    }
}

/// Every component is valid.
pub open spec fn all_parts_wf(parts: Seq<Seq<char>>) -> bool {
    forall|i: int| 0 <= i < parts.len() ==> part_wf(#[trigger] parts[i])
}

/// The components written out and cut again are the components.
proof fn lemma_segments_join(parts: Seq<Seq<char>>)
    requires
        parts.len() >= 1,
        all_parts_wf(parts),
    ensures
        segments(join_parts(parts)) == parts,
    decreases parts.len(),
{
    if parts.len() == 1 {
        assert(part_wf(parts[0]));
        lemma_segments_single(parts[0]);
        assert(seq![parts[0]] =~= parts);
    } else {
        let init = parts.drop_last();
        assert(all_parts_wf(init)) by {
            assert forall|i: int| 0 <= i < init.len() implies part_wf(#[trigger] init[i]) by {
                assert(init[i] == parts[i]);
            }
        }
        lemma_segments_join(init);
        assert(part_wf(parts[parts.len() - 1]));
        lemma_segments_single(parts.last());
        lemma_segments_concat(join_parts(init), parts.last());
        assert(init + seq![parts.last()] =~= parts);
    }
}

/// Keeping the named components of named components keeps them all.
proof fn lemma_filter_named_all(parts: Seq<Seq<char>>)
    requires
        forall|i: int| 0 <= i < parts.len() ==> is_named(#[trigger] parts[i]),
    ensures
        parts.filter(named()) == parts,
    decreases parts.len(),
{
    reveal_with_fuel(Seq::filter, 1);
    if parts.len() > 0 {
        let init = parts.drop_last();
        assert forall|i: int| 0 <= i < init.len() implies is_named(#[trigger] init[i]) by {
            assert(init[i] == parts[i]);
        }
        lemma_filter_named_all(init);
        assert(is_named(parts[parts.len() - 1]));
        assert(init.push(parts.last()) =~= parts);
    }
}

/// The text of non-empty components starts with the first component.
proof fn lemma_join_parts_first(parts: Seq<Seq<char>>)
    requires
        parts.len() >= 1,
    ensures
        parts[0].is_prefix_of(join_parts(parts)),
    decreases parts.len(),
{
    if parts.len() > 1 {
        let init = parts.drop_last();
        lemma_join_parts_first(init);
        assert(init[0] == parts[0]);
    }
}

/// Reading back the text of a path gives the path (`Path::new(p.to_str())`
/// has the components of `p`).
pub proof fn lemma_parse_text(v: PathView)
    requires
        v.wf(),
    ensures
        parse_path(v.text()) == v,
{
    let t = v.text();
    assert(all_parts_wf(v.parts)) by {
        assert forall|i: int| 0 <= i < v.parts.len() implies part_wf(#[trigger] v.parts[i]) by {
            assert(part_wf(v.parts[i]));
        }
    }
    if v.absolute {
        assert(t =~= Seq::<char>::empty() + seq![sep()] + join_parts(v.parts));
        lemma_segments_concat(Seq::<char>::empty(), join_parts(v.parts));
        assert(text_is_absolute(t));
        let segs = segments(t);
        if v.parts.len() == 0 {
            assert(segments(Seq::<char>::empty()) =~= seq![Seq::<char>::empty()]);
            assert(segs =~= seq![Seq::<char>::empty(), Seq::<char>::empty()]);
            assert(segs.filter(named()) =~= Seq::<Seq<char>>::empty()) by {
                reveal_with_fuel(Seq::filter, 3);
                assert(segs.drop_last() =~= seq![Seq::<char>::empty()]);
                assert(segs.drop_last().drop_last() =~= Seq::<Seq<char>>::empty());
            }
        } else {
            lemma_segments_join(v.parts);
            assert(segs =~= seq![Seq::<char>::empty()] + v.parts);
            broadcast use Seq::filter_distributes_over_add;

            assert(seq![Seq::<char>::empty()].filter(named()) =~= Seq::<Seq<char>>::empty())
                by {
                reveal_with_fuel(Seq::filter, 2);
                assert(seq![Seq::<char>::empty()].drop_last() =~= Seq::<Seq<char>>::empty());
            }
            assert forall|i: int| 0 <= i < v.parts.len() implies is_named(#[trigger] v.parts[i]) by {
                assert(part_wf(v.parts[i]));
            }
            lemma_filter_named_all(v.parts);
            assert(Seq::<Seq<char>>::empty() + v.parts =~= v.parts);
        }
        assert(parse_path(t).parts =~= v.parts);
    } else if v.parts.len() == 0 {
        assert(t =~= Seq::<char>::empty());
        assert(segments(t) =~= seq![Seq::<char>::empty()]);
        assert(seq![Seq::<char>::empty()].filter(named()) =~= Seq::<Seq<char>>::empty()) by {
            reveal_with_fuel(Seq::filter, 2);
            assert(seq![Seq::<char>::empty()].drop_last() =~= Seq::<Seq<char>>::empty());
        }
        assert(seq![Seq::<char>::empty()][0] != curdir()) by {
            assert(curdir().len() == 1);
        }
        assert(parse_path(t).parts =~= v.parts);
    } else {
        lemma_segments_join(v.parts);
        lemma_join_parts_first(v.parts);
        assert(part_wf(v.parts[0]));
        assert(t[0] == v.parts[0][0]);
        assert(!text_is_absolute(t)) by {
            if t[0] == sep() {
                assert(v.parts[0].contains(sep()));
            }
        }
        if v.parts[0] == curdir() {
            let rest = v.parts.skip(1);
            assert forall|i: int| 0 <= i < rest.len() implies is_named(#[trigger] rest[i]) by {
                assert(rest[i] == v.parts[i + 1]);
                assert(part_wf(v.parts[i + 1]));
            }
            lemma_filter_named_all(rest);
            assert(seq![curdir()] + rest =~= v.parts);
        } else {
            assert forall|i: int| 0 <= i < v.parts.len() implies is_named(#[trigger] v.parts[i]) by {
                assert(part_wf(v.parts[i]));
                if i == 0 {
                    assert(v.parts[0] != curdir());
                }
            }
            lemma_filter_named_all(v.parts);
        }
        assert(parse_path(t).parts =~= v.parts);
    }
}

/// Two well-formed paths with the same text are the same path.
pub proof fn lemma_text_injective(a: PathView, b: PathView)
    requires
        a.wf(),
        b.wf(),
        a.text() == b.text(),
    ensures
        a == b,
{
    lemma_parse_text(a);
    lemma_parse_text(b);
}

/// Joining a path to the prefix stripped from it gives the path back.
pub proof fn lemma_join_strip_prefix(p: PathView, base: PathView)
    requires
        p.wf(),
        p.strip_prefix(base) is Some,
    ensures
        base.join(p.strip_prefix(base)->0) == p,
{
    let r = p.strip_prefix(base)->0;
    if !base.absolute && base.parts.len() == 0 {
        if !p.absolute {
            assert(Seq::<Seq<char>>::empty() + p.parts =~= p.parts);
        }
    } else {
        let k = base.parts.len() as int;
        assert(base.parts =~= p.parts.take(k));
        if r.parts.len() > 0 && r.parts[0] == curdir() {
            assert(r.parts[0] == p.parts[k]);
            assert(k > 0 || p.absolute);
        }
        assert(base.parts + r.parts =~= p.parts);
    }
}

/// A path joined to the root-less form of another keeps the first path as
/// its beginning.
pub proof fn lemma_join_stays_under(base: PathView, p: PathView)
    ensures
        base.join(p.strip_root()).absolute == base.absolute,
        base.parts.is_prefix_of(base.join(p.strip_root()).parts),
        base.join(p.strip_root()).strip_prefix(base) is Some,
{
    let j = base.join(p.strip_root());
    assert(j.parts.take(base.parts.len() as int) =~= base.parts);
}

/// Every path that the library holds is well formed.
pub proof fn lemma_view_wf(p: FsPath)
    ensures
        p@.wf(),
{
}

/// Joining follows `std::path`: an absolute path replaces the base; a
/// relative one not starting with "." is appended component by component to
/// the base, which keeps its root.
pub proof fn lemma_join_appends(base: PathView, other: PathView)
    ensures
        other.absolute ==> base.join(other) == other,
        !other.absolute && (other.parts.len() == 0 || other.parts[0] != curdir()) ==> base.join(
            other,
        ) == (PathView { absolute: base.absolute, parts: base.parts + other.parts }),
        base.join(other).absolute == (base.absolute || other.absolute),
{
}

/// Stripping the root keeps every component and only makes the path relative.
pub proof fn lemma_strip_root_keeps_components(p: PathView)
    ensures
        p.strip_root().parts == p.parts,
        !p.strip_root().absolute,
{
}

} // verus!
