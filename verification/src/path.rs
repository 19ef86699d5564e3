//! File paths as lists of names.
use crate::model::Dup;
use crate::text::same;
use vstd::prelude::*;

verus! {

/// A path of a file or directory, piece by piece as it was written: between two
/// slashes stands a piece, which may be empty or `.`. Such a piece names nothing,
/// but for a `.` that starts a relative path.
#[derive(Debug, PartialEq, Eq)]
pub struct DirPath {
    /// Whether the path starts at the root.
    pub absolute: bool,
    /// The pieces from the start to the end of the path.
    pub parts: Vec<String>,
}

/// What a [`DirPath`] holds.
#[verifier::ext_equal]
pub struct DirPathView {
    pub absolute: bool,
    pub parts: Seq<Seq<char>>,
}

impl DeepView for DirPath {
    type V = DirPathView;

    open spec fn deep_view(&self) -> DirPathView {
        DirPathView {
            absolute: self.absolute,
            parts: self.parts.deep_view(),
        }
    }
}

impl Dup for DirPath {
    fn dup(&self) -> (r: Self) {
        DirPath {
            absolute: self.absolute,
            parts: self.parts.dup(),
        }
    }
}

/// The pieces of a path text from position `from` on, behind those in `parts`:
/// `word` is what was read of the piece that is under way.
pub open spec fn parts_from(
    text: Seq<char>,
    from: int,
    word: Seq<char>,
    parts: Seq<Seq<char>>,
) -> Seq<Seq<char>>
    decreases text.len() - from,
{
    if from < 0 || from >= text.len() {
        parts.push(word)
    } else if text[from] == '/' {
        parts_from(text, from + 1, Seq::empty(), parts.push(word))
    } else {
        parts_from(text, from + 1, word.push(text[from]), parts)
    }
}

/// The pieces of a path without a slash at its end.
pub open spec fn stem(parts: Seq<Seq<char>>) -> Seq<Seq<char>> {
    if parts.len() > 0 && parts.last().len() == 0 {
        parts.drop_last()
    } else {
        parts
    }
}

/// Pieces of which a lone empty one is none.
pub open spec fn tidy(parts: Seq<Seq<char>>) -> Seq<Seq<char>> {
    if parts.len() == 1 && parts[0].len() == 0 {
        Seq::empty()
    } else {
        parts
    }
}

/// `base` with the path text `rel` behind it; an absolute `rel` replaces it.
pub open spec fn joined(base: DirPathView, rel: Seq<char>) -> DirPathView {
    if rel.len() > 0 && rel[0] == '/' {
        DirPathView {
            absolute: true,
            parts: tidy(parts_from(rel, 1, Seq::empty(), Seq::empty())),
        }
    } else {
        DirPathView {
            absolute: base.absolute,
            parts: tidy(parts_from(rel, 0, Seq::empty(), stem(base.parts))),
        }
    }
}

/// Whether the last of some pieces names nothing: it is empty, or a `.` that
/// does not start a relative path.
pub open spec fn ends_idle(absolute: bool, parts: Seq<Seq<char>>) -> bool {
    parts.last().len() == 0 || (parts.last() == "."@ && (absolute || parts.len() > 1))
}

/// The pieces that name something.
pub open spec fn names(absolute: bool, parts: Seq<Seq<char>>) -> Seq<Seq<char>>
    decreases parts.len(),
{
    if parts.len() == 0 {
        Seq::empty()
    } else if ends_idle(absolute, parts) {
        names(absolute, parts.drop_last())
    } else {
        names(absolute, parts.drop_last()).push(parts.last())
    }
}

/// The path with the pieces that name something alone. Two paths are the same if
/// their plain forms are.
pub open spec fn plain(p: DirPathView) -> DirPathView {
    DirPathView { absolute: p.absolute, parts: names(p.absolute, p.parts) }
}

/// The pieces up to the last that names something.
pub open spec fn trimmed(absolute: bool, parts: Seq<Seq<char>>) -> Seq<Seq<char>>
    decreases parts.len(),
{
    if parts.len() == 0 || !ends_idle(absolute, parts) {
        parts
    } else {
        trimmed(absolute, parts.drop_last())
    }
}

/// The path that holds this one; none for the root and the empty path.
pub open spec fn parent_of(p: DirPathView) -> Option<DirPathView> {
    let own = trimmed(p.absolute, p.parts);
    if own.len() == 0 {
        None
    } else {
        Some(
            DirPathView { absolute: p.absolute, parts: trimmed(p.absolute, own.drop_last()) },
        )
    }
}

/// The last name of a path; none where it ends in `.` or `..`.
pub open spec fn file_name(p: DirPathView) -> Option<Seq<char>> {
    let all = plain(p).parts;
    if all.len() == 0 || all.last() == "."@ || all.last() == ".."@ {
        None
    } else {
        Some(all.last())
    }
}

/// Whether `p` is `base` or lies below it, name by name.
pub open spec fn is_under(p: DirPathView, base: DirPathView) -> bool {
    let (a, b) = (plain(p).parts, plain(base).parts);
    p.absolute == base.absolute && b.len() <= a.len() && a.take(b.len() as int) == b
}

/// The pieces from `from` on, with a `/` between them.
pub open spec fn slashed(parts: Seq<Seq<char>>, from: int) -> Seq<char>
    decreases parts.len() - from,
{
    if from < 0 || from >= parts.len() {
        Seq::empty()
    } else if from == 0 {
        parts[0] + slashed(parts, 1)
    } else {
        "/"@ + parts[from] + slashed(parts, from + 1)
    }
}

/// The path as text.
pub open spec fn shown(p: DirPathView) -> Seq<char> {
    if p.absolute {
        "/"@ + slashed(p.parts, 0)
    } else {
        slashed(p.parts, 0)
    }
}

/// The path a text names.
pub open spec fn of_text(text: Seq<char>) -> DirPathView {
    joined(DirPathView { absolute: false, parts: Seq::empty() }, text)
}

/// The path that is one piece below `base`. A slash at the end of `base` is the
/// one before the name.
pub open spec fn child(base: DirPathView, name: Seq<char>) -> DirPathView {
    let own = if name.len() > 0 {
        stem(base.parts)
    } else {
        base.parts
    };
    DirPathView { absolute: base.absolute, parts: own.push(name) }
}

/// Trimming takes at most what is there, and keeps what names something.
pub proof fn trimming_keeps_names(absolute: bool, parts: Seq<Seq<char>>)
    ensures
        trimmed(absolute, parts).len() <= parts.len(),
        names(absolute, trimmed(absolute, parts)) == names(absolute, parts),
        trimmed(absolute, parts).len() > 0 ==> !ends_idle(absolute, trimmed(absolute, parts)),
    decreases parts.len(),
{
    if parts.len() > 0 && ends_idle(absolute, parts) {
        trimming_keeps_names(absolute, parts.drop_last());
    }
}

/// A path lies one name below the path that holds it.
pub proof fn parent_has_one_name_less(p: DirPathView)
    ensures
        parent_of(p) matches Some(d) ==> d.parts.len() < p.parts.len() && plain(p).parts.len() > 0
            && plain(d) == (DirPathView { parts: plain(p).parts.drop_last(), ..plain(p) }),
{
    let own = trimmed(p.absolute, p.parts);
    trimming_keeps_names(p.absolute, p.parts);
    if own.len() > 0 {
        trimming_keeps_names(p.absolute, own.drop_last());
        assert(names(p.absolute, own).drop_last() =~= names(p.absolute, own.drop_last()));
    }
}

#[verifier::loop_isolation(false)]
fn add_parts(parts: &mut Vec<String>, text: &str, from: usize)
    requires
        from <= text@.len(),
    ensures
        final(parts).deep_view() == parts_from(
            text@,
            from as int,
            Seq::empty(),
            old(parts).deep_view(),
        ),
{
    let n: usize = text.unicode_len();
    let ghost before = parts.deep_view();
    let mut start: usize = from;
    let mut i: usize = from;
    assert(text@.subrange(from as int, from as int) =~= Seq::empty());
    while i < n
        invariant
            from <= start <= i <= n,
            n == text@.len(),
            parts_from(text@, from as int, Seq::empty(), before) == parts_from(
                text@,
                i as int,
                text@.subrange(start as int, i as int),
                parts.deep_view(),
            ),
        decreases n - i,
    {
        if text.get_char(i) == '/' {
            crate::model::put(parts, text.substring_char(start, i).to_owned());
            start = i + 1;
            assert(text@.subrange(start as int, i + 1) =~= Seq::empty());
        } else {
            assert(text@.subrange(start as int, i + 1) =~= text@.subrange(
                start as int,
                i as int,
            ).push(text@[i as int]));
        }
        i += 1;
    }
    crate::model::put(parts, text.substring_char(start, n).to_owned());
}

fn drop_lone_empty(parts: &mut Vec<String>)
    ensures
        final(parts).deep_view() == tidy(old(parts).deep_view()),
{
    if parts.len() == 1 && parts[0].as_str().is_empty() {
        let _ = parts.pop();
        assert(parts.deep_view() =~= Seq::empty());
    }
}

fn last_is_idle(absolute: bool, parts: &Vec<String>) -> (r: bool)
    requires
        parts.len() > 0,
    ensures
        r == ends_idle(absolute, parts.deep_view()),
{
    let last = parts[parts.len() - 1].as_str();
    assert(parts.deep_view().last() == last@);
    last.is_empty() || (same(last, ".") && (absolute || parts.len() > 1))
}

fn trim(absolute: bool, parts: &mut Vec<String>)
    ensures
        final(parts).deep_view() == trimmed(absolute, old(parts).deep_view()),
{
    let ghost before = parts.deep_view();
    while parts.len() > 0 && last_is_idle(absolute, parts)
        invariant
            trimmed(absolute, parts.deep_view()) == trimmed(absolute, before),
        decreases parts.len(),
    {
        let ghost now = parts.deep_view();
        let _ = parts.pop();
        assert(parts.deep_view() =~= now.drop_last());
    }
}

impl DirPath {
    /// The empty path.
    pub fn empty() -> (r: DirPath)
        ensures
            r.deep_view() == (DirPathView { absolute: false, parts: Seq::empty() }),
    {
        DirPath { absolute: false, parts: crate::model::none() }
    }

    /// Reads a path from text.
    pub fn new(text: &str) -> (r: DirPath)
        ensures
            r.deep_view() == of_text(text@),
    {
        DirPath::empty().join(text)
    }

    /// The pieces without a slash at the end.
    fn stem_parts(&self) -> (r: Vec<String>)
        ensures
            r.deep_view() == stem(self.parts.deep_view()),
    {
        let mut parts: Vec<String> = self.parts.dup();
        if parts.len() > 0 && parts[parts.len() - 1].as_str().is_empty() {
            let _ = parts.pop();
        }
        assert(parts.deep_view() =~= stem(self.parts.deep_view()));
        parts
    }

    /// The path with the path text `rel` behind it; an absolute `rel` replaces it.
    pub fn join(&self, rel: &str) -> (r: DirPath)
        ensures
            r.deep_view() == joined(self.deep_view(), rel@),
    {
        if !rel.is_empty() && rel.get_char(0) == '/' {
            let mut parts: Vec<String> = crate::model::none();
            add_parts(&mut parts, rel, 1);
            drop_lone_empty(&mut parts);
            DirPath { absolute: true, parts }
        } else {
            let mut parts: Vec<String> = self.stem_parts();
            add_parts(&mut parts, rel, 0);
            drop_lone_empty(&mut parts);
            DirPath { absolute: self.absolute, parts }
        }
    }

    /// The path one piece below.
    pub fn child(&self, name: &str) -> (r: DirPath)
        ensures
            r.deep_view() == child(self.deep_view(), name@),
    {
        let mut parts: Vec<String> = if name.is_empty() {
            self.parts.dup()
        } else {
            self.stem_parts()
        };
        crate::model::put(&mut parts, name.to_owned());
        DirPath { absolute: self.absolute, parts }
    }

    /// The path that holds this one.
    pub fn parent(&self) -> (r: Option<DirPath>)
        ensures
            r.deep_view() == parent_of(self.deep_view()),
    {
        let mut parts: Vec<String> = self.parts.dup();
        trim(self.absolute, &mut parts);
        if parts.len() == 0 {
            return None;
        }
        let ghost own = parts.deep_view();
        let _ = parts.pop();
        assert(parts.deep_view() =~= own.drop_last());
        trim(self.absolute, &mut parts);
        Some(DirPath { absolute: self.absolute, parts })
    }

    /// The path with the pieces that name something alone.
    pub fn to_plain(&self) -> (r: DirPath)
        ensures
            r.deep_view() == plain(self.deep_view()),
    {
        let ghost all = self.parts.deep_view();
        let mut parts: Vec<String> = crate::model::none();
        let mut i: usize = 0;
        assert(all.take(0) =~= Seq::empty());
        while i < self.parts.len()
            invariant
                i <= self.parts.len(),
                all == self.parts.deep_view(),
                parts.deep_view() == names(self.absolute, all.take(i as int)),
            decreases self.parts.len() - i,
        {
            let piece = self.parts[i].as_str();
            let ghost upto = all.take(i + 1);
            assert(upto.last() == piece@);
            assert(upto.drop_last() =~= all.take(i as int));
            if !(piece.is_empty() || (same(piece, ".") && (self.absolute || i > 0))) {
                crate::model::put(&mut parts, piece.to_owned());
            }
            i += 1;
        }
        assert(all.take(i as int) =~= all);
        DirPath { absolute: self.absolute, parts }
    }

    /// The last name of the path; none where it ends in `.` or `..`.
    pub fn name(&self) -> (r: Option<String>)
        ensures
            r.deep_view() == file_name(self.deep_view()),
    {
        let own = self.to_plain();
        let n: usize = own.parts.len();
        if n == 0 {
            return None;
        }
        assert(own.parts.deep_view().last() == own.parts@[n - 1]@);
        if same(own.parts[n - 1].as_str(), ".") || same(own.parts[n - 1].as_str(), "..") {
            return None;
        }
        Some(own.parts[n - 1].clone())
    }

    /// Whether the path is `base` or lies below it.
    #[verifier::loop_isolation(false)]
    pub fn starts_with(&self, base: &DirPath) -> (r: bool)
        ensures
            r == is_under(self.deep_view(), base.deep_view()),
    {
        let own = self.to_plain();
        let other = base.to_plain();
        let ghost a = own.parts.deep_view();
        let ghost b = other.parts.deep_view();
        if self.absolute != base.absolute || other.parts.len() > own.parts.len() {
            return false;
        }
        let mut i: usize = 0;
        while i < other.parts.len()
            invariant
                i <= other.parts.len(),
                forall|j: int| 0 <= j < i ==> a[j] == b[j],
            decreases other.parts.len() - i,
        {
            if own.parts[i] != other.parts[i] {
                proof {
                    assert(a[i as int] != b[i as int]);
                    assert(a.take(b.len() as int)[i as int] == a[i as int]);
                }
                return false;
            }
            i += 1;
        }
        assert(a.take(b.len() as int) =~= b);
        true
    }

    /// Whether both are written the same.
    #[verifier::loop_isolation(false)]
    pub fn same(&self, other: &DirPath) -> (r: bool)
        ensures
            r == (self.deep_view() == other.deep_view()),
    {
        let ghost a = self.parts.deep_view();
        let ghost b = other.parts.deep_view();
        if self.absolute != other.absolute || self.parts.len() != other.parts.len() {
            assert(a.len() == self.parts.len() && b.len() == other.parts.len());
            return false;
        }
        let mut i: usize = 0;
        while i < self.parts.len()
            invariant
                i <= self.parts.len(),
                forall|j: int| 0 <= j < i ==> a[j] == b[j],
            decreases self.parts.len() - i,
        {
            if self.parts[i] != other.parts[i] {
                assert(a[i as int] != b[i as int]);
                return false;
            }
            i += 1;
        }
        assert(a =~= b);
        true
    }

    /// The path as text.
    pub fn display(&self) -> (r: String)
        ensures
            r@ == shown(self.deep_view()),
    {
        let ghost parts = self.parts.deep_view();
        let mut out: String = String::new();
        if self.absolute {
            out.append("/");
        }
        let ghost head = out@;
        let mut i: usize = 0;
        assert(head + slashed(parts, 0) =~= shown(self.deep_view()));
        while i < self.parts.len()
            invariant
                i <= self.parts.len(),
                parts == self.parts.deep_view(),
                shown(self.deep_view()) == out@ + slashed(parts, i as int),
            decreases self.parts.len() - i,
        {
            let ghost before = out@;
            if i > 0 {
                out.append("/");
            }
            out.append(self.parts[i].as_str());
            proof {
                let step = if i == 0 { parts[0] } else { "/"@ + parts[i as int] };
                assert(slashed(parts, i as int) =~= step + slashed(parts, i + 1));
                assert(out@ =~= before + step);
                assert(before + (step + slashed(parts, i + 1)) =~= (before + step) + slashed(
                    parts,
                    i + 1,
                ));
            }
            i += 1;
        }
        assert(out@ + Seq::<char>::empty() =~= out@);
        out
    }
}

} // verus!
