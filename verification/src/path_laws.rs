//! How paths are put together and taken apart.
use crate::path;
use crate::path::DirPathView;
use vstd::prelude::*;

verus! {

/// Whether a text holds a slash.
pub open spec fn has_slash(s: Seq<char>) -> bool {
    exists|i: int| 0 <= i < s.len() && #[trigger] s[i] == '/'
}

proof fn parts_join(
    a: Seq<char>,
    b: Seq<char>,
    from: int,
    word: Seq<char>,
    parts: Seq<Seq<char>>,
)
    requires
        0 <= from <= a.len(),
    ensures
        path::parts_from(a + seq!['/'] + b, from, word, parts) == path::parts_from(
            b,
            0,
            Seq::empty(),
            path::parts_from(a, from, word, parts),
        ),
    decreases a.len() - from,
{
    let s = a + seq!['/'] + b;
    if from == a.len() {
        assert(s[from] == '/');
        parts_shift(a + seq!['/'], b, 0, Seq::empty(), parts.push(word));
    } else {
        assert(s[from] == a[from]);
        if a[from] == '/' {
            parts_join(a, b, from + 1, Seq::empty(), parts.push(word));
        } else {
            parts_join(a, b, from + 1, word.push(a[from]), parts);
        }
    }
}

proof fn parts_shift(
    a: Seq<char>,
    b: Seq<char>,
    from: int,
    word: Seq<char>,
    parts: Seq<Seq<char>>,
)
    requires
        0 <= from <= b.len(),
    ensures
        path::parts_from(a + b, a.len() + from, word, parts) == path::parts_from(
            b,
            from,
            word,
            parts,
        ),
    decreases b.len() - from,
{
    if from < b.len() {
        assert((a + b)[a.len() + from] == b[from]);
        if b[from] == '/' {
            parts_shift(a, b, from + 1, Seq::empty(), parts.push(word));
        } else {
            parts_shift(a, b, from + 1, word.push(b[from]), parts);
        }
    }
}

proof fn one_part(t: Seq<char>, from: int, parts: Seq<Seq<char>>)
    requires
        0 <= from <= t.len(),
        !has_slash(t),
    ensures
        path::parts_from(t, from, t.take(from), parts) == parts.push(t),
    decreases t.len() - from,
{
    if from < t.len() {
        assert(t[from] != '/');
        assert(t.take(from).push(t[from]) =~= t.take(from + 1));
        one_part(t, from + 1, parts);
    } else {
        assert(t.take(from) =~= t);
    }
}

/// Whether a path ends in something.
pub open spec fn ends_in_name(d: DirPathView) -> bool {
    d.parts.len() == 0 || d.parts.last().len() > 0
}

/// Joining a path piece by piece is joining it at once: a directory and a name in it
/// come one after the other.
pub proof fn joining_goes_piece_by_piece(base: DirPathView, a: Seq<char>, b: Seq<char>)
    requires
        ends_in_name(base),
        a.len() > 0,
        !has_slash(a),
        b.len() > 0,
        b[0] != '/',
    ensures
        path::joined(base, a + seq!['/'] + b) == path::joined(path::joined(base, a), b),
        path::joined(base, a) == (DirPathView {
            absolute: base.absolute,
            parts: base.parts.push(a),
        }),
{
    let s = a + seq!['/'] + b;
    assert(a[0] != '/');
    assert(s[0] == a[0]);
    parts_join(a, b, 0, Seq::empty(), base.parts);
    one_part(a, 0, base.parts);
    assert(a.take(0) =~= Seq::empty());
    assert(path::stem(base.parts) == base.parts);
    let inner = path::joined(base, a);
    assert(inner.parts == base.parts.push(a));
    assert(path::stem(inner.parts) == inner.parts);
}

/// An absolute path is taken as it is, wherever it is joined.
pub proof fn absolute_paths_replace_the_base(a: DirPathView, b: DirPathView, rest: Seq<char>)
    ensures
        path::joined(a, seq!['/'] + rest) == path::joined(b, seq!['/'] + rest),
        path::joined(a, seq!['/'] + rest).absolute,
{
    let s = seq!['/'] + rest;
    assert(s[0] == '/');
}

/// Whether a name leads somewhere below a directory.
pub open spec fn leads_down(n: Seq<char>) -> bool {
    n.len() > 0 && !has_slash(n) && n != "."@ && n != ".."@
}

/// A name in a directory lies under it, is its own file name, and has the directory as
/// its parent.
pub proof fn names_lie_in_their_directory(d: DirPathView, n: Seq<char>)
    requires
        ends_in_name(d),
        leads_down(n),
    ensures
        path::file_name(path::joined(d, n)) == Some(n),
        path::is_under(path::joined(d, n), d),
        path::parent_of(path::joined(d, n)) matches Some(p) && path::plain(p) == path::plain(d),
        path::plain(path::joined(d, n)).parts == path::plain(d).parts.push(n),
{
    assert(n[0] != '/');
    one_part(n, 0, d.parts);
    assert(n.take(0) =~= Seq::empty());
    assert(path::stem(d.parts) == d.parts);
    let all = path::joined(d, n);
    assert(all.parts == d.parts.push(n));
    assert(all.parts.drop_last() =~= d.parts);
    assert(!path::ends_idle(d.absolute, all.parts));
    assert(path::plain(all).parts == path::plain(d).parts.push(n));
    assert(path::plain(all).parts.take(path::plain(d).parts.len() as int) =~= path::plain(d).parts);
    assert(path::trimmed(d.absolute, all.parts) == all.parts);
    path::trimming_keeps_names(d.absolute, d.parts);
}

} // verus!
