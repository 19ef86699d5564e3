//! What holds of the dependency graph on every input.
use crate::dep_walk;
use crate::dep_walk::WalkView;
use crate::disk::{DiskView, Kind, ListedView, QueryView};
use crate::path;
use crate::path::DirPathView;
use crate::value::ValueView;
use vstd::prelude::*;

verus! {

/// Whether what counts as a directory is listed.
spec fn dirs_listed(disk: DiskView) -> bool {
    forall|p: DirPathView| #[trigger]
        disk.kind(p) == Kind::Dir ==> exists|i: int|
            0 <= i < disk.kinds.len() && (#[trigger] disk.kinds[i]).0 == p
}

pub(crate) proof fn answered_at<A>(answers: Seq<(DirPathView, A)>, p: DirPathView, from: int)
    requires
        0 <= from,
        crate::disk::answer_from(answers, p, from) is Some,
    ensures
        exists|i: int| 0 <= i < answers.len() && (#[trigger] answers[i]).0 == p,
    decreases answers.len() - from,
{
    if from < answers.len() && answers[from].0 != p {
        answered_at(answers, p, from + 1);
    }
}

proof fn directories_are_listed(disk: DiskView)
    ensures
        dirs_listed(disk),
{
    assert forall|p: DirPathView| #[trigger] disk.kind(p) == Kind::Dir implies exists|i: int|
        0 <= i < disk.kinds.len() && (#[trigger] disk.kinds[i]).0 == p by {
        if crate::disk::answer_from(disk.kinds, p, 0) is Some {
            answered_at(disk.kinds, p, 0);
        }
    }
}

// ── How far a walk can go ────────────────────────────────────────────────

/// How many of the listed paths have a canonical form that was not visited.
pub open spec fn unvisited<A>(
    disk: DiskView,
    listed: Seq<(DirPathView, A)>,
    visited: Seq<DirPathView>,
) -> nat
    decreases listed.len(),
{
    if listed.len() == 0 {
        0
    } else {
        unvisited(disk, listed.drop_last(), visited) + if visited.contains(
            disk.canonical(listed.last().0),
        ) {
            0nat
        } else {
            1nat
        }
    }
}

pub(crate) proof fn unvisited_bounded<A>(
    disk: DiskView,
    listed: Seq<(DirPathView, A)>,
    visited: Seq<DirPathView>,
)
    ensures
        unvisited(disk, listed, visited) <= listed.len(),
    decreases listed.len(),
{
    if listed.len() > 0 {
        unvisited_bounded(disk, listed.drop_last(), visited);
    }
}

pub(crate) proof fn unvisited_shrinks<A>(
    disk: DiskView,
    listed: Seq<(DirPathView, A)>,
    visited: Seq<DirPathView>,
    later: Seq<DirPathView>,
)
    requires
        forall|c: DirPathView| #[trigger] visited.contains(c) ==> later.contains(c),
    ensures
        unvisited(disk, listed, later) <= unvisited(disk, listed, visited),
    decreases listed.len(),
{
    if listed.len() > 0 {
        unvisited_shrinks(disk, listed.drop_last(), visited, later);
        let c = disk.canonical(listed.last().0);
        if visited.contains(c) {
            assert(later.contains(c));
        }
    }
}

pub(crate) proof fn unvisited_drops<A>(
    disk: DiskView,
    listed: Seq<(DirPathView, A)>,
    visited: Seq<DirPathView>,
    at: int,
)
    requires
        0 <= at < listed.len(),
        !visited.contains(disk.canonical(listed[at].0)),
    ensures
        unvisited(disk, listed, visited.push(disk.canonical(listed[at].0))) + 1 <= unvisited(
            disk,
            listed,
            visited,
        ),
    decreases listed.len(),
{
    let c = disk.canonical(listed[at].0);
    let later = visited.push(c);
    assert(later[visited.len() as int] == c);
    assert forall|x: DirPathView| #[trigger] visited.contains(x) implies later.contains(x) by {
        let i = choose|i: int| 0 <= i < visited.len() && visited[i] == x;
        assert(later[i] == x);
    }
    if at == listed.len() - 1 {
        unvisited_shrinks(disk, listed.drop_last(), visited, later);
    } else {
        assert(listed.drop_last()[at] == listed[at]);
        unvisited_drops(disk, listed.drop_last(), visited, at);
        let x = disk.canonical(listed.last().0);
        if visited.contains(x) {
            assert(later.contains(x));
        }
    }
}

// ── The manifest's directory ─────────────────────────────────────────────

proof fn plain_name(text: Seq<char>, from: int, word: Seq<char>, parts: Seq<Seq<char>>)
    requires
        0 <= from <= text.len(),
        word == text.take(from),
        forall|i: int| 0 <= i < text.len() ==> #[trigger] text[i] != '/',
    ensures
        path::parts_from(text, from, word, parts) == parts.push(text),
    decreases text.len() - from,
{
    if from == text.len() {
        assert(text.take(from) =~= text);
    } else {
        assert(text.take(from).push(text[from]) =~= text.take(from + 1));
        plain_name(text, from + 1, word.push(text[from]), parts);
    }
}

/// The manifest of a directory lies in that directory: the path that holds it is
/// the directory, however that is written.
pub proof fn manifest_lies_in_its_dir(dir: DirPathView)
    ensures
        path::parent_of(path::joined(dir, "Cargo.toml"@)) matches Some(d) && path::plain(d)
            == path::plain(dir),
{
    reveal_strlit("Cargo.toml");
    reveal_strlit(".");
    let own = path::stem(dir.parts);
    let all = own.push("Cargo.toml"@);
    assert("Cargo.toml"@.take(0) =~= Seq::empty());
    plain_name("Cargo.toml"@, 0, Seq::empty(), own);
    assert(!path::ends_idle(dir.absolute, all));
    assert(all.drop_last() =~= own);
    path::trimming_keeps_names(dir.absolute, own);
}

// ── The walk ─────────────────────────────────────────────────────────────

/// Whether no directory stands behind one of the same canonical path that has a
/// manifest.
pub open spec fn listed_once(disk: DiskView, dirs: Seq<DirPathView>) -> bool {
    forall|i: int, j: int|
        0 <= i < j < dirs.len() && disk.present(
            path::joined(#[trigger] dirs[i], "Cargo.toml"@),
        ) ==> disk.canonical(dirs[i]) != disk.canonical(#[trigger] dirs[j])
}

spec fn entered_all(disk: DiskView, w: WalkView) -> bool {
    forall|i: int|
        0 <= i < w.dirs.len() && disk.present(path::joined(#[trigger] w.dirs[i], "Cargo.toml"@))
            ==> w.visited.contains(disk.canonical(w.dirs[i]))
}

spec fn grew(w: WalkView, later: WalkView) -> bool {
    &&& w.dirs.len() <= later.dirs.len()
    &&& later.dirs.take(w.dirs.len() as int) == w.dirs
    &&& forall|c: DirPathView| #[trigger] w.visited.contains(c) ==> later.visited.contains(c)
}

proof fn grew_through(a: WalkView, b: WalkView, c: WalkView)
    requires
        grew(a, b),
        grew(b, c),
    ensures
        grew(a, c),
{
    assert(c.dirs.take(a.dirs.len() as int) =~= a.dirs) by {
        assert forall|i: int| 0 <= i < a.dirs.len() implies c.dirs[i] == a.dirs[i] by {
            assert(b.dirs.take(a.dirs.len() as int)[i] == a.dirs[i]);
            assert(c.dirs.take(b.dirs.len() as int)[i] == b.dirs[i]);
        }
    }
}

/// The walk into one manifest, entered with the last directory of `w` not yet
/// visited.
proof fn walk_step(disk: DiskView, m: DirPathView, dir: DirPathView, w: WalkView, a: nat, b: nat)
    requires
        dirs_listed(disk),
        path::parent_of(m) == Some(dir),
        !w.visited.contains(disk.canonical(dir)),
        a > 0,
        b > 0,
        a - 1 >= unvisited(disk, disk.kinds, w.visited.push(disk.canonical(dir))),
        b - 1 >= unvisited(disk, disk.kinds, w.visited.push(disk.canonical(dir))),
        forall|i: int|
            0 <= i < w.dirs.len() && disk.present(
                path::joined(#[trigger] w.dirs[i], "Cargo.toml"@),
            ) ==> w.visited.contains(disk.canonical(w.dirs[i])) || disk.canonical(w.dirs[i])
                == disk.canonical(dir),
        listed_once(disk, w.dirs),
    ensures
        dep_walk::walked(disk, m, w, a) == dep_walk::walked(disk, m, w, b),
        dep_walk::walk_question(disk, m, w, a) == dep_walk::walk_question(disk, m, w, b),
        grew(w, dep_walk::walked(disk, m, w, a)),
        dep_walk::walked(disk, m, w, a).visited.contains(disk.canonical(dir)),
        entered_all(disk, dep_walk::walked(disk, m, w, a)),
        listed_once(disk, dep_walk::walked(disk, m, w, a).dirs),
    decreases a, 0int,
{
    let c = disk.canonical(dir);
    let entered = WalkView { visited: w.visited.push(c), ..w };
    assert(entered.visited[w.visited.len() as int] == c);
    assert forall|x: DirPathView| #[trigger]
        w.visited.contains(x) implies entered.visited.contains(x) by {
        let i = choose|i: int| 0 <= i < w.visited.len() && w.visited[i] == x;
        assert(entered.visited[i] == x);
    }
    assert(w.dirs.take(w.dirs.len() as int) =~= w.dirs);
    assert(grew(w, entered));
    assert(entered_all(disk, entered));
    match dep_walk::manifest_toml(disk, m) {
        Err(warning) => {
            let end = WalkView { warnings: entered.warnings.push(warning), ..entered };
            assert(grew(w, end));
        },
        Ok(v) => {
            if !dep_walk::is_virtual(v) {
                let deps = dep_walk::dependencies(v);
                deps_step(disk, dir, deps, 0, entered, (a - 1) as nat, (b - 1) as nat);
                let end = dep_walk::walked_deps(disk, dir, deps, 0, entered, (a - 1) as nat);
                grew_through(w, entered, end);
                assert(entered.visited.contains(c));
            }
        },
    }
}

proof fn deps_step(
    disk: DiskView,
    dir: DirPathView,
    deps: Seq<(Seq<char>, ValueView)>,
    from: int,
    w: WalkView,
    a: nat,
    b: nat,
)
    requires
        dirs_listed(disk),
        0 <= from,
        a >= unvisited(disk, disk.kinds, w.visited),
        b >= unvisited(disk, disk.kinds, w.visited),
        entered_all(disk, w),
        listed_once(disk, w.dirs),
    ensures
        dep_walk::walked_deps(disk, dir, deps, from, w, a) == dep_walk::walked_deps(
            disk,
            dir,
            deps,
            from,
            w,
            b,
        ),
        dep_walk::deps_question(disk, dir, deps, from, w, a) == dep_walk::deps_question(
            disk,
            dir,
            deps,
            from,
            w,
            b,
        ),
        grew(w, dep_walk::walked_deps(disk, dir, deps, from, w, a)),
        entered_all(disk, dep_walk::walked_deps(disk, dir, deps, from, w, a)),
        listed_once(disk, dep_walk::walked_deps(disk, dir, deps, from, w, a).dirs),
    decreases a, 1int, deps.len() - from,
{
    assert(w.dirs.take(w.dirs.len() as int) =~= w.dirs);
    assert(grew(w, w));
    if from < deps.len() {
        match deps[from].1.text_at("path"@) {
            None => {
                deps_step(disk, dir, deps, from + 1, w, a, b);
            },
            Some(rel) => {
                let dep_dir = path::joined(dir, rel);
                let c = disk.canonical(dep_dir);
                if disk.kind(dep_dir) != Kind::Dir {
                    let next = WalkView {
                        warnings: w.warnings.push(
                            "⚠️  "@ + dep_walk::missing_dir(deps[from].0, dep_dir),
                        ),
                        ..w
                    };
                    assert(grew(w, next));
                    deps_step(disk, dir, deps, from + 1, next, a, b);
                    grew_through(
                        w,
                        next,
                        dep_walk::walked_deps(disk, dir, deps, from + 1, next, a),
                    );
                } else if w.visited.contains(c) {
                    deps_step(disk, dir, deps, from + 1, w, a, b);
                } else {
                    let found = WalkView { dirs: w.dirs.push(dep_dir), ..w };
                    let manifest = path::joined(dep_dir, "Cargo.toml"@);
                    assert(found.dirs.take(w.dirs.len() as int) =~= w.dirs);
                    assert(grew(w, found));
                    assert(listed_once(disk, found.dirs)) by {
                        assert forall|i: int, j: int|
                            0 <= i < j < found.dirs.len() && disk.present(
                                path::joined(#[trigger] found.dirs[i], "Cargo.toml"@),
                            ) implies disk.canonical(found.dirs[i]) != disk.canonical(
                            #[trigger] found.dirs[j],
                        ) by {
                            assert(found.dirs[i] == w.dirs[i]);
                            if j < w.dirs.len() {
                                assert(found.dirs[j] == w.dirs[j]);
                            } else {
                                assert(w.visited.contains(disk.canonical(w.dirs[i])));
                            }
                        }
                    }
                    let next = if disk.present(manifest) {
                        dep_walk::walked(disk, manifest, found, a)
                    } else {
                        found
                    };
                    if disk.present(manifest) {
                        manifest_lies_in_its_dir(dep_dir);
                        let own_dir = path::parent_of(manifest)->Some_0;
                        assert(disk.canonical(own_dir) == c);
                        let at = choose|at: int|
                            0 <= at < disk.kinds.len() && (#[trigger] disk.kinds[at]).0 == dep_dir;
                        unvisited_drops(disk, disk.kinds, w.visited, at);
                        assert forall|i: int|
                            0 <= i < found.dirs.len() && disk.present(
                                path::joined(#[trigger] found.dirs[i], "Cargo.toml"@),
                            ) implies found.visited.contains(disk.canonical(found.dirs[i]))
                            || disk.canonical(found.dirs[i]) == disk.canonical(dep_dir) by {
                            if i < w.dirs.len() {
                                assert(found.dirs[i] == w.dirs[i]);
                            }
                        }
                        walk_step(disk, manifest, own_dir, found, a, b);
                        grew_through(w, found, next);
                    } else {
                        assert forall|i: int|
                            0 <= i < found.dirs.len() && disk.present(
                                path::joined(#[trigger] found.dirs[i], "Cargo.toml"@),
                            ) implies found.visited.contains(disk.canonical(found.dirs[i])) by {
                            assert(i < w.dirs.len());
                            assert(found.dirs[i] == w.dirs[i]);
                        }
                    }
                    unvisited_shrinks(disk, disk.kinds, w.visited, next.visited);
                    deps_step(disk, dir, deps, from + 1, next, a, b);
                    grew_through(
                        w,
                        next,
                        dep_walk::walked_deps(disk, dir, deps, from + 1, next, a),
                    );
                }
            },
        }
    }
}

proof fn walk_holds(disk: DiskView, m: DirPathView, depth: nat)
    requires
        depth > disk.kinds.len(),
    ensures
        dep_walk::walked(disk, m, dep_walk::no_walk(), depth) == dep_walk::walked(
            disk,
            m,
            dep_walk::no_walk(),
            disk.kinds.len() + 1,
        ),
        dep_walk::walk_question(disk, m, dep_walk::no_walk(), depth) == dep_walk::walk_question(
            disk,
            m,
            dep_walk::no_walk(),
            disk.kinds.len() + 1,
        ),
        entered_all(disk, dep_walk::walked(disk, m, dep_walk::no_walk(), depth)),
        listed_once(disk, dep_walk::walked(disk, m, dep_walk::no_walk(), depth).dirs),
{
    let w = dep_walk::no_walk();
    directories_are_listed(disk);
    if let Some(dir) = path::parent_of(m) {
        unvisited_bounded(disk, disk.kinds, w.visited.push(disk.canonical(dir)));
        walk_step(disk, m, dir, w, depth, disk.kinds.len() + 1);
    }
}

/// The walk over path dependencies is never cut short: following manifests
/// deeper than it does finds nothing more and asks nothing else. Cycles end, as a
/// directory is entered once.
pub proof fn path_walk_is_whole(disk: DiskView, m: DirPathView, depth: nat)
    requires
        disk.kinds.len() < usize::MAX,
        depth > disk.kinds.len(),
    ensures
        dep_walk::walked(disk, m, dep_walk::no_walk(), depth) == dep_walk::path_walk(disk, m),
        dep_walk::walk_question(disk, m, dep_walk::no_walk(), depth)
            == dep_walk::path_walk_question(disk, m),
{
    walk_holds(disk, m, depth);
}

// ── What the walk finds ──────────────────────────────────────────────────

/// Whether the manifest at `m` has a dependency with the path `rel`.
pub open spec fn names_path(disk: DiskView, m: DirPathView, rel: Seq<char>) -> bool {
    dep_walk::manifest_toml(disk, m) matches Ok(v) && !dep_walk::is_virtual(v) && exists|i: int|
        0 <= i < dep_walk::dependencies(v).len() && (#[trigger] dep_walk::dependencies(
            v,
        )[i]).1.text_at("path"@) == Some(rel)
}

/// Whether the manifest at `m` names the directory `t` as a path dependency.
pub open spec fn names_dir(disk: DiskView, m: DirPathView, t: DirPathView) -> bool {
    &&& disk.kind(t) == Kind::Dir
    &&& disk.canonical_question(t) is None
    &&& path::parent_of(m) matches Some(dir) && exists|rel: Seq<char>| #[trigger]
        names_path(disk, m, rel) && t == path::joined(dir, rel)
}

/// Whether the crate at `d` names the directory `t` as a path dependency.
pub open spec fn leads_on(disk: DiskView, d: DirPathView, t: DirPathView) -> bool {
    let m = path::joined(d, "Cargo.toml"@);
    disk.present(m) && names_dir(disk, m, t)
}

/// Whether `steps` crates stand between the manifest at `m` and the directory
/// `t` on a way of path dependencies.
pub open spec fn dir_reached_in(
    disk: DiskView,
    m: DirPathView,
    t: DirPathView,
    steps: nat,
) -> bool
    decreases steps,
{
    if steps == 0 {
        names_dir(disk, m, t)
    } else {
        exists|d: DirPathView| #[trigger]
            leads_on(disk, d, t) && dir_reached_in(disk, m, d, (steps - 1) as nat)
    }
}

/// Whether path dependencies lead from the manifest at `m` to the directory `t`.
pub open spec fn is_path_dep(disk: DiskView, m: DirPathView, t: DirPathView) -> bool {
    exists|steps: nat| dir_reached_in(disk, m, t, steps)
}

/// Whether what is known of two paths below one directory, by whatever names that
/// goes, is the same if the paths go on alike.
pub open spec fn told_alike(disk: DiskView) -> bool {
    forall|a: DirPathView, b: DirPathView, rel: Seq<char>|
        #![trigger path::joined(a, rel), path::joined(b, rel)]
        disk.canonical(a) == disk.canonical(b) ==> {
            let (p, q) = (path::joined(a, rel), path::joined(b, rel));
            &&& !disk.lacks(QueryView::Kind(p)) && !disk.lacks(QueryView::Kind(q)) ==> disk.kind(p)
                == disk.kind(q)
            &&& disk.kind(p) == Kind::Dir && disk.kind(q) == Kind::Dir
                && disk.canonical_question(p) is None && disk.canonical_question(q) is None
                ==> disk.canonical(p) == disk.canonical(q)
            &&& !disk.lacks(QueryView::Read(p)) && !disk.lacks(QueryView::Read(q)) ==> disk.read(p)
                == disk.read(q)
        }
}

/// Whether a walk has met a canonical directory.
spec fn met(disk: DiskView, w: WalkView, c: DirPathView) -> bool {
    w.visited.contains(c) || lists_form(disk, w.dirs, c)
}

/// Whether one of the directories has the canonical form `c`.
pub open spec fn lists_form(disk: DiskView, dirs: Seq<DirPathView>, c: DirPathView) -> bool {
    exists|i: int| 0 <= i < dirs.len() && disk.canonical(#[trigger] dirs[i]) == c
}

/// Whether a walk has looked at the dependency of the manifest in `dir` that has
/// the path `rel`.
spec fn looked_at(disk: DiskView, w: WalkView, dir: DirPathView, rel: Seq<char>) -> bool {
    let t = path::joined(dir, rel);
    &&& !disk.lacks(QueryView::Kind(t))
    &&& disk.kind(t) == Kind::Dir ==> disk.canonical_question(t) is None && met(
        disk,
        w,
        disk.canonical(t),
    )
}

/// Whether a walk has looked at all dependencies of the crate at `e`.
spec fn looked_through(disk: DiskView, w: WalkView, e: DirPathView) -> bool {
    let m = path::joined(e, "Cargo.toml"@);
    &&& !disk.lacks(QueryView::Read(m))
    &&& path::parent_of(m) matches Some(dir) && forall|rel: Seq<char>| #[trigger]
        names_path(disk, m, rel) ==> looked_at(disk, w, dir, rel)
}

/// Whether a walk has looked through a crate of the canonical form `c`.
spec fn went_through(disk: DiskView, w: WalkView, c: DirPathView) -> bool {
    exists|e: DirPathView| disk.canonical(e) == c && #[trigger] looked_through(disk, w, e)
}

/// What a walk that started from the manifest at `root` adds on its way from
/// `before` to `after`.
spec fn advanced(disk: DiskView, root: DirPathView, before: WalkView, after: WalkView) -> bool {
    &&& grew(before, after)
    &&& forall|c: DirPathView| #[trigger]
        after.visited.contains(c) && !before.visited.contains(c) ==> went_through(disk, after, c)
            && lists_form(disk, after.dirs, c)
    &&& forall|i: int|
        before.dirs.len() <= i < after.dirs.len() ==> {
            &&& is_path_dep(disk, root, #[trigger] after.dirs[i])
            &&& !before.visited.contains(disk.canonical(after.dirs[i]))
            &&& !disk.lacks(QueryView::Kind(path::joined(after.dirs[i], "Cargo.toml"@)))
        }
}

proof fn met_stays(disk: DiskView, before: WalkView, after: WalkView, c: DirPathView)
    requires
        grew(before, after),
        met(disk, before, c),
    ensures
        met(disk, after, c),
{
    if !before.visited.contains(c) {
        forms_stay(disk, before, after, c);
    }
}

proof fn forms_stay(disk: DiskView, before: WalkView, after: WalkView, c: DirPathView)
    requires
        grew(before, after),
        lists_form(disk, before.dirs, c),
    ensures
        lists_form(disk, after.dirs, c),
{
    let i = choose|i: int|
        0 <= i < before.dirs.len() && disk.canonical(#[trigger] before.dirs[i]) == c;
    assert(after.dirs.take(before.dirs.len() as int)[i] == before.dirs[i]);
    assert(disk.canonical(after.dirs[i]) == c);
}

proof fn looked_through_stays(
    disk: DiskView,
    before: WalkView,
    after: WalkView,
    e: DirPathView,
)
    requires
        grew(before, after),
        looked_through(disk, before, e),
    ensures
        looked_through(disk, after, e),
{
    let m = path::joined(e, "Cargo.toml"@);
    let dir = path::parent_of(m)->Some_0;
    assert forall|rel: Seq<char>| #[trigger] names_path(disk, m, rel) implies looked_at(
        disk,
        after,
        dir,
        rel,
    ) by {
        assert(looked_at(disk, before, dir, rel));
        let t = path::joined(dir, rel);
        if disk.kind(t) == Kind::Dir {
            met_stays(disk, before, after, disk.canonical(t));
        }
    }
}

proof fn advanced_through(
    disk: DiskView,
    root: DirPathView,
    a: WalkView,
    b: WalkView,
    c: WalkView,
)
    requires
        advanced(disk, root, a, b),
        advanced(disk, root, b, c),
    ensures
        advanced(disk, root, a, c),
{
    grew_through(a, b, c);
    assert forall|x: DirPathView| #[trigger]
        c.visited.contains(x) && !a.visited.contains(x) implies went_through(disk, c, x)
        && lists_form(disk, c.dirs, x) by {
        if b.visited.contains(x) {
            let e = choose|e: DirPathView|
                disk.canonical(e) == x && #[trigger] looked_through(disk, b, e);
            looked_through_stays(disk, b, c, e);
            forms_stay(disk, b, c, x);
        }
    }
    assert forall|i: int| a.dirs.len() <= i < c.dirs.len() implies {
        &&& is_path_dep(disk, root, #[trigger] c.dirs[i])
        &&& !a.visited.contains(disk.canonical(c.dirs[i]))
        &&& !disk.lacks(QueryView::Kind(path::joined(c.dirs[i], "Cargo.toml"@)))
    } by {
        if i < b.dirs.len() {
            assert(c.dirs.take(b.dirs.len() as int)[i] == b.dirs[i]);
        } else if a.visited.contains(disk.canonical(c.dirs[i])) {
            assert(b.visited.contains(disk.canonical(c.dirs[i])));
        }
    }
}

/// The walk into the crate at `e`, which is listed and not yet visited.
proof fn crate_advances(
    disk: DiskView,
    root: DirPathView,
    e: DirPathView,
    w: WalkView,
    depth: nat,
)
    requires
        dirs_listed(disk),
        !w.visited.contains(disk.canonical(e)),
        depth > 0,
        depth - 1 >= unvisited(disk, disk.kinds, w.visited.push(disk.canonical(e))),
        forall|i: int|
            0 <= i < w.dirs.len() && disk.present(
                path::joined(#[trigger] w.dirs[i], "Cargo.toml"@),
            ) ==> w.visited.contains(disk.canonical(w.dirs[i])) || disk.canonical(w.dirs[i])
                == disk.canonical(e),
        listed_once(disk, w.dirs),
        lists_form(disk, w.dirs, disk.canonical(e)),
        dep_walk::walk_question(disk, path::joined(e, "Cargo.toml"@), w, depth) is None,
        forall|t: DirPathView| #[trigger]
            names_dir(disk, path::joined(e, "Cargo.toml"@), t) ==> is_path_dep(disk, root, t),
    ensures
        advanced(
            disk,
            root,
            w,
            dep_walk::walked(disk, path::joined(e, "Cargo.toml"@), w, depth),
        ),
    decreases depth, 0int,
{
    let m = path::joined(e, "Cargo.toml"@);
    manifest_lies_in_its_dir(e);
    let dir = path::parent_of(m)->Some_0;
    let c = disk.canonical(e);
    assert(disk.canonical(dir) == c);
    let entered = WalkView { visited: w.visited.push(c), ..w };
    entering_grows(w, c);
    assert(entered_all(disk, entered));
    let end = dep_walk::walked(disk, m, w, depth);
    match dep_walk::manifest_toml(disk, m) {
        Err(warning) => {
            assert(grew(entered, end));
        },
        Ok(v) => if dep_walk::is_virtual(v) {
            assert(grew(entered, end));
        } else {
            let deps = dep_walk::dependencies(v);
            deps_advance(disk, root, m, dir, deps, 0, entered, (depth - 1) as nat);
        },
    }
    if !(dep_walk::manifest_toml(disk, m) matches Ok(v) && !dep_walk::is_virtual(v)) {
        assert(end.visited =~= entered.visited);
        assert(end.dirs =~= entered.dirs);
    }
    assert(looked_through(disk, end, e)) by {
        assert forall|rel: Seq<char>| #[trigger] names_path(disk, m, rel) implies looked_at(
            disk,
            end,
            dir,
            rel,
        ) by {
            let deps = dep_walk::dependencies(dep_walk::manifest_toml(disk, m)->Ok_0);
            let i = choose|i: int|
                0 <= i < deps.len() && (#[trigger] deps[i]).1.text_at("path"@) == Some(rel);
            assert(deps[i].1.text_at("path"@) == Some(rel));
        }
    }
    grew_through(w, entered, end);
    forms_stay(disk, w, end, c);
    assert forall|x: DirPathView| #[trigger]
        end.visited.contains(x) && !w.visited.contains(x) implies went_through(disk, end, x)
        && lists_form(disk, end.dirs, x) by {
        if x != c {
            assert(!entered.visited.contains(x)) by {
                if entered.visited.contains(x) {
                    let i = choose|i: int|
                        0 <= i < entered.visited.len() && entered.visited[i] == x;
                    if i < w.visited.len() {
                        assert(w.visited[i] == x);
                    }
                }
            }
        }
    }
    assert forall|i: int| w.dirs.len() <= i < end.dirs.len() implies {
        &&& is_path_dep(disk, root, #[trigger] end.dirs[i])
        &&& !w.visited.contains(disk.canonical(end.dirs[i]))
        &&& !disk.lacks(QueryView::Kind(path::joined(end.dirs[i], "Cargo.toml"@)))
    } by {
        if w.visited.contains(disk.canonical(end.dirs[i])) {
            assert(entered.visited.contains(disk.canonical(end.dirs[i])));
        }
    }
}

proof fn entering_grows(w: WalkView, c: DirPathView)
    ensures
        grew(w, WalkView { visited: w.visited.push(c), ..w }),
        w.visited.push(c).contains(c),
{
    let entered = WalkView { visited: w.visited.push(c), ..w };
    assert(entered.visited[w.visited.len() as int] == c);
    assert forall|x: DirPathView| #[trigger]
        w.visited.contains(x) implies entered.visited.contains(x) by {
        let i = choose|i: int| 0 <= i < w.visited.len() && w.visited[i] == x;
        assert(entered.visited[i] == x);
    }
    assert(w.dirs.take(w.dirs.len() as int) =~= w.dirs);
}

/// The walk over the dependencies from `from` on of the manifest at `m`.
proof fn deps_advance(
    disk: DiskView,
    root: DirPathView,
    m: DirPathView,
    dir: DirPathView,
    deps: Seq<(Seq<char>, ValueView)>,
    from: int,
    w: WalkView,
    depth: nat,
)
    requires
        dirs_listed(disk),
        0 <= from,
        depth >= unvisited(disk, disk.kinds, w.visited),
        entered_all(disk, w),
        listed_once(disk, w.dirs),
        path::parent_of(m) == Some(dir),
        dep_walk::manifest_toml(disk, m) matches Ok(v) && !dep_walk::is_virtual(v) && deps
            == dep_walk::dependencies(v),
        dep_walk::deps_question(disk, dir, deps, from, w, depth) is None,
        forall|t: DirPathView| #[trigger] names_dir(disk, m, t) ==> is_path_dep(disk, root, t),
    ensures
        advanced(disk, root, w, dep_walk::walked_deps(disk, dir, deps, from, w, depth)),
        forall|j: int|
            from <= j < deps.len() ==> ((#[trigger] deps[j]).1.text_at("path"@) matches Some(rel)
                ==> looked_at(
                disk,
                dep_walk::walked_deps(disk, dir, deps, from, w, depth),
                dir,
                rel,
            )),
    decreases depth, 1int, deps.len() - from,
{
    let end = dep_walk::walked_deps(disk, dir, deps, from, w, depth);
    assert(w.dirs.take(w.dirs.len() as int) =~= w.dirs);
    assert(grew(w, w));
    assert(advanced(disk, root, w, w));
    if from < deps.len() {
        match deps[from].1.text_at("path"@) {
            None => {
                deps_advance(disk, root, m, dir, deps, from + 1, w, depth);
            },
            Some(rel) => {
                let dep_dir = path::joined(dir, rel);
                let c = disk.canonical(dep_dir);
                let v = dep_walk::manifest_toml(disk, m)->Ok_0;
                assert(dep_walk::dependencies(v)[from].1.text_at("path"@) == Some(rel));
                assert(names_path(disk, m, rel));
                if disk.kind(dep_dir) != Kind::Dir {
                    let next = WalkView {
                        warnings: w.warnings.push(
                            "⚠️  "@ + dep_walk::missing_dir(deps[from].0, dep_dir),
                        ),
                        ..w
                    };
                    assert(grew(w, next));
                    assert(advanced(disk, root, w, next));
                    deps_advance(disk, root, m, dir, deps, from + 1, next, depth);
                    advanced_through(disk, root, w, next, end);
                } else if w.visited.contains(c) {
                    deps_advance(disk, root, m, dir, deps, from + 1, w, depth);
                    met_stays(disk, w, end, c);
                } else {
                    assert(names_dir(disk, m, dep_dir));
                    let found = WalkView { dirs: w.dirs.push(dep_dir), ..w };
                    let manifest = path::joined(dep_dir, "Cargo.toml"@);
                    assert(found.dirs.take(w.dirs.len() as int) =~= w.dirs);
                    assert(grew(w, found));
                    assert(disk.canonical(found.dirs[w.dirs.len() as int]) == c);
                    assert(lists_form(disk, found.dirs, c));
                    assert(advanced(disk, root, w, found));
                    found_once(disk, w, dep_dir);
                    let next = if disk.present(manifest) {
                        dep_walk::walked(disk, manifest, found, depth)
                    } else {
                        found
                    };
                    if disk.present(manifest) {
                        manifest_lies_in_its_dir(dep_dir);
                        let own_dir = path::parent_of(manifest)->Some_0;
                        assert(disk.canonical(own_dir) == c);
                        let at = choose|at: int|
                            0 <= at < disk.kinds.len() && (#[trigger] disk.kinds[at]).0 == dep_dir;
                        unvisited_drops(disk, disk.kinds, w.visited, at);
                        assert forall|i: int|
                            0 <= i < found.dirs.len() && disk.present(
                                path::joined(#[trigger] found.dirs[i], "Cargo.toml"@),
                            ) implies found.visited.contains(disk.canonical(found.dirs[i]))
                            || disk.canonical(found.dirs[i]) == c by {
                            if i < w.dirs.len() {
                                assert(found.dirs[i] == w.dirs[i]);
                            }
                        }
                        assert forall|t: DirPathView| #[trigger]
                            names_dir(disk, manifest, t) implies is_path_dep(disk, root, t) by {
                            assert(leads_on(disk, dep_dir, t));
                            let steps = choose|steps: nat|
                                dir_reached_in(disk, root, dep_dir, steps);
                            assert(dir_reached_in(disk, root, t, steps + 1));
                        }
                        walk_step(disk, manifest, own_dir, found, depth, depth);
                        crate_advances(disk, root, dep_dir, found, depth);
                        advanced_through(disk, root, w, found, next);
                        forms_stay(disk, found, next, c);
                    } else {
                        assert forall|i: int|
                            0 <= i < found.dirs.len() && disk.present(
                                path::joined(#[trigger] found.dirs[i], "Cargo.toml"@),
                            ) implies found.visited.contains(disk.canonical(found.dirs[i])) by {
                            assert(i < w.dirs.len());
                            assert(found.dirs[i] == w.dirs[i]);
                        }
                    }
                    unvisited_shrinks(disk, disk.kinds, w.visited, next.visited);
                    deps_advance(disk, root, m, dir, deps, from + 1, next, depth);
                    advanced_through(disk, root, w, next, end);
                    forms_stay(disk, next, end, c);
                }
            },
        }
    }
}

proof fn found_once(disk: DiskView, w: WalkView, dep_dir: DirPathView)
    requires
        entered_all(disk, w),
        listed_once(disk, w.dirs),
        !w.visited.contains(disk.canonical(dep_dir)),
    ensures
        listed_once(disk, w.dirs.push(dep_dir)),
{
    let dirs = w.dirs.push(dep_dir);
    assert forall|i: int, j: int|
        0 <= i < j < dirs.len() && disk.present(
            path::joined(#[trigger] dirs[i], "Cargo.toml"@),
        ) implies disk.canonical(dirs[i]) != disk.canonical(#[trigger] dirs[j]) by {
        assert(dirs[i] == w.dirs[i]);
        if j < w.dirs.len() {
            assert(dirs[j] == w.dirs[j]);
        } else {
            assert(w.visited.contains(disk.canonical(w.dirs[i])));
        }
    }
}

/// What a walk that looked through the crate `e` met of it, by whatever name the
/// crate goes.
proof fn met_by_any_name(
    disk: DiskView,
    w: WalkView,
    e: DirPathView,
    d: DirPathView,
    t: DirPathView,
)
    requires
        told_alike(disk),
        looked_through(disk, w, e),
        disk.canonical(e) == disk.canonical(d),
        leads_on(disk, d, t),
    ensures
        met(disk, w, disk.canonical(t)),
{
    let (a, b) = (path::joined(e, "Cargo.toml"@), path::joined(d, "Cargo.toml"@));
    manifest_lies_in_its_dir(e);
    manifest_lies_in_its_dir(d);
    let (dir_a, dir_b) = (path::parent_of(a)->Some_0, path::parent_of(b)->Some_0);
    assert(disk.canonical(dir_a) == disk.canonical(dir_b));
    let rel = choose|rel: Seq<char>| #[trigger]
        names_path(disk, b, rel) && t == path::joined(dir_b, rel);
    assert(!disk.lacks(QueryView::Read(b)));
    assert(disk.read(a) == disk.read(b));
    assert(names_path(disk, a, rel));
    let own = path::joined(dir_a, rel);
    assert(looked_at(disk, w, dir_a, rel));
    assert(!disk.lacks(QueryView::Kind(t)));
    assert(disk.kind(own) == disk.kind(t));
    assert(disk.canonical(own) == disk.canonical(t));
}

proof fn all_met(
    disk: DiskView,
    dir: DirPathView,
    end: WalkView,
    t: DirPathView,
    steps: nat,
)
    requires
        told_alike(disk),
        entered_all(disk, end),
        forall|c: DirPathView| #[trigger] end.visited.contains(c) ==> went_through(disk, end, c),
        looked_through(disk, end, dir),
        forall|i: int|
            0 <= i < end.dirs.len() ==> !disk.lacks(
                QueryView::Kind(path::joined(#[trigger] end.dirs[i], "Cargo.toml"@)),
            ),
        dir_reached_in(disk, path::joined(dir, "Cargo.toml"@), t, steps),
    ensures
        met(disk, end, disk.canonical(t)),
    decreases steps,
{
    let m = path::joined(dir, "Cargo.toml"@);
    if steps == 0 {
        let own = path::parent_of(m)->Some_0;
        let rel = choose|rel: Seq<char>| #[trigger]
            names_path(disk, m, rel) && t == path::joined(own, rel);
        assert(looked_at(disk, end, own, rel));
    } else {
        let d = choose|d: DirPathView| #[trigger]
            leads_on(disk, d, t) && dir_reached_in(disk, m, d, (steps - 1) as nat);
        all_met(disk, dir, end, d, (steps - 1) as nat);
        let c = disk.canonical(d);
        if !end.visited.contains(c) {
            let i = choose|i: int|
                0 <= i < end.dirs.len() && disk.canonical(#[trigger] end.dirs[i]) == c;
            let (p, q) = (
                path::joined(end.dirs[i], "Cargo.toml"@),
                path::joined(d, "Cargo.toml"@),
            );
            assert(!disk.lacks(QueryView::Kind(q)));
            assert(disk.kind(p) == disk.kind(q));
            assert(end.visited.contains(disk.canonical(end.dirs[i])));
        }
        let e = choose|e: DirPathView|
            disk.canonical(e) == c && #[trigger] looked_through(disk, end, e);
        met_by_any_name(disk, end, e, d, t);
    }
}

/// The walk over path dependencies finds what is reachable over them, and nothing
/// else: each directory it lists is one that path dependencies lead to from the
/// crate at `dir`, and one of each is listed, by its canonical path. The crate
/// itself is not. All the walk asks is answered, and of one place the answers are
/// the same.
pub proof fn walk_finds_what_is_reachable(disk: DiskView, dir: DirPathView)
    requires
        disk.kinds.len() < usize::MAX,
        told_alike(disk),
        dep_walk::path_walk_question(disk, path::joined(dir, "Cargo.toml"@)) is None,
    ensures
        ({
            let m = path::joined(dir, "Cargo.toml"@);
            let dirs = dep_walk::path_walk(disk, m).dirs;
            &&& forall|i: int|
                0 <= i < dirs.len() ==> is_path_dep(disk, m, #[trigger] dirs[i]) && disk.canonical(
                    dirs[i],
                ) != disk.canonical(dir)
            &&& forall|t: DirPathView| #[trigger]
                is_path_dep(disk, m, t) && disk.canonical(t) != disk.canonical(dir) ==> lists_form(
                    disk,
                    dirs,
                    disk.canonical(t),
                )
        }),
{
    let m = path::joined(dir, "Cargo.toml"@);
    let w = dep_walk::no_walk();
    let c = disk.canonical(dir);
    let depth = disk.kinds.len() + 1;
    let end = dep_walk::path_walk(disk, m);
    directories_are_listed(disk);
    manifest_lies_in_its_dir(dir);
    let own = path::parent_of(m)->Some_0;
    assert(disk.canonical(own) == c);
    let entered = WalkView { visited: w.visited.push(c), ..w };
    entering_grows(w, c);
    unvisited_bounded(disk, disk.kinds, entered.visited);
    walk_step(disk, m, own, w, depth, depth);
    assert forall|t: DirPathView| #[trigger] names_dir(disk, m, t) implies is_path_dep(
        disk,
        m,
        t,
    ) by {
        assert(dir_reached_in(disk, m, t, 0));
    }
    match dep_walk::manifest_toml(disk, m) {
        Ok(v) if !dep_walk::is_virtual(v) => {
            let deps = dep_walk::dependencies(v);
            deps_advance(disk, m, m, own, deps, 0, entered, (depth - 1) as nat);
        },
        _ => {
            assert(end.visited =~= entered.visited);
            assert(end.dirs =~= entered.dirs);
            assert(grew(entered, end));
        },
    }
    assert(advanced(disk, m, entered, end));
    assert(looked_through(disk, end, dir)) by {
        assert forall|rel: Seq<char>| #[trigger] names_path(disk, m, rel) implies looked_at(
            disk,
            end,
            own,
            rel,
        ) by {
            let deps = dep_walk::dependencies(dep_walk::manifest_toml(disk, m)->Ok_0);
            let i = choose|i: int|
                0 <= i < deps.len() && (#[trigger] deps[i]).1.text_at("path"@) == Some(rel);
            assert(deps[i].1.text_at("path"@) == Some(rel));
        }
    }
    assert forall|x: DirPathView| #[trigger] end.visited.contains(x) implies went_through(
        disk,
        end,
        x,
    ) by {
        if x == c {
            assert(looked_through(disk, end, dir));
        } else {
            assert(!entered.visited.contains(x)) by {
                if entered.visited.contains(x) {
                    let i = choose|i: int|
                        0 <= i < entered.visited.len() && entered.visited[i] == x;
                    assert(i == 0);
                }
            }
        }
    }
    assert forall|t: DirPathView| #[trigger]
        is_path_dep(disk, m, t) && disk.canonical(t) != c implies lists_form(
        disk,
        end.dirs,
        disk.canonical(t),
    ) by {
        let steps = choose|steps: nat| dir_reached_in(disk, m, t, steps);
        all_met(disk, dir, end, t, steps);
        let x = disk.canonical(t);
        if end.visited.contains(x) {
            assert(!entered.visited.contains(x)) by {
                if entered.visited.contains(x) {
                    let i = choose|i: int|
                        0 <= i < entered.visited.len() && entered.visited[i] == x;
                    assert(i == 0);
                }
            }
        }
    }
}

// ── Crates are listed once ───────────────────────────────────────────────

proof fn merged_once(
    disk: DiskView,
    more: Seq<DirPathView>,
    from: int,
    seen: Seq<DirPathView>,
    dirs: Seq<DirPathView>,
    known: int,
)
    requires
        0 <= from,
        0 <= known <= dirs.len(),
        listed_once(disk, dirs),
        forall|i: int|
            0 <= i < dirs.len() && (i >= known || disk.present(
                path::joined(#[trigger] dirs[i], "Cargo.toml"@),
            )) ==> seen.contains(disk.canonical(dirs[i])),
    ensures
        listed_once(disk, dep_walk::merged(disk, more, from, seen, dirs)),
    decreases more.len() - from,
{
    if from < more.len() {
        let c = disk.canonical(more[from]);
        if seen.contains(c) {
            merged_once(disk, more, from + 1, seen, dirs, known);
        } else {
            let now = seen.push(c);
            let next = dirs.push(more[from]);
            assert(now[seen.len() as int] == c);
            assert forall|x: DirPathView| #[trigger] seen.contains(x) implies now.contains(x) by {
                let i = choose|i: int| 0 <= i < seen.len() && seen[i] == x;
                assert(now[i] == x);
            }
            assert forall|i: int|
                0 <= i < next.len() && (i >= known || disk.present(
                    path::joined(#[trigger] next[i], "Cargo.toml"@),
                )) implies now.contains(disk.canonical(next[i])) by {
                if i < dirs.len() {
                    assert(next[i] == dirs[i]);
                }
            }
            assert forall|i: int, j: int|
                0 <= i < j < next.len() && disk.present(
                    path::joined(#[trigger] next[i], "Cargo.toml"@),
                ) implies disk.canonical(next[i]) != disk.canonical(#[trigger] next[j]) by {
                assert(next[i] == dirs[i]);
                if j < dirs.len() {
                    assert(next[j] == dirs[j]);
                } else {
                    assert(seen.contains(disk.canonical(dirs[i])));
                }
            }
            merged_once(disk, more, from + 1, now, next, known);
        }
    }
}

/// No crate is listed twice among the transitive dependencies, by whatever paths
/// it is reached: no directory stands behind a crate of the same canonical path.
pub proof fn transitive_dirs_are_listed_once(
    disk: DiskView,
    start: DirPathView,
    with_metadata: bool,
)
    requires
        disk.kinds.len() < usize::MAX,
    ensures
        listed_once(disk, dep_walk::dep_graph(disk, start, with_metadata).0.transitive_dirs),
{
    assert forall|dir: DirPathView, m: DirPathView, v: ValueView| listed_once(
        disk,
        (#[trigger] dep_walk::crate_graph(disk, dir, m, v, with_metadata)).0.transitive_dirs,
    ) by {
        walk_holds(disk, m, disk.kinds.len() + 1);
        let walk = dep_walk::path_walk(disk, m);
        if let Ok(meta) = dep_walk::metadata_value(disk, m) {
            merged_once(
                disk,
                dep_walk::package_dirs(disk, meta, m, dep_walk::packages_of(meta)),
                0,
                walk.visited,
                walk.dirs,
                walk.dirs.len() as int,
            );
        }
    }
}

// ── The search for a member ──────────────────────────────────────────────

/// Whether what can be listed is listed.
spec fn lists_listed(disk: DiskView) -> bool {
    forall|p: DirPathView|
        (#[trigger] disk.list(p)) is Some ==> exists|i: int|
            0 <= i < disk.lists.len() && (#[trigger] disk.lists[i]).0 == p
}

proof fn listings_are_listed(disk: DiskView)
    ensures
        lists_listed(disk),
{
    assert forall|p: DirPathView| (#[trigger] disk.list(p)) is Some implies exists|i: int|
        0 <= i < disk.lists.len() && (#[trigger] disk.lists[i]).0 == p by {
        if crate::disk::answer_from(disk.lists, p, 0) is Some {
            answered_at(disk.lists, p, 0);
        }
    }
}

/// How far down a directory lies: each of its pieces counts twice, but for a slash
/// at its end, which counts once.
spec fn deep(p: DirPathView) -> nat {
    p.parts.len() + path::stem(p.parts).len()
}

/// How many of the listed directories are at least `n` deep.
spec fn at_least<A>(lists: Seq<(DirPathView, A)>, n: nat) -> nat
    decreases lists.len(),
{
    if lists.len() == 0 {
        0
    } else {
        at_least(lists.drop_last(), n) + if deep(lists.last().0) >= n {
            1nat
        } else {
            0nat
        }
    }
}

proof fn at_least_bounded<A>(lists: Seq<(DirPathView, A)>, n: nat, m: nat)
    requires
        n <= m,
    ensures
        at_least(lists, n) <= lists.len(),
        at_least(lists, m) <= at_least(lists, n),
    decreases lists.len(),
{
    if lists.len() > 0 {
        at_least_bounded(lists.drop_last(), n, m);
    }
}

proof fn at_least_drops<A>(lists: Seq<(DirPathView, A)>, at: int)
    requires
        0 <= at < lists.len(),
    ensures
        at_least(lists, deep(lists[at].0) + 1) + 1 <= at_least(lists, deep(lists[at].0)),
    decreases lists.len(),
{
    let n = deep(lists[at].0);
    if at == lists.len() - 1 {
        at_least_bounded(lists.drop_last(), n, n + 1);
    } else {
        assert(lists.drop_last()[at] == lists[at]);
        at_least_drops(lists.drop_last(), at);
    }
}

proof fn search_step(disk: DiskView, dir: DirPathView, target: DirPathView, a: nat, b: nat)
    requires
        lists_listed(disk),
        a > at_least(disk.lists, deep(dir)),
        b > at_least(disk.lists, deep(dir)),
    ensures
        dep_walk::searched(disk, dir, target, a) == dep_walk::searched(disk, dir, target, b),
        dep_walk::search_question(disk, dir, target, a) == dep_walk::search_question(
            disk,
            dir,
            target,
            b,
        ),
    decreases a, 0int,
{
    if let Some(entries) = disk.list(dir) {
        let at = choose|at: int|
            0 <= at < disk.lists.len() && (#[trigger] disk.lists[at]).0 == dir;
        at_least_drops(disk.lists, at);
        below_step(disk, dir, entries, target, 0, (a - 1) as nat, (b - 1) as nat);
    }
}

proof fn below_step(
    disk: DiskView,
    dir: DirPathView,
    entries: Seq<ListedView>,
    target: DirPathView,
    from: int,
    a: nat,
    b: nat,
)
    requires
        lists_listed(disk),
        0 <= from,
        a > at_least(disk.lists, deep(dir) + 1),
        b > at_least(disk.lists, deep(dir) + 1),
    ensures
        dep_walk::searched_below(disk, dir, entries, target, from, a) == dep_walk::searched_below(
            disk,
            dir,
            entries,
            target,
            from,
            b,
        ),
        dep_walk::below_question(disk, dir, entries, target, from, a) == dep_walk::below_question(
            disk,
            dir,
            entries,
            target,
            from,
            b,
        ),
    decreases a, 1int, entries.len() - from,
{
    if from < entries.len() {
        let child = path::child(dir, entries[from].name);
        assert(deep(child) > deep(dir));
        at_least_bounded(disk.lists, deep(dir) + 1, deep(child));
        search_step(disk, child, target, a, b);
        below_step(disk, dir, entries, target, from + 1, a, b);
    }
}

/// The search of a workspace's directories is never cut short: searching deeper
/// finds no other manifest and asks nothing else.
pub proof fn member_search_is_whole(
    disk: DiskView,
    root: DirPathView,
    target: DirPathView,
    depth: nat,
)
    requires
        disk.lists.len() < usize::MAX,
        depth > disk.lists.len(),
    ensures
        dep_walk::searched(disk, root, target, depth) == dep_walk::searched(
            disk,
            root,
            target,
            dep_walk::one_more(disk.lists.len()),
        ),
        dep_walk::search_question(disk, root, target, depth) == dep_walk::search_question(
            disk,
            root,
            target,
            dep_walk::one_more(disk.lists.len()),
        ),
{
    listings_are_listed(disk);
    at_least_bounded(disk.lists, deep(root), deep(root));
    search_step(disk, root, target, depth, dep_walk::one_more(disk.lists.len()));
}

/// Without a request for metadata there is nothing that could have failed to
/// contribute.
pub proof fn nothing_fails_unrequested(disk: DiskView, start: DirPathView)
    ensures
        dep_walk::dep_graph(disk, start, false).0.metadata_failure is None,
{
}

// ── What is asked ────────────────────────────────────────────────────────

/// Whether a question is one for cargo.
pub open spec fn asks_cargo(q: Option<QueryView>) -> bool {
    q matches Some(QueryView::Metadata(_))
}

proof fn above_asks_no_cargo(disk: DiskView, dir: DirPathView)
    ensures
        !asks_cargo(dep_walk::above_question(disk, dir)),
    decreases dir.parts.len(),
{
    path::parent_has_one_name_less(dir);
    if let Some(p) = path::parent_of(dir) {
        above_asks_no_cargo(disk, p);
    }
}

proof fn members_ask_no_cargo(
    disk: DiskView,
    root: DirPathView,
    patterns: Seq<Seq<char>>,
    from: int,
)
    ensures
        !asks_cargo(dep_walk::members_question(disk, root, patterns, from)),
    decreases patterns.len() - from,
{
    if 0 <= from < patterns.len() {
        members_ask_no_cargo(disk, root, patterns, from + 1);
    }
}

proof fn holding_asks_no_cargo(
    disk: DiskView,
    root: DirPathView,
    names: Seq<Seq<char>>,
    source_dir: DirPathView,
    from: int,
)
    ensures
        !asks_cargo(dep_walk::holding_question(disk, root, names, source_dir, from)),
    decreases names.len() - from,
{
    if 0 <= from < names.len() {
        holding_asks_no_cargo(disk, root, names, source_dir, from + 1);
    }
}

proof fn search_asks_no_cargo(disk: DiskView, dir: DirPathView, target: DirPathView, depth: nat)
    ensures
        !asks_cargo(dep_walk::search_question(disk, dir, target, depth)),
    decreases depth, 0int,
{
    if depth > 0 {
        if let Some(entries) = disk.list(dir) {
            below_asks_no_cargo(disk, dir, entries, target, 0, (depth - 1) as nat);
        }
    }
}

proof fn below_asks_no_cargo(
    disk: DiskView,
    dir: DirPathView,
    entries: Seq<ListedView>,
    target: DirPathView,
    from: int,
    depth: nat,
)
    ensures
        !asks_cargo(dep_walk::below_question(disk, dir, entries, target, from, depth)),
    decreases depth, 1int, entries.len() - from,
{
    if 0 <= from < entries.len() {
        search_asks_no_cargo(disk, path::child(dir, entries[from].name), target, depth);
        below_asks_no_cargo(disk, dir, entries, target, from + 1, depth);
    }
}

proof fn walk_asks_no_cargo(disk: DiskView, m: DirPathView, w: WalkView, depth: nat)
    ensures
        !asks_cargo(dep_walk::walk_question(disk, m, w, depth)),
    decreases depth, 0int,
{
    if let Some(dir) = path::parent_of(m) {
        if depth > 0 {
            if let Ok(v) = dep_walk::manifest_toml(disk, m) {
                let entered = WalkView { visited: w.visited.push(disk.canonical(dir)), ..w };
                deps_ask_no_cargo(
                    disk,
                    dir,
                    dep_walk::dependencies(v),
                    0,
                    entered,
                    (depth - 1) as nat,
                );
            }
        }
    }
}

proof fn deps_ask_no_cargo(
    disk: DiskView,
    dir: DirPathView,
    deps: Seq<(Seq<char>, ValueView)>,
    from: int,
    w: WalkView,
    depth: nat,
)
    ensures
        !asks_cargo(dep_walk::deps_question(disk, dir, deps, from, w, depth)),
    decreases depth, 1int, deps.len() - from,
{
    if 0 <= from < deps.len() {
        deps_ask_no_cargo(disk, dir, deps, from + 1, w, depth);
        if let Some(rel) = deps[from].1.text_at("path"@) {
            let dep_dir = path::joined(dir, rel);
            let manifest = path::joined(dep_dir, "Cargo.toml"@);
            let found = WalkView { dirs: w.dirs.push(dep_dir), ..w };
            let warned = WalkView {
                warnings: w.warnings.push(
                    "⚠️  "@ + dep_walk::missing_dir(deps[from].0, dep_dir),
                ),
                ..w
            };
            let after = dep_walk::walked(disk, manifest, found, depth);
            walk_asks_no_cargo(disk, manifest, found, depth);
            deps_ask_no_cargo(disk, dir, deps, from + 1, warned, depth);
            deps_ask_no_cargo(disk, dir, deps, from + 1, found, depth);
            deps_ask_no_cargo(disk, dir, deps, from + 1, after, depth);
        }
    }
}

proof fn direct_asks_no_cargo(
    disk: DiskView,
    dir: DirPathView,
    deps: Seq<(Seq<char>, ValueView)>,
    from: int,
)
    ensures
        !asks_cargo(dep_walk::direct_question(disk, dir, deps, from)),
    decreases deps.len() - from,
{
    if 0 <= from < deps.len() {
        direct_asks_no_cargo(disk, dir, deps, from + 1);
    }
}

/// Cargo is run on request only: without one, no question about the dependency
/// graph is one for `cargo metadata`.
pub proof fn cargo_is_asked_on_request_only(
    disk: DiskView,
    start: DirPathView,
    with_metadata: bool,
)
    ensures
        asks_cargo(dep_walk::dep_graph_question(disk, start, with_metadata)) ==> with_metadata,
{
    if !with_metadata {
        assert forall|dir: DirPathView| !asks_cargo(#[trigger] dep_walk::above_question(disk, dir)) by {
            above_asks_no_cargo(disk, dir);
        }
        assert forall|dir: DirPathView, m: DirPathView, v: ValueView| !asks_cargo(
            #[trigger] dep_walk::crate_graph_question(disk, dir, m, v, with_metadata),
        ) by {
            walk_asks_no_cargo(
                disk,
                m,
                dep_walk::no_walk(),
                dep_walk::one_more(disk.kinds.len()),
            );
            direct_asks_no_cargo(disk, dir, dep_walk::dependencies(v), 0);
        }
        assert forall|dir: DirPathView, v: ValueView| !asks_cargo(
            #[trigger] dep_walk::member_question(disk, dir, v, start),
        ) by {
            let source_dir = match path::parent_of(start) {
                Some(p) => p,
                None => start,
            };
            let patterns = dep_walk::member_patterns(v);
            members_ask_no_cargo(disk, dir, patterns, 0);
            holding_asks_no_cargo(
                disk,
                dir,
                dep_walk::members(disk, dir, patterns),
                source_dir,
                0,
            );
            search_asks_no_cargo(
                disk,
                dir,
                source_dir,
                dep_walk::one_more(disk.lists.len()),
            );
        }
    }
}

} // verus!
