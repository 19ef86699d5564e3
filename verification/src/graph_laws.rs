//! What the dependency graph of a crate lists of what cargo says.
use crate::dep_laws;
use crate::dep_walk;
use crate::disk::{DiskView, Kind};
use crate::extension::reading_laws;
use crate::path;
use crate::path::DirPathView;
use crate::value::ValueView;
use vstd::prelude::*;

verus! {

// ── Edges ────────────────────────────────────────────────────────────────

/// Whether a table has the text `s` under `key`.
pub open spec fn says(v: ValueView, key: Seq<char>, s: Seq<char>) -> bool {
    reading_laws::holds(v, key, ValueView::Str(s))
}

/// Whether a table has the list `a` under `key`.
pub open spec fn lists(v: ValueView, key: Seq<char>, a: Seq<ValueView>) -> bool {
    reading_laws::holds(v, key, ValueView::Array(a))
}

/// Whether an edge is one of a normal build: it names no kinds, or one that is null.
pub open spec fn is_normal(dep: ValueView) -> bool {
    forall|kinds: Seq<ValueView>| #[trigger]
        lists(dep, "dep_kinds"@, kinds) ==> exists|i: int|
            0 <= i < kinds.len() && reading_laws::holds(
                #[trigger] kinds[i],
                "kind"@,
                ValueView::Null,
            )
}

/// Whether a node has a normal edge to the package `id`.
pub open spec fn depends(node: ValueView, id: Seq<char>) -> bool {
    exists|deps: Seq<ValueView>, i: int|
        #![trigger lists(node, "deps"@, deps), deps[i]]
        lists(node, "deps"@, deps) && 0 <= i < deps.len() && says(deps[i], "pkg"@, id)
            && is_normal(deps[i])
}

proof fn text_is_said(v: ValueView, key: Seq<char>, s: Seq<char>)
    ensures
        v.text_at(key) == Some(s) <==> says(v, key, s),
{
    reading_laws::entries_are_held(v, key);
}

proof fn array_is_listed(v: ValueView, key: Seq<char>, a: Seq<ValueView>)
    ensures
        v.elements_at(key) == Some(a) <==> lists(v, key, a),
{
    reading_laws::entries_are_held(v, key);
}

proof fn kinds_are_read(kinds: Seq<ValueView>, from: int)
    requires
        0 <= from <= kinds.len(),
    ensures
        dep_walk::names_normal(kinds, from) <==> exists|i: int|
            from <= i < kinds.len() && reading_laws::holds(
                #[trigger] kinds[i],
                "kind"@,
                ValueView::Null,
            ),
    decreases kinds.len() - from,
{
    if from < kinds.len() {
        kinds_are_read(kinds, from + 1);
        reading_laws::entries_are_held(kinds[from], "kind"@);
    }
}

/// An edge counts as normal if it names no kinds, or one that is null.
pub proof fn normal_edges_are_those_of_a_normal_build(dep: ValueView)
    ensures
        dep_walk::normal_edge(dep) <==> is_normal(dep),
{
    match dep.elements_at("dep_kinds"@) {
        Some(kinds) => {
            array_is_listed(dep, "dep_kinds"@, kinds);
            kinds_are_read(kinds, 0);
            if dep_walk::normal_edge(dep) {
                assert forall|other: Seq<ValueView>| #[trigger] lists(
                    dep,
                    "dep_kinds"@,
                    other,
                ) implies exists|i: int|
                    0 <= i < other.len() && reading_laws::holds(
                        #[trigger] other[i],
                        "kind"@,
                        ValueView::Null,
                    ) by {
                    array_is_listed(dep, "dep_kinds"@, other);
                }
            }
        },
        None => {
            assert forall|other: Seq<ValueView>| !#[trigger] lists(dep, "dep_kinds"@, other) by {
                array_is_listed(dep, "dep_kinds"@, other);
            }
        },
    }
}

proof fn targets_are_read(deps: Seq<ValueView>, id: Seq<char>)
    ensures
        dep_walk::targets(deps).contains(id) <==> exists|i: int|
            0 <= i < deps.len() && says(#[trigger] deps[i], "pkg"@, id) && is_normal(deps[i]),
    decreases deps.len(),
{
    if deps.len() > 0 {
        let init = deps.drop_last();
        let before = dep_walk::targets(init);
        let all = dep_walk::targets(deps);
        let n = deps.len() - 1;
        targets_are_read(init, id);
        normal_edges_are_those_of_a_normal_build(deps[n]);
        text_is_said(deps[n], "pkg"@, id);
        assert forall|i: int| 0 <= i < n implies #[trigger] deps[i] == init[i] by {}
        if before.contains(id) {
            let k = choose|k: int| 0 <= k < before.len() && before[k] == id;
            assert(all[k] == id);
            let i = choose|i: int|
                0 <= i < init.len() && says(#[trigger] init[i], "pkg"@, id) && is_normal(init[i]);
            assert(deps[i] == init[i]);
        }
        if says(deps[n], "pkg"@, id) && is_normal(deps[n]) {
            assert(all[before.len() as int] == id);
        }
        if all.contains(id) && !before.contains(id) {
            let k = choose|k: int| 0 <= k < all.len() && all[k] == id;
            if k < before.len() {
                assert(before[k] == id);
            }
            assert(says(deps[n], "pkg"@, id));
        }
        if exists|i: int|
            0 <= i < deps.len() && says(#[trigger] deps[i], "pkg"@, id) && is_normal(deps[i]) {
            let i = choose|i: int|
                0 <= i < deps.len() && says(#[trigger] deps[i], "pkg"@, id) && is_normal(deps[i]);
            if i < n {
                assert(init[i] == deps[i]);
            }
        }
    }
}

/// A node leads to the packages it has a normal edge to.
pub proof fn nodes_lead_to_what_they_depend_on(node: ValueView, id: Seq<char>)
    ensures
        dep_walk::node_targets(node).contains(id) <==> depends(node, id),
{
    match node.elements_at("deps"@) {
        Some(deps) => {
            array_is_listed(node, "deps"@, deps);
            targets_are_read(deps, id);
            if depends(node, id) {
                let (other, i) = choose|other: Seq<ValueView>, i: int|
                    #![trigger lists(node, "deps"@, other), other[i]]
                    lists(node, "deps"@, other) && 0 <= i < other.len() && says(
                        other[i],
                        "pkg"@,
                        id,
                    ) && is_normal(other[i]);
                array_is_listed(node, "deps"@, other);
            }
            if dep_walk::node_targets(node).contains(id) {
                let i = choose|i: int|
                    0 <= i < deps.len() && says(#[trigger] deps[i], "pkg"@, id) && is_normal(
                        deps[i],
                    );
                assert(lists(node, "deps"@, deps) && says(deps[i], "pkg"@, id));
            }
        },
        None => {
            assert forall|other: Seq<ValueView>| !#[trigger] lists(node, "deps"@, other) by {
                array_is_listed(node, "deps"@, other);
            }
        },
    }
}

// ── Reachability ─────────────────────────────────────────────────────────

/// Whether node `n` is the only one of the package `id`.
pub open spec fn is_node_of(nodes: Seq<ValueView>, n: int, id: Seq<char>) -> bool {
    &&& 0 <= n < nodes.len()
    &&& says(nodes[n], "id"@, id)
    &&& forall|m: int| 0 <= m < nodes.len() && says(#[trigger] nodes[m], "id"@, id) ==> m == n
}

proof fn only_node_is_found(nodes: Seq<ValueView>, n: int, id: Seq<char>)
    requires
        is_node_of(nodes, n, id),
    ensures
        dep_walk::node_of(nodes, id) == Some(nodes[n]),
    decreases nodes.len(),
{
    let last = nodes.len() - 1;
    text_is_said(nodes[last], "id"@, id);
    if n < last {
        let init = nodes.drop_last();
        assert forall|m: int| 0 <= m < init.len() && says(
            #[trigger] init[m],
            "id"@,
            id,
        ) implies m == n by {
            assert(nodes[m] == init[m]);
        }
        assert(init[n] == nodes[n]);
        only_node_is_found(init, n, id);
    }
}

proof fn only_node_is_first(nodes: Seq<ValueView>, n: int, id: Seq<char>, from: int)
    requires
        is_node_of(nodes, n, id),
        0 <= from <= n,
    ensures
        dep_walk::first_node(nodes, id, from) == Some(nodes[n]),
    decreases n - from,
{
    text_is_said(nodes[from], "id"@, id);
    if from < n {
        only_node_is_first(nodes, n, id, from + 1);
    }
}

/// What a package depends on is reachable from it, and what a reachable package
/// depends on is reachable too, however long the way.
pub proof fn dependencies_of_dependencies_are_reachable(
    nodes: Seq<ValueView>,
    root: Seq<char>,
    n: int,
    user: Seq<char>,
    id: Seq<char>,
)
    requires
        is_node_of(nodes, n, user),
        depends(nodes[n], id),
    ensures
        user == root || dep_walk::is_reachable(nodes, root, user) ==> dep_walk::is_reachable(
            nodes,
            root,
            id,
        ),
{
    only_node_is_found(nodes, n, user);
    nodes_lead_to_what_they_depend_on(nodes[n], id);
    assert(dep_walk::leads(nodes, user, id));
    if user == root {
        assert(dep_walk::reached_in(nodes, root, id, 0));
    } else if dep_walk::is_reachable(nodes, root, user) {
        let steps = choose|steps: nat| dep_walk::reached_in(nodes, root, user, steps);
        assert(dep_walk::reached_in(nodes, root, id, steps + 1));
    }
}

// ── Directories ──────────────────────────────────────────────────────────

proof fn merged_lists(
    disk: DiskView,
    more: Seq<DirPathView>,
    from: int,
    seen: Seq<DirPathView>,
    dirs: Seq<DirPathView>,
    form: DirPathView,
)
    requires
        0 <= from,
        dep_laws::lists_form(disk, dirs, form) || (!seen.contains(form) && exists|i: int|
            from <= i < more.len() && disk.canonical(#[trigger] more[i]) == form),
    ensures
        dep_laws::lists_form(disk, dep_walk::merged(disk, more, from, seen, dirs), form),
    decreases more.len() - from,
{
    if from < more.len() {
        let c = disk.canonical(more[from]);
        if seen.contains(c) {
            merged_lists(disk, more, from + 1, seen, dirs, form);
        } else {
            let next = dirs.push(more[from]);
            if dep_laws::lists_form(disk, dirs, form) {
                let k = choose|k: int|
                    0 <= k < dirs.len() && disk.canonical(#[trigger] dirs[k]) == form;
                assert(next[k] == dirs[k]);
                assert(dep_laws::lists_form(disk, next, form));
            } else if c == form {
                assert(next[dirs.len() as int] == more[from]);
                assert(dep_laws::lists_form(disk, next, form));
            } else {
                let i = choose|i: int|
                    from <= i < more.len() && disk.canonical(#[trigger] more[i]) == form;
                assert(i != from);
                assert(!seen.push(c).contains(form));
            }
            merged_lists(disk, more, from + 1, seen.push(c), next, form);
        }
    }
}

/// Whether `mp` is the manifest of the package `id`.
pub open spec fn is_manifest_of(
    packages: Seq<ValueView>,
    id: Seq<char>,
    mp: Seq<char>,
) -> bool {
    &&& exists|k: int|
        0 <= k < packages.len() && says(#[trigger] packages[k], "id"@, id) && says(
            packages[k],
            "manifest_path"@,
            mp,
        )
    &&& forall|k: int, other: Seq<char>|
        0 <= k < packages.len() && says(packages[k], "id"@, id) && #[trigger] says(
            packages[k],
            "manifest_path"@,
            other,
        ) ==> other == mp
}

proof fn manifest_is_found(packages: Seq<ValueView>, id: Seq<char>, mp: Seq<char>)
    requires
        is_manifest_of(packages, id, mp),
    ensures
        dep_walk::manifest_of(packages, id) == Some(mp),
    decreases packages.len(),
{
    let k = choose|k: int|
        0 <= k < packages.len() && says(#[trigger] packages[k], "id"@, id) && says(
            packages[k],
            "manifest_path"@,
            mp,
        );
    let last = packages.len() - 1;
    text_is_said(packages[last], "id"@, id);
    text_is_said(packages[last], "manifest_path"@, mp);
    if let Some(other) = packages[last].text_at("manifest_path"@) {
        text_is_said(packages[last], "manifest_path"@, other);
    }
    if !(says(packages[last], "id"@, id) && packages[last].text_at("manifest_path"@) is Some) {
        let init = packages.drop_last();
        assert(k < last);
        assert(init[k] == packages[k]);
        assert(is_manifest_of(init, id, mp)) by {
            assert(says(init[k], "id"@, id) && says(init[k], "manifest_path"@, mp));
            assert forall|j: int, other: Seq<char>|
                0 <= j < init.len() && says(init[j], "id"@, id) && #[trigger] says(
                    init[j],
                    "manifest_path"@,
                    other,
                ) implies other == mp by {
                assert(init[j] == packages[j]);
            }
        }
        manifest_is_found(init, id, mp);
    }
}

proof fn dirs_are_listed(
    packages: Seq<ValueView>,
    ids: Seq<Seq<char>>,
    id: Seq<char>,
    mp: Seq<char>,
    d: DirPathView,
)
    requires
        ids.contains(id),
        is_manifest_of(packages, id, mp),
        path::parent_of(path::of_text(mp)) == Some(d),
    ensures
        dep_walk::dirs_of(packages, ids).contains(d),
    decreases ids.len(),
{
    let init = ids.drop_last();
    let before = dep_walk::dirs_of(packages, init);
    let all = dep_walk::dirs_of(packages, ids);
    manifest_is_found(packages, id, mp);
    if ids.last() == id {
        assert(all[before.len() as int] == d);
    } else {
        let k = choose|k: int| 0 <= k < ids.len() && ids[k] == id;
        assert(init[k] == id);
        dirs_are_listed(packages, init, id, mp, d);
        let j = choose|j: int| 0 <= j < before.len() && before[j] == d;
        assert(all[j] == d);
    }
}

proof fn paths_are_listed(
    disk: DiskView,
    dir: DirPathView,
    deps: Seq<(Seq<char>, ValueView)>,
    i: int,
    rel: Seq<char>,
)
    requires
        0 <= i < deps.len(),
        says(deps[i].1, "path"@, rel),
        disk.kind(path::joined(dir, rel)) == Kind::Dir,
    ensures
        dep_walk::direct_paths(disk, dir, deps).0.contains(path::joined(dir, rel)),
    decreases deps.len(),
{
    let init = deps.drop_last();
    let before = dep_walk::direct_paths(disk, dir, init).0;
    let all = dep_walk::direct_paths(disk, dir, deps).0;
    let d = path::joined(dir, rel);
    if i == deps.len() - 1 {
        text_is_said(deps[i].1, "path"@, rel);
        assert(all[before.len() as int] == d);
    } else {
        assert(init[i] == deps[i]);
        paths_are_listed(disk, dir, init, i, rel);
        let j = choose|j: int| 0 <= j < before.len() && before[j] == d;
        assert(all[j] == d);
    }
}

/// Every path dependency of a crate that is a directory is a direct one.
pub proof fn path_dependencies_are_direct(
    disk: DiskView,
    dir: DirPathView,
    m: DirPathView,
    v: ValueView,
    with_metadata: bool,
    i: int,
    rel: Seq<char>,
)
    requires
        0 <= i < dep_walk::dependencies(v).len(),
        says(dep_walk::dependencies(v)[i].1, "path"@, rel),
        disk.kind(path::joined(dir, rel)) == Kind::Dir,
    ensures
        dep_laws::lists_form(
            disk,
            dep_walk::crate_graph(disk, dir, m, v, with_metadata).0.direct_dirs,
            disk.canonical(path::joined(dir, rel)),
        ),
{
    let deps = dep_walk::dependencies(v);
    let direct = dep_walk::direct_paths(disk, dir, deps).0;
    let d = path::joined(dir, rel);
    paths_are_listed(disk, dir, deps, i, rel);
    let k = choose|k: int| 0 <= k < direct.len() && direct[k] == d;
    assert(disk.canonical(direct[k]) == disk.canonical(d));
    assert(dep_laws::lists_form(disk, direct, disk.canonical(d)));
    if with_metadata {
        if let Ok(meta) = dep_walk::metadata_value(disk, m) {
            merged_lists(
                disk,
                dep_walk::direct_package_dirs(disk, meta, m),
                0,
                dep_walk::canonicals(disk, direct),
                direct,
                disk.canonical(d),
            );
        }
    }
}

/// Every package that cargo says the crate depends on by a normal edge is a direct
/// dependency, in the directory of its manifest.
pub proof fn normal_dependencies_are_direct(
    disk: DiskView,
    dir: DirPathView,
    m: DirPathView,
    v: ValueView,
    meta: ValueView,
    nodes: Seq<ValueView>,
    n: int,
    root: Seq<char>,
    id: Seq<char>,
    mp: Seq<char>,
    d: DirPathView,
)
    requires
        dep_walk::metadata_value(disk, m) == Ok::<ValueView, Seq<char>>(meta),
        dep_walk::root_id(disk, meta, m) == Some(root),
        dep_walk::resolve_nodes(meta) == Some(nodes),
        is_node_of(nodes, n, root),
        depends(nodes[n], id),
        is_manifest_of(dep_walk::packages_of(meta), id, mp),
        path::parent_of(path::of_text(mp)) == Some(d),
    ensures
        dep_laws::lists_form(
            disk,
            dep_walk::crate_graph(disk, dir, m, v, true).0.direct_dirs,
            disk.canonical(d),
        ),
{
    let direct = dep_walk::direct_paths(disk, dir, dep_walk::dependencies(v)).0;
    let more = dep_walk::direct_package_dirs(disk, meta, m);
    let seen = dep_walk::canonicals(disk, direct);
    let form = disk.canonical(d);
    only_node_is_first(nodes, n, root, 0);
    nodes_lead_to_what_they_depend_on(nodes[n], id);
    dirs_are_listed(
        dep_walk::packages_of(meta),
        dep_walk::node_targets(nodes[n]),
        id,
        mp,
        d,
    );
    let i = choose|i: int| 0 <= i < more.len() && more[i] == d;
    assert(disk.canonical(more[i]) == form);
    if seen.contains(form) {
        let k = choose|k: int| 0 <= k < seen.len() && seen[k] == form;
        assert(disk.canonical(direct[k]) == form);
        assert(dep_laws::lists_form(disk, direct, form));
    }
    merged_lists(disk, more, 0, seen, direct, form);
}

proof fn packages_are_listed(
    disk: DiskView,
    meta: ValueView,
    m: DirPathView,
    packages: Seq<ValueView>,
    k: int,
    d: DirPathView,
)
    requires
        0 <= k < packages.len(),
        dep_walk::package_dir(disk, meta, m, packages[k]) == Some(d),
    ensures
        dep_walk::package_dirs(disk, meta, m, packages).contains(d),
    decreases packages.len(),
{
    let init = packages.drop_last();
    let before = dep_walk::package_dirs(disk, meta, m, init);
    let all = dep_walk::package_dirs(disk, meta, m, packages);
    if k == packages.len() - 1 {
        assert(all[before.len() as int] == d);
    } else {
        assert(init[k] == packages[k]);
        packages_are_listed(disk, meta, m, init, k, d);
        let j = choose|j: int| 0 <= j < before.len() && before[j] == d;
        assert(all[j] == d);
    }
}

/// Every package outside the workspace that cargo says is reachable from the crate is
/// listed in the directory of its manifest, unless the walk over paths came there.
pub proof fn reachable_packages_are_listed(
    disk: DiskView,
    dir: DirPathView,
    m: DirPathView,
    v: ValueView,
    meta: ValueView,
    nodes: Seq<ValueView>,
    root: Seq<char>,
    k: int,
    id: Seq<char>,
    mp: Seq<char>,
    d: DirPathView,
)
    requires
        dep_walk::metadata_value(disk, m) == Ok::<ValueView, Seq<char>>(meta),
        dep_walk::root_id(disk, meta, m) == Some(root),
        dep_walk::resolve_nodes(meta) == Some(nodes),
        0 <= k < dep_walk::packages_of(meta).len(),
        says(dep_walk::packages_of(meta)[k], "id"@, id),
        says(dep_walk::packages_of(meta)[k], "manifest_path"@, mp),
        path::parent_of(path::of_text(mp)) == Some(d),
        id != root,
        dep_walk::is_reachable(nodes, root, id),
        !dep_walk::member_ids(meta).contains(id),
        !dep_walk::owns(disk, dep_walk::packages_of(meta)[k], m),
    ensures
        dep_walk::path_walk(disk, m).visited.contains(disk.canonical(d)) || dep_laws::lists_form(
            disk,
            dep_walk::crate_graph(disk, dir, m, v, true).0.transitive_dirs,
            disk.canonical(d),
        ),
{
    let walk = dep_walk::path_walk(disk, m);
    let packages = dep_walk::packages_of(meta);
    let more = dep_walk::package_dirs(disk, meta, m, packages);
    text_is_said(packages[k], "id"@, id);
    text_is_said(packages[k], "manifest_path"@, mp);
    packages_are_listed(disk, meta, m, packages, k, d);
    let i = choose|i: int| 0 <= i < more.len() && more[i] == d;
    assert(disk.canonical(more[i]) == disk.canonical(d));
    if !walk.visited.contains(disk.canonical(d)) {
        merged_lists(disk, more, 0, walk.visited, walk.dirs, disk.canonical(d));
    }
}

// ── Nothing else ─────────────────────────────────────────────────────────

proof fn merged_adds_only(
    disk: DiskView,
    more: Seq<DirPathView>,
    from: int,
    seen: Seq<DirPathView>,
    dirs: Seq<DirPathView>,
    d: DirPathView,
)
    requires
        0 <= from,
        dep_walk::merged(disk, more, from, seen, dirs).contains(d),
    ensures
        dirs.contains(d) || more.contains(d),
    decreases more.len() - from,
{
    if from < more.len() {
        let c = disk.canonical(more[from]);
        if seen.contains(c) {
            merged_adds_only(disk, more, from + 1, seen, dirs, d);
        } else {
            let next = dirs.push(more[from]);
            merged_adds_only(disk, more, from + 1, seen.push(c), next, d);
            if next.contains(d) {
                let k = choose|k: int| 0 <= k < next.len() && next[k] == d;
                if k < dirs.len() {
                    assert(dirs[k] == d);
                } else {
                    assert(more[from] == d);
                }
            }
        }
    }
}

/// Whether a manifest has a dependency with the path `rel`.
pub open spec fn has_path(v: ValueView, rel: Seq<char>) -> bool {
    exists|i: int|
        0 <= i < dep_walk::dependencies(v).len() && says(
            (#[trigger] dep_walk::dependencies(v)[i]).1,
            "path"@,
            rel,
        )
}

proof fn paths_are_had(
    disk: DiskView,
    dir: DirPathView,
    deps: Seq<(Seq<char>, ValueView)>,
    d: DirPathView,
)
    requires
        dep_walk::direct_paths(disk, dir, deps).0.contains(d),
    ensures
        exists|i: int, rel: Seq<char>|
            0 <= i < deps.len() && #[trigger] says(deps[i].1, "path"@, rel) && d == path::joined(
                dir,
                rel,
            ) && disk.kind(d) == Kind::Dir,
    decreases deps.len(),
{
    let init = deps.drop_last();
    let n = deps.len() - 1;
    let before = dep_walk::direct_paths(disk, dir, init).0;
    let all = dep_walk::direct_paths(disk, dir, deps).0;
    let k = choose|k: int| 0 <= k < all.len() && all[k] == d;
    if k < before.len() {
        assert(before[k] == d);
        paths_are_had(disk, dir, init, d);
        let (i, rel) = choose|i: int, rel: Seq<char>|
            0 <= i < init.len() && #[trigger] says(init[i].1, "path"@, rel) && d == path::joined(
                dir,
                rel,
            ) && disk.kind(d) == Kind::Dir;
        assert(deps[i] == init[i]);
        assert(says(deps[i].1, "path"@, rel));
    } else {
        let rel = deps[n].1.text_at("path"@)->Some_0;
        text_is_said(deps[n].1, "path"@, rel);
        assert(says(deps[n].1, "path"@, rel));
    }
}

/// Whether some package that the root depends on by a normal edge lies in `d`.
pub open spec fn is_direct_package(
    nodes: Seq<ValueView>,
    packages: Seq<ValueView>,
    root: Seq<char>,
    d: DirPathView,
) -> bool {
    exists|n: int, id: Seq<char>, k: int, mp: Seq<char>|
        {
            &&& 0 <= n < nodes.len()
            &&& says(nodes[n], "id"@, root)
            &&& #[trigger] depends(nodes[n], id)
            &&& 0 <= k < packages.len()
            &&& says(packages[k], "id"@, id)
            &&& #[trigger] says(packages[k], "manifest_path"@, mp)
            &&& path::parent_of(path::of_text(mp)) == Some(d)
        }
}

proof fn manifest_is_of(packages: Seq<ValueView>, id: Seq<char>)
    ensures
        dep_walk::manifest_of(packages, id) matches Some(mp) ==> exists|k: int|
            0 <= k < packages.len() && says(#[trigger] packages[k], "id"@, id) && says(
                packages[k],
                "manifest_path"@,
                mp,
            ),
    decreases packages.len(),
{
    if packages.len() > 0 {
        let n = packages.len() - 1;
        let init = packages.drop_last();
        manifest_is_of(init, id);
        text_is_said(packages[n], "id"@, id);
        if let Some(mp) = dep_walk::manifest_of(packages, id) {
            text_is_said(packages[n], "manifest_path"@, mp);
            if !(says(packages[n], "id"@, id) && packages[n].text_at("manifest_path"@) is Some) {
                let k = choose|k: int|
                    0 <= k < init.len() && says(#[trigger] init[k], "id"@, id) && says(
                        init[k],
                        "manifest_path"@,
                        mp,
                    );
                assert(packages[k] == init[k]);
            }
        }
    }
}

proof fn dirs_are_of(packages: Seq<ValueView>, ids: Seq<Seq<char>>, d: DirPathView)
    requires
        dep_walk::dirs_of(packages, ids).contains(d),
    ensures
        exists|j: int, mp: Seq<char>|
            0 <= j < ids.len() && dep_walk::manifest_of(packages, ids[j]) == Some(mp)
                && #[trigger] path::parent_of(path::of_text(mp)) == Some(d) && #[trigger] ids[j]
                == ids[j],
    decreases ids.len(),
{
    let init = ids.drop_last();
    let n = ids.len() - 1;
    let before = dep_walk::dirs_of(packages, init);
    let all = dep_walk::dirs_of(packages, ids);
    let k = choose|k: int| 0 <= k < all.len() && all[k] == d;
    if k < before.len() {
        assert(before[k] == d);
        dirs_are_of(packages, init, d);
        let (j, mp) = choose|j: int, mp: Seq<char>|
            0 <= j < init.len() && dep_walk::manifest_of(packages, init[j]) == Some(mp)
                && #[trigger] path::parent_of(path::of_text(mp)) == Some(d) && #[trigger] init[j]
                == init[j];
        assert(ids[j] == init[j]);
    } else {
        let mp = dep_walk::manifest_of(packages, ids[n])->Some_0;
        assert(path::parent_of(path::of_text(mp)) == Some(d));
        assert(ids[n] == ids[n]);
    }
}

proof fn first_is_node(nodes: Seq<ValueView>, id: Seq<char>, from: int)
    requires
        0 <= from <= nodes.len(),
    ensures
        dep_walk::first_node(nodes, id, from) matches Some(node) ==> exists|n: int|
            0 <= n < nodes.len() && #[trigger] nodes[n] == node && says(node, "id"@, id),
    decreases nodes.len() - from,
{
    if from < nodes.len() {
        text_is_said(nodes[from], "id"@, id);
        first_is_node(nodes, id, from + 1);
    }
}

/// A direct dependency is a path dependency of the crate, or a package that cargo says
/// it depends on by a normal edge: nothing else is one.
pub proof fn nothing_else_is_direct(
    disk: DiskView,
    dir: DirPathView,
    m: DirPathView,
    v: ValueView,
    with_metadata: bool,
    d: DirPathView,
)
    requires
        dep_walk::crate_graph(disk, dir, m, v, with_metadata).0.direct_dirs.contains(d),
    ensures
        (exists|rel: Seq<char>| #[trigger]
            has_path(v, rel) && d == path::joined(dir, rel) && disk.kind(d) == Kind::Dir) || (
        with_metadata && (dep_walk::metadata_value(disk, m) matches Ok(meta) && (
        dep_walk::resolve_nodes(meta) matches Some(nodes) && (dep_walk::root_id(
            disk,
            meta,
            m,
        ) matches Some(root) && is_direct_package(nodes, dep_walk::packages_of(meta), root, d))))),
{
    let deps = dep_walk::dependencies(v);
    let direct = dep_walk::direct_paths(disk, dir, deps).0;
    if direct.contains(d) {
        paths_are_had(disk, dir, deps, d);
        let (i, rel) = choose|i: int, rel: Seq<char>|
            0 <= i < deps.len() && #[trigger] says(deps[i].1, "path"@, rel) && d == path::joined(
                dir,
                rel,
            ) && disk.kind(d) == Kind::Dir;
        assert(has_path(v, rel));
    } else {
        let meta = dep_walk::metadata_value(disk, m)->Ok_0;
        let more = dep_walk::direct_package_dirs(disk, meta, m);
        merged_adds_only(disk, more, 0, dep_walk::canonicals(disk, direct), direct, d);
        let root = dep_walk::root_id(disk, meta, m)->Some_0;
        let nodes = dep_walk::resolve_nodes(meta)->Some_0;
        let packages = dep_walk::packages_of(meta);
        first_is_node(nodes, root, 0);
        let node = dep_walk::first_node(nodes, root, 0)->Some_0;
        let n = choose|n: int|
            0 <= n < nodes.len() && #[trigger] nodes[n] == node && says(node, "id"@, root);
        let ids = dep_walk::node_targets(node);
        dirs_are_of(packages, ids, d);
        let (j, mp) = choose|j: int, mp: Seq<char>|
            0 <= j < ids.len() && dep_walk::manifest_of(packages, ids[j]) == Some(mp)
                && #[trigger] path::parent_of(path::of_text(mp)) == Some(d) && #[trigger] ids[j]
                == ids[j];
        nodes_lead_to_what_they_depend_on(node, ids[j]);
        manifest_is_of(packages, ids[j]);
        let k = choose|k: int|
            0 <= k < packages.len() && says(#[trigger] packages[k], "id"@, ids[j]) && says(
                packages[k],
                "manifest_path"@,
                mp,
            );
        assert(depends(nodes[n], ids[j]) && says(packages[k], "manifest_path"@, mp));
    }
}

} // verus!
