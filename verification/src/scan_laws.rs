//! What holds of the walk over source files on every input.
use crate::account_laws;
use crate::cfg;
use crate::dep_laws;
use crate::disk::{ContentsView, DiskView};
use crate::path;
use crate::path::DirPathView;
use crate::scan;
use crate::scan::ScanView;
use crate::source;
use crate::syntax::{AttrFormView, AttributeView, ExprKindView, ItemModView, ItemView};
use vstd::prelude::*;

verus! {

/// Whether a path is among those listed.
spec fn among<A>(listed: Seq<(DirPathView, A)>, p: DirPathView) -> bool {
    exists|i: int| 0 <= i < listed.len() && (#[trigger] listed[i]).0 == p
}

/// Whether what is found is listed.
spec fn finds_listed(disk: DiskView) -> bool {
    forall|p: DirPathView| #[trigger] disk.present(p) ==> among(disk.kinds, p)
}

/// Whether what can be read is listed.
spec fn reads_listed(disk: DiskView) -> bool {
    forall|p: DirPathView| (#[trigger] disk.read(p)) is Text ==> among(disk.files, p)
}

proof fn files_are_listed(disk: DiskView)
    ensures
        finds_listed(disk),
        reads_listed(disk),
{
    assert forall|p: DirPathView| #[trigger] disk.present(p) implies among(disk.kinds, p) by {
        if crate::disk::answer_from(disk.kinds, p, 0) is Some {
            dep_laws::answered_at(disk.kinds, p, 0);
        }
    }
    assert forall|p: DirPathView| (#[trigger] disk.read(p)) is Text implies among(
        disk.files,
        p,
    ) by {
        if crate::disk::answer_from(disk.files, p, 0) is Some {
            dep_laws::answered_at(disk.files, p, 0);
        }
    }
}

proof fn override_is_found(
    disk: DiskView,
    list: Seq<AttributeView>,
    base: DirPathView,
    from: int,
)
    requires
        0 <= from,
    ensures
        scan::path_override(disk, list, base, from) matches Some(p) ==> disk.present(p),
    decreases list.len() - from,
{
    if from < list.len() {
        override_is_found(disk, list, base, from + 1);
    }
}

proof fn module_file_is_found(disk: DiskView, m: ItemModView, base: DirPathView)
    ensures
        scan::module_file(disk, m, base) matches Some(p) ==> disk.present(p),
{
    override_is_found(disk, m.attrs, base, 0);
}

/// What makes a list long enough to bound a walk: it has every file a module
/// leads to, or, with one to spare, every file that can be read.
spec fn bounds<A>(disk: DiskView, listed: Seq<(DirPathView, A)>, spare: nat) -> bool {
    &&& spare == 0 ==> forall|m: ItemModView, b: DirPathView|
        (#[trigger] scan::module_file(disk, m, b)) matches Some(p) ==> among(listed, p)
    &&& spare > 0 ==> forall|p: DirPathView| (#[trigger] disk.read(p)) is Text ==> among(listed, p)
}

spec fn grew(s: ScanView, later: ScanView) -> bool {
    forall|c: DirPathView| #[trigger] s.visited.contains(c) ==> later.visited.contains(c)
}

proof fn file_step<A>(
    disk: DiskView,
    listed: Seq<(DirPathView, A)>,
    spare: nat,
    p: DirPathView,
    s: ScanView,
    a: nat,
    b: nat,
)
    requires
        bounds(disk, listed, spare),
        !s.visited.contains(disk.canonical(p)) ==> a > 0 && b > 0 && (disk.read(p) is Text ==> a - 1
            >= spare + dep_laws::unvisited(disk, listed, s.visited.push(disk.canonical(p))) && b - 1
            >= spare + dep_laws::unvisited(disk, listed, s.visited.push(disk.canonical(p)))),
    ensures
        scan::scan_file(disk, p, s, a) == scan::scan_file(disk, p, s, b),
        scan::file_question(disk, p, s, a) == scan::file_question(disk, p, s, b),
        grew(s, scan::scan_file(disk, p, s, a)),
    decreases a, 0int,
{
    let c = disk.canonical(p);
    if !s.visited.contains(c) {
        let visited = s.visited.push(c);
        assert forall|x: DirPathView| #[trigger] s.visited.contains(x) implies visited.contains(
            x,
        ) by {
            let i = choose|i: int| 0 <= i < s.visited.len() && s.visited[i] == x;
            assert(visited[i] == x);
        }
        if let ContentsView::Text(content) = disk.read(p) {
            let files = s.files.push(p);
            if let Ok(items) = source::source_items(content) {
                items_step(
                    disk,
                    listed,
                    spare,
                    items,
                    0,
                    scan::module_dir(p),
                    ScanView { visited, files, ..s },
                    (a - 1) as nat,
                    (b - 1) as nat,
                );
            }
        }
    }
}

proof fn items_step<A>(
    disk: DiskView,
    listed: Seq<(DirPathView, A)>,
    spare: nat,
    items: Seq<ItemView>,
    from: int,
    base: Option<DirPathView>,
    s: ScanView,
    a: nat,
    b: nat,
)
    requires
        bounds(disk, listed, spare),
        0 <= from,
        a >= spare + dep_laws::unvisited(disk, listed, s.visited),
        b >= spare + dep_laws::unvisited(disk, listed, s.visited),
    ensures
        scan::scan_items(disk, items, from, base, s, a) == scan::scan_items(
            disk,
            items,
            from,
            base,
            s,
            b,
        ),
        scan::items_question(disk, items, from, base, s, a) == scan::items_question(
            disk,
            items,
            from,
            base,
            s,
            b,
        ),
        grew(s, scan::scan_items(disk, items, from, base, s, a)),
    decreases a, 1int, items, items.len() - from,
{
    if from < items.len() {
        if cfg::cfg_excluded(scan::item_attrs(items[from])) {
            items_step(disk, listed, spare, items, from + 1, base, s, a, b);
        } else {
            match items[from] {
                ItemView::Mod(m) => {
                    let after = match m.content {
                        Some(inner) => scan::scan_items(
                            disk,
                            inner,
                            0,
                            match base {
                                Some(d) => Some(path::joined(d, m.name)),
                                None => None,
                            },
                            s,
                            a,
                        ),
                        None => match base {
                            Some(d) => match scan::module_file(disk, m, d) {
                                Some(p) => scan::scan_file(disk, p, s, a),
                                None => s,
                            },
                            None => s,
                        },
                    };
                    match m.content {
                        Some(inner) => {
                            assert(decreases_to!(items => items[from]));
                            assert(decreases_to!(items[from] => inner));
                            items_step(
                                disk,
                                listed,
                                spare,
                                inner,
                                0,
                                match base {
                                    Some(d) => Some(path::joined(d, m.name)),
                                    None => None,
                                },
                                s,
                                a,
                                b,
                            );
                        },
                        None => {
                            if let Some(d) = base {
                                if let Some(p) = scan::module_file(disk, m, d) {
                                    if !s.visited.contains(disk.canonical(p)) && among(listed, p) {
                                        let i = choose|i: int|
                                            0 <= i < listed.len() && (#[trigger] listed[i]).0 == p;
                                        dep_laws::unvisited_drops(disk, listed, s.visited, i);
                                    }
                                    file_step(disk, listed, spare, p, s, a, b);
                                }
                            }
                        },
                    }
                    dep_laws::unvisited_shrinks(disk, listed, s.visited, after.visited);
                    items_step(disk, listed, spare, items, from + 1, base, after, a, b);
                },
                _ => {
                    let next = ScanView { items: s.items.push(items[from]), ..s };
                    items_step(disk, listed, spare, items, from + 1, base, next, a, b);
                },
            }
        }
    }
}

/// Modules of an entry file are followed to their end: allowing a longer chain
/// of module files collects nothing more and asks nothing else. Cycles end, as a
/// file is read once.
pub proof fn entry_scan_is_whole(disk: DiskView, p: DirPathView, depth: nat)
    requires
        disk.files.len() < usize::MAX,
        depth > disk.files.len(),
    ensures
        scan::scan_file(disk, p, scan::no_scan(), depth) == scan::scan_file(
            disk,
            p,
            scan::no_scan(),
            scan::entry_depth(disk),
        ),
        scan::file_question(disk, p, scan::no_scan(), depth) == scan::entry_question(disk, p),
{
    files_are_listed(disk);
    let s = scan::no_scan();
    dep_laws::unvisited_bounded(disk, disk.files, s.visited);
    if disk.read(p) is Text {
        let i = choose|i: int| 0 <= i < disk.files.len() && (#[trigger] disk.files[i]).0 == p;
        dep_laws::unvisited_drops(disk, disk.files, s.visited, i);
    }
    file_step(disk, disk.files, 1, p, s, depth, scan::entry_depth(disk));
}

/// Modules of a dependency crate are followed to their end as well.
pub proof fn crate_scan_is_whole(disk: DiskView, p: DirPathView, s: ScanView, depth: nat)
    requires
        disk.present(p),
        depth >= disk.kinds.len(),
    ensures
        scan::scan_file(disk, p, s, depth) == scan::scan_file(disk, p, s, disk.kinds.len()),
        scan::file_question(disk, p, s, depth) == scan::file_question(
            disk,
            p,
            s,
            disk.kinds.len(),
        ),
{
    files_are_listed(disk);
    assert forall|m: ItemModView, b: DirPathView| match #[trigger] scan::module_file(disk, m, b) {
        Some(q) => among(disk.kinds, q),
        None => true,
    } by {
        module_file_is_found(disk, m, b);
    }
    dep_laws::unvisited_bounded(disk, disk.kinds, s.visited);
    if !s.visited.contains(disk.canonical(p)) {
        let i = choose|i: int| 0 <= i < disk.kinds.len() && (#[trigger] disk.kinds[i]).0 == p;
        dep_laws::unvisited_drops(disk, disk.kinds, s.visited, i);
    }
    file_step(disk, disk.kinds, 0, p, s, depth, disk.kinds.len());
}

// ── Where modules lie ────────────────────────────────────────────────────

/// Whether a text is the name of a file or directory.
pub open spec fn is_name(n: Seq<char>) -> bool {
    n.len() > 0 && n != "."@ && n != ".."@ && forall|i: int| 0 <= i < n.len() ==> n[i] != '/'
}

/// Whether every piece of a path leads somewhere.
pub open spec fn is_tidy(d: DirPathView) -> bool {
    forall|i: int| 0 <= i < d.parts.len() ==> (#[trigger] d.parts[i]).len() > 0 && d.parts[i] != "."@
}

/// The path of `name` in the directory `d`.
pub open spec fn file_in(d: DirPathView, name: Seq<char>) -> DirPathView {
    DirPathView { absolute: d.absolute, parts: d.parts.push(name) }
}

/// Whether the modules of the file at `q` lie in `home`: beside a `lib.rs` or
/// `mod.rs`, and in the directory `f` beside any other file `f.rs`.
pub open spec fn keeps_modules_in(q: DirPathView, home: DirPathView) -> bool {
    ||| exists|d: DirPathView, name: Seq<char>| #[trigger]
        file_in(d, name) == q && is_tidy(d) && (name == "lib.rs"@ || name == "mod.rs"@) && home == d
    ||| exists|d: DirPathView, f: Seq<char>| #[trigger]
        file_in(d, f + ".rs"@) == q && is_tidy(d) && is_name(f) && f + ".rs"@ != "lib.rs"@ && f
            + ".rs"@ != "mod.rs"@ && home == file_in(d, f)
}

/// Whether a module is declared without a body and without a `path` of its own.
pub open spec fn is_plain_mod(m: ItemModView) -> bool {
    &&& m.content is None
    &&& is_name(m.name)
    &&& forall|a: int|
        0 <= a < m.attrs.len() ==> !account_laws::just((#[trigger] m.attrs[a]).path, "path"@)
}

/// Whether a module declared where modules lie in `at` is the file at `p`: `m.rs`
/// if that is there, else `m/mod.rs`.
pub open spec fn is_file_of(
    disk: DiskView,
    m: ItemModView,
    at: DirPathView,
    p: DirPathView,
) -> bool {
    &&& is_plain_mod(m)
    &&& disk.present(p)
    &&& if disk.present(file_in(at, m.name + ".rs"@)) {
        p == file_in(at, m.name + ".rs"@)
    } else {
        p == file_in(file_in(at, m.name), "mod.rs"@)
    }
}

proof fn tidy_names(absolute: bool, parts: Seq<Seq<char>>)
    requires
        forall|i: int| 0 <= i < parts.len() ==> (#[trigger] parts[i]).len() > 0 && parts[i] != "."@,
    ensures
        path::names(absolute, parts) == parts,
        path::trimmed(absolute, parts) == parts,
    decreases parts.len(),
{
    if parts.len() > 0 {
        let init = parts.drop_last();
        assert forall|i: int| 0 <= i < init.len() implies (#[trigger] init[i]).len() > 0 && init[i]
            != "."@ by {
            assert(init[i] == parts[i]);
        }
        tidy_names(absolute, init);
        assert(parts[parts.len() - 1] == parts.last());
        assert(parts =~= init.push(parts.last()));
    }
}

proof fn one_piece(t: Seq<char>, from: int, parts: Seq<Seq<char>>)
    requires
        0 <= from <= t.len(),
        forall|i: int| 0 <= i < t.len() ==> t[i] != '/',
    ensures
        path::parts_from(t, from, t.take(from), parts) == parts.push(t),
    decreases t.len() - from,
{
    if from < t.len() {
        assert(t.take(from).push(t[from]) =~= t.take(from + 1));
        one_piece(t, from + 1, parts);
    } else {
        assert(t.take(from) =~= t);
    }
}

proof fn joined_name(d: DirPathView, n: Seq<char>)
    requires
        is_tidy(d),
        n.len() > 0,
        forall|i: int| 0 <= i < n.len() ==> n[i] != '/',
    ensures
        path::joined(d, n) == file_in(d, n),
{
    one_piece(n, 0, d.parts);
    assert(n.take(0) =~= Seq::empty());
    assert(path::stem(d.parts) =~= d.parts) by {
        if d.parts.len() > 0 {
            assert(d.parts[d.parts.len() - 1].len() > 0);
        }
    }
    assert(d.parts.push(n).len() == 1 ==> d.parts.push(n)[0] == n);
}

proof fn tidy_child(d: DirPathView, n: Seq<char>)
    requires
        is_tidy(d),
        n.len() > 0,
        n != "."@,
    ensures
        is_tidy(file_in(d, n)),
{
}

proof fn file_of_dir(d: DirPathView, n: Seq<char>)
    requires
        is_tidy(d),
        is_name(n),
    ensures
        path::file_name(file_in(d, n)) == Some(n),
        path::parent_of(file_in(d, n)) == Some(d),
{
    let p = file_in(d, n);
    tidy_child(d, n);
    tidy_names(p.absolute, p.parts);
    tidy_names(d.absolute, d.parts);
    assert(p.parts.drop_last() =~= d.parts);
    assert(p.parts.last() == n);
}

proof fn stem_of_source(f: Seq<char>)
    requires
        f.len() > 0,
    ensures
        scan::stem(f + ".rs"@) == f,
{
    reveal_strlit(".rs");
    let n = f + ".rs"@;
    let k = f.len() as int;
    assert(n[k] == '.' && n[k + 1] == 'r' && n[k + 2] == 's');
    assert(scan::last_dot(n, k + 1) == k);
    assert(scan::last_dot(n, k + 2) == k);
    assert(scan::last_dot(n, k + 3) == k);
    assert(n.take(k) =~= f);
}

proof fn source_is_name(f: Seq<char>)
    requires
        f.len() > 0,
        forall|i: int| 0 <= i < f.len() ==> f[i] != '/',
    ensures
        is_name(f + ".rs"@),
        is_name("lib.rs"@),
        is_name("mod.rs"@),
{
    reveal_strlit(".rs");
    reveal_strlit("lib.rs");
    reveal_strlit("mod.rs");
    reveal_strlit(".");
    reveal_strlit("..");
}

/// The modules of a file lie where its name says: beside a `lib.rs` or `mod.rs`,
/// else in the directory that is named as the file is.
pub proof fn modules_lie_where_the_file_says(q: DirPathView, home: DirPathView)
    requires
        keeps_modules_in(q, home),
    ensures
        scan::module_dir(q) == Some(home),
        is_tidy(home),
{
    if exists|d: DirPathView, name: Seq<char>| #[trigger]
        file_in(d, name) == q && is_tidy(d) && (name == "lib.rs"@ || name == "mod.rs"@) && home
            == d {
        let (d, name) = choose|d: DirPathView, name: Seq<char>| #[trigger]
            file_in(d, name) == q && is_tidy(d) && (name == "lib.rs"@ || name == "mod.rs"@) && home
                == d;
        source_is_name(seq!['a']);
        file_of_dir(d, name);
    } else {
        let (d, f) = choose|d: DirPathView, f: Seq<char>| #[trigger]
            file_in(d, f + ".rs"@) == q && is_tidy(d) && is_name(f) && f + ".rs"@ != "lib.rs"@ && f
                + ".rs"@ != "mod.rs"@ && home == file_in(d, f);
        source_is_name(f);
        file_of_dir(d, f + ".rs"@);
        stem_of_source(f);
        joined_name(d, f);
        tidy_child(d, f);
    }
}

proof fn nothing_overrides(
    disk: DiskView,
    list: Seq<AttributeView>,
    base: DirPathView,
    from: int,
)
    requires
        0 <= from,
        forall|a: int|
            0 <= a < list.len() ==> !account_laws::just((#[trigger] list[a]).path, "path"@),
    ensures
        scan::path_override(disk, list, base, from) is None,
    decreases list.len() - from,
{
    if from < list.len() {
        assert(!account_laws::just(list[from].path, "path"@));
        assert(!list[from].path.is("path"@)) by {
            if list[from].path.is("path"@) {
                assert(list[from].path.segments =~= seq!["path"@]);
            }
        }
        nothing_overrides(disk, list, base, from + 1);
    }
}

/// The file of a module is the one of its name where modules lie: `m.rs` if that
/// is there, else `m/mod.rs` if that is, else none.
pub proof fn a_module_is_the_file_of_its_name(disk: DiskView, m: ItemModView, at: DirPathView)
    requires
        is_plain_mod(m),
        is_tidy(at),
    ensures
        forall|p: DirPathView| #[trigger]
            is_file_of(disk, m, at, p) ==> scan::module_file(disk, m, at) == Some(p),
        scan::module_file(disk, m, at) matches Some(p) ==> is_file_of(disk, m, at, p),
{
    nothing_overrides(disk, m.attrs, at, 0);
    source_is_name(m.name);
    joined_name(at, m.name + ".rs"@);
    joined_name(at, m.name);
    tidy_child(at, m.name);
    joined_name(file_in(at, m.name), "mod.rs"@);
}

// ── What is read ─────────────────────────────────────────────────────────

/// Whether an item is left out of a default build by one of its own attributes.
pub open spec fn is_left_out(item: ItemView) -> bool {
    match item {
        ItemView::Fn(f) => leaves_out(f.attrs),
        ItemView::Struct(s) => leaves_out(s.attrs),
        ItemView::Enum(e) => leaves_out(e.attrs),
        ItemView::Type(t) => leaves_out(t.attrs),
        ItemView::Mod(m) => leaves_out(m.attrs),
        ItemView::Other(list) => leaves_out(list),
    }
}

/// Whether one of the attributes leaves an item out of a default build.
pub open spec fn leaves_out(list: Seq<AttributeView>) -> bool {
    exists|i: int| 0 <= i < list.len() && cfg::cfg_excludes(#[trigger] list[i])
}

/// Whether `x` stands among the items from `from` on, or inside a module with a
/// body there, and modules declared beside it lie in `at`. What is left out, and
/// what stands inside it, does not count.
pub open spec fn stands_from(
    items: Seq<ItemView>,
    from: int,
    home: DirPathView,
    x: ItemView,
    at: DirPathView,
) -> bool
    decreases items, items.len() - from,
{
    if from < 0 || from >= items.len() {
        false
    } else {
        ||| !is_left_out(items[from]) && {
            ||| items[from] == x && at == home
            ||| items[from] matches ItemView::Mod(m) && is_name(m.name) && (
            m.content matches Some(inner) && stands_from(inner, 0, file_in(home, m.name), x, at))
        }
        ||| stands_from(items, from + 1, home, x, at)
    }
}

/// The items of the file at `p`; none where it cannot be read.
pub open spec fn items_in(disk: DiskView, p: DirPathView) -> Seq<ItemView> {
    match disk.read(p) {
        ContentsView::Text(content) => match source::source_items(content) {
            Ok(items) => items,
            Err(_) => Seq::empty(),
        },
        ContentsView::Failed(_) => Seq::empty(),
    }
}

/// Whether `x` stands in the file at `p`, where modules lie in `at`.
pub open spec fn stands_in_file(
    disk: DiskView,
    p: DirPathView,
    x: ItemView,
    at: DirPathView,
) -> bool {
    exists|home: DirPathView| #[trigger]
        keeps_modules_in(p, home) && stands_from(items_in(disk, p), 0, home, x, at)
}

/// Whether the file at `q` declares the module that is the file at `p`.
pub open spec fn declares_file(disk: DiskView, q: DirPathView, p: DirPathView) -> bool {
    exists|m: ItemModView, at: DirPathView| #[trigger]
        stands_in_file(disk, q, ItemView::Mod(m), at) && is_file_of(disk, m, at, p)
}

/// Whether `steps` module declarations lead from the file at `start` to that at
/// `p`.
pub open spec fn file_reached_in(
    disk: DiskView,
    start: DirPathView,
    p: DirPathView,
    steps: nat,
) -> bool
    decreases steps,
{
    if steps == 0 {
        p == start
    } else {
        exists|q: DirPathView| #[trigger]
            declares_file(disk, q, p) && file_reached_in(disk, start, q, (steps - 1) as nat)
    }
}

/// Whether a path was found or read.
pub open spec fn is_seen(disk: DiskView, p: DirPathView) -> bool {
    disk.present(p) || disk.read(p) is Text
}

/// Whether no file was seen under two spellings.
pub open spec fn spelled_once(disk: DiskView) -> bool {
    forall|p: DirPathView, q: DirPathView|
        #![trigger disk.canonical(p), disk.canonical(q)]
        is_seen(disk, p) && is_seen(disk, q) && disk.canonical(p) == disk.canonical(q) ==> p == q
}

/// Whether a scan has taken what it came by: an item is collected, a module's file
/// visited.
spec fn taken(disk: DiskView, s: ScanView, x: ItemView, at: DirPathView) -> bool {
    match x {
        ItemView::Mod(m) => forall|p: DirPathView| #[trigger]
            is_file_of(disk, m, at, p) ==> s.visited.contains(disk.canonical(p)),
        _ => s.items.contains(x),
    }
}

/// Whether a scan has taken all that stands among the items from `from` on.
spec fn all_taken(
    disk: DiskView,
    s: ScanView,
    items: Seq<ItemView>,
    from: int,
    home: DirPathView,
) -> bool {
    forall|x: ItemView, at: DirPathView| #[trigger]
        stands_from(items, from, home, x, at) ==> taken(disk, s, x, at)
}

/// Whether a scan has taken all that stands in the file at `p`.
spec fn went_through(disk: DiskView, s: ScanView, p: DirPathView) -> bool {
    forall|home: DirPathView| #[trigger]
        keeps_modules_in(p, home) ==> all_taken(disk, s, items_in(disk, p), 0, home)
}

/// Whether a scan went through a file of the canonical form `c`.
spec fn went_through_form(disk: DiskView, s: ScanView, c: DirPathView) -> bool {
    exists|q: DirPathView|
        is_seen(disk, q) && disk.canonical(q) == c && #[trigger] went_through(disk, s, q)
}

/// What a scan adds on its way.
spec fn advanced(disk: DiskView, s: ScanView, later: ScanView) -> bool {
    &&& grew(s, later)
    &&& forall|x: ItemView| #[trigger] s.items.contains(x) ==> later.items.contains(x)
    &&& forall|c: DirPathView| #[trigger]
        later.visited.contains(c) && !s.visited.contains(c) ==> went_through_form(disk, later, c)
}

proof fn through_stays(disk: DiskView, s: ScanView, later: ScanView, q: DirPathView)
    requires
        grew(s, later),
        forall|x: ItemView| #[trigger] s.items.contains(x) ==> later.items.contains(x),
        went_through(disk, s, q),
    ensures
        went_through(disk, later, q),
{
    assert forall|home: DirPathView| #[trigger] keeps_modules_in(q, home) implies all_taken(
        disk,
        later,
        items_in(disk, q),
        0,
        home,
    ) by {
        all_taken_stays(disk, s, later, items_in(disk, q), 0, home);
    }
}

proof fn all_taken_stays(
    disk: DiskView,
    s: ScanView,
    later: ScanView,
    items: Seq<ItemView>,
    from: int,
    home: DirPathView,
)
    requires
        grew(s, later),
        forall|x: ItemView| #[trigger] s.items.contains(x) ==> later.items.contains(x),
        all_taken(disk, s, items, from, home),
    ensures
        all_taken(disk, later, items, from, home),
{
    assert forall|x: ItemView, at: DirPathView| #[trigger]
        stands_from(items, from, home, x, at) implies taken(disk, later, x, at) by {
        assert(taken(disk, s, x, at));
    }
}

proof fn advanced_on(disk: DiskView, a: ScanView, b: ScanView, c: ScanView)
    requires
        advanced(disk, a, b),
        advanced(disk, b, c),
    ensures
        advanced(disk, a, c),
{
    assert forall|x: DirPathView| #[trigger]
        c.visited.contains(x) && !a.visited.contains(x) implies went_through_form(disk, c, x) by {
        if b.visited.contains(x) {
            assert(went_through_form(disk, b, x));
            let q = choose|q: DirPathView|
                is_seen(disk, q) && disk.canonical(q) == x && #[trigger] went_through(disk, b, q);
            through_stays(disk, b, c, q);
        }
    }
}

proof fn advanced_same(disk: DiskView, s: ScanView)
    ensures
        advanced(disk, s, s),
{
}

proof fn file_advances<A>(
    disk: DiskView,
    listed: Seq<(DirPathView, A)>,
    spare: nat,
    p: DirPathView,
    s: ScanView,
    depth: nat,
)
    requires
        bounds(disk, listed, spare),
        is_seen(disk, p),
        !s.visited.contains(disk.canonical(p)) ==> depth > 0 && (disk.read(p) is Text ==> depth - 1
            >= spare + dep_laws::unvisited(disk, listed, s.visited.push(disk.canonical(p)))),
    ensures
        advanced(disk, s, scan::scan_file(disk, p, s, depth)),
        scan::scan_file(disk, p, s, depth).visited.contains(disk.canonical(p)),
    decreases depth, 0int,
{
    let c = disk.canonical(p);
    if !s.visited.contains(c) {
        let end = scan::scan_file(disk, p, s, depth);
        let visited = s.visited.push(c);
        assert(visited[s.visited.len() as int] == c);
        assert forall|x: DirPathView| #[trigger] s.visited.contains(x) implies visited.contains(
            x,
        ) by {
            let i = choose|i: int| 0 <= i < s.visited.len() && s.visited[i] == x;
            assert(visited[i] == x);
        }
        let entered = match disk.read(p) {
            ContentsView::Text(_) => ScanView { visited, files: s.files.push(p), ..s },
            ContentsView::Failed(_) => ScanView { visited, ..s },
        };
        let items = items_in(disk, p);
        assert(entered.visited.contains(c));
        match disk.read(p) {
            ContentsView::Text(content) => {
                if source::source_items(content) is Ok {
                    items_advance(
                        disk,
                        listed,
                        spare,
                        items,
                        0,
                        scan::module_dir(p),
                        entered,
                        (depth - 1) as nat,
                    );
                } else {
                    advanced_same(disk, entered);
                }
            },
            ContentsView::Failed(_) => {
                advanced_same(disk, entered);
            },
        }
        assert(advanced(disk, entered, end));
        assert(went_through(disk, end, p)) by {
            assert forall|home: DirPathView| #[trigger] keeps_modules_in(
                p,
                home,
            ) implies all_taken(disk, end, items, 0, home) by {
                modules_lie_where_the_file_says(p, home);
            }
        }
        assert forall|x: DirPathView| #[trigger]
            end.visited.contains(x) && !s.visited.contains(x) implies went_through_form(
            disk,
            end,
            x,
        ) by {
            if x == c {
                assert(went_through(disk, end, p));
            } else {
                assert(!entered.visited.contains(x)) by {
                    if entered.visited.contains(x) {
                        let i = choose|i: int| 0 <= i < visited.len() && visited[i] == x;
                        if i < s.visited.len() {
                            assert(s.visited[i] == x);
                        }
                    }
                }
            }
        }
    } else {
        advanced_same(disk, s);
    }
}

proof fn items_advance<A>(
    disk: DiskView,
    listed: Seq<(DirPathView, A)>,
    spare: nat,
    items: Seq<ItemView>,
    from: int,
    base: Option<DirPathView>,
    s: ScanView,
    depth: nat,
)
    requires
        bounds(disk, listed, spare),
        0 <= from,
        depth >= spare + dep_laws::unvisited(disk, listed, s.visited),
    ensures
        advanced(disk, s, scan::scan_items(disk, items, from, base, s, depth)),
        base matches Some(home) ==> (is_tidy(home) ==> all_taken(
            disk,
            scan::scan_items(disk, items, from, base, s, depth),
            items,
            from,
            home,
        )),
    decreases depth, 1int, items, items.len() - from,
{
    let end = scan::scan_items(disk, items, from, base, s, depth);
    if from < items.len() {
        let first = items[from];
        assert(cfg::cfg_excluded(scan::item_attrs(first)) == is_left_out(first));
        if is_left_out(first) {
            items_advance(disk, listed, spare, items, from + 1, base, s, depth);
            if let Some(home) = base {
                if is_tidy(home) {
                    item_taken(disk, items, from, home, end);
                }
            }
        } else {
            match first {
                ItemView::Mod(m) => {
                    let inner_base = match base {
                        Some(d) => Some(path::joined(d, m.name)),
                        None => None,
                    };
                    let after = match m.content {
                        Some(inner) => scan::scan_items(disk, inner, 0, inner_base, s, depth),
                        None => match base {
                            Some(d) => match scan::module_file(disk, m, d) {
                                Some(p) => scan::scan_file(disk, p, s, depth),
                                None => s,
                            },
                            None => s,
                        },
                    };
                    match m.content {
                        Some(inner) => {
                            assert(decreases_to!(items => items[from]));
                            assert(decreases_to!(items[from] => inner));
                            items_advance(
                                disk,
                                listed,
                                spare,
                                inner,
                                0,
                                inner_base,
                                s,
                                depth,
                            );
                        },
                        None => {
                            advanced_same(disk, s);
                            if let Some(d) = base {
                                if let Some(p) = scan::module_file(disk, m, d) {
                                    module_file_is_found(disk, m, d);
                                    if !s.visited.contains(disk.canonical(p)) && among(listed, p) {
                                        let i = choose|i: int|
                                            0 <= i < listed.len() && (#[trigger] listed[i]).0 == p;
                                        dep_laws::unvisited_drops(disk, listed, s.visited, i);
                                    }
                                    file_advances(disk, listed, spare, p, s, depth);
                                }
                            }
                        },
                    }
                    assert(advanced(disk, s, after));
                    dep_laws::unvisited_shrinks(disk, listed, s.visited, after.visited);
                    items_advance(disk, listed, spare, items, from + 1, base, after, depth);
                    advanced_on(disk, s, after, end);
                    if let Some(home) = base {
                        if is_tidy(home) {
                            module_taken(disk, items, from, m, home, after, end);
                        }
                    }
                },
                _ => {
                    let next = ScanView { items: s.items.push(first), ..s };
                    assert(next.items[s.items.len() as int] == first);
                    assert(next.items.contains(first));
                    assert forall|x: ItemView| #[trigger] s.items.contains(
                        x,
                    ) implies next.items.contains(x) by {
                        let i = choose|i: int| 0 <= i < s.items.len() && s.items[i] == x;
                        assert(next.items[i] == x);
                    }
                    assert(advanced(disk, s, next));
                    items_advance(disk, listed, spare, items, from + 1, base, next, depth);
                    advanced_on(disk, s, next, end);
                    assert(end.items.contains(first));
                    if let Some(home) = base {
                        if is_tidy(home) {
                            item_taken(disk, items, from, home, end);
                        }
                    }
                },
            }
        }
    } else {
        advanced_same(disk, s);
        if let Some(home) = base {
            assert forall|x: ItemView, at: DirPathView| #[trigger]
                stands_from(items, from, home, x, at) implies taken(disk, end, x, at) by {}
        }
    }
}

/// What stands from an item on is taken, if the item and what follows it is.
proof fn item_taken(
    disk: DiskView,
    items: Seq<ItemView>,
    from: int,
    home: DirPathView,
    end: ScanView,
)
    requires
        0 <= from < items.len(),
        is_left_out(items[from]) || (!(items[from] is Mod) && end.items.contains(items[from])),
        all_taken(disk, end, items, from + 1, home),
    ensures
        all_taken(disk, end, items, from, home),
{
    assert forall|x: ItemView, at: DirPathView| #[trigger]
        stands_from(items, from, home, x, at) implies taken(disk, end, x, at) by {
        if stands_from(items, from + 1, home, x, at) {
        } else {
            assert(items[from] == x);
        }
    }
}

/// What stands from a module on is taken, if the module and what follows it is.
proof fn module_taken(
    disk: DiskView,
    items: Seq<ItemView>,
    from: int,
    m: ItemModView,
    home: DirPathView,
    after: ScanView,
    end: ScanView,
)
    requires
        0 <= from < items.len(),
        items[from] == ItemView::Mod(m),
        is_tidy(home),
        advanced(disk, after, end),
        all_taken(disk, end, items, from + 1, home),
        m.content matches Some(inner) ==> (is_tidy(path::joined(home, m.name)) ==> all_taken(
            disk,
            after,
            inner,
            0,
            path::joined(home, m.name),
        )),
        m.content is None ==> (scan::module_file(disk, m, home) matches Some(p)
            ==> after.visited.contains(disk.canonical(p))),
    ensures
        all_taken(disk, end, items, from, home),
{
    assert forall|x: ItemView, at: DirPathView| #[trigger]
        stands_from(items, from, home, x, at) implies taken(disk, end, x, at) by {
        if !stands_from(items, from + 1, home, x, at) {
            if items[from] == x && at == home {
                assert forall|p: DirPathView| #[trigger]
                    is_file_of(disk, m, at, p) implies end.visited.contains(disk.canonical(p)) by {
                    a_module_is_the_file_of_its_name(disk, m, at);
                    assert(scan::module_file(disk, m, at) == Some(p));
                    assert(after.visited.contains(disk.canonical(p)));
                }
            } else {
                let inner = m.content->Some_0;
                joined_name(home, m.name);
                tidy_child(home, m.name);
                all_taken_stays(disk, after, end, inner, 0, file_in(home, m.name));
                assert(stands_from(inner, 0, file_in(home, m.name), x, at));
            }
        }
    }
}

/// Whether a scan went through all it visited.
spec fn is_whole(disk: DiskView, s: ScanView) -> bool {
    forall|c: DirPathView| #[trigger] s.visited.contains(c) ==> went_through_form(disk, s, c)
}

proof fn whole_after(disk: DiskView, s: ScanView, later: ScanView)
    requires
        is_whole(disk, s),
        advanced(disk, s, later),
    ensures
        is_whole(disk, later),
{
    assert forall|c: DirPathView| #[trigger] later.visited.contains(c) implies went_through_form(
        disk,
        later,
        c,
    ) by {
        if s.visited.contains(c) {
            let q = choose|q: DirPathView|
                is_seen(disk, q) && disk.canonical(q) == c && #[trigger] went_through(disk, s, q);
            through_stays(disk, s, later, q);
        }
    }
}

proof fn reached_is_visited(
    disk: DiskView,
    s: ScanView,
    start: DirPathView,
    p: DirPathView,
    steps: nat,
)
    requires
        spelled_once(disk),
        is_whole(disk, s),
        is_seen(disk, start),
        s.visited.contains(disk.canonical(start)),
        file_reached_in(disk, start, p, steps),
    ensures
        is_seen(disk, p),
        s.visited.contains(disk.canonical(p)),
        went_through(disk, s, p),
    decreases steps,
{
    if steps > 0 {
        let q = choose|q: DirPathView| #[trigger]
            declares_file(disk, q, p) && file_reached_in(disk, start, q, (steps - 1) as nat);
        reached_is_visited(disk, s, start, q, (steps - 1) as nat);
        let (m, at) = choose|m: ItemModView, at: DirPathView| #[trigger]
            stands_in_file(disk, q, ItemView::Mod(m), at) && is_file_of(disk, m, at, p);
        let home = choose|home: DirPathView| #[trigger]
            keeps_modules_in(q, home) && stands_from(
                items_in(disk, q),
                0,
                home,
                ItemView::Mod(m),
                at,
            );
        assert(all_taken(disk, s, items_in(disk, q), 0, home));
        assert(taken(disk, s, ItemView::Mod(m), at));
    }
    assert(went_through_form(disk, s, disk.canonical(p)));
    let r = choose|r: DirPathView|
        is_seen(disk, r) && disk.canonical(r) == disk.canonical(p) && #[trigger] went_through(
            disk,
            s,
            r,
        );
    assert(r == p);
}

proof fn reached_is_taken(
    disk: DiskView,
    s: ScanView,
    start: DirPathView,
    p: DirPathView,
    steps: nat,
    x: ItemView,
    at: DirPathView,
)
    requires
        spelled_once(disk),
        is_whole(disk, s),
        is_seen(disk, start),
        s.visited.contains(disk.canonical(start)),
        file_reached_in(disk, start, p, steps),
        stands_in_file(disk, p, x, at),
        !(x is Mod),
    ensures
        s.items.contains(x),
{
    reached_is_visited(disk, s, start, p, steps);
    let home = choose|home: DirPathView| #[trigger]
        keeps_modules_in(p, home) && stands_from(items_in(disk, p), 0, home, x, at);
    assert(all_taken(disk, s, items_in(disk, p), 0, home));
    assert(taken(disk, s, x, at));
}

/// Every item of a program's sources is collected: whatever stands in a file that
/// module declarations lead to from the entry file, and is not left out.
pub proof fn modules_of_an_entry_file_are_read(
    disk: DiskView,
    start: DirPathView,
    p: DirPathView,
    steps: nat,
    x: ItemView,
    at: DirPathView,
)
    requires
        disk.files.len() < usize::MAX,
        spelled_once(disk),
        disk.read(start) is Text,
        file_reached_in(disk, start, p, steps),
        stands_in_file(disk, p, x, at),
        !(x is Mod),
    ensures
        scan::scan_file(disk, start, scan::no_scan(), scan::entry_depth(disk)).items.contains(x),
{
    files_are_listed(disk);
    let s = scan::no_scan();
    dep_laws::unvisited_bounded(disk, disk.files, s.visited);
    let i = choose|i: int| 0 <= i < disk.files.len() && (#[trigger] disk.files[i]).0 == start;
    dep_laws::unvisited_drops(disk, disk.files, s.visited, i);
    file_advances(disk, disk.files, 1, start, s, scan::entry_depth(disk));
    let end = scan::scan_file(disk, start, s, scan::entry_depth(disk));
    whole_after(disk, s, end);
    reached_is_taken(disk, end, start, p, steps, x, at);
}

proof fn crate_advances(disk: DiskView, dir: DirPathView, s: ScanView)
    ensures
        advanced(disk, s, scan::scan_crate(disk, dir, s)),
        ({
            let lib = path::joined(path::joined(dir, "src"@), "lib.rs"@);
            disk.present(lib) ==> scan::scan_crate(disk, dir, s).visited.contains(
                disk.canonical(lib),
            )
        }),
{
    let lib = path::joined(path::joined(dir, "src"@), "lib.rs"@);
    advanced_same(disk, s);
    if disk.present(lib) {
        files_are_listed(disk);
        assert forall|m: ItemModView, b: DirPathView| match #[trigger] scan::module_file(
            disk,
            m,
            b,
        ) {
            Some(q) => among(disk.kinds, q),
            None => true,
        } by {
            module_file_is_found(disk, m, b);
        }
        dep_laws::unvisited_bounded(disk, disk.kinds, s.visited);
        if !s.visited.contains(disk.canonical(lib)) {
            let i = choose|i: int| 0 <= i < disk.kinds.len() && (#[trigger] disk.kinds[i]).0 == lib;
            dep_laws::unvisited_drops(disk, disk.kinds, s.visited, i);
        }
        file_advances(disk, disk.kinds, 0, lib, s, disk.kinds.len());
    }
}

proof fn crates_advance(disk: DiskView, dirs: Seq<DirPathView>, from: int, s: ScanView, k: int)
    requires
        0 <= from <= dirs.len(),
        is_whole(disk, s),
        0 <= k < dirs.len(),
        k < from ==> ({
            let lib = path::joined(path::joined(dirs[k], "src"@), "lib.rs"@);
            disk.present(lib) ==> s.visited.contains(disk.canonical(lib))
        }),
    ensures
        is_whole(disk, scan::scan_crates(disk, dirs, from, s)),
        ({
            let lib = path::joined(path::joined(dirs[k], "src"@), "lib.rs"@);
            disk.present(lib) ==> scan::scan_crates(disk, dirs, from, s).visited.contains(
                disk.canonical(lib),
            )
        }),
    decreases dirs.len() - from,
{
    if from < dirs.len() {
        crate_advances(disk, dirs[from], s);
        let after = scan::scan_crate(disk, dirs[from], s);
        whole_after(disk, s, after);
        crates_advance(disk, dirs, from + 1, after, k);
    }
}

/// Every item of a dependency's sources is collected: whatever stands in a file
/// that module declarations lead to from its `src/lib.rs`, and is not left out.
pub proof fn modules_of_a_crate_are_read(
    disk: DiskView,
    dirs: Seq<DirPathView>,
    k: int,
    p: DirPathView,
    steps: nat,
    x: ItemView,
    at: DirPathView,
)
    requires
        0 <= k < dirs.len(),
        is_tidy(dirs[k]),
        spelled_once(disk),
        disk.present(file_in(file_in(dirs[k], "src"@), "lib.rs"@)),
        file_reached_in(disk, file_in(file_in(dirs[k], "src"@), "lib.rs"@), p, steps),
        stands_in_file(disk, p, x, at),
        !(x is Mod),
    ensures
        scan::scan_crates(disk, dirs, 0, scan::no_scan()).items.contains(x),
{
    let s = scan::no_scan();
    let dir = dirs[k];
    let lib = file_in(file_in(dir, "src"@), "lib.rs"@);
    reveal_strlit("src");
    reveal_strlit(".");
    source_is_name(seq!['a']);
    assert("src"@.len() == 3 && "."@.len() == 1);
    joined_name(dir, "src"@);
    tidy_child(dir, "src"@);
    joined_name(file_in(dir, "src"@), "lib.rs"@);
    crates_advance(disk, dirs, 0, s, k);
    reached_is_taken(
        disk,
        scan::scan_crates(disk, dirs, 0, s),
        lib,
        p,
        steps,
        x,
        at,
    );
}

// ── What is collected ────────────────────────────────────────────────────

/// Whether an item is one of `items` or stands in an inline module among them, at any
/// depth.
pub open spec fn is_within(items: Seq<ItemView>, x: ItemView) -> bool
    decreases items,
{
    exists|i: int|
        0 <= i < items.len() && (#[trigger] items[i] == x || (items[i] matches ItemView::Mod(m) && (
        m.content matches Some(inner) && is_within(inner, x))))
}

/// Whether an item was collected from a file: it is no module, a default build does
/// not leave it out, and it stands in one of the files.
pub open spec fn is_collected_from(
    disk: DiskView,
    files: Seq<DirPathView>,
    x: ItemView,
) -> bool {
    !(x is Mod) && !is_left_out(x) && exists|k: int|
        0 <= k < files.len() && is_within(items_in(disk, #[trigger] files[k]), x)
}

/// Whether a scan goes on from another: its files are the other's and more, and each
/// item that it adds was collected from one of them.
spec fn goes_on(disk: DiskView, s: ScanView, end: ScanView) -> bool {
    &&& s.files.len() <= end.files.len()
    &&& forall|k: int| 0 <= k < s.files.len() ==> #[trigger] end.files[k] == s.files[k]
    &&& s.items.len() <= end.items.len()
    &&& forall|i: int| 0 <= i < s.items.len() ==> #[trigger] end.items[i] == s.items[i]
    &&& forall|i: int|
        s.items.len() <= i < end.items.len() ==> is_collected_from(
            disk,
            end.files,
            #[trigger] end.items[i],
        )
}

proof fn collected_stays(
    disk: DiskView,
    files: Seq<DirPathView>,
    more: Seq<DirPathView>,
    x: ItemView,
)
    requires
        is_collected_from(disk, files, x),
        files.len() <= more.len(),
        forall|k: int| 0 <= k < files.len() ==> #[trigger] more[k] == files[k],
    ensures
        is_collected_from(disk, more, x),
{
    let k = choose|k: int|
        0 <= k < files.len() && is_within(items_in(disk, #[trigger] files[k]), x);
    assert(more[k] == files[k]);
}

proof fn goes_further(disk: DiskView, a: ScanView, b: ScanView, c: ScanView)
    requires
        goes_on(disk, a, b),
        goes_on(disk, b, c),
    ensures
        goes_on(disk, a, c),
{
    assert forall|i: int| a.items.len() <= i < c.items.len() implies is_collected_from(
        disk,
        c.files,
        #[trigger] c.items[i],
    ) by {
        if i < b.items.len() {
            assert(c.items[i] == b.items[i]);
            collected_stays(disk, b.files, c.files, b.items[i]);
        }
    }
    assert forall|k: int| 0 <= k < a.files.len() implies #[trigger] c.files[k] == a.files[k] by {
        assert(b.files[k] == a.files[k]);
    }
    assert forall|i: int| 0 <= i < a.items.len() implies #[trigger] c.items[i] == a.items[i] by {
        assert(b.items[i] == a.items[i]);
    }
}

proof fn leaving_out_is_excluding(item: ItemView)
    ensures
        is_left_out(item) == cfg::cfg_excluded(scan::item_attrs(item)),
{
}

proof fn file_goes_on(disk: DiskView, p: DirPathView, s: ScanView, depth: nat)
    ensures
        goes_on(disk, s, scan::scan_file(disk, p, s, depth)),
    decreases depth, 0int,
{
    let canonical = disk.canonical(p);
    if depth > 0 && !s.visited.contains(canonical) {
        let visited = s.visited.push(canonical);
        if let ContentsView::Text(content) = disk.read(p) {
            let files = s.files.push(p);
            if let Ok(items) = source::source_items(content) {
                let start = ScanView { visited, files, ..s };
                assert(files[s.files.len() as int] == p);
                assert(items_in(disk, p) == items);
                items_go_on(
                    disk,
                    items,
                    0,
                    scan::module_dir(p),
                    start,
                    (depth - 1) as nat,
                    s.files.len() as int,
                );
                goes_further(
                    disk,
                    s,
                    start,
                    scan::scan_file(disk, p, s, depth),
                );
            }
        }
    }
}

proof fn items_go_on(
    disk: DiskView,
    items: Seq<ItemView>,
    from: int,
    base: Option<DirPathView>,
    s: ScanView,
    depth: nat,
    at: int,
)
    requires
        0 <= from <= items.len(),
        0 <= at < s.files.len(),
        forall|x: ItemView| #[trigger]
            is_within(items, x) ==> is_within(items_in(disk, s.files[at]), x),
    ensures
        goes_on(disk, s, scan::scan_items(disk, items, from, base, s, depth)),
    decreases depth, 1int, items, items.len() - from,
{
    if from < items.len() {
        let item = items[from];
        leaving_out_is_excluding(item);
        let end = scan::scan_items(disk, items, from, base, s, depth);
        if cfg::cfg_excluded(scan::item_attrs(item)) {
            items_go_on(disk, items, from + 1, base, s, depth, at);
        } else {
            match item {
                ItemView::Mod(m) => {
                    let after = match m.content {
                        Some(inner) => scan::scan_items(
                            disk,
                            inner,
                            0,
                            match base {
                                Some(b) => Some(path::joined(b, m.name)),
                                None => None,
                            },
                            s,
                            depth,
                        ),
                        None => match base {
                            Some(b) => match scan::module_file(disk, m, b) {
                                Some(p) => scan::scan_file(disk, p, s, depth),
                                None => s,
                            },
                            None => s,
                        },
                    };
                    match m.content {
                        Some(inner) => {
                            assert(decreases_to!(items => items[from]));
                            assert forall|x: ItemView| #[trigger] is_within(
                                inner,
                                x,
                            ) implies is_within(items_in(disk, s.files[at]), x) by {
                                assert(items[from] == item);
                                assert(is_within(items, x));
                            }
                            items_go_on(
                                disk,
                                inner,
                                0,
                                match base {
                                    Some(b) => Some(path::joined(b, m.name)),
                                    None => None,
                                },
                                s,
                                depth,
                                at,
                            );
                        },
                        None => {
                            if let Some(b) = base {
                                if let Some(p) = scan::module_file(disk, m, b) {
                                    file_goes_on(disk, p, s, depth);
                                }
                            }
                        },
                    }
                    assert(goes_on(disk, s, after));
                    assert(after.files[at] == s.files[at]);
                    items_go_on(disk, items, from + 1, base, after, depth, at);
                    goes_further(disk, s, after, end);
                },
                other => {
                    let next = ScanView { items: s.items.push(other), ..s };
                    assert(items[from] == other);
                    assert(is_within(items, other));
                    assert(is_within(items_in(disk, next.files[at]), other));
                    assert(is_collected_from(disk, next.files, other));
                    items_go_on(disk, items, from + 1, base, next, depth, at);
                    goes_further(disk, s, next, end);
                },
            }
        }
    }
}

/// Nothing is collected but what the files hold: each item of a file's scan stands in
/// one of the files read, is no module, and is in a default build.
pub proof fn only_items_of_a_default_build_are_collected(
    disk: DiskView,
    p: DirPathView,
    depth: nat,
)
    ensures
        forall|i: int|
            0 <= i < scan::scan_file(disk, p, scan::no_scan(), depth).items.len()
                ==> is_collected_from(
                disk,
                scan::scan_file(disk, p, scan::no_scan(), depth).files,
                #[trigger] scan::scan_file(disk, p, scan::no_scan(), depth).items[i],
            ),
{
    file_goes_on(disk, p, scan::no_scan(), depth);
}

proof fn crates_go_on(disk: DiskView, dirs: Seq<DirPathView>, from: int, s: ScanView)
    requires
        0 <= from <= dirs.len(),
    ensures
        goes_on(disk, s, scan::scan_crates(disk, dirs, from, s)),
    decreases dirs.len() - from,
{
    if from < dirs.len() {
        let lib = path::joined(path::joined(dirs[from], "src"@), "lib.rs"@);
        let next = scan::scan_crate(disk, dirs[from], s);
        file_goes_on(disk, lib, s, disk.kinds.len());
        crates_go_on(disk, dirs, from + 1, next);
        goes_further(disk, s, next, scan::scan_crates(disk, dirs, from, s));
    }
}

/// The same holds of the items of crates.
pub proof fn only_items_of_a_default_build_are_collected_from_crates(
    disk: DiskView,
    dirs: Seq<DirPathView>,
)
    ensures
        forall|i: int|
            0 <= i < scan::scan_crates(disk, dirs, 0, scan::no_scan()).items.len()
                ==> is_collected_from(
                disk,
                scan::scan_crates(disk, dirs, 0, scan::no_scan()).files,
                #[trigger] scan::scan_crates(disk, dirs, 0, scan::no_scan()).items[i],
            ),
{
    crates_go_on(disk, dirs, 0, scan::no_scan());
}

// ── Paths that are given ─────────────────────────────────────────────────

/// Whether attribute `a` gives the path `rel`.
pub open spec fn gives_path(list: Seq<AttributeView>, a: int, rel: Seq<char>) -> bool {
    0 <= a < list.len() && account_laws::just(list[a].path, "path"@) && (
    list[a].form matches AttrFormView::Value(v) && v.kind == ExprKindView::Str(rel))
}

proof fn given_path_is_taken(
    disk: DiskView,
    list: Seq<AttributeView>,
    base: DirPathView,
    from: int,
    a: int,
    rel: Seq<char>,
)
    requires
        0 <= from <= a,
        gives_path(list, a, rel),
        disk.present(path::joined(base, rel)),
        forall|b: int, other: Seq<char>|
            b < a && #[trigger] gives_path(list, b, other) ==> !disk.present(
                path::joined(base, other),
            ),
    ensures
        scan::path_override(disk, list, base, from) == Some(path::joined(base, rel)),
    decreases a - from,
{
    account_laws::paths_are_just(list[from].path, "path"@);
    if from < a {
        if list[from].path.is("path"@) && list[from].form is Value
            && list[from].form->Value_0.kind is Str {
            assert(gives_path(list, from, list[from].form->Value_0.kind->Str_0));
        }
        given_path_is_taken(disk, list, base, from + 1, a, rel);
    }
}

/// A module lies where its attribute says: the first path given that is present beats
/// the files of its name.
pub proof fn a_given_path_beats_the_name(
    disk: DiskView,
    m: ItemModView,
    base: DirPathView,
    a: int,
    rel: Seq<char>,
)
    requires
        gives_path(m.attrs, a, rel),
        disk.present(path::joined(base, rel)),
        forall|b: int, other: Seq<char>|
            b < a && #[trigger] gives_path(m.attrs, b, other) ==> !disk.present(
                path::joined(base, other),
            ),
    ensures
        scan::module_file(disk, m, base) == Some(path::joined(base, rel)),
{
    given_path_is_taken(disk, m.attrs, base, 0, a, rel);
}

} // verus!
