//! Collecting the items of crates, following `mod` declarations to their files.
use crate::cfg;
use crate::cfg::is_cfg_excluded;
use crate::disk;
use crate::disk::{Contents, ContentsView, Disk, DiskView, Query, QueryView};
use crate::model::{none, put, Dup};
use crate::path;
use crate::path::{DirPath, DirPathView};
use crate::source;
use crate::source::parse_source;
use crate::syntax;
use crate::syntax::{
    AttrForm, Attribute, AttributeView, ExprKind, Item, ItemMod, ItemModView, ItemView,
};
use crate::text::same;
use vstd::prelude::*;

verus! {

// ── File names ───────────────────────────────────────────────────────────

/// The position of the last `.` before position `upto`; 0 where there is none.
pub open spec fn last_dot(name: Seq<char>, upto: int) -> int
    decreases upto,
{
    if upto <= 0 || upto > name.len() {
        0
    } else if name[upto - 1] == '.' {
        upto - 1
    } else {
        last_dot(name, upto - 1)
    }
}

/// A file name without its extension. A name whose only dot comes first has
/// none.
pub open spec fn stem(name: Seq<char>) -> Seq<char> {
    let k = last_dot(name, name.len() as int);
    if k > 0 {
        name.take(k)
    } else {
        name
    }
}

/// The directory the sub-module files of a source file live in: that of the
/// file for `lib.rs` and `mod.rs`, one named after the file otherwise.
pub open spec fn module_dir(p: DirPathView) -> Option<DirPathView> {
    let name = match path::file_name(p) {
        Some(n) => n,
        None => Seq::empty(),
    };
    match path::parent_of(p) {
        None => None,
        Some(dir) => if name == "lib.rs"@ || name == "mod.rs"@ {
            Some(dir)
        } else {
            Some(path::joined(dir, stem(name)))
        },
    }
}

fn file_stem(name: &str) -> (r: String)
    ensures
        r@ == stem(name@),
{
    let n: usize = name.unicode_len();
    let mut i: usize = n;
    while i > 0
        invariant
            i <= n,
            n == name@.len(),
            last_dot(name@, n as int) == last_dot(name@, i as int),
        decreases i,
    {
        if name.get_char(i - 1) == '.' {
            if i - 1 > 0 {
                assert(name@.subrange(0, i - 1) =~= name@.take(i - 1));
                return name.substring_char(0, i - 1).to_owned();
            }
            return name.to_owned();
        }
        i -= 1;
    }
    name.to_owned()
}

fn sub_module_dir(p: &DirPath) -> (r: Option<DirPath>)
    ensures
        r.deep_view() == module_dir(p.deep_view()),
{
    let name = match p.name() {
        Some(n) => n,
        None => String::new(),
    };
    match p.parent() {
        None => None,
        Some(dir) => if same(name.as_str(), "lib.rs") || same(name.as_str(), "mod.rs") {
            Some(dir)
        } else {
            Some(dir.join(file_stem(name.as_str()).as_str()))
        },
    }
}

// ── Module files ─────────────────────────────────────────────────────────

/// The file a `#[path = "..."]` attribute from `from` on names, where one of
/// them exists.
pub open spec fn path_override(
    disk: DiskView,
    attrs: Seq<AttributeView>,
    base: DirPathView,
    from: int,
) -> Option<DirPathView>
    decreases attrs.len() - from,
{
    if from < 0 || from >= attrs.len() {
        None
    } else if attrs[from].path.is("path"@) && attrs[from].form is Value
        && attrs[from].form->Value_0.kind is Str {
        let p = path::joined(base, attrs[from].form->Value_0.kind->Str_0);
        if disk.present(p) {
            Some(p)
        } else {
            path_override(disk, attrs, base, from + 1)
        }
    } else {
        path_override(disk, attrs, base, from + 1)
    }
}

/// The file of a `mod name;` declaration in `base`: the one its `#[path]`
/// names, else `name.rs`, else `name/mod.rs`; none if none of them exists.
pub open spec fn module_file(disk: DiskView, m: ItemModView, base: DirPathView) -> Option<
    DirPathView,
> {
    match path_override(disk, m.attrs, base, 0) {
        Some(p) => Some(p),
        None => {
            let flat = path::joined(base, m.name + ".rs"@);
            let nested = path::joined(path::joined(base, m.name), "mod.rs"@);
            if disk.present(flat) {
                Some(flat)
            } else if disk.present(nested) {
                Some(nested)
            } else {
                None
            }
        },
    }
}

fn find_path_override(disk: &Disk, attrs: &Vec<Attribute>, base: &DirPath) -> (r: Result<
    Option<DirPath>,
    Query,
>)
    ensures
        disk::asks(
            r,
            override_question(disk.deep_view(), attrs.deep_view(), base.deep_view(), 0),
        ),
        match r {
            Ok(p) => p.deep_view() == path_override(
                disk.deep_view(),
                attrs.deep_view(),
                base.deep_view(),
                0,
            ),
            Err(q) => disk.deep_view().lacks(q.deep_view()),
        },
{
    let ghost d = disk.deep_view();
    let ghost all = attrs.deep_view();
    let ghost b = base.deep_view();
    let mut i: usize = 0;
    while i < attrs.len()
        invariant
            i <= attrs.len(),
            d == disk.deep_view(),
            all == attrs.deep_view(),
            b == base.deep_view(),
            path_override(d, all, b, 0) == path_override(d, all, b, i as int),
            override_question(d, all, b, 0) == override_question(d, all, b, i as int),
        decreases attrs.len() - i,
    {
        let a = &attrs[i];
        assert(all[i as int] == a.deep_view());
        if a.path.is("path") {
            if let AttrForm::Value(e) = &a.form {
                if let ExprKind::Str(s) = &e.kind {
                    let p = base.join(s.as_str());
                    match disk.present(&p) {
                        Ok(true) => {
                            return Ok(Some(p));
                        },
                        Ok(false) => {},
                        Err(q) => {
                            return Err(q);
                        },
                    }
                }
            }
        }
        i += 1;
    }
    Ok(None)
}

/// Resolve the on-disk path for an external `mod` declaration.
///
/// Resolution order:
/// 1. `#[path = "..."]` attribute on the mod item — resolved relative to `base_dir`.
/// 2. `<base_dir>/<mod_name>.rs`
/// 3. `<base_dir>/<mod_name>/mod.rs`
///
/// Returns `None` if no candidate file exists.
pub fn mod_file_path(disk: &Disk, m: &ItemMod, base_dir: &DirPath) -> (r: Result<
    Option<DirPath>,
    Query,
>)
    ensures
        disk::asks(
            r,
            module_question(disk.deep_view(), m.deep_view(), base_dir.deep_view()),
        ),
        match r {
            Ok(p) => p.deep_view() == module_file(
                disk.deep_view(),
                m.deep_view(),
                base_dir.deep_view(),
            ),
            Err(q) => disk.deep_view().lacks(q.deep_view()),
        },
{
    proof {
        syntax::content_view(*m);
    }
    match find_path_override(disk, &m.attrs, base_dir) {
        Ok(Some(p)) => {
            return Ok(Some(p));
        },
        Ok(None) => {},
        Err(q) => {
            return Err(q);
        },
    }
    let flat = base_dir.join(m.name.clone().concat(".rs").as_str());
    match disk.present(&flat) {
        Ok(true) => {
            return Ok(Some(flat));
        },
        Ok(false) => {},
        Err(q) => {
            return Err(q);
        },
    }
    let nested = base_dir.join(m.name.as_str()).join("mod.rs");
    match disk.present(&nested) {
        Ok(true) => Ok(Some(nested)),
        Ok(false) => Ok(None),
        Err(q) => Err(q),
    }
}

// ── The walk ─────────────────────────────────────────────────────────────

/// What a walk over source files has collected.
#[derive(Debug, PartialEq, Eq)]
pub struct Scan {
    /// The items, in source order.
    pub items: Vec<Item>,
    /// The canonical paths of the files looked at.
    pub visited: Vec<DirPath>,
    /// The files that were read.
    pub files: Vec<DirPath>,
}

/// What a [`Scan`] holds.
#[verifier::ext_equal]
pub struct ScanView {
    pub items: Seq<ItemView>,
    pub visited: Seq<DirPathView>,
    pub files: Seq<DirPathView>,
}

impl DeepView for Scan {
    type V = ScanView;

    open spec fn deep_view(&self) -> ScanView {
        ScanView {
            items: self.items.deep_view(),
            visited: self.visited.deep_view(),
            files: self.files.deep_view(),
        }
    }
}

/// A walk that has not begun.
pub open spec fn no_scan() -> ScanView {
    ScanView { items: Seq::empty(), visited: Seq::empty(), files: Seq::empty() }
}

/// The walk after the source file at `p`, with module files followed `depth`
/// files deep. A file is read once; one that cannot be read or does not parse
/// adds nothing.
pub open spec fn scan_file(disk: DiskView, p: DirPathView, s: ScanView, depth: nat) -> ScanView
    decreases depth, 0int,
{
    let canonical = disk.canonical(p);
    if depth == 0 || s.visited.contains(canonical) {
        s
    } else {
        let visited = s.visited.push(canonical);
        match disk.read(p) {
            ContentsView::Failed(_) => ScanView { visited, ..s },
            ContentsView::Text(content) => {
                let files = s.files.push(p);
                match source::source_items(content) {
                    Err(_) => ScanView { visited, files, ..s },
                    Ok(items) => scan_items(
                        disk,
                        items,
                        0,
                        module_dir(p),
                        ScanView { visited, files, ..s },
                        (depth - 1) as nat,
                    ),
                }
            },
        }
    }
}

/// The attributes of an item.
pub open spec fn item_attrs(item: ItemView) -> Seq<AttributeView> {
    match item {
        ItemView::Fn(f) => f.attrs,
        ItemView::Struct(s) => s.attrs,
        ItemView::Enum(e) => e.attrs,
        ItemView::Type(t) => t.attrs,
        ItemView::Mod(m) => m.attrs,
        ItemView::Other(attrs) => attrs,
    }
}

/// The walk after the items from `from` on. An item that a default build leaves
/// out is skipped; a module adds what is inside, inline or in its file in
/// `base`; any other item adds itself.
pub open spec fn scan_items(
    disk: DiskView,
    items: Seq<ItemView>,
    from: int,
    base: Option<DirPathView>,
    s: ScanView,
    depth: nat,
) -> ScanView
    decreases depth, 1int, items, items.len() - from,
{
    if from < 0 || from >= items.len() {
        s
    } else if cfg::cfg_excluded(item_attrs(items[from])) {
        scan_items(disk, items, from + 1, base, s, depth)
    } else {
        match items[from] {
            ItemView::Mod(m) => {
                let after = match m.content {
                    Some(inner) => scan_items(
                        disk,
                        inner,
                        0,
                        match base {
                            Some(b) => Some(path::joined(b, m.name)),
                            None => None,
                        },
                        s,
                        depth,
                    ),
                    None => match base {
                        Some(b) => match module_file(disk, m, b) {
                            Some(p) => scan_file(disk, p, s, depth),
                            None => s,
                        },
                        None => s,
                    },
                };
                scan_items(disk, items, from + 1, base, after, depth)
            },
            other => scan_items(
                disk,
                items,
                from + 1,
                base,
                ScanView { items: s.items.push(other), ..s },
                depth,
            ),
        }
    }
}

/// The walk after the crate at `dir`: it adds its `src/lib.rs`.
pub open spec fn scan_crate(disk: DiskView, dir: DirPathView, s: ScanView) -> ScanView {
    let lib = path::joined(path::joined(dir, "src"@), "lib.rs"@);
    if disk.present(lib) {
        scan_file(disk, lib, s, disk.kinds.len())
    } else {
        s
    }
}

/// The walk after the crates from `from` on.
pub open spec fn scan_crates(
    disk: DiskView,
    dirs: Seq<DirPathView>,
    from: int,
    s: ScanView,
) -> ScanView
    decreases dirs.len() - from,
{
    if from < 0 || from >= dirs.len() {
        s
    } else {
        scan_crates(disk, dirs, from + 1, scan_crate(disk, dirs[from], s))
    }
}

fn was_visited(visited: &Vec<DirPath>, p: &DirPath) -> (r: bool)
    ensures
        r == visited.deep_view().contains(p.deep_view()),
{
    let ghost all = visited.deep_view();
    let mut i: usize = 0;
    while i < visited.len()
        invariant
            i <= visited.len(),
            all == visited.deep_view(),
            forall|j: int| 0 <= j < i ==> all[j] != p.deep_view(),
        decreases visited.len() - i,
    {
        if visited[i].same(p) {
            assert(all[i as int] == p.deep_view());
            return true;
        }
        i += 1;
    }
    false
}

/// Parse a single Rust source file and append its items to `scan`, following
/// external `mod` declarations to their corresponding files.
fn collect_items_from_source_file(
    disk: &Disk,
    p: &DirPath,
    scan: &mut Scan,
    depth: usize,
) -> (r: Result<(), Query>)
    ensures
        disk::asks(
            r,
            file_question(
                disk.deep_view(),
                p.deep_view(),
                old(scan).deep_view(),
                depth as nat,
            ),
        ),
        match r {
            Ok(_) => final(scan).deep_view() == scan_file(
                disk.deep_view(),
                p.deep_view(),
                old(scan).deep_view(),
                depth as nat,
            ),
            Err(q) => disk.deep_view().lacks(q.deep_view()),
        },
    decreases depth, 0int, Seq::<ItemView>::empty(),
{
    let canonical = match disk.canonical(p) {
        Ok(c) => c,
        Err(q) => {
            return Err(q);
        },
    };
    if depth == 0 || was_visited(&scan.visited, &canonical) {
        return Ok(());
    }
    put(&mut scan.visited, canonical);
    let content = match disk.read(p) {
        Ok(Contents::Text(c)) => c,
        Ok(Contents::Failed(_)) => {
            return Ok(());
        },
        Err(q) => {
            return Err(q);
        },
    };
    put(&mut scan.files, p.dup());
    let items = match parse_source(content.as_str()) {
        Ok(i) => i,
        Err(_) => {
            return Ok(());
        },
    };
    let base = sub_module_dir(p);
    collect_items_recursive(disk, &items, &base, scan, depth - 1)
}

/// Append items to `scan`, following modules: inline ones into their body,
/// others to their files in `base_dir`.
#[verifier::loop_isolation(false)]
pub fn collect_items_recursive(
    disk: &Disk,
    items: &Vec<Item>,
    base_dir: &Option<DirPath>,
    scan: &mut Scan,
    depth: usize,
) -> (r: Result<(), Query>)
    ensures
        disk::asks(
            r,
            items_question(
                disk.deep_view(),
                items.deep_view(),
                0,
                base_dir.deep_view(),
                old(scan).deep_view(),
                depth as nat,
            ),
        ),
        match r {
            Ok(_) => final(scan).deep_view() == scan_items(
                disk.deep_view(),
                items.deep_view(),
                0,
                base_dir.deep_view(),
                old(scan).deep_view(),
                depth as nat,
            ),
            Err(q) => disk.deep_view().lacks(q.deep_view()),
        },
    decreases depth, 1int, items.deep_view(),
{
    let ghost d = disk.deep_view();
    let ghost its = items.deep_view();
    let ghost base = base_dir.deep_view();
    let ghost start = scan.deep_view();
    let mut i: usize = 0;
    while i < items.len()
        invariant
            i <= items.len(),
            scan_items(d, its, 0, base, start, depth as nat) == scan_items(
                d,
                its,
                i as int,
                base,
                scan.deep_view(),
                depth as nat,
            ),
            items_question(d, its, 0, base, start, depth as nat) == items_question(
                d,
                its,
                i as int,
                base,
                scan.deep_view(),
                depth as nat,
            ),
        decreases items.len() - i,
    {
        assert(its[i as int] == items@[i as int].deep_view());
        match &items[i] {
            Item::Mod(m) => {
                proof {
                    syntax::content_view(*m);
                    assert(item_attrs(its[i as int]) == m.attrs.deep_view());
                }
                // Skip modules gated behind #[cfg(...)] that would not be
                // compiled in a default build (e.g. #[cfg(test)],
                // #[cfg(feature = "...")]).  This prevents test-only or
                // feature-gated types from leaking into the on-chain IDL.
                if !is_cfg_excluded(&m.attrs) {
                    match &m.content {
                        Some(inner) => {
                            // Inline module — recurse into its body with an updated base_dir
                            // so that any file-backed `mod` declarations inside it resolve
                            // relative to `base_dir/<mod_name>/` rather than `base_dir/`.
                            let inner_base: Option<DirPath> = match base_dir {
                                Some(b) => Some(b.join(m.name.as_str())),
                                None => None,
                            };
                            assert(decreases_to!(its => its[i as int]->Mod_0.content->Some_0));
                            match collect_items_recursive(disk, inner, &inner_base, scan, depth) {
                                Ok(_) => {},
                                Err(q) => {
                                    return Err(q);
                                },
                            }
                        },
                        None => {
                            if let Some(dir) = base_dir {
                                // External module file — locate and parse it.
                                match mod_file_path(disk, m, dir) {
                                    Ok(Some(p)) => match collect_items_from_source_file(
                                        disk,
                                        &p,
                                        scan,
                                        depth,
                                    ) {
                                        Ok(_) => {},
                                        Err(q) => {
                                            return Err(q);
                                        },
                                    },
                                    Ok(None) => {},
                                    Err(q) => {
                                        return Err(q);
                                    },
                                }
                            }
                        },
                    }
                }
            },
            // Non-module items (structs, enums, etc.) — also skip if cfg-gated.
            other => {
                let attrs = match other {
                    Item::Fn(f) => &f.attrs,
                    Item::Struct(s) => &s.attrs,
                    Item::Enum(e) => &e.attrs,
                    Item::Type(t) => &t.attrs,
                    Item::Mod(m) => &m.attrs,
                    Item::Other(a) => a,
                };
                assert(item_attrs(its[i as int]) == attrs.deep_view());
                if !is_cfg_excluded(attrs) {
                    put(&mut scan.items, other.dup());
                }
            },
        }
        i += 1;
    }
    Ok(())
}

/// Parse the library source of one crate directory and append its items to
/// `scan`.
pub fn collect_items_from_crate_dir(disk: &Disk, dir: &DirPath, scan: &mut Scan) -> (r: Result<
    (),
    Query,
>)
    ensures
        disk::asks(
            r,
            crate_question(disk.deep_view(), dir.deep_view(), old(scan).deep_view()),
        ),
        match r {
            Ok(_) => final(scan).deep_view() == scan_crate(
                disk.deep_view(),
                dir.deep_view(),
                old(scan).deep_view(),
            ),
            Err(q) => disk.deep_view().lacks(q.deep_view()),
        },
{
    let lib = dir.join("src").join("lib.rs");
    match disk.present(&lib) {
        Ok(true) => collect_items_from_source_file(disk, &lib, scan, disk.kinds.len()),
        Ok(false) => Ok(()),
        Err(q) => Err(q),
    }
}

/// Parse the library source of each crate directory and return all items
/// found, following `mod` declarations recursively.
///
/// Each entry in `dirs` should be a Rust crate root (the directory that
/// contains `src/lib.rs`).  Only local path-dependencies should be passed
/// here — third-party registry or git crates are intentionally excluded to
/// avoid pulling in unrelated type definitions.
///
/// Returns `(items, files_read)` where `files_read` lists every source file
/// that was actually parsed.  Callers can use this list for change tracking
/// (e.g. emitting file references so cargo rebuilds when path-dep sources
/// change).
pub fn collect_items_from_crate_dirs(disk: &Disk, dirs: &Vec<DirPath>) -> (r: Result<
    (Vec<Item>, Vec<DirPath>),
    Query,
>)
    ensures
        disk::asks(
            r,
            crates_question(disk.deep_view(), dirs.deep_view(), 0, no_scan()),
        ),
        match r {
            Ok((items, files)) => {
                let s = scan_crates(disk.deep_view(), dirs.deep_view(), 0, no_scan());
                items.deep_view() == s.items && files.deep_view() == s.files
            },
            Err(q) => disk.deep_view().lacks(q.deep_view()),
        },
{
    let ghost d = disk.deep_view();
    let ghost all = dirs.deep_view();
    let mut scan = Scan { items: none(), visited: none(), files: none() };
    let mut i: usize = 0;
    while i < dirs.len()
        invariant
            i <= dirs.len(),
            d == disk.deep_view(),
            all == dirs.deep_view(),
            scan_crates(d, all, 0, no_scan()) == scan_crates(d, all, i as int, scan.deep_view()),
            crates_question(d, all, 0, no_scan()) == crates_question(
                d,
                all,
                i as int,
                scan.deep_view(),
            ),
        decreases dirs.len() - i,
    {
        assert(all[i as int] == dirs@[i as int].deep_view());
        match collect_items_from_crate_dir(disk, &dirs[i], &mut scan) {
            Ok(_) => {},
            Err(q) => {
                return Err(q);
            },
        }
        i += 1;
    }
    Ok((scan.items, scan.files))
}

/// How deep module files are followed from a file that was not looked for
/// before: no chain of files that were read is longer than their number, and one
/// more may be asked for.
pub open spec fn entry_depth(disk: DiskView) -> nat {
    if disk.files.len() < usize::MAX {
        disk.files.len() + 1
    } else {
        disk.files.len()
    }
}

/// The items of a source file, its inline modules and its module files.
pub fn collect_file_items_following_mods(disk: &Disk, p: &DirPath) -> (r: Result<Vec<Item>, Query>)
    ensures
        disk::asks(r, entry_question(disk.deep_view(), p.deep_view())),
        match r {
            Ok(items) => items.deep_view() == scan_file(
                disk.deep_view(),
                p.deep_view(),
                no_scan(),
                entry_depth(disk.deep_view()),
            ).items,
            Err(q) => disk.deep_view().lacks(q.deep_view()),
        },
{
    let mut scan = Scan { items: none(), visited: none(), files: none() };
    let n: usize = disk.files.len();
    let depth: usize = if n < usize::MAX {
        n + 1
    } else {
        n
    };
    match collect_items_from_source_file(disk, p, &mut scan, depth) {
        Ok(_) => Ok(scan.items),
        Err(q) => Err(q),
    }
}

// ── Questions ────────────────────────────────────────────────────────────

/// The first open question about the files that `#[path]` attributes from `from`
/// on name.
pub open spec fn override_question(
    disk: DiskView,
    attrs: Seq<AttributeView>,
    base: DirPathView,
    from: int,
) -> Option<QueryView>
    decreases attrs.len() - from,
{
    if from < 0 || from >= attrs.len() {
        None
    } else if attrs[from].path.is("path"@) && attrs[from].form is Value
        && attrs[from].form->Value_0.kind is Str {
        let p = path::joined(base, attrs[from].form->Value_0.kind->Str_0);
        disk::first_open(
            disk.question(QueryView::Kind(p)),
            if disk.present(p) {
                None
            } else {
                override_question(disk, attrs, base, from + 1)
            },
        )
    } else {
        override_question(disk, attrs, base, from + 1)
    }
}

/// The first open question about the file of a `mod name;` declaration.
pub open spec fn module_question(disk: DiskView, m: ItemModView, base: DirPathView) -> Option<
    QueryView,
> {
    let flat = path::joined(base, m.name + ".rs"@);
    let nested = path::joined(path::joined(base, m.name), "mod.rs"@);
    disk::first_open(
        override_question(disk, m.attrs, base, 0),
        if path_override(disk, m.attrs, base, 0) is Some {
            None
        } else {
            disk::first_open(
                disk.question(QueryView::Kind(flat)),
                if disk.present(flat) {
                    None
                } else {
                    disk.question(QueryView::Kind(nested))
                },
            )
        },
    )
}

/// The first open question of the walk over the source file at `p`.
pub open spec fn file_question(
    disk: DiskView,
    p: DirPathView,
    s: ScanView,
    depth: nat,
) -> Option<QueryView>
    decreases depth, 0int,
{
    let canonical = disk.canonical(p);
    disk::first_open(
        disk.canonical_question(p),
        if depth == 0 || s.visited.contains(canonical) {
            None
        } else {
            let visited = s.visited.push(canonical);
            disk::first_open(
                disk.question(QueryView::Read(p)),
                match disk.read(p) {
                    ContentsView::Failed(_) => None,
                    ContentsView::Text(content) => match source::source_items(content) {
                        Err(_) => None,
                        Ok(items) => items_question(
                            disk,
                            items,
                            0,
                            module_dir(p),
                            ScanView { visited, files: s.files.push(p), ..s },
                            (depth - 1) as nat,
                        ),
                    },
                },
            )
        },
    )
}

/// The first open question of the walk over the items from `from` on.
pub open spec fn items_question(
    disk: DiskView,
    items: Seq<ItemView>,
    from: int,
    base: Option<DirPathView>,
    s: ScanView,
    depth: nat,
) -> Option<QueryView>
    decreases depth, 1int, items, items.len() - from,
{
    if from < 0 || from >= items.len() {
        None
    } else if cfg::cfg_excluded(item_attrs(items[from])) {
        items_question(disk, items, from + 1, base, s, depth)
    } else {
        match items[from] {
            ItemView::Mod(m) => match m.content {
                Some(inner) => {
                    let inner_base = match base {
                        Some(b) => Some(path::joined(b, m.name)),
                        None => None,
                    };
                    disk::first_open(
                        items_question(disk, inner, 0, inner_base, s, depth),
                        items_question(
                            disk,
                            items,
                            from + 1,
                            base,
                            scan_items(disk, inner, 0, inner_base, s, depth),
                            depth,
                        ),
                    )
                },
                None => match base {
                    Some(b) => disk::first_open(
                        module_question(disk, m, b),
                        match module_file(disk, m, b) {
                            Some(p) => disk::first_open(
                                file_question(disk, p, s, depth),
                                items_question(
                                    disk,
                                    items,
                                    from + 1,
                                    base,
                                    scan_file(disk, p, s, depth),
                                    depth,
                                ),
                            ),
                            None => items_question(disk, items, from + 1, base, s, depth),
                        },
                    ),
                    None => items_question(disk, items, from + 1, base, s, depth),
                },
            },
            other => items_question(
                disk,
                items,
                from + 1,
                base,
                ScanView { items: s.items.push(other), ..s },
                depth,
            ),
        }
    }
}

/// The first open question of the walk over the crate at `dir`.
pub open spec fn crate_question(disk: DiskView, dir: DirPathView, s: ScanView) -> Option<
    QueryView,
> {
    let lib = path::joined(path::joined(dir, "src"@), "lib.rs"@);
    disk::first_open(
        disk.question(QueryView::Kind(lib)),
        if disk.present(lib) {
            file_question(disk, lib, s, disk.kinds.len())
        } else {
            None
        },
    )
}

/// The first open question of the walk over the crates from `from` on.
pub open spec fn crates_question(
    disk: DiskView,
    dirs: Seq<DirPathView>,
    from: int,
    s: ScanView,
) -> Option<QueryView>
    decreases dirs.len() - from,
{
    if from < 0 || from >= dirs.len() {
        None
    } else {
        disk::first_open(
            crate_question(disk, dirs[from], s),
            crates_question(disk, dirs, from + 1, scan_crate(disk, dirs[from], s)),
        )
    }
}

/// The first open question about the items of the source file at `p` and its
/// module files.
pub open spec fn entry_question(disk: DiskView, p: DirPathView) -> Option<QueryView> {
    file_question(disk, p, no_scan(), entry_depth(disk))
}

} // verus!
