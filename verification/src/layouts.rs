//! Which crate may put which account layout into the IDL.
//!
//! The annotation is honored in the program's own code, in the local path
//! dependencies it links and in the extensions its markers activate. A crate
//! that merely appears in the dependency graph puts no layout into the IDL.
//! A layout has one owner: two crates that declare layouts of one name are
//! refused. An extension in embedded mode owns no layout for its config type:
//! the window lives inside the consumer's account, so the consumer's struct is
//! the layout and the extension's type is described by reference.
use crate::account_types;
use crate::account_types::collect_annotated;
use crate::dep_walk;
use crate::dep_walk::{canonicalize_all, holds_path};
use crate::disk;
use crate::disk::{Disk, DiskView, Query, QueryView};
use crate::extension::metadata;
use crate::extension::metadata::{
    read_manifest_value, read_package_ident, read_spel_extension_attr,
};
use crate::extension::{Embed, EmbedView, ProgramDeps, ProgramDepsView};
use crate::idl::{IdlAccountType, IdlAccountTypeView};
use crate::model;
use crate::model::{none, put, put_all, single, Dup};
use crate::path;
use crate::path::{DirPath, DirPathView};
use crate::scan;
use crate::scan::{collect_items_from_crate_dir, Scan, ScanView};
use crate::syntax::{
    Attribute, AttributeView, Item, ItemEnum, ItemEnumView, ItemStruct, ItemStructView, ItemView,
};
use crate::text;
use crate::text::{same, split_all};
use vstd::prelude::*;

verus! {

/// The items of one crate.
#[derive(Debug, PartialEq, Eq)]
pub struct CrateItems {
    /// The crate's name.
    pub label: String,
    pub items: Vec<Item>,
}

/// What a [`CrateItems`] holds.
#[verifier::ext_equal]
pub struct CrateItemsView {
    pub label: Seq<char>,
    pub items: Seq<ItemView>,
}

impl DeepView for CrateItems {
    type V = CrateItemsView;

    open spec fn deep_view(&self) -> CrateItemsView {
        CrateItemsView { label: self.label@, items: self.items.deep_view() }
    }
}

// ── Embedded config types ────────────────────────────────────────────────

/// The name of the crate at `dir`: that of its package, or else its path.
pub open spec fn crate_label(disk: DiskView, dir: DirPathView) -> Seq<char> {
    match metadata::manifest_value(disk, dir) {
        Some(manifest) => match metadata::package_ident(manifest) {
            Some(name) => name,
            None => path::shown(dir),
        },
        None => path::shown(dir),
    }
}

/// The names of the config types the crate `owner` embeds.
pub open spec fn embedded_types(embeds: Seq<EmbedView>, owner: Seq<char>) -> Seq<Seq<char>>
    decreases embeds.len(),
{
    if embeds.len() == 0 {
        Seq::empty()
    } else {
        let before = embedded_types(embeds.drop_last(), owner);
        if embeds.last().source == owner {
            before.push(text::pieces(embeds.last().state_type).last())
        } else {
            before
        }
    }
}

/// Attributes without `#[account_type]`.
pub open spec fn unannotated(attrs: Seq<AttributeView>) -> Seq<AttributeView>
    decreases attrs.len(),
{
    if attrs.len() == 0 {
        Seq::empty()
    } else if attrs.last().path.ends("account_type"@) {
        unannotated(attrs.drop_last())
    } else {
        unannotated(attrs.drop_last()).push(attrs.last())
    }
}

/// An item that is no layout if it is called one of `names`.
pub open spec fn disowned(item: ItemView, names: Seq<Seq<char>>) -> ItemView {
    match item {
        ItemView::Struct(s) => if names.contains(s.name) {
            ItemView::Struct(ItemStructView { attrs: unannotated(s.attrs), ..s })
        } else {
            item
        },
        ItemView::Enum(e) => if names.contains(e.name) {
            ItemView::Enum(ItemEnumView { attrs: unannotated(e.attrs), ..e })
        } else {
            item
        },
        _ => item,
    }
}

/// Items of which none called one of `names` is a layout.
pub open spec fn all_disowned(items: Seq<ItemView>, names: Seq<Seq<char>>) -> Seq<ItemView> {
    items.map_values(|i: ItemView| disowned(i, names))
}

// ── Connected crates ─────────────────────────────────────────────────────

/// Whether the crate at `dir` is an extension a marker of the program activates.
pub open spec fn is_activated(disk: DiskView, deps: ProgramDepsView, dir: DirPathView) -> bool {
    dep_walk::canonicals(disk, deps.graph.direct_dirs).contains(disk.canonical(dir)) && match (
    metadata::manifest_value(disk, dir)) {
        Some(manifest) => match metadata::extension_attr(manifest, dir) {
            Ok(Some(marker)) => deps.extensions.matched_markers.contains(marker),
            _ => false,
        },
        None => false,
    }
}

/// Whether the crate at `dir` may declare layouts, for a program whose local
/// path dependencies are at `own`: it is one of those, or an activated
/// extension, or no part of the dependency graph but named by the caller.
pub open spec fn is_connected(
    disk: DiskView,
    deps: ProgramDepsView,
    own: Seq<DirPathView>,
    dir: DirPathView,
) -> bool {
    ||| !dep_walk::canonicals(disk, deps.graph.transitive_dirs).contains(disk.canonical(dir))
    ||| dep_walk::canonicals(disk, own).contains(disk.canonical(dir))
    ||| is_activated(disk, deps, dir)
}

/// The names of the types among `items`.
pub open spec fn type_names(items: Seq<ItemView>) -> Seq<Seq<char>>
    decreases items.len(),
{
    if items.len() == 0 {
        Seq::empty()
    } else {
        let before = type_names(items.drop_last());
        match items.last() {
            ItemView::Struct(s) => before.push(s.name),
            ItemView::Enum(e) => before.push(e.name),
            _ => before,
        }
    }
}

/// The types of the crate at `dir` that are no layouts: the config types it
/// embeds, or all of them where it is not connected.
pub open spec fn disowned_names(
    disk: DiskView,
    deps: ProgramDepsView,
    own: Seq<DirPathView>,
    dir: DirPathView,
    items: Seq<ItemView>,
) -> Seq<Seq<char>> {
    if is_connected(disk, deps, own, dir) {
        embedded_types(deps.extensions.embeds, crate_label(disk, dir))
    } else {
        type_names(items)
    }
}

/// The items of the crates from `from` on, behind those read before. A source
/// file that two crates share counts for the first.
pub open spec fn crates_from(
    disk: DiskView,
    dirs: Seq<DirPathView>,
    deps: ProgramDepsView,
    own: Seq<DirPathView>,
    from: int,
    s: ScanView,
    out: Seq<CrateItemsView>,
) -> Seq<CrateItemsView>
    decreases dirs.len() - from,
{
    if from < 0 || from >= dirs.len() {
        out
    } else {
        let after = scan::scan_crate(disk, dirs[from], ScanView { items: Seq::empty(), ..s });
        let names = disowned_names(disk, deps, own, dirs[from], after.items);
        crates_from(
            disk,
            dirs,
            deps,
            own,
            from + 1,
            after,
            out.push(
                CrateItemsView {
                    label: crate_label(disk, dirs[from]),
                    items: all_disowned(after.items, names),
                },
            ),
        )
    }
}

/// The items of all crates, one behind the other.
pub open spec fn items_of(crates: Seq<CrateItemsView>) -> Seq<ItemView>
    decreases crates.len(),
{
    if crates.len() == 0 {
        Seq::empty()
    } else {
        items_of(crates.drop_last()) + crates.last().items
    }
}

fn name_crate(disk: &Disk, dir: &DirPath) -> (r: Result<String, Query>)
    ensures
        disk::asks(r, metadata::value_question(disk.deep_view(), dir.deep_view())),
        match r {
            Ok(label) => label@ == crate_label(disk.deep_view(), dir.deep_view()),
            Err(q) => disk.deep_view().lacks(q.deep_view()),
        },
{
    match read_manifest_value(disk, dir) {
        Ok(Some(manifest)) => match read_package_ident(&manifest) {
            Some(name) => Ok(name),
            None => Ok(dir.display()),
        },
        Ok(None) => Ok(dir.display()),
        Err(q) => Err(q),
    }
}

fn list_embedded_types(embeds: &Vec<Embed>, owner: &str) -> (r: Vec<String>)
    ensures
        r.deep_view() == embedded_types(embeds.deep_view(), owner@),
{
    let ghost all = embeds.deep_view();
    let mut out: Vec<String> = none();
    let mut i: usize = 0;
    assert(all.take(0) =~= Seq::empty());
    while i < embeds.len()
        invariant
            i <= embeds.len(),
            all == embeds.deep_view(),
            out.deep_view() == embedded_types(all.take(i as int), owner@),
        decreases embeds.len() - i,
    {
        assert(all.take(i + 1).drop_last() =~= all.take(i as int));
        assert(all.take(i + 1).last() == embeds@[i as int].deep_view());
        if same(embeds[i].source.as_str(), owner) {
            let names = split_all(embeds[i].state_type.as_str());
            proof {
                pieces_not_empty(embeds@[i as int].state_type@);
            }
            assert(names.deep_view()[names.len() - 1] == names@[names.len() - 1]@);
            put(&mut out, names[names.len() - 1].clone());
        }
        i += 1;
    }
    assert(all.take(i as int) =~= all);
    out
}

proof fn pieces_not_empty(s: Seq<char>)
    ensures
        text::pieces(s).len() > 0,
{
}

fn strip_annotation(attrs: &Vec<Attribute>) -> (r: Vec<Attribute>)
    ensures
        r.deep_view() == unannotated(attrs.deep_view()),
{
    let ghost all = attrs.deep_view();
    let mut out: Vec<Attribute> = none();
    let mut i: usize = 0;
    assert(all.take(0) =~= Seq::empty());
    while i < attrs.len()
        invariant
            i <= attrs.len(),
            all == attrs.deep_view(),
            out.deep_view() == unannotated(all.take(i as int)),
        decreases attrs.len() - i,
    {
        assert(all.take(i + 1).drop_last() =~= all.take(i as int));
        assert(all.take(i + 1).last() == attrs@[i as int].deep_view());
        if !attrs[i].path.ends("account_type") {
            put(&mut out, attrs[i].dup());
        }
        i += 1;
    }
    assert(all.take(i as int) =~= all);
    out
}

fn disown(item: &Item, names: &Vec<String>) -> (r: Item)
    ensures
        r.deep_view() == disowned(item.deep_view(), names.deep_view()),
{
    match item {
        Item::Struct(s) => if text::holds(names, s.name.as_str()) {
            Item::Struct(
                ItemStruct {
                    attrs: strip_annotation(&s.attrs),
                    name: s.name.clone(),
                    fields: s.fields.dup(),
                },
            )
        } else {
            item.dup()
        },
        Item::Enum(e) => if text::holds(names, e.name.as_str()) {
            Item::Enum(
                ItemEnum {
                    attrs: strip_annotation(&e.attrs),
                    name: e.name.clone(),
                    variants: e.variants.dup(),
                },
            )
        } else {
            item.dup()
        },
        _ => item.dup(),
    }
}

fn disown_all(items: &Vec<Item>, names: &Vec<String>) -> (r: Vec<Item>)
    ensures
        r.deep_view() == all_disowned(items.deep_view(), names.deep_view()),
{
    let mut out: Vec<Item> = Vec::new();
    let mut i: usize = 0;
    while i < items.len()
        invariant
            i <= items.len(),
            out.len() == i,
            forall|j: int|
                0 <= j < i ==> (#[trigger] out@[j]).deep_view() == disowned(
                    items@[j].deep_view(),
                    names.deep_view(),
                ),
        decreases items.len() - i,
    {
        out.push(disown(&items[i], names));
        i += 1;
    }
    assert(out.deep_view() =~= all_disowned(items.deep_view(), names.deep_view()));
    out
}

/// Whether the crate at `dir` is an extension a marker of the program activates.
fn activates(disk: &Disk, deps: &ProgramDeps, dir: &DirPath) -> (r: Result<bool, Query>)
    ensures
        disk::asks(
            r,
            activated_question(disk.deep_view(), deps.deep_view(), dir.deep_view()),
        ),
        match r {
            Ok(b) => b == is_activated(disk.deep_view(), deps.deep_view(), dir.deep_view()),
            Err(q) => disk.deep_view().lacks(q.deep_view()),
        },
{
    let direct = match canonicalize_all(disk, &deps.graph.direct_dirs) {
        Ok(direct) => direct,
        Err(q) => {
            return Err(q);
        },
    };
    match disk.canonical(dir) {
        Ok(c) => if !holds_path(&direct, &c) {
            return Ok(false);
        },
        Err(q) => {
            return Err(q);
        },
    }
    match read_manifest_value(disk, dir) {
        Ok(Some(manifest)) => match read_spel_extension_attr(&manifest, dir) {
            Ok(Some(marker)) => Ok(
                text::holds(&deps.extensions.matched_markers, marker.as_str()),
            ),
            _ => Ok(false),
        },
        Ok(None) => Ok(false),
        Err(q) => Err(q),
    }
}

/// Whether the crate at `dir` may declare layouts, for a program whose local
/// path dependencies are at `own`.
pub fn connects(disk: &Disk, deps: &ProgramDeps, own: &Vec<DirPath>, dir: &DirPath) -> (r: Result<
    bool,
    Query,
>)
    ensures
        disk::asks(
            r,
            connected_question(
                disk.deep_view(),
                deps.deep_view(),
                own.deep_view(),
                dir.deep_view(),
            ),
        ),
        match r {
            Ok(b) => b == is_connected(
                disk.deep_view(),
                deps.deep_view(),
                own.deep_view(),
                dir.deep_view(),
            ),
            Err(q) => disk.deep_view().lacks(q.deep_view()),
        },
{
    let c = match disk.canonical(dir) {
        Ok(c) => c,
        Err(q) => {
            return Err(q);
        },
    };
    match canonicalize_all(disk, &deps.graph.transitive_dirs) {
        Ok(graph) => if !holds_path(&graph, &c) {
            return Ok(true);
        },
        Err(q) => {
            return Err(q);
        },
    }
    match canonicalize_all(disk, own) {
        Ok(paths) => if holds_path(&paths, &c) {
            return Ok(true);
        },
        Err(q) => {
            return Err(q);
        },
    }
    activates(disk, deps, dir)
}

/// The names of the types among `items`.
fn list_type_names(items: &Vec<Item>) -> (r: Vec<String>)
    ensures
        r.deep_view() == type_names(items.deep_view()),
{
    let ghost all = items.deep_view();
    let mut out: Vec<String> = none();
    let mut i: usize = 0;
    assert(all.take(0) =~= Seq::empty());
    while i < items.len()
        invariant
            i <= items.len(),
            all == items.deep_view(),
            out.deep_view() == type_names(all.take(i as int)),
        decreases items.len() - i,
    {
        assert(all.take(i + 1).drop_last() =~= all.take(i as int));
        assert(all.take(i + 1).last() == items@[i as int].deep_view());
        match &items[i] {
            Item::Struct(s) => put(&mut out, s.name.clone()),
            Item::Enum(e) => put(&mut out, e.name.clone()),
            _ => {},
        }
        i += 1;
    }
    assert(all.take(i as int) =~= all);
    out
}

/// Parse the library source of each crate directory, by crate, for a program
/// whose local path dependencies are at `own`.
pub fn collect_crates(
    disk: &Disk,
    dirs: &Vec<DirPath>,
    deps: &ProgramDeps,
    own: &Vec<DirPath>,
) -> (r: Result<Vec<CrateItems>, Query>)
    ensures
        disk::asks(
            r,
            crates_question(
                disk.deep_view(),
                dirs.deep_view(),
                deps.deep_view(),
                own.deep_view(),
                0,
                scan::no_scan(),
            ),
        ),
        match r {
            Ok(crates) => crates.deep_view() == crates_from(
                disk.deep_view(),
                dirs.deep_view(),
                deps.deep_view(),
                own.deep_view(),
                0,
                scan::no_scan(),
                Seq::empty(),
            ),
            Err(q) => disk.deep_view().lacks(q.deep_view()),
        },
{
    let ghost d = disk.deep_view();
    let ghost all = dirs.deep_view();
    let ghost dv = deps.deep_view();
    let ghost ov = own.deep_view();
    let mut out: Vec<CrateItems> = none();
    let mut visited: Vec<DirPath> = none();
    let mut files: Vec<DirPath> = none();
    let ghost mut s: ScanView = scan::no_scan();
    let mut i: usize = 0;
    while i < dirs.len()
        invariant
            i <= dirs.len(),
            d == disk.deep_view(),
            all == dirs.deep_view(),
            dv == deps.deep_view(),
            ov == own.deep_view(),
            s.visited == visited.deep_view(),
            s.files == files.deep_view(),
            crates_from(d, all, dv, ov, 0, scan::no_scan(), Seq::empty()) == crates_from(
                d,
                all,
                dv,
                ov,
                i as int,
                s,
                out.deep_view(),
            ),
            crates_question(d, all, dv, ov, 0, scan::no_scan()) == crates_question(
                d,
                all,
                dv,
                ov,
                i as int,
                s,
            ),
        decreases dirs.len() - i,
    {
        assert(all[i as int] == dirs@[i as int].deep_view());
        let label = match name_crate(disk, &dirs[i]) {
            Ok(label) => label,
            Err(q) => {
                return Err(q);
            },
        };
        let mut scan = Scan { items: none(), visited, files };
        assert(scan.deep_view() == (ScanView { items: Seq::empty(), ..s }));
        match collect_items_from_crate_dir(disk, &dirs[i], &mut scan) {
            Ok(_) => {},
            Err(q) => {
                return Err(q);
            },
        }
        proof {
            s = scan.deep_view();
        }
        let names = match connects(disk, deps, own, &dirs[i]) {
            Ok(true) => list_embedded_types(&deps.extensions.embeds, label.as_str()),
            Ok(false) => list_type_names(&scan.items),
            Err(q) => {
                return Err(q);
            },
        };
        let items = disown_all(&scan.items, &names);
        put(&mut out, CrateItems { label, items });
        visited = scan.visited;
        files = scan.files;
        i += 1;
    }
    Ok(out)
}

/// The items of all crates, one behind the other.
pub fn join_items(crates: &Vec<CrateItems>) -> (r: Vec<Item>)
    ensures
        r.deep_view() == items_of(crates.deep_view()),
{
    let ghost all = crates.deep_view();
    let mut out: Vec<Item> = none();
    let mut i: usize = 0;
    assert(all.take(0) =~= Seq::empty());
    while i < crates.len()
        invariant
            i <= crates.len(),
            all == crates.deep_view(),
            out.deep_view() == items_of(all.take(i as int)),
        decreases crates.len() - i,
    {
        assert(all.take(i + 1).drop_last() =~= all.take(i as int));
        assert(all.take(i + 1).last() == crates@[i as int].deep_view());
        put_all(&mut out, crates[i].items.dup());
        i += 1;
    }
    assert(all.take(i as int) =~= all);
    out
}

// ── One owner ────────────────────────────────────────────────────────────

/// The crates that may declare layouts: that of the program, and `more`.
pub open spec fn with_program(own: Seq<ItemView>, more: Seq<CrateItemsView>) -> Seq<
    CrateItemsView,
> {
    seq![CrateItemsView { label: "this program"@, items: own }] + more
}

/// Whether a crate declares a layout called `name`.
pub open spec fn declares(c: CrateItemsView, name: Seq<char>) -> bool {
    account_types::is_account_name(account_types::annotated(c.items), name)
}

/// The first crate from `from` on that declares a layout called `name`; the
/// number of crates where none does.
pub open spec fn first_declaring(crates: Seq<CrateItemsView>, name: Seq<char>, from: int) -> int
    decreases crates.len() - from,
{
    if from < 0 || from >= crates.len() || declares(crates[from], name) {
        from
    } else {
        first_declaring(crates, name, from + 1)
    }
}

/// Whether none of the layouts from `from` on, declared by the crate at `at`,
/// is declared by a crate before it; the message names both.
pub open spec fn owned_in(
    crates: Seq<CrateItemsView>,
    at: int,
    layouts: Seq<IdlAccountTypeView>,
    from: int,
) -> Result<(), Seq<char>>
    decreases layouts.len() - from,
{
    if from < 0 || from >= layouts.len() {
        Ok(())
    } else {
        let first = first_declaring(crates, layouts[from].name, 0);
        if first < at {
            Err(
                "duplicate account layout '"@ + layouts[from].name + "': declared in "@
                    + crates[first].label + " and in "@ + crates[at].label,
            )
        } else {
            owned_in(crates, at, layouts, from + 1)
        }
    }
}

/// Whether no crate from `from` on declares a layout that a crate before it
/// declares.
pub open spec fn owned_from(crates: Seq<CrateItemsView>, from: int) -> Result<(), Seq<char>>
    decreases crates.len() - from,
{
    if from < 0 || from >= crates.len() {
        Ok(())
    } else {
        match owned_in(crates, from, account_types::annotated(crates[from].items), 0) {
            Ok(_) => owned_from(crates, from + 1),
            Err(e) => Err(e),
        }
    }
}

/// The crates that may declare layouts: that of the program, and `more`.
pub fn join_program(own: Vec<Item>, more: Vec<CrateItems>) -> (r: Vec<CrateItems>)
    ensures
        r.deep_view() == with_program(own.deep_view(), more.deep_view()),
{
    let mut out = single(CrateItems { label: "this program".to_owned(), items: own });
    put_all(&mut out, more);
    out
}

fn crate_declares(c: &CrateItems, name: &str) -> (r: bool)
    ensures
        r == declares(c.deep_view(), name@),
{
    let layouts = collect_annotated(&c.items);
    let mut i: usize = 0;
    while i < layouts.len()
        invariant
            i <= layouts.len(),
            layouts.deep_view() == account_types::annotated(c.deep_view().items),
            forall|j: int| 0 <= j < i ==> (#[trigger] layouts.deep_view()[j]).name != name@,
        decreases layouts.len() - i,
    {
        if same(layouts[i].name.as_str(), name) {
            assert(layouts.deep_view()[i as int].name == name@);
            return true;
        }
        i += 1;
    }
    false
}

fn find_first_declaring(crates: &Vec<CrateItems>, name: &str) -> (r: usize)
    ensures
        r == first_declaring(crates.deep_view(), name@, 0),
        r <= crates.len(),
{
    let ghost all = crates.deep_view();
    let mut i: usize = 0;
    while i < crates.len()
        invariant
            i <= crates.len(),
            all == crates.deep_view(),
            first_declaring(all, name@, 0) == first_declaring(all, name@, i as int),
        decreases crates.len() - i,
    {
        assert(all[i as int] == crates@[i as int].deep_view());
        if crate_declares(&crates[i], name) {
            return i;
        }
        i += 1;
    }
    i
}

fn check_layouts(crates: &Vec<CrateItems>, at: usize, layouts: &Vec<IdlAccountType>) -> (r: Result<
    (),
    String,
>)
    requires
        at < crates.len(),
    ensures
        model::verdict(r) == owned_in(
            crates.deep_view(),
            at as int,
            layouts.deep_view(),
            0,
        ),
{
    let ghost all = crates.deep_view();
    let ghost ls = layouts.deep_view();
    let mut i: usize = 0;
    while i < layouts.len()
        invariant
            i <= layouts.len(),
            at < crates.len(),
            all == crates.deep_view(),
            ls == layouts.deep_view(),
            owned_in(all, at as int, ls, 0) == owned_in(all, at as int, ls, i as int),
        decreases layouts.len() - i,
    {
        assert(ls[i as int] == layouts@[i as int].deep_view());
        let first = find_first_declaring(crates, layouts[i].name.as_str());
        if first < at {
            assert(all[first as int] == crates@[first as int].deep_view());
            assert(all[at as int] == crates@[at as int].deep_view());
            return Err(
                "duplicate account layout '".to_owned().concat(layouts[i].name.as_str()).concat(
                    "': declared in ",
                ).concat(crates[first].label.as_str()).concat(" and in ").concat(
                    crates[at].label.as_str(),
                ),
            );
        }
        i += 1;
    }
    Ok(())
}

/// Check that no two crates declare account layouts of one name.
///
/// # Errors
///
/// Names the layout and both crates.
pub fn check_layout_owners(crates: &Vec<CrateItems>) -> (r: Result<(), String>)
    ensures
        model::verdict(r) == owned_from(crates.deep_view(), 0),
{
    let ghost all = crates.deep_view();
    let mut i: usize = 0;
    while i < crates.len()
        invariant
            i <= crates.len(),
            all == crates.deep_view(),
            owned_from(all, 0) == owned_from(all, i as int),
        decreases crates.len() - i,
    {
        assert(all[i as int] == crates@[i as int].deep_view());
        let layouts = collect_annotated(&crates[i].items);
        match check_layouts(crates, i, &layouts) {
            Ok(_) => {},
            Err(e) => {
                return Err(e);
            },
        }
        i += 1;
    }
    Ok(())
}

// ── Questions ────────────────────────────────────────────────────────────

/// The first open question about whether the crate at `dir` is an activated
/// extension.
pub open spec fn activated_question(
    disk: DiskView,
    deps: ProgramDepsView,
    dir: DirPathView,
) -> Option<QueryView> {
    let direct = deps.graph.direct_dirs;
    disk::first_open(
        dep_walk::canonicals_question(disk, direct, 0),
        disk::first_open(
            disk.canonical_question(dir),
            if dep_walk::canonicals(disk, direct).contains(disk.canonical(dir)) {
                metadata::value_question(disk, dir)
            } else {
                None
            },
        ),
    )
}

/// The first open question about whether the crate at `dir` may declare layouts.
pub open spec fn connected_question(
    disk: DiskView,
    deps: ProgramDepsView,
    own: Seq<DirPathView>,
    dir: DirPathView,
) -> Option<QueryView> {
    let graph = deps.graph.transitive_dirs;
    let c = disk.canonical(dir);
    disk::first_open(
        disk.canonical_question(dir),
        disk::first_open(
            dep_walk::canonicals_question(disk, graph, 0),
            if !dep_walk::canonicals(disk, graph).contains(c) {
                None
            } else {
                disk::first_open(
                    dep_walk::canonicals_question(disk, own, 0),
                    if dep_walk::canonicals(disk, own).contains(c) {
                        None
                    } else {
                        activated_question(disk, deps, dir)
                    },
                )
            },
        ),
    )
}

/// The first open question about the crates from `from` on and their layouts.
pub open spec fn crates_question(
    disk: DiskView,
    dirs: Seq<DirPathView>,
    deps: ProgramDepsView,
    own: Seq<DirPathView>,
    from: int,
    s: ScanView,
) -> Option<QueryView>
    decreases dirs.len() - from,
{
    if from < 0 || from >= dirs.len() {
        None
    } else {
        let fresh = ScanView { items: Seq::empty(), ..s };
        disk::first_open(
            metadata::value_question(disk, dirs[from]),
            disk::first_open(
                scan::crate_question(disk, dirs[from], fresh),
                disk::first_open(
                    connected_question(disk, deps, own, dirs[from]),
                    crates_question(
                        disk,
                        dirs,
                        deps,
                        own,
                        from + 1,
                        scan::scan_crate(disk, dirs[from], fresh),
                    ),
                ),
            ),
        )
    }
}

} // verus!
