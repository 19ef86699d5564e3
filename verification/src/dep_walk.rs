//! Dependency-graph resolution shared by IDL generation and extension
//! discovery.
//!
//! [`resolve_dep_graph`] resolves a crate's dependencies in one pass and
//! returns a [`DepGraph`] with two lists of deliberately different reach:
//!
//! - `transitive_dirs`: types referenced by a program's instructions may
//!   come through any runtime dependency, so IDL type collection follows
//!   the whole graph.
//! - `direct_dirs`: extension discovery must never pick up a dependency
//!   of a dependency (trust model's two-action rule), so it stops at the
//!   consumer's own `Cargo.toml`.
//!
//! Both lists merge two sources: a manifest walk for path dependencies
//! (fast, no subprocess) and a single shared `cargo metadata` answer for
//! git and registry dependencies, filtered to normal-kind resolve edges
//! so dev- and build-deps stay out. All failures here are environmental
//! and are collected as warnings; `cargo metadata` being
//! unavailable degrades to path-only results so expansion stays
//! deterministic. Every degradation that loses coverage is additionally
//! recorded in [`DepGraph::metadata_failure`] so callers with extension
//! markers can refuse to compile instead of silently dropping a git or
//! registry extension.
use crate::disk;
use crate::disk::{
    Contents, ContentsView, Disk, DiskView, Kind, Listed, ListedView, Metadata, MetadataView, Query, QueryView,
};
use crate::model;
use crate::model::{none, put, put_all, single, Dup};
use crate::path;
use crate::path::{DirPath, DirPathView};
use crate::text;
use crate::value;
use crate::value::{read_json, read_toml, Value, ValueView};
use vstd::prelude::*;

verus! {

/// Everything the framework needs to know about a crate's dependency
/// graph, resolved in one pass with one `cargo metadata` invocation.
#[derive(Debug, PartialEq, Eq)]
pub struct DepGraph {
    /// Transitive runtime dependency dirs. Feeds IDL type collection:
    /// instruction-arg types may come through any runtime dependency.
    pub transitive_dirs: Vec<DirPath>,
    /// Depth-1 dependency dirs only. Feeds extension discovery: the trust
    /// model's two-action rule forbids transitive discovery.
    pub direct_dirs: Vec<DirPath>,
    /// Why the cargo metadata layer could not contribute when it was
    /// requested. `None` means full coverage or metadata not requested.
    /// Callers with extension marker treat `Some` as a hard error: a
    /// git or registry extension may be silently missing.
    pub metadata_failure: Option<String>,
}

/// What a [`DepGraph`] holds.
#[verifier::ext_equal]
pub struct DepGraphView {
    pub transitive_dirs: Seq<DirPathView>,
    pub direct_dirs: Seq<DirPathView>,
    pub metadata_failure: Option<Seq<char>>,
}

impl DeepView for DepGraph {
    type V = DepGraphView;

    open spec fn deep_view(&self) -> DepGraphView {
        DepGraphView {
            transitive_dirs: self.transitive_dirs.deep_view(),
            direct_dirs: self.direct_dirs.deep_view(),
            metadata_failure: self.metadata_failure.deep_view(),
        }
    }
}

impl Dup for DepGraph {
    fn dup(&self) -> (r: Self) {
        DepGraph {
            transitive_dirs: self.transitive_dirs.dup(),
            direct_dirs: self.direct_dirs.dup(),
            metadata_failure: self.metadata_failure.dup(),
        }
    }
}

/// A graph without dependencies; says why when metadata was requested.
pub open spec fn no_graph(requested: bool, reason: Seq<char>) -> DepGraphView {
    DepGraphView {
        transitive_dirs: Seq::empty(),
        direct_dirs: Seq::empty(),
        metadata_failure: if requested {
            Some(reason)
        } else {
            None
        },
    }
}

fn make_no_graph(requested: bool, reason: String) -> (r: DepGraph)
    ensures
        r.deep_view() == no_graph(requested, reason@),
{
    DepGraph {
        transitive_dirs: none(),
        direct_dirs: none(),
        metadata_failure: if requested {
            Some(reason)
        } else {
            None
        },
    }
}

// ── Manifests ────────────────────────────────────────────────────────────

/// A parsed manifest, or the warning for one that cannot be read or parsed.
pub open spec fn manifest_toml(disk: DiskView, manifest: DirPathView) -> Result<
    ValueView,
    Seq<char>,
> {
    match disk.read(manifest) {
        ContentsView::Failed(e) => Err(
            "⚠️  could not read manifest '"@ + path::shown(manifest) + "': "@ + e,
        ),
        ContentsView::Text(content) => match value::toml_value(content) {
            Ok(v) => Ok(v),
            Err(e) => Err(
                "⚠️  failed to parse manifest '"@ + path::shown(manifest) + "': "@ + e,
            ),
        },
    }
}

/// Whether a manifest is a workspace root without a package of its own.
pub open spec fn is_virtual(v: ValueView) -> bool {
    v.field("workspace"@) is Some && v.field("package"@) is None
}

/// Parsed and validated `Cargo.toml`, or the warning.
fn read_manifest_toml(disk: &Disk, manifest: &DirPath) -> (r: Result<Result<Value, String>, Query>)
    ensures
        disk::asks(r, disk.deep_view().question(QueryView::Read(manifest.deep_view()))),
        match r {
            Ok(v) => model::outcome(v) == manifest_toml(disk.deep_view(), manifest.deep_view()),
            Err(q) => disk.deep_view().lacks(q.deep_view()),
        },
{
    match disk.read(manifest) {
        Ok(Contents::Failed(e)) => Ok(
            Err(
                "⚠️  could not read manifest '".to_owned().concat(
                    manifest.display().as_str(),
                ).concat("': ").concat(e.as_str()),
            ),
        ),
        Ok(Contents::Text(content)) => match read_toml(content.as_str()) {
            Ok(v) => Ok(Ok(v)),
            Err(e) => Ok(
                Err(
                    "⚠️  failed to parse manifest '".to_owned().concat(
                        manifest.display().as_str(),
                    ).concat("': ").concat(e.as_str()),
                ),
            ),
        },
        Err(q) => Err(q),
    }
}

/// Whether a manifest is a workspace root without a package of its own.
pub fn is_virtual_manifest(v: &Value) -> (r: bool)
    ensures
        r == is_virtual(v.deep_view()),
{
    v.get("workspace").is_some() && v.get("package").is_none()
}

// ── Manifest location ────────────────────────────────────────────────────

/// The nearest `Cargo.toml` in `dir` or above it.
pub open spec fn manifest_above(disk: DiskView, dir: DirPathView) -> Option<DirPathView>
    decreases dir.parts.len(),
{
    let candidate = path::joined(dir, "Cargo.toml"@);
    proof {
        path::parent_has_one_name_less(dir);
    }
    if disk.present(candidate) {
        Some(candidate)
    } else {
        match path::parent_of(dir) {
            Some(p) => manifest_above(disk, p),
            None => None,
        }
    }
}

/// The nearest `Cargo.toml` of `start`, a file or a directory, and the
/// warnings on the way.
pub open spec fn crate_manifest(disk: DiskView, start: DirPathView) -> (
    Option<DirPathView>,
    Seq<Seq<char>>,
) {
    let dir = if disk.kind(start) == Kind::File {
        path::parent_of(start)
    } else {
        Some(start)
    };
    match dir {
        None => (None, Seq::empty()),
        Some(d) => match manifest_above(disk, d) {
            Some(m) => (Some(m), Seq::empty()),
            None => (
                None,
                seq!["⚠️  no Cargo.toml found walking up from '"@ + path::shown(start) + "'"@],
            ),
        },
    }
}

fn find_manifest_above(disk: &Disk, dir: &DirPath) -> (r: Result<Option<DirPath>, Query>)
    ensures
        disk::asks(r, above_question(disk.deep_view(), dir.deep_view())),
        match r {
            Ok(m) => m.deep_view() == manifest_above(disk.deep_view(), dir.deep_view()),
            Err(q) => disk.deep_view().lacks(q.deep_view()),
        },
    decreases dir.deep_view().parts.len(),
{
    proof {
        path::parent_has_one_name_less(dir.deep_view());
    }
    let candidate = dir.join("Cargo.toml");
    match disk.present(&candidate) {
        Ok(true) => Ok(Some(candidate)),
        Ok(false) => match dir.parent() {
            Some(p) => find_manifest_above(disk, &p),
            None => Ok(None),
        },
        Err(q) => Err(q),
    }
}

/// Walk up from `start` to find the nearest `Cargo.toml`.
pub fn find_crate_manifest(disk: &Disk, start: &DirPath, warnings: &mut Vec<String>) -> (r: Result<
    Option<DirPath>,
    Query,
>)
    ensures
        disk::asks(r, manifest_question(disk.deep_view(), start.deep_view())),
        match r {
            Ok(m) => {
                let (expected, ws) = crate_manifest(disk.deep_view(), start.deep_view());
                m.deep_view() == expected && final(warnings).deep_view() == old(
                    warnings,
                ).deep_view() + ws
            },
            Err(q) => disk.deep_view().lacks(q.deep_view()),
        },
{
    let ghost before = warnings.deep_view();
    assert(before + Seq::<Seq<char>>::empty() =~= before);
    let kind = match disk.kind(start) {
        Ok(k) => k,
        Err(q) => {
            return Err(q);
        },
    };
    let dir = match kind {
        Kind::File => match start.parent() {
            Some(p) => p,
            None => {
                return Ok(None);
            },
        },
        _ => start.dup(),
    };
    match find_manifest_above(disk, &dir) {
        Ok(Some(m)) => Ok(Some(m)),
        Ok(None) => {
            let w = "⚠️  no Cargo.toml found walking up from '".to_owned().concat(
                start.display().as_str(),
            ).concat("'");
            let ghost wv = w@;
            put(warnings, w);
            assert(warnings.deep_view() =~= before + seq![wv]);
            Ok(None)
        },
        Err(q) => Err(q),
    }
}

// ── Workspace members ────────────────────────────────────────────────────

/// The texts among `arr`; others are left out.
pub open spec fn texts_of(arr: Seq<ValueView>) -> Seq<Seq<char>>
    decreases arr.len(),
{
    if arr.len() == 0 {
        Seq::empty()
    } else {
        match arr.last().text() {
            Some(s) => texts_of(arr.drop_last()).push(s),
            None => texts_of(arr.drop_last()),
        }
    }
}

/// The member patterns of a workspace manifest.
pub open spec fn member_patterns(workspace: ValueView) -> Seq<Seq<char>> {
    match workspace.field("workspace"@) {
        Some(w) => match w.elements_at("members"@) {
            Some(arr) => texts_of(arr),
            None => Seq::empty(),
        },
        None => Seq::empty(),
    }
}

/// Whether a pattern holds a `*`.
pub open spec fn is_glob(pattern: Seq<char>) -> bool {
    text::find_char(pattern, '*', 0) < pattern.len()
}

/// The members a directory listing gives behind `prefix`: every entry that is a
/// directory, or may be one.
pub open spec fn listed_members(prefix: Seq<char>, entries: Seq<ListedView>) -> Seq<Seq<char>>
    decreases entries.len(),
{
    if entries.len() == 0 {
        Seq::empty()
    } else {
        let before = listed_members(prefix, entries.drop_last());
        if entries.last().is_dir != Some(false) {
            before.push(prefix + "/"@ + entries.last().name)
        } else {
            before
        }
    }
}

/// The members a pattern stands for: what is before its first `*` is listed.
pub open spec fn expanded(disk: DiskView, root: DirPathView, pattern: Seq<char>) -> Seq<Seq<char>> {
    if !is_glob(pattern) {
        seq![pattern]
    } else {
        let prefix = pattern.take(text::find_char(pattern, '*', 0));
        match disk.list(path::joined(root, prefix)) {
            Some(entries) => listed_members(prefix, entries),
            None => Seq::empty(),
        }
    }
}

/// The members all patterns stand for.
pub open spec fn members(disk: DiskView, root: DirPathView, patterns: Seq<Seq<char>>) -> Seq<
    Seq<char>,
>
    decreases patterns.len(),
{
    if patterns.len() == 0 {
        Seq::empty()
    } else {
        members(disk, root, patterns.drop_last()) + expanded(disk, root, patterns.last())
    }
}

/// The manifest of the first member from `from` on whose directory holds
/// `source_dir`.
pub open spec fn member_holding(
    disk: DiskView,
    root: DirPathView,
    names: Seq<Seq<char>>,
    source_dir: DirPathView,
    from: int,
) -> Option<DirPathView>
    decreases names.len() - from,
{
    if from < 0 || from >= names.len() {
        None
    } else {
        let dir = path::joined(root, names[from]);
        let manifest = path::joined(dir, "Cargo.toml"@);
        if disk.kind(dir) == Kind::Dir && path::is_under(source_dir, dir) && disk.present(
            manifest,
        ) {
            Some(manifest)
        } else {
            member_holding(disk, root, names, source_dir, from + 1)
        }
    }
}

/// Whether the manifest at `p` reads as a virtual workspace.
pub open spec fn reads_virtual(disk: DiskView, p: DirPathView) -> bool {
    match disk.read(p) {
        ContentsView::Text(content) => match value::toml_value(content) {
            Ok(v) => is_virtual(v),
            Err(_) => false,
        },
        ContentsView::Failed(_) => false,
    }
}

/// The deepest manifest in or below `dir` that holds `target` and is no virtual
/// workspace: children first, in listing order, then `dir` itself. Directories
/// are opened `depth` deep.
pub open spec fn searched(
    disk: DiskView,
    dir: DirPathView,
    target: DirPathView,
    depth: nat,
) -> Option<DirPathView>
    decreases depth, 0int,
{
    if depth == 0 {
        None
    } else {
        let below = match disk.list(dir) {
            Some(entries) => searched_below(disk, dir, entries, target, 0, (depth - 1) as nat),
            None => None,
        };
        match below {
            Some(m) => Some(m),
            None => {
                let manifest = path::joined(dir, "Cargo.toml"@);
                if disk.present(manifest) && path::is_under(target, dir) && !reads_virtual(
                    disk,
                    manifest,
                ) {
                    Some(manifest)
                } else {
                    None
                }
            },
        }
    }
}

/// What the search finds in the subdirectories from entry `from` on.
pub open spec fn searched_below(
    disk: DiskView,
    dir: DirPathView,
    entries: Seq<ListedView>,
    target: DirPathView,
    from: int,
    depth: nat,
) -> Option<DirPathView>
    decreases depth, 1int, entries.len() - from,
{
    if from < 0 || from >= entries.len() {
        None
    } else if entries[from].is_dir == Some(true) {
        match searched(disk, path::child(dir, entries[from].name), target, depth) {
            Some(m) => Some(m),
            None => searched_below(disk, dir, entries, target, from + 1, depth),
        }
    } else {
        searched_below(disk, dir, entries, target, from + 1, depth)
    }
}

/// How deep directories are searched: no chain of directories that were listed
/// is longer than their number, and one more may be asked for.
pub open spec fn one_more(n: nat) -> nat {
    if n < usize::MAX {
        n + 1
    } else {
        n
    }
}

fn depth_for(n: usize) -> (r: usize)
    ensures
        r == one_more(n as nat),
{
    if n < usize::MAX {
        n + 1
    } else {
        n
    }
}

/// The manifest of the workspace member that contains `source`, and the
/// warnings on the way.
pub open spec fn member_manifest(
    disk: DiskView,
    root: DirPathView,
    workspace: ValueView,
    source: DirPathView,
) -> (Option<DirPathView>, Seq<Seq<char>>) {
    let source_dir = match path::parent_of(source) {
        Some(p) => p,
        None => source,
    };
    match member_holding(
        disk,
        root,
        members(disk, root, member_patterns(workspace)),
        source_dir,
        0,
    ) {
        Some(m) => (Some(m), Seq::empty()),
        None => (
            searched(disk, root, source_dir, one_more(disk.lists.len())),
            seq![
                "⚠️  workspace at '"@ + path::shown(root) + "' has no matching member for '"@
                    + path::shown(source) + "'; searching all subdirectories"@,
            ],
        ),
    }
}

fn collect_texts(arr: &Vec<Value>) -> (r: Vec<String>)
    ensures
        r.deep_view() == texts_of(arr.deep_view()),
{
    let ghost all = arr.deep_view();
    let mut out: Vec<String> = none();
    let mut i: usize = 0;
    assert(all.take(0) =~= Seq::empty());
    while i < arr.len()
        invariant
            i <= arr.len(),
            all == arr.deep_view(),
            out.deep_view() == texts_of(all.take(i as int)),
        decreases arr.len() - i,
    {
        assert(all.take(i + 1).drop_last() =~= all.take(i as int));
        assert(all.take(i + 1).last() == arr@[i as int].deep_view());
        if let Some(s) = arr[i].as_str() {
            put(&mut out, s);
        }
        i += 1;
    }
    assert(all.take(i as int) =~= all);
    out
}

fn read_member_patterns(workspace: &Value) -> (r: Vec<String>)
    ensures
        r.deep_view() == member_patterns(workspace.deep_view()),
{
    match workspace.get("workspace") {
        Some(w) => match w.get_array("members") {
            Some(arr) => collect_texts(arr),
            None => none(),
        },
        None => none(),
    }
}

fn collect_listed(prefix: &str, entries: &Vec<Listed>) -> (r: Vec<String>)
    ensures
        r.deep_view() == listed_members(prefix@, entries.deep_view()),
{
    let ghost all = entries.deep_view();
    let mut out: Vec<String> = none();
    let mut i: usize = 0;
    assert(all.take(0) =~= Seq::empty());
    while i < entries.len()
        invariant
            i <= entries.len(),
            all == entries.deep_view(),
            out.deep_view() == listed_members(prefix@, all.take(i as int)),
        decreases entries.len() - i,
    {
        assert(all.take(i + 1).drop_last() =~= all.take(i as int));
        assert(all.take(i + 1).last() == entries@[i as int].deep_view());
        let no_dir = match entries[i].is_dir {
            Some(b) => !b,
            None => false,
        };
        if !no_dir {
            put(&mut out, prefix.to_owned().concat("/").concat(entries[i].name.as_str()));
        }
        i += 1;
    }
    assert(all.take(i as int) =~= all);
    out
}

fn expand_pattern(disk: &Disk, root: &DirPath, pattern: &str) -> (r: Result<Vec<String>, Query>)
    ensures
        disk::asks(r, expanded_question(disk.deep_view(), root.deep_view(), pattern@)),
        match r {
            Ok(m) => m.deep_view() == expanded(disk.deep_view(), root.deep_view(), pattern@),
            Err(q) => disk.deep_view().lacks(q.deep_view()),
        },
{
    let star: usize = text::position_of(pattern, '*');
    if star >= pattern.unicode_len() {
        return Ok(single(pattern.to_owned()));
    }
    let prefix = pattern.substring_char(0, star);
    assert(pattern@.subrange(0, star as int) =~= pattern@.take(star as int));
    match disk.list(&root.join(prefix)) {
        Ok(Some(entries)) => Ok(collect_listed(prefix, &entries)),
        Ok(None) => Ok(none()),
        Err(q) => Err(q),
    }
}

fn expand_patterns(disk: &Disk, root: &DirPath, patterns: &Vec<String>) -> (r: Result<
    Vec<String>,
    Query,
>)
    ensures
        disk::asks(
            r,
            members_question(disk.deep_view(), root.deep_view(), patterns.deep_view(), 0),
        ),
        match r {
            Ok(m) => m.deep_view() == members(
                disk.deep_view(),
                root.deep_view(),
                patterns.deep_view(),
            ),
            Err(q) => disk.deep_view().lacks(q.deep_view()),
        },
{
    let ghost d = disk.deep_view();
    let ghost rt = root.deep_view();
    let ghost all = patterns.deep_view();
    let mut out: Vec<String> = none();
    let mut i: usize = 0;
    assert(all.take(0) =~= Seq::empty());
    while i < patterns.len()
        invariant
            i <= patterns.len(),
            d == disk.deep_view(),
            rt == root.deep_view(),
            all == patterns.deep_view(),
            out.deep_view() == members(d, rt, all.take(i as int)),
            members_question(d, rt, all, 0) == members_question(d, rt, all, i as int),
        decreases patterns.len() - i,
    {
        assert(all.take(i + 1).drop_last() =~= all.take(i as int));
        assert(all.take(i + 1).last() == patterns@[i as int]@);
        match expand_pattern(disk, root, patterns[i].as_str()) {
            Ok(m) => {
                put_all(&mut out, m);
            },
            Err(q) => {
                return Err(q);
            },
        }
        i += 1;
    }
    assert(all.take(i as int) =~= all);
    Ok(out)
}

fn find_member_holding(
    disk: &Disk,
    root: &DirPath,
    names: &Vec<String>,
    source_dir: &DirPath,
) -> (r: Result<Option<DirPath>, Query>)
    ensures
        disk::asks(
            r,
            holding_question(
                disk.deep_view(),
                root.deep_view(),
                names.deep_view(),
                source_dir.deep_view(),
                0,
            ),
        ),
        match r {
            Ok(m) => m.deep_view() == member_holding(
                disk.deep_view(),
                root.deep_view(),
                names.deep_view(),
                source_dir.deep_view(),
                0,
            ),
            Err(q) => disk.deep_view().lacks(q.deep_view()),
        },
{
    let ghost d = disk.deep_view();
    let ghost rt = root.deep_view();
    let ghost all = names.deep_view();
    let ghost sd = source_dir.deep_view();
    let mut i: usize = 0;
    while i < names.len()
        invariant
            i <= names.len(),
            d == disk.deep_view(),
            rt == root.deep_view(),
            all == names.deep_view(),
            sd == source_dir.deep_view(),
            member_holding(d, rt, all, sd, 0) == member_holding(d, rt, all, sd, i as int),
            holding_question(d, rt, all, sd, 0) == holding_question(d, rt, all, sd, i as int),
        decreases names.len() - i,
    {
        assert(all[i as int] == names@[i as int]@);
        let dir = root.join(names[i].as_str());
        let is_dir = match disk.is_dir(&dir) {
            Ok(b) => b,
            Err(q) => {
                return Err(q);
            },
        };
        if is_dir && source_dir.starts_with(&dir) {
            let manifest = dir.join("Cargo.toml");
            match disk.present(&manifest) {
                Ok(true) => {
                    return Ok(Some(manifest));
                },
                Ok(false) => {},
                Err(q) => {
                    return Err(q);
                },
            }
        }
        i += 1;
    }
    Ok(None)
}

fn reads_as_virtual(disk: &Disk, p: &DirPath) -> (r: Result<bool, Query>)
    ensures
        disk::asks(r, disk.deep_view().question(QueryView::Read(p.deep_view()))),
        match r {
            Ok(b) => b == reads_virtual(disk.deep_view(), p.deep_view()),
            Err(q) => disk.deep_view().lacks(q.deep_view()),
        },
{
    match disk.read(p) {
        Ok(Contents::Text(content)) => match read_toml(content.as_str()) {
            Ok(v) => Ok(is_virtual_manifest(&v)),
            Err(_) => Ok(false),
        },
        Ok(Contents::Failed(_)) => Ok(false),
        Err(q) => Err(q),
    }
}

#[verifier::loop_isolation(false)]
fn search_recursive(disk: &Disk, dir: &DirPath, target_dir: &DirPath, depth: usize) -> (r: Result<
    Option<DirPath>,
    Query,
>)
    ensures
        disk::asks(
            r,
            search_question(
                disk.deep_view(),
                dir.deep_view(),
                target_dir.deep_view(),
                depth as nat,
            ),
        ),
        match r {
            Ok(m) => m.deep_view() == searched(
                disk.deep_view(),
                dir.deep_view(),
                target_dir.deep_view(),
                depth as nat,
            ),
            Err(q) => disk.deep_view().lacks(q.deep_view()),
        },
    decreases depth,
{
    let ghost d = disk.deep_view();
    let ghost dv = dir.deep_view();
    let ghost tv = target_dir.deep_view();
    if depth == 0 {
        return Ok(None);
    }
    // Search children FIRST (depth-first), then check current dir.
    // This ensures we find the deepest matching member manifest rather
    // than returning the workspace root immediately.
    match disk.list(dir) {
        Ok(Some(entries)) => {
            let ghost es = entries.deep_view();
            let mut i: usize = 0;
            while i < entries.len()
                invariant
                    i <= entries.len(),
                    searched_below(d, dv, es, tv, 0, (depth - 1) as nat) == searched_below(
                        d,
                        dv,
                        es,
                        tv,
                        i as int,
                        (depth - 1) as nat,
                    ),
                    below_question(d, dv, es, tv, 0, (depth - 1) as nat) == below_question(
                        d,
                        dv,
                        es,
                        tv,
                        i as int,
                        (depth - 1) as nat,
                    ),
                decreases entries.len() - i,
            {
                assert(es[i as int] == entries@[i as int].deep_view());
                let is_dir = match entries[i].is_dir {
                    Some(b) => b,
                    None => false,
                };
                if is_dir {
                    let child = dir.child(entries[i].name.as_str());
                    match search_recursive(disk, &child, target_dir, depth - 1) {
                        Ok(Some(m)) => {
                            return Ok(Some(m));
                        },
                        Ok(None) => {},
                        Err(q) => {
                            return Err(q);
                        },
                    }
                }
                i += 1;
            }
        },
        Ok(None) => {},
        Err(q) => {
            return Err(q);
        },
    }
    // Check current dir — but skip virtual workspace manifests (no [package]).
    let manifest = dir.join("Cargo.toml");
    match disk.present(&manifest) {
        Ok(true) => {},
        Ok(false) => {
            return Ok(None);
        },
        Err(q) => {
            return Err(q);
        },
    }
    if !target_dir.starts_with(dir) {
        return Ok(None);
    }
    match reads_as_virtual(disk, &manifest) {
        Ok(true) => Ok(None),
        Ok(false) => Ok(Some(manifest)),
        Err(q) => Err(q),
    }
}

/// Given a workspace root directory, try to locate the member crate manifest
/// that contains `source_path`.
pub fn find_member_manifest(
    disk: &Disk,
    workspace_root: &DirPath,
    workspace_value: &Value,
    source_path: &DirPath,
    warnings: &mut Vec<String>,
) -> (r: Result<Option<DirPath>, Query>)
    ensures
        disk::asks(
            r,
            member_question(
                disk.deep_view(),
                workspace_root.deep_view(),
                workspace_value.deep_view(),
                source_path.deep_view(),
            ),
        ),
        match r {
            Ok(m) => {
                let (expected, ws) = member_manifest(
                    disk.deep_view(),
                    workspace_root.deep_view(),
                    workspace_value.deep_view(),
                    source_path.deep_view(),
                );
                m.deep_view() == expected && final(warnings).deep_view() == old(
                    warnings,
                ).deep_view() + ws
            },
            Err(q) => disk.deep_view().lacks(q.deep_view()),
        },
{
    let ghost before = warnings.deep_view();
    assert(before + Seq::<Seq<char>>::empty() =~= before);
    let patterns = read_member_patterns(workspace_value);
    let names = match expand_patterns(disk, workspace_root, &patterns) {
        Ok(n) => n,
        Err(q) => {
            return Err(q);
        },
    };
    // Find the member whose directory contains source_path.
    let source_dir = match source_path.parent() {
        Some(p) => p,
        None => source_path.dup(),
    };
    match find_member_holding(disk, workspace_root, &names, &source_dir) {
        Ok(Some(m)) => {
            return Ok(Some(m));
        },
        Ok(None) => {},
        Err(q) => {
            return Err(q);
        },
    }
    // Fallback: recursively search all subdirectories for a Cargo.toml that
    // contains source_path.  This handles nested workspace members (e.g.
    // `methods/guest`) when the explicit `members` list is absent/mismatched.
    let w = "⚠️  workspace at '".to_owned().concat(workspace_root.display().as_str()).concat(
        "' has no matching member for '",
    ).concat(source_path.display().as_str()).concat("'; searching all subdirectories");
    let ghost wv = w@;
    put(warnings, w);
    assert(warnings.deep_view() =~= before + seq![wv]);
    search_recursive(disk, workspace_root, &source_dir, depth_for(disk.lists.len()))
}

// ── Path-dependency walk (no subprocess) ─────────────────────────────────

/// What a walk over path dependencies has found.
pub struct Walk {
    /// The dependency directories, in order of discovery.
    pub dirs: Vec<DirPath>,
    /// The canonical directories of the manifests looked at.
    pub visited: Vec<DirPath>,
    pub warnings: Vec<String>,
}

/// What a [`Walk`] holds.
#[verifier::ext_equal]
pub struct WalkView {
    pub dirs: Seq<DirPathView>,
    pub visited: Seq<DirPathView>,
    pub warnings: Seq<Seq<char>>,
}

impl DeepView for Walk {
    type V = WalkView;

    open spec fn deep_view(&self) -> WalkView {
        WalkView {
            dirs: self.dirs.deep_view(),
            visited: self.visited.deep_view(),
            warnings: self.warnings.deep_view(),
        }
    }
}

/// A walk that has not begun.
pub open spec fn no_walk() -> WalkView {
    WalkView { dirs: Seq::empty(), visited: Seq::empty(), warnings: Seq::empty() }
}

/// The dependency table of a manifest, in order.
pub open spec fn dependencies(manifest: ValueView) -> Seq<(Seq<char>, ValueView)> {
    match manifest.field("dependencies"@) {
        Some(ValueView::Object(fields)) => fields,
        _ => Seq::empty(),
    }
}

/// The warning for a path dependency that is no directory.
pub open spec fn missing_dir(name: Seq<char>, dir: DirPathView) -> Seq<char> {
    "path dependency '"@ + name + "' points to non-existent directory: "@ + path::shown(dir)
}

/// The walk after the manifest at `m`, path dependencies followed `depth`
/// manifests deep. A directory is entered once, by its canonical path.
pub open spec fn walked(disk: DiskView, m: DirPathView, w: WalkView, depth: nat) -> WalkView
    decreases depth, 0int,
{
    match path::parent_of(m) {
        None => w,
        Some(dir) => if depth == 0 || w.visited.contains(disk.canonical(dir)) {
            w
        } else {
            let entered = WalkView { visited: w.visited.push(disk.canonical(dir)), ..w };
            match manifest_toml(disk, m) {
                Err(warning) => WalkView { warnings: entered.warnings.push(warning), ..entered },
                Ok(v) => if is_virtual(v) {
                    entered
                } else {
                    walked_deps(disk, dir, dependencies(v), 0, entered, (depth - 1) as nat)
                },
            }
        },
    }
}

/// The walk after the dependencies from `from` on of the manifest in `dir`.
pub open spec fn walked_deps(
    disk: DiskView,
    dir: DirPathView,
    deps: Seq<(Seq<char>, ValueView)>,
    from: int,
    w: WalkView,
    depth: nat,
) -> WalkView
    decreases depth, 1int, deps.len() - from,
{
    if from < 0 || from >= deps.len() {
        w
    } else {
        let next = match deps[from].1.text_at("path"@) {
            None => w,
            Some(rel) => {
                let dep_dir = path::joined(dir, rel);
                if disk.kind(dep_dir) != Kind::Dir {
                    WalkView {
                        warnings: w.warnings.push(
                            "⚠️  "@ + missing_dir(deps[from].0, dep_dir),
                        ),
                        ..w
                    }
                } else if w.visited.contains(disk.canonical(dep_dir)) {
                    w
                } else {
                    let found = WalkView { dirs: w.dirs.push(dep_dir), ..w };
                    let manifest = path::joined(dep_dir, "Cargo.toml"@);
                    if disk.present(manifest) {
                        walked(disk, manifest, found, depth)
                    } else {
                        found
                    }
                }
            },
        };
        walked_deps(disk, dir, deps, from + 1, next, depth)
    }
}

/// The walk over the path dependencies of the manifest at `m`. No chain of
/// manifests that does not repeat is longer than the list of paths that were
/// asked for, and one more may be asked for.
pub open spec fn path_walk(disk: DiskView, m: DirPathView) -> WalkView {
    walked(disk, m, no_walk(), one_more(disk.kinds.len()))
}

/// Whether a list holds a path.
pub fn holds_path(list: &Vec<DirPath>, p: &DirPath) -> (r: bool)
    ensures
        r == list.deep_view().contains(p.deep_view()),
{
    let ghost all = list.deep_view();
    let mut i: usize = 0;
    while i < list.len()
        invariant
            i <= list.len(),
            all == list.deep_view(),
            forall|j: int| 0 <= j < i ==> all[j] != p.deep_view(),
        decreases list.len() - i,
    {
        if list[i].same(p) {
            assert(all[i as int] == p.deep_view());
            return true;
        }
        i += 1;
    }
    false
}

fn get_dependencies<'a>(manifest: &'a Value) -> (r: Option<&'a Vec<(String, Value)>>)
    ensures
        match r {
            Some(fields) => fields.deep_view() == dependencies(manifest.deep_view()),
            None => dependencies(manifest.deep_view()) == Seq::<(Seq<char>, ValueView)>::empty(),
        },
{
    broadcast use value::parts_view;

    match manifest.get("dependencies") {
        Some(v) => match v {
            Value::Object(fields) => Some(fields),
            _ => None,
        },
        None => None,
    }
}

fn missing_dir_warning(name: &str, dir: &DirPath) -> (r: String)
    ensures
        r@ == missing_dir(name@, dir.deep_view()),
{
    "path dependency '".to_owned().concat(name).concat(
        "' points to non-existent directory: ",
    ).concat(dir.display().as_str())
}

/// Recursively extract path-based dependencies from a manifest, following
/// transitive path deps.  `visited` tracks canonicalised directories to avoid
/// infinite loops.
pub fn resolve_path_deps_recursive(
    disk: &Disk,
    manifest: &DirPath,
    walk: &mut Walk,
    depth: usize,
) -> (r: Result<(), Query>)
    ensures
        disk::asks(
            r,
            walk_question(
                disk.deep_view(),
                manifest.deep_view(),
                old(walk).deep_view(),
                depth as nat,
            ),
        ),
        match r {
            Ok(_) => final(walk).deep_view() == walked(
                disk.deep_view(),
                manifest.deep_view(),
                old(walk).deep_view(),
                depth as nat,
            ),
            Err(q) => disk.deep_view().lacks(q.deep_view()),
        },
    decreases depth, 0int,
{
    let dir = match manifest.parent() {
        Some(d) => d,
        None => {
            return Ok(());
        },
    };
    // Deduplicate by canonical path.
    let canonical = match disk.canonical(&dir) {
        Ok(c) => c,
        Err(q) => {
            return Err(q);
        },
    };
    if depth == 0 || holds_path(&walk.visited, &canonical) {
        return Ok(());
    }
    put(&mut walk.visited, canonical);
    let v = match read_manifest_toml(disk, manifest) {
        Ok(Ok(v)) => v,
        Ok(Err(warning)) => {
            put(&mut walk.warnings, warning);
            return Ok(());
        },
        Err(q) => {
            return Err(q);
        },
    };
    // Skip workspace roots — they have no [dependencies].
    if is_virtual_manifest(&v) {
        return Ok(());
    }
    match get_dependencies(&v) {
        Some(deps) => walk_deps(disk, &dir, deps, walk, depth - 1),
        None => Ok(()),
    }
}

#[verifier::loop_isolation(false)]
fn walk_deps(
    disk: &Disk,
    dir: &DirPath,
    deps: &Vec<(String, Value)>,
    walk: &mut Walk,
    depth: usize,
) -> (r: Result<(), Query>)
    ensures
        disk::asks(
            r,
            deps_question(
                disk.deep_view(),
                dir.deep_view(),
                deps.deep_view(),
                0,
                old(walk).deep_view(),
                depth as nat,
            ),
        ),
        match r {
            Ok(_) => final(walk).deep_view() == walked_deps(
                disk.deep_view(),
                dir.deep_view(),
                deps.deep_view(),
                0,
                old(walk).deep_view(),
                depth as nat,
            ),
            Err(q) => disk.deep_view().lacks(q.deep_view()),
        },
    decreases depth, 1int,
{
    let ghost d = disk.deep_view();
    let ghost dv = dir.deep_view();
    let ghost all = deps.deep_view();
    let ghost start = walk.deep_view();
    let mut i: usize = 0;
    while i < deps.len()
        invariant
            i <= deps.len(),
            walked_deps(d, dv, all, 0, start, depth as nat) == walked_deps(
                d,
                dv,
                all,
                i as int,
                walk.deep_view(),
                depth as nat,
            ),
            deps_question(d, dv, all, 0, start, depth as nat) == deps_question(
                d,
                dv,
                all,
                i as int,
                walk.deep_view(),
                depth as nat,
            ),
        decreases deps.len() - i,
    {
        assert(all[i as int] == deps@[i as int].deep_view());
        if let Some(rel) = deps[i].1.get_str("path") {
            let dep_dir = dir.join(rel.as_str());
            let is_dir = match disk.is_dir(&dep_dir) {
                Ok(b) => b,
                Err(q) => {
                    return Err(q);
                },
            };
            if !is_dir {
                put(
                    &mut walk.warnings,
                    "⚠️  ".to_owned().concat(
                        missing_dir_warning(deps[i].0.as_str(), &dep_dir).as_str(),
                    ),
                );
            } else {
                // Deduplicate by canonical path.
                let canonical = match disk.canonical(&dep_dir) {
                    Ok(c) => c,
                    Err(q) => {
                        return Err(q);
                    },
                };
                if !holds_path(&walk.visited, &canonical) {
                    put(&mut walk.dirs, dep_dir.dup());
                    // Recurse into the dependency's own Cargo.toml for transitive deps.
                    let manifest = dep_dir.join("Cargo.toml");
                    match disk.present(&manifest) {
                        Ok(true) => match resolve_path_deps_recursive(
                            disk,
                            &manifest,
                            walk,
                            depth,
                        ) {
                            Ok(_) => {},
                            Err(q) => {
                                return Err(q);
                            },
                        },
                        Ok(false) => {},
                        Err(q) => {
                            return Err(q);
                        },
                    }
                }
            }
        }
        i += 1;
    }
    Ok(())
}

fn walk_path_deps(disk: &Disk, manifest: &DirPath) -> (r: Result<Walk, Query>)
    ensures
        disk::asks(r, path_walk_question(disk.deep_view(), manifest.deep_view())),
        match r {
            Ok(w) => w.deep_view() == path_walk(disk.deep_view(), manifest.deep_view()),
            Err(q) => disk.deep_view().lacks(q.deep_view()),
        },
{
    let mut walk = Walk { dirs: none(), visited: none(), warnings: none() };
    match resolve_path_deps_recursive(disk, manifest, &mut walk, depth_for(disk.kinds.len())) {
        Ok(_) => Ok(walk),
        Err(q) => Err(q),
    }
}

/// Local path-dependency dirs of `manifest`, transitively. The slot
/// scan uses this: path deps are consumer-owned by layout, while git
/// and registry dependencies must never satisfy of steal a slot
/// binding.
pub fn path_dep_dirs(disk: &Disk, manifest: &DirPath) -> (r: Result<Vec<DirPath>, Query>)
    ensures
        disk::asks(r, path_walk_question(disk.deep_view(), manifest.deep_view())),
        match r {
            Ok(dirs) => dirs.deep_view() == path_walk(
                disk.deep_view(),
                manifest.deep_view(),
            ).dirs,
            Err(q) => disk.deep_view().lacks(q.deep_view()),
        },
{
    match walk_path_deps(disk, manifest) {
        Ok(w) => Ok(w.dirs),
        Err(q) => Err(q),
    }
}

/// The local path dependencies of the crate that owns `start`.
pub open spec fn owned_path_dirs(disk: DiskView, start: DirPathView) -> Seq<DirPathView> {
    match crate_manifest(disk, start).0 {
        Some(m) => path_walk(disk, m).dirs,
        None => Seq::empty(),
    }
}

/// Local path-dependency dirs of the crate that owns `start`, transitively.
pub fn own_path_dep_dirs(disk: &Disk, start: &DirPath) -> (r: Result<Vec<DirPath>, Query>)
    ensures
        disk::asks(r, owned_paths_question(disk.deep_view(), start.deep_view())),
        match r {
            Ok(dirs) => dirs.deep_view() == owned_path_dirs(disk.deep_view(), start.deep_view()),
            Err(q) => disk.deep_view().lacks(q.deep_view()),
        },
{
    let mut unused: Vec<String> = none();
    match find_crate_manifest(disk, start, &mut unused) {
        Ok(Some(manifest)) => path_dep_dirs(disk, &manifest),
        Ok(None) => Ok(none()),
        Err(q) => Err(q),
    }
}

// ── Cargo metadata layer (git/registry deps) ─────────────────────────────

/// The parsed answer of `cargo metadata`, or the warning for none.
pub open spec fn metadata_value(disk: DiskView, manifest: DirPathView) -> Result<
    ValueView,
    Seq<char>,
> {
    match disk.metadata(manifest) {
        MetadataView::NotStarted(e) => Err("could not run `cargo metadata`: "@ + e),
        MetadataView::Failed(e) => Err("`cargo metadata` failed: "@ + e),
        MetadataView::Output(out) => match value::json_value(out) {
            Ok(v) => Ok(v),
            Err(e) => Err("failed to parse metadata: "@ + e),
        },
    }
}

/// Shared `cargo metadata --format-version 1` answer. Parsed JSON, or
/// the warning when cargo is unavailable, fails, or emits
/// unparseable output.
///
/// Asked `--offline`: this executes inside macro expansion, which must
/// never hit the network. By the time rustc expands the consumer crate,
/// cargo has already fetched its dependencies, so offline resolution
/// succeeds; where it cannot, callers degrade to path-only results.
fn cargo_metadata_json(disk: &Disk, manifest: &DirPath) -> (r: Result<
    Result<Value, String>,
    Query,
>)
    ensures
        disk::asks(r, disk.deep_view().question(QueryView::Metadata(manifest.deep_view()))),
        match r {
            Ok(v) => model::outcome(v) == metadata_value(disk.deep_view(), manifest.deep_view()),
            Err(q) => disk.deep_view().lacks(q.deep_view()),
        },
{
    match disk.metadata(manifest) {
        Ok(Metadata::NotStarted(e)) => Ok(
            Err("could not run `cargo metadata`: ".to_owned().concat(e.as_str())),
        ),
        Ok(Metadata::Failed(e)) => Ok(
            Err("`cargo metadata` failed: ".to_owned().concat(e.as_str())),
        ),
        Ok(Metadata::Output(out)) => match read_json(out.as_str()) {
            Ok(v) => Ok(Ok(v)),
            Err(e) => Ok(Err("failed to parse metadata: ".to_owned().concat(e.as_str()))),
        },
        Err(q) => Err(q),
    }
}

// ── Resolve-tree helpers ─────────────────────────────────────────────────

/// Whether one of the kinds of an edge, from `from` on, is the normal one.
pub open spec fn names_normal(kinds: Seq<ValueView>, from: int) -> bool
    decreases kinds.len() - from,
{
    if from < 0 || from >= kinds.len() {
        false
    } else {
        kinds[from].field("kind"@) == Some(ValueView::Null) || names_normal(kinds, from + 1)
    }
}

/// Whether an edge of the resolve tree is a normal dependency; one that does
/// not say counts as normal.
pub open spec fn normal_edge(dep: ValueView) -> bool {
    match dep.elements_at("dep_kinds"@) {
        Some(kinds) => names_normal(kinds, 0),
        None => true,
    }
}

/// The packages the normal edges among `deps` lead to.
pub open spec fn targets(deps: Seq<ValueView>) -> Seq<Seq<char>>
    decreases deps.len(),
{
    if deps.len() == 0 {
        Seq::empty()
    } else {
        let before = targets(deps.drop_last());
        match deps.last().text_at("pkg"@) {
            Some(id) => if normal_edge(deps.last()) {
                before.push(id)
            } else {
                before
            },
            None => before,
        }
    }
}

/// The packages a node depends on by normal edges.
pub open spec fn node_targets(node: ValueView) -> Seq<Seq<char>> {
    match node.elements_at("deps"@) {
        Some(deps) => targets(deps),
        None => Seq::empty(),
    }
}

/// The nodes of the resolve tree.
pub open spec fn resolve_nodes(meta: ValueView) -> Option<Seq<ValueView>> {
    match meta.field("resolve"@) {
        Some(r) => r.elements_at("nodes"@),
        None => None,
    }
}

/// The last node called `id`.
pub open spec fn node_of(nodes: Seq<ValueView>, id: Seq<char>) -> Option<ValueView>
    decreases nodes.len(),
{
    if nodes.len() == 0 {
        None
    } else if nodes.last().text_at("id"@) == Some(id) {
        Some(nodes.last())
    } else {
        node_of(nodes.drop_last(), id)
    }
}

/// The packages `id` depends on by normal edges.
pub open spec fn next_of(nodes: Seq<ValueView>, id: Seq<char>) -> Seq<Seq<char>> {
    match node_of(nodes, id) {
        Some(node) => node_targets(node),
        None => Seq::empty(),
    }
}

/// Whether a normal edge leads from one package to another.
pub open spec fn leads(nodes: Seq<ValueView>, user: Seq<char>, id: Seq<char>) -> bool {
    next_of(nodes, user).contains(id)
}

/// Whether `steps` packages stand between `root` and `id` on a path of normal
/// edges.
pub open spec fn reached_in(nodes: Seq<ValueView>, root: Seq<char>, id: Seq<char>, steps: nat) -> bool
    decreases steps,
{
    if steps == 0 {
        leads(nodes, root, id)
    } else {
        exists|user: Seq<char>| #[trigger]
            leads(nodes, user, id) && reached_in(nodes, root, user, (steps - 1) as nat)
    }
}

/// Whether a path of normal edges leads from `root` to `id`.
pub open spec fn is_reachable(nodes: Seq<ValueView>, root: Seq<char>, id: Seq<char>) -> bool {
    exists|steps: nat| reached_in(nodes, root, id, steps)
}

/// Whether `id` is a runtime dependency of `root`: another package that a path
/// of normal edges leads to.
pub open spec fn is_runtime_dep(nodes: Seq<ValueView>, root: Seq<char>, id: Seq<char>) -> bool {
    id != root && is_reachable(nodes, root, id)
}

/// Whether a package of the metadata is the crate of `manifest`.
pub open spec fn owns(disk: DiskView, pkg: ValueView, manifest: DirPathView) -> bool {
    match pkg.text_at("manifest_path"@) {
        Some(mp) => match (
            disk.canonical_form(manifest),
            disk.canonical_form(path::of_text(mp)),
        ) {
            (Some(a), Some(b)) => a == b,
            _ => false,
        },
        None => false,
    }
}

/// The id of the first package, from `from` on, that is the crate of `manifest`.
pub open spec fn owner_from(
    disk: DiskView,
    packages: Seq<ValueView>,
    manifest: DirPathView,
    from: int,
) -> Option<Seq<char>>
    decreases packages.len() - from,
{
    if from < 0 || from >= packages.len() {
        None
    } else if owns(disk, packages[from], manifest) {
        packages[from].text_at("id"@)
    } else {
        owner_from(disk, packages, manifest, from + 1)
    }
}

/// The id of the crate of `manifest`, or the root of the resolve tree.
pub open spec fn root_id(disk: DiskView, meta: ValueView, manifest: DirPathView) -> Option<
    Seq<char>,
> {
    match meta.elements_at("packages"@) {
        None => None,
        Some(packages) => match owner_from(disk, packages, manifest, 0) {
            Some(id) => Some(id),
            None => match meta.field("resolve"@) {
                Some(r) => r.text_at("root"@),
                None => None,
            },
        },
    }
}

/// Whether the metadata lets a package count as a runtime dependency: it is one,
/// or nothing says what is.
pub open spec fn counts(
    disk: DiskView,
    meta: ValueView,
    manifest: DirPathView,
    id: Seq<char>,
) -> bool {
    match (resolve_nodes(meta), root_id(disk, meta, manifest)) {
        (Some(nodes), Some(root)) => is_runtime_dep(nodes, root, id),
        _ => true,
    }
}

/// The ids of the workspace members.
pub open spec fn member_ids(meta: ValueView) -> Seq<Seq<char>> {
    match meta.elements_at("workspace_members"@) {
        Some(arr) => texts_of(arr),
        None => Seq::empty(),
    }
}

/// The packages of the metadata.
pub open spec fn packages_of(meta: ValueView) -> Seq<ValueView> {
    match meta.elements_at("packages"@) {
        Some(packages) => packages,
        None => Seq::empty(),
    }
}

/// The directory a package adds to the transitive dependencies.
pub open spec fn package_dir(
    disk: DiskView,
    meta: ValueView,
    manifest: DirPathView,
    pkg: ValueView,
) -> Option<DirPathView> {
    let id = match pkg.text_at("id"@) {
        Some(id) => id,
        None => Seq::empty(),
    };
    if member_ids(meta).contains(id) || !counts(disk, meta, manifest, id) || owns(
        disk,
        pkg,
        manifest,
    ) {
        None
    } else {
        match pkg.text_at("manifest_path"@) {
            Some(mp) => path::parent_of(path::of_text(mp)),
            None => None,
        }
    }
}

/// The directories the packages add to the transitive dependencies.
pub open spec fn package_dirs(
    disk: DiskView,
    meta: ValueView,
    manifest: DirPathView,
    packages: Seq<ValueView>,
) -> Seq<DirPathView>
    decreases packages.len(),
{
    if packages.len() == 0 {
        Seq::empty()
    } else {
        let before = package_dirs(disk, meta, manifest, packages.drop_last());
        match package_dir(disk, meta, manifest, packages.last()) {
            Some(dir) => before.push(dir),
            None => before,
        }
    }
}

/// The manifest of the last package called `id` that has one.
pub open spec fn manifest_of(packages: Seq<ValueView>, id: Seq<char>) -> Option<Seq<char>>
    decreases packages.len(),
{
    if packages.len() == 0 {
        None
    } else if packages.last().text_at("id"@) == Some(id) && packages.last().text_at(
        "manifest_path"@,
    ) is Some {
        packages.last().text_at("manifest_path"@)
    } else {
        manifest_of(packages.drop_last(), id)
    }
}

/// The directories of the packages called `ids`, where they are known.
pub open spec fn dirs_of(packages: Seq<ValueView>, ids: Seq<Seq<char>>) -> Seq<DirPathView>
    decreases ids.len(),
{
    if ids.len() == 0 {
        Seq::empty()
    } else {
        let before = dirs_of(packages, ids.drop_last());
        match manifest_of(packages, ids.last()) {
            Some(mp) => match path::parent_of(path::of_text(mp)) {
                Some(dir) => before.push(dir),
                None => before,
            },
            None => before,
        }
    }
}

/// The first node called `id`, from `from` on.
pub open spec fn first_node(nodes: Seq<ValueView>, id: Seq<char>, from: int) -> Option<ValueView>
    decreases nodes.len() - from,
{
    if from < 0 || from >= nodes.len() {
        None
    } else if nodes[from].text_at("id"@) == Some(id) {
        Some(nodes[from])
    } else {
        first_node(nodes, id, from + 1)
    }
}

/// The directories of the crate's depth-1 normal dependencies.
pub open spec fn direct_package_dirs(
    disk: DiskView,
    meta: ValueView,
    manifest: DirPathView,
) -> Seq<DirPathView> {
    match (root_id(disk, meta, manifest), resolve_nodes(meta)) {
        (Some(root), Some(nodes)) => match first_node(nodes, root, 0) {
            Some(node) => dirs_of(packages_of(meta), node_targets(node)),
            None => Seq::empty(),
        },
        _ => Seq::empty(),
    }
}

/// True when a resolve-tree edge carries the normal dependency kind
/// (`kind == null` in cargo metadata's JSON). Edges without `dep_kinds`
/// count as normal so missing data widens rather than silently drops.
#[verifier::loop_isolation(false)]
pub fn is_normal_dep_edge(dep: &Value) -> (r: bool)
    ensures
        r == normal_edge(dep.deep_view()),
{
    match dep.get_array("dep_kinds") {
        Some(kinds) => {
            let ghost all = kinds.deep_view();
            let mut i: usize = 0;
            while i < kinds.len()
                invariant
                    i <= kinds.len(),
                    all == kinds.deep_view(),
                    names_normal(all, 0) == names_normal(all, i as int),
                decreases kinds.len() - i,
            {
                assert(all[i as int] == kinds@[i as int].deep_view());
                if let Some(k) = kinds[i].get("kind") {
                    if let Value::Null = k {
                        return true;
                    }
                }
                i += 1;
            }
            false
        },
        None => true,
    }
}

fn edge_targets(node: &Value) -> (r: Vec<String>)
    ensures
        r.deep_view() == node_targets(node.deep_view()),
{
    match node.get_array("deps") {
        Some(deps) => {
            let ghost all = deps.deep_view();
            let mut out: Vec<String> = none();
            let mut i: usize = 0;
            assert(all.take(0) =~= Seq::empty());
            while i < deps.len()
                invariant
                    i <= deps.len(),
                    all == deps.deep_view(),
                    out.deep_view() == targets(all.take(i as int)),
                decreases deps.len() - i,
            {
                assert(all.take(i + 1).drop_last() =~= all.take(i as int));
                assert(all.take(i + 1).last() == deps@[i as int].deep_view());
                if is_normal_dep_edge(&deps[i]) {
                    if let Some(id) = deps[i].get_str("pkg") {
                        put(&mut out, id);
                    }
                }
                i += 1;
            }
            assert(all.take(i as int) =~= all);
            out
        },
        None => none(),
    }
}

fn has_id(node: &Value, id: &str) -> (r: bool)
    ensures
        r == (node.deep_view().text_at("id"@) == Some(id@)),
{
    match node.get_str("id") {
        Some(s) => text::same(s.as_str(), id),
        None => false,
    }
}

fn targets_of(nodes: &Vec<Value>, id: &str) -> (r: Vec<String>)
    ensures
        r.deep_view() == next_of(nodes.deep_view(), id@),
{
    let ghost all = nodes.deep_view();
    let mut i: usize = nodes.len();
    assert(all.take(i as int) =~= all);
    while i > 0
        invariant
            i <= nodes.len(),
            all == nodes.deep_view(),
            node_of(all, id@) == node_of(all.take(i as int), id@),
        decreases i,
    {
        i -= 1;
        assert(all.take(i + 1).drop_last() =~= all.take(i as int));
        assert(all.take(i + 1).last() == nodes@[i as int].deep_view());
        if has_id(&nodes[i], id) {
            return edge_targets(&nodes[i]);
        }
    }
    none()
}

/// The packages all nodes depend on by normal edges.
spec fn every_target(nodes: Seq<ValueView>) -> Seq<Seq<char>>
    decreases nodes.len(),
{
    if nodes.len() == 0 {
        Seq::empty()
    } else {
        every_target(nodes.drop_last()) + node_targets(nodes.last())
    }
}

proof fn next_is_target(nodes: Seq<ValueView>, user: Seq<char>, id: Seq<char>)
    requires
        leads(nodes, user, id),
    ensures
        every_target(nodes).contains(id),
    decreases nodes.len(),
{
    if nodes.len() > 0 {
        let before = every_target(nodes.drop_last());
        let last = node_targets(nodes.last());
        if nodes.last().text_at("id"@) == Some(user) {
            let k = choose|k: int| 0 <= k < last.len() && last[k] == id;
            assert((before + last)[before.len() + k] == id);
        } else {
            next_is_target(nodes.drop_last(), user, id);
            let k = choose|k: int| 0 <= k < before.len() && before[k] == id;
            assert((before + last)[k] == id);
        }
    }
}

/// What is known while packages are collected: the first `at` of `found` have
/// had their own dependencies added.
spec fn collecting(
    nodes: Seq<ValueView>,
    root: Seq<char>,
    found: Seq<Seq<char>>,
    at: int,
) -> bool {
    &&& 0 <= at <= found.len()
    &&& found.no_duplicates()
    &&& forall|i: int| 0 <= i < found.len() ==> is_reachable(nodes, root, #[trigger] found[i])
    &&& forall|i: int| 0 <= i < found.len() ==> every_target(nodes).contains(#[trigger] found[i])
    &&& forall|id: Seq<char>| #[trigger] leads(nodes, root, id) ==> found.contains(id)
    &&& forall|i: int, id: Seq<char>|
        0 <= i < at && #[trigger] leads(nodes, #[trigger] found[i], id) ==> found.contains(id)
}

proof fn collected_all(
    nodes: Seq<ValueView>,
    root: Seq<char>,
    found: Seq<Seq<char>>,
    id: Seq<char>,
    steps: nat,
)
    requires
        collecting(nodes, root, found, found.len() as int),
        reached_in(nodes, root, id, steps),
    ensures
        found.contains(id),
    decreases steps,
{
    if steps > 0 {
        let user = choose|user: Seq<char>| #[trigger]
            leads(nodes, user, id) && reached_in(nodes, root, user, (steps - 1) as nat);
        collected_all(nodes, root, found, user, (steps - 1) as nat);
        let i = choose|i: int| 0 <= i < found.len() && found[i] == user;
        assert(leads(nodes, found[i], id));
    }
}

proof fn few(found: Seq<Seq<char>>, all: Seq<Seq<char>>)
    requires
        found.no_duplicates(),
        forall|i: int| 0 <= i < found.len() ==> all.contains(#[trigger] found[i]),
    ensures
        found.len() <= all.len(),
{
    found.unique_seq_to_set();
    all.lemma_cardinality_of_set();
    vstd::seq_lib::seq_to_set_is_finite(all);
    assert(found.to_set().subset_of(all.to_set())) by {
        assert forall|x: Seq<char>| found.to_set().contains(x) implies all.to_set().contains(x) by {
            let i = choose|i: int| 0 <= i < found.len() && found[i] == x;
            assert(all.contains(found[i]));
        }
    }
    vstd::set_lib::lemma_len_subset(found.to_set(), all.to_set());
}

/// Adds what is new to a list without duplicates.
fn add_new(found: &mut Vec<String>, more: &Vec<String>)
    requires
        old(found).deep_view().no_duplicates(),
    ensures
        final(found).deep_view().no_duplicates(),
        final(found).len() >= old(found).len(),
        forall|i: int|
            0 <= i < old(found).len() ==> #[trigger] final(found).deep_view()[i] == old(
                found,
            ).deep_view()[i],
        forall|x: Seq<char>| #[trigger]
            final(found).deep_view().contains(x) <==> old(found).deep_view().contains(x)
                || more.deep_view().contains(x),
{
    let ghost before = found.deep_view();
    let ghost ms = more.deep_view();
    let mut i: usize = 0;
    while i < more.len()
        invariant
            i <= more.len(),
            ms == more.deep_view(),
            found.deep_view().no_duplicates(),
            found.deep_view().len() >= before.len(),
            forall|k: int| 0 <= k < before.len() ==> #[trigger] found.deep_view()[k] == before[k],
            forall|x: Seq<char>| #[trigger]
                found.deep_view().contains(x) ==> before.contains(x) || ms.contains(x),
            forall|k: int| 0 <= k < i ==> found.deep_view().contains(#[trigger] ms[k]),
        decreases more.len() - i,
    {
        assert(ms[i as int] == more@[i as int]@);
        let ghost was = found.deep_view();
        if !text::holds(found, more[i].as_str()) {
            put(found, more[i].clone());
            proof {
                let now = found.deep_view();
                assert forall|x: Seq<char>| was.contains(x) implies now.contains(x) by {
                    let k = choose|k: int| 0 <= k < was.len() && was[k] == x;
                    assert(now[k] == x);
                }
                assert(now[was.len() as int] == ms[i as int]);
                assert forall|x: Seq<char>| #[trigger] now.contains(x) implies before.contains(x)
                    || ms.contains(x) by {
                    let k = choose|k: int| 0 <= k < now.len() && now[k] == x;
                    if k < was.len() {
                        assert(was[k] == x);
                        assert(was.contains(x));
                    } else {
                        assert(ms.contains(x));
                    }
                }
            }
        }
        i += 1;
    }
    proof {
        let now = found.deep_view();
        assert forall|x: Seq<char>| before.contains(x) || ms.contains(x) implies now.contains(x) by {
            if before.contains(x) {
                let k = choose|k: int| 0 <= k < before.len() && before[k] == x;
                assert(now[k] == x);
            } else {
                let k = choose|k: int| 0 <= k < ms.len() && ms[k] == x;
                assert(now.contains(ms[k]));
            }
        }
    }
}

/// The packages that paths of normal edges lead to from `root`.
fn reachable_ids(nodes: &Vec<Value>, root: &str) -> (r: Vec<String>)
    ensures
        forall|id: Seq<char>| #[trigger]
            r.deep_view().contains(id) <==> is_reachable(nodes.deep_view(), root@, id),
{
    let ghost all = nodes.deep_view();
    let mut found: Vec<String> = none();
    add_new(&mut found, &targets_of(nodes, root));
    let mut at: usize = 0;
    proof {
        let f = found.deep_view();
        assert forall|i: int| 0 <= i < f.len() implies is_reachable(all, root@, #[trigger] f[i])
            && every_target(all).contains(f[i]) by {
            assert(f.contains(f[i]));
            assert(leads(all, root@, f[i]));
            assert(reached_in(all, root@, f[i], 0));
            next_is_target(all, root@, f[i]);
        }
        assert(collecting(all, root@, f, 0));
    }
    while at < found.len()
        invariant
            all == nodes.deep_view(),
            collecting(all, root@, found.deep_view(), at as int),
        decreases every_target(all).len() - at,
    {
        let ghost before = found.deep_view();
        let user = found[at].clone();
        let more = targets_of(nodes, user.as_str());
        add_new(&mut found, &more);
        proof {
            let f = found.deep_view();
            few(before, every_target(all));
            assert(f[at as int] == before[at as int]);
            assert forall|i: int| 0 <= i < f.len() implies is_reachable(
                all,
                root@,
                #[trigger] f[i],
            ) && every_target(all).contains(f[i]) by {
                assert(f.contains(f[i]));
                if before.contains(f[i]) {
                    let k = choose|k: int| 0 <= k < before.len() && before[k] == f[i];
                    assert(is_reachable(all, root@, before[k]));
                } else {
                    assert(leads(all, user@, f[i]));
                    assert(is_reachable(all, root@, before[at as int]));
                    let steps = choose|steps: nat| reached_in(all, root@, user@, steps);
                    assert(reached_in(all, root@, f[i], steps + 1));
                    next_is_target(all, user@, f[i]);
                }
            }
            assert forall|id: Seq<char>| #[trigger] leads(all, root@, id) implies f.contains(id) by {
                assert(before.contains(id));
            }
            assert forall|i: int, id: Seq<char>|
                0 <= i < at + 1 && #[trigger] leads(all, #[trigger] f[i], id) implies f.contains(
                id,
            ) by {
                if i < at {
                    assert(leads(all, before[i], id));
                    assert(before.contains(id));
                } else {
                    assert(more.deep_view().contains(id));
                }
            }
        }
        at += 1;
    }
    proof {
        let f = found.deep_view();
        assert forall|id: Seq<char>| #[trigger] f.contains(id) <==> is_reachable(all, root@, id) by {
            if f.contains(id) {
                let i = choose|i: int| 0 <= i < f.len() && f[i] == id;
                assert(is_reachable(all, root@, f[i]));
            }
            if is_reachable(all, root@, id) {
                let steps = choose|steps: nat| reached_in(all, root@, id, steps);
                collected_all(all, root@, f, id, steps);
            }
        }
    }
    found
}

/// The ids of a list but for one.
fn without(ids: &Vec<String>, id: &str) -> (r: Vec<String>)
    ensures
        forall|x: Seq<char>| #[trigger]
            r.deep_view().contains(x) <==> x != id@ && ids.deep_view().contains(x),
{
    let ghost all = ids.deep_view();
    let mut out: Vec<String> = none();
    let mut i: usize = 0;
    while i < ids.len()
        invariant
            i <= ids.len(),
            all == ids.deep_view(),
            forall|x: Seq<char>| #[trigger]
                out.deep_view().contains(x) <==> x != id@ && all.take(i as int).contains(x),
        decreases ids.len() - i,
    {
        let ghost before = out.deep_view();
        let ghost seen = all.take(i as int);
        let ghost here = all[i as int];
        assert(here == ids@[i as int]@);
        assert(all.take(i + 1) =~= seen.push(here));
        if !text::same(ids[i].as_str(), id) {
            put(&mut out, ids[i].clone());
        }
        proof {
            assert forall|x: Seq<char>| #[trigger]
                out.deep_view().contains(x) <==> x != id@ && all.take(i + 1).contains(x) by {
                member_of_push(before, here, x);
                member_of_push(seen, here, x);
            }
        }
        i += 1;
    }
    assert(all.take(all.len() as int) =~= all);
    out
}

/// What a list holds after a push.
proof fn member_of_push(s: Seq<Seq<char>>, a: Seq<char>, x: Seq<char>)
    ensures
        s.push(a).contains(x) <==> x == a || s.contains(x),
{
    if s.push(a).contains(x) {
        let i = choose|i: int| 0 <= i < s.push(a).len() && s.push(a)[i] == x;
        if i < s.len() {
            assert(s[i] == x);
        }
    }
    if s.contains(x) {
        let i = choose|i: int| 0 <= i < s.len() && s[i] == x;
        assert(s.push(a)[i] == x);
    }
    assert(s.push(a)[s.len() as int] == a);
}

/// Whether a package is the crate of `manifest`.
fn is_owner(disk: &Disk, pkg: &Value, manifest: &DirPath) -> (r: Result<bool, Query>)
    ensures
        disk::asks(r, owns_question(disk.deep_view(), pkg.deep_view(), manifest.deep_view())),
        match r {
            Ok(b) => b == owns(disk.deep_view(), pkg.deep_view(), manifest.deep_view()),
            Err(q) => disk.deep_view().lacks(q.deep_view()),
        },
{
    match pkg.get_str("manifest_path") {
        None => Ok(false),
        Some(mp) => match disk.canonical_form(manifest) {
            Err(q) => Err(q),
            Ok(None) => Ok(false),
            Ok(Some(a)) => match disk.canonical_form(&DirPath::new(mp.as_str())) {
                Err(q) => Err(q),
                Ok(None) => Ok(false),
                Ok(Some(b)) => Ok(a.same(&b)),
            },
        },
    }
}

fn get_resolve_root(meta: &Value) -> (r: Option<String>)
    ensures
        r.deep_view() == match meta.deep_view().field("resolve"@) {
            Some(v) => v.text_at("root"@),
            None => None,
        },
{
    match meta.get("resolve") {
        Some(v) => v.get_str("root"),
        None => None,
    }
}

fn get_nodes(meta: &Value) -> (r: Option<&Vec<Value>>)
    ensures
        r.deep_view() == resolve_nodes(meta.deep_view()),
{
    match meta.get("resolve") {
        Some(v) => v.get_array("nodes"),
        None => None,
    }
}

/// Package id of the crate owning `manifest`, falling back to
/// `resolve.root` for the single-crate case.
pub fn root_package_id(disk: &Disk, meta: &Value, manifest: &DirPath) -> (r: Result<
    Option<String>,
    Query,
>)
    ensures
        disk::asks(r, root_question(disk.deep_view(), meta.deep_view(), manifest.deep_view())),
        match r {
            Ok(id) => id.deep_view() == root_id(
                disk.deep_view(),
                meta.deep_view(),
                manifest.deep_view(),
            ),
            Err(q) => disk.deep_view().lacks(q.deep_view()),
        },
{
    let packages = match meta.get_array("packages") {
        Some(p) => p,
        None => {
            return Ok(None);
        },
    };
    let ghost d = disk.deep_view();
    let ghost m = manifest.deep_view();
    let ghost all = packages.deep_view();
    let mut i: usize = 0;
    while i < packages.len()
        invariant
            i <= packages.len(),
            d == disk.deep_view(),
            m == manifest.deep_view(),
            all == packages.deep_view(),
            meta.deep_view().elements_at("packages"@) == Some(all),
            owner_from(d, all, m, 0) == owner_from(d, all, m, i as int),
            owner_question(d, all, m, 0) == owner_question(d, all, m, i as int),
        decreases packages.len() - i,
    {
        assert(all[i as int] == packages@[i as int].deep_view());
        match is_owner(disk, &packages[i], manifest) {
            Ok(true) => {
                return match packages[i].get_str("id") {
                    Some(id) => Ok(Some(id)),
                    None => Ok(get_resolve_root(meta)),
                };
            },
            Ok(false) => {},
            Err(q) => {
                return Err(q);
            },
        }
        i += 1;
    }
    Ok(get_resolve_root(meta))
}

/// Traverse `resolve.nodes` starting from the node matching `manifest`,
/// following only edges whose `dep_kinds[].kind == null` (normal). Returns
/// the set of reachable package IDs (excluding the root itself), or `None`
/// if the resolve tree is missing so callers fall back to unfiltered
/// behaviour.
pub fn collect_normal_reachable(disk: &Disk, meta: &Value, manifest: &DirPath) -> (r: Result<
    Option<Vec<String>>,
    Query,
>)
    ensures
        disk::asks(
            r,
            reachable_question(disk.deep_view(), meta.deep_view(), manifest.deep_view()),
        ),
        match r {
            Ok(Some(ids)) => match (
                resolve_nodes(meta.deep_view()),
                root_id(disk.deep_view(), meta.deep_view(), manifest.deep_view()),
            ) {
                (Some(nodes), Some(root)) => forall|id: Seq<char>| #[trigger]
                    ids.deep_view().contains(id) <==> is_runtime_dep(nodes, root, id),
                _ => false,
            },
            Ok(None) => resolve_nodes(meta.deep_view()) is None || root_id(
                disk.deep_view(),
                meta.deep_view(),
                manifest.deep_view(),
            ) is None,
            Err(q) => disk.deep_view().lacks(q.deep_view()),
        },
{
    let nodes = match get_nodes(meta) {
        Some(n) => n,
        None => {
            return Ok(None);
        },
    };
    match root_package_id(disk, meta, manifest) {
        Ok(Some(root)) => Ok(Some(without(&reachable_ids(nodes, root.as_str()), root.as_str()))),
        Ok(None) => Ok(None),
        Err(q) => Err(q),
    }
}

/// Transitive runtime (normal-kind) dependency dirs from parsed metadata,
/// excluding workspace members and the crate itself.
pub fn find_dep_dirs_via_cargo_metadata(disk: &Disk, meta: &Value, manifest: &DirPath) -> (r: Result<
    Vec<DirPath>,
    Query,
>)
    ensures
        disk::asks(
            r,
            packages_question(disk.deep_view(), meta.deep_view(), manifest.deep_view()),
        ),
        match r {
            Ok(dirs) => dirs.deep_view() == package_dirs(
                disk.deep_view(),
                meta.deep_view(),
                manifest.deep_view(),
                packages_of(meta.deep_view()),
            ),
            Err(q) => disk.deep_view().lacks(q.deep_view()),
        },
{
    let members = match meta.get_array("workspace_members") {
        Some(arr) => collect_texts(arr),
        None => none(),
    };
    // Walk resolve.nodes from the root, keeping only edges whose dep_kinds
    // include the normal kind (represented as `null` in cargo metadata's
    // JSON) so dev- and build-dependencies stay out of the returned set.
    let reachable = match collect_normal_reachable(disk, meta, manifest) {
        Ok(ids) => ids,
        Err(q) => {
            return Err(q);
        },
    };
    let packages = match meta.get_array("packages") {
        Some(p) => p,
        None => {
            return Ok(none());
        },
    };
    let ghost d = disk.deep_view();
    let ghost mv = meta.deep_view();
    let ghost m = manifest.deep_view();
    let ghost all = packages.deep_view();
    let mut dirs: Vec<DirPath> = none();
    let mut i: usize = 0;
    assert(all.take(0) =~= Seq::empty());
    while i < packages.len()
        invariant
            i <= packages.len(),
            d == disk.deep_view(),
            mv == meta.deep_view(),
            m == manifest.deep_view(),
            all == packages.deep_view(),
            members.deep_view() == member_ids(mv),
            match reachable {
                Some(ids) => forall|id: Seq<char>| #[trigger]
                    ids.deep_view().contains(id) <==> counts(d, mv, m, id),
                None => forall|id: Seq<char>| #[trigger] counts(d, mv, m, id),
            },
            dirs.deep_view() == package_dirs(d, mv, m, all.take(i as int)),
            reachable_question(d, mv, m) is None,
            meta.deep_view().elements_at("packages"@) == Some(all),
            each_question(d, mv, m, all, 0) == each_question(d, mv, m, all, i as int),
        decreases packages.len() - i,
    {
        assert(all.take(i + 1).drop_last() =~= all.take(i as int));
        assert(all.take(i + 1).last() == packages@[i as int].deep_view());
        let pkg = &packages[i];
        let id = match pkg.get_str("id") {
            Some(id) => id,
            None => String::new(),
        };
        assert(pkg.deep_view().text_at("id"@) is None ==> id@ =~= Seq::empty());
        let kept = match &reachable {
            Some(ids) => text::holds(ids, id.as_str()),
            None => true,
        };
        assert(kept == counts(d, mv, m, id@));
        if kept && !text::holds(&members, id.as_str()) {
            if let Some(mp) = pkg.get_str("manifest_path") {
                match is_owner(disk, pkg, manifest) {
                    Ok(true) => {},
                    Ok(false) => {
                        if let Some(dir) = DirPath::new(mp.as_str()).parent() {
                            put(&mut dirs, dir);
                        }
                    },
                    Err(q) => {
                        return Err(q);
                    },
                }
            }
        }
        i += 1;
    }
    assert(all.take(i as int) =~= all);
    Ok(dirs)
}

fn find_manifest_of(packages: &Vec<Value>, id: &str) -> (r: Option<String>)
    ensures
        r.deep_view() == manifest_of(packages.deep_view(), id@),
{
    let ghost all = packages.deep_view();
    let mut i: usize = packages.len();
    assert(all.take(i as int) =~= all);
    while i > 0
        invariant
            i <= packages.len(),
            all == packages.deep_view(),
            manifest_of(all, id@) == manifest_of(all.take(i as int), id@),
        decreases i,
    {
        i -= 1;
        assert(all.take(i + 1).drop_last() =~= all.take(i as int));
        assert(all.take(i + 1).last() == packages@[i as int].deep_view());
        if has_id(&packages[i], id) {
            if let Some(mp) = packages[i].get_str("manifest_path") {
                return Some(mp);
            }
        }
    }
    None
}

fn find_first_node<'a>(nodes: &'a Vec<Value>, id: &str) -> (r: Option<&'a Value>)
    ensures
        r.deep_view() == first_node(nodes.deep_view(), id@, 0),
{
    let ghost all = nodes.deep_view();
    let mut i: usize = 0;
    while i < nodes.len()
        invariant
            i <= nodes.len(),
            all == nodes.deep_view(),
            first_node(all, id@, 0) == first_node(all, id@, i as int),
        decreases nodes.len() - i,
    {
        assert(all[i as int] == nodes@[i as int].deep_view());
        if has_id(&nodes[i], id) {
            return Some(&nodes[i]);
        }
        i += 1;
    }
    None
}

fn dirs_of_packages(packages: &Vec<Value>, ids: &Vec<String>) -> (r: Vec<DirPath>)
    ensures
        r.deep_view() == dirs_of(packages.deep_view(), ids.deep_view()),
{
    let ghost ps = packages.deep_view();
    let ghost all = ids.deep_view();
    let mut dirs: Vec<DirPath> = none();
    let mut i: usize = 0;
    assert(all.take(0) =~= Seq::empty());
    while i < ids.len()
        invariant
            i <= ids.len(),
            ps == packages.deep_view(),
            all == ids.deep_view(),
            dirs.deep_view() == dirs_of(ps, all.take(i as int)),
        decreases ids.len() - i,
    {
        assert(all.take(i + 1).drop_last() =~= all.take(i as int));
        assert(all.take(i + 1).last() == ids@[i as int]@);
        if let Some(mp) = find_manifest_of(packages, ids[i].as_str()) {
            if let Some(dir) = DirPath::new(mp.as_str()).parent() {
                put(&mut dirs, dir);
            }
        }
        i += 1;
    }
    assert(all.take(i as int) =~= all);
    dirs
}

/// Depth-1 normal-kind dependency dirs from parsed metadata. Path deps
/// appear here too; the caller dedups against the manifest walk.
pub fn direct_normal_dep_dirs(disk: &Disk, meta: &Value, manifest: &DirPath) -> (r: Result<
    Vec<DirPath>,
    Query,
>)
    ensures
        disk::asks(r, root_question(disk.deep_view(), meta.deep_view(), manifest.deep_view())),
        match r {
            Ok(dirs) => dirs.deep_view() == direct_package_dirs(
                disk.deep_view(),
                meta.deep_view(),
                manifest.deep_view(),
            ),
            Err(q) => disk.deep_view().lacks(q.deep_view()),
        },
{
    let root = match root_package_id(disk, meta, manifest) {
        Ok(Some(id)) => id,
        Ok(None) => {
            return Ok(none());
        },
        Err(q) => {
            return Err(q);
        },
    };
    let nodes = match get_nodes(meta) {
        Some(n) => n,
        None => {
            return Ok(none());
        },
    };
    match find_first_node(nodes, root.as_str()) {
        Some(node) => {
            let ids = edge_targets(node);
            match meta.get_array("packages") {
                Some(packages) => Ok(dirs_of_packages(packages, &ids)),
                None => Ok(dirs_of_packages(&none(), &ids)),
            }
        },
        None => Ok(none()),
    }
}

// ── The whole graph ──────────────────────────────────────────────────────

/// The direct path dependencies among `deps`, and a warning for each that is
/// no directory.
pub open spec fn direct_paths(
    disk: DiskView,
    dir: DirPathView,
    deps: Seq<(Seq<char>, ValueView)>,
) -> (Seq<DirPathView>, Seq<Seq<char>>)
    decreases deps.len(),
{
    if deps.len() == 0 {
        (Seq::empty(), Seq::empty())
    } else {
        let (dirs, warnings) = direct_paths(disk, dir, deps.drop_last());
        match deps.last().1.text_at("path"@) {
            Some(rel) => {
                let dep_dir = path::joined(dir, rel);
                if disk.kind(dep_dir) == Kind::Dir {
                    (dirs.push(dep_dir), warnings)
                } else {
                    (dirs, warnings.push(missing_dir(deps.last().0, dep_dir)))
                }
            },
            None => (dirs, warnings),
        }
    }
}

/// The canonical forms of paths.
pub open spec fn canonicals(disk: DiskView, dirs: Seq<DirPathView>) -> Seq<DirPathView> {
    dirs.map_values(|d: DirPathView| disk.canonical(d))
}

/// The directories of `more`, from `from` on, behind `dirs`, without those
/// whose canonical path was seen.
pub open spec fn merged(
    disk: DiskView,
    more: Seq<DirPathView>,
    from: int,
    seen: Seq<DirPathView>,
    dirs: Seq<DirPathView>,
) -> Seq<DirPathView>
    decreases more.len() - from,
{
    if from < 0 || from >= more.len() {
        dirs
    } else {
        let c = disk.canonical(more[from]);
        if seen.contains(c) {
            merged(disk, more, from + 1, seen, dirs)
        } else {
            merged(disk, more, from + 1, seen.push(c), dirs.push(more[from]))
        }
    }
}

/// The graph of the crate whose manifest is at `m` and says `v`, with paths
/// relative to `dir`, and the warnings.
pub open spec fn crate_graph(
    disk: DiskView,
    dir: DirPathView,
    m: DirPathView,
    v: ValueView,
    with_metadata: bool,
) -> (DepGraphView, Seq<Seq<char>>) {
    let walk = path_walk(disk, m);
    let (direct, missing) = direct_paths(disk, dir, dependencies(v));
    let warnings = walk.warnings + missing;
    if !with_metadata {
        (
            DepGraphView {
                transitive_dirs: walk.dirs,
                direct_dirs: direct,
                metadata_failure: None,
            },
            warnings,
        )
    } else {
        match metadata_value(disk, m) {
            Ok(meta) => (
                DepGraphView {
                    transitive_dirs: merged(
                        disk,
                        package_dirs(disk, meta, m, packages_of(meta)),
                        0,
                        walk.visited,
                        walk.dirs,
                    ),
                    direct_dirs: merged(
                        disk,
                        direct_package_dirs(disk, meta, m),
                        0,
                        canonicals(disk, direct),
                        direct,
                    ),
                    metadata_failure: None,
                },
                warnings,
            ),
            Err(warning) => (
                DepGraphView {
                    transitive_dirs: walk.dirs,
                    direct_dirs: direct,
                    metadata_failure: Some("cargo metadata failed for "@ + path::shown(m)),
                },
                warnings.push(warning),
            ),
        }
    }
}

/// The dependency graph of the crate owning `start`, and the warnings.
pub open spec fn dep_graph(disk: DiskView, start: DirPathView, with_metadata: bool) -> (
    DepGraphView,
    Seq<Seq<char>>,
) {
    let (found, ws) = crate_manifest(disk, start);
    match found {
        None => (
            no_graph(with_metadata, "no Cargo.toml found above "@ + path::shown(start)),
            ws,
        ),
        Some(m) => match manifest_toml(disk, m) {
            Err(warning) => (
                no_graph(with_metadata, "unreadable manifest at "@ + path::shown(m)),
                ws.push(warning),
            ),
            Ok(v) => match path::parent_of(m) {
                None => (
                    no_graph(
                        with_metadata,
                        "manifest at "@ + path::shown(m) + " has not parent directory"@,
                    ),
                    ws,
                ),
                Some(dir) => if is_virtual(v) {
                    let (member, ws2) = member_manifest(disk, dir, v, start);
                    match member {
                        None => (
                            no_graph(
                                with_metadata,
                                "workspace member manifest for "@ + path::shown(start)
                                    + " not found"@,
                            ),
                            ws + ws2,
                        ),
                        Some(mm) => match manifest_toml(disk, mm) {
                            Err(warning) => (
                                no_graph(
                                    with_metadata,
                                    "unreadable member manifest at "@ + path::shown(mm),
                                ),
                                (ws + ws2).push(warning),
                            ),
                            Ok(mv) => match path::parent_of(mm) {
                                None => (
                                    no_graph(
                                        with_metadata,
                                        "manifest at "@ + path::shown(mm)
                                            + " has not parent directory"@,
                                    ),
                                    ws + ws2,
                                ),
                                Some(own) => {
                                    let (g, ws3) = crate_graph(disk, own, mm, mv, with_metadata);
                                    (g, ws + ws2 + ws3)
                                },
                            },
                        },
                    }
                } else {
                    let (g, ws3) = crate_graph(disk, dir, m, v, with_metadata);
                    (g, ws + ws3)
                },
            },
        },
    }
}

/// Direct path deps straight from the `[dependencies]` table, and a warning for
/// each that is no directory.
pub fn collect_direct_paths(disk: &Disk, dir: &DirPath, v: &Value) -> (r: Result<
    (Vec<DirPath>, Vec<String>),
    Query,
>)
    ensures
        disk::asks(
            r,
            direct_question(
                disk.deep_view(),
                dir.deep_view(),
                dependencies(v.deep_view()),
                0,
            ),
        ),
        match r {
            Ok(x) => x.deep_view() == direct_paths(
                disk.deep_view(),
                dir.deep_view(),
                dependencies(v.deep_view()),
            ),
            Err(q) => disk.deep_view().lacks(q.deep_view()),
        },
{
    let deps = match get_dependencies(v) {
        Some(d) => d,
        None => {
            return Ok((none(), none()));
        },
    };
    let ghost d = disk.deep_view();
    let ghost dv = dir.deep_view();
    let ghost all = deps.deep_view();
    let mut dirs: Vec<DirPath> = none();
    let mut warnings: Vec<String> = none();
    let mut i: usize = 0;
    assert(all.take(0) =~= Seq::empty());
    while i < deps.len()
        invariant
            i <= deps.len(),
            d == disk.deep_view(),
            dv == dir.deep_view(),
            all == deps.deep_view(),
            (dirs.deep_view(), warnings.deep_view()) == direct_paths(d, dv, all.take(i as int)),
            all == dependencies(v.deep_view()),
            direct_question(d, dv, all, 0) == direct_question(d, dv, all, i as int),
        decreases deps.len() - i,
    {
        assert(all.take(i + 1).drop_last() =~= all.take(i as int));
        assert(all.take(i + 1).last() == deps@[i as int].deep_view());
        if let Some(rel) = deps[i].1.get_str("path") {
            let dep_dir = dir.join(rel.as_str());
            match disk.is_dir(&dep_dir) {
                Ok(true) => {
                    put(&mut dirs, dep_dir);
                },
                Ok(false) => {
                    put(&mut warnings, missing_dir_warning(deps[i].0.as_str(), &dep_dir));
                },
                Err(q) => {
                    return Err(q);
                },
            }
        }
        i += 1;
    }
    assert(all.take(i as int) =~= all);
    Ok((dirs, warnings))
}

/// The canonical forms of paths.
pub fn canonicalize_all(disk: &Disk, dirs: &Vec<DirPath>) -> (r: Result<Vec<DirPath>, Query>)
    ensures
        disk::asks(r, canonicals_question(disk.deep_view(), dirs.deep_view(), 0)),
        match r {
            Ok(c) => c.deep_view() == canonicals(disk.deep_view(), dirs.deep_view()),
            Err(q) => disk.deep_view().lacks(q.deep_view()),
        },
{
    let ghost d = disk.deep_view();
    let mut out: Vec<DirPath> = Vec::new();
    let mut i: usize = 0;
    while i < dirs.len()
        invariant
            i <= dirs.len(),
            d == disk.deep_view(),
            out.len() == i,
            canonicals_question(d, dirs.deep_view(), 0) == canonicals_question(
                d,
                dirs.deep_view(),
                i as int,
            ),
            forall|j: int|
                0 <= j < i ==> (#[trigger] out@[j]).deep_view() == d.canonical(
                    dirs@[j].deep_view(),
                ),
        decreases dirs.len() - i,
    {
        match disk.canonical(&dirs[i]) {
            Ok(c) => {
                out.push(c);
            },
            Err(q) => {
                return Err(q);
            },
        }
        i += 1;
    }
    assert(out.deep_view() =~= canonicals(d, dirs.deep_view()));
    Ok(out)
}

fn merge_dirs(disk: &Disk, more: &Vec<DirPath>, seen: &mut Vec<DirPath>, dirs: &mut Vec<DirPath>) -> (r:
    Result<(), Query>)
    ensures
        disk::asks(r, canonicals_question(disk.deep_view(), more.deep_view(), 0)),
        match r {
            Ok(_) => final(dirs).deep_view() == merged(
                disk.deep_view(),
                more.deep_view(),
                0,
                old(seen).deep_view(),
                old(dirs).deep_view(),
            ),
            Err(q) => disk.deep_view().lacks(q.deep_view()),
        },
{
    let ghost d = disk.deep_view();
    let ghost all = more.deep_view();
    let ghost start = merged(d, all, 0, seen.deep_view(), dirs.deep_view());
    let mut i: usize = 0;
    while i < more.len()
        invariant
            i <= more.len(),
            d == disk.deep_view(),
            all == more.deep_view(),
            start == merged(d, all, i as int, seen.deep_view(), dirs.deep_view()),
            canonicals_question(d, all, 0) == canonicals_question(d, all, i as int),
        decreases more.len() - i,
    {
        assert(all[i as int] == more@[i as int].deep_view());
        match disk.canonical(&more[i]) {
            Ok(c) => {
                if !holds_path(seen, &c) {
                    put(seen, c);
                    put(dirs, more[i].dup());
                }
            },
            Err(q) => {
                return Err(q);
            },
        }
        i += 1;
    }
    Ok(())
}

/// The dependency graph of the crate whose manifest is at `manifest` and says
/// `value`, with paths relative to `manifest_dir`.
pub fn resolve_crate_graph(
    disk: &Disk,
    manifest_dir: &DirPath,
    manifest: &DirPath,
    value: &Value,
    with_cargo_metadata: bool,
    warnings: &mut Vec<String>,
) -> (r: Result<DepGraph, Query>)
    ensures
        disk::asks(
            r,
            crate_graph_question(
                disk.deep_view(),
                manifest_dir.deep_view(),
                manifest.deep_view(),
                value.deep_view(),
                with_cargo_metadata,
            ),
        ),
        match r {
            Ok(g) => {
                let (expected, ws) = crate_graph(
                    disk.deep_view(),
                    manifest_dir.deep_view(),
                    manifest.deep_view(),
                    value.deep_view(),
                    with_cargo_metadata,
                );
                g.deep_view() == expected && final(warnings).deep_view() == old(
                    warnings,
                ).deep_view() + ws
            },
            Err(q) => disk.deep_view().lacks(q.deep_view()),
        },
{
    let ghost before = warnings.deep_view();
    // Transitive path walk. `visited` also excludes the crate itself from
    // the metadata merge below.
    let walk = match walk_path_deps(disk, manifest) {
        Ok(w) => w,
        Err(q) => {
            return Err(q);
        },
    };
    let mut transitive_dirs = walk.dirs;
    let mut visited = walk.visited;
    let ghost walk_warnings = walk.warnings.deep_view();
    put_all(warnings, walk.warnings);
    // Direct path deps straight from the [dependencies] table.
    let (mut direct_dirs, missing) = match collect_direct_paths(disk, manifest_dir, value) {
        Ok(x) => x,
        Err(q) => {
            return Err(q);
        },
    };
    let ghost missing_warnings = missing.deep_view();
    put_all(warnings, missing);
    assert(warnings.deep_view() =~= before + (walk_warnings + missing_warnings));
    // One metadata answer feeds both merges.
    let mut metadata_failure: Option<String> = None;
    if with_cargo_metadata {
        match cargo_metadata_json(disk, manifest) {
            Ok(Ok(meta)) => {
                let more = match find_dep_dirs_via_cargo_metadata(disk, &meta, manifest) {
                    Ok(dirs) => dirs,
                    Err(q) => {
                        return Err(q);
                    },
                };
                if let Err(q) = merge_dirs(disk, &more, &mut visited, &mut transitive_dirs) {
                    return Err(q);
                }
                let mut seen = match canonicalize_all(disk, &direct_dirs) {
                    Ok(c) => c,
                    Err(q) => {
                        return Err(q);
                    },
                };
                let more_direct = match direct_normal_dep_dirs(disk, &meta, manifest) {
                    Ok(dirs) => dirs,
                    Err(q) => {
                        return Err(q);
                    },
                };
                if let Err(q) = merge_dirs(disk, &more_direct, &mut seen, &mut direct_dirs) {
                    return Err(q);
                }
            },
            Ok(Err(warning)) => {
                let ghost wv = warning@;
                put(warnings, warning);
                assert(warnings.deep_view() =~= before + (walk_warnings + missing_warnings).push(
                    wv,
                ));
                metadata_failure =
                Some(
                    "cargo metadata failed for ".to_owned().concat(manifest.display().as_str()),
                );
            },
            Err(q) => {
                return Err(q);
            },
        }
    }
    Ok(DepGraph { transitive_dirs, direct_dirs, metadata_failure })
}

/// Resolve the dependency graph of the crate owning `start` (a source
/// file or a crate directory).
///
/// Resolution: nearest `Cargo.toml`, with workspace roots resolved to the
/// member manifest containing `start`. Path dependencies come from a
/// manifest walk (no subprocess); git and registry dependencies from a
/// single `cargo metadata --offline` answer shared by both result lists.
/// If `cargo metadata` fails, both lists degrade to path-only results.
pub fn resolve_dep_graph(
    disk: &Disk,
    start: &DirPath,
    with_cargo_metadata: bool,
    warnings: &mut Vec<String>,
) -> (r: Result<DepGraph, Query>)
    ensures
        disk::asks(
            r,
            dep_graph_question(disk.deep_view(), start.deep_view(), with_cargo_metadata),
        ),
        match r {
            Ok(g) => {
                let (expected, ws) = dep_graph(
                    disk.deep_view(),
                    start.deep_view(),
                    with_cargo_metadata,
                );
                g.deep_view() == expected && final(warnings).deep_view() == old(
                    warnings,
                ).deep_view() + ws
            },
            Err(q) => disk.deep_view().lacks(q.deep_view()),
        },
{
    let ghost before = warnings.deep_view();
    let manifest = match find_crate_manifest(disk, start, warnings) {
        Ok(Some(m)) => m,
        Ok(None) => {
            return Ok(
                make_no_graph(
                    with_cargo_metadata,
                    "no Cargo.toml found above ".to_owned().concat(start.display().as_str()),
                ),
            );
        },
        Err(q) => {
            return Err(q);
        },
    };
    let ghost ws = crate_manifest(disk.deep_view(), start.deep_view()).1;
    let value = match read_manifest_toml(disk, &manifest) {
        Ok(Ok(v)) => v,
        Ok(Err(warning)) => {
            let ghost wv = warning@;
            put(warnings, warning);
            assert(warnings.deep_view() =~= before + ws.push(wv));
            return Ok(
                make_no_graph(
                    with_cargo_metadata,
                    "unreadable manifest at ".to_owned().concat(manifest.display().as_str()),
                ),
            );
        },
        Err(q) => {
            return Err(q);
        },
    };
    let manifest_dir = match manifest.parent() {
        Some(d) => d,
        None => {
            return Ok(
                make_no_graph(
                    with_cargo_metadata,
                    "manifest at ".to_owned().concat(manifest.display().as_str()).concat(
                        " has not parent directory",
                    ),
                ),
            );
        },
    };
    // Workspace roots have no [dependencies] of their own: resolve to the
    // member manifest that contains `start`.
    if !is_virtual_manifest(&value) {
        let r = resolve_crate_graph(
            disk,
            &manifest_dir,
            &manifest,
            &value,
            with_cargo_metadata,
            warnings,
        );
        proof {
            let ws3 = crate_graph(
                disk.deep_view(),
                manifest_dir.deep_view(),
                manifest.deep_view(),
                value.deep_view(),
                with_cargo_metadata,
            ).1;
            assert((before + ws) + ws3 =~= before + (ws + ws3));
        }
        return r;
    }
    let member = match find_member_manifest(disk, &manifest_dir, &value, start, warnings) {
        Ok(Some(m)) => m,
        Ok(None) => {
            proof {
                let ws2 = member_manifest(
                    disk.deep_view(),
                    manifest_dir.deep_view(),
                    value.deep_view(),
                    start.deep_view(),
                ).1;
                assert((before + ws) + ws2 =~= before + (ws + ws2));
            }
            return Ok(
                make_no_graph(
                    with_cargo_metadata,
                    "workspace member manifest for ".to_owned().concat(
                        start.display().as_str(),
                    ).concat(" not found"),
                ),
            );
        },
        Err(q) => {
            return Err(q);
        },
    };
    let ghost ws2 = member_manifest(
        disk.deep_view(),
        manifest_dir.deep_view(),
        value.deep_view(),
        start.deep_view(),
    ).1;
    let member_value = match read_manifest_toml(disk, &member) {
        Ok(Ok(v)) => v,
        Ok(Err(warning)) => {
            let ghost wv = warning@;
            put(warnings, warning);
            assert(warnings.deep_view() =~= before + (ws + ws2).push(wv));
            return Ok(
                make_no_graph(
                    with_cargo_metadata,
                    "unreadable member manifest at ".to_owned().concat(member.display().as_str()),
                ),
            );
        },
        Err(q) => {
            return Err(q);
        },
    };
    let member_dir = match member.parent() {
        Some(d) => d,
        None => {
            assert((before + ws) + ws2 =~= before + (ws + ws2));
            return Ok(
                make_no_graph(
                    with_cargo_metadata,
                    "manifest at ".to_owned().concat(member.display().as_str()).concat(
                        " has not parent directory",
                    ),
                ),
            );
        },
    };
    let r = resolve_crate_graph(
        disk,
        &member_dir,
        &member,
        &member_value,
        with_cargo_metadata,
        warnings,
    );
    proof {
        let ws3 = crate_graph(
            disk.deep_view(),
            member_dir.deep_view(),
            member.deep_view(),
            member_value.deep_view(),
            with_cargo_metadata,
        ).1;
        assert((before + ws + ws2) + ws3 =~= before + (ws + ws2 + ws3));
    }
    r
}

// ── Questions ────────────────────────────────────────────────────────────

/// The first open question on the way to the nearest `Cargo.toml`.
pub open spec fn above_question(disk: DiskView, dir: DirPathView) -> Option<QueryView>
    decreases dir.parts.len(),
{
    let candidate = path::joined(dir, "Cargo.toml"@);
    proof {
        path::parent_has_one_name_less(dir);
    }
    disk::first_open(
        disk.question(QueryView::Kind(candidate)),
        if disk.present(candidate) {
            None
        } else {
            match path::parent_of(dir) {
                Some(p) => above_question(disk, p),
                None => None,
            }
        },
    )
}

/// The first open question about the manifest of `start`.
pub open spec fn manifest_question(disk: DiskView, start: DirPathView) -> Option<QueryView> {
    let dir = if disk.kind(start) == Kind::File {
        path::parent_of(start)
    } else {
        Some(start)
    };
    disk::first_open(
        disk.question(QueryView::Kind(start)),
        match dir {
            Some(d) => above_question(disk, d),
            None => None,
        },
    )
}

/// The open question about a member pattern: what is before its `*` is listed.
pub open spec fn expanded_question(disk: DiskView, root: DirPathView, pattern: Seq<char>) -> Option<
    QueryView,
> {
    if !is_glob(pattern) {
        None
    } else {
        let prefix = pattern.take(text::find_char(pattern, '*', 0));
        disk.question(QueryView::List(path::joined(root, prefix)))
    }
}

/// The first open question about the member patterns from `from` on.
pub open spec fn members_question(
    disk: DiskView,
    root: DirPathView,
    patterns: Seq<Seq<char>>,
    from: int,
) -> Option<QueryView>
    decreases patterns.len() - from,
{
    if from < 0 || from >= patterns.len() {
        None
    } else {
        disk::first_open(
            expanded_question(disk, root, patterns[from]),
            members_question(disk, root, patterns, from + 1),
        )
    }
}

/// The first open question on the way to the member that holds `source_dir`.
pub open spec fn holding_question(
    disk: DiskView,
    root: DirPathView,
    names: Seq<Seq<char>>,
    source_dir: DirPathView,
    from: int,
) -> Option<QueryView>
    decreases names.len() - from,
{
    if from < 0 || from >= names.len() {
        None
    } else {
        let dir = path::joined(root, names[from]);
        let manifest = path::joined(dir, "Cargo.toml"@);
        let rest = holding_question(disk, root, names, source_dir, from + 1);
        disk::first_open(
            disk.question(QueryView::Kind(dir)),
            if disk.kind(dir) == Kind::Dir && path::is_under(source_dir, dir) {
                disk::first_open(
                    disk.question(QueryView::Kind(manifest)),
                    if disk.present(manifest) {
                        None
                    } else {
                        rest
                    },
                )
            } else {
                rest
            },
        )
    }
}

/// The first open question of the search for a member below `dir`.
pub open spec fn search_question(
    disk: DiskView,
    dir: DirPathView,
    target: DirPathView,
    depth: nat,
) -> Option<QueryView>
    decreases depth, 0int,
{
    if depth == 0 {
        None
    } else {
        let (below, found) = match disk.list(dir) {
            Some(entries) => (
                below_question(disk, dir, entries, target, 0, (depth - 1) as nat),
                searched_below(disk, dir, entries, target, 0, (depth - 1) as nat),
            ),
            None => (None, None),
        };
        let manifest = path::joined(dir, "Cargo.toml"@);
        disk::first_open(
            disk.question(QueryView::List(dir)),
            disk::first_open(
                below,
                if found is Some {
                    None
                } else {
                    disk::first_open(
                        disk.question(QueryView::Kind(manifest)),
                        if disk.present(manifest) && path::is_under(target, dir) {
                            disk.question(QueryView::Read(manifest))
                        } else {
                            None
                        },
                    )
                },
            ),
        )
    }
}

/// The first open question of the search in the subdirectories from entry `from`
/// on.
pub open spec fn below_question(
    disk: DiskView,
    dir: DirPathView,
    entries: Seq<ListedView>,
    target: DirPathView,
    from: int,
    depth: nat,
) -> Option<QueryView>
    decreases depth, 1int, entries.len() - from,
{
    if from < 0 || from >= entries.len() {
        None
    } else if entries[from].is_dir == Some(true) {
        let child = path::child(dir, entries[from].name);
        disk::first_open(
            search_question(disk, child, target, depth),
            if searched(disk, child, target, depth) is Some {
                None
            } else {
                below_question(disk, dir, entries, target, from + 1, depth)
            },
        )
    } else {
        below_question(disk, dir, entries, target, from + 1, depth)
    }
}

/// The first open question about the workspace member that contains `source`.
pub open spec fn member_question(
    disk: DiskView,
    root: DirPathView,
    workspace: ValueView,
    source: DirPathView,
) -> Option<QueryView> {
    let source_dir = match path::parent_of(source) {
        Some(p) => p,
        None => source,
    };
    let patterns = member_patterns(workspace);
    let names = members(disk, root, patterns);
    disk::first_open(
        members_question(disk, root, patterns, 0),
        disk::first_open(
            holding_question(disk, root, names, source_dir, 0),
            if member_holding(disk, root, names, source_dir, 0) is Some {
                None
            } else {
                search_question(disk, root, source_dir, one_more(disk.lists.len()))
            },
        ),
    )
}

/// The first open question of the walk over the manifest at `m`.
pub open spec fn walk_question(disk: DiskView, m: DirPathView, w: WalkView, depth: nat) -> Option<
    QueryView,
>
    decreases depth, 0int,
{
    match path::parent_of(m) {
        None => None,
        Some(dir) => disk::first_open(
            disk.canonical_question(dir),
            if depth == 0 || w.visited.contains(disk.canonical(dir)) {
                None
            } else {
                let entered = WalkView { visited: w.visited.push(disk.canonical(dir)), ..w };
                disk::first_open(
                    disk.question(QueryView::Read(m)),
                    match manifest_toml(disk, m) {
                        Err(_) => None,
                        Ok(v) => if is_virtual(v) {
                            None
                        } else {
                            deps_question(
                                disk,
                                dir,
                                dependencies(v),
                                0,
                                entered,
                                (depth - 1) as nat,
                            )
                        },
                    },
                )
            },
        ),
    }
}

/// The first open question of the walk over the dependencies from `from` on.
pub open spec fn deps_question(
    disk: DiskView,
    dir: DirPathView,
    deps: Seq<(Seq<char>, ValueView)>,
    from: int,
    w: WalkView,
    depth: nat,
) -> Option<QueryView>
    decreases depth, 1int, deps.len() - from,
{
    if from < 0 || from >= deps.len() {
        None
    } else {
        match deps[from].1.text_at("path"@) {
            None => deps_question(disk, dir, deps, from + 1, w, depth),
            Some(rel) => {
                let dep_dir = path::joined(dir, rel);
                let manifest = path::joined(dep_dir, "Cargo.toml"@);
                let found = WalkView { dirs: w.dirs.push(dep_dir), ..w };
                disk::first_open(
                    disk.question(QueryView::Kind(dep_dir)),
                    if disk.kind(dep_dir) != Kind::Dir {
                        let warned = WalkView {
                            warnings: w.warnings.push("⚠️  "@ + missing_dir(deps[from].0, dep_dir)),
                            ..w
                        };
                        deps_question(disk, dir, deps, from + 1, warned, depth)
                    } else {
                        disk::first_open(
                            disk.canonical_question(dep_dir),
                            if w.visited.contains(disk.canonical(dep_dir)) {
                                deps_question(disk, dir, deps, from + 1, w, depth)
                            } else {
                                disk::first_open(
                                    disk.question(QueryView::Kind(manifest)),
                                    if disk.present(manifest) {
                                        disk::first_open(
                                            walk_question(disk, manifest, found, depth),
                                            deps_question(
                                                disk,
                                                dir,
                                                deps,
                                                from + 1,
                                                walked(disk, manifest, found, depth),
                                                depth,
                                            ),
                                        )
                                    } else {
                                        deps_question(disk, dir, deps, from + 1, found, depth)
                                    },
                                )
                            },
                        )
                    },
                )
            },
        }
    }
}

/// The first open question of the walk over the path dependencies of the
/// manifest at `m`.
pub open spec fn path_walk_question(disk: DiskView, m: DirPathView) -> Option<QueryView> {
    walk_question(disk, m, no_walk(), one_more(disk.kinds.len()))
}

/// The first open question about the local path dependencies of the crate that
/// owns `start`.
pub open spec fn owned_paths_question(disk: DiskView, start: DirPathView) -> Option<QueryView> {
    disk::first_open(
        manifest_question(disk, start),
        match crate_manifest(disk, start).0 {
            Some(m) => path_walk_question(disk, m),
            None => None,
        },
    )
}

/// The first open question about whether a package is the crate of `manifest`.
pub open spec fn owns_question(disk: DiskView, pkg: ValueView, manifest: DirPathView) -> Option<
    QueryView,
> {
    match pkg.text_at("manifest_path"@) {
        None => None,
        Some(mp) => disk::first_open(
            disk.canonical_question(manifest),
            if disk.canonical_form(manifest) is None {
                None
            } else {
                disk.canonical_question(path::of_text(mp))
            },
        ),
    }
}

/// The first open question on the way to the package that is the crate of
/// `manifest`, from package `from` on.
pub open spec fn owner_question(
    disk: DiskView,
    packages: Seq<ValueView>,
    manifest: DirPathView,
    from: int,
) -> Option<QueryView>
    decreases packages.len() - from,
{
    if from < 0 || from >= packages.len() {
        None
    } else {
        disk::first_open(
            owns_question(disk, packages[from], manifest),
            if owns(disk, packages[from], manifest) {
                None
            } else {
                owner_question(disk, packages, manifest, from + 1)
            },
        )
    }
}

/// The first open question about the id of the crate of `manifest`.
pub open spec fn root_question(disk: DiskView, meta: ValueView, manifest: DirPathView) -> Option<
    QueryView,
> {
    match meta.elements_at("packages"@) {
        Some(packages) => owner_question(disk, packages, manifest, 0),
        None => None,
    }
}

/// The first open question about what is reachable: without a resolve tree there
/// is none.
pub open spec fn reachable_question(disk: DiskView, meta: ValueView, manifest: DirPathView) -> Option<
    QueryView,
> {
    match resolve_nodes(meta) {
        Some(_) => root_question(disk, meta, manifest),
        None => None,
    }
}

/// The first open question about the packages from `from` on: of those that
/// count, whether they are the crate itself.
pub open spec fn each_question(
    disk: DiskView,
    meta: ValueView,
    manifest: DirPathView,
    packages: Seq<ValueView>,
    from: int,
) -> Option<QueryView>
    decreases packages.len() - from,
{
    if from < 0 || from >= packages.len() {
        None
    } else {
        let pkg = packages[from];
        let id = match pkg.text_at("id"@) {
            Some(id) => id,
            None => Seq::empty(),
        };
        disk::first_open(
            if counts(disk, meta, manifest, id) && !member_ids(meta).contains(id) {
                owns_question(disk, pkg, manifest)
            } else {
                None
            },
            each_question(disk, meta, manifest, packages, from + 1),
        )
    }
}

/// The first open question about the transitive dependencies of the metadata.
pub open spec fn packages_question(disk: DiskView, meta: ValueView, manifest: DirPathView) -> Option<
    QueryView,
> {
    disk::first_open(
        reachable_question(disk, meta, manifest),
        each_question(disk, meta, manifest, packages_of(meta), 0),
    )
}

/// The first open question about the direct path dependencies from `from` on.
pub open spec fn direct_question(
    disk: DiskView,
    dir: DirPathView,
    deps: Seq<(Seq<char>, ValueView)>,
    from: int,
) -> Option<QueryView>
    decreases deps.len() - from,
{
    if from < 0 || from >= deps.len() {
        None
    } else {
        disk::first_open(
            match deps[from].1.text_at("path"@) {
                Some(rel) => disk.question(QueryView::Kind(path::joined(dir, rel))),
                None => None,
            },
            direct_question(disk, dir, deps, from + 1),
        )
    }
}

/// The first open question about the canonical forms of the paths from `from` on.
pub open spec fn canonicals_question(
    disk: DiskView,
    dirs: Seq<DirPathView>,
    from: int,
) -> Option<QueryView>
    decreases dirs.len() - from,
{
    if from < 0 || from >= dirs.len() {
        None
    } else {
        disk::first_open(
            disk.canonical_question(dirs[from]),
            canonicals_question(disk, dirs, from + 1),
        )
    }
}

/// The first open question about the dependency graph of the crate whose
/// manifest is at `m` and says `v`. Cargo is asked on request only.
pub open spec fn crate_graph_question(
    disk: DiskView,
    dir: DirPathView,
    m: DirPathView,
    v: ValueView,
    with_metadata: bool,
) -> Option<QueryView> {
    let direct = direct_paths(disk, dir, dependencies(v)).0;
    disk::first_open(
        path_walk_question(disk, m),
        disk::first_open(
            direct_question(disk, dir, dependencies(v), 0),
            if with_metadata {
                disk::first_open(
                    disk.question(QueryView::Metadata(m)),
                    match metadata_value(disk, m) {
                        Ok(meta) => disk::first_open(
                            packages_question(disk, meta, m),
                            disk::first_open(
                                canonicals_question(
                                    disk,
                                    package_dirs(disk, meta, m, packages_of(meta)),
                                    0,
                                ),
                                disk::first_open(
                                    canonicals_question(disk, direct, 0),
                                    disk::first_open(
                                        root_question(disk, meta, m),
                                        canonicals_question(
                                            disk,
                                            direct_package_dirs(disk, meta, m),
                                            0,
                                        ),
                                    ),
                                ),
                            ),
                        ),
                        Err(_) => None,
                    },
                )
            } else {
                None
            },
        ),
    )
}

/// The first open question about the dependency graph of the crate owning
/// `start`.
pub open spec fn dep_graph_question(
    disk: DiskView,
    start: DirPathView,
    with_metadata: bool,
) -> Option<QueryView> {
    disk::first_open(
        manifest_question(disk, start),
        match crate_manifest(disk, start).0 {
            None => None,
            Some(m) => disk::first_open(
                disk.question(QueryView::Read(m)),
                match (manifest_toml(disk, m), path::parent_of(m)) {
                    (Ok(v), Some(dir)) => if is_virtual(v) {
                        disk::first_open(
                            member_question(disk, dir, v, start),
                            match member_manifest(disk, dir, v, start).0 {
                                None => None,
                                Some(mm) => disk::first_open(
                                    disk.question(QueryView::Read(mm)),
                                    match (manifest_toml(disk, mm), path::parent_of(mm)) {
                                        (Ok(mv), Some(own)) => crate_graph_question(
                                            disk,
                                            own,
                                            mm,
                                            mv,
                                            with_metadata,
                                        ),
                                        _ => None,
                                    },
                                ),
                            },
                        )
                    } else {
                        crate_graph_question(disk, dir, m, v, with_metadata)
                    },
                    _ => None,
                },
            ),
        },
    )
}

} // verus!
