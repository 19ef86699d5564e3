//! Extension discovery and the preparation of a program.
use std::cell::RefCell;
use std::collections::BTreeMap;
use spel_framework_core::dep_walk::{resolve_dep_graph, DepGraph};
use spel_framework_core::disk::{Contents, Disk, Kind, Listed, Metadata, Query};
use spel_framework_core::path::DirPath;
use spel_framework_core::extension::discovery::{resolve_bound_value, resolve_embed_decl};
use spel_framework_core::extension::metadata::{BoundArg, EmbedAnchor, EmbeddedMeta};
use spel_framework_core::extension::{
    apply_wrap_and_inject, check_duplicate_instruction_names, discover_extensions,
    resolve_program_deps, rewrite_embedded_roles, BoundValue, Carriers, Embed, EmbedDecl,
    ExtensionDiscoveries, GateLocations, InjectAccount, InjectSeed, InjectSpec, OffsetSpec,
    ProgramDeps, Stop,
};
use spel_framework_core::idl::SpelIdl;
use spel_framework_core::idl_gen::{
    generate_idl_from_file_with_deps, generate_idl_from_file_with_graph, IdlGenError, IdlStop,
};
use spel_framework_core::model::Dup;
use spel_framework_core::syntax::Path;
use spel_framework_core::source::parse_source;
use spel_framework_core::syntax::{Attribute, FnArg, Item, ItemFn};

/// A directory tree in memory that answers the questions asked about it.
#[allow(dead_code)]
struct TempDir {
    files: RefCell<BTreeMap<Vec<String>, String>>,
}

#[allow(dead_code)]
impl TempDir {
    fn new(_label: &str) -> TempDir {
        TempDir { files: RefCell::new(BTreeMap::new()) }
    }

    fn path(&self) -> DirPath {
        DirPath::new("/tree")
    }

    fn write(&self, rel: &str, text: &str) -> DirPath {
        let p = self.path().join(rel);
        self.files.borrow_mut().insert(TempDir::normal(&p), text.to_string());
        p
    }

    fn normal(p: &DirPath) -> Vec<String> {
        let mut out: Vec<String> = Vec::new();
        for part in &p.parts {
            if part == ".." {
                out.pop();
            } else if part != "." && !part.is_empty() {
                out.push(part.clone());
            }
        }
        out
    }

    fn canonical(&self, p: &DirPath) -> Option<DirPath> {
        match self.kind(p) {
            Kind::Absent => None,
            _ => Some(DirPath { absolute: true, parts: TempDir::normal(p) }),
        }
    }

    fn kind(&self, p: &DirPath) -> Kind {
        let n = TempDir::normal(p);
        let files = self.files.borrow();
        if files.contains_key(&n) {
            Kind::File
        } else if files.keys().any(|k| k.len() > n.len() && k[..n.len()] == n[..]) {
            Kind::Dir
        } else {
            Kind::Absent
        }
    }

    fn read(&self, p: &DirPath) -> Option<String> {
        self.files.borrow().get(&TempDir::normal(p)).cloned()
    }

    fn list(&self, p: &DirPath) -> Option<Vec<Listed>> {
        let n = TempDir::normal(p);
        let mut names: BTreeMap<String, bool> = BTreeMap::new();
        for k in self.files.borrow().keys() {
            if k.len() > n.len() && k[..n.len()] == n[..] {
                names.insert(k[n.len()].clone(), k.len() > n.len() + 1);
            }
        }
        if names.is_empty() {
            return None;
        }
        Some(names.into_iter().map(|(name, d)| Listed { name, is_dir: Some(d) }).collect())
    }

    /// What cargo would say of a manifest whose dependencies are all local.
    fn metadata(&self, manifest: &DirPath) -> Metadata {
        let mut packages = Vec::new();
        let mut nodes = Vec::new();
        let mut todo = vec![TempDir::normal(manifest)];
        let mut seen: Vec<Vec<String>> = Vec::new();
        while let Some(m) = todo.pop() {
            if seen.contains(&m) {
                continue;
            }
            seen.push(m.clone());
            let p = DirPath { absolute: true, parts: m.clone() };
            let Some(text) = self.read(&p) else {
                return Metadata::Failed("no manifest".to_string());
            };
            let Ok(v) = toml::from_str::<toml::Value>(&text) else {
                return Metadata::Failed("bad manifest".to_string());
            };
            let version = v["package"].get("version").and_then(|v| v.as_str()).unwrap_or("0.0.0");
            if version.contains("not-a") {
                return Metadata::Failed("bad version".to_string());
            }
            let mut deps = Vec::new();
            for (table, kind) in [("dependencies", "null"), ("dev-dependencies", "\"dev\"")] {
                let Some(t) = v.get(table).and_then(|t| t.as_table()) else {
                    continue;
                };
                for dep in t.values() {
                    let Some(rel) = dep.get("path").and_then(|p| p.as_str()) else {
                        return Metadata::Failed("not fetched".to_string());
                    };
                    let d = TempDir::normal(&p.parent().unwrap().join(rel).join("Cargo.toml"));
                    deps.push(format!(
                        "{{\"pkg\": \"/{}\", \"dep_kinds\": [{{\"kind\": {kind}}}]}}",
                        d.join("/")
                    ));
                    todo.push(d);
                }
            }
            let id = format!("/{}", m.join("/"));
            packages.push(format!("{{\"id\": \"{id}\", \"manifest_path\": \"{id}\"}}"));
            nodes.push(format!("{{\"id\": \"{id}\", \"deps\": [{}]}}", deps.join(", ")));
        }
        let root = format!("/{}", TempDir::normal(manifest).join("/"));
        Metadata::Output(format!(
            "{{\"packages\": [{}], \"workspace_members\": [\"{root}\"], \"resolve\": {{\"root\": \"{root}\", \"nodes\": [{}]}}}}",
            packages.join(", "),
            nodes.join(", ")
        ))
    }

    fn answer(&self, disk: &mut Disk, q: Query) {
        match q {
            Query::Kind(p) => {
                let k = self.kind(&p);
                disk.kinds.push((p, k));
            }
            Query::Read(p) => {
                let c = match self.read(&p) {
                    Some(text) => Contents::Text(text),
                    None => Contents::Failed("no such file".to_string()),
                };
                disk.files.push((p, c));
            }
            Query::Canonical(p) => {
                let c = self.canonical(&p);
                disk.canonical.push((p, c));
            }
            Query::List(p) => {
                let l = self.list(&p);
                disk.lists.push((p, l));
            }
            Query::Metadata(p) => {
                let m = self.metadata(&p);
                disk.metadata.push((p, m));
            }
        }
    }

    /// Repeats `work` with one more answer each time, until it asks nothing.
    fn ask<T>(&self, work: impl Fn(&Disk, &mut Vec<String>) -> Result<T, Query>) -> (T, Vec<String>) {
        let mut disk = Disk::unknown();
        loop {
            let mut warnings = Vec::new();
            match work(&disk, &mut warnings) {
                Ok(x) => return (x, warnings),
                Err(q) => self.answer(&mut disk, q),
            }
        }
    }
}

/// The attributes of a module.
#[allow(dead_code)]
fn attrs(src: &str) -> Vec<Attribute> {
    match parse_source(&format!("{src} mod m {{}}")).expect("attributes parse").remove(0) {
        Item::Mod(m) => m.attrs,
        other => panic!("expected a module, got {other:?}"),
    }
}

/// One fn.
#[allow(dead_code)]
fn func(src: &str) -> ItemFn {
    match parse_source(src).expect("fn parses").remove(0) {
        Item::Fn(f) => f,
        other => panic!("expected a fn, got {other:?}"),
    }
}

/// The names of a fn's params.
#[allow(dead_code)]
fn param_names(f: &ItemFn) -> Vec<String> {
    f.inputs
        .iter()
        .filter_map(|i| match i {
            FnArg::Typed(p) => p.name.clone(),
            FnArg::Receiver => None,
        })
        .collect()
}

/// Tells an open question from a refusal.
fn settle<T>(r: Result<T, Stop>) -> Result<Result<T, String>, Query> {
    match r {
        Ok(x) => Ok(Ok(x)),
        Err(Stop::Refused(e)) => Ok(Err(e)),
        Err(Stop::Need(q)) => Err(q),
    }
}

fn resolve(tmp: &TempDir, start: &DirPath) -> DepGraph {
    tmp.ask(|d, w| resolve_dep_graph(d, start, true, w)).0
}

fn discover(
    tmp: &TempDir,
    graph: &DepGraph,
    mod_attrs: &Vec<Attribute>,
) -> Result<ExtensionDiscoveries, String> {
    tmp.ask(|d, w| settle(discover_extensions(d, &graph.direct_dirs, mod_attrs, &Vec::new(), w))).0
}

fn discover_instructions(
    tmp: &TempDir,
    mod_attrs: &Vec<Attribute>,
    warnings: &mut Vec<String>,
) -> Result<Vec<(ItemFn, Path)>, String> {
    let start = tmp.path().join("user");
    let (r, ws) = tmp.ask(|d, w| {
        let graph = resolve_dep_graph(d, &start, true, w)?;
        settle(discover_extensions(d, &graph.direct_dirs, mod_attrs, &Vec::new(), w))
    });
    warnings.extend(ws);
    Ok(r?.instructions)
}

fn program_deps(
    tmp: &TempDir,
    mod_attrs: &Vec<Attribute>,
    mod_items: &Vec<Item>,
    warnings: &mut Vec<String>,
) -> Result<ProgramDeps, String> {
    let start = tmp.path().join("user");
    let (r, ws) = tmp.ask(|d, w| settle(resolve_program_deps(d, &start, mod_attrs, mod_items, w)));
    warnings.extend(ws);
    r
}

fn idl(
    tmp: &TempDir,
    work: impl Fn(&Disk, &mut Vec<String>) -> Result<SpelIdl, IdlStop>,
) -> Result<SpelIdl, IdlGenError> {
    tmp.ask(|d, w| match work(d, w) {
        Ok(x) => Ok(Ok(x)),
        Err(IdlStop::Failed(e)) => Ok(Err(e)),
        Err(IdlStop::Need(q)) => Err(q),
    })
    .0
}

fn call<'a>(ext: &'a ExtensionDiscoveries, name: &str) -> Option<&'a Vec<BoundValue>> {
    ext.bound_calls.iter().find(|(n, _)| n == name).map(|(_, v)| v)
}

fn nothing() -> ProgramDeps {
    ProgramDeps {
        graph: DepGraph {
            transitive_dirs: Vec::new(),
            direct_dirs: Vec::new(),
            metadata_failure: None,
        },
        extensions: ExtensionDiscoveries {
            instructions: Vec::new(),
            inject_specs: Vec::new(),
            wraps: Vec::new(),
            embeds: Vec::new(),
            bound_calls: Vec::new(),
            matched_markers: Vec::new(),
        },
    }
}

fn wrap_fixture(tmp: &TempDir, wrap_toml: &str) {
    ext_fixture(
        tmp,
        &format!(
            r#"
[package.metadata.spel]
extension_attr = "my_ext"

{wrap_toml}
"#
        ),
        r#"
#[instruction]
pub fn ext_action(account: AccountWithMetadata) -> SpelResult { todo!() }
"#,
    );
}

#[test]
fn discover_extension_instructions_picks_up_matching_ext() {
    let tmp = TempDir::new("discover-match");
    let mod_attrs = ext_fixture(
        &tmp,
        r#"
[package.metadata.spel]
extension_attr = "my_ext"
"#,
        r#"
#[instruction]
pub fn ext_action(account: AccountWithMetadata) -> SpelResult { todo!() }
"#,
    );

    let found =
        discover_instructions(&tmp, &mod_attrs, &mut Vec::new()).unwrap();
    assert_eq!(found.len(), 1);
    let (func, crate_path) = &found[0];
    assert_eq!(func.name.clone(), "ext_action");
    let segs: Vec<String> = crate_path
        .segments
        .iter()
        .cloned()
        .collect();
    assert_eq!(segs, vec!["my_ext".to_string()]);
    assert!(
        crate_path.leading_colon,
        "path must start with ::"
    );
}

#[test]
fn discovery_uses_package_name_not_dir_name() {
    let tmp = TempDir::new("discover-renamed-dir");

    // Extension checked out under a directory that does NOT match its
    // package name (renamed checkout / vendored copy).
    tmp.write(
        "renamed-checkout/Cargo.toml",
        r#"
[package]
name = "my-ext"
version = "0.1.0"
edition = "2021"

[package.metadata.spel]
extension_attr = "my_ext"
"#,
    );
    tmp.write(
        "renamed-checkout/src/lib.rs",
        r#"
#[instruction]
pub fn ext_action(account: AccountWithMetadata) -> SpelResult { todo!() }
"#,
    );
    tmp.write(
        "user/Cargo.toml",
        r#"
[package]
name = "user"
version = "0.1.0"
edition = "2021"

[dependencies]
my-ext = { path = "../renamed-checkout" }
"#,
    );
    tmp.write("user/src/lib.rs", "");

    let mod_attrs = attrs(r##"#[lez_program] #[my_ext]"##);

    let found =
        discover_instructions(&tmp, &mod_attrs, &mut Vec::new()).unwrap();
    assert_eq!(found.len(), 1);
    let (_, crate_path) = &found[0];
    let segs: Vec<String> = crate_path
        .segments
        .iter()
        .cloned()
        .collect();
    // Identity comes from [package].name, never from the directory name:
    // ::my_ext, not ::renamed_checkout.
    assert_eq!(segs, vec!["my_ext".to_string()]);
}

#[test]
fn transitive_extension_is_not_discovered() {
    let tmp = TempDir::new("discover-transitive");

    // Innocent direct dep with no extension metadata...
    tmp.write(
        "helper/Cargo.toml",
        r#"
[package]
name = "helper"
version = "0.1.0"
edition = "2021"

[dependencies]
evil-ext = { path = "../evil-ext" }
"#,
    );
    tmp.write("helper/src/lib.rs", "");

    // ...pulling in a transitive crate that claims the consumer's
    // marker attr and ships instructions.
    tmp.write(
        "evil-ext/Cargo.toml",
        r#"
[package]
name = "evil-ext"
version = "0.1.0"
edition = "2021"

[package.metadata.spel]
extension_attr = "my_ext"
"#,
    );
    tmp.write(
        "evil-ext/src/lib.rs",
        r#"
#[instruction]
pub fn smuggled(account: AccountWithMetadata) -> SpelResult { todo!() }
"#,
    );
    tmp.write(
        "user/Cargo.toml",
        r#"
[package]
name = "user"
version = "0.1.0"
edition = "2021"

[dependencies]
helper = { path = "../helper" }
"#,
    );
    tmp.write("user/src/lib.rs", "");

    // Consumer opted into #[my_ext], but no DIRECT dep declares it.
    let mod_attrs = attrs(r##"#[lez_program] #[my_ext]"##);

    let found =
        discover_instructions(&tmp, &mod_attrs, &mut Vec::new()).unwrap();
    assert!(
        found.is_empty(),
        "transitive dep must never contribute instructions, got: {:?}",
        found
            .iter()
            .map(|(f, _)| f.name.clone())
            .collect::<Vec<_>>()
    );
}

fn ext_fixture(tmp: &TempDir, metadata: &str, lib_rs: &str) -> Vec<Attribute> {
    tmp.write(
        "my-ext/Cargo.toml",
        &format!(
            r#"
[package]
name = "my-ext"
version = "0.1.0"
edition = "2021"

{metadata}
"#
        ),
    );
    tmp.write("my-ext/src/lib.rs", lib_rs);
    tmp.write(
        "user/Cargo.toml",
        r#"
[package]
name = "user"
version = "0.1.0"
edition = "2021"

[dependencies]
my-ext = { path = "../my-ext" }
"#,
    );
    tmp.write("user/src/lib.rs", "");
    attrs("#[lez_program] #[my_ext]")
}

#[test]
fn resolve_program_deps_discovers_through_one_call() {
    let tmp = TempDir::new("program-deps-match");
    let mod_attrs = ext_fixture(
        &tmp,
        r#"
[package.metadata.spel]
extension_attr = "my_ext"
"#,
        r#"
#[instruction]
pub fn ext_action(account: AccountWithMetadata) -> SpelResult { todo!() }
"#,
    );

    let deps = program_deps(&tmp, &mod_attrs, &Vec::new(), &mut Vec::new())
        .expect("discovery through the producer entry point");
    assert_eq!(deps.extensions.instructions.len(), 1);
    assert!(
        deps.graph.direct_dirs.iter().any(|d| d.parts.last().is_some_and(|n| n == "my-ext")),
        "graph must contain the extension dir: {:?}",
        deps.graph.direct_dirs
    );
}

// A marker that matches nothing while resolution is healthy must
// refuse, not silently drop the extension surface: the typo and the
// transitive-only dependency both land here.
#[test]
fn unmatched_marker_with_healthy_resolution_is_a_hard_error() {
    let tmp = TempDir::new("program-deps-unmatched");
    ext_fixture(
        &tmp,
        r#"
[package.metadata.spel]
extension_attr = "my_ext"
"#,
        r#"
#[instruction]
pub fn ext_action(account: AccountWithMetadata) -> SpelResult { todo!() }
"#,
    );
    let mod_attrs = attrs(r##"#[lez_program] #[my_ext] #[my_extt]"##);

    let err = program_deps(&tmp, &mod_attrs, &Vec::new(), &mut Vec::new())
        .expect_err("an unmatched marker must refuse to compile");
    assert!(
        err.contains("my_extt") && err.contains("transitive"),
        "message must name the marker and the transitive rule: {err}"
    );
    assert!(
        !err.contains("resolution failed"),
        "healthy resolution must use the healthy-path message: {err}"
    );
}

#[test]
fn resolve_program_deps_without_markers_skips_discovery_and_metadata() {
    let tmp = TempDir::new("program-deps-no-marker");
    // Extension exists as a dependency, and the consumer manifest also
    // carries an unfetchable git dep: if `cargo metadata` ran it would
    // warn, and if discovery ran it would read the extension manifest.
    ext_fixture(
        &tmp,
        r#"
[package.metadata.spel]
extension_attr = "my_ext"
"#,
        r#"
#[instruction]
pub fn ext_action(account: AccountWithMetadata) -> SpelResult { todo!() }
"#,
    );
    tmp.write(
        "user/Cargo.toml",
        r#"
[package]
name = "user"
version = "0.1.0"
edition = "2021"

[dependencies]
my-ext = { path = "../my-ext" }
nssa_core = { git = "https://example.com/repo.git", tag = "v1.0" }
"#,
    );

    let mod_attrs = attrs(r##"#[doc = "no markers here"]"##);
    let mut warnings = Vec::new();
    let deps = program_deps(&tmp, &mod_attrs, &Vec::new(), &mut warnings)
    .expect("no markers is not an error");
    assert!(warnings.is_empty(), "metadata must not run: {warnings:?}");
    assert!(deps.extensions.instructions.is_empty());
}

#[test]
fn resolve_program_deps_propagates_marker_order_error() {
    let tmp = TempDir::new("program-deps-marker-above");
    ext_fixture(
        &tmp,
        r#"
[package.metadata.spel]
extension_attr = "my_ext"
"#,
        r#"
#[instruction]
pub fn ext_action(account: AccountWithMetadata) -> SpelResult { todo!() }
"#,
    );
    let mod_attrs = attrs(r##"#[my_ext] #[lez_program]"##);

    let err = program_deps(&tmp, &mod_attrs, &Vec::new(), &mut Vec::new())
        .expect_err("misplaced marker must propagate");
    assert!(
        err.contains("above #[lez_program]"),
        "unexpected error: {err}"
    );
}

#[test]
fn unknown_bound_from_is_a_hard_error() {
    let tmp = TempDir::new("bound-from-unknown");
    let mod_attrs = ext_fixture(
        &tmp,
        r#"
[package.metadata.spel]
extension_attr = "my_ext"

[[package.metadata.spel.bound_args]]
arg = "offset"
from = "grace"
"#,
        r#"
#[instruction]
pub fn ext_action(account: AccountWithMetadata, offset: usize) -> SpelResult { todo!() }
"#,
    );
    let graph = resolve(&tmp, &tmp.path().join("user"));
    let err = discover(&tmp, &graph, &mod_attrs)
        .expect_err("an unknown bound_args.from must be rejected");
    assert!(
        err.contains("only \"offset\" carries a value"),
        "unexpected error: {err}"
    );
}

// A bound param anywhere but trailing would silently shift the
// remaining args, the dispatcher appends bound values last. Refuse.
#[test]
fn non_trailing_bound_param_is_a_hard_error() {
    let metadata = r#"
[package.metadata.spel]
extension_attr = "my_ext"

[[package.metadata.spel.bound_args]]
arg = "offset"
from = "offset"
default = 0

[package.metadata.spel.embedded]
state_type = "my_ext::ExtConfig"
"#;
    let lib_rs = r#"
#[instruction]
pub fn ext_action(offset: usize, account: AccountWithMetadata) -> SpelResult { todo!() }
"#;
    let tmp = TempDir::new("bound-non-trailing");
    ext_fixture(&tmp, metadata, lib_rs);
    let mod_attrs = attrs(r##"#[lez_program] #[my_ext(gate_config = prog_config, offset = 32)]"##);
    let graph = resolve(&tmp, &tmp.path().join("user"));
    let err = discover(&tmp, &graph, &mod_attrs)
        .expect_err("a non-trailing bound param must be refused");
    assert!(
        err.contains("ext_action") && err.contains("trailing"),
        "message must name the fn and the rule: {err}"
    );
}

#[test]
fn bound_param_stripped_and_value_resolved() {
    let metadata = r#"
[package.metadata.spel]
extension_attr = "my_ext"

[[package.metadata.spel.inject]]
wrapper = "my_gate"

  [[package.metadata.spel.inject.account]]
  name = "gate_config"
  seed = { const = "gate_config" }

[[package.metadata.spel.bound_args]]
arg = "offset"
from = "offset"
default = 0

[package.metadata.spel.embedded]
state_type = "my_ext::ExtConfig"
"#;
    let lib_rs = r#"
#[instruction]
pub fn ext_action(account: AccountWithMetadata, offset: usize) -> SpelResult { todo!() }
"#;

    // Embedded marker: the value is the marker's offset.
    let tmp = TempDir::new("bound-strip-embedded");
    ext_fixture(&tmp, metadata, lib_rs);
    let mod_attrs = attrs(r##"#[lez_program] #[my_ext(gate_config = prog_config, offset = 32)]"##);
    let graph = resolve(&tmp, &tmp.path().join("user"));
    let ext = discover(&tmp, &graph, &mod_attrs)
        .expect("embedded discovery must succeed");
    let (func, _) = &ext.instructions[0];
    let param_names: Vec<String> = param_names(&func);
    assert_eq!(
        param_names,
        vec!["account".to_string()],
        "offset must be stripped"
    );
    assert_eq!(
        call(&ext, "ext_action"),
        Some(&vec![BoundValue::Literal(32)])
    );

    // Bare marker: dedicated mode resolves the default.
    let tmp = TempDir::new("bound-strip-dedicated");
    let mod_attrs = ext_fixture(&tmp, metadata, lib_rs);
    let graph = resolve(&tmp, &tmp.path().join("user"));
    let ext = discover(&tmp, &graph, &mod_attrs)
        .expect("dedicated discovery must succeed");
    assert_eq!(
        call(&ext, "ext_action"),
        Some(&vec![BoundValue::Literal(0)])
    );
}

#[test]
fn a_call_is_bound_once() {
    let metadata = r#"
[package.metadata.spel]
extension_attr = "my_ext"

[[package.metadata.spel.bound_args]]
arg = "offset"
from = "offset"
default = 0

[package.metadata.spel.embedded]
state_type = "my_ext::ExtConfig"
"#;
    let lib_rs = r#"
#[instruction]
pub fn ext_action(account: AccountWithMetadata, offset: usize) -> SpelResult { todo!() }
#[instruction]
pub fn ext_other(account: AccountWithMetadata, offset: usize) -> SpelResult { todo!() }
#[instruction]
pub fn ext_action(account: AccountWithMetadata, more: u8, offset: usize) -> SpelResult { todo!() }
"#;
    let tmp = TempDir::new("bound-once");
    let mod_attrs = ext_fixture(&tmp, metadata, lib_rs);
    let graph = resolve(&tmp, &tmp.path().join("user"));
    let ext = discover(&tmp, &graph, &mod_attrs).expect("discovery must succeed");
    assert_eq!(ext.instructions.len(), 3);
    let mut names: Vec<&str> = ext.bound_calls.iter().map(|(n, _)| n.as_str()).collect();
    names.sort();
    assert_eq!(names, ["ext_action", "ext_other"]);
}

#[test]
fn cross_marker_bound_resolves_peer_offset() {
    let metadata = r#"
[package.metadata.spel]
extension_attr = "my_ext"

[[package.metadata.spel.bound_args]]
arg = "admin_offset"
from = "peer_ext::offset"
default = 0
"#;
    let lib_rs = r#"
#[instruction]
pub fn ext_action(account: AccountWithMetadata, admin_offset: usize) -> SpelResult { todo!() }
"#;

    // Peer marker embedded: the value is the peer's offset kwarg.
    let tmp = TempDir::new("bound-cross-embedded");
    ext_fixture(&tmp, metadata, lib_rs);
    let mod_attrs = attrs(r##"#[lez_program] #[my_ext] #[peer_ext(peer_config = prog_config, offset = 16)]"##);
    let graph = resolve(&tmp, &tmp.path().join("user"));
    let ext = discover(&tmp, &graph, &mod_attrs)
        .expect("cross-marker discovery must succeed");
    assert_eq!(
        call(&ext, "ext_action"),
        Some(&vec![BoundValue::Literal(16)])
    );

    // Peer marker absent: the declared default applies.
    let tmp = TempDir::new("bound-cross-dedicated");
    let mod_attrs = ext_fixture(&tmp, metadata, lib_rs);
    let graph = resolve(&tmp, &tmp.path().join("user"));
    let ext = discover(&tmp, &graph, &mod_attrs)
        .expect("absent peer with default must succeed");
    assert_eq!(
        call(&ext, "ext_action"),
        Some(&vec![BoundValue::Literal(0)])
    );
}

#[test]
fn cross_marker_bound_without_default_requires_the_peer_marker() {
    let tmp = TempDir::new("bound-cross-no-default");
    let mod_attrs = ext_fixture(
        &tmp,
        r#"
[package.metadata.spel]
extension_attr = "my_ext"

[[package.metadata.spel.bound_args]]
arg = "admin_offset"
from = "peer_ext::offset"
"#,
        r#"
#[instruction]
pub fn ext_action(account: AccountWithMetadata, admin_offset: usize) -> SpelResult { todo!() }
"#,
    );
    let graph = resolve(&tmp, &tmp.path().join("user"));
    let err = discover(&tmp, &graph, &mod_attrs)
        .expect_err("absent peer without default must be rejected");
    assert!(
        err.contains("requires marker '#[peer_ext]'"),
        "unexpected error: {err}"
    );
}

// The fail-open closure: a metadata failure with a marker that
// matched nothing must refuse to compile, never silently drop a
// git or registry extension. The invalid version string makes
// cargo metadata fail deterministically and offline.
#[test]
fn metadata_failure_with_unmatched_marker_is_a_hard_error() {
    let tmp = TempDir::new("fail-open-unmatched");
    tmp.write(
        "user/Cargo.toml",
        r#"
[package]
name = "user"
version = "not-a-version"
edition = "2021"
"#,
    );
    tmp.write("user/src/lib.rs", "");
    let mod_attrs = attrs(r##"#[lez_program] #[ghost_ext]"##);
    let err = program_deps(&tmp, &mod_attrs, &Vec::new(), &mut Vec::new())
        .expect_err("unmatched marker with failed metadata must refuse to compile");
    assert!(
        err.contains("refusing to compile"),
        "unexpected error: {err}"
    );
    assert!(err.contains("ghost_ext"), "must name the marker: {err}");
}

// The counterpart: when every marker matched a path dependency,
// the same metadata failure stays a warning and the build proceeds.
#[test]
fn metadata_failure_with_matched_path_marker_degrades_to_warning() {
    let tmp = TempDir::new("fail-open-matched");
    tmp.write(
        "my-ext/Cargo.toml",
        r#"
[package]
name = "my-ext"
version = "0.1.0"
edition = "2021"

[package.metadata.spel]
extension_attr = "my_ext"
"#,
    );
    tmp.write(
        "my-ext/src/lib.rs",
        r#"
#[instruction]
pub fn ext_action(account: AccountWithMetadata) -> SpelResult { todo!() }
"#,
    );
    tmp.write(
        "user/Cargo.toml",
        r#"
[package]
name = "user"
version = "not-a-version"
edition = "2021"

[dependencies]
my-ext = { path = "../my-ext" }
"#,
    );
    tmp.write("user/src/lib.rs", "");
    let mod_attrs = attrs(r##"#[lez_program] #[my_ext]"##);
    let mut warnings = Vec::new();
    let deps = program_deps(&tmp, &mod_attrs, &Vec::new(), &mut warnings)
    .expect("matched path marker must compile through a degraded resolution");
    assert_eq!(deps.extensions.matched_markers, vec!["my_ext".to_string()]);
    assert_eq!(deps.extensions.instructions.len(), 1);
    assert!(
        warnings.iter().any(|w| w.contains("degraded")),
        "must warn about the degradation: {warnings:?}"
    );
}

#[test]
fn embedded_mode_skips_declared_initializer() {
    let tmp = TempDir::new("embed-skip-init");
    ext_fixture(
        &tmp,
        r#"
[package.metadata.spel]
extension_attr = "my_ext"

[[package.metadata.spel.inject]]
wrapper = "my_gate"

  [[package.metadata.spel.inject.account]]
  name = "gate_config"
  seed = { const = "gate_config" }

[package.metadata.spel.embedded]
skip = ["ext_init"]
state_type = "my_ext::ExtConfig"
"#,
        r#"
#[instruction]
pub fn ext_init(account: AccountWithMetadata) -> SpelResult { todo!() }

#[instruction]
pub fn ext_action(account: AccountWithMetadata) -> SpelResult { todo!() }
"#,
    );
    let mod_attrs = attrs(r##"#[lez_program] #[my_ext(gate_config = prog_config, offset = 32)]"##);
    let graph = resolve(&tmp, &tmp.path().join("user"));
    let ext = discover(&tmp, &graph, &mod_attrs)
        .expect("embedded discovery must succeed");
    let names: Vec<String> = ext
        .instructions
        .iter()
        .map(|(f, _)| f.name.clone())
        .collect();
    assert_eq!(names, vec!["ext_action".to_string()]);
}

#[test]
fn dedicated_mode_keeps_skipped_initializer() {
    let tmp = TempDir::new("dedicated-keeps-init");
    let mod_attrs = ext_fixture(
        &tmp,
        r#"
[package.metadata.spel]
extension_attr = "my_ext"

[package.metadata.spel.embedded]
skip = ["ext_init"]
"#,
        r#"
#[instruction]
pub fn ext_init(account: AccountWithMetadata) -> SpelResult { todo!() }

#[instruction]
pub fn ext_action(account: AccountWithMetadata) -> SpelResult { todo!() }
"#,
    );
    let graph = resolve(&tmp, &tmp.path().join("user"));
    let ext = discover(&tmp, &graph, &mod_attrs)
        .expect("dedicated discovery must succeed");
    let names: Vec<String> = ext
        .instructions
        .iter()
        .map(|(f, _)| f.name.clone())
        .collect();
    assert_eq!(
        names,
        vec!["ext_init".to_string(), "ext_action".to_string()]
    );
}

#[test]
fn discovery_collects_embed_decl() {
    let tmp = TempDir::new("discover-embed");
    ext_fixture(
        &tmp,
        r#"
[package.metadata.spel]
extension_attr = "my_ext"

[[package.metadata.spel.inject]]
wrapper = "my_gate"

  [[package.metadata.spel.inject.account]]
  name = "gate_config"
  seed = { const = "gate_config" }

[package.metadata.spel.embedded]
state_type = "my_ext::ExtConfig"
"#,
        r#"
#[instruction]
pub fn ext_action(account: AccountWithMetadata) -> SpelResult { todo!() }
"#,
    );
    let mod_attrs = attrs(r##"#[lez_program] #[my_ext(gate_config = prog_config, offset = 32)]"##);
    let graph = resolve(&tmp, &tmp.path().join("user"));
    let ext = discover(&tmp, &graph, &mod_attrs)
        .expect("embedded marker must be collected");
    assert_eq!(
        ext.embeds,
        vec![Embed {
            source: "my_ext".to_string(),
            carrier: None,
            // The window state type travels with the embed, so an
            // embed can always report its own length.
            state_type: "my_ext::ExtConfig".to_string(),
            decl: EmbedDecl {
                role: "gate_config".to_string(),
                account: "prog_config".to_string(),
                offset: OffsetSpec::Literal(32),
                initializer: None,
            },
        }]
    );
}

// Embedded mode requires the extension to name its window type:
// without it the window collision asserts cannot be emitted.
// Dedicated mode's indifference to the field is pinned by
// dedicated_mode_keeps_skipped_initializer, whose fixture has none.
#[test]
fn embedded_mode_without_state_type_is_a_hard_error() {
    let tmp = TempDir::new("embed-no-state-type");
    ext_fixture(
        &tmp,
        r#"
[package.metadata.spel]
extension_attr = "my_ext"

[[package.metadata.spel.inject]]
wrapper = "my_gate"

  [[package.metadata.spel.inject.account]]
  name = "gate_config"
  seed = { const = "gate_config" }
"#,
        r#"
#[instruction]
pub fn ext_action(account: AccountWithMetadata) -> SpelResult { todo!() }
"#,
    );
    let mod_attrs = attrs(r##"#[lez_program] #[my_ext(gate_config = prog_config, offset = 32)]"##);
    let graph = resolve(&tmp, &tmp.path().join("user"));
    let err = discover(&tmp, &graph, &mod_attrs)
        .expect_err("embedded mode without state_type must be refused");
    assert!(
        err.contains("my_ext") && err.contains("embedded.state_type"),
        "message must name the crate and the field: {err}"
    );
}

#[test]
fn embedded_role_rewrites_inject_entry_from_canonical_declaration() {
    let tmp = TempDir::new("embed-rewrite");
    ext_fixture(
        &tmp,
        r#"
[package.metadata.spel]
extension_attr = "my_ext"

[[package.metadata.spel.inject]]
wrapper = "my_gate"

  [[package.metadata.spel.inject.account]]
  name = "gate_config"
  seed = { const = "gate_config" }

[package.metadata.spel.embedded]
state_type = "my_ext::ExtConfig"
"#,
        r#"
#[instruction]
pub fn ext_action(account: AccountWithMetadata) -> SpelResult { todo!() }
"#,
    );
    let mod_attrs = attrs(r##"#[lez_program] #[my_ext(gate_config = prog_config, offset = 32)]"##);
    let consumer_fns = vec![func(r##"
        pub fn initialize(
            #[account(init, pda = literal("prog_config"))] mut prog_config: AccountWithMetadata,
        ) -> SpelResult {
            todo!()
        }
    "##)];
    let graph = resolve(&tmp, &tmp.path().join("user"));
    let mut ext = discover(&tmp, &graph, &mod_attrs)
        .expect("embedded marker must be collected");
    rewrite_embedded_roles(&mut ext.inject_specs, &ext.embeds, &consumer_fns)
        .expect("rewrite must succeed");
    let acc = &ext.inject_specs[0].accounts[0];
    assert_eq!(acc.name, "prog_config");
    assert_eq!(
        acc.seeds,
        vec![InjectSeed::Const("prog_config".to_string())]
    );
    assert!(!acc.signer);
}

#[test]
fn embedded_role_unknown_in_spec_is_error() {
    let mut specs = vec![InjectSpec {
        wrapper: "my_gate".to_string(),
        accounts: vec![InjectAccount {
            name: "gate_config".to_string(),
            role: "gate_config".to_string(),
            seeds: vec![InjectSeed::Const("gate_config".to_string())],
            signer: false,
            embedded: false,
        }],
        source: "my_ext".to_string(),
        embedded_offset: None,
    }];
    let embeds = vec![Embed {
        source: "my_ext".to_string(),
        carrier: None,
        state_type: "my_ext::ExtConfig".to_string(),
        decl: EmbedDecl {
            role: "nonexistent".to_string(),
            account: "prog_config".to_string(),
            offset: OffsetSpec::Literal(8),
            initializer: None,
        },
    }];
    let consumer_fns = vec![func(r##"
        pub fn initialize(
            #[account(init, pda = literal("prog_config"))] mut prog_config: AccountWithMetadata,
        ) -> SpelResult {
            todo!()
        }
    "##)];
    let err = rewrite_embedded_roles(&mut specs, &embeds, &consumer_fns).unwrap_err();
    assert!(
        err.contains("my_ext") && err.contains("nonexistent"),
        "got: {err}"
    );
}

#[test]
fn rewritten_role_keeps_kwarg_key_and_injects_consumer_name() {
    let mut specs = vec![InjectSpec {
        wrapper: "my_gate".to_string(),
        accounts: vec![InjectAccount {
            name: "gate_config".to_string(),
            role: "gate_config".to_string(),
            seeds: vec![InjectSeed::Const("gate_config".to_string())],
            signer: false,
            embedded: false,
        }],
        source: "my_ext".to_string(),
        embedded_offset: None,
    }];
    let embeds = vec![Embed {
        source: "my_ext".to_string(),
        carrier: None,
        state_type: "my_ext::ExtConfig".to_string(),
        decl: EmbedDecl {
            role: "gate_config".to_string(),
            account: "prog_config".to_string(),
            offset: OffsetSpec::Literal(32),
            initializer: None,
        },
    }];
    let consumer_fns = vec![func(r##"
        pub fn initialize(
            #[account(init, pda = literal("prog_config"))] mut prog_config: AccountWithMetadata,
        ) -> SpelResult {
            todo!()
        }
    "##)];
    rewrite_embedded_roles(&mut specs, &embeds, &consumer_fns).unwrap();
    let acc = &specs[0].accounts[0];
    assert_eq!(
        acc.name, "prog_config",
        "param name takes the consumer account"
    );
    assert_eq!(acc.role, "gate_config", "kwarg key keeps the role");

    // A gated fn that does not declare the embedding account gets it
    // injected under the consumer's name, PDA-verified.
    let mut func = func(r##"
        #[my_gate]
        pub fn emergency(value: u64) -> SpelResult {
            todo!()
        }
    "##);
    let injected =
        apply_wrap_and_inject(&mut func, &Vec::new(), &specs, &embeds, GateLocations::Emit, None).unwrap();
    assert_eq!(injected, vec!["prog_config".to_string()]);
    let expected: Attribute =
        attrs(r##"#[my_gate(gate_config = prog_config, offset = 32)]"##).remove(0);
    assert_eq!(func.attrs.first(), Some(&expected));
    let names: Vec<String> = param_names(&func);
    assert_eq!(names, vec!["prog_config".to_string(), "value".to_string()]);
}

#[test]
fn discovery_collects_inject_specs() {
    let tmp = TempDir::new("discover-inject");
    let mod_attrs = ext_fixture(
        &tmp,
        r#"
[package.metadata.spel]
extension_attr = "my_ext"

[[package.metadata.spel.inject]]
wrapper = "my_gate"

  [[package.metadata.spel.inject.account]]
  name = "gate_config"
  seed = { const = "gate_config" }
"#,
        r#"
#[instruction]
pub fn ext_action(account: AccountWithMetadata) -> SpelResult { todo!() }
"#,
    );
    let graph = resolve(&tmp, &tmp.path().join("user"));
    let ext = discover(&tmp, &graph, &mod_attrs)
        .expect("inject block must be collected");
    assert_eq!(ext.inject_specs.len(), 1);
    assert_eq!(ext.inject_specs[0].wrapper, "my_gate");
}

#[test]
fn contributions_follow_marker_order_not_dep_order() {
    // Two extensions, both matched. The module lists ext_b's marker
    // first, so ext_b contributes first, regardless of dep-walk order.
    let tmp = TempDir::new("marker-order");
    for name in ["ext-a", "ext-b"] {
        let ident = name.replace('-', "_");
        tmp.write(
            &format!("{name}/Cargo.toml"),
            &format!(
                r#"
[package]
name = "{name}"
version = "0.1.0"
edition = "2021"

[package.metadata.spel]
extension_attr = "{ident}"

[[package.metadata.spel.inject]]
wrapper = "{ident}_gate"

  [[package.metadata.spel.inject.account]]
  name = "{ident}_config"
  seed = {{ const = "{ident}_config" }}
"#
            ),
        );
        tmp.write(
            &format!("{name}/src/lib.rs"),
            &format!(
                r#"
#[instruction]
pub fn {ident}_action(account: AccountWithMetadata) -> SpelResult {{ todo!() }}
"#
            ),
        );
    }
    tmp.write(
        "user/Cargo.toml",
        r#"
[package]
name = "user"
version = "0.1.0"
edition = "2021"

[dependencies]
ext-a = { path = "../ext-a" }
ext-b = { path = "../ext-b" }
"#,
    );
    tmp.write("user/src/lib.rs", "");

    let graph = resolve(&tmp, &tmp.path().join("user"));

    let b_first = attrs(r##"#[lez_program] #[ext_b] #[ext_a]"##);
    let ext = discover(&tmp, &graph, &b_first).unwrap();
    assert_eq!(ext.inject_specs[0].wrapper, "ext_b_gate");
    assert_eq!(ext.inject_specs[1].wrapper, "ext_a_gate");
    assert_eq!(ext.instructions[0].0.name, "ext_b_action");
    assert_eq!(ext.instructions[1].0.name, "ext_a_action");

    // Flip the markers: order flips with them.
    let a_first = attrs(r##"#[lez_program] #[ext_a] #[ext_b]"##);
    let ext = discover(&tmp, &graph, &a_first).unwrap();
    assert_eq!(ext.inject_specs[0].wrapper, "ext_a_gate");
    assert_eq!(ext.inject_specs[1].wrapper, "ext_b_gate");
}

#[test]
fn marker_above_lez_program_is_a_hard_error() {
    let tmp = TempDir::new("marker-above-lez");
    ext_fixture(
        &tmp,
        r#"
[package.metadata.spel]
extension_attr = "my_ext"
"#,
        r#"
#[instruction]
pub fn ext_action(account: AccountWithMetadata) -> SpelResult { todo!() }
"#,
    );
    // Same fixture, but the marker sits above #[lez_program], the order
    // the compiled program cannot see.
    let mod_attrs = attrs(r##"#[my_ext] #[lez_program]"##);

    let graph = resolve(&tmp, &tmp.path().join("user"));
    let err = discover(&tmp, &graph, &mod_attrs)
        .expect_err("marker above lez_program must fail discovery");
    assert!(
        err.contains("above #[lez_program]"),
        "unexpected error: {err}"
    );
}

#[test]
fn marker_below_lez_program_is_accepted() {
    let tmp = TempDir::new("marker-below-lez");
    // ext_fixture returns #[lez_program] #[my_ext], the correct order.
    let mod_attrs = ext_fixture(
        &tmp,
        r#"
[package.metadata.spel]
extension_attr = "my_ext"
"#,
        r#"
#[instruction]
pub fn ext_action(account: AccountWithMetadata) -> SpelResult { todo!() }
"#,
    );

    let graph = resolve(&tmp, &tmp.path().join("user"));
    let ext = discover(&tmp, &graph, &mod_attrs)
        .expect("marker below lez_program must be accepted");
    assert_eq!(ext.instructions.len(), 1);
}

#[test]
fn malformed_extension_attr_is_a_hard_error() {
    let tmp = TempDir::new("malformed-ext-attr");
    let mod_attrs = ext_fixture(
        &tmp,
        r#"
[package.metadata.spel]
extension_attr = 42
"#,
        "",
    );
    let err = discover_instructions(&tmp, &mod_attrs, &mut Vec::new())
        .expect_err("wrong-shaped extension_attr must fail, not degrade to no-extension");
    assert!(err.contains("extension_attr"), "unhelpful error: {err}");
}

#[test]
fn unreadable_consumer_manifest_warns() {
    let tmp = TempDir::new("no-consumer-manifest");
    // consumer dir exists but has no Cargo.toml at all
    tmp.write("user/src/lib.rs", "");
    let mod_attrs = attrs(r##"#[my_ext]"##);

    let mut warnings = Vec::new();
    let found = discover_instructions(&tmp, &mod_attrs, &mut warnings)
    .unwrap();
    assert!(found.is_empty());
    assert!(!warnings.is_empty(), "failure must be loud, got silence");
}

#[test]
fn wrap_only_extension_does_not_warn() {
    // No #[instruction] fns and no inject specs: a library whose whole
    // contribution is the auto-wrap config is a valid extension.
    let tmp = TempDir::new("wrap-only-ext");
    let mod_attrs = ext_fixture(
        &tmp,
        r#"
[package.metadata.spel]
extension_attr = "my_ext"

[package.metadata.spel.wrap_instructions]
wrapper = "my_ext_macros::gate"
self_exempt_marker = "my_exempt"
"#,
        "",
    );
    let mut warnings = Vec::new();
    let found = discover_instructions(&tmp, &mod_attrs, &mut warnings)
    .unwrap();
    assert!(found.is_empty());
    assert!(
        warnings.is_empty(),
        "wrap-only extension is legitimate, got: {warnings:?}"
    );
}

#[test]
fn inject_only_extension_does_not_warn() {
    // A library contributing only gate param inject specs is valid too.
    let tmp = TempDir::new("inject-only-ext");
    let mod_attrs = ext_fixture(
        &tmp,
        r#"
[package.metadata.spel]
extension_attr = "my_ext"

[[package.metadata.spel.inject]]
wrapper = "my_gate"

  [[package.metadata.spel.inject.account]]
  name = "gate_config"
  seed = { const = "gate_config" }
"#,
        "",
    );
    let mut warnings = Vec::new();
    let found = discover_instructions(&tmp, &mod_attrs, &mut warnings)
    .unwrap();
    assert!(found.is_empty());
    assert!(
        warnings.is_empty(),
        "inject-only extension is legitimate, got: {warnings:?}"
    );
}

#[test]
fn extension_contributing_nothing_warns() {
    let tmp = TempDir::new("nothing-ext");
    let mod_attrs = ext_fixture(
        &tmp,
        r#"
[package.metadata.spel]
extension_attr = "my_ext"
"#,
        "", // no fns AND no gate attrs: almost certainly a broken layout
    );
    let mut warnings = Vec::new();
    let found = discover_instructions(&tmp, &mod_attrs, &mut warnings)
    .unwrap();
    assert!(found.is_empty());
    assert!(
        warnings.iter().any(|w| w.contains("my_ext")),
        "matched-but-empty extension must warn, got: {warnings:?}"
    );
}

#[test]
fn discover_extension_instructions_skips_when_attr_absent_on_mod() {
    let tmp = TempDir::new("discover-skip-attr");
    // The fixture's own marker attrs are discarded: this test is
    // about a module that carries no extension marker at all.
    ext_fixture(
        &tmp,
        r#"
[package.metadata.spel]
extension_attr = "my_ext"
"#,
        r#"#[instruction] pub fn ext_action() -> SpelResult { todo!() }"#,
    );
    let mod_attrs = attrs(r##"#[lez_program]"##);

    let found =
        discover_instructions(&tmp, &mod_attrs, &mut Vec::new()).unwrap();
    assert!(found.is_empty(), "should skip — no matching attr on mod");
}

#[test]
fn discover_extension_instructions_skips_deps_without_metadata() {
    let tmp = TempDir::new("discover-skip-no-meta");

    tmp.write(
        "lib-no-meta/Cargo.toml",
        r#"
[package]
name = "lib-no-meta"
version = "0.1.0"
edition = "2021"
"#,
    );
    tmp.write(
        "lib-no-meta/src/lib.rs",
        r#"#[instruction] pub fn whatever() -> SpelResult { todo!() }"#,
    );
    tmp.write(
        "user/Cargo.toml",
        r#"
[package]
name = "user"
version = "0.1.0"
edition = "2021"

[dependencies]
lib-no-meta = { path = "../lib-no-meta" }
"#,
    );
    tmp.write("user/src/lib.rs", "");

    let mod_attrs = attrs(r##"#[lez_program] #[whatever]"##);

    let found =
        discover_instructions(&tmp, &mod_attrs, &mut Vec::new()).unwrap();
    assert!(found.is_empty(), "non-extension deps must not be scanned");
}

#[test]
fn duplicate_names_error_names_both_sources() {
    let pairs = vec![
        ("update_value".to_string(), "this module".to_string()),
        (
            "admin_initialize".to_string(),
            "extension my_ext".to_string(),
        ),
        ("update_value".to_string(), "extension my_ext".to_string()),
    ];
    let err =
        check_duplicate_instruction_names(&pairs).expect_err("colliding names must be rejected");
    assert!(
        err.contains("update_value"),
        "must name the instruction: {err}"
    );
    assert!(
        err.contains("this module"),
        "must name the first source: {err}"
    );
    assert!(err.contains("my_ext"), "must name the second source: {err}");
}

#[test]
fn unique_names_pass_duplicate_check() {
    let pairs = vec![
        ("update_value".to_string(), "this module".to_string()),
        (
            "admin_initialize".to_string(),
            "extension my_ext".to_string(),
        ),
    ];
    assert!(check_duplicate_instruction_names(&pairs).is_ok());
}

// Resolving carriers and writing location kwargs are one decision:
// a producer that writes a location is exactly the one that resolved
// the carrier it names.
#[test]
fn carriers_decide_whether_locations_are_written() {
    let prepared = nothing()
        .prepare(&Vec::new(), Carriers::Resolve(&Vec::new()))
        .expect("nothing to resolve");
    assert_eq!(prepared.locations, GateLocations::Emit);

    let prepared = nothing()
        .prepare(&Vec::new(), Carriers::Skip)
        .expect("nothing to resolve");
    assert_eq!(prepared.locations, GateLocations::Omit);
}

// A producer holding a resolved graph hands it to IDL generation
// instead of paying for a second resolution of one manifest. The
// document must not depend on which entry point produced it.
#[test]
fn graph_entry_point_matches_the_dep_dirs_one() {
    let tmp = TempDir::new("idl-graph-entry");
    tmp.write(
        "my-ext/Cargo.toml",
        r#"
[package]
name = "my-ext"
version = "0.1.0"
edition = "2021"

[package.metadata.spel]
extension_attr = "my_ext"
"#,
    );
    tmp.write(
        "my-ext/src/lib.rs",
        r#"
#[instruction]
pub fn ext_action(account: AccountWithMetadata) -> SpelResult { todo!() }

#[account_type]
pub struct ExtState { pub v: u64 }
"#,
    );
    tmp.write(
        "user/Cargo.toml",
        r#"
[package]
name = "user"
version = "0.1.0"
edition = "2021"

[dependencies]
my-ext = { path = "../my-ext" }
"#,
    );
    tmp.write(
        "user/src/main.rs",
        r#"
#[lez_program]
#[my_ext]
mod user_program {
#[instruction]
pub fn update_value(account: AccountWithMetadata, value: u64) -> SpelResult { todo!() }
}
"#,
    );

    let source = tmp.path().join("user/src/main.rs");
    let graph = tmp.ask(|d, w| resolve_dep_graph(d, &source, true, w)).0;
    let dirs = graph.transitive_dirs.dup();

    let from_graph = idl(&tmp, |d, w| {
        generate_idl_from_file_with_graph(d, &source, graph.dup(), w)
    })
    .expect("generation over a caller-supplied graph");
    let from_dirs = idl(&tmp, |d, w| generate_idl_from_file_with_deps(d, &source, &dirs, w))
        .expect("generation that resolves its own graph");

    assert_eq!(
        from_graph, from_dirs,
        "the graph the caller supplies must not change the document"
    );
    assert!(
        from_graph
            .instructions
            .iter()
            .any(|i| i.name == "ext_action"),
        "the extension's instruction must survive both paths: {:?}",
        from_graph.instructions
    );
}

#[test]
fn user_fn_colliding_with_extension_fails_idl_generation() {
    let tmp = TempDir::new("dup-user-vs-ext");
    tmp.write(
        "my-ext/Cargo.toml",
        r#"
[package]
name = "my-ext"
version = "0.1.0"
edition = "2021"

[package.metadata.spel]
extension_attr = "my_ext"
"#,
    );
    tmp.write(
        "my-ext/src/lib.rs",
        r#"
#[instruction]
pub fn ext_action(account: AccountWithMetadata) -> SpelResult { todo!() }
"#,
    );
    tmp.write(
        "user/Cargo.toml",
        r#"
[package]
name = "user"
version = "0.1.0"
edition = "2021"

[dependencies]
my-ext = { path = "../my-ext" }
"#,
    );
    // Consumer defines an instruction with the SAME name the
    // extension provides.
    tmp.write(
        "user/src/main.rs",
        r#"
#[lez_program]
#[my_ext]
mod user_program {
#[instruction]
pub fn ext_action(account: AccountWithMetadata) -> SpelResult { todo!() }
}
"#,
    );

    let source = tmp.path().join("user/src/main.rs");
    let err = idl(&tmp, |d, w| generate_idl_from_file_with_deps(d, &source, &Vec::new(), w))
    .expect_err("colliding user and extension instruction must fail IDL generation");
    let msg = format!("{err:?}");
    assert!(
        msg.contains("ext_action"),
        "must name the instruction: {msg}"
    );
}

#[test]
fn omitted_skip_keeps_wrap_active() {
    // No skip word declared means no opt-out: a bare marker must not
    // accidentally match an empty-string default and turn wrap off.
    let tmp = TempDir::new("wrap-no-skip");
    wrap_fixture(
        &tmp,
        r#"
[package.metadata.spel.wrap_instructions]
wrapper = "my_ext_macros::gate"
self_exempt_marker = "my_exempt"
"#,
    );
    let bare = attrs(r##"#[lez_program] #[my_ext]"##);
    let graph = resolve(&tmp, &tmp.path().join("user"));
    let ext = discover(&tmp, &graph, &bare).unwrap();
    assert_eq!(ext.wraps.len(), 1);
    assert_eq!(ext.wraps[0].0, "");
    assert!(ext.wraps[0].1.skip.is_none());
}

#[test]
fn discovery_pairs_wrap_with_marker_arg() {
    let tmp = TempDir::new("wrap-discover-arg");
    wrap_fixture(
        &tmp,
        r#"
[package.metadata.spel.wrap_instructions]
wrapper = "my_ext_macros::gate"
skip = "manual"
self_exempt_marker = "my_exempt"
"#,
    );

    // Bare marker: arg is "".
    let bare = attrs(r##"#[lez_program] #[my_ext]"##);
    let graph = resolve(&tmp, &tmp.path().join("user"));
    let ext = discover(&tmp, &graph, &bare).unwrap();
    assert_eq!(ext.wraps.len(), 1);
    assert_eq!(ext.wraps[0].0, "");

    // Marker with ident arg: arg is the ident (skip matching happens
    // at the producer).
    let manual = attrs(r##"#[lez_program] #[my_ext(manual)]"##);
    let ext = discover(&tmp, &graph, &manual).unwrap();
    assert_eq!(ext.wraps[0].0, "manual");
}

#[test]
fn discovery_skips_wrap_when_attr_absent_on_mod() {
    let tmp = TempDir::new("wrap-discover-absent");
    wrap_fixture(
        &tmp,
        r#"
[package.metadata.spel.wrap_instructions]
wrapper = "my_ext_macros::gate"
self_exempt_marker = "my_exempt"
"#,
    );
    let attrs = attrs(r##"#[lez_program]"##);
    let graph = resolve(&tmp, &tmp.path().join("user"));
    let ext = discover(&tmp, &graph, &attrs).unwrap();
    assert!(ext.wraps.is_empty());
}

// The dedicated-mode default fills a missing embed, never a derived
// one: deriving is a resolution, and a default of 0 silently
// pointing every gate at offset 0 is the failure this pins against.
#[test]
fn derived_embed_never_falls_back_to_the_default() {
    let bound = BoundArg {
        arg: "offset".into(),
        from: "offset".into(),
        default: Some(0),
    };
    let embed = EmbedDecl {
        role: "gate_config".into(),
        account: "cfg".into(),
        offset: OffsetSpec::Derived,
        initializer: None,
    };
    let v = resolve_bound_value(&bound, Some(embed), &Vec::new(), "my-ext").expect("resolves");
    assert_eq!(
        v,
        BoundValue::Derived {
            role: "gate_config".into()
        }
    );
}

// No embed at all is what the default is for.
#[test]
fn absent_embed_falls_back_to_the_default() {
    let bound = BoundArg {
        arg: "offset".into(),
        from: "offset".into(),
        default: Some(0),
    };
    let v = resolve_bound_value(&bound, None, &Vec::new(), "my-ext").expect("resolves");
    assert_eq!(v, BoundValue::Literal(0));
}

fn anchor_meta(anchor: Option<(&str, &str)>) -> EmbeddedMeta {
    EmbeddedMeta {
        anchor: anchor.map(|(attr, role)| EmbedAnchor {
            attr: attr.to_string(),
            role: role.to_string(),
        }),
        skip: Vec::new(),
        state_type: None,
    }
}

fn kwarg_embed() -> EmbedDecl {
    EmbedDecl {
        role: "ext_config".into(),
        account: "cfg".into(),
        offset: OffsetSpec::Literal(32),
        initializer: None,
    }
}

// The four arms of the embed decision, in one place.
#[test]
fn marker_kwarg_with_anchor_metadata_refuses() {
    let err = resolve_embed_decl(
        Some(kwarg_embed()),
        &anchor_meta(Some(("ext_init", "ext_config"))),
        &Vec::new(),
        "my-ext",
        "my_ext",
    )
    .expect_err("two writers must refuse");
    assert!(err.contains("anchor") && err.contains("my_ext"), "{err}");
}

#[test]
fn marker_kwarg_without_anchor_passes_through() {
    let embed = resolve_embed_decl(
        Some(kwarg_embed()),
        &anchor_meta(None),
        &Vec::new(),
        "my-ext",
        "my_ext",
    )
    .unwrap()
    .expect("the kwarg decl survives");
    assert_eq!(embed.account, "cfg");
}

#[test]
fn anchor_without_kwarg_infers_from_the_module() {
    let items = parse_source(
        "#[ext_init]\npub fn initialize(#[account(init)] cfg: A) -> R { todo!() }",
    ).unwrap();
    let embed = resolve_embed_decl(
        None,
        &anchor_meta(Some(("ext_init", "ext_config"))),
        &items,
        "my-ext",
        "my_ext",
    )
    .unwrap()
    .expect("the anchor infers");
    assert_eq!(embed.account, "cfg");
    assert_eq!(embed.offset, OffsetSpec::Derived);
}

#[test]
fn neither_kwarg_nor_anchor_is_dedicated() {
    let embed = resolve_embed_decl(None, &anchor_meta(None), &Vec::new(), "my-ext", "my_ext").unwrap();
    assert!(embed.is_none());
}

// The reason inference lives in discovery: embedded.skip filters the
// instruction set right there, so an inferred embed must drop the
// extension's initializer exactly like a kwarg-declared one.
#[test]
fn anchored_extension_infers_embed_and_skips_initializer() {
    let tmp = TempDir::new("program-deps-anchored");
    let mod_attrs = ext_fixture(
        &tmp,
        r#"
[package.metadata.spel]
extension_attr = "my_ext"

[package.metadata.spel.embedded]
skip = ["ext_init"]
state_type = "my_ext::ExtConfig"
anchor_attr = "ext_init"
anchor_role = "ext_config"
"#,
        r#"
#[instruction]
pub fn ext_init(account: AccountWithMetadata) -> SpelResult { todo!() }
#[instruction]
pub fn ext_action(account: AccountWithMetadata) -> SpelResult { todo!() }
"#,
    );
    let items = parse_source(
        "#[ext_init]\npub fn initialize(#[account(init)] my_cfg: A) -> R { todo!() }",
    ).unwrap();

    let deps = program_deps(&tmp, &mod_attrs, &items, &mut Vec::new())
        .expect("anchored discovery succeeds");
    assert_eq!(
        deps.extensions.embeds,
        vec![Embed {
            source: "my_ext".to_string(),
            carrier: None,
            state_type: "my_ext::ExtConfig".to_string(),
            decl: EmbedDecl {
                role: "ext_config".into(),
                account: "my_cfg".into(),
                offset: OffsetSpec::Derived,
                initializer: Some("ext_init".into()),
            },
        }]
    );
    let names: Vec<String> = deps
        .extensions
        .instructions
        .iter()
        .map(|(f, _)| f.name.clone())
        .collect();
    assert!(
        !names.contains(&"ext_init".to_string()),
        "the skip filter must fire on an inferred embed: {names:?}"
    );
    assert!(names.contains(&"ext_action".to_string()), "{names:?}");
}
