//! The dependency graph of a crate.
use std::cell::RefCell;
use std::collections::{BTreeMap, BTreeSet};
use spel_framework_core::dep_walk::{path_dep_dirs, resolve_dep_graph, DepGraph};
use spel_framework_core::disk::{Contents, Disk, Kind, Listed, Metadata, Query};
use spel_framework_core::path::DirPath;

/// A directory tree in memory that answers the questions asked about it.
#[allow(dead_code)]
struct TempDir {
    files: RefCell<BTreeMap<Vec<String>, String>>,
}

#[allow(dead_code)]
impl TempDir {
    fn new(_label: &str) -> TempDir {
        TempDir { files: RefCell::new(BTreeMap::new()) }
    }

    fn path(&self) -> DirPath {
        DirPath::new("/tree")
    }

    fn write(&self, rel: &str, text: &str) -> DirPath {
        let p = self.path().join(rel);
        self.files.borrow_mut().insert(TempDir::normal(&p), text.to_string());
        p
    }

    fn normal(p: &DirPath) -> Vec<String> {
        let mut out: Vec<String> = Vec::new();
        for part in &p.parts {
            if part == ".." {
                out.pop();
            } else if part != "." && !part.is_empty() {
                out.push(part.clone());
            }
        }
        out
    }

    fn canonical(&self, p: &DirPath) -> Option<DirPath> {
        match self.kind(p) {
            Kind::Absent => None,
            _ => Some(DirPath { absolute: true, parts: TempDir::normal(p) }),
        }
    }

    fn kind(&self, p: &DirPath) -> Kind {
        let n = TempDir::normal(p);
        let files = self.files.borrow();
        if files.contains_key(&n) {
            Kind::File
        } else if files.keys().any(|k| k.len() > n.len() && k[..n.len()] == n[..]) {
            Kind::Dir
        } else {
            Kind::Absent
        }
    }

    fn read(&self, p: &DirPath) -> Option<String> {
        self.files.borrow().get(&TempDir::normal(p)).cloned()
    }

    fn list(&self, p: &DirPath) -> Option<Vec<Listed>> {
        let n = TempDir::normal(p);
        let mut names: BTreeMap<String, bool> = BTreeMap::new();
        for k in self.files.borrow().keys() {
            if k.len() > n.len() && k[..n.len()] == n[..] {
                names.insert(k[n.len()].clone(), k.len() > n.len() + 1);
            }
        }
        if names.is_empty() {
            return None;
        }
        Some(names.into_iter().map(|(name, d)| Listed { name, is_dir: Some(d) }).collect())
    }

    /// What cargo would say of a manifest whose dependencies are all local.
    fn metadata(&self, manifest: &DirPath) -> Metadata {
        let mut packages = Vec::new();
        let mut nodes = Vec::new();
        let mut todo = vec![TempDir::normal(manifest)];
        let mut seen: Vec<Vec<String>> = Vec::new();
        while let Some(m) = todo.pop() {
            if seen.contains(&m) {
                continue;
            }
            seen.push(m.clone());
            let p = DirPath { absolute: true, parts: m.clone() };
            let Some(text) = self.read(&p) else {
                return Metadata::Failed("no manifest".to_string());
            };
            let Ok(v) = toml::from_str::<toml::Value>(&text) else {
                return Metadata::Failed("bad manifest".to_string());
            };
            let version = v["package"].get("version").and_then(|v| v.as_str()).unwrap_or("0.0.0");
            if version.contains("not-a") {
                return Metadata::Failed("bad version".to_string());
            }
            let mut deps = Vec::new();
            for (table, kind) in [("dependencies", "null"), ("dev-dependencies", "\"dev\"")] {
                let Some(t) = v.get(table).and_then(|t| t.as_table()) else {
                    continue;
                };
                for dep in t.values() {
                    let Some(rel) = dep.get("path").and_then(|p| p.as_str()) else {
                        return Metadata::Failed("not fetched".to_string());
                    };
                    let d = TempDir::normal(&p.parent().unwrap().join(rel).join("Cargo.toml"));
                    deps.push(format!(
                        "{{\"pkg\": \"/{}\", \"dep_kinds\": [{{\"kind\": {kind}}}]}}",
                        d.join("/")
                    ));
                    todo.push(d);
                }
            }
            let id = format!("/{}", m.join("/"));
            packages.push(format!("{{\"id\": \"{id}\", \"manifest_path\": \"{id}\"}}"));
            nodes.push(format!("{{\"id\": \"{id}\", \"deps\": [{}]}}", deps.join(", ")));
        }
        let root = format!("/{}", TempDir::normal(manifest).join("/"));
        Metadata::Output(format!(
            "{{\"packages\": [{}], \"workspace_members\": [\"{root}\"], \"resolve\": {{\"root\": \"{root}\", \"nodes\": [{}]}}}}",
            packages.join(", "),
            nodes.join(", ")
        ))
    }

    fn answer(&self, disk: &mut Disk, q: Query) {
        match q {
            Query::Kind(p) => {
                let k = self.kind(&p);
                disk.kinds.push((p, k));
            }
            Query::Read(p) => {
                let c = match self.read(&p) {
                    Some(text) => Contents::Text(text),
                    None => Contents::Failed("no such file".to_string()),
                };
                disk.files.push((p, c));
            }
            Query::Canonical(p) => {
                let c = self.canonical(&p);
                disk.canonical.push((p, c));
            }
            Query::List(p) => {
                let l = self.list(&p);
                disk.lists.push((p, l));
            }
            Query::Metadata(p) => {
                let m = self.metadata(&p);
                disk.metadata.push((p, m));
            }
        }
    }

    /// Repeats `work` with one more answer each time, until it asks nothing.
    fn ask<T>(&self, work: impl Fn(&Disk, &mut Vec<String>) -> Result<T, Query>) -> (T, Vec<String>) {
        let mut disk = Disk::unknown();
        loop {
            let mut warnings = Vec::new();
            match work(&disk, &mut warnings) {
                Ok(x) => return (x, warnings),
                Err(q) => self.answer(&mut disk, q),
            }
        }
    }
}

fn graph(tmp: &TempDir, start: &DirPath, with_metadata: bool) -> (DepGraph, Vec<String>) {
    tmp.ask(|d, w| resolve_dep_graph(d, start, with_metadata, w))
}

fn ends_with(p: &DirPath, name: &str) -> bool {
    p.parts.last().is_some_and(|n| n == name)
}

#[test]
fn path_dep_dirs_follows_transitive_path_deps() {
    let tmp = TempDir::new("path-dep-dirs");
    for d in ["a", "b", "c"] {
        tmp.write(&format!("{d}/src/lib.rs"), "");
    }
    tmp.write(
        "a/Cargo.toml",
        "[package]\nname = \"a\"\nversion = \"0.1.0\"\n[dependencies]\nb = { path = \"../b\" }\n",
    );
    tmp.write(
        "b/Cargo.toml",
        "[package]\nname = \"b\"\nversion = \"0.1.0\"\n[dependencies]\nc = { path = \"../c\" }\n",
    );
    tmp.write("c/Cargo.toml", "[package]\nname = \"c\"\nversion = \"0.1.0\"\n");

    let (dirs, _) = tmp.ask(|d, _| path_dep_dirs(d, &tmp.path().join("a/Cargo.toml")));
    let has = |needle: &DirPath| {
        let n = TempDir::normal(needle);
        dirs.iter().any(|d| TempDir::normal(d) == n)
    };
    assert!(has(&tmp.path().join("b")), "direct path dep missing: {dirs:?}");
    assert!(has(&tmp.path().join("c")), "transitive path dep missing: {dirs:?}");
}

#[test]
fn resolve_dep_graph_returns_local_path_deps() {
    let tmp = TempDir::new("find-path-deps");

    tmp.write(
        "core/Cargo.toml",
        r#"
[package]
name = "token_core"
version = "0.1.0"
edition = "2021"
"#,
    );
    tmp.write("core/src/lib.rs", "");

    tmp.write(
        "methods/guest/Cargo.toml",
        r#"
[package]
name = "token-guest"
version = "0.1.0"
edition = "2021"

[dependencies]
token_core = { path = "../../core" }
"#,
    );
    let program = tmp.write("methods/guest/src/bin/token.rs", "");

    let dirs = graph(&tmp, &program, true).0.transitive_dirs;
    assert_eq!(dirs.len(), 1);
    assert!(
        ends_with(&dirs[0], "core"),
        "expected core dir, got {:?}",
        dirs[0]
    );
}

#[test]
fn resolve_dep_graph_falls_back_to_path_only_when_metadata_fails() {
    // The fake `https://example.com/repo.git` URL makes `cargo metadata`
    // fail (cannot resolve the git dep). The registry version dep on
    // `serde` also fails because the temporary workspace has no
    // Cargo.lock. `resolve_dep_graph` should degrade gracefully and
    // still return the path-dep, proving the fallback path works.
    let tmp = TempDir::new("find-path-deps-filter");

    tmp.write(
        "core/Cargo.toml",
        r#"
[package]
name = "token_core"
version = "0.1.0"
edition = "2021"
"#,
    );
    tmp.write("core/src/lib.rs", "");

    tmp.write(
        "methods/guest/Cargo.toml",
        r#"
[package]
name = "token-guest"
version = "0.1.0"
edition = "2021"

[dependencies]
token_core = { path = "../../core" }
serde = { version = "1.0" }
nssa_core = { git = "https://example.com/repo.git", tag = "v1.0" }
"#,
    );
    let program = tmp.write("methods/guest/src/bin/token.rs", "");

    let dirs = graph(&tmp, &program, true).0.transitive_dirs;
    assert_eq!(dirs.len(), 1);
    assert!(ends_with(&dirs[0], "core"));
}

#[test]
fn resolve_dep_graph_ignores_dev_and_build_deps() {
    let tmp = TempDir::new("find-path-deps-dev-build");

    tmp.write(
        "core/Cargo.toml",
        r#"
[package]
name = "token_core"
version = "0.1.0"
edition = "2021"
"#,
    );
    tmp.write("core/src/lib.rs", "");
    tmp.write(
        "test_helpers/Cargo.toml",
        r#"
[package]
name = "test_helpers"
version = "0.1.0"
edition = "2021"
"#,
    );
    tmp.write("test_helpers/src/lib.rs", "");

    tmp.write(
        "methods/guest/Cargo.toml",
        r#"
[package]
name = "token-guest"
version = "0.1.0"
edition = "2021"

[dependencies]
token_core = { path = "../../core" }

[dev-dependencies]
test_helpers = { path = "../../test_helpers" }
"#,
    );
    let program = tmp.write("methods/guest/src/bin/token.rs", "");

    let dirs = graph(&tmp, &program, true).0.transitive_dirs;
    assert_eq!(dirs.len(), 1, "expected only core, got: {dirs:?}");
    assert!(ends_with(&dirs[0], "core"));
}

#[test]
fn resolve_dep_graph_resolves_transitive_deps() {
    let tmp = TempDir::new("transitive-deps");

    // shared_types -> core -> guest
    tmp.write(
        "shared/Cargo.toml",
        r#"
[package]
name = "shared_types"
version = "0.1.0"
edition = "2021"
"#,
    );
    tmp.write("shared/src/lib.rs", "");

    tmp.write(
        "core/Cargo.toml",
        r#"
[package]
name = "token_core"
version = "0.1.0"
edition = "2021"

[dependencies]
shared_types = { path = "../shared" }
"#,
    );
    tmp.write("core/src/lib.rs", "");

    tmp.write(
        "methods/guest/Cargo.toml",
        r#"
[package]
name = "token-guest"
version = "0.1.0"
edition = "2021"

[dependencies]
token_core = { path = "../../core" }
"#,
    );
    let program = tmp.write("methods/guest/src/bin/token.rs", "");

    let dirs = graph(&tmp, &program, true).0.transitive_dirs;
    assert_eq!(dirs.len(), 2, "expected core and shared, got: {dirs:?}");
    let names: Vec<&str> = dirs
        .iter()
        .map(|d| d.parts.last().unwrap().as_str())
        .collect();
    assert!(names.contains(&"core"));
    assert!(names.contains(&"shared"));
}

#[test]
fn resolve_dep_graph_dedups_diamond_graph() {
    // Diamond dep graph: sample → ext_a (direct), sample → ext_b → ext_a (transitive).
    // The buggy version of `resolve_path_deps_recursive` pushes ext_a to the
    // returned Vec twice — once via the direct edge, once via ext_b's transitive
    // edge — because the push happens before the visited-set check in the
    // recursive call. Latent on `main` because downstream callers
    // (`collect_items_from_crate_dirs`) have a second dedup layer keyed by
    // canonical source-file path, but a caller that skips that layer sees the
    // duplicate dir and produces duplicate items.
    //
    // This test reproduces the diamond and asserts the returned Vec contains
    // no duplicates by canonical path. Fails on buggy code, passes on the fix.

    let tmp = TempDir::new("diamond");

    tmp.write(
        "ext-a/Cargo.toml",
        r#"
[package]
name = "ext-a"
version = "0.1.0"
edition = "2021"
"#,
    );
    tmp.write("ext-a/src/lib.rs", "");

    tmp.write(
        "ext-b/Cargo.toml",
        r#"
[package]
name = "ext-b"
version = "0.1.0"
edition = "2021"

[dependencies]
ext-a = { path = "../ext-a" }
"#,
    );
    tmp.write("ext-b/src/lib.rs", "");

    tmp.write(
        "sample/Cargo.toml",
        r#"
[package]
name = "sample"
version = "0.1.0"
edition = "2021"

[dependencies]
ext-a = { path = "../ext-a" }
ext-b = { path = "../ext-b" }
"#,
    );
    tmp.write("sample/src/lib.rs", "");

    let dirs = graph(&tmp, &tmp.path().join("sample"), true).0.transitive_dirs;

    // Canonicalise every returned dir, count unique canonical paths.
    // The dirs Vec MUST have no duplicate canonical paths — including ext-a,
    // which is reachable via both the direct edge and ext-b's transitive edge.
    let unique: BTreeSet<Vec<String>> = dirs.iter().map(TempDir::normal).collect();

    assert_eq!(
        unique.len(),
        dirs.len(),
        "resolve_dep_graph returned duplicate canonical paths: {:?}",
        dirs
    );

    // Also assert ext-a is in the result (paranoia: the diamond graph
    // actually got walked, not just an empty result).
    let ext_a_canonical = TempDir::normal(&tmp.path().join("ext-a"));
    assert!(
        unique.contains(&ext_a_canonical),
        "ext-a not in result; diamond walk failed: {:?}",
        dirs
    );
}

#[test]
fn resolve_dep_graph_skips_cargo_metadata_when_disabled() {
    // Same fixture as the falls-back test: if `cargo metadata` ran, the
    // unfetchable git dep would make it fail and warn. With the flag off
    // there must be no warning at all, proving the subprocess never ran.
    let tmp = TempDir::new("skip-metadata");

    tmp.write(
        "core/Cargo.toml",
        r#"
[package]
name = "token_core"
version = "0.1.0"
edition = "2021"
"#,
    );
    tmp.write("core/src/lib.rs", "");

    tmp.write(
        "methods/guest/Cargo.toml",
        r#"
[package]
name = "token-guest"
version = "0.1.0"
edition = "2021"

[dependencies]
token_core = { path = "../../core" }
serde = { version = "1.0" }
nssa_core = { git = "https://example.com/repo.git", tag = "v1.0" }
"#,
    );
    let program = tmp.write("methods/guest/src/bin/token.rs", "");

    let (graph, warnings) = tmp.ask(|d, w| {
        let r = resolve_dep_graph(d, &program, false, w);
        if let Err(Query::Metadata(p)) = &r {
            panic!("cargo is asked about {}", p.display());
        }
        r
    });
    assert!(warnings.is_empty(), "metadata must not run: {warnings:?}");
    assert_eq!(graph.transitive_dirs.len(), 1);
    assert!(ends_with(&graph.transitive_dirs[0], "core"));
}
