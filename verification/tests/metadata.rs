//! Readers of `[package.metadata.spel]` sections.
use std::cell::RefCell;
use std::collections::BTreeMap;
use spel_framework_core::disk::{Contents, Disk, Kind, Listed, Metadata, Query};
use spel_framework_core::path::DirPath;
use spel_framework_core::extension::metadata::{
    read_manifest_value, read_spel_bound_args, read_spel_embedded, read_spel_extension_attr,
    read_spel_inject_specs, read_spel_wrap_instructions, BoundArg, EmbedAnchor, EmbeddedMeta,
};
use spel_framework_core::extension::InjectSeed;
use spel_framework_core::value::Value;

/// A directory tree in memory that answers the questions asked about it.
#[allow(dead_code)]
struct TempDir {
    files: RefCell<BTreeMap<Vec<String>, String>>,
}

#[allow(dead_code)]
impl TempDir {
    fn new(_label: &str) -> TempDir {
        TempDir { files: RefCell::new(BTreeMap::new()) }
    }

    fn path(&self) -> DirPath {
        DirPath::new("/tree")
    }

    fn write(&self, rel: &str, text: &str) -> DirPath {
        let p = self.path().join(rel);
        self.files.borrow_mut().insert(TempDir::normal(&p), text.to_string());
        p
    }

    fn normal(p: &DirPath) -> Vec<String> {
        let mut out: Vec<String> = Vec::new();
        for part in &p.parts {
            if part == ".." {
                out.pop();
            } else if part != "." && !part.is_empty() {
                out.push(part.clone());
            }
        }
        out
    }

    fn canonical(&self, p: &DirPath) -> Option<DirPath> {
        match self.kind(p) {
            Kind::Absent => None,
            _ => Some(DirPath { absolute: true, parts: TempDir::normal(p) }),
        }
    }

    fn kind(&self, p: &DirPath) -> Kind {
        let n = TempDir::normal(p);
        let files = self.files.borrow();
        if files.contains_key(&n) {
            Kind::File
        } else if files.keys().any(|k| k.len() > n.len() && k[..n.len()] == n[..]) {
            Kind::Dir
        } else {
            Kind::Absent
        }
    }

    fn read(&self, p: &DirPath) -> Option<String> {
        self.files.borrow().get(&TempDir::normal(p)).cloned()
    }

    fn list(&self, p: &DirPath) -> Option<Vec<Listed>> {
        let n = TempDir::normal(p);
        let mut names: BTreeMap<String, bool> = BTreeMap::new();
        for k in self.files.borrow().keys() {
            if k.len() > n.len() && k[..n.len()] == n[..] {
                names.insert(k[n.len()].clone(), k.len() > n.len() + 1);
            }
        }
        if names.is_empty() {
            return None;
        }
        Some(names.into_iter().map(|(name, d)| Listed { name, is_dir: Some(d) }).collect())
    }

    /// What cargo would say of a manifest whose dependencies are all local.
    fn metadata(&self, manifest: &DirPath) -> Metadata {
        let mut packages = Vec::new();
        let mut nodes = Vec::new();
        let mut todo = vec![TempDir::normal(manifest)];
        let mut seen: Vec<Vec<String>> = Vec::new();
        while let Some(m) = todo.pop() {
            if seen.contains(&m) {
                continue;
            }
            seen.push(m.clone());
            let p = DirPath { absolute: true, parts: m.clone() };
            let Some(text) = self.read(&p) else {
                return Metadata::Failed("no manifest".to_string());
            };
            let Ok(v) = toml::from_str::<toml::Value>(&text) else {
                return Metadata::Failed("bad manifest".to_string());
            };
            let version = v["package"].get("version").and_then(|v| v.as_str()).unwrap_or("0.0.0");
            if version.contains("not-a") {
                return Metadata::Failed("bad version".to_string());
            }
            let mut deps = Vec::new();
            for (table, kind) in [("dependencies", "null"), ("dev-dependencies", "\"dev\"")] {
                let Some(t) = v.get(table).and_then(|t| t.as_table()) else {
                    continue;
                };
                for dep in t.values() {
                    let Some(rel) = dep.get("path").and_then(|p| p.as_str()) else {
                        return Metadata::Failed("not fetched".to_string());
                    };
                    let d = TempDir::normal(&p.parent().unwrap().join(rel).join("Cargo.toml"));
                    deps.push(format!(
                        "{{\"pkg\": \"/{}\", \"dep_kinds\": [{{\"kind\": {kind}}}]}}",
                        d.join("/")
                    ));
                    todo.push(d);
                }
            }
            let id = format!("/{}", m.join("/"));
            packages.push(format!("{{\"id\": \"{id}\", \"manifest_path\": \"{id}\"}}"));
            nodes.push(format!("{{\"id\": \"{id}\", \"deps\": [{}]}}", deps.join(", ")));
        }
        let root = format!("/{}", TempDir::normal(manifest).join("/"));
        Metadata::Output(format!(
            "{{\"packages\": [{}], \"workspace_members\": [\"{root}\"], \"resolve\": {{\"root\": \"{root}\", \"nodes\": [{}]}}}}",
            packages.join(", "),
            nodes.join(", ")
        ))
    }

    fn answer(&self, disk: &mut Disk, q: Query) {
        match q {
            Query::Kind(p) => {
                let k = self.kind(&p);
                disk.kinds.push((p, k));
            }
            Query::Read(p) => {
                let c = match self.read(&p) {
                    Some(text) => Contents::Text(text),
                    None => Contents::Failed("no such file".to_string()),
                };
                disk.files.push((p, c));
            }
            Query::Canonical(p) => {
                let c = self.canonical(&p);
                disk.canonical.push((p, c));
            }
            Query::List(p) => {
                let l = self.list(&p);
                disk.lists.push((p, l));
            }
            Query::Metadata(p) => {
                let m = self.metadata(&p);
                disk.metadata.push((p, m));
            }
        }
    }

    /// Repeats `work` with one more answer each time, until it asks nothing.
    fn ask<T>(&self, work: impl Fn(&Disk, &mut Vec<String>) -> Result<T, Query>) -> (T, Vec<String>) {
        let mut disk = Disk::unknown();
        loop {
            let mut warnings = Vec::new();
            match work(&disk, &mut warnings) {
                Ok(x) => return (x, warnings),
                Err(q) => self.answer(&mut disk, q),
            }
        }
    }
}

fn manifest(tmp: &TempDir) -> Option<Value> {
    tmp.ask(|d, _| read_manifest_value(d, &tmp.path())).0
}

fn no_embedded() -> EmbeddedMeta {
    EmbeddedMeta { skip: Vec::new(), state_type: None, anchor: None }
}

#[test]
fn read_spel_extension_attr_returns_declared_name() {
    let tmp = TempDir::new("ext-attr-present");
    tmp.write(
        "Cargo.toml",
        r#"
[package]
name = "my-ext"
version = "0.1.0"
edition = "2021"

[package.metadata.spel]
extension_attr = "my_ext"
"#,
    );
    let value = manifest(&tmp).unwrap();
    assert_eq!(
        read_spel_extension_attr(&value, &tmp.path()).unwrap(),
        Some("my_ext".to_string())
    );
}

#[test]
fn read_spel_extension_attr_none_when_missing() {
    let tmp = TempDir::new("ext-attr-absent");
    tmp.write(
        "Cargo.toml",
        "[package]\nname = \"my-ext\"\nversion = \"0.1.0\"\nedition = \"2021\"\n",
    );
    let value = manifest(&tmp).unwrap();
    assert!(read_spel_extension_attr(&value, &tmp.path())
        .unwrap()
        .is_none());
}

#[test]
fn read_manifest_value_none_when_no_manifest() {
    let tmp = TempDir::new("ext-attr-no-manifest");
    assert!(manifest(&tmp).is_none());
}

#[test]
fn read_inject_specs_parses_admin_block() {
    let tmp = TempDir::new("inject-specs");
    tmp.write(
        "Cargo.toml",
        r#"
[package]
name = "x"
version = "0.1.0"
edition = "2021"

[package.metadata.spel]
extension_attr = "my_ext"

[[package.metadata.spel.inject]]
wrapper = "my_gate"

  [[package.metadata.spel.inject.account]]
  name = "gate_config"
  seed = { const = "gate_config" }

  [[package.metadata.spel.inject.account]]
  name = "caller"
  signer = true
"#,
    );
    let value = manifest(&tmp).unwrap();
    let specs = read_spel_inject_specs(&value, &tmp.path()).unwrap();
    assert_eq!(specs.len(), 1);
    assert_eq!(specs[0].wrapper, "my_gate");
    assert_eq!(specs[0].accounts.len(), 2);
    assert!(matches!(
        &specs[0].accounts[0].seeds[..],
        [InjectSeed::Const(s)] if s == "gate_config"
    ));
    assert!(specs[0].accounts[1].signer);
    assert!(specs[0].accounts[1].seeds.is_empty());
}

#[test]
fn malformed_inject_seed_is_a_hard_error() {
    // A bare-string seed used to be swallowed, injecting the account
    // unconstrained where a PDA-verified one was intended.
    let tmp = TempDir::new("inject-bad-seed");
    tmp.write(
        "Cargo.toml",
        r#"
[package]
name = "x"
version = "0.1.0"
edition = "2021"

[[package.metadata.spel.inject]]
wrapper = "my_gate"

  [[package.metadata.spel.inject.account]]
  name = "gate_config"
  seed = "gate_config"
"#,
    );
    let value = manifest(&tmp).unwrap();
    let err = read_spel_inject_specs(&value, &tmp.path())
        .expect_err("bare-string seed must be rejected");
    assert!(err.contains("seed"), "unexpected error: {err}");
}

#[test]
fn malformed_inject_wrapper_is_a_hard_error() {
    let tmp = TempDir::new("inject-bad-wrapper");
    tmp.write(
        "Cargo.toml",
        r#"
[package]
name = "x"
version = "0.1.0"
edition = "2021"

[[package.metadata.spel.inject]]
wrapper = 42
"#,
    );
    let value = manifest(&tmp).unwrap();
    let err = read_spel_inject_specs(&value, &tmp.path())
        .expect_err("non-string wrapper must be rejected");
    assert!(err.contains("wrapper"), "unexpected error: {err}");
}

#[test]
fn read_inject_specs_parses_compound_seed() {
    let tmp = TempDir::new("inject-compound");
    tmp.write(
        "Cargo.toml",
        r#"
[package]
name = "x"
version = "0.1.0"
edition = "2021"

[[package.metadata.spel.inject]]
wrapper = "other_gate"

  [[package.metadata.spel.inject.account]]
  name = "marker_account"
  seed = [{ const = "marker" }, { account = "caller" }]
"#,
    );
    let value = manifest(&tmp).unwrap();
    let specs = read_spel_inject_specs(&value, &tmp.path()).unwrap();
    let seeds = &specs[0].accounts[0].seeds;
    assert_eq!(seeds.len(), 2);
    assert!(matches!(&seeds[0], InjectSeed::Const(s) if s == "marker"));
    assert!(matches!(&seeds[1], InjectSeed::Account(s) if s == "caller"));
}

#[test]
fn malformed_compound_seed_entry_is_a_hard_error() {
    // An entry that is neither const nor account used to be silently
    // skipped, shortening the seed list and deriving a wrong PDA.
    let tmp = TempDir::new("inject-bad-compound");
    tmp.write(
        "Cargo.toml",
        r#"
[package]
name = "x"
version = "0.1.0"
edition = "2021"

[[package.metadata.spel.inject]]
wrapper = "other_gate"

  [[package.metadata.spel.inject.account]]
  name = "marker_account"
  seed = [{ neither = "x" }]
"#,
    );
    let value = manifest(&tmp).unwrap();
    let err = read_spel_inject_specs(&value, &tmp.path())
        .expect_err("unknown seed entry must be rejected");
    assert!(err.contains("seed"), "unexpected error: {err}");
}

#[test]
fn read_wrap_instructions_returns_declared_config() {
    let tmp = TempDir::new("wrap-declared");
    tmp.write(
        "Cargo.toml",
        r#"
[package]
name = "ext-b"
version = "0.1.0"

[package.metadata.spel.wrap_instructions]
wrapper = "ext_b_macros::__inject_gate"
skip = "manual"
self_exempt_marker = "freeze_exempt"
exempt = ["ext_a::action_one", "ext_a::action_two"]
"#,
    );
    let value = manifest(&tmp).unwrap();
    let wrap = read_spel_wrap_instructions(&value, &tmp.path())
        .unwrap()
        .expect("wrap config declared");
    assert_eq!(wrap.wrapper, "ext_b_macros::__inject_gate");
    assert_eq!(wrap.skip.as_deref(), Some("manual"));
    assert_eq!(wrap.self_exempt_marker, "freeze_exempt");
    assert_eq!(wrap.exempt, vec!["ext_a::action_one", "ext_a::action_two"]);
}

#[test]
fn read_wrap_instructions_none_when_section_missing() {
    let tmp = TempDir::new("wrap-absent");
    tmp.write(
        "Cargo.toml",
        r#"
[package]
name = "no-wrap"
version = "0.1.0"

[package.metadata.spel]
extension_attr = "some_other"
"#,
    );
    let value = manifest(&tmp).unwrap();
    assert!(read_spel_wrap_instructions(&value, &tmp.path())
        .unwrap()
        .is_none());
}

#[test]
fn read_wrap_instructions_handles_omitted_optional_fields() {
    let tmp = TempDir::new("wrap-minimal");
    tmp.write(
        "Cargo.toml",
        r#"
[package]
name = "minimal-wrap"
version = "0.1.0"

[package.metadata.spel.wrap_instructions]
wrapper = "minimal::wrapper"
self_exempt_marker = "minimal_exempt"
"#,
    );
    let value = manifest(&tmp).unwrap();
    let wrap = read_spel_wrap_instructions(&value, &tmp.path())
        .unwrap()
        .expect("minimal config");
    assert!(wrap.skip.is_none());
    assert!(wrap.exempt.is_empty());
}

#[test]
fn bound_args_reader_parses_entries() {
    let tmp = TempDir::new("bound-args-ok");
    tmp.write(
        "Cargo.toml",
        r#"
[package]
name = "my-ext"
version = "0.1.0"

[[package.metadata.spel.bound_args]]
arg = "offset"
from = "offset"
default = 0

[[package.metadata.spel.bound_args]]
arg = "window"
from = "offset"
"#,
    );
    let value = manifest(&tmp).unwrap();
    let bounds = read_spel_bound_args(&value, &tmp.path()).unwrap();
    assert_eq!(
        bounds,
        vec![
            BoundArg {
                arg: "offset".to_string(),
                from: "offset".to_string(),
                default: Some(0),
            },
            BoundArg {
                arg: "window".to_string(),
                from: "offset".to_string(),
                default: None,
            },
        ]
    );
}

#[test]
fn malformed_bound_args_missing_arg_is_a_hard_error() {
    let tmp = TempDir::new("bound-args-missing-arg");
    tmp.write(
        "Cargo.toml",
        r#"
[package]
name = "my-ext"
version = "0.1.0"

[[package.metadata.spel.bound_args]]
from = "offset"
"#,
    );
    let value = manifest(&tmp).unwrap();
    let err = read_spel_bound_args(&value, &tmp.path())
        .expect_err("a bound arg without `arg` must be rejected");
    assert!(err.contains("bound_args.arg"), "unexpected error: {err}");
}

#[test]
fn malformed_embedded_skip_is_a_hard_error() {
    let tmp = TempDir::new("embedded-skip-malformed");
    tmp.write(
        "Cargo.toml",
        r#"
[package]
name = "my-ext"
version = "0.1.0"

[package.metadata.spel.embedded]
skip = "ext_init"
"#,
    );
    let value = manifest(&tmp).unwrap();
    let err =
        read_spel_embedded(&value, &tmp.path()).expect_err("a non-array skip must be rejected");
    assert!(err.contains("embedded.skip"), "unexpected error: {err}");
}

#[test]
fn absent_embedded_section_is_all_defaults() {
    let tmp = TempDir::new("embedded-absent");
    tmp.write(
        "Cargo.toml",
        r#"
[package]
name = "my-ext"
version = "0.1.0"

[package.metadata.spel]
extension_attr = "my_ext"
"#,
    );
    let value = manifest(&tmp).unwrap();
    assert_eq!(
        read_spel_embedded(&value, &tmp.path()),
        Ok(no_embedded())
    );
}

#[test]
fn embedded_section_reads_skip_and_state_type() {
    let tmp = TempDir::new("embedded-full");
    tmp.write(
        "Cargo.toml",
        r#"
[package]
name = "my-ext"
version = "0.1.0"

[package.metadata.spel.embedded]
skip = ["ext_init"]
state_type = "my_ext::ExtConfig"
"#,
    );
    let value = manifest(&tmp).unwrap();
    assert_eq!(
        read_spel_embedded(&value, &tmp.path()),
        Ok(EmbeddedMeta {
            skip: vec!["ext_init".to_string()],
            state_type: Some("my_ext::ExtConfig".to_string()),
            ..no_embedded()
        })
    );
}

#[test]
fn malformed_state_type_is_a_hard_error() {
    let tmp = TempDir::new("embedded-state-type-malformed");
    tmp.write(
        "Cargo.toml",
        r#"
[package]
name = "my-ext"
version = "0.1.0"

[package.metadata.spel.embedded]
state_type = ["my_ext::ExtConfig"]
"#,
    );
    let value = manifest(&tmp).unwrap();
    let err = read_spel_embedded(&value, &tmp.path())
        .expect_err("a non-string state_type must be rejected");
    assert!(
        err.contains("embedded.state_type"),
        "unexpected error: {err}"
    );
}

#[test]
fn malformed_wrap_missing_required_field_is_a_hard_error() {
    let tmp = TempDir::new("wrap-incomplete");
    tmp.write(
        "Cargo.toml",
        r#"
[package]
name = "incomplete"
version = "0.1.0"

[package.metadata.spel.wrap_instructions]
wrapper = "incomplete::wrapper"
"#,
    );
    let value = manifest(&tmp).unwrap();
    let err = read_spel_wrap_instructions(&value, &tmp.path())
        .expect_err("missing self_exempt_marker must be rejected");
    assert!(
        err.contains("self_exempt_marker"),
        "unexpected error: {err}"
    );
}

#[test]
fn empty_skip_is_a_hard_error() {
    let tmp = TempDir::new("wrap-empty-skip");
    tmp.write(
        "Cargo.toml",
        r#"
[package]
name = "empty-skip"
version = "0.1.0"

[package.metadata.spel.wrap_instructions]
wrapper = "x::gate"
skip = ""
self_exempt_marker = "x_exempt"
"#,
    );
    let value = manifest(&tmp).unwrap();
    let err = read_spel_wrap_instructions(&value, &tmp.path())
        .expect_err("empty skip word must be rejected");
    assert!(err.contains("skip"), "unexpected error: {err}");
}

#[test]
fn embedded_anchor_pair_parses() {
    let tmp = TempDir::new("embedded-anchor-pair");
    tmp.write(
        "Cargo.toml",
        r#"
[package]
name = "my-ext"
version = "0.1.0"

[package.metadata.spel]
extension_attr = "my_ext"

[package.metadata.spel.embedded]
state_type = "my_ext::ExtConfig"
anchor_attr = "ext_init"
anchor_role = "ext_config"
"#,
    );
    let value = manifest(&tmp).unwrap();
    let meta = read_spel_embedded(&value, &tmp.path()).unwrap();
    assert_eq!(
        meta.anchor,
        Some(EmbedAnchor {
            attr: "ext_init".to_string(),
            role: "ext_config".to_string(),
        })
    );
}

// Half an anchor declaration is a broken extension, not a mode.
#[test]
fn half_declared_anchor_refuses_both_ways() {
    for (label, line) in [
        ("attr", "anchor_attr = \"ext_init\""),
        ("role", "anchor_role = \"ext_config\""),
    ] {
        let tmp = TempDir::new(&format!("embedded-anchor-half-{label}"));
        tmp.write(
            "Cargo.toml",
            &format!(
                "[package]\nname = \"my-ext\"\nversion = \"0.1.0\"\n\n\
                [package.metadata.spel.embedded]\n{line}\n"
            ),
        );
        let value = manifest(&tmp).unwrap();
        let err = read_spel_embedded(&value, &tmp.path())
            .expect_err("half-declared anchor must be rejected");
        assert!(err.contains("declared together"), "{label}: {err}");
    }
}

// An anchored extension is embeddable by any consumer's choice, so
// the manifest must be self-consistent at authoring time, not at the
// first anchored consumer's build.
#[test]
fn anchored_without_state_type_refuses() {
    let tmp = TempDir::new("embedded-anchor-no-state-type");
    tmp.write(
        "Cargo.toml",
        r#"
[package]
name = "my-ext"
version = "0.1.0"

[package.metadata.spel.embedded]
anchor_attr = "ext_init"
anchor_role = "ext_config"
"#,
    );
    let value = manifest(&tmp).unwrap();
    let err = read_spel_embedded(&value, &tmp.path())
        .expect_err("an anchor without state_type must be rejected");
    assert!(err.contains("state_type"), "unexpected error: {err}");
}
