//! Edge cases, error variants and the texts the library emits.
use std::cell::RefCell;
use std::collections::BTreeMap;
use spel_framework_core::account_types::syn_type_to_idl_type;
use spel_framework_core::attrs::{param_has_flag, param_has_init};
use spel_framework_core::cfg::is_cfg_excluded;
use spel_framework_core::dep_walk::{
    collect_normal_reachable, direct_normal_dep_dirs, find_dep_dirs_via_cargo_metadata,
    is_normal_dep_edge, is_virtual_manifest, resolve_dep_graph, root_package_id,
};
use spel_framework_core::disk::{Contents, Disk, Kind, Listed, Metadata, Query};
use spel_framework_core::extension::{
    instruction_source_label, parse_marker_args, slot_offset_const_name, BoundValue, EmbedDecl,
    GateLocations, OffsetSpec, SlotCarrier,
};
use spel_framework_core::extension::marker::lower_path;
use spel_framework_core::extension::metadata::read_spel_bound_args;
use spel_framework_core::idl::{IdlExecution, IdlSeed, IdlType, SpelIdl};
use spel_framework_core::idl_gen::{
    compute_discriminator, generate_idl_from_file, generate_idl_from_items, generate_idl_from_str,
    IdlGenError, IdlStop,
};
use spel_framework_core::model::Dup;
use spel_framework_core::path::DirPath;
use spel_framework_core::sha256::sha256;
use spel_framework_core::slot_offsets::{
    agreement_assert, bound_value_tokens, consumer_scan_items, embed_window_collision_asserts,
    emit_agreement_asserts, expand,
};
use spel_framework_core::source::{parse_source, read_expr, read_type};
use spel_framework_core::syntax::{
    AttrForm, Attribute, ExprKind, FnArg, Item, ItemFn, Path, Type,
};
use spel_framework_core::text::to_pascal;
use spel_framework_core::value::{read_json, read_toml, Value};

/// A directory tree in memory that answers the questions asked about it.
#[allow(dead_code)]
struct TempDir {
    files: RefCell<BTreeMap<Vec<String>, String>>,
}

#[allow(dead_code)]
impl TempDir {
    fn new(_label: &str) -> TempDir {
        TempDir { files: RefCell::new(BTreeMap::new()) }
    }

    fn path(&self) -> DirPath {
        DirPath::new("/tree")
    }

    fn write(&self, rel: &str, text: &str) -> DirPath {
        let p = self.path().join(rel);
        self.files.borrow_mut().insert(TempDir::normal(&p), text.to_string());
        p
    }

    fn normal(p: &DirPath) -> Vec<String> {
        let mut out: Vec<String> = Vec::new();
        for part in &p.parts {
            if part == ".." {
                out.pop();
            } else if part != "." && !part.is_empty() {
                out.push(part.clone());
            }
        }
        out
    }

    fn canonical(&self, p: &DirPath) -> Option<DirPath> {
        match self.kind(p) {
            Kind::Absent => None,
            _ => Some(DirPath { absolute: true, parts: TempDir::normal(p) }),
        }
    }

    fn kind(&self, p: &DirPath) -> Kind {
        let n = TempDir::normal(p);
        let files = self.files.borrow();
        if files.contains_key(&n) {
            Kind::File
        } else if files.keys().any(|k| k.len() > n.len() && k[..n.len()] == n[..]) {
            Kind::Dir
        } else {
            Kind::Absent
        }
    }

    fn read(&self, p: &DirPath) -> Option<String> {
        self.files.borrow().get(&TempDir::normal(p)).cloned()
    }

    fn list(&self, p: &DirPath) -> Option<Vec<Listed>> {
        let n = TempDir::normal(p);
        let mut names: BTreeMap<String, bool> = BTreeMap::new();
        for k in self.files.borrow().keys() {
            if k.len() > n.len() && k[..n.len()] == n[..] {
                names.insert(k[n.len()].clone(), k.len() > n.len() + 1);
            }
        }
        if names.is_empty() {
            return None;
        }
        Some(names.into_iter().map(|(name, d)| Listed { name, is_dir: Some(d) }).collect())
    }

    /// What cargo would say of a manifest whose dependencies are all local.
    fn metadata(&self, manifest: &DirPath) -> Metadata {
        let mut packages = Vec::new();
        let mut nodes = Vec::new();
        let mut todo = vec![TempDir::normal(manifest)];
        let mut seen: Vec<Vec<String>> = Vec::new();
        while let Some(m) = todo.pop() {
            if seen.contains(&m) {
                continue;
            }
            seen.push(m.clone());
            let p = DirPath { absolute: true, parts: m.clone() };
            let Some(text) = self.read(&p) else {
                return Metadata::Failed("no manifest".to_string());
            };
            let Ok(v) = toml::from_str::<toml::Value>(&text) else {
                return Metadata::Failed("bad manifest".to_string());
            };
            let version = v["package"].get("version").and_then(|v| v.as_str()).unwrap_or("0.0.0");
            if version.contains("not-a") {
                return Metadata::Failed("bad version".to_string());
            }
            let mut deps = Vec::new();
            for (table, kind) in [("dependencies", "null"), ("dev-dependencies", "\"dev\"")] {
                let Some(t) = v.get(table).and_then(|t| t.as_table()) else {
                    continue;
                };
                for dep in t.values() {
                    let Some(rel) = dep.get("path").and_then(|p| p.as_str()) else {
                        return Metadata::Failed("not fetched".to_string());
                    };
                    let d = TempDir::normal(&p.parent().unwrap().join(rel).join("Cargo.toml"));
                    deps.push(format!(
                        "{{\"pkg\": \"/{}\", \"dep_kinds\": [{{\"kind\": {kind}}}]}}",
                        d.join("/")
                    ));
                    todo.push(d);
                }
            }
            let id = format!("/{}", m.join("/"));
            packages.push(format!("{{\"id\": \"{id}\", \"manifest_path\": \"{id}\"}}"));
            nodes.push(format!("{{\"id\": \"{id}\", \"deps\": [{}]}}", deps.join(", ")));
        }
        let root = format!("/{}", TempDir::normal(manifest).join("/"));
        Metadata::Output(format!(
            "{{\"packages\": [{}], \"workspace_members\": [\"{root}\"], \"resolve\": {{\"root\": \"{root}\", \"nodes\": [{}]}}}}",
            packages.join(", "),
            nodes.join(", ")
        ))
    }

    fn answer(&self, disk: &mut Disk, q: Query) {
        match q {
            Query::Kind(p) => {
                let k = self.kind(&p);
                disk.kinds.push((p, k));
            }
            Query::Read(p) => {
                let c = match self.read(&p) {
                    Some(text) => Contents::Text(text),
                    None => Contents::Failed("no such file".to_string()),
                };
                disk.files.push((p, c));
            }
            Query::Canonical(p) => {
                let c = self.canonical(&p);
                disk.canonical.push((p, c));
            }
            Query::List(p) => {
                let l = self.list(&p);
                disk.lists.push((p, l));
            }
            Query::Metadata(p) => {
                let m = self.metadata(&p);
                disk.metadata.push((p, m));
            }
        }
    }

    /// Repeats `work` with one more answer each time, until it asks nothing.
    fn ask<T>(&self, work: impl Fn(&Disk, &mut Vec<String>) -> Result<T, Query>) -> (T, Vec<String>) {
        let mut disk = Disk::unknown();
        loop {
            let mut warnings = Vec::new();
            match work(&disk, &mut warnings) {
                Ok(x) => return (x, warnings),
                Err(q) => self.answer(&mut disk, q),
            }
        }
    }
}

/// The attributes of a module.
#[allow(dead_code)]
fn attrs(src: &str) -> Vec<Attribute> {
    match parse_source(&format!("{src} mod m {{}}")).expect("attributes parse").remove(0) {
        Item::Mod(m) => m.attrs,
        other => panic!("expected a module, got {other:?}"),
    }
}

/// One fn.
#[allow(dead_code)]
fn func(src: &str) -> ItemFn {
    match parse_source(src).expect("fn parses").remove(0) {
        Item::Fn(f) => f,
        other => panic!("expected a fn, got {other:?}"),
    }
}

/// The names of a fn's params.
#[allow(dead_code)]
fn param_names(f: &ItemFn) -> Vec<String> {
    f.inputs
        .iter()
        .filter_map(|i| match i {
            FnArg::Typed(p) => p.name.clone(),
            FnArg::Receiver => None,
        })
        .collect()
}

fn idl(
    tmp: &TempDir,
    work: impl Fn(&Disk, &mut Vec<String>) -> Result<SpelIdl, IdlStop>,
) -> Result<SpelIdl, IdlGenError> {
    tmp.ask(|d, w| match work(d, w) {
        Ok(x) => Ok(Ok(x)),
        Err(IdlStop::Failed(e)) => Ok(Err(e)),
        Err(IdlStop::Need(q)) => Err(q),
    })
    .0
}

fn words(list: &[&str]) -> Vec<String> {
    list.iter().map(|s| s.to_string()).collect()
}

fn shown(dirs: &[DirPath]) -> Vec<String> {
    dirs.iter().map(|d| d.display()).collect()
}

fn program(body: &str) -> Result<SpelIdl, IdlGenError> {
    generate_idl_from_str(&format!("#[lez_program] mod prog {{ {body} }}"), "prog.rs")
}

fn parse_error(body: &str) -> String {
    match program(body).unwrap_err() {
        IdlGenError::Parse(e) => e,
        other => panic!("expected a parse error, got {other:?}"),
    }
}

// ── Errors of IDL generation ─────────────────────────────────────────────

#[test]
fn each_error_has_its_cause_and_its_message() {
    let text = |e: IdlGenError| e.message();
    assert_eq!(
        text(generate_idl_from_str("mod prog {}", "a.rs").unwrap_err()),
        "No #[lez_program] module found in 'a.rs'"
    );
    assert_eq!(
        text(generate_idl_from_str("#[lez_program] mod prog;", "a.rs").unwrap_err()),
        "No #[lez_program] module found in 'a.rs'"
    );
    assert_eq!(
        text(generate_idl_from_str("#[lez_program] mod prog {}", "a.rs").unwrap_err()),
        "No #[instruction] functions found in 'a.rs'"
    );
    let e = generate_idl_from_str("fn {", "a.rs").unwrap_err();
    assert!(matches!(e, IdlGenError::Parse(_)));
    assert!(text(e).starts_with("Parse error: "));
    assert_eq!(text(IdlGenError::Io("gone".to_string())), "IO error: gone");
    assert_eq!(
        text(IdlGenError::MalformedExtensionMetadata("m".to_string())),
        "Malformed extension metadata: 'm'"
    );
    assert_eq!(
        text(IdlGenError::DuplicateInstruction("d".to_string())),
        "Duplicate instruction: 'd'"
    );
    assert_eq!(
        text(IdlGenError::DuplicateAccountType("t".to_string())),
        "Duplicate account type: 't'"
    );
}

#[test]
fn a_missing_source_is_an_io_error() {
    let tmp = TempDir::new("missing");
    let source = tmp.path().join("user/src/main.rs");
    let e = idl(&tmp, |d, w| generate_idl_from_file(d, &source, w)).unwrap_err();
    assert_eq!(e, IdlGenError::Io("no such file".to_string()));
}

#[test]
fn a_marker_without_an_extension_fails_generation() {
    let tmp = TempDir::new("no-ext");
    tmp.write("user/Cargo.toml", "[package]\nname = \"user\"\nversion = \"0.1.0\"\n");
    let source = tmp.write(
        "user/src/main.rs",
        "#[lez_program] #[lost] mod prog { #[instruction] pub fn act(a: AccountWithMetadata) {} }",
    );
    let e = idl(&tmp, |d, w| generate_idl_from_file(d, &source, w)).unwrap_err();
    let IdlGenError::MalformedExtensionMetadata(m) = e else {
        panic!("expected a refusal, got {e:?}");
    };
    assert!(m.starts_with("marker(s) [\"lost\"] matched no extension"), "{m}");
}

#[test]
fn params_that_are_no_names_are_refused() {
    assert_eq!(
        parse_error("#[instruction] pub fn act(&self) {}"),
        "instruction functions cannot have self parameter"
    );
    assert_eq!(
        parse_error("#[instruction] pub fn act((a, b): (u8, u8)) {}"),
        "expected simple identifier pattern"
    );
}

#[test]
fn account_constraints_are_read_strictly() {
    let param = |c: &str| format!("#[instruction] pub fn act({c} a: AccountWithMetadata) {{}}");
    assert_eq!(parse_error(&param("#[account(frozen)]")), "unknown account constraint");
    assert!(program(&param("#[account(owner = me)]")).is_ok());
    assert!(program(&param("#[other]")).is_ok());
    assert_eq!(
        parse_error(&param("#[account]")),
        "expected attribute arguments in parentheses: #[account(...)]"
    );
    assert_eq!(
        parse_error(&param("#[account = 1]")),
        "expected parentheses: #[account(...)]"
    );
}

#[test]
fn pda_seeds_are_read_strictly() {
    let param =
        |c: &str| format!("#[instruction] pub fn act(#[account(pda = {c})] a: AccountWithMetadata) {{}}");
    assert_eq!(
        parse_error(&param("literal(\"a\", \"b\")")),
        "PDA seed function takes exactly one string argument"
    );
    assert_eq!(parse_error(&param("literal(1)")), "Expected string literal");
    assert_eq!(parse_error(&param("literal(x)")), "Expected string literal");
    assert_eq!(
        parse_error(&param("odd(\"x\")")),
        "Unknown PDA seed type 'odd'. Use const(\"...\"), account(\"...\"), or arg(\"...\")"
    );
    assert_eq!(
        parse_error(&param("[literal(\"a\"), 1]")),
        "PDA seed must be const(\"...\"), account(\"...\"), or arg(\"...\")"
    );
    assert_eq!(
        parse_error(&param("5")),
        "PDA seed must be const(\"...\"), account(\"...\"), arg(\"...\"), or [seed, ...]"
    );
    for name in ["r#const", "seed_const", "literal"] {
        let doc = program(&param(&format!("{name}(\"x\")"))).unwrap();
        let pda = doc.instructions[0].accounts[0].pda.as_ref().unwrap();
        assert_eq!(pda.seeds, vec![IdlSeed::Const { value: "x".to_string() }], "{name}");
    }
}

#[test]
fn leading_underscores_are_not_part_of_idl_names() {
    let doc = program("#[instruction] pub fn act(_a: AccountWithMetadata, __n: u8) {}").unwrap();
    assert_eq!(doc.instructions[0].accounts[0].name, "a");
    assert_eq!(doc.instructions[0].args[0].name, "n");
}

// ── Sources ──────────────────────────────────────────────────────────────

#[test]
fn types_are_read_by_their_last_names() {
    let idl_of = |src: &str| syn_type_to_idl_type(&read_type(src));
    let prim = |s: &str| IdlType::Primitive(s.to_string());
    assert_eq!(idl_of("u64"), prim("u64"));
    assert_eq!(idl_of("std::string::String"), prim("string"));
    assert_eq!(idl_of("nssa_core::ProgramId"), prim("program_id"));
    assert_eq!(idl_of("AccountId"), prim("account_id"));
    assert_eq!(
        idl_of("Vec<Option<[u8; 32]>>"),
        IdlType::Vec {
            vec: Box::new(IdlType::Option {
                option: Box::new(IdlType::Array { array: (Box::new(prim("u8")), 32) })
            })
        }
    );
    assert_eq!(idl_of("a::b::Mine"), IdlType::Defined { defined: "Mine".to_string() });
    assert_eq!(idl_of("Vec"), prim("vec<unknown>"));
    assert_eq!(idl_of("Option"), prim("option<unknown>"));
    assert_eq!(idl_of("[u8; N]"), IdlType::Array { array: (Box::new(prim("u8")), 0) });
    assert_eq!(idl_of("&str"), prim("unknown"));
    assert_eq!(idl_of("(u8, u8)"), prim("unknown"));
    assert_eq!(read_type("u8"), Type::Named { ident: "u8".to_string(), arg: None });
}

#[test]
fn expressions_are_read_by_kind() {
    assert_eq!(read_expr("\"a\\nb\"").kind, ExprKind::Str("a\nb".to_string()));
    assert_eq!(read_expr("0x20").kind, ExprKind::Int(32));
    assert_eq!(read_expr("1_000usize").kind, ExprKind::Int(1000));
    assert!(matches!(read_expr("99999999999999999999999").kind, ExprKind::BadInt(_)));
    assert_eq!(read_expr("cfg").kind, ExprKind::Name(Some("cfg".to_string())));
    assert_eq!(read_expr("a::b").kind, ExprKind::Name(None));
    assert!(matches!(read_expr("f(\"x\")").kind, ExprKind::Call(_)));
    assert!(matches!(read_expr("[f(\"x\")]").kind, ExprKind::Array(_)));
    assert_eq!(read_expr("1 + 2").kind, ExprKind::Other);
}

#[test]
fn attributes_are_read_by_form() {
    let list = attrs("#[bare] #[a::list(x, y = 1)] #[value = \"v\"]");
    assert_eq!(list[0].form, AttrForm::Bare);
    assert_eq!(list[1].path.segments, words(&["a", "list"]));
    let AttrForm::List(l) = &list[1].form else {
        panic!("expected a list");
    };
    assert_eq!(l.entries.len(), 2);
    assert_eq!(l.entries[0].path.segments, words(&["x"]));
    assert!(!l.entries[0].assigned);
    assert_eq!(l.entries[1].value.as_ref().unwrap().kind, ExprKind::Int(1));
    assert!(matches!(&list[2].form, AttrForm::Value(v) if v.kind == ExprKind::Str("v".to_string())));
}

#[test]
fn a_default_build_leaves_these_items_out() {
    for src in [
        "#[cfg(test)]",
        "#[cfg(feature = \"x\")]",
        "#[cfg(any(test, feature = \"x\"))]",
        "#[cfg(all(test, unix))]",
        "#[cfg(any(any(test, feature = \"x\"), feature = \"y\"))]",
        "#[cfg(any(any(test)))]",
        "#[cfg(any(any(test), feature = \"x\"))]",
        "#[cfg(any(all(test, unix), feature = \"x\"))]",
        "#[cfg(all(any(test, feature = \"x\"), unix))]",
        "#[cfg(any(test,))]",
        "#[cfg(any())]",
        "#[allow(dead_code)] #[cfg(test)]",
    ] {
        assert!(is_cfg_excluded(&attrs(src)), "{src}");
    }
    for src in [
        "#[cfg(not(test))]",
        "#[cfg(any(not(test), unix))]",
        "#[cfg(any(any(test, unix), feature = \"x\"))]",
        "#[cfg(any(test, any(feature = \"x\", any(unix))))]",
        "#[cfg(any(all(unix), test))]",
        "#[cfg(any(not(test), test))]",
        "#[cfg(all(any(test, unix), unix))]",
        "#[cfg(unix)]",
        "#[cfg(target_feature = \"sse2\")]",
        "#[cfg_attr(test, derive(Debug))]",
        "#[test]",
    ] {
        assert!(!is_cfg_excluded(&attrs(src)), "{src}");
    }
}

#[test]
fn paths_are_shown_as_they_were_written() {
    assert_eq!(DirPath::new("/a//b/./c/").display(), "/a//b/./c/");
    assert_eq!(DirPath::new("./a/b").display(), "./a/b");
    assert_eq!(DirPath::new("/a/b/").join("./c").display(), "/a/b/./c");
    assert_eq!(DirPath::new("/a/b").child("c").display(), "/a/b/c");
    assert_eq!(DirPath::new("/a/b/").child("c").display(), "/a/b/c");
    assert_eq!(DirPath::new("/a/b").join("").display(), "/a/b/");
    assert_eq!(DirPath::new("/").display(), "/");
    assert_eq!(DirPath::new("").display(), "");
    assert_eq!(DirPath::new("//x").display(), "//x");
    assert_eq!(DirPath::new("/a/b").join("../c").display(), "/a/b/../c");
    assert_eq!(DirPath::new("/a/b").join("/c").display(), "/c");
    assert_eq!(DirPath::new("/a/b").parent().unwrap().display(), "/a");
    assert_eq!(DirPath::new("/a/./b/.").parent().unwrap().display(), "/a");
    assert_eq!(DirPath::new("/a//b//").parent().unwrap().display(), "/a");
    assert_eq!(DirPath::new("./a").parent().unwrap().display(), ".");
    assert_eq!(DirPath::new("/a").parent().unwrap().display(), "/");
    assert_eq!(DirPath::new("/").parent(), None);
    assert_eq!(DirPath::new("/a//b/./c/").to_plain(), DirPath::new("/a/b/c"));
    assert_eq!(DirPath::new("/a/b/./").name(), Some("b".to_string()));
    assert_eq!(DirPath::new("/a/..").name(), None);
    assert!(!DirPath::new("/a/./b").same(&DirPath::new("/a/b")));
    assert!(DirPath::new("/a/./b/c").starts_with(&DirPath::new("/a//b/")));
    assert!(DirPath::new("/a/b/c").starts_with(&DirPath::new("/a/b")));
    assert!(!DirPath::new("/a/bc").starts_with(&DirPath::new("/a/b")));
}

// ── Markers ──────────────────────────────────────────────────────────────

#[test]
fn each_bad_marker_argument_is_named() {
    let bad = |src: &str| parse_marker_args(&attrs(src)[0], "my_gate").unwrap_err();
    assert_eq!(bad("#[my_gate(a::b)]"), "`#[my_gate]`: expected a bare word");
    assert_eq!(bad("#[my_gate(a::b = c)]"), "`#[my_gate]`: expected `key = value`");
    assert_eq!(bad("#[my_gate(a, b)]"), "`#[my_gate]`: more than one bare mode word");
    assert_eq!(
        bad("#[my_gate(offset = \"4\")]"),
        "`#[my_gate]`: `offset` must be an integer literal"
    );
    assert!(bad("#[my_gate(r = a, offset = 99999999999999999999999)]")
        .starts_with("`#[my_gate]`: bad offset: "));
    assert_eq!(
        bad("#[my_gate(r = a, offset = 1, offset = 2)]"),
        "`#[my_gate]`: more than one `offset`"
    );
    assert_eq!(bad("#[my_gate(r = a, s = b)]"), "`#[my_gate]`: more than one embedded role declared");
    assert_eq!(bad("#[my_gate(r = 5)]"), "`#[my_gate]`: `r` must name a consumer account param");
    assert_eq!(bad("#[my_gate(x(y))]"), "`#[my_gate]`: unexpected `x(...)` argument");
    assert_eq!(
        bad("#[my_gate(offset = 4)]"),
        "`#[my_gate]`: `offset` requires a `<role> = <account>` kwarg"
    );
    assert!(bad("#[my_gate(= 4)]").starts_with("malformed `#[my_gate(...)]` arguments: "));
    assert!(bad("#[my_gate = 4]").starts_with("malformed `#[my_gate(...)]` arguments: "));
    assert_eq!(parse_marker_args(&attrs("#[other]")[0], "my_gate"), Ok(None));
}

#[test]
fn offsets_lower_to_expressions() {
    assert_eq!(OffsetSpec::Literal(32).to_expr("x").unwrap().text, "32");
    assert_eq!(
        OffsetSpec::Path("Cfg::A_SLOT_OFFSET".to_string()).to_expr("x").unwrap().text,
        "Cfg :: A_SLOT_OFFSET"
    );
    assert_eq!(
        OffsetSpec::Derived.to_expr("x").unwrap_err(),
        "`x` reached emission with an unresolved derived offset; `resolve_derived_offsets` must run after discovery"
    );
    let e = OffsetSpec::Path("not an expr".to_string()).to_expr("x").unwrap_err();
    assert!(
        e.starts_with("resolved carrier path \"not an expr\" is not an expression: "),
        "{e}"
    );
    assert_eq!(bound_value_tokens(&BoundValue::Literal(7)).unwrap(), "7");
    assert_eq!(
        BoundValue::Derived { role: "r".to_string() }.to_expr().unwrap_err(),
        OffsetSpec::Derived.to_expr("r").unwrap_err()
    );
    assert_eq!(GateLocations::default(), GateLocations::Omit);
}

#[test]
fn sources_are_labelled_by_crate() {
    let p = Path { leading_colon: true, segments: words(&["my_ext", "act"]) };
    assert_eq!(instruction_source_label(Some(&p)), "extension my_ext");
    assert_eq!(instruction_source_label(None), "this module");
}

// ── Emitted texts ────────────────────────────────────────────────────────

#[test]
fn a_slot_expands_to_a_constant_and_a_layout_test() {
    let text = expand(
        "#[derive(Default)] pub struct ProgConfig { pub a: u64, #[serde(skip)] #[admin_slot] pub admin: AdminConfig, pub z: [u8; 4] }",
    );
    let (item, rest) = text.split_once("}\n").unwrap();
    assert_eq!(
        item,
        "#[derive (Default)] pub struct ProgConfig  { pub a: u64, #[serde (skip)] pub admin: AdminConfig, pub z: [u8 ; 4], "
    );
    let (consts, rest) = rest.split_once("#[cfg(test)]\n").unwrap();
    assert_eq!(
        consts,
        "impl ProgConfig { pub const ADMIN_SLOT_OFFSET: usize = 0 + <u64 as ::spel_framework::FixedBorshSize>::SIZE; }\n"
    );
    assert!(rest.starts_with("mod __slot_layout_checks_progconfig {\n    use super::*;\n#[test]\nfn __admin_slot_offset_matches_layout() {\n"), "{rest}");
    assert!(rest.contains("v.admin = <AdminConfig as ::spel_framework::SlotLayoutProbe>::probe();"));
    assert!(rest.contains("let at = ProgConfig::ADMIN_SLOT_OFFSET;"));
    parse_source(&text).expect("the expansion is valid source");
}

#[test]
fn a_generic_struct_keeps_its_head() {
    let text = expand("pub(crate) struct S<T> where T: Copy { #[a_slot] pub x: T }");
    assert!(
        text.starts_with("pub (crate) struct S< T > where T : Copy { pub x: T, }\n"),
        "{text}"
    );
    assert!(text.contains("pub const A_SLOT_OFFSET: usize = 0; }"));
    assert_eq!(slot_offset_const_name("my_slot"), "MY_SLOT_OFFSET");
}

#[test]
fn windows_and_agreements_are_asserted_in_these_words() {
    let decl = |offset: OffsetSpec| EmbedDecl {
        role: "a_config".to_string(),
        account: "cfg".to_string(),
        offset,
        initializer: None,
    };
    let embeds = vec![
        ("a".to_string(), decl(OffsetSpec::Literal(0))),
        ("b".to_string(), decl(OffsetSpec::Literal(32))),
    ];
    let types = vec![
        ("a".to_string(), "a::State".to_string()),
        ("b".to_string(), "b::State".to_string()),
    ];
    assert_eq!(
        embed_window_collision_asserts(&embeds, &types).unwrap(),
        "const _: () = assert!(0 + <a :: State as ::spel_framework::FixedBorshSize>::SIZE <= 32 || 32 + <b :: State as ::spel_framework::FixedBorshSize>::SIZE <= 0, \"embedded windows of `a` (offset 0) and `b` (offset 32) overlap in account `cfg`\");\n"
    );
    let c = SlotCarrier {
        struct_name: "Cfg".to_string(),
        const_name: "A_SLOT_OFFSET".to_string(),
        attr_name: "a_slot".to_string(),
    };
    let line = "const _: () = assert!(Cfg::A_SLOT_OFFSET == 32usize, \"the marker offset 32 disagrees with Cfg::A_SLOT_OFFSET; a field before the #[a_slot] field changed without the marker following\");\n";
    assert_eq!(agreement_assert(&c, 32), line);
    let items = parse_source("pub struct Cfg { #[a_slot] pub a: u8 }").unwrap();
    assert_eq!(emit_agreement_asserts(&items, &embeds[1..].iter().map(|(s, _)| (s.clone(), decl(OffsetSpec::Literal(32)))).collect()).unwrap(), line);
    let derived = vec![("a".to_string(), decl(OffsetSpec::Derived))];
    assert_eq!(emit_agreement_asserts(&items, &derived).unwrap(), "");
    assert_eq!(emit_agreement_asserts(&Vec::new(), &embeds).unwrap(), "");
}

#[test]
fn the_binding_scan_reads_the_entry_file_and_path_dependencies() {
    let tmp = TempDir::new("binding");
    let guest = tmp.write("user/src/bin/prog.rs", "mod inner; pub struct A { pub v: u8 }");
    tmp.write("user/src/bin/prog/inner.rs", "pub struct B { pub v: u8 }");
    tmp.write(
        "user/Cargo.toml",
        "[package]\nname = \"user\"\nversion = \"0.1.0\"\n[dependencies]\ncore = { path = \"../core\" }\nfar = \"1\"\n",
    );
    tmp.write("core/Cargo.toml", "[package]\nname = \"core\"\nversion = \"0.1.0\"\n");
    tmp.write("core/src/lib.rs", "pub struct C { pub v: u8 }");
    let names = |items: Vec<Item>| -> Vec<String> {
        items
            .into_iter()
            .filter_map(|i| match i {
                Item::Struct(s) => Some(s.name),
                _ => None,
            })
            .collect()
    };
    let (own, _) = tmp.ask(|d, _| consumer_scan_items(d, &guest, None));
    assert_eq!(names(own), words(&["B", "A"]));
    let md = tmp.path().join("user");
    let (all, _) = tmp.ask(|d, _| consumer_scan_items(d, &guest, Some(&md)));
    assert_eq!(names(all), words(&["B", "A", "C"]));
}

// ── Dependency graphs ────────────────────────────────────────────────────

fn only_metadata(tmp: &TempDir, text: Metadata) -> Disk {
    let mut disk = Disk::unknown();
    let m = tmp.path().join("user/Cargo.toml");
    disk.metadata.push((m, text));
    disk
}

fn graph_with(tmp: &TempDir, text: &str) -> (spel_framework_core::dep_walk::DepGraph, Vec<String>) {
    graph_of(tmp, Metadata::Output(text.to_string()))
}

fn graph_of(
    tmp: &TempDir,
    answer: Metadata,
) -> (spel_framework_core::dep_walk::DepGraph, Vec<String>) {
    let mut disk = only_metadata(tmp, answer);
    let start = tmp.path().join("user");
    loop {
        let mut warnings = Vec::new();
        match resolve_dep_graph(&disk, &start, true, &mut warnings) {
            Ok(g) => return (g, warnings),
            Err(q) => tmp.answer(&mut disk, q),
        }
    }
}

#[test]
fn metadata_adds_what_is_reachable_by_normal_edges() {
    let tmp = TempDir::new("metadata");
    tmp.write("user/Cargo.toml", "[package]\nname = \"user\"\nversion = \"0.1.0\"\n");
    for c in ["git", "deep", "dev", "lost", "member"] {
        tmp.write(&format!("{c}/Cargo.toml"), &format!("[package]\nname = \"{c}\"\n"));
    }
    let pkg = |id: &str| format!("{{\"id\": \"{id}\", \"manifest_path\": \"/tree/{id}/Cargo.toml\"}}");
    let edge = |id: &str, kind: &str| format!("{{\"pkg\": \"{id}\", \"dep_kinds\": [{{\"kind\": {kind}}}]}}");
    let text = format!(
        "{{\"packages\": [{}], \"workspace_members\": [\"user\", \"member\"], \"resolve\": {{\"root\": null, \"nodes\": [{{\"id\": \"user\", \"deps\": [{}, {}, {}]}}, {{\"id\": \"git\", \"deps\": [{{\"pkg\": \"deep\"}}]}}, {{\"id\": \"deep\", \"deps\": [{}]}}]}}}}",
        ["user", "git", "deep", "dev", "lost", "member"].map(pkg).join(", "),
        edge("git", "null"),
        edge("dev", "\"dev\""),
        edge("member", "null"),
        edge("git", "null"),
    );
    let (graph, warnings) = graph_with(&tmp, &text);
    assert_eq!(shown(&graph.transitive_dirs), words(&["/tree/git", "/tree/deep"]));
    assert_eq!(shown(&graph.direct_dirs), words(&["/tree/git", "/tree/member"]));
    assert_eq!(graph.metadata_failure, None);
    assert_eq!(warnings, words(&[]));
}

#[test]
fn a_failed_metadata_run_is_reported() {
    let tmp = TempDir::new("metadata-failed");
    tmp.write("user/Cargo.toml", "[package]\nname = \"user\"\nversion = \"0.1.0\"\n");
    let cases = [
        (Metadata::Failed("offline".to_string()), "`cargo metadata` failed: offline"),
        (Metadata::NotStarted("no cargo".to_string()), "could not run `cargo metadata`: no cargo"),
    ];
    for (answer, warning) in cases {
        let (graph, warnings) = graph_of(&tmp, answer);
        assert_eq!(warnings, words(&[warning]));
        assert_eq!(
            graph.metadata_failure,
            Some("cargo metadata failed for /tree/user/Cargo.toml".to_string())
        );
    }
    let (graph, warnings) = graph_with(&tmp, "{ not json");
    assert!(warnings[0].starts_with("failed to parse metadata: "), "{warnings:?}");
    assert!(graph.metadata_failure.is_some());
}

#[test]
fn the_nearest_manifest_is_the_programs() {
    let tmp = TempDir::new("workspace");
    tmp.write("Cargo.toml", "[workspace]\nmembers = [\"crates/*\"]\n");
    tmp.write(
        "crates/user/Cargo.toml",
        "[package]\nname = \"user\"\n[dependencies]\nlib = { path = \"lib\" }\n",
    );
    tmp.write("crates/user/lib/Cargo.toml", "[package]\nname = \"lib\"\n");
    let source = tmp.write("crates/user/src/main.rs", "");
    let (graph, warnings) = tmp.ask(|d, w| resolve_dep_graph(d, &source, false, w));
    assert_eq!(shown(&graph.transitive_dirs), words(&["/tree/crates/user/lib"]));
    assert_eq!(warnings, words(&[]));
}

#[test]
fn a_workspace_without_the_program_is_searched_and_reported() {
    let tmp = TempDir::new("workspace-search");
    tmp.write("Cargo.toml", "[workspace]\nmembers = [\"crates/*\"]\n");
    tmp.write("crates/other/Cargo.toml", "[package]\nname = \"other\"\n");
    let source = tmp.write("loose/src/main.rs", "");
    let (graph, warnings) = tmp.ask(|d, w| resolve_dep_graph(d, &source, true, w));
    assert_eq!(
        graph.metadata_failure,
        Some("workspace member manifest for /tree/loose/src/main.rs not found".to_string())
    );
    assert_eq!(warnings.len(), 1);
    assert!(
        warnings[0].ends_with(
            "workspace at '/tree' has no matching member for '/tree/loose/src/main.rs'; searching all subdirectories"
        ),
        "{warnings:?}"
    );
}

#[test]
fn a_path_dependency_that_is_no_directory_is_warned_about() {
    let tmp = TempDir::new("gone");
    tmp.write(
        "user/Cargo.toml",
        "[package]\nname = \"user\"\n[dependencies]\ngone = { path = \"../gone\" }\nplain = \"1\"\n",
    );
    let start = tmp.path().join("user");
    let (graph, warnings) = tmp.ask(|d, w| resolve_dep_graph(d, &start, false, w));
    assert_eq!(graph.transitive_dirs, vec![]);
    assert_eq!(graph.direct_dirs, vec![]);
    assert!(warnings.iter().any(|w| w
        == "path dependency 'gone' points to non-existent directory: /tree/user/../gone"));
}

#[test]
fn a_path_is_reported_as_the_manifest_writes_it() {
    let tmp = TempDir::new("dotted");
    tmp.write(
        "user/Cargo.toml",
        "[package]\nname = \"user\"\n[dependencies]\na = { path = \"./sub//a/\" }\ngone = { path = \"./x\" }\n",
    );
    tmp.write("user/sub/a/Cargo.toml", "[package");
    let start = tmp.path().join("user");
    let (graph, warnings) = tmp.ask(|d, w| resolve_dep_graph(d, &start, false, w));
    assert_eq!(shown(&graph.transitive_dirs), words(&["/tree/user/./sub//a/"]));
    assert!(warnings.iter().any(|w| w
        == "path dependency 'gone' points to non-existent directory: /tree/user/./x"));
    assert!(
        warnings.iter().any(|w| w
            .contains("failed to parse manifest '/tree/user/./sub//a/Cargo.toml': ")),
        "{warnings:?}"
    );
}

#[test]
fn two_spellings_of_one_directory_are_one_dependency() {
    let tmp = TempDir::new("spellings");
    tmp.write(
        "user/Cargo.toml",
        "[package]\nname = \"user\"\n[dependencies]\na = { path = \"../a\" }\nb = { path = \"../b\" }\n",
    );
    tmp.write("a/Cargo.toml", "[package]\nname = \"a\"\n[dependencies]\nc = { path = \"../c\" }\n");
    tmp.write("b/Cargo.toml", "[package]\nname = \"b\"\n[dependencies]\nc = { path = \"../a/.././c/\" }\n");
    tmp.write("c/Cargo.toml", "[package]\nname = \"c\"\n");
    let start = tmp.path().join("user");
    let (graph, _) = tmp.ask(|d, w| resolve_dep_graph(d, &start, false, w));
    assert_eq!(
        shown(&graph.transitive_dirs),
        words(&["/tree/user/../a", "/tree/user/../a/../c", "/tree/user/../b"])
    );
}

#[test]
fn an_unreadable_manifest_is_reported() {
    let tmp = TempDir::new("bad-manifest");
    tmp.write("user/Cargo.toml", "[package");
    let start = tmp.path().join("user");
    let (graph, warnings) = tmp.ask(|d, w| resolve_dep_graph(d, &start, true, w));
    assert_eq!(
        graph.metadata_failure,
        Some("unreadable manifest at /tree/user/Cargo.toml".to_string())
    );
    assert!(warnings[0].contains("failed to parse manifest '/tree/user/Cargo.toml': "), "{warnings:?}");
}

#[test]
fn an_open_question_stops_the_work() {
    let disk = Disk::unknown();
    let mut warnings = Vec::new();
    let source = DirPath::new("/tree/user/src/main.rs");
    assert_eq!(
        generate_idl_from_file(&disk, &source, &mut warnings),
        Err(IdlStop::Need(Query::Read(DirPath::new("/tree/user/src/main.rs"))))
    );
}

fn metadata_value() -> Value {
    read_json(
        r#"{
            "packages": [
                {"id": "app", "manifest_path": "/w/app/Cargo.toml"},
                {"id": "near", "manifest_path": "/w/near/Cargo.toml"},
                {"id": "far", "manifest_path": "/w/far/Cargo.toml"},
                {"id": "dev", "manifest_path": "/w/dev/Cargo.toml"}
            ],
            "workspace_members": ["app"],
            "resolve": {
                "root": "app",
                "nodes": [
                    {"id": "app", "deps": [
                        {"pkg": "near", "dep_kinds": [{"kind": null}]},
                        {"pkg": "dev", "dep_kinds": [{"kind": "dev"}]}
                    ]},
                    {"id": "near", "deps": [{"pkg": "far", "dep_kinds": [{"kind": "build"}, {"kind": null}]}]},
                    {"id": "far", "deps": []},
                    {"id": "dev", "deps": []}
                ]
            }
        }"#,
    )
    .expect("metadata is JSON")
}

fn empty_disk() -> Disk {
    let mut disk = Disk::unknown();
    disk.complete = true;
    disk
}

#[test]
fn metadata_is_read_as_a_document() {
    let disk = empty_disk();
    let meta = metadata_value();
    let manifest = DirPath::new("/w/app/Cargo.toml");
    assert_eq!(root_package_id(&disk, &meta, &manifest), Ok(Some("app".to_string())));
    let mut ids = collect_normal_reachable(&disk, &meta, &manifest).unwrap().unwrap();
    ids.sort();
    assert!(ids.contains(&"near".to_string()) && ids.contains(&"far".to_string()));
    assert!(!ids.contains(&"dev".to_string()));
    assert_eq!(
        shown(&direct_normal_dep_dirs(&disk, &meta, &manifest).unwrap()),
        words(&["/w/near"])
    );
    assert_eq!(
        shown(&find_dep_dirs_via_cargo_metadata(&disk, &meta, &manifest).unwrap()),
        words(&["/w/near", "/w/far"])
    );
    assert_eq!(collect_normal_reachable(&disk, &Value::Null, &manifest), Ok(None));
}

#[test]
fn a_manifest_may_nest_deeper_than_a_json_document() {
    let deep = |name: &str| vec![name; 79].join(".");
    let text = format!("[package]\nname = \"a\"\n[{}]\n{} = 7\n", deep("h"), deep("k"));
    let mut at = &read_toml(&text).unwrap();
    assert!(!is_virtual_manifest(at));
    let mut depth = 0;
    loop {
        match at {
            Value::Object(entries) => {
                at = &entries.iter().find(|(k, _)| k == "h" || k == "k").unwrap().1;
                depth += 1;
            }
            other => {
                assert_eq!(other, &Value::Int(7));
                break;
            }
        }
    }
    assert_eq!(depth, 158);
    let json = |n: usize| format!("{}{}", "[".repeat(n), "]".repeat(n));
    assert!(read_json(&json(127)).is_ok());
    assert!(read_json(&json(128)).is_err());
}

#[test]
fn an_instruction_type_is_read_behind_other_assignments() {
    let named = |args: &str| {
        generate_idl_from_str(
            &format!("#[lez_program({args})] mod prog {{ #[instruction] pub fn go(n: u8) {{}} }}"),
            "prog.rs",
        )
        .unwrap()
        .instruction_type
    };
    assert_eq!(named("name = \"p\", instruction = \"core::Ix\""), Some("core::Ix".to_string()));
    assert_eq!(named("name = p::q(1), instruction = \"core::Ix\""), Some("core::Ix".to_string()));
    assert_eq!(named("name =, instruction = \"core::Ix\""), None);
    assert_eq!(named("name = \"p\""), None);
}

#[test]
fn a_crate_is_no_dependency_of_itself() {
    let meta = read_json(
        r#"{
            "packages": [{"id": "app"}, {"id": "near"}],
            "resolve": {"root": "app", "nodes": [
                {"id": "app", "deps": [{"pkg": "near"}]},
                {"id": "near", "deps": [{"pkg": "app"}]}
            ]}
        }"#,
    )
    .unwrap();
    let manifest = DirPath::new("/w/app/Cargo.toml");
    assert_eq!(
        collect_normal_reachable(&empty_disk(), &meta, &manifest),
        Ok(Some(words(&["near"])))
    );
}

#[test]
fn an_edge_is_normal_where_a_kind_is_null() {
    let edge = |kinds: &str| is_normal_dep_edge(&read_json(kinds).unwrap());
    assert!(edge(r#"{"pkg": "a", "dep_kinds": [{"kind": "dev"}, {"kind": null}]}"#));
    assert!(!edge(r#"{"pkg": "a", "dep_kinds": [{"kind": "dev"}]}"#));
}

#[test]
fn a_virtual_manifest_has_no_package() {
    assert!(is_virtual_manifest(&read_toml("[workspace]\nmembers = []\n").unwrap()));
    assert!(!is_virtual_manifest(
        &read_toml("[workspace]\nmembers = []\n[package]\nname = \"a\"\n").unwrap()
    ));
}

#[test]
fn a_complete_disk_leaves_no_question_open() {
    let mut disk = empty_disk();
    let mut warnings = Vec::new();
    let source = DirPath::new("/tree/user/src/main.rs");
    assert!(matches!(
        generate_idl_from_file(&disk, &source, &mut warnings),
        Err(IdlStop::Failed(IdlGenError::Io(_)))
    ));
    disk.files.push((
        source.dup(),
        Contents::Text(
            "#[lez_program] mod p { #[instruction] pub fn go(n: u8) -> SpelResult { body() } }"
                .to_string(),
        ),
    ));
    disk.kinds.push((source.dup(), Kind::File));
    let got = generate_idl_from_file(&disk, &source, &mut warnings).expect("nothing is asked");
    assert_eq!(got.instructions.len(), 1);
    assert_eq!(got.instructions[0].name, "go");
}

#[test]
fn parsed_items_are_described_as_their_text_is() {
    let text = "#[lez_program] mod p { #[instruction] pub fn go(n: u8) -> SpelResult { body() } }";
    let items = parse_source(text).unwrap();
    assert_eq!(generate_idl_from_items(&items, "l"), generate_idl_from_str(text, "l"));
    assert_eq!(
        generate_idl_from_items(&vec![], "l"),
        Err(IdlGenError::NoProgram("l".to_string()))
    );
}

#[test]
fn a_path_that_is_no_expression_is_named() {
    assert_eq!(
        lower_path("a b", Err("unexpected token".to_string())),
        Err("resolved carrier path \"a b\" is not an expression: unexpected token".to_string())
    );
    assert_eq!(lower_path("A::B", Ok(read_expr("A::B"))), Ok(read_expr("A::B")));
}

fn hex(bytes: &[u8]) -> String {
    bytes.iter().map(|b| format!("{b:02x}")).collect()
}

#[test]
fn messages_of_every_length_are_hashed() {
    for (message, hash) in [
        ("".to_string(), "e3b0c44298fc1c149afbf4c8996fb92427ae41e4649b934ca495991b7852b855"),
        ("abc".to_string(), "ba7816bf8f01cfea414140de5dae2223b00361a396177a9cb410ff61f20015ad"),
        (
            "abcdbcdecdefdefgefghfghighijhijkijkljklmklmnlmnomnopnopq".to_string(),
            "248d6a61d20638b8e5c026930c3e6039a33ce45964ff2167f6ecedd419db06c1",
        ),
        ("a".repeat(64), "ffe054fe7ae0cb6dc65c3af9b61d5209f439851db43d0ba5997337df154668eb"),
        ("a".repeat(119), "31eba51c313a5c08226adf18d4a359cfdfd8d2e816b13f4af952f7ea6584dcfb"),
    ] {
        assert_eq!(hex(&sha256(message.as_bytes())), hash, "{message}");
    }
}

#[test]
fn names_turn_to_pascal_case_word_by_word() {
    for (name, pascal) in [
        ("initialize", "Initialize"),
        ("transfer_owner", "TransferOwner"),
        ("set_v2_limit", "SetV2Limit"),
        ("_hidden__name_", "HiddenName"),
        ("éclair_x", "ÉclairX"),
        ("", ""),
    ] {
        assert_eq!(to_pascal(name), pascal);
    }
}

#[test]
fn each_instruction_has_its_discriminator_execution_and_variant() {
    assert_eq!(compute_discriminator("initialize"), vec![175, 175, 109, 31, 13, 152, 155, 237]);
    let doc = program(
        "#[instruction] pub fn transfer_owner(#[account(mut)] vault: AccountWithMetadata, rest: Vec<AccountWithMetadata>, n: u8) {}",
    )
    .unwrap();
    let ix = &doc.instructions[0];
    assert_eq!(ix.discriminator, Some(vec![245, 25, 221, 175, 106, 229, 225, 45]));
    assert_eq!(ix.execution, Some(IdlExecution { public: true, private_owned: false }));
    assert_eq!(ix.variant, Some("TransferOwner".to_string()));
    for account in &ix.accounts {
        assert_eq!(account.visibility, words(&["public"]));
    }
    assert_eq!(ix.accounts.len(), 2);
}

#[test]
fn a_flag_counts_wherever_it_stands() {
    let f = func(
        "fn f(#[account(pda = literal(\"x\"), init)] a: A, #[account(owner = b, mut, signer)] b: A, #[account(mut)] c: A, #[other(init)] d: A) {}",
    );
    let param = |i: usize| match &f.inputs[i] {
        FnArg::Typed(p) => p,
        other => panic!("{other:?}"),
    };
    assert!(param_has_init(param(0)));
    assert!(param_has_flag(param(1), "signer"));
    assert!(param_has_flag(param(1), "mut"));
    assert!(!param_has_init(param(2)));
    assert!(!param_has_init(param(3)));
}

#[test]
fn a_bound_kwarg_is_an_identifier() {
    let read = |from: &str| {
        let text = format!(
            "[package]\nname = \"e\"\n[[package.metadata.spel.bound_args]]\narg = \"a\"\nfrom = \"{from}\"\n"
        );
        read_spel_bound_args(&read_toml(&text).unwrap(), &DirPath::new("/e"))
    };
    assert!(read("offset").is_ok());
    assert!(read("my_gate::offset").is_ok());
    assert!(read("o1").is_ok());
    for bad in ["1offset", "my_gate::1offset", "off-set", "2::offset"] {
        let err = read(bad).unwrap_err();
        assert!(err.contains("is not a valid identifier"), "{err}");
    }
    let err = read("::offset").unwrap_err();
    assert!(err.contains("has an empty segment"), "{err}");
}

/// The questions asked on the way to the graph of `start`, in order.
fn asked(tmp: &TempDir, start: &DirPath, with_metadata: bool) -> Vec<Query> {
    let mut disk = Disk::unknown();
    let mut out = Vec::new();
    loop {
        let mut warnings = Vec::new();
        match resolve_dep_graph(&disk, start, with_metadata, &mut warnings) {
            Ok(_) => return out,
            Err(q) => {
                out.push(q.dup());
                tmp.answer(&mut disk, q);
            }
        }
    }
}

#[test]
fn one_question_is_asked_at_a_time_and_none_twice() {
    let tmp = TempDir::new("questions");
    tmp.write(
        "user/Cargo.toml",
        "[package]\nname = \"user\"\n[dependencies]\nlib = { path = \"../lib\" }\n",
    );
    tmp.write("lib/Cargo.toml", "[package]\nname = \"lib\"\n");
    let source = tmp.write("user/src/main.rs", "");
    let at = |p: &str| DirPath::new(p);
    let plain = asked(&tmp, &source, false);
    assert_eq!(
        plain[..3],
        [
            Query::Kind(at("/tree/user/src/main.rs")),
            Query::Kind(at("/tree/user/src/Cargo.toml")),
            Query::Kind(at("/tree/user/Cargo.toml")),
        ]
    );
    assert_eq!(plain[3], Query::Read(at("/tree/user/Cargo.toml")));
    assert!(!plain.iter().any(|q| matches!(q, Query::Metadata(_))), "{plain:?}");
    let full = asked(&tmp, &source, true);
    assert!(full.contains(&Query::Metadata(at("/tree/user/Cargo.toml"))), "{full:?}");
    for list in [&plain, &full] {
        for (i, q) in list.iter().enumerate() {
            assert!(!list[..i].contains(q), "{q:?} is asked twice");
        }
    }
}
