//! The laws of the library on concrete values.
use std::cell::RefCell;
use std::collections::BTreeMap;
use spel_framework_core::account_types::collect_account_types;
use spel_framework_core::dep_walk::{path_dep_dirs, resolve_dep_graph, DepGraph};
use spel_framework_core::disk::{Contents, Disk, Kind, Listed, Metadata, Query};
use spel_framework_core::extension::discovery::{resolve_bound_value, strip_bound_params};
use spel_framework_core::extension::inject::{
    build_remap, check_embed_window_collisions, check_initializer_coverage, expr_to_seeds,
    inject_gate_params, resolve_canonical_constraint, seeds_to_pda_expr,
};
use spel_framework_core::extension::metadata::BoundArg;
use spel_framework_core::extension::{
    active_wraps, apply_wrap_and_inject, check_duplicate_instruction_names, discover_extensions,
    find_slot_carrier, parse_marker_args, resolve_derived_offsets, resolve_program_deps,
    resolve_program_deps_with_graph, rewrite_embedded_roles, ActiveWrap, BoundValue, Carriers,
    Embed, EmbedDecl, ExtensionDiscoveries, GateLocations, InjectAccount, InjectSeed, InjectSpec,
    OffsetSpec, ProgramDeps, Stop, WrapInstructions,
};
use spel_framework_core::idl::SpelIdl;
use spel_framework_core::idl_gen::{
    collect_file_items_following_mods, collect_items_from_crate_dirs, generate_idl_from_file,
    generate_idl_from_file_with_deps, generate_idl_from_file_with_graph, generate_idl_from_str,
    IdlGenError, IdlStop,
};
use spel_framework_core::model::Dup;
use spel_framework_core::path::DirPath;
use spel_framework_core::slot_offsets::{embed_window_collision_asserts, expand};
use spel_framework_core::source::parse_source;
use spel_framework_core::syntax::{AttrForm, Attribute, FnArg, Item, ItemFn};

/// A directory tree in memory that answers the questions asked about it.
#[allow(dead_code)]
struct TempDir {
    files: RefCell<BTreeMap<Vec<String>, String>>,
}

#[allow(dead_code)]
impl TempDir {
    fn new(_label: &str) -> TempDir {
        TempDir { files: RefCell::new(BTreeMap::new()) }
    }

    fn path(&self) -> DirPath {
        DirPath::new("/tree")
    }

    fn write(&self, rel: &str, text: &str) -> DirPath {
        let p = self.path().join(rel);
        self.files.borrow_mut().insert(TempDir::normal(&p), text.to_string());
        p
    }

    fn normal(p: &DirPath) -> Vec<String> {
        let mut out: Vec<String> = Vec::new();
        for part in &p.parts {
            if part == ".." {
                out.pop();
            } else if part != "." && !part.is_empty() {
                out.push(part.clone());
            }
        }
        out
    }

    fn canonical(&self, p: &DirPath) -> Option<DirPath> {
        match self.kind(p) {
            Kind::Absent => None,
            _ => Some(DirPath { absolute: true, parts: TempDir::normal(p) }),
        }
    }

    fn kind(&self, p: &DirPath) -> Kind {
        let n = TempDir::normal(p);
        let files = self.files.borrow();
        if files.contains_key(&n) {
            Kind::File
        } else if files.keys().any(|k| k.len() > n.len() && k[..n.len()] == n[..]) {
            Kind::Dir
        } else {
            Kind::Absent
        }
    }

    fn read(&self, p: &DirPath) -> Option<String> {
        self.files.borrow().get(&TempDir::normal(p)).cloned()
    }

    fn list(&self, p: &DirPath) -> Option<Vec<Listed>> {
        let n = TempDir::normal(p);
        let mut names: BTreeMap<String, bool> = BTreeMap::new();
        for k in self.files.borrow().keys() {
            if k.len() > n.len() && k[..n.len()] == n[..] {
                names.insert(k[n.len()].clone(), k.len() > n.len() + 1);
            }
        }
        if names.is_empty() {
            return None;
        }
        Some(names.into_iter().map(|(name, d)| Listed { name, is_dir: Some(d) }).collect())
    }

    /// What cargo would say of a manifest whose dependencies are all local.
    fn metadata(&self, manifest: &DirPath) -> Metadata {
        let mut packages = Vec::new();
        let mut nodes = Vec::new();
        let mut todo = vec![TempDir::normal(manifest)];
        let mut seen: Vec<Vec<String>> = Vec::new();
        while let Some(m) = todo.pop() {
            if seen.contains(&m) {
                continue;
            }
            seen.push(m.clone());
            let p = DirPath { absolute: true, parts: m.clone() };
            let Some(text) = self.read(&p) else {
                return Metadata::Failed("no manifest".to_string());
            };
            let Ok(v) = toml::from_str::<toml::Value>(&text) else {
                return Metadata::Failed("bad manifest".to_string());
            };
            let version = v["package"].get("version").and_then(|v| v.as_str()).unwrap_or("0.0.0");
            if version.contains("not-a") {
                return Metadata::Failed("bad version".to_string());
            }
            let mut deps = Vec::new();
            for (table, kind) in [("dependencies", "null"), ("dev-dependencies", "\"dev\"")] {
                let Some(t) = v.get(table).and_then(|t| t.as_table()) else {
                    continue;
                };
                for dep in t.values() {
                    let Some(rel) = dep.get("path").and_then(|p| p.as_str()) else {
                        return Metadata::Failed("not fetched".to_string());
                    };
                    let d = TempDir::normal(&p.parent().unwrap().join(rel).join("Cargo.toml"));
                    deps.push(format!(
                        "{{\"pkg\": \"/{}\", \"dep_kinds\": [{{\"kind\": {kind}}}]}}",
                        d.join("/")
                    ));
                    todo.push(d);
                }
            }
            let id = format!("/{}", m.join("/"));
            packages.push(format!("{{\"id\": \"{id}\", \"manifest_path\": \"{id}\"}}"));
            nodes.push(format!("{{\"id\": \"{id}\", \"deps\": [{}]}}", deps.join(", ")));
        }
        let root = format!("/{}", TempDir::normal(manifest).join("/"));
        Metadata::Output(format!(
            "{{\"packages\": [{}], \"workspace_members\": [\"{root}\"], \"resolve\": {{\"root\": \"{root}\", \"nodes\": [{}]}}}}",
            packages.join(", "),
            nodes.join(", ")
        ))
    }

    fn answer(&self, disk: &mut Disk, q: Query) {
        match q {
            Query::Kind(p) => {
                let k = self.kind(&p);
                disk.kinds.push((p, k));
            }
            Query::Read(p) => {
                let c = match self.read(&p) {
                    Some(text) => Contents::Text(text),
                    None => Contents::Failed("no such file".to_string()),
                };
                disk.files.push((p, c));
            }
            Query::Canonical(p) => {
                let c = self.canonical(&p);
                disk.canonical.push((p, c));
            }
            Query::List(p) => {
                let l = self.list(&p);
                disk.lists.push((p, l));
            }
            Query::Metadata(p) => {
                let m = self.metadata(&p);
                disk.metadata.push((p, m));
            }
        }
    }

    /// Repeats `work` with one more answer each time, until it asks nothing.
    fn ask<T>(&self, work: impl Fn(&Disk, &mut Vec<String>) -> Result<T, Query>) -> (T, Vec<String>) {
        let mut disk = Disk::unknown();
        loop {
            let mut warnings = Vec::new();
            match work(&disk, &mut warnings) {
                Ok(x) => return (x, warnings),
                Err(q) => self.answer(&mut disk, q),
            }
        }
    }
}

/// The attributes of a module.
#[allow(dead_code)]
fn attrs(src: &str) -> Vec<Attribute> {
    match parse_source(&format!("{src} mod m {{}}")).expect("attributes parse").remove(0) {
        Item::Mod(m) => m.attrs,
        other => panic!("expected a module, got {other:?}"),
    }
}

/// One fn.
#[allow(dead_code)]
fn func(src: &str) -> ItemFn {
    match parse_source(src).expect("fn parses").remove(0) {
        Item::Fn(f) => f,
        other => panic!("expected a fn, got {other:?}"),
    }
}

/// The names of a fn's params.
#[allow(dead_code)]
fn param_names(f: &ItemFn) -> Vec<String> {
    f.inputs
        .iter()
        .filter_map(|i| match i {
            FnArg::Typed(p) => p.name.clone(),
            FnArg::Receiver => None,
        })
        .collect()
}

/// Tells an open question from a refusal.
fn settle<T>(r: Result<T, Stop>) -> Result<Result<T, String>, Query> {
    match r {
        Ok(x) => Ok(Ok(x)),
        Err(Stop::Refused(e)) => Ok(Err(e)),
        Err(Stop::Need(q)) => Err(q),
    }
}

fn idl(
    tmp: &TempDir,
    work: impl Fn(&Disk, &mut Vec<String>) -> Result<SpelIdl, IdlStop>,
) -> Result<SpelIdl, IdlGenError> {
    tmp.ask(|d, w| match work(d, w) {
        Ok(x) => Ok(Ok(x)),
        Err(IdlStop::Failed(e)) => Ok(Err(e)),
        Err(IdlStop::Need(q)) => Err(q),
    })
    .0
}

fn items(src: &str) -> Vec<Item> {
    parse_source(src).expect("items parse")
}

fn fns(src: &str) -> Vec<ItemFn> {
    items(src)
        .into_iter()
        .filter_map(|i| match i {
            Item::Fn(f) => Some(f),
            _ => None,
        })
        .collect()
}

/// The last names of a fn's attributes.
fn attr_names(f: &ItemFn) -> Vec<String> {
    f.attrs.iter().map(|a| a.path.segments.last().unwrap().clone()).collect()
}

/// The `key = value` arguments of an attribute.
fn args_of(a: &Attribute) -> Vec<String> {
    match &a.form {
        AttrForm::List(l) => l
            .entries
            .iter()
            .map(|e| format!("{} = {}", e.path.segments.join("::"), e.value.as_ref().unwrap().text))
            .collect(),
        _ => Vec::new(),
    }
}

fn words(list: &[&str]) -> Vec<String> {
    list.iter().map(|s| s.to_string()).collect()
}

fn account(name: &str, seeds: &[&str], signer: bool) -> InjectAccount {
    InjectAccount {
        name: name.to_string(),
        role: name.to_string(),
        seeds: seeds.iter().map(|s| InjectSeed::Const(s.to_string())).collect(),
        signer,
        embedded: false,
    }
}

fn gate() -> InjectSpec {
    InjectSpec {
        wrapper: "my_gate".to_string(),
        accounts: vec![account("gate_config", &["gate_config"], false), account("caller", &[], true)],
        source: "my_ext".to_string(),
        embedded_offset: None,
    }
}

fn wrap(self_exempt: &str, exempt: &[&str]) -> ActiveWrap {
    ActiveWrap::new(WrapInstructions {
        wrapper: "my_ext::my_gate".to_string(),
        skip: None,
        self_exempt_marker: self_exempt.to_string(),
        exempt: words(exempt),
    })
    .expect("wrapper path parses")
}

fn embed(source: &str, account: &str, offset: OffsetSpec) -> Embed {
    Embed {
        source: source.to_string(),
        decl: EmbedDecl {
            role: "gate_config".to_string(),
            account: account.to_string(),
            offset,
            initializer: None,
        },
        state_type: format!("{source}::Config"),
        carrier: None,
    }
}

fn deps_of(ext: ExtensionDiscoveries) -> ProgramDeps {
    ProgramDeps {
        graph: DepGraph {
            transitive_dirs: Vec::new(),
            direct_dirs: Vec::new(),
            metadata_failure: None,
        },
        extensions: ext,
    }
}

fn nothing() -> ExtensionDiscoveries {
    ExtensionDiscoveries {
        instructions: Vec::new(),
        inject_specs: Vec::new(),
        wraps: Vec::new(),
        embeds: Vec::new(),
        bound_calls: Vec::new(),
        matched_markers: Vec::new(),
    }
}

// ── Injection ────────────────────────────────────────────────────────────

#[test]
fn injection_inserts_one_block_behind_the_context() {
    let mut f = func(
        "#[my_gate] #[doc = \"x\"] pub fn set(ctx: ProgramContext, a: u64, b: u8) {}",
    );
    let before = f.dup();
    let remap = build_remap(&vec![gate()], &f);
    let names = inject_gate_params(&mut f, &vec![gate()], &remap).unwrap();
    assert_eq!(names, words(&["gate_config", "caller"]));
    assert_eq!(param_names(&f), words(&["ctx", "gate_config", "caller", "a", "b"]));
    assert_eq!(f.attrs, before.attrs);
    assert_eq!(f.name, before.name);
    assert_eq!(f.inputs[0], before.inputs[0]);
    assert_eq!(f.inputs[3], before.inputs[1]);
    assert_eq!(f.inputs[4], before.inputs[2]);
}

#[test]
fn injecting_twice_under_one_remap_changes_nothing() {
    let mut f = func("#[my_gate] pub fn set(#[account(signer)] owner: AccountWithMetadata) {}");
    let specs = vec![gate()];
    let remap = build_remap(&specs, &f);
    assert_eq!(remap, vec![("caller".to_string(), "owner".to_string())]);
    assert_eq!(inject_gate_params(&mut f, &specs, &remap).unwrap(), words(&["gate_config"]));
    let once = f.dup();
    assert_eq!(inject_gate_params(&mut f, &specs, &remap).unwrap(), words(&[]));
    assert_eq!(f, once);
}

#[test]
fn a_remap_names_declared_params_only() {
    let specs = vec![gate()];
    let bare = func("#[my_gate] pub fn set(amount: u64) {}");
    assert_eq!(build_remap(&specs, &bare), vec![]);
    let f = func(
        "#[my_gate] pub fn set(#[account(pda = literal(\"gate_config\"))] cfg: AccountWithMetadata, #[account(signer)] me: AccountWithMetadata) {}",
    );
    for (_, to) in build_remap(&specs, &f) {
        assert!(param_names(&f).contains(&to));
    }
}

#[test]
fn omitting_locations_injects_the_same_accounts() {
    let specs = vec![gate()];
    let src = "#[my_gate] pub fn set(amount: u64) {}";
    let (mut a, mut b) = (func(src), func(src));
    let emit = vec![embed("my_ext", "cfg", OffsetSpec::Literal(32))];
    let omit = vec![embed("my_ext", "cfg", OffsetSpec::Derived)];
    let wraps = vec![wrap("exempt", &[])];
    let x = apply_wrap_and_inject(&mut a, &wraps, &specs, &emit, GateLocations::Emit, None).unwrap();
    let y = apply_wrap_and_inject(&mut b, &wraps, &specs, &omit, GateLocations::Omit, None).unwrap();
    assert_eq!(x, y);
    assert_eq!(a.inputs, b.inputs);
    assert_eq!(
        args_of(&a.attrs[0]),
        words(&["gate_config = gate_config", "caller = caller", "offset = 32"])
    );
    assert_eq!(args_of(&b.attrs[0]), words(&["gate_config = gate_config", "caller = caller"]));
}

#[test]
fn gating_keeps_every_authored_attribute_in_order() {
    let src = "#[instruction] #[allow(unused)] #[my_gate] #[doc = \"d\"] pub fn set(amount: u64) {}";
    let embeds = vec![embed("my_ext", "cfg", OffsetSpec::Literal(8))];
    let wraps = vec![wrap("exempt", &[])];
    let mut f = func(src);
    apply_wrap_and_inject(&mut f, &wraps, &vec![gate()], &embeds, GateLocations::Emit, None).unwrap();
    assert_eq!(attr_names(&f), words(&["my_gate", "instruction", "allow", "my_gate", "doc"]));
    assert_eq!(
        args_of(&f.attrs[3]),
        words(&["gate_config = gate_config", "caller = caller", "offset = 8"])
    );
    let mut g = func(src);
    let written = g.attrs.dup();
    apply_wrap_and_inject(&mut g, &wraps, &vec![gate()], &embeds, GateLocations::Omit, None).unwrap();
    assert_eq!(g.attrs[1..], written[..]);
}

#[test]
fn each_exemption_keeps_the_gate_off() {
    let mut spec = gate();
    spec.accounts[0].name = "cfg".to_string();
    spec.accounts[0].embedded = true;
    let specs = vec![spec];
    let wraps = vec![wrap("exempt", &["other_ext::set"])];
    let run = |src: &str, qualified: Option<&str>| {
        let mut f = func(src);
        apply_wrap_and_inject(&mut f, &wraps, &specs, &vec![], GateLocations::Omit, qualified)
            .unwrap();
        attr_names(&f)
    };
    assert_eq!(run("pub fn set(a: u64) {}", None), words(&["my_gate"]));
    assert_eq!(run("#[exempt] pub fn set(a: u64) {}", None), words(&["exempt"]));
    assert_eq!(run("pub fn set(a: u64) {}", Some("other_ext::set")), words(&[]));
    assert_eq!(run("pub fn set(a: u64) {}", Some("third::set")), words(&["my_gate"]));
    assert_eq!(
        run("pub fn make(#[account(init, pda = literal(\"c\"))] cfg: AccountWithMetadata) {}", None),
        words(&[])
    );
}

#[test]
fn kept_wraps_stay_in_order() {
    let config = |wrapper: &str, skip: Option<&str>| WrapInstructions {
        wrapper: wrapper.to_string(),
        skip: skip.map(|s| s.to_string()),
        self_exempt_marker: "x".to_string(),
        exempt: Vec::new(),
    };
    let wraps = vec![
        ("".to_string(), config("a::one", Some("manual"))),
        ("manual".to_string(), config("b::two", Some("manual"))),
        ("manual".to_string(), config("c::three", None)),
        ("other".to_string(), config("d::four", Some("manual"))),
    ];
    let kept: Vec<String> = active_wraps(&wraps).unwrap().into_iter().map(|w| w.last).collect();
    assert_eq!(kept, words(&["one", "three", "four"]));
    let err = active_wraps(&vec![("".to_string(), config("not a path", None))]).unwrap_err();
    assert!(err.starts_with("invalid wrapper path \"not a path\": "), "{err}");
}

#[test]
fn written_seeds_read_back_the_same() {
    let one = vec![InjectSeed::Const("a \"quoted\" seed".to_string())];
    let two = vec![InjectSeed::Const("frozen".to_string()), InjectSeed::Account("caller".to_string())];
    for seeds in [one, two] {
        let expr = seeds_to_pda_expr(&seeds).unwrap();
        assert_eq!(expr_to_seeds(&expr), Some(seeds));
    }
    assert_eq!(seeds_to_pda_expr(&Vec::new()), None);
    let two = vec![InjectSeed::Const("frozen".to_string()), InjectSeed::Account("caller".to_string())];
    assert_eq!(
        seeds_to_pda_expr(&two).unwrap().text,
        "[literal (\"frozen\") , account (\"caller\")]"
    );
}

// ── Embedded roles ───────────────────────────────────────────────────────

const CREATE: &str =
    "#[instruction] pub fn create(#[account(init, pda = literal(\"cfg\"))] cfg: AccountWithMetadata) {}";

#[test]
fn rewriting_notes_the_offset_of_each_embedded_extension() {
    let mut other = gate();
    other.source = "other_ext".to_string();
    let mut specs = vec![gate(), other];
    let embeds = vec![embed("my_ext", "cfg", OffsetSpec::Literal(8))];
    rewrite_embedded_roles(&mut specs, &embeds, &fns(CREATE)).unwrap();
    assert_eq!(specs[0].embedded_offset, Some(OffsetSpec::Literal(8)));
    assert_eq!(specs[0].accounts[0].name, "cfg");
    assert_eq!(specs[0].accounts[0].role, "gate_config");
    assert_eq!(specs[0].accounts[0].seeds, vec![InjectSeed::Const("cfg".to_string())]);
    assert!(specs[0].accounts[0].embedded);
    assert_eq!(specs[1].embedded_offset, None);
    assert_eq!(specs[1].accounts, gate().accounts);
}

#[test]
fn two_embedded_roles_share_one_account() {
    let other = InjectSpec {
        wrapper: "other_gate".to_string(),
        accounts: vec![account("other_config", &["other_config"], false)],
        source: "other_ext".to_string(),
        embedded_offset: None,
    };
    let mut second = embed("other_ext", "cfg", OffsetSpec::Literal(40));
    second.decl.role = "other_config".to_string();
    let embeds = vec![embed("my_ext", "cfg", OffsetSpec::Literal(8)), second];
    let mut specs = vec![gate(), other];
    rewrite_embedded_roles(&mut specs, &embeds, &fns(CREATE)).unwrap();
    let mut f = func("#[my_gate] #[other_gate] pub fn act(n: u8) {}");
    let remap = build_remap(&specs, &f);
    assert_eq!(inject_gate_params(&mut f, &specs, &remap), Ok(words(&["cfg", "caller"])));
    assert_eq!(param_names(&f), words(&["cfg", "caller", "n"]));

    specs[1].accounts[0].seeds = vec![InjectSeed::Const("elsewhere".to_string())];
    let mut g = func("#[my_gate] #[other_gate] pub fn act(n: u8) {}");
    assert_eq!(
        inject_gate_params(&mut g, &specs, &remap),
        Err("extension 'my_ext' and 'other_ext' both inject param 'cfg' with conflicting constraints"
            .to_string())
    );
}

#[test]
fn equal_literal_offsets_of_one_account_collide() {
    let at = |s: &str, a: &str, n: usize| embed(s, a, OffsetSpec::Literal(n));
    assert!(check_embed_window_collisions(&vec![at("a", "cfg", 0), at("b", "cfg", 8)]).is_ok());
    assert!(check_embed_window_collisions(&vec![at("a", "cfg", 8), at("b", "other", 8)]).is_ok());
    let err = check_embed_window_collisions(&vec![at("a", "cfg", 0), at("b", "cfg", 8), at("c", "cfg", 8)])
        .unwrap_err();
    assert_eq!(
        err,
        "extensions `b` and `c` both embed into account `cfg` at offset 8; identical offsets cannot both hold state, declare distinct offsets"
    );
    let derived = vec![embed("a", "cfg", OffsetSpec::Derived), embed("b", "cfg", OffsetSpec::Derived)];
    assert!(check_embed_window_collisions(&derived).is_ok());
}

#[test]
fn a_canonical_constraint_needs_a_creator_and_agreement() {
    let user = "pub fn a(#[account(mut, pda = literal(\"cfg\"))] cfg: AccountWithMetadata) {}";
    let odd = "pub fn b(#[account(pda = literal(\"odd\"))] cfg: AccountWithMetadata) {}";
    let text = |src: &str| resolve_canonical_constraint(&fns(src), "cfg");
    assert_eq!(text(&format!("{user} {CREATE}")).unwrap().text, "literal (\"cfg\")");
    assert!(text(user).unwrap_err().contains("no canonical declaration"));
    assert_eq!(
        text(&format!("{CREATE} {odd}")).unwrap_err(),
        "embedded account `cfg` is declared with conflicting pda constraints: in `create` and in `b`"
    );
}

#[test]
fn creators_and_initializers_are_the_same_fns() {
    let mut e = embed("my_ext", "cfg", OffsetSpec::Derived).decl;
    e.initializer = Some("my_init".to_string());
    let run = |src: &str| check_initializer_coverage(&e, &fns(src));
    let make = "pub fn make(#[account(init)] cfg: AccountWithMetadata) {}";
    assert!(run(&format!("#[my_init] {make}")).is_ok());
    assert!(run(&format!("#[initialize] {make}")).is_ok());
    assert!(run("pub fn plain(a: u64) {}").is_ok());
    assert!(run(make).unwrap_err().contains("ships born renounced"));
    assert!(run("#[my_init] pub fn plain(a: u64) {}").unwrap_err().contains("freshly created"));
    let mut free = embed("my_ext", "cfg", OffsetSpec::Derived).decl;
    free.initializer = None;
    assert!(check_initializer_coverage(&free, &fns(make)).is_ok());
}

#[test]
fn an_unresolved_offset_stops_a_producer_that_writes_it() {
    let embeds = vec![embed("my_ext", "cfg", OffsetSpec::Derived)];
    let mut f = func("pub fn set(a: u64) {}");
    let err =
        apply_wrap_and_inject(&mut f, &vec![], &vec![], &embeds, GateLocations::Emit, None).unwrap_err();
    assert!(err.starts_with("extension `my_ext` reached the "), "{err}");
    assert!(
        err.ends_with(
            "gate pass with an unresolved derived offset; `resolve_derived_offsets` must run after discovery"
        ),
        "{err}"
    );
    assert!(apply_wrap_and_inject(&mut f, &vec![], &vec![], &embeds, GateLocations::Omit, None).is_ok());
}

// ── Discovery ────────────────────────────────────────────────────────────

fn manifest(name: &str, attr: Option<&str>, deps: &[&str]) -> String {
    let mut out = format!("[package]\nname = \"{name}\"\nversion = \"0.1.0\"\nedition = \"2021\"\n");
    if let Some(a) = attr {
        out.push_str(&format!("[package.metadata.spel]\nextension_attr = \"{a}\"\n"));
    }
    out.push_str("[dependencies]\n");
    for d in deps {
        out.push_str(&format!("{d} = {{ path = \"../{d}\" }}\n"));
    }
    out
}

fn ext(tmp: &TempDir, name: &str, attr: &str, deps: &[&str]) {
    tmp.write(&format!("{name}/Cargo.toml"), &manifest(name, Some(attr), deps));
    tmp.write(
        &format!("{name}/src/lib.rs"),
        &format!("#[instruction] pub fn {attr}_act(account: AccountWithMetadata) -> R {{ todo!() }}"),
    );
}

fn discovered(tmp: &TempDir, mod_attrs: &str) -> Result<ExtensionDiscoveries, String> {
    let list = attrs(mod_attrs);
    let start = tmp.path().join("user");
    tmp.ask(|d, w| {
        let graph = resolve_dep_graph(d, &start, true, w)?;
        settle(discover_extensions(d, &graph.direct_dirs, &list, &Vec::new(), w))
    })
    .0
}

#[test]
fn contributions_come_in_marker_order() {
    for deps in [["a-ext", "b-ext"], ["b-ext", "a-ext"]] {
        let tmp = TempDir::new("order");
        ext(&tmp, "a-ext", "aa", &[]);
        ext(&tmp, "b-ext", "bb", &[]);
        tmp.write("user/Cargo.toml", &manifest("user", None, &deps));
        let found = discovered(&tmp, "#[lez_program] #[bb] #[aa]").unwrap();
        assert_eq!(found.matched_markers, words(&["bb", "aa"]));
        let names: Vec<String> = found.instructions.iter().map(|(f, _)| f.name.clone()).collect();
        assert_eq!(names, words(&["bb_act", "aa_act"]));
        assert!(found.instructions[0].1.leading_colon);
        assert_eq!(found.instructions[0].1.segments, words(&["b_ext"]));
    }
}

#[test]
fn an_extension_needs_the_dependency_and_the_marker() {
    let tmp = TempDir::new("consent");
    ext(&tmp, "a-ext", "aa", &["b-ext"]);
    ext(&tmp, "b-ext", "bb", &[]);
    tmp.write("user/Cargo.toml", &manifest("user", None, &["a-ext"]));
    assert_eq!(discovered(&tmp, "#[lez_program]").unwrap(), nothing());
    // `b-ext` is there, but not a direct dependency.
    assert_eq!(discovered(&tmp, "#[lez_program] #[bb]").unwrap(), nothing());
    let err = discovered(&tmp, "#[aa] #[lez_program]").unwrap_err();
    assert!(err.contains("#[aa] is above #[lez_program]"), "{err}");
}

#[test]
fn transitive_directories_do_not_change_discovery() {
    let tmp = TempDir::new("direct");
    ext(&tmp, "a-ext", "aa", &["b-ext"]);
    ext(&tmp, "b-ext", "bb", &[]);
    tmp.write("user/Cargo.toml", &manifest("user", None, &["a-ext"]));
    let list = attrs("#[lez_program] #[aa]");
    let run = |transitive: Vec<DirPath>| {
        tmp.ask(|d, w| {
            let graph = DepGraph {
                transitive_dirs: transitive.dup(),
                direct_dirs: vec![tmp.path().join("a-ext")],
                metadata_failure: None,
            };
            settle(resolve_program_deps_with_graph(d, graph, &list, &Vec::new(), w))
        })
    };
    let (a, wa) = run(vec![]);
    let (b, wb) = run(vec![tmp.path().join("a-ext"), tmp.path().join("b-ext")]);
    assert_eq!(a.unwrap().extensions, b.unwrap().extensions);
    assert_eq!(wa, wb);
}

#[test]
fn a_marker_left_over_is_refused_by_name() {
    let tmp = TempDir::new("left-over");
    ext(&tmp, "a-ext", "aa", &[]);
    tmp.write("user/Cargo.toml", &manifest("user", None, &["a-ext"]));
    let start = tmp.path().join("user");
    let run = |src: &str| {
        let list = attrs(src);
        tmp.ask(|d, w| settle(resolve_program_deps(d, &start, &list, &Vec::new(), w))).0
    };
    assert!(run("#[lez_program] #[aa] #[doc = \"x\"]").is_ok());
    let err = run("#[lez_program] #[aa] #[typo]").unwrap_err();
    assert!(err.contains("[\"typo\"]"), "{err}");
    assert!(!err.contains("\"aa\""), "{err}");
}

#[test]
fn duplicate_names_are_the_only_refusal() {
    let list = |names: &[&str]| names.iter().map(|n| (n.to_string(), format!("s_{n}"))).collect();
    assert!(check_duplicate_instruction_names(&list(&["a", "b", "c"])).is_ok());
    assert!(check_duplicate_instruction_names(&list(&[])).is_ok());
    let two = vec![
        ("a".to_string(), "this module".to_string()),
        ("b".to_string(), "this module".to_string()),
        ("a".to_string(), "extension x".to_string()),
    ];
    assert_eq!(
        check_duplicate_instruction_names(&two).unwrap_err(),
        "duplicate instruction name 'a': defined in this module and in extension x"
    );
}

fn bound(from: &str, default: Option<usize>) -> BoundArg {
    BoundArg { arg: "offset".to_string(), from: from.to_string(), default }
}

#[test]
fn a_default_never_stands_in_for_a_declared_embed() {
    let b = bound("offset", Some(7));
    let derived = embed("x", "cfg", OffsetSpec::Derived).decl;
    let literal = embed("x", "cfg", OffsetSpec::Literal(3)).decl;
    let none = Vec::new();
    assert_eq!(
        resolve_bound_value(&b, Some(derived), &none, "x").unwrap(),
        BoundValue::Derived { role: "gate_config".to_string() }
    );
    assert_eq!(
        resolve_bound_value(&b, Some(literal), &none, "x").unwrap(),
        BoundValue::Literal(3)
    );
    assert_eq!(resolve_bound_value(&b, None, &none, "x").unwrap(), BoundValue::Literal(7));
    let peer = bound("peer::offset", Some(7));
    let list = attrs("#[lez_program] #[peer(gate_config = cfg)]");
    assert_eq!(
        resolve_bound_value(&peer, None, &list, "x").unwrap(),
        BoundValue::Derived { role: "gate_config".to_string() }
    );
    assert!(resolve_bound_value(&bound("offset", None), None, &none, "x").is_err());
}

#[test]
fn stripping_takes_exactly_the_bound_params() {
    let none = Vec::new();
    let bounds = vec![bound("offset", Some(7))];
    let run = |src: &str| strip_bound_params(func(src), &bounds, &None, &none, "x");
    let (f, values) = run("pub fn act(a: u64, offset: usize) {}").unwrap();
    assert_eq!(values, vec![BoundValue::Literal(7)]);
    assert_eq!(param_names(&f), words(&["a"]));
    let (g, values) = run("pub fn act(a: u64) {}").unwrap();
    assert_eq!(values, vec![]);
    assert_eq!(param_names(&g), words(&["a"]));
    let err = run("pub fn act(offset: usize, a: u64) {}").unwrap_err();
    assert!(err.contains("must be the trailing params"), "{err}");
}

#[test]
fn marker_arguments_may_come_in_any_order() {
    let read = |src: &str| parse_marker_args(&attrs(src)[0], "my_gate").unwrap().unwrap();
    let all = [
        "#[my_gate(manual, gate_config = cfg, offset = 4)]",
        "#[my_gate(manual, offset = 4, gate_config = cfg)]",
        "#[my_gate(offset = 4, manual, gate_config = cfg)]",
        "#[my_gate(offset = 4, gate_config = cfg, manual)]",
        "#[my_gate(gate_config = cfg, offset = 4, manual)]",
        "#[my_gate(gate_config = cfg, manual, offset = 4)]",
    ];
    for src in all {
        assert_eq!(read(src), read(all[0]), "{src}");
    }
    assert_eq!(read(all[0]).word, Some("manual".to_string()));
}

// ── Preparation ──────────────────────────────────────────────────────────

const CARRIER: &str = "#[account_type] pub struct Cfg { pub v: u64, #[gate_slot] pub g: u8 }";

fn embedded_ext() -> ExtensionDiscoveries {
    let mut ext = nothing();
    ext.inject_specs = vec![gate()];
    ext.embeds = vec![embed("my_ext", "cfg", OffsetSpec::Derived)];
    ext.bound_calls = vec![(
        "act".to_string(),
        vec![BoundValue::Literal(1), BoundValue::Derived { role: "gate_config".to_string() }],
    )];
    ext.wraps = vec![(
        "".to_string(),
        WrapInstructions {
            wrapper: "my_ext::my_gate".to_string(),
            skip: None,
            self_exempt_marker: "exempt".to_string(),
            exempt: Vec::new(),
        },
    )];
    ext
}

#[test]
fn resolution_leaves_no_derivation() {
    let mut ext = embedded_ext();
    resolve_derived_offsets(&mut ext, &items(CARRIER)).unwrap();
    assert_eq!(ext.embeds[0].decl.offset, OffsetSpec::Path("Cfg::GATE_SLOT_OFFSET".to_string()));
    assert_eq!(
        ext.bound_calls[0].1,
        vec![BoundValue::Literal(1), BoundValue::Path("Cfg::GATE_SLOT_OFFSET".to_string())]
    );
    assert_eq!(ext.inject_specs, vec![gate()]);
}

#[test]
fn a_prepared_program_is_ready_to_gate() {
    let module = items(CREATE);
    let carriers = items(CARRIER);
    let p = deps_of(embedded_ext()).prepare(&module, Carriers::Resolve(&carriers)).unwrap();
    assert_eq!(p.locations, GateLocations::Emit);
    let q = deps_of(embedded_ext()).prepare(&module, Carriers::Skip).unwrap();
    assert_eq!(q.locations, GateLocations::Omit);
    let src = "#[instruction] pub fn set(amount: u64) {}";
    let (mut a, mut b) = (func(src), func(src));
    let x = p.gate(&mut a, None).unwrap();
    let y = q.gate(&mut b, None).unwrap();
    assert_eq!(x, words(&["cfg", "caller"]));
    assert_eq!(x, y);
    assert_eq!(a.inputs, b.inputs);
    assert_eq!(
        args_of(&a.attrs[0]),
        words(&["gate_config = cfg", "caller = caller", "offset = Cfg :: GATE_SLOT_OFFSET"])
    );
    assert_eq!(args_of(&b.attrs[0]), words(&["gate_config = cfg", "caller = caller"]));
}

// ── The dependency graph ─────────────────────────────────────────────────

fn shown(dirs: &[DirPath]) -> Vec<String> {
    dirs.iter().map(|d| d.display()).collect()
}

#[test]
fn a_cycle_of_path_dependencies_ends() {
    let tmp = TempDir::new("cycle");
    tmp.write("user/Cargo.toml", &manifest("user", None, &["a"]));
    tmp.write("a/Cargo.toml", &manifest("a", None, &["b"]));
    tmp.write("b/Cargo.toml", &manifest("b", None, &["user", "a"]));
    let m = tmp.path().join("user/Cargo.toml");
    let (dirs, _) = tmp.ask(|d, _| path_dep_dirs(d, &m));
    assert_eq!(shown(&dirs), words(&["/tree/user/../a", "/tree/user/../a/../b"]));
}

#[test]
fn a_diamond_is_listed_once() {
    let tmp = TempDir::new("diamond");
    tmp.write("user/Cargo.toml", &manifest("user", None, &["a", "b"]));
    tmp.write("a/Cargo.toml", &manifest("a", None, &["c"]));
    tmp.write("b/Cargo.toml", &manifest("b", None, &["c"]));
    tmp.write("c/Cargo.toml", &manifest("c", None, &[]));
    let start = tmp.path().join("user");
    for with_metadata in [false, true] {
        let (graph, _) = tmp.ask(|d, w| resolve_dep_graph(d, &start, with_metadata, w));
        assert_eq!(
            shown(&graph.transitive_dirs),
            words(&["/tree/user/../a", "/tree/user/../a/../c", "/tree/user/../b"])
        );
        assert_eq!(shown(&graph.direct_dirs), words(&["/tree/user/../a", "/tree/user/../b"]));
        assert_eq!(graph.metadata_failure, None);
    }
}

#[test]
fn the_walk_finds_what_path_dependencies_lead_to_and_nothing_else() {
    let tmp = TempDir::new("reach");
    tmp.write("user/Cargo.toml", &manifest("user", None, &["a", "bare"]));
    tmp.write("a/Cargo.toml", &manifest("a", None, &["b", "user"]));
    tmp.write("b/Cargo.toml", &manifest("b", None, &["a", "d"]));
    tmp.write("d/Cargo.toml", "[workspace]\nmembers = []\n[dependencies]\ne = { path = \"../e\" }\n");
    tmp.write("e/Cargo.toml", &manifest("e", None, &[]));
    tmp.write("bare/notes.txt", "");
    tmp.write("other/Cargo.toml", &manifest("other", None, &["far"]));
    tmp.write("far/Cargo.toml", &manifest("far", None, &[]));
    let m = tmp.path().join("user/Cargo.toml");
    let (dirs, _) = tmp.ask(|d, _| path_dep_dirs(d, &m));
    let mut found: Vec<String> = dirs.iter().map(|d| TempDir::normal(d).join("/")).collect();
    found.sort();
    assert_eq!(found, words(&["tree/a", "tree/b", "tree/bare", "tree/d"]));
}

#[test]
fn a_long_chain_is_followed_to_its_end() {
    let tmp = TempDir::new("chain");
    tmp.write("user/Cargo.toml", &manifest("user", None, &["c0"]));
    for i in 0..12 {
        let next = format!("c{}", i + 1);
        let deps: Vec<&str> = if i < 11 { vec![&next] } else { vec![] };
        tmp.write(&format!("c{i}/Cargo.toml"), &manifest(&format!("c{i}"), None, &deps));
    }
    let m = tmp.path().join("user/Cargo.toml");
    let (dirs, _) = tmp.ask(|d, _| path_dep_dirs(d, &m));
    assert_eq!(dirs.len(), 12);
}

#[test]
fn every_directory_of_a_workspace_is_searched() {
    let tmp = TempDir::new("deep");
    tmp.write("Cargo.toml", "[workspace]\nmembers = [\"elsewhere\"]\n");
    tmp.write("x/y/z/prog/Cargo.toml", &manifest("prog", None, &[]));
    let source = tmp.write("loose/main.rs", "");
    let mut disk = Disk::unknown();
    loop {
        let mut warnings = Vec::new();
        match resolve_dep_graph(&disk, &source, false, &mut warnings) {
            Ok(_) => break,
            Err(q) => tmp.answer(&mut disk, q),
        }
    }
    let listed: Vec<String> = disk.lists.iter().map(|(p, _)| p.display()).collect();
    for dir in ["/tree", "/tree/x", "/tree/x/y", "/tree/x/y/z", "/tree/x/y/z/prog", "/tree/loose"] {
        assert!(listed.contains(&dir.to_string()), "{dir}: {listed:?}");
    }
}

#[test]
fn without_a_request_nothing_is_reported_as_failed() {
    let tmp = TempDir::new("unrequested");
    let start = tmp.path().join("nowhere");
    let (graph, _) = tmp.ask(|d, w| resolve_dep_graph(d, &start, false, w));
    assert_eq!(graph.metadata_failure, None);
    let (graph, _) = tmp.ask(|d, w| resolve_dep_graph(d, &start, true, w));
    assert_eq!(
        graph.metadata_failure,
        Some("no Cargo.toml found above /tree/nowhere".to_string())
    );
}

// ── Source files ─────────────────────────────────────────────────────────

fn struct_names(list: &[Item]) -> Vec<String> {
    list.iter()
        .filter_map(|i| match i {
            Item::Struct(s) => Some(s.name.clone()),
            _ => None,
        })
        .collect()
}

#[test]
fn modules_are_followed_to_their_end_and_once() {
    let tmp = TempDir::new("modules");
    let lib = tmp.write("c/src/lib.rs", "mod a; struct L;");
    tmp.write("c/src/a.rs", "mod b; struct A;");
    tmp.write("c/src/a/b.rs", "#[path = \"../../lib.rs\"] mod back; mod deep { mod d; } struct B;");
    tmp.write("c/src/a/b/deep/d.rs", "struct D;");
    let dirs = vec![tmp.path().join("c")];
    let ((list, files), _) = tmp.ask(|d, _| collect_items_from_crate_dirs(d, &dirs));
    assert_eq!(struct_names(&list), words(&["D", "B", "A", "L"]));
    assert_eq!(files.len(), 4);
    let (list, _) = tmp.ask(|d, _| collect_file_items_following_mods(d, &lib));
    assert_eq!(struct_names(&list), words(&["D", "B", "A", "L"]));
}

// ── The IDL ──────────────────────────────────────────────────────────────

fn program(extra: &str, body: &str) -> SpelIdl {
    generate_idl_from_str(&format!("{extra} #[lez_program] mod prog {{ {body} }}"), "prog.rs").unwrap()
}

const ACT: &str = "#[instruction] pub fn act(a: AccountWithMetadata) {}";

#[test]
fn helper_types_do_not_depend_on_source_order() {
    let a = "#[account_type] pub struct Vault { pub s: Status, pub z: Zed }";
    let b = "pub enum Status { On, Off { n: Inner } } pub struct Zed { pub v: u8 } pub struct Inner { pub w: u8 } pub struct Unused { pub x: u8 }";
    let (_, x) = collect_account_types(&items(&format!("{a} {b}")));
    let (_, y) = collect_account_types(&items(&format!("{b} {a}")));
    assert_eq!(x, y);
    let names: Vec<&str> = x.iter().map(|t| t.name.as_str()).collect();
    assert_eq!(names, vec!["Inner", "Status", "Zed"]);
}

#[test]
fn aliases_are_followed_and_cycles_give_nothing() {
    let src = "#[account_type] pub struct V { pub a: One, pub b: Loop } type One = Two; type Two = Three; pub struct Three { pub n: u8 } type Loop = Pool; type Pool = Loop;";
    let (_, types) = collect_account_types(&items(src));
    let names: Vec<&str> = types.iter().map(|t| t.name.as_str()).collect();
    assert_eq!(names, vec!["One"]);
    assert_eq!(types[0].fields[0].name, "n");
}

#[test]
fn one_account_name_is_one_account_with_the_union_of_flags() {
    let idl = program(
        "",
        "#[instruction] pub fn act(#[account(mut)] cfg: AccountWithMetadata, amount: u64, #[account(signer)] cfg: AccountWithMetadata, #[account(init)] made: AccountWithMetadata) {}",
    );
    let accounts = &idl.instructions[0].accounts;
    assert_eq!(accounts.len(), 2);
    assert_eq!(accounts[0].name, "cfg");
    assert!(accounts[0].writable && accounts[0].signer && !accounts[0].init);
    assert!(accounts[1].writable && accounts[1].init);
}

#[test]
fn the_context_is_not_part_of_an_instruction() {
    let with = program("", "#[instruction] pub fn act(a: AccountWithMetadata, ctx: ProgramContext, n: u8) {}");
    let without = program("", "#[instruction] pub fn act(a: AccountWithMetadata, n: u8) {}");
    assert_eq!(with, without);
}

fn gated_program(tmp: &TempDir) -> DirPath {
    tmp.write(
        "a-ext/Cargo.toml",
        "[package]\nname = \"a-ext\"\nversion = \"0.1.0\"\n[package.metadata.spel]\nextension_attr = \"aa\"\n[[package.metadata.spel.inject]]\nwrapper = \"my_gate\"\n[[package.metadata.spel.inject.account]]\nname = \"caller\"\nsigner = true\n[package.metadata.spel.wrap_instructions]\nwrapper = \"a_ext::my_gate\"\nself_exempt_marker = \"exempt\"\n",
    );
    tmp.write(
        "a-ext/src/lib.rs",
        "#[instruction] pub fn ext_act(x: AccountWithMetadata) -> R { todo!() } #[account_type] pub struct ExtState { pub v: u64 }",
    );
    tmp.write("user/Cargo.toml", &manifest("user", None, &["a-ext"]));
    tmp.write(
        "user/src/main.rs",
        "#[lez_program] #[aa] mod prog { #[instruction] pub fn own(n: u64, s: String) -> R { todo!() } #[instruction] #[exempt] pub fn free(n: u64) -> R { todo!() } }",
    )
}

#[test]
fn gating_adds_accounts_and_keeps_the_data_arguments() {
    let tmp = TempDir::new("gated");
    let source = gated_program(&tmp);
    let doc = idl(&tmp, |d, w| generate_idl_from_file(d, &source, w)).unwrap();
    let names: Vec<&str> = doc.instructions.iter().map(|i| i.name.as_str()).collect();
    assert_eq!(names, vec!["own", "free", "ext_act"]);
    let accounts = |i: usize| -> Vec<&str> {
        doc.instructions[i].accounts.iter().map(|a| a.name.as_str()).collect()
    };
    let args = |i: usize| -> Vec<&str> {
        doc.instructions[i].args.iter().map(|a| a.name.as_str()).collect()
    };
    assert_eq!((accounts(0), args(0)), (vec!["caller"], vec!["n", "s"]));
    assert_eq!((accounts(1), args(1)), (vec![], vec!["n"]));
    assert_eq!((accounts(2), args(2)), (vec!["caller", "x"], vec![]));
    assert!(doc.instructions[0].accounts[0].signer);
}

#[test]
fn the_entry_points_describe_the_same_program() {
    let tmp = TempDir::new("entry");
    let source = gated_program(&tmp);
    let (graph, _) = tmp.ask(|d, w| resolve_dep_graph(d, &source, true, w));
    let dirs = graph.transitive_dirs.dup();
    let a = idl(&tmp, |d, w| generate_idl_from_file_with_graph(d, &source, graph.dup(), w)).unwrap();
    let b = idl(&tmp, |d, w| generate_idl_from_file_with_deps(d, &source, &dirs, w)).unwrap();
    assert_eq!(a, b);
    assert_eq!(a.accounts.len(), 1);
    let c = idl(&tmp, |d, w| generate_idl_from_file(d, &source, w)).unwrap();
    assert_eq!(c.accounts.len(), 0);
    assert_eq!(a.instructions, c.instructions);
}

#[test]
fn two_crates_cannot_own_one_layout() {
    let tmp = TempDir::new("owners");
    tmp.write("user/Cargo.toml", &manifest("user", None, &["one-lib", "two-lib"]));
    let state = "#[account_type] pub struct State { pub v: u64 }";
    for c in ["one-lib", "two-lib"] {
        tmp.write(&format!("{c}/Cargo.toml"), &manifest(c, None, &[]));
        tmp.write(&format!("{c}/src/lib.rs"), state);
    }
    let source =
        tmp.write("user/src/main.rs", &format!("#[lez_program] mod prog {{ {ACT} }}"));
    let dirs = |names: &[&str]| -> Vec<DirPath> { names.iter().map(|n| tmp.path().join(n)).collect() };
    let one = dirs(&["one-lib"]);
    assert_eq!(
        idl(&tmp, |d, w| generate_idl_from_file_with_deps(d, &source, &one, w)).unwrap().accounts.len(),
        1
    );
    let both = dirs(&["one-lib", "two-lib"]);
    assert_eq!(
        idl(&tmp, |d, w| generate_idl_from_file_with_deps(d, &source, &both, w)).unwrap_err(),
        IdlGenError::DuplicateAccountType(
            "duplicate account layout 'State': declared in one_lib and in two_lib".to_string()
        )
    );
    let own = tmp.write(
        "user/src/own.rs",
        &format!("{state} #[lez_program] mod prog {{ {ACT} }}"),
    );
    assert_eq!(
        idl(&tmp, |d, w| generate_idl_from_file_with_deps(d, &own, &one, w)).unwrap_err(),
        IdlGenError::DuplicateAccountType(
            "duplicate account layout 'State': declared in this program and in one_lib".to_string()
        )
    );
}

#[test]
fn a_crate_that_merely_appears_in_the_graph_owns_no_layout() {
    let tmp = TempDir::new("unconnected");
    tmp.write("user/Cargo.toml", &manifest("user", None, &["near-lib"]));
    tmp.write("near-lib/Cargo.toml", &manifest("near-lib", None, &[]));
    tmp.write("near-lib/src/lib.rs", "#[account_type] pub struct Near { pub f: Far, pub v: u64 }");
    tmp.write("git/far-lib/Cargo.toml", &manifest("far-lib", None, &[]));
    tmp.write("git/far-lib/src/lib.rs", "#[account_type] pub struct Far { pub v: u64 }");
    tmp.write("git/a-ext/Cargo.toml", &manifest("a-ext", Some("aa"), &[]));
    tmp.write("git/a-ext/src/lib.rs", "#[account_type] pub struct Gate { pub v: u64 }");
    let dirs = |names: &[&str]| -> Vec<DirPath> { names.iter().map(|n| tmp.path().join(n)).collect() };
    let graph = DepGraph {
        transitive_dirs: dirs(&["near-lib", "git/far-lib", "git/a-ext"]),
        direct_dirs: dirs(&["near-lib", "git/a-ext"]),
        metadata_failure: None,
    };
    let run = |marker: &str| {
        let source = tmp.write(
            "user/src/main.rs",
            &format!("#[lez_program] {marker} mod prog {{ {ACT} }}"),
        );
        let doc =
            idl(&tmp, |d, w| generate_idl_from_file_with_graph(d, &source, graph.dup(), w)).unwrap();
        let accounts: Vec<String> = doc.accounts.iter().map(|a| a.name.clone()).collect();
        let types: Vec<String> = doc.types.iter().map(|t| t.name.clone()).collect();
        (accounts, types)
    };
    assert_eq!(run("#[aa]"), (words(&["Near", "Gate"]), words(&["Far"])));
    assert_eq!(run(""), (words(&["Near"]), words(&["Far"])));
}

#[test]
fn an_embedded_extension_owns_no_layout_for_its_config() {
    let tmp = TempDir::new("embedded-layout");
    tmp.write(
        "a-ext/Cargo.toml",
        "[package]\nname = \"a-ext\"\nversion = \"0.1.0\"\n[package.metadata.spel]\nextension_attr = \"aa\"\n[[package.metadata.spel.inject]]\nwrapper = \"my_gate\"\n[[package.metadata.spel.inject.account]]\nname = \"a_config\"\nseed = { const = \"a_config\" }\n[package.metadata.spel.embedded]\nstate_type = \"a_ext::AConfig\"\n",
    );
    tmp.write(
        "a-ext/src/lib.rs",
        "#[account_type] pub struct AConfig { pub v: u64 } #[account_type] pub struct Other { pub v: u64 }",
    );
    tmp.write("user/Cargo.toml", &manifest("user", None, &["a-ext"]));
    let body = "#[account_type] pub struct Cfg { pub n: u64, pub a: AConfig } #[instruction] pub fn make(#[account(init, pda = literal(\"cfg\"))] cfg: AccountWithMetadata) {}";
    let dirs = vec![tmp.path().join("a-ext")];
    let run = |marker: &str| {
        let source = tmp.write(
            "user/src/main.rs",
            &format!("#[lez_program] {marker} mod prog {{ {body} }}"),
        );
        let doc = idl(&tmp, |d, w| generate_idl_from_file_with_deps(d, &source, &dirs, w)).unwrap();
        let accounts: Vec<String> = doc.accounts.iter().map(|a| a.name.clone()).collect();
        let types: Vec<String> = doc.types.iter().map(|t| t.name.clone()).collect();
        (accounts, types)
    };
    assert_eq!(
        run("#[aa(a_config = cfg, offset = 8)]"),
        (words(&["Cfg", "Other"]), words(&["AConfig"]))
    );
    assert_eq!(run("#[aa]"), (words(&["Cfg", "AConfig", "Other"]), words(&[])));
}

// ── Slots ────────────────────────────────────────────────────────────────

#[test]
fn a_slot_has_one_carrier_or_none() {
    let one = "pub struct A { #[gate_slot] pub a: u8 }";
    let two = "pub struct B { #[gate_slot] pub b: u8 }";
    let find = |src: &str| find_slot_carrier(&items(src), "gate_config");
    assert_eq!(find("pub struct A { pub a: u8 } pub struct T(u8);").unwrap(), None);
    let c = find(one).unwrap().unwrap();
    assert_eq!((c.struct_name.as_str(), c.const_name.as_str()), ("A", "GATE_SLOT_OFFSET"));
    assert_eq!(
        find(&format!("{one} {two}")).unwrap_err(),
        "both `A` and `B` carry a #[gate_slot] field; only one struct may embed this slot"
    );
}

#[test]
fn an_unmarked_struct_passes_through_expansion() {
    for src in [
        "pub struct A { #[serde(default)] pub a: u8 }",
        "pub enum E { X }",
        "pub struct T(u8);",
        "not rust at all {",
    ] {
        assert_eq!(expand(src), src);
    }
}

#[test]
fn windows_of_separate_accounts_are_not_compared() {
    let e = |s: &str, a: &str| (s.to_string(), embed(s, a, OffsetSpec::Literal(0)).decl);
    let apart = vec![e("x", "one"), e("y", "two")];
    assert_eq!(embed_window_collision_asserts(&apart, &Vec::new()).unwrap(), "");
    let together = vec![e("x", "one"), e("y", "one")];
    assert!(embed_window_collision_asserts(&together, &Vec::new()).is_err());
}

// ── Doing a thing twice, and in another order ────────────────────────────

#[test]
fn injecting_again_under_a_new_remap_changes_nothing() {
    let specs = vec![gate()];
    for src in [
        "#[my_gate] pub fn set(n: u8) {}",
        "#[my_gate] pub fn set(#[account(signer)] owner: AccountWithMetadata) {}",
        "#[my_gate] pub fn set(#[account(pda = literal(\"gate_config\"))] cfg: AccountWithMetadata) {}",
        "#[my_gate] pub fn set(#[account(signer)] a: AccountWithMetadata, #[account(signer)] b: AccountWithMetadata) {}",
    ] {
        let mut f = func(src);
        let remap = build_remap(&specs, &f);
        inject_gate_params(&mut f, &specs, &remap).unwrap();
        let once = f.dup();
        let anew = build_remap(&specs, &f);
        assert_eq!(inject_gate_params(&mut f, &specs, &anew), Ok(words(&[])), "{src}");
        assert_eq!(f, once);
    }
}

#[test]
fn compound_seeds_can_lose_their_param_to_an_injected_signer() {
    // `vault` stands in for `state`, whose seeds name `boss`. Injection adds the
    // only signer, and the new remap leads `boss` to it.
    let mut state = account("state", &["s"], false);
    state.seeds.push(InjectSeed::Account("boss".to_string()));
    let specs = vec![
        InjectSpec {
            wrapper: "my_gate".to_string(),
            accounts: vec![state, account("caller", &[], true)],
            source: "my_ext".to_string(),
            embedded_offset: None,
        },
        InjectSpec {
            wrapper: "other_gate".to_string(),
            accounts: vec![account("boss", &[], true)],
            source: "my_ext".to_string(),
            embedded_offset: None,
        },
    ];
    let mut f = func(
        "#[my_gate] pub fn set(#[account(pda = [literal(\"s\"), account(\"boss\")])] vault: AccountWithMetadata) {}",
    );
    let remap = build_remap(&specs, &f);
    assert_eq!(remap, vec![("state".to_string(), "vault".to_string())]);
    assert_eq!(inject_gate_params(&mut f, &specs, &remap), Ok(words(&["caller"])));
    let anew = build_remap(&specs, &f);
    assert_eq!(anew, vec![("boss".to_string(), "caller".to_string())]);
    assert_eq!(inject_gate_params(&mut f, &specs, &anew), Ok(words(&["state"])));
}

#[test]
fn rewriting_roles_twice_is_rewriting_them_once() {
    let mut other = gate();
    other.source = "other_ext".to_string();
    let mut specs = vec![gate(), other];
    let embeds = vec![
        embed("my_ext", "cfg", OffsetSpec::Literal(8)),
        embed("my_ext", "cfg", OffsetSpec::Literal(40)),
    ];
    rewrite_embedded_roles(&mut specs, &embeds, &fns(CREATE)).unwrap();
    let once = specs.dup();
    assert_eq!(once[0].embedded_offset, Some(OffsetSpec::Literal(40)));
    rewrite_embedded_roles(&mut specs, &embeds, &fns(CREATE)).unwrap();
    assert_eq!(specs, once);
}

#[test]
fn resolving_offsets_twice_is_resolving_them_once() {
    let mut ext = embedded_ext();
    ext.embeds.push(embed("other_ext", "cfg", OffsetSpec::Literal(4)));
    resolve_derived_offsets(&mut ext, &items(CARRIER)).unwrap();
    let once = ext.dup();
    assert!(once.embeds[1].carrier.is_some());
    resolve_derived_offsets(&mut ext, &items(CARRIER)).unwrap();
    assert_eq!(ext, once);
}

#[test]
fn omitting_locations_writes_no_offset_anywhere() {
    let mut specs = vec![gate()];
    let embeds = vec![embed("my_ext", "cfg", OffsetSpec::Derived)];
    rewrite_embedded_roles(&mut specs, &embeds, &fns(CREATE)).unwrap();
    let mut f = func(
        "#[theirs(offset = 1)] pub fn set(#[account(mut, offset = 2)] gate_config: AccountWithMetadata, #[theirs(offset = 3)] n: u8) {}",
    );
    let wraps = vec![wrap("exempt", &[])];
    apply_wrap_and_inject(
        &mut f,
        &wraps,
        &specs,
        &embeds,
        GateLocations::Omit,
        Some("my_ext::set"),
    )
    .unwrap();
    assert_eq!(attr_names(&f), words(&["my_gate", "theirs"]));
    assert_eq!(args_of(&f.attrs[0]), words(&["gate_config = cfg", "caller = caller"]));
    assert_eq!(args_of(&f.attrs[1]), words(&["offset = 1"]));
    let keys = |a: &Attribute| -> Vec<String> {
        match &a.form {
            AttrForm::List(l) => l.entries.iter().map(|e| e.path.segments.join("::")).collect(),
            _ => Vec::new(),
        }
    };
    let written: Vec<Vec<String>> = f
        .inputs
        .iter()
        .map(|i| match i {
            FnArg::Typed(p) => p.attrs.iter().flat_map(keys).collect(),
            FnArg::Receiver => Vec::new(),
        })
        .collect();
    assert_eq!(written, vec![words(&["signer"]), words(&["mut", "pda"]), words(&["offset"])]);
}

#[test]
fn embedding_an_extension_only_skips_and_embeds() {
    let tmp = TempDir::new("switch");
    ext(&tmp, "a-ext", "aa", &[]);
    tmp.write(
        "b-ext/Cargo.toml",
        "[package]\nname = \"b-ext\"\nversion = \"0.1.0\"\n[package.metadata.spel]\nextension_attr = \"bb\"\n[package.metadata.spel.embedded]\nskip = [\"setup\"]\nstate_type = \"b_ext::Config\"\n[[package.metadata.spel.inject]]\nwrapper = \"my_gate\"\n[[package.metadata.spel.inject.account]]\nname = \"gate_config\"\npda_const = \"gate_config\"\n",
    );
    tmp.write(
        "b-ext/src/lib.rs",
        "#[instruction] pub fn one(a: A) {} #[instruction] pub fn setup(a: A) {} #[instruction] pub fn two(a: A) {}",
    );
    tmp.write("user/Cargo.toml", &manifest("user", None, &["a-ext", "b-ext"]));
    let bare = discovered(&tmp, "#[lez_program] #[bb] #[aa]").unwrap();
    let embedded =
        discovered(&tmp, "#[lez_program] #[bb(gate_config = cfg, offset = 8)] #[aa]").unwrap();
    let names = |d: &ExtensionDiscoveries| -> Vec<String> {
        d.instructions.iter().map(|(f, _)| f.name.clone()).collect()
    };
    assert_eq!(names(&bare), words(&["one", "setup", "two", "aa_act"]));
    assert_eq!(names(&embedded), words(&["one", "two", "aa_act"]));
    assert_eq!(bare.embeds, vec![]);
    assert_eq!(embedded.embeds.len(), 1);
    assert_eq!(embedded.embeds[0].source, "b_ext");
    assert_eq!(embedded.embeds[0].state_type, "b_ext::Config");
    assert_eq!(
        embedded.embeds[0].decl,
        EmbedDecl {
            role: "gate_config".to_string(),
            account: "cfg".to_string(),
            offset: OffsetSpec::Literal(8),
            initializer: None,
        }
    );
    assert_eq!(embedded.inject_specs, bare.inject_specs);
    assert_eq!(embedded.wraps, bare.wraps);
    assert_eq!(embedded.matched_markers, bare.matched_markers);
}

#[test]
fn reversed_declarations_give_the_same_types() {
    let parts = [
        "#[account_type] pub struct Vault { pub s: Status }",
        "#[account_type] pub enum Kind { A { x: Zed } }",
        "pub enum Status { On, Off { n: Inner } }",
        "pub struct Zed { pub v: u8 }",
        "type Inner = Zed;",
        "#[instruction] pub fn act(a: AccountWithMetadata, p: Param) {}",
        "pub struct Param { pub q: u8 }",
        "type Loop = Loop;",
    ];
    let (mut accounts, types) = collect_account_types(&items(&parts.join(" ")));
    let mut turned = parts;
    turned.reverse();
    let (others, same) = collect_account_types(&items(&turned.join(" ")));
    assert_eq!(types, same);
    let names: Vec<&str> = types.iter().map(|t| t.name.as_str()).collect();
    assert_eq!(names, vec!["Inner", "Param", "Status", "Zed"]);
    accounts.reverse();
    assert_eq!(accounts, others);
}

#[test]
fn a_file_and_its_text_are_described_alike() {
    let tmp = TempDir::new("alike");
    tmp.write("user/Cargo.toml", &manifest("user", None, &[]));
    let good = "#[account_type] pub struct S { pub h: H } pub struct H { pub v: u8 } #[lez_program] #[allow(unused)] mod prog { #[instruction] pub fn act(#[account(mut)] a: AccountWithMetadata, n: u64) {} #[instruction] pub fn stop() {} }";
    for text in [
        good,
        "mod prog {}",
        "#[lez_program] mod prog {}",
        "#[lez_program] mod prog { #[instruction] pub fn f(&self) {} }",
        "fn (",
    ] {
        let source = tmp.write("user/src/main.rs", text);
        let from_file = idl(&tmp, |d, w| generate_idl_from_file(d, &source, w));
        assert_eq!(from_file, generate_idl_from_str(text, "/tree/user/src/main.rs"), "{text}");
    }
    assert!(generate_idl_from_str(good, "l").is_ok());
    let missing = tmp.path().join("user/src/other.rs");
    let err = idl(&tmp, |d, w| generate_idl_from_file(d, &missing, w));
    assert!(matches!(err, Err(IdlGenError::Io(_))), "{err:?}");
}

#[test]
fn a_module_without_markers_asks_nothing_of_cargo() {
    let tmp = TempDir::new("markerless");
    let source = gated_program(&tmp);
    let asks_cargo = |mod_attrs: &str| {
        let list = attrs(mod_attrs);
        let mut disk = Disk::unknown();
        loop {
            let mut warnings = Vec::new();
            match settle(resolve_program_deps(&disk, &source, &list, &Vec::new(), &mut warnings)) {
                Ok(_) => return false,
                Err(Query::Metadata(_)) => return true,
                Err(q) => tmp.answer(&mut disk, q),
            }
        }
    };
    assert!(!asks_cargo("#[lez_program]"));
    assert!(!asks_cargo("#[lez_program] #[allow(unused)]"));
    assert!(asks_cargo("#[lez_program] #[aa]"));
}
