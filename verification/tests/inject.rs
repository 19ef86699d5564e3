//! Wraps, injection and embedded roles.
use spel_framework_core::extension::inject::{
    build_remap, expr_to_seeds, inject_gate_params, resolve_canonical_constraint,
    seeds_to_pda_expr,
};
use spel_framework_core::extension::{
    apply_wrap_and_inject, rewrite_embedded_roles, ActiveWrap, Embed, EmbedDecl, GateLocations,
    InjectAccount, InjectSeed, InjectSpec, OffsetSpec, WrapInstructions,
};
use spel_framework_core::model::Dup;
use spel_framework_core::source::parse_source;
use spel_framework_core::syntax::{AttrForm, Attribute, Expr, FnArg, Item, ItemFn};

/// The attributes of a module.
#[allow(dead_code)]
fn attrs(src: &str) -> Vec<Attribute> {
    match parse_source(&format!("{src} mod m {{}}")).expect("attributes parse").remove(0) {
        Item::Mod(m) => m.attrs,
        other => panic!("expected a module, got {other:?}"),
    }
}

/// One fn.
#[allow(dead_code)]
fn func(src: &str) -> ItemFn {
    match parse_source(src).expect("fn parses").remove(0) {
        Item::Fn(f) => f,
        other => panic!("expected a fn, got {other:?}"),
    }
}

/// The names of a fn's params.
#[allow(dead_code)]
fn param_names(f: &ItemFn) -> Vec<String> {
    f.inputs
        .iter()
        .filter_map(|i| match i {
            FnArg::Typed(p) => p.name.clone(),
            FnArg::Receiver => None,
        })
        .collect()
}

/// One fn, where `func` names another.
#[allow(dead_code)]
fn one_fn(src: &str) -> ItemFn {
    func(src)
}

/// An attribute as it is read: its path and its entries.
#[allow(dead_code)]
fn meaning(a: &Attribute) -> String {
    let entries: Vec<String> = match &a.form {
        AttrForm::List(l) => l
            .entries
            .iter()
            .map(|e| match &e.value {
                Some(v) => format!("{} = {}", e.path.segments.join("::"), v.text),
                None => e.path.segments.join("::"),
            })
            .collect(),
        _ => Vec::new(),
    };
    format!("{}({})", a.path.segments.join("::"), entries.join(", "))
}

// Parse the fn items out of a source string.
fn fns_of(src: &str) -> Vec<ItemFn> {
    parse_source(src)
        .unwrap()
        .into_iter()
        .filter_map(|i| match i {
            Item::Fn(f) => Some(f),
            _ => None,
        })
        .collect()
}

// An expression as it is read out of an attribute.
fn expr(src: &str) -> Expr {
    match attrs(&format!("#[a(x = {src})]")).remove(0).form {
        AttrForm::List(mut l) => l.entries.remove(0).value.unwrap(),
        other => panic!("expected a list, got {other:?}"),
    }
}

// Wrap configs with their attribute paths parsed, as a gate pass
// receives them from `active_wraps`.
fn active(configs: Vec<WrapInstructions>) -> Vec<ActiveWrap> {
    configs
        .into_iter()
        .map(|c| ActiveWrap::new(c).expect("fixture wrapper paths parse"))
        .collect()
}

// The injection pass under the remap its production caller builds.
fn inject(func: &mut ItemFn, specs: &Vec<InjectSpec>) -> Result<Vec<String>, String> {
    let remap = build_remap(specs, func);
    inject_gate_params(func, specs, &remap)
}

// A rewritten spec plus its embed decl: embedded mode for `my_ext`.
fn embedded_fixture() -> (Vec<InjectSpec>, Vec<Embed>) {
    let specs = vec![InjectSpec {
        wrapper: "my_gate".to_string(),
        accounts: vec![
            InjectAccount {
                name: "prog_config".to_string(),
                role: "gate_config".to_string(),
                seeds: vec![InjectSeed::Const("prog_config".to_string())],
                signer: false,
                embedded: false,
            },
            InjectAccount {
                name: "caller".to_string(),
                role: "caller".to_string(),
                seeds: vec![],
                signer: true,
                embedded: false,
            },
        ],
        source: "my_ext".to_string(),
        embedded_offset: None,
    }];
    let embeds = vec![Embed {
        source: "my_ext".to_string(),
        carrier: None,
        state_type: "my_ext::MyConfig".to_string(),
        decl: EmbedDecl {
            role: "gate_config".to_string(),
            account: "prog_config".to_string(),
            offset: OffsetSpec::Literal(32),
            initializer: None,
        },
    }];
    (specs, embeds)
}

#[test]
fn embedded_role_reuses_same_spec_under_any_name() {
    // Recognition is by seed spec, not by name: a gated fn declaring
    // the embedding account's constraint under its own name must be
    // reused, never duplicated by injection.
    let (mut specs, embeds) = embedded_fixture();
    let create = func(r##"
        pub fn create(
            #[account(init, pda = literal("prog_config"))] prog_config: AccountWithMetadata,
            #[account(signer)] payer: AccountWithMetadata,
        ) -> SpelResult {
            todo!()
        }
    "##);
    rewrite_embedded_roles(&mut specs, &embeds, &vec![create]).expect("rewrite succeeds");

    let mut gated = func(r##"
        #[my_gate]
        pub fn update(
            #[account(pda = literal("prog_config"))] renamed: AccountWithMetadata,
            #[account(signer)] sender: AccountWithMetadata,
            value: u64,
        ) -> SpelResult {
            todo!()
        }
    "##);
    let before = gated.inputs.len();
    let injected = inject(&mut gated, &specs).expect("inject succeeds");
    assert!(
        injected.is_empty(),
        "same-spec params must be reused under their own names, injected: {injected:?}"
    );
    assert_eq!(
        gated.inputs.len(),
        before,
        "no duplicate account params"
    );
}

// The embedded fixture with a declared initializer: the embed
// carries the anchor attr, which makes the coverage check
// mandatory for `my_ext`.
fn initializer_fixture() -> (Vec<InjectSpec>, Vec<Embed>) {
    let (specs, mut embeds) = embedded_fixture();
    embeds[0].decl.initializer = Some("gate_initialize".to_string());
    (specs, embeds)
}

#[test]
fn embedding_creator_without_initializer_attr_is_refused() {
    let (mut specs, embeds) = initializer_fixture();
    let create = func(r##"
        pub fn create(
            #[account(init, pda = literal("prog_config"))] prog_config: AccountWithMetadata,
        ) -> SpelResult {
            todo!()
        }
    "##);
    let err = rewrite_embedded_roles(&mut specs, &embeds, &vec![create]).unwrap_err();
    assert!(
        err.contains("born renounced") && err.contains("create"),
        "got: {err}"
    );
}

#[test]
fn annotated_creator_passes_the_coverage_check() {
    let (mut specs, embeds) = initializer_fixture();
    let create = func(r##"
        #[gate_initialize]
        pub fn create(
            #[account(init, pda = literal("prog_config"))] prog_config: AccountWithMetadata,
        ) -> SpelResult {
            todo!()
        }
    "##);
    rewrite_embedded_roles(&mut specs, &embeds, &vec![create]).expect("annotated creator passes");
}

#[test]
fn initializer_attr_without_init_param_is_refused() {
    let (mut specs, embeds) = initializer_fixture();
    let create = func(r##"
        #[gate_initialize]
        pub fn create(
            #[account(init, pda = literal("prog_config"))] prog_config: AccountWithMetadata,
        ) -> SpelResult {
            todo!()
        }
    "##);
    let wrong = func(r##"
        #[gate_initialize]
        pub fn poke(value: u64) -> SpelResult {
            todo!()
        }
    "##);
    let err = rewrite_embedded_roles(&mut specs, &embeds, &vec![create, wrong]).unwrap_err();
    assert!(
        err.contains("poke") && err.contains("freshly created"),
        "got: {err}"
    );
}

// The declaration is the whole trigger: an embed without an
// initializer gets no coverage gate, even when a wrapper's name
// matches the `<role>_initialize` shape.
#[test]
fn undeclared_initializer_means_no_coverage_gate() {
    let (mut specs, embeds) = embedded_fixture();
    specs.push(InjectSpec {
        wrapper: "gate_initialize".to_string(),
        accounts: vec![],
        source: "my_ext".to_string(),
        embedded_offset: None,
    });
    let create = func(r##"
        pub fn create(
            #[account(init, pda = literal("prog_config"))] prog_config: AccountWithMetadata,
        ) -> SpelResult {
            todo!()
        }
    "##);
    rewrite_embedded_roles(&mut specs, &embeds, &vec![create])
        .expect("no declaration, no gate; born-vacant extensions are untouched");
}

// The declared name is the entire rule: an initializer named
// outside the `<role>_initialize` shape still gates every creator.
#[test]
fn unconventional_initializer_name_still_gates() {
    let (mut specs, mut embeds) = embedded_fixture();
    embeds[0].decl.initializer = Some("bootstrap_gate".to_string());
    let create = func(r##"
        pub fn create(
            #[account(init, pda = literal("prog_config"))] prog_config: AccountWithMetadata,
        ) -> SpelResult {
            todo!()
        }
    "##);
    let err = rewrite_embedded_roles(&mut specs, &embeds, &vec![create]).unwrap_err();
    assert!(
        err.contains("bootstrap_gate") && err.contains("born renounced"),
        "got: {err}"
    );
}

#[test]
fn consumer_location_kwarg_on_embedded_gate_is_error() {
    let (specs, embeds) = embedded_fixture();
    let mut func = func(r##"
        #[my_gate(gate_config = my_own)]
        pub fn update(value: u64) -> SpelResult {
            todo!()
        }
    "##);
    let err = apply_wrap_and_inject(&mut func, &Vec::new(), &specs, &embeds, GateLocations::Emit, None)
        .unwrap_err();
    assert!(
        err.contains("gate_config") && err.contains("update"),
        "got: {err}"
    );
}

#[test]
fn consumer_offset_kwarg_on_embedded_gate_is_error() {
    let (specs, embeds) = embedded_fixture();
    let mut func = func(r##"
        #[my_gate(offset = 64)]
        pub fn update(value: u64) -> SpelResult {
            todo!()
        }
    "##);
    let err = apply_wrap_and_inject(&mut func, &Vec::new(), &specs, &embeds, GateLocations::Emit, None)
        .unwrap_err();
    assert!(err.contains("offset"), "got: {err}");
}

#[test]
fn signer_kwarg_stays_allowed_in_embedded_mode() {
    let (specs, embeds) = embedded_fixture();
    let mut func = func(r##"
        #[my_gate(caller = my_signer)]
        pub fn update(
            #[account(signer)] my_signer: AccountWithMetadata,
            value: u64,
        ) -> SpelResult {
            todo!()
        }
    "##);
    apply_wrap_and_inject(&mut func, &Vec::new(), &specs, &embeds, GateLocations::Emit, None)
        .expect("signer naming is orthogonal to slot location");
}

#[test]
fn dedicated_manual_kwargs_stay_allowed() {
    let (specs, _) = embedded_fixture();
    let mut func = func(r##"
        #[my_gate(gate_config = my_own, offset = 64)]
        pub fn update(value: u64) -> SpelResult {
            todo!()
        }
    "##);
    apply_wrap_and_inject(&mut func, &Vec::new(), &specs, &Vec::new(), GateLocations::Emit, None)
        .expect("without an embed decl the lockdown must not fire");
}

#[test]
fn wrap_stamped_attr_carries_embedded_offset() {
    let specs = vec![InjectSpec {
        wrapper: "my_gate".to_string(),
        accounts: vec![InjectAccount {
            name: "prog_config".to_string(),
            role: "gate_config".to_string(),
            seeds: vec![InjectSeed::Const("prog_config".to_string())],
            signer: false,
            embedded: false,
        }],
        source: "my_ext".to_string(),
        embedded_offset: None,
    }];
    let embeds = vec![Embed {
        source: "my_ext".to_string(),
        carrier: None,
        state_type: "my_ext::MyConfig".to_string(),
        decl: EmbedDecl {
            role: "gate_config".to_string(),
            account: "prog_config".to_string(),
            offset: OffsetSpec::Literal(32),
            initializer: None,
        },
    }];
    let wraps = active(vec![WrapInstructions {
        wrapper: "my_gate".to_string(),
        skip: None,
        self_exempt_marker: "my_exempt".to_string(),
        exempt: vec![],
    }]);
    let mut func = func(r##"
        pub fn update(value: u64) -> SpelResult {
            todo!()
        }
    "##);
    apply_wrap_and_inject(
        &mut func,
        &wraps,
        &specs,
        &embeds,
        GateLocations::Emit,
        None,
    )
    .unwrap();
    let expected: Attribute =
        attrs(r##"#[my_gate(gate_config = prog_config, offset = 32)]"##).remove(0);
    assert_eq!(
        func.attrs.first().map(meaning), Some(meaning(&expected)),
        "wrap-stamped gate must carry the extension's offset"
    );
}

// The IDL producers read the fn signature and drop the attrs, so
// they never resolve a carrier: an unresolved derivation reaches
// them legally, and the accounts they see are the dispatcher's.
// Only the location kwarg differs, and only on tokens nobody reads.
#[test]
fn omitted_locations_inject_what_emitted_ones_do() {
    let (specs, embeds) = embedded_fixture();
    let mut resolved = embeds.dup();
    resolved[0].decl.offset = OffsetSpec::Path("Cfg::GATE_SLOT_OFFSET".to_string());
    let mut derived = embeds;
    derived[0].decl.offset = OffsetSpec::Derived;
    let authored = func(r##"
        #[my_gate]
        pub fn update(value: u64) -> SpelResult {
            todo!()
        }
    "##);

    let mut dispatcher = authored.dup();
    let emitted = apply_wrap_and_inject(
        &mut dispatcher,
        &Vec::new(),
        &specs,
        &resolved,
        GateLocations::Emit,
        None,
    )
    .expect("the dispatcher takes a resolved derivation");
    let mut idl = authored;
    let omitted =
        apply_wrap_and_inject(&mut idl, &Vec::new(), &specs, &derived, GateLocations::Omit, None)
            .expect("an IDL producer takes an unresolved one");

    assert_eq!(emitted, omitted, "same params injected");
    assert_eq!(
        idl.inputs, dispatcher.inputs,
        "the signature the IDL is read from must match the dispatcher's"
    );
    let stamped: Attribute = attrs(r##"#[my_gate(gate_config = prog_config, caller = caller, offset = Cfg::GATE_SLOT_OFFSET)]"##).remove(0);
    assert_eq!(dispatcher.attrs.first().map(meaning), Some(meaning(&stamped)));
    assert_eq!(
        idl.attrs.first().map(meaning), Some(meaning(&attrs(r##"#[my_gate]"##).remove(0))),
        "nothing stamps a location an IDL producer would discard"
    );
}

// The tripwire survives where it means something: a derivation that
// reaches the dispatcher unresolved is still a framework bug.
#[test]
fn emitted_locations_still_refuse_an_unresolved_derivation() {
    let (specs, mut embeds) = embedded_fixture();
    embeds[0].decl.offset = OffsetSpec::Derived;
    let mut func = func(r##"
        #[my_gate]
        pub fn update(value: u64) -> SpelResult {
            todo!()
        }
    "##);
    let err = apply_wrap_and_inject(&mut func, &Vec::new(), &specs, &embeds, GateLocations::Emit, None)
        .unwrap_err();
    assert!(err.contains("resolve_derived_offsets"), "got: {err}");
}

// Post-rewrite embedded state plus an active wrap: the shape every
// auto-gate skip test below starts from.
fn embedded_wrap_fixture() -> (Vec<InjectSpec>, Vec<Embed>, Vec<ActiveWrap>) {
    let specs = vec![InjectSpec {
        wrapper: "my_gate".to_string(),
        accounts: vec![InjectAccount {
            name: "prog_config".to_string(),
            role: "gate_config".to_string(),
            seeds: vec![InjectSeed::Const("prog_config".to_string())],
            signer: false,
            embedded: true,
        }],
        source: "my_ext".to_string(),
        embedded_offset: None,
    }];
    let embeds = vec![Embed {
        source: "my_ext".to_string(),
        carrier: None,
        state_type: "my_ext::MyConfig".to_string(),
        decl: EmbedDecl {
            role: "gate_config".to_string(),
            account: "prog_config".to_string(),
            offset: OffsetSpec::Literal(32),
            initializer: None,
        },
    }];
    let wraps = active(vec![WrapInstructions {
        wrapper: "my_gate".to_string(),
        skip: None,
        self_exempt_marker: "my_exempt".to_string(),
        exempt: vec![],
    }]);
    (specs, embeds, wraps)
}

// The fn creating the embedding account is never auto-gated: the
// state a gate would decode cannot exist before this fn runs.
#[test]
fn embedding_creator_is_never_auto_gated() {
    let (specs, embeds, wraps) = embedded_wrap_fixture();
    let mut func = func(r##"
        pub fn initialize(
            #[account(init, pda = literal("prog_config"))] mut prog_config: AccountWithMetadata,
        ) -> SpelResult {
            todo!()
        }
    "##);
    let injected = apply_wrap_and_inject(
        &mut func,
        &wraps,
        &specs,
        &embeds,
        GateLocations::Emit,
        None,
    )
    .unwrap();
    assert!(
        func.attrs.iter().all(|a| !a.path.is("my_gate")),
        "the embedding account's creator must not carry a gate"
    );
    assert!(
        injected.is_empty(),
        "a skipped gate must not inject params, got: {injected:?}"
    );
}

// Creating some other account is a state change freeze exists to
// block: only init on a gate's own account lifts a gate.
#[test]
fn creator_of_a_sibling_account_stays_gated() {
    let (specs, embeds, wraps) = embedded_wrap_fixture();
    let mut func = func(r##"
        pub fn create_item(
            #[account(pda = literal("prog_config"))] prog_config: AccountWithMetadata,
            #[account(init, pda = literal("item"))] mut item: AccountWithMetadata,
        ) -> SpelResult {
            todo!()
        }
    "##);
    apply_wrap_and_inject(
        &mut func,
        &wraps,
        &specs,
        &embeds,
        GateLocations::Emit,
        None,
    )
    .unwrap();
    assert!(
        func.attrs
            .first()
            .is_some_and(|a| a.path.is("my_gate")),
        "init on a sibling account must not lift a gate"
    );
}

// The authored bare gate in embedded mode: injection first fills
// the missing caller, stamping then writes the location kwargs on
// the authored attr. The order is structurally fixed inside
// apply_wrap_and_inject, this pins its observable outcome as a
// unit.
#[test]
fn authored_bare_gate_gets_injection_and_then_stamping() {
    let (mut specs, embeds, _) = embedded_wrap_fixture();
    specs[0].accounts.push(InjectAccount {
        name: "caller".to_string(),
        role: "caller".to_string(),
        seeds: vec![],
        signer: true,
        embedded: false,
    });
    let mut func = func(r##"
        #[my_gate]
        pub fn update(
            #[account(pda = literal("prog_config"))] prog_config: AccountWithMetadata,
            value: u64,
        ) -> SpelResult {
            todo!()
        }
    "##);
    let injected =
        apply_wrap_and_inject(&mut func, &Vec::new(), &specs, &embeds, GateLocations::Emit, None)
            .unwrap();
    assert_eq!(
        injected,
        vec!["caller".to_string()],
        "the authored gate's missing caller must be injected"
    );
    let attr = func.attrs.first().expect("the authored attr survives");
    assert!(attr.path.is("my_gate"), "authored gate stays first");
    let stamped = meaning(attr);
    assert!(
        stamped.contains("offset = 32"),
        "the authored gate must be stamped with the framework's \
        location kwargs: {stamped}"
    );
}

// Dedicated mode: a gate's account is the extension's own PDA
// (embedded = false), so even a same-named init keeps a gate.
// Pins that the `embedded` flag guards the skip.
#[test]
fn dedicated_mode_creator_stays_gated() {
    let (mut specs, _, wraps) = embedded_wrap_fixture();
    specs[0].accounts[0].embedded = false;
    let mut func = func(r##"
        pub fn initialize(
            #[account(init, pda = literal("prog_config"))] mut prog_config: AccountWithMetadata,
        ) -> SpelResult {
            todo!()
        }
    "##);
    apply_wrap_and_inject(&mut func, &wraps, &specs, &Vec::new(), GateLocations::Emit, None).unwrap();
    assert!(
        func.attrs
            .first()
            .is_some_and(|a| a.path.is("my_gate")),
        "dedicated mode must keep a gate on every consumer fn"
    );
}

#[test]
fn substituted_role_param_takes_consumer_name_and_constraint() {
    let specs = vec![InjectSpec {
        wrapper: "my_gate".to_string(),
        accounts: vec![InjectAccount {
            name: "prog_config".to_string(),
            role: "gate_config".to_string(),
            seeds: vec![InjectSeed::Const("prog_config".to_string())],
            signer: false,
            embedded: true,
        }],
        source: "my_ext".to_string(),
        embedded_offset: None,
    }];
    let mut func = func(r##"
        pub fn ext_transfer(
            #[account(mut, pda = literal("gate_config"))] mut gate_config: AccountWithMetadata,
            #[account(signer)] caller: AccountWithMetadata,
        ) -> SpelResult {
            todo!()
        }
    "##);
    apply_wrap_and_inject(
        &mut func,
        &Vec::new(),
        &specs,
        &Vec::new(),
        GateLocations::Emit,
        Some("my_ext::ext_transfer"),
    )
    .unwrap();

    let FnArg::Typed(pt) = &func.inputs[0] else {
        panic!("expected typed param");
    };
    assert_eq!(
        pt.name.as_deref(), Some("prog_config"),
        "param renamed to the consumer account"
    );
    let expected: Attribute = attrs(r##"#[account(mut, pda = literal("prog_config"))]"##).remove(0);
    assert_eq!(
        pt.attrs.first().map(meaning), Some(meaning(&expected)),
        "mut preserved, constraint swapped"
    );
}

#[test]
fn a_substituted_role_param_stays_mutable_behind_other_assignments() {
    let specs = vec![InjectSpec {
        wrapper: "my_gate".to_string(),
        accounts: vec![InjectAccount {
            name: "prog_config".to_string(),
            role: "gate_config".to_string(),
            seeds: vec![InjectSeed::Const("prog_config".to_string())],
            signer: false,
            embedded: true,
        }],
        source: "my_ext".to_string(),
        embedded_offset: None,
    }];
    let mut func = func(r##"
        pub fn ext_transfer(
            #[account(owner = x, mut, pda = literal("gate_config"))] mut gate_config: AccountWithMetadata,
        ) -> SpelResult {
            todo!()
        }
    "##);
    apply_wrap_and_inject(
        &mut func,
        &Vec::new(),
        &specs,
        &Vec::new(),
        GateLocations::Emit,
        Some("my_ext::ext_transfer"),
    )
    .unwrap();
    let FnArg::Typed(pt) = &func.inputs[0] else {
        panic!("expected typed param");
    };
    let expected: Attribute = attrs(r##"#[account(mut, pda = literal("prog_config"))]"##).remove(0);
    assert_eq!(pt.attrs.first().map(meaning), Some(meaning(&expected)));
}

#[test]
fn substitution_fires_when_embedding_account_shares_role_name() {
    let specs = vec![InjectSpec {
        wrapper: "my_gate".to_string(),
        accounts: vec![InjectAccount {
            name: "gate_config".to_string(),
            role: "gate_config".to_string(),
            seeds: vec![InjectSeed::Const("my_state".to_string())],
            signer: false,
            embedded: true,
        }],
        source: "my_ext".to_string(),
        embedded_offset: None,
    }];
    let mut func = func(r##"
        pub fn ext_transfer(
            #[account(mut, pda = literal("gate_config"))] mut gate_config: AccountWithMetadata,
        ) -> SpelResult {
            todo!()
        }
    "##);
    apply_wrap_and_inject(
        &mut func,
        &Vec::new(),
        &specs,
        &Vec::new(),
        GateLocations::Emit,
        Some("my_ext::ext_transfer"),
    )
    .unwrap();
    let FnArg::Typed(pt) = &func.inputs[0] else {
        panic!("expected typed param");
    };
    let expected: Attribute = attrs(r##"#[account(mut, pda = literal("my_state"))]"##).remove(0);
    assert_eq!(
        pt.attrs.first().map(meaning), Some(meaning(&expected)),
        "same-name embed must still retarget"
    );
}

#[test]
fn unrewritten_role_leaves_discovered_fn_untouched() {
    let specs = gate_specs();
    let mut func = func(r##"
        pub fn ext_transfer(
            #[account(mut, pda = literal("gate_config"))] mut gate_config: AccountWithMetadata,
            #[account(signer)] caller: AccountWithMetadata,
        ) -> SpelResult {
            todo!()
        }
    "##);
    let before = func.dup();
    apply_wrap_and_inject(
        &mut func,
        &Vec::new(),
        &specs,
        &Vec::new(),
        GateLocations::Emit,
        Some("my_ext::ext_transfer"),
    )
    .unwrap();
    assert_eq!(
        func, before,
        "dedicated mode must not rewrite discovered fns"
    );
}

#[test]
fn expr_to_seeds_handles_compound_arrays() {
    let seeds = expr_to_seeds(&expr(r#"[literal("cfg"), account("owner")]"#)).unwrap();
    assert_eq!(
        seeds,
        vec![
            InjectSeed::Const("cfg".to_string()),
            InjectSeed::Account("owner".to_string())
        ]
    );
}

#[test]
fn canonical_constraint_resolves_from_init_declaration() {
    let fns = fns_of(r#"
        pub fn initialize(
            #[account(init, pda = literal("prog_config"))] mut prog_config: AccountWithMetadata,
        ) -> SpelResult { todo!() }
        pub fn update(
            #[account(mut, pda = literal("prog_config"))] mut prog_config: AccountWithMetadata,
        ) -> SpelResult { todo!() }
    "#);
    assert_eq!(
        resolve_canonical_constraint(&fns, "prog_config").unwrap(),
        expr(r#"literal("prog_config")"#)
    );
}

#[test]
fn canonical_constraint_resolves_compound_pda() {
    let fns = fns_of(r#"
        pub fn initialize(
            #[account(init, pda = [literal("cfg"), account("owner")])] mut cfg: AccountWithMetadata,
        ) -> SpelResult { todo!() }
    "#);
    assert_eq!(
        resolve_canonical_constraint(&fns, "cfg").unwrap(),
        expr(r#"[literal("cfg"), account("owner")]"#)
    );
}

#[test]
fn canonical_constraint_is_read_behind_other_assignments() {
    let fns = fns_of(r#"
        pub fn initialize(
            #[account(owner = authority, init, pda = literal("cfg"))] mut cfg: AccountWithMetadata,
        ) -> SpelResult { todo!() }
        pub fn create(
            #[account(init, owner = authority, pda = literal("cfg"))] mut cfg: AccountWithMetadata,
        ) -> SpelResult { todo!() }
    "#);
    for n in [1, 2] {
        let one: Vec<ItemFn> = fns.iter().skip(n - 1).map(|f| f.dup()).collect();
        assert_eq!(
            resolve_canonical_constraint(&one, "cfg").unwrap(),
            expr(r#"literal("cfg")"#)
        );
    }
    let fns = fns_of(r#"
        pub fn initialize(
            #[account(init, owner =, pda = literal("cfg"))] mut cfg: AccountWithMetadata,
        ) -> SpelResult { todo!() }
    "#);
    let err = resolve_canonical_constraint(&fns, "cfg").unwrap_err();
    assert!(err.contains("no canonical declaration"), "got: {err}");
}

#[test]
fn written_seeds_agree_with_the_source_they_stand_for() {
    // An injected compound constraint is compared by its text with one that
    // an author wrote.
    for (first, source) in [
        ("cfg", r#"[literal("cfg"), account("owner")]"#),
        ("a \"b\" \\ c", r#"[literal("a \"b\" \\ c"), account("owner")]"#),
        ("end\0", r#"[literal("end\0"), account("owner")]"#),
        ("end\07", r#"[literal("end\x007"), account("owner")]"#),
    ] {
        let seeds =
            vec![InjectSeed::Const(first.to_string()), InjectSeed::Account("owner".to_string())];
        let written = seeds_to_pda_expr(&seeds).unwrap();
        assert_eq!(written.text, expr(source).text);
        assert_eq!(expr_to_seeds(&written), Some(seeds));
    }
    let alone = seeds_to_pda_expr(&vec![InjectSeed::Const("cfg".to_string())]).unwrap();
    assert_eq!(alone.text, expr(r#"literal("cfg")"#).text);
}

#[test]
fn canonical_constraint_missing_init_is_error() {
    let fns = fns_of(r#"
        pub fn update(
            #[account(mut, pda = literal("prog_config"))] mut prog_config: AccountWithMetadata,
        ) -> SpelResult { todo!() }
    "#);
    let err = resolve_canonical_constraint(&fns, "prog_config").unwrap_err();
    assert!(err.contains("no canonical declaration"), "got: {err}");
}

#[test]
fn canonical_constraint_never_declared_is_error() {
    let fns = fns_of("pub fn other(x: u64) -> u64 { x }");
    let err = resolve_canonical_constraint(&fns, "prog_config").unwrap_err();
    assert!(err.contains("no canonical declaration"), "got: {err}");
}

#[test]
fn canonical_constraint_init_without_pda_is_not_canonical() {
    let fns = fns_of(r#"
        pub fn initialize(
            #[account(init)] mut prog_config: AccountWithMetadata,
        ) -> SpelResult { todo!() }
    "#);
    let err = resolve_canonical_constraint(&fns, "prog_config").unwrap_err();
    assert!(err.contains("no canonical declaration"), "got: {err}");
}

#[test]
fn canonical_constraint_conflict_names_both_fns() {
    let fns = fns_of(r#"
        pub fn initialize(
            #[account(init, pda = literal("prog_config"))] mut prog_config: AccountWithMetadata,
        ) -> SpelResult { todo!() }
        pub fn update(
            #[account(mut, pda = literal("other_seed"))] mut prog_config: AccountWithMetadata,
        ) -> SpelResult { todo!() }
    "#);
    let err = resolve_canonical_constraint(&fns, "prog_config").unwrap_err();
    assert!(
        err.contains("initialize") && err.contains("update"),
        "got: {err}"
    );
}

#[test]
fn canonical_constraint_ignores_other_params_and_fns() {
    let fns = fns_of(r#"
        pub fn initialize(
            #[account(init, pda = literal("prog_config"))] mut prog_config: AccountWithMetadata,
            #[account(init, pda = literal("unrelated"))] mut other: AccountWithMetadata,
        ) -> SpelResult { todo!() }
    "#);
    assert_eq!(
        resolve_canonical_constraint(&fns, "prog_config").unwrap(),
        expr(r#"literal("prog_config")"#)
    );
}
fn gate_specs() -> Vec<InjectSpec> {
    vec![InjectSpec {
        wrapper: "my_gate".to_string(),
        source: "ext-a".into(),
        accounts: vec![
            InjectAccount {
                name: "gate_config".into(),
                role: "gate_config".into(),
                seeds: vec![InjectSeed::Const("gate_config".into())],
                signer: false,
                embedded: false,
            },
            InjectAccount {
                name: "caller".into(),
                role: "caller".into(),
                seeds: vec![],
                signer: true,
                embedded: false,
            },
        ],
        embedded_offset: None,
    }]
}

#[test]
fn inject_gate_params_injects_missing_and_skips_declared() {
    let specs = gate_specs();

    // Gated fn missing both params: inject both, in order, at the front.
    let mut func = func(r##"
        #[instruction]
        #[my_gate]
        pub fn update_value(new_value: u64) -> SpelResult { todo!() }
    "##);
    let injected = inject(&mut func, &specs).unwrap();
    assert_eq!(
        injected,
        vec!["gate_config".to_string(), "caller".to_string()]
    );
    assert_eq!(func.inputs.len(), 3);

    // Second run: everything declared now, nothing injected, fn untouched.
    let before = func.inputs.len();
    assert!(inject(&mut func, &specs).unwrap().is_empty());
    assert_eq!(func.inputs.len(), before);

    // Ungated fn: untouched.
    let mut plain = one_fn(r##"
        #[instruction]
        pub fn other(x: u64) -> SpelResult { todo!() }
    "##);
    assert!(inject(&mut plain, &specs).unwrap().is_empty());
}

#[test]
fn inject_matches_qualified_wrapper_by_last_segment() {
    // Auto-wrap prepends fully qualified attrs; the spec names only
    // the final segment.
    let specs = gate_specs();
    let mut func = func(r##"
        #[instruction]
        #[my_ext_macros::my_gate]
        pub fn update_value(new_value: u64) -> SpelResult { todo!() }
    "##);
    let injected = inject(&mut func, &specs).unwrap();
    assert_eq!(
        injected,
        vec!["gate_config".to_string(), "caller".to_string()]
    );
}

#[test]
fn inject_emits_compound_pda_attr() {
    let specs = vec![InjectSpec {
        wrapper: "other_gate".to_string(),
        source: "ext-b".into(),
        accounts: vec![InjectAccount {
            name: "marker_account".into(),
            role: "marker_account".into(),
            seeds: vec![
                InjectSeed::Const("marker".into()),
                InjectSeed::Account("caller".into()),
            ],
            signer: false,
            embedded: false,
        }],
        embedded_offset: None,
    }];
    let mut func = func(r##"
        #[instruction]
        #[other_gate]
        pub fn transfer(caller: AccountWithMetadata) -> SpelResult { todo!() }
    "##);
    assert_eq!(inject(&mut func, &specs).unwrap(), vec!["marker_account"]);

    let FnArg::Typed(pt) = &func.inputs[0] else {
        panic!("injected param must be typed");
    };
    let tokens = meaning(&pt.attrs[0]);
    assert!(
        tokens.contains(r#"literal ("marker")"#) && tokens.contains(r#"account ("caller")"#),
        "compound pda attr not emitted: {tokens}"
    );
}

#[test]
fn role_matched_params_skip_injection() {
    // Consumer declares both roles the spec would inject: a PDA
    // literal("gate_config") param and a signer. Injection detects
    // both via the role remap and skips them regardless of the
    // consumer's chosen names. ADR-0010 supersedes ADR-0009's
    // "args-form disables injection" — activation now runs for both
    // Path and List forms.
    let mut func = func(r##"
        #[instruction]
        #[my_gate(gate_config = my_cfg, caller = owner)]
        pub fn update_value(
            #[account(pda = literal("gate_config"))] my_cfg: AccountWithMetadata,
            #[account(signer)] owner: AccountWithMetadata,
            new_value: u64,
        ) -> SpelResult { todo!() }
    "##);
    assert!(inject(&mut func, &gate_specs()).unwrap().is_empty());
    assert_eq!(func.inputs.len(), 3);
}

#[test]
fn roles_are_matched_behind_other_assignments() {
    let mut func = func(r##"
        #[instruction]
        #[my_gate]
        pub fn update_value(
            #[account(owner = x, pda = literal("gate_config"))] my_cfg: AccountWithMetadata,
            #[account(owner = y, signer)] boss: AccountWithMetadata,
        ) -> SpelResult { todo!() }
    "##);
    assert!(inject(&mut func, &gate_specs()).unwrap().is_empty());
    assert_eq!(param_names(&func), ["my_cfg", "boss"]);
}

#[test]
fn role_matched_compound_pda_skips_injection() {
    // Compound-seed reuse: consumer names their signer `sender` and
    // declares a per-account PDA with the same shape as the spec's
    // compound seed, resolved through the signer remap. Phase-1
    // remap resolves `caller` -> `sender`; phase-2 sees the
    // consumer's `[literal("frozen"), account("sender")]` matches
    // the spec's `[literal("frozen"), account("caller")]` after
    // resolution, so `marker_account` remaps to `my_frozen` and no
    // injection happens.
    let specs = vec![InjectSpec {
        wrapper: "my_gate".to_string(),
        source: "ext-c".into(),
        accounts: vec![
            InjectAccount {
                name: "marker_account".into(),
                role: "marker_account".into(),
                seeds: vec![
                    InjectSeed::Const("frozen".into()),
                    InjectSeed::Account("caller".into()),
                ],
                signer: false,
                embedded: false,
            },
            InjectAccount {
                name: "caller".into(),
                role: "caller".into(),
                seeds: vec![],
                signer: true,
                embedded: false,
            },
        ],
        embedded_offset: None,
    }];
    let mut func = func(r##"
        #[instruction]
        #[my_gate]
        pub fn withdraw(
            #[account(pda = [literal("frozen"), account("sender")])] my_frozen: AccountWithMetadata,
            #[account(signer)] sender: AccountWithMetadata,
            amount: u64,
        ) -> SpelResult { todo!() }
    "##);
    assert!(inject(&mut func, &specs).unwrap().is_empty());
    assert_eq!(func.inputs.len(), 3);
}

#[test]
fn two_specs_append_in_order_with_running_cursor() {
    let mut specs = gate_specs();
    specs.push(InjectSpec {
        wrapper: "my_gate".to_string(),
        source: "ext-b".into(),
        accounts: vec![InjectAccount {
            name: "other_config".into(),
            role: "other_config".into(),
            seeds: vec![InjectSeed::Const("other_config".into())],
            signer: false,
            embedded: false,
        }],
        embedded_offset: None,
    });
    let mut func = func(r##"
        #[instruction]
        #[my_gate]
        pub fn update_value(new_value: u64) -> SpelResult { todo!() }
    "##);
    let injected = inject(&mut func, &specs).unwrap();
    assert_eq!(injected, vec!["gate_config", "caller", "other_config"]);
    let names: Vec<String> = param_names(&func);
    assert_eq!(
        names,
        vec!["gate_config", "caller", "other_config", "new_value"]
    );
}

#[test]
fn identical_shared_param_dedups_to_first_position() {
    let mut specs = gate_specs();
    specs.push(InjectSpec {
        wrapper: "my_gate".to_string(),
        source: "ext-b".into(),
        accounts: vec![InjectAccount {
            name: "caller".into(),
            role: "caller".into(),
            seeds: vec![],
            signer: true,
            embedded: false,
        }],
        embedded_offset: None,
    });
    let mut func = func(r##"
        #[instruction]
        #[my_gate]
        pub fn update_value(new_value: u64) -> SpelResult { todo!() }
    "##);
    let injected = inject(&mut func, &specs).unwrap();
    assert_eq!(injected, vec!["gate_config", "caller"]);
    assert_eq!(func.inputs.len(), 3);
}

#[test]
fn conflicting_shared_param_is_a_hard_error() {
    let mut specs = gate_specs();
    specs.push(InjectSpec {
        wrapper: "my_gate".to_string(),
        source: "ext-b".into(),
        accounts: vec![InjectAccount {
            name: "caller".into(),
            role: "caller".into(),
            seeds: vec![InjectSeed::Const("caller_pda".into())],
            signer: false,
            embedded: false,
        }],
        embedded_offset: None,
    });
    let mut func = func(r##"
        #[instruction]
        #[my_gate]
        pub fn update_value(new_value: u64) -> SpelResult { todo!() }
    "##);
    let err = inject(&mut func, &specs).expect_err("conflicting constraints must be rejected");
    assert!(
        err.contains("ext-a") && err.contains("ext-b"),
        "must name both extensions: {err}"
    );
    assert!(err.contains("caller"), "must name the param: {err}");
}

#[test]
fn embedded_role_substitutes_on_peer_extension_fns() {
    // One extension's embedded entry must retarget a PEER extension's
    // authored role param: substitution is global across extensions.
    // This is the admin-embedded cell of freeze's renounce.
    let specs = vec![InjectSpec {
        wrapper: "require_admin".to_string(),
        accounts: vec![InjectAccount {
            name: "prog_config".to_string(),
            role: "admin_config".to_string(),
            seeds: vec![InjectSeed::Const("prog_config".to_string())],
            signer: false,
            embedded: true,
        }],
        source: "admin_authority".to_string(),
        embedded_offset: None,
    }];
    let mut func = func(r##"
        pub fn freeze_authority_renounce(
            #[account(pda = literal("admin_config"))] admin_config: AccountWithMetadata,
            #[account(mut, pda = literal("freeze_config"))]
            mut freeze_config: AccountWithMetadata,
        ) -> SpelResult {
            todo!()
        }
    "##);
    apply_wrap_and_inject(
        &mut func,
        &Vec::new(),
        &specs,
        &Vec::new(),
        GateLocations::Emit,
        Some("freeze_authority::freeze_authority_renounce"),
    )
    .unwrap();
    let FnArg::Typed(pt) = &func.inputs[0] else {
        panic!("expected typed param");
    };
    assert_eq!(
        pt.name.as_deref(), Some("prog_config"), "peer fn's role param renamed");
    let expected: Attribute = attrs(r##"#[account(pda = literal("prog_config"))]"##).remove(0);
    assert_eq!(pt.attrs.first().map(meaning), Some(meaning(&expected)));
}

#[test]
fn same_account_same_offset_embeds_are_rejected() {
    let mut specs = vec![
        InjectSpec {
            wrapper: "gate_a".to_string(),
            accounts: vec![InjectAccount {
                name: "cfg_a".to_string(),
                role: "cfg_a".to_string(),
                seeds: vec![InjectSeed::Const("cfg_a".to_string())],
                signer: false,
                embedded: false,
            }],
            source: "ext_a".to_string(),
        embedded_offset: None,
    },
        InjectSpec {
            wrapper: "gate_b".to_string(),
            accounts: vec![InjectAccount {
                name: "cfg_b".to_string(),
                role: "cfg_b".to_string(),
                seeds: vec![InjectSeed::Const("cfg_b".to_string())],
                signer: false,
                embedded: false,
            }],
            source: "ext_b".to_string(),
        embedded_offset: None,
    },
    ];
    let consumer = vec![func(r##"
        pub fn initialize(
            #[account(init, pda = literal("shared"))] mut shared: AccountWithMetadata,
        ) -> SpelResult {
            todo!()
        }
    "##)];
    let embeds = |off_b: usize| {
        vec![
            Embed {
                source: "ext_a".to_string(),
                carrier: None,
                state_type: "ext_a::CfgA".to_string(),
                decl: EmbedDecl {
                    role: "cfg_a".to_string(),
                    account: "shared".to_string(),
                    offset: OffsetSpec::Literal(32),
                    initializer: None,
                },
            },
            Embed {
                source: "ext_b".to_string(),
                carrier: None,
                state_type: "ext_b::CfgB".to_string(),
                decl: EmbedDecl {
                    role: "cfg_b".to_string(),
                    account: "shared".to_string(),
                    offset: OffsetSpec::Literal(off_b),
                    initializer: None,
                },
            },
        ]
    };
    let err = rewrite_embedded_roles(&mut specs, &embeds(32), &consumer)
        .expect_err("equal offsets on one account must be rejected");
    assert!(err.contains("both embed into"), "unexpected error: {err}");

    // Distinct offsets on the same account are the goal layout.
    rewrite_embedded_roles(&mut specs, &embeds(64), &consumer)
        .expect("distinct offsets must pass");
}
