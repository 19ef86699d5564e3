//! Module markers and embed anchors.
use spel_framework_core::extension::marker::infer_anchor_embed;
use spel_framework_core::extension::{
    candidate_marker_names, has_extension_marker_candidates, parse_marker_args, EmbedDecl,
    MarkerArgs, OffsetSpec,
};
use spel_framework_core::source::parse_source;
use spel_framework_core::syntax::{Attribute, Item};

/// The attributes of a module.
fn attrs(src: &str) -> Vec<Attribute> {
    match parse_source(&format!("{src} mod m {{}}")).expect("attributes parse").remove(0) {
        Item::Mod(m) => m.attrs,
        other => panic!("expected a module, got {other:?}"),
    }
}

// Parse the first attribute off a module written as tokens.
fn marker(tokens: &str) -> Attribute {
    attrs(tokens).remove(0)
}

fn parsed(tokens: &str) -> MarkerArgs {
    parse_marker_args(&marker(tokens), "my_gate")
        .unwrap()
        .unwrap()
}

fn parse_err(tokens: &str) -> String {
    parse_marker_args(&marker(tokens), "my_gate").unwrap_err()
}

#[test]
fn marker_args_other_attr_is_none() {
    let attr = marker("#[something_else]");
    assert_eq!(parse_marker_args(&attr, "my_gate").unwrap(), None);
}

#[test]
fn marker_args_bare_is_default() {
    assert_eq!(parsed("#[my_gate]"), MarkerArgs { word: None, embed: None });
}

#[test]
fn marker_args_mode_word() {
    let args = parsed("#[my_gate(manual)]");
    assert_eq!(args.word.as_deref(), Some("manual"));
    assert_eq!(args.embed, None);
}

#[test]
fn marker_args_embed_pair() {
    let args = parsed("#[my_gate(gate_config = prog_config, offset = 32)]");
    assert_eq!(args.word, None);
    assert_eq!(
        args.embed,
        Some(EmbedDecl {
            role: "gate_config".to_string(),
            account: "prog_config".to_string(),
            offset: OffsetSpec::Literal(32),
            initializer: None,
        })
    );
}

#[test]
fn marker_args_word_and_embed_coexist() {
    let args = parsed("#[my_gate(manual, gate_config = cfg, offset = 8)]");
    assert_eq!(args.word.as_deref(), Some("manual"));
    assert_eq!(
        args.embed,
        Some(EmbedDecl {
            role: "gate_config".to_string(),
            account: "cfg".to_string(),
            offset: OffsetSpec::Literal(8),
            initializer: None,
        })
    );
}

#[test]
fn marker_args_kwarg_order_does_not_matter() {
    assert_eq!(
        parsed("#[my_gate(offset = 32, gate_config = prog_config)]"),
        parsed("#[my_gate(gate_config = prog_config, offset = 32)]"),
    );
}

#[test]
fn marker_args_role_without_offset_derives() {
    let args = parsed("#[my_gate(gate_config = prog_config)]");
    assert_eq!(
        args.embed,
        Some(EmbedDecl {
            role: "gate_config".into(),
            account: "prog_config".into(),
            offset: OffsetSpec::Derived,
            initializer: None,
        })
    );
}

#[test]
fn marker_args_offset_without_role_is_error() {
    let err = parse_err("#[my_gate(offset = 32)]");
    assert!(err.contains("requires a `<role>"), "got: {err}");
}

#[test]
fn marker_args_two_roles_is_error() {
    let err = parse_err("#[my_gate(gate_config = a, other_config = b, offset = 4)]");
    assert!(err.contains("more than one embedded role"), "got: {err}");
}

#[test]
fn marker_args_two_offsets_is_error() {
    let err = parse_err("#[my_gate(gate_config = a, offset = 4, offset = 8)]");
    assert!(err.contains("more than one `offset`"), "got: {err}");
}

#[test]
fn marker_args_two_mode_words_is_error() {
    let err = parse_err("#[my_gate(manual, strict)]");
    assert!(err.contains("more than one bare mode word"), "got: {err}");
}

#[test]
fn marker_args_non_ident_account_is_error() {
    let err = parse_err(r#"#[my_gate(gate_config = "prog_config", offset = 4)]"#);
    assert!(
        err.contains("must name a consumer account param"),
        "got: {err}"
    );
}

#[test]
fn marker_args_non_int_offset_is_error() {
    let err = parse_err("#[my_gate(gate_config = a, offset = away)]");
    assert!(err.contains("must be an integer literal"), "got: {err}");
}

#[test]
fn marker_args_list_argument_is_error() {
    let err = parse_err("#[my_gate(nested(thing))]");
    assert!(err.contains("unexpected `nested(...)`"), "got: {err}");
}

#[test]
fn marker_candidates_false_for_builtin_attrs_only() {
    let m = attrs(r##"#[doc = "hi"] #[cfg(test)] #[allow(dead_code)]"##);
    assert!(!has_extension_marker_candidates(&m));
    assert!(!has_extension_marker_candidates(&Vec::new()));
}

#[test]
fn marker_candidates_true_for_unknown_and_qualified_attrs() {
    let m = attrs(r##"#[my_ext]"##);
    assert!(has_extension_marker_candidates(&m));

    let q = attrs(r##"#[some::qualified]"##);
    assert!(has_extension_marker_candidates(&q));
}

#[test]
fn candidate_names_keep_markers_and_drop_standard_attrs() {
    let m = attrs(r##"#[lez_program] #[doc = "x"] #[allow(dead_code)] #[my_ext] #[freeze_authority(manual)]"##);
    assert_eq!(
        candidate_marker_names(&m),
        vec!["my_ext".to_string(), "freeze_authority".to_string()]
    );
}

fn mod_fns(src: &str) -> Vec<Item> {
    parse_source(src).expect("fixture parses")
}

#[test]
fn anchor_with_single_init_infers_the_account() {
    let items = mod_fns(
        "#[ext_init]\npub fn initialize(#[account(init, pda = literal(\"cfg\"))] cfg: A, #[account(signer)] s: A) -> R { todo!() }",
    );
    let embed = infer_anchor_embed(&items, "ext_init", "ext_config", "my-ext")
        .unwrap()
        .expect("one init param infers");
    assert_eq!(embed.role, "ext_config");
    assert_eq!(embed.account, "cfg");
    assert_eq!(embed.offset, OffsetSpec::Derived);
}

#[test]
fn anchor_kwarg_picks_among_several_inits() {
    let items = mod_fns(
        "#[ext_init(ext_config = vault)]\npub fn initialize(#[account(init)] cfg: A, #[account(init)] vault: A) -> R { todo!() }",
    );
    let embed = infer_anchor_embed(&items, "ext_init", "ext_config", "my-ext")
        .unwrap()
        .expect("the kwarg picks");
    assert_eq!(embed.account, "vault");
}

#[test]
fn anchor_kwarg_naming_non_init_param_refuses() {
    let items = mod_fns(
        "#[ext_init(ext_config = s)]\npub fn initialize(#[account(init)] cfg: A, #[account(signer)] s: A) -> R { todo!() }",
    );
    let err = infer_anchor_embed(&items, "ext_init", "ext_config", "my-ext")
        .expect_err("a non-init kwarg target must refuse");
    assert!(err.contains("names no #[account(init)]"), "{err}");
}

#[test]
fn several_inits_without_kwarg_refuse_listing_candidates() {
    let items = mod_fns(
        "#[ext_init]\npub fn initialize(#[account(init)] cfg: A, #[account(init)] vault: A) -> R { todo!() }",
    );
    let err = infer_anchor_embed(&items, "ext_init", "ext_config", "my-ext")
        .expect_err("ambiguity must refuse");
    assert!(err.contains("cfg") && err.contains("vault"), "{err}");
    assert!(
        err.contains("ext_config = "),
        "must show the kwarg form: {err}"
    );
}

#[test]
fn anchor_without_init_param_refuses() {
    let items =
        mod_fns("#[ext_init]\npub fn initialize(#[account(signer)] s: A) -> R { todo!() }");
    let err = infer_anchor_embed(&items, "ext_init", "ext_config", "my-ext")
        .expect_err("an anchor that creates nothing must refuse");
    assert!(err.contains("no #[account(init)] param"), "{err}");
}

#[test]
fn two_anchor_fns_refuse_naming_both() {
    let items = mod_fns(
        "#[ext_init]\npub fn a(#[account(init)] cfg: A) -> R { todo!() }\n#[ext_init]\npub fn b(#[account(init)] cfg: A) -> R { todo!() }",
    );
    let err = infer_anchor_embed(&items, "ext_init", "ext_config", "my-ext")
        .expect_err("two anchors must refuse");
    assert!(err.contains('a') && err.contains('b'), "{err}");
}

#[test]
fn no_anchor_fn_is_dedicated() {
    let items = mod_fns("pub fn plain(#[account(init)] cfg: A) -> R { todo!() }");
    let embed = infer_anchor_embed(&items, "ext_init", "ext_config", "my-ext").unwrap();
    assert!(embed.is_none(), "no anchor means dedicated mode");
}

// #[initialize] counts as the anchor of every anchored extension,
// and the recorded initializer is the extension's real attr, so
// downstream errors and the coverage gate speak real names.
#[test]
fn initialize_shorthand_anchors_the_embed() {
    let items = mod_fns(
        "#[initialize]\npub fn initialize(#[account(init, pda = literal(\"cfg\"))] cfg: A, #[account(signer)] s: A) -> R { todo!() }",
    );
    let embed = infer_anchor_embed(&items, "ext_init", "ext_config", "my-ext")
        .unwrap()
        .expect("the shorthand anchors");
    assert_eq!(embed.account, "cfg");
    assert_eq!(embed.initializer.as_deref(), Some("ext_init"));
}

#[test]
fn shorthand_beside_the_explicit_anchor_refuses() {
    let items = mod_fns(
        "#[ext_init]\n#[initialize]\npub fn initialize(#[account(init)] cfg: A) -> R { todo!() }",
    );
    let err = infer_anchor_embed(&items, "ext_init", "ext_config", "my-ext")
        .expect_err("one spelling per fn");
    assert!(err.contains("both"), "{err}");
}

#[test]
fn shorthand_with_arguments_refuses() {
    let items = mod_fns(
        "#[initialize(ext_config = cfg)]\npub fn initialize(#[account(init)] cfg: A) -> R { todo!() }",
    );
    let err = infer_anchor_embed(&items, "ext_init", "ext_config", "my-ext")
        .expect_err("the shorthand takes no arguments");
    assert!(
        err.contains("#[ext_init(ext_config = <param>)]"),
        "the fix is the explicit form: {err}"
    );
}

// Several init params under the shorthand fall into the existing
// ambiguity error, whose fix is the explicit anchor kwarg.
#[test]
fn shorthand_with_several_inits_names_the_explicit_form() {
    let items = mod_fns(
        "#[initialize]\npub fn initialize(#[account(init)] cfg: A, #[account(init)] vault: A) -> R { todo!() }",
    );
    let err = infer_anchor_embed(&items, "ext_init", "ext_config", "my-ext")
        .expect_err("ambiguity must refuse");
    assert!(
        err.contains("ext_config = "),
        "must show the explicit kwarg form: {err}"
    );
}
