//! Offset constants, layout tests and asserts for embedded slots.
use spel_framework_core::extension::{find_slot_carrier, BoundValue, EmbedDecl, OffsetSpec};
use spel_framework_core::slot_offsets::{
    agreement_assert, bound_value_tokens, embed_window_collision_asserts, offset_tokens,
};
use spel_framework_core::source::parse_source;
use spel_framework_core::syntax::Item;

fn items(src: &str) -> Vec<Item> {
    parse_source(src).expect("fixture parses")
}

fn embed(role: &str, account: &str, offset: OffsetSpec) -> (String, EmbedDecl) {
    (
        role.to_string(),
        EmbedDecl {
            role: role.to_string(),
            account: account.to_string(),
            offset,
            initializer: None,
        },
    )
}

#[test]
fn slot_offsets_binds_the_roles_slot_attr() {
    let its = items("#[account_type]\npub struct Cfg { pub v: u64, #[admin_slot] pub a: u8 }");
    let c = find_slot_carrier(&its, "admin_config")
        .expect("unambiguous")
        .expect("binds");
    assert_eq!(c.struct_name, "Cfg");
    assert_eq!(c.const_name, "ADMIN_SLOT_OFFSET");
}

#[test]
fn slot_offsets_role_without_config_suffix_uses_the_full_role() {
    let its = items("pub struct S { #[vault_slot] pub s: u8 }");
    let c = find_slot_carrier(&its, "vault").unwrap().expect("binds");
    assert_eq!(c.attr_name, "vault_slot");
}

#[test]
fn no_carrier_emits_nothing() {
    let its = items("pub struct S { pub v: u64 }");
    assert!(find_slot_carrier(&its, "admin_config").unwrap().is_none());
}

#[test]
fn slot_offsets_two_carriers_is_an_error_naming_both() {
    let its = items(
        "pub struct Alpha { #[admin_slot] pub a: u8 }\npub struct Beta { #[admin_slot] pub b: u8 }",
    );
    let Err(msg) = find_slot_carrier(&its, "admin_config") else {
        panic!("expected the two-carrier ambiguity error");
    };
    assert!(
        msg.contains("Alpha") && msg.contains("Beta"),
        "message: {msg}"
    );
}

#[test]
fn agreement_assert_names_both_sides() {
    let its = items("pub struct Cfg { #[admin_slot] pub a: u8 }");
    let c = find_slot_carrier(&its, "admin_config").unwrap().unwrap();
    let ts = agreement_assert(&c, 32);
    assert!(
        ts.contains("ADMIN_SLOT_OFFSET") && ts.contains("32"),
        "{ts}"
    );
}

fn state_types(pairs: &[(&str, &str)]) -> Vec<(String, String)> {
    pairs
        .iter()
        .map(|(k, v)| (k.to_string(), v.to_string()))
        .collect()
}

// A shared account's embed pair becomes one assert: each window's
// length through its declared state type, offsets as literals.
#[test]
fn shared_account_pair_emits_a_range_assert() {
    let embeds = vec![
        embed("admin", "cfg", OffsetSpec::Literal(32)),
        embed("freeze", "cfg", OffsetSpec::Literal(40)),
    ];
    let types = state_types(&[
        ("admin", "admin_authority::AdminConfig"),
        ("freeze", "freeze_authority::FreezeConfig"),
    ]);
    let ts = embed_window_collision_asserts(&embeds, &types)
        .expect("emits");
    assert!(
        ts.contains("AdminConfig") && ts.contains("FreezeConfig"),
        "{ts}"
    );
    assert!(ts.contains("FixedBorshSize"), "{ts}");
    assert!(ts.contains("overlap in account `cfg`"), "{ts}");
}

// Separate accounts have nothing to collide.
#[test]
fn separate_accounts_emit_no_collision_assert() {
    let embeds = vec![
        embed("admin", "cfg_a", OffsetSpec::Literal(32)),
        embed("freeze", "cfg_b", OffsetSpec::Literal(32)),
    ];
    let types = state_types(&[("admin", "A"), ("freeze", "B")]);
    let ts = embed_window_collision_asserts(&embeds, &types).expect("ok");
    assert!(ts.is_empty(), "{ts}");
}

// A missing state type here is a framework bug, discovery fails
// closed before emission. The error still names the source.
#[test]
fn missing_state_type_is_an_error_naming_the_source() {
    let embeds = vec![
        embed("admin", "cfg", OffsetSpec::Literal(32)),
        embed("freeze", "cfg", OffsetSpec::Literal(64)),
    ];
    let types = state_types(&[("admin", "A")]);
    let e = embed_window_collision_asserts(&embeds, &types).expect_err("must fail");
    assert!(e.to_string().contains("freeze"), "{e}");
}

// A malformed declared path fails naming the offending string.
#[test]
fn invalid_state_type_path_is_an_error() {
    let embeds = vec![
        embed("admin", "cfg", OffsetSpec::Literal(32)),
        embed("freeze", "cfg", OffsetSpec::Literal(64)),
    ];
    let types = state_types(&[("admin", "not a path!!"), ("freeze", "B")]);
    let e = embed_window_collision_asserts(&embeds, &types).expect_err("must fail");
    assert!(e.to_string().contains("not a path!!"), "{e}");
}

// Two resolved derivations in one account land in the same range
// assert as const paths: neither side is a number until rustc
// evaluates it, so the check discovery could not make lands in the
// consumer's crate.
#[test]
fn derived_pair_collides_through_the_const_paths() {
    let embeds = vec![
        embed(
            "admin_config",
            "config",
            OffsetSpec::Path("Cfg::ADMIN_SLOT_OFFSET".into()),
        ),
        embed(
            "freeze_config",
            "config",
            OffsetSpec::Path("Cfg::FREEZE_SLOT_OFFSET".into()),
        ),
    ];
    let types = state_types(&[("admin_config", "A"), ("freeze_config", "B")]);
    let ts = embed_window_collision_asserts(&embeds, &types)
        .expect("both sides resolve");
    assert!(
        ts.contains("ADMIN_SLOT_OFFSET") && ts.contains("FREEZE_SLOT_OFFSET"),
        "{ts}"
    );
    assert!(ts.contains("FixedBorshSize"), "{ts}");
}

// An unresolved derivation reaching emission is a framework bug, so
// it fails loudly naming the pass that should have run.
#[test]
fn unresolved_derived_offset_names_the_missing_pass() {
    let (_, e) = embed("admin_config", "config", OffsetSpec::Derived);
    let Err(err) = offset_tokens(&e) else {
        panic!("expected the unresolved-derived error");
    };
    assert!(
        err.to_string().contains("resolve_derived_offsets"),
        "message: {err}"
    );
}

// The dispatcher lowering renders each resolved shape and refuses
// the unresolved one.
#[test]
fn bound_literal_renders_the_number() {
    assert_eq!(
        bound_value_tokens(&BoundValue::Literal(32)).unwrap(),
        "32"
    );
}

#[test]
fn bound_path_renders_the_const_path() {
    let ts = bound_value_tokens(&BoundValue::Path("Cfg::ADMIN_SLOT_OFFSET".into())).unwrap();
    assert_eq!(ts, "Cfg :: ADMIN_SLOT_OFFSET");
}

#[test]
#[should_panic(expected = "resolve_derived_offsets")]
fn bound_derived_panics_naming_the_missing_pass() {
    bound_value_tokens(&BoundValue::Derived {
        role: "admin_config".into(),
    })
    .unwrap_or_else(|m| panic!("{m}"));
}
