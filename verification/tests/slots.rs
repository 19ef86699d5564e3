//! Slot carriers and derived offsets.
use spel_framework_core::extension::{
    find_slot_carrier, resolve_derived_offsets, BoundValue, Embed, EmbedDecl, ExtensionDiscoveries,
    OffsetSpec,
};
use spel_framework_core::source::parse_source;
use spel_framework_core::syntax::Item;

fn items(src: &str) -> Vec<Item> {
    parse_source(src).expect("fixture parses")
}

fn discoveries(offset: OffsetSpec, bound: BoundValue) -> ExtensionDiscoveries {
    let mut ext = ExtensionDiscoveries {
        instructions: Vec::new(),
        inject_specs: Vec::new(),
        wraps: Vec::new(),
        embeds: Vec::new(),
        bound_calls: Vec::new(),
        matched_markers: Vec::new(),
    };
    ext.embeds.push(Embed {
        source: "my-ext".into(),
        carrier: None,
        state_type: "my_ext::Cfg".into(),
        decl: EmbedDecl {
            role: "gate_config".into(),
            account: "cfg".into(),
            offset,
            initializer: None,
        },
    });
    ext.bound_calls.push(("action".into(), vec![bound]));
    ext
}

#[test]
fn slots_binds_the_roles_slot_attr() {
    let its = items("#[account_type]\npub struct Cfg { pub v: u64, #[admin_slot] pub a: u8 }");
    let c = find_slot_carrier(&its, "admin_config")
        .expect("unambiguous")
        .expect("binds");
    assert_eq!(c.struct_name, "Cfg");
    assert_eq!(c.const_name, "ADMIN_SLOT_OFFSET");
}

#[test]
fn slots_role_without_config_suffix_uses_the_full_role() {
    let its = items("pub struct S { #[vault_slot] pub s: u8 }");
    let c = find_slot_carrier(&its, "vault").unwrap().expect("binds");
    assert_eq!(c.attr_name, "vault_slot");
}

#[test]
fn no_carrier_binds_nothing() {
    let its = items("pub struct S { pub v: u64 }");
    assert!(find_slot_carrier(&its, "admin_config").unwrap().is_none());
}

#[test]
fn slots_two_carriers_is_an_error_naming_both() {
    let its = items(
        "pub struct Alpha { #[admin_slot] pub a: u8 }\npub struct Beta { #[admin_slot] pub b: u8 }",
    );
    let Err(msg) = find_slot_carrier(&its, "admin_config") else {
        panic!("expected the two-carrier ambiguity error");
    };
    assert!(
        msg.contains("Alpha") && msg.contains("Beta"),
        "message: {msg}"
    );
}

// The pass lowers both carriers of a derivation: the embed's offset
// and the bound value, each to the same carrier const path.
#[test]
fn resolution_lowers_derived_to_the_carrier_path() {
    let its = items("pub struct Cfg { #[gate_slot] pub s: u8 }");
    let mut ext = discoveries(
        OffsetSpec::Derived,
        BoundValue::Derived {
            role: "gate_config".into(),
        },
    );
    resolve_derived_offsets(&mut ext, &its).expect("resolves");
    assert_eq!(
        ext.embeds[0].decl.offset,
        OffsetSpec::Path("Cfg::GATE_SLOT_OFFSET".into())
    );
    assert_eq!(
        ext.bound_calls[0].1[0],
        BoundValue::Path("Cfg::GATE_SLOT_OFFSET".into())
    );
}

// Explicit offsets pass through untouched: the pass owns
// derivations and nothing else.
#[test]
fn resolution_leaves_literals_alone() {
    let its = items("pub struct Cfg { #[gate_slot] pub s: u8 }");
    let mut ext = discoveries(OffsetSpec::Literal(32), BoundValue::Literal(32));
    resolve_derived_offsets(&mut ext, &its).expect("resolves");
    assert_eq!(ext.embeds[0].decl.offset, OffsetSpec::Literal(32));
    assert_eq!(ext.bound_calls[0].1[0], BoundValue::Literal(32));
}

// An anchored extension cannot fall back to an offset kwarg, so its
// missing-carrier error offers the two fixes that exist: mark the
// field, or drop the anchor for dedicated mode.
#[test]
fn anchored_missing_carrier_names_the_anchor() {
    let its = items("pub struct Cfg { pub s: u8 }");
    let mut ext = discoveries(OffsetSpec::Derived, BoundValue::Literal(0));
    ext.embeds[0].decl.initializer = Some("gate_initialize".into());
    let Err(msg) = resolve_derived_offsets(&mut ext, &its) else {
        panic!("expected the missing-carrier error");
    };
    assert!(
        msg.contains("#[gate_initialize]") && msg.contains("dedicated mode"),
        "message: {msg}"
    );
    assert!(
        !msg.contains("offset = <bytes>"),
        "an anchored extension has no offset kwarg to suggest: {msg}"
    );
}

// A derivation with no carrier struct is a consumer mistake and the
// error says what to do about it.
#[test]
fn missing_carrier_names_the_fix() {
    let its = items("pub struct Cfg { pub s: u8 }");
    let mut ext = discoveries(OffsetSpec::Derived, BoundValue::Literal(0));
    let Err(msg) = resolve_derived_offsets(&mut ext, &its) else {
        panic!("expected the missing-carrier error");
    };
    assert!(
        msg.contains("#[gate_slot]") && msg.contains("mark the embedded field"),
        "message: {msg}"
    );
}
