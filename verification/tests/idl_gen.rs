//! IDL generation from source text.
use spel_framework_core::idl::{IdlSeed, IdlType, SpelIdl};
use spel_framework_core::idl_gen::{generate_idl_from_str, IdlGenError};

fn ok(src: &str) -> SpelIdl {
    generate_idl_from_str(src, "<test>").expect("IDL generation failed")
}

fn err(src: &str) -> IdlGenError {
    generate_idl_from_str(src, "<test>").expect_err("expected an error")
}

// ── Error cases ──────────────────────────────────────────────────────────

#[test]
fn error_no_lez_program_module() {
    let src = r#"
        pub fn some_function() {}
    "#;
    assert!(matches!(err(src), IdlGenError::NoProgram(_)));
}

#[test]
fn error_no_instruction_functions() {
    let src = r#"
        #[lez_program]
        pub mod my_program {
            pub fn helper() {}
        }
    "#;
    assert!(matches!(err(src), IdlGenError::NoInstructions(_)));
}

#[test]
fn error_invalid_rust_syntax() {
    let src = "this is not valid rust @@@";
    assert!(matches!(err(src), IdlGenError::Parse(_)));
}

// ── Basic parsing ─────────────────────────────────────────────────────────

#[test]
fn minimal_program_name_and_version() {
    let src = r#"
        #[lez_program]
        pub mod my_token {
            #[instruction]
            pub fn transfer(sender: AccountWithMetadata, recipient: AccountWithMetadata) {}
        }
    "#;
    let idl = ok(src);
    assert_eq!(idl.name, "my_token");
    assert_eq!(idl.version, "0.1.0");
    assert!(idl.instruction_type.is_none());
}

#[test]
fn external_instruction_type_attribute() {
    let src = r#"
        #[lez_program(instruction = "my_core::Instruction")]
        pub mod my_program {
            #[instruction]
            pub fn do_thing(account: AccountWithMetadata) {}
        }
    "#;
    let idl = ok(src);
    assert_eq!(
        idl.instruction_type.as_deref(),
        Some("my_core::Instruction")
    );
}

// ── Account constraints ───────────────────────────────────────────────────

#[test]
fn account_no_constraints() {
    let src = r#"
        #[lez_program]
        pub mod prog {
            #[instruction]
            pub fn ix(acc: AccountWithMetadata) {}
        }
    "#;
    let idl = ok(src);
    let acc = &idl.instructions[0].accounts[0];
    assert_eq!(acc.name, "acc");
    assert!(!acc.writable);
    assert!(!acc.signer);
    assert!(!acc.init);
    assert!(acc.pda.is_none());
    assert!(!acc.rest);
}

#[test]
fn account_mut_constraint() {
    let src = r#"
        #[lez_program]
        pub mod prog {
            #[instruction]
            pub fn ix(#[account(mut)] acc: AccountWithMetadata) {}
        }
    "#;
    let acc = &ok(src).instructions[0].accounts[0];
    assert!(acc.writable);
    assert!(!acc.signer);
    assert!(!acc.init);
}

#[test]
fn account_signer_constraint() {
    let src = r#"
        #[lez_program]
        pub mod prog {
            #[instruction]
            pub fn ix(#[account(signer)] acc: AccountWithMetadata) {}
        }
    "#;
    let acc = &ok(src).instructions[0].accounts[0];
    assert!(acc.signer);
    assert!(!acc.writable);
}

#[test]
fn account_init_implies_mut() {
    let src = r#"
        #[lez_program]
        pub mod prog {
            #[instruction]
            pub fn ix(#[account(init)] acc: AccountWithMetadata) {}
        }
    "#;
    let acc = &ok(src).instructions[0].accounts[0];
    assert!(acc.init);
    assert!(acc.writable, "init must imply writable");
}

#[test]
fn account_multiple_constraints() {
    let src = r#"
        #[lez_program]
        pub mod prog {
            #[instruction]
            pub fn ix(#[account(mut, signer)] acc: AccountWithMetadata) {}
        }
    "#;
    let acc = &ok(src).instructions[0].accounts[0];
    assert!(acc.writable);
    assert!(acc.signer);
}

// ── PDA seeds ─────────────────────────────────────────────────────────────

#[test]
fn account_pda_const_seed() {
    let src = r#"
        #[lez_program]
        pub mod prog {
            #[instruction]
            pub fn ix(#[account(pda = seed_const("pool"))] acc: AccountWithMetadata) {}
        }
    "#;
    let acc = &ok(src).instructions[0].accounts[0];
    let pda = acc.pda.as_ref().expect("pda should be present");
    assert_eq!(pda.seeds.len(), 1);
    assert!(matches!(&pda.seeds[0], IdlSeed::Const { value } if value == "pool"));
}

#[test]
fn account_pda_account_seed() {
    let src = r#"
        #[lez_program]
        pub mod prog {
            #[instruction]
            pub fn ix(#[account(pda = account("owner.id"))] acc: AccountWithMetadata) {}
        }
    "#;
    let idl = ok(src);
    let pda = idl.instructions[0].accounts[0].pda.as_ref().unwrap();
    assert!(matches!(&pda.seeds[0], IdlSeed::Account { path } if path == "owner.id"));
}

#[test]
fn account_pda_arg_seed() {
    let src = r#"
        #[lez_program]
        pub mod prog {
            #[instruction]
            pub fn ix(#[account(pda = arg("pool_id"))] acc: AccountWithMetadata) {}
        }
    "#;
    let idl = ok(src);
    let pda = idl.instructions[0].accounts[0].pda.as_ref().unwrap();
    assert!(matches!(&pda.seeds[0], IdlSeed::Arg { path } if path == "pool_id"));
}

#[test]
fn account_pda_multiple_seeds() {
    let src = r#"
        #[lez_program]
        pub mod prog {
            #[instruction]
            pub fn ix(
                #[account(pda = [seed_const("amm"), account("base.id"), arg("quote_id")])]
                acc: AccountWithMetadata,
            ) {}
        }
    "#;
    let idl = ok(src);
    let pda = idl.instructions[0].accounts[0].pda.as_ref().unwrap();
    assert_eq!(pda.seeds.len(), 3);
    assert!(matches!(&pda.seeds[0], IdlSeed::Const { value } if value == "amm"));
    assert!(matches!(&pda.seeds[1], IdlSeed::Account { path } if path == "base.id"));
    assert!(matches!(&pda.seeds[2], IdlSeed::Arg { path } if path == "quote_id"));
}

// ── Rest accounts (Vec<AccountWithMetadata>) ──────────────────────────────

#[test]
fn vec_account_sets_rest_flag() {
    let src = r#"
        #[lez_program]
        pub mod prog {
            #[instruction]
            pub fn ix(single: AccountWithMetadata, rest: Vec<AccountWithMetadata>) {}
        }
    "#;
    let accounts = &ok(src).instructions[0].accounts;
    assert_eq!(accounts.len(), 2);
    assert!(!accounts[0].rest, "single account should not be rest");
    assert!(accounts[1].rest, "Vec<AccountWithMetadata> should be rest");
}

// ── Instruction args ──────────────────────────────────────────────────────

#[test]
fn primitive_arg_types() {
    let src = r#"
        #[lez_program]
        pub mod prog {
            #[instruction]
            pub fn ix(
                acc: AccountWithMetadata,
                a: u64,
                b: u32,
                c: bool,
                d: String,
            ) {}
        }
    "#;
    let args = &ok(src).instructions[0].args;
    assert_eq!(args.len(), 4);
    assert!(matches!(&args[0].type_, IdlType::Primitive(s) if s == "u64"));
    assert!(matches!(&args[1].type_, IdlType::Primitive(s) if s == "u32"));
    assert!(matches!(&args[2].type_, IdlType::Primitive(s) if s == "bool"));
    assert!(matches!(&args[3].type_, IdlType::Primitive(s) if s == "string"));
}

#[test]
fn vec_arg_type() {
    let src = r#"
        #[lez_program]
        pub mod prog {
            #[instruction]
            pub fn ix(acc: AccountWithMetadata, ids: Vec<u64>) {}
        }
    "#;
    let args = &ok(src).instructions[0].args;
    assert_eq!(args.len(), 1);
    assert!(
        matches!(&args[0].type_, IdlType::Vec { vec } if matches!(vec.as_ref(), IdlType::Primitive(s) if s == "u64"))
    );
}

#[test]
fn option_arg_type() {
    let src = r#"
        #[lez_program]
        pub mod prog {
            #[instruction]
            pub fn ix(acc: AccountWithMetadata, maybe: Option<u32>) {}
        }
    "#;
    let args = &ok(src).instructions[0].args;
    assert!(
        matches!(&args[0].type_, IdlType::Option { option } if matches!(option.as_ref(), IdlType::Primitive(s) if s == "u32"))
    );
}

#[test]
fn array_arg_type() {
    let src = r#"
        #[lez_program]
        pub mod prog {
            #[instruction]
            pub fn ix(acc: AccountWithMetadata, data: [u8; 32]) {}
        }
    "#;
    let args = &ok(src).instructions[0].args;
    assert!(
        matches!(&args[0].type_, IdlType::Array { array: (elem, size) }
            if matches!(elem.as_ref(), IdlType::Primitive(s) if s == "u8") && *size == 32)
    );
}

#[test]
fn defined_arg_type() {
    let src = r#"
        #[lez_program]
        pub mod prog {
            #[instruction]
            pub fn ix(acc: AccountWithMetadata, config: MyConfig) {}
        }
    "#;
    let args = &ok(src).instructions[0].args;
    assert!(matches!(&args[0].type_, IdlType::Defined { defined } if defined == "MyConfig"));
}

#[test]
fn program_id_arg_type() {
    let src = r#"
        #[lez_program]
        pub mod prog {
            #[instruction]
            pub fn ix(acc: AccountWithMetadata, prog: ProgramId) {}
        }
    "#;
    let args = &ok(src).instructions[0].args;
    assert!(matches!(&args[0].type_, IdlType::Primitive(s) if s == "program_id"));
}

#[test]
fn account_id_arg_type() {
    let src = r#"
        #[lez_program]
        pub mod prog {
            #[instruction]
            pub fn ix(acc: AccountWithMetadata, id: AccountId) {}
        }
    "#;
    let args = &ok(src).instructions[0].args;
    assert!(matches!(&args[0].type_, IdlType::Primitive(s) if s == "account_id"));
}

#[test]
fn program_context_excluded_from_idl() {
    let src = r#"
        #[lez_program]
        pub mod prog {
            #[instruction]
            pub fn ix(ctx: ProgramContext, acc: AccountWithMetadata, amount: u64) {}
        }
    "#;
    let idl = ok(src);
    let ix = &idl.instructions[0];
    assert_eq!(ix.accounts.len(), 1, "should have one account");
    assert_eq!(ix.args.len(), 1, "should have one arg");
    assert_eq!(ix.args[0].name, "amount");
}

// ── Multiple instructions ─────────────────────────────────────────────────

#[test]
fn multiple_instructions_order_preserved() {
    let src = r#"
        #[lez_program]
        pub mod prog {
            #[instruction]
            pub fn alpha(acc: AccountWithMetadata) {}

            pub fn not_an_instruction(acc: AccountWithMetadata) {}

            #[instruction]
            pub fn beta(acc: AccountWithMetadata, amount: u64) {}
        }
    "#;
    let idl = ok(src);
    assert_eq!(idl.instructions.len(), 2);
    assert_eq!(idl.instructions[0].name, "alpha");
    assert_eq!(idl.instructions[1].name, "beta");
    // non-annotated function is excluded
    assert!(!idl
        .instructions
        .iter()
        .any(|i| i.name == "not_an_instruction"));
}

// ── #[account_type] — basic discovery ─────────────────────────────────────

#[test]
fn account_type_struct_included_in_accounts() {
    let src = r#"
        #[account_type]
        pub struct VaultState {
            pub owner: AccountId,
            pub balance: u64,
        }

        #[lez_program]
        pub mod prog {
            #[instruction]
            pub fn init(acc: AccountWithMetadata) {}
        }
    "#;
    let idl = ok(src);
    assert_eq!(idl.accounts.len(), 1);
    assert_eq!(idl.accounts[0].name, "VaultState");
    assert_eq!(idl.accounts[0].type_.kind, "struct");
    assert_eq!(idl.accounts[0].type_.fields.len(), 2);
    assert_eq!(idl.accounts[0].type_.fields[0].name, "owner");
    assert_eq!(idl.accounts[0].type_.fields[1].name, "balance");
}

#[test]
fn account_type_enum_included_in_accounts() {
    let src = r#"
        #[account_type]
        pub enum TokenHolding {
            Fungible { definition_id: AccountId, balance: u128 },
            NftMaster { definition_id: AccountId, print_balance: u128 },
        }

        #[lez_program]
        pub mod prog {
            #[instruction]
            pub fn init(acc: AccountWithMetadata) {}
        }
    "#;
    let idl = ok(src);
    assert_eq!(idl.accounts.len(), 1);
    let def = &idl.accounts[0];
    assert_eq!(def.name, "TokenHolding");
    assert_eq!(def.type_.kind, "enum");
    assert_eq!(def.type_.variants.len(), 2);
    assert_eq!(def.type_.variants[0].name, "Fungible");
    assert_eq!(def.type_.variants[0].fields.len(), 2);
    assert_eq!(def.type_.variants[1].name, "NftMaster");
}

#[test]
fn unannotated_type_not_in_accounts() {
    let src = r#"
        pub struct NotAnAccountType { pub x: u64 }

        #[lez_program]
        pub mod prog {
            #[instruction]
            pub fn init(acc: AccountWithMetadata) {}
        }
    "#;
    let idl = ok(src);
    assert!(idl.accounts.is_empty());
}

#[test]
fn multiple_account_types_all_collected() {
    let src = r#"
        #[account_type]
        pub struct DefinitionAccount { pub name: String }

        #[account_type]
        pub enum HoldingAccount { Fungible { balance: u128 } }

        #[lez_program]
        pub mod prog {
            #[instruction]
            pub fn init(acc: AccountWithMetadata) {}
        }
    "#;
    let idl = ok(src);
    assert_eq!(idl.accounts.len(), 2);
    let names: Vec<&str> = idl.accounts.iter().map(|a| a.name.as_str()).collect();
    assert!(names.contains(&"DefinitionAccount"));
    assert!(names.contains(&"HoldingAccount"));
}

// ── #[account_type] — referenced helper types ──────────────────────────────

#[test]
fn referenced_helper_type_goes_into_types() {
    let src = r#"
        pub enum Status { Active, Inactive }

        #[account_type]
        pub struct VaultState {
            pub status: Status,
            pub balance: u64,
        }

        #[lez_program]
        pub mod prog {
            #[instruction]
            pub fn init(acc: AccountWithMetadata) {}
        }
    "#;
    let idl = ok(src);
    assert_eq!(idl.accounts.len(), 1);
    assert_eq!(idl.types.len(), 1);
    assert_eq!(idl.types[0].name, "Status");
    assert_eq!(idl.types[0].kind, "enum");
    assert_eq!(idl.types[0].variants.len(), 2);
}

#[test]
fn annotated_type_not_duplicated_in_types() {
    // If a type is itself annotated with #[account_type], it should not
    // also appear in idl.types even if another account type references it.
    let src = r#"
        #[account_type]
        pub enum Status { Active, Inactive }

        #[account_type]
        pub struct VaultState { pub status: Status }

        #[lez_program]
        pub mod prog {
            #[instruction]
            pub fn init(acc: AccountWithMetadata) {}
        }
    "#;
    let idl = ok(src);
    assert_eq!(
        idl.accounts.len(),
        2,
        "both annotated types should be in accounts"
    );
    assert!(
        idl.types.is_empty(),
        "annotated type should not also be in types"
    );
}

#[test]
fn transitive_helper_type_resolved() {
    // VaultState → Status → StatusFlags — all helper types should end up in types.
    let src = r#"
        pub enum StatusFlags { Flag1, Flag2 }
        pub enum Status { Active(StatusFlags), Inactive }

        #[account_type]
        pub struct VaultState { pub status: Status }

        #[lez_program]
        pub mod prog {
            #[instruction]
            pub fn init(acc: AccountWithMetadata) {}
        }
    "#;
    let idl = ok(src);
    assert_eq!(idl.accounts.len(), 1);
    let type_names: Vec<&str> = idl.types.iter().map(|t| t.name.as_str()).collect();
    assert!(type_names.contains(&"Status"), "Status should be in types");
    // StatusFlags is referenced inside Status enum (tuple variant — not named fields),
    // so it won't be extracted as a field. Verify at least Status is present.
    assert_eq!(idl.types.iter().filter(|t| t.name == "Status").count(), 1);
}

#[test]
fn external_defined_type_left_as_defined_ref() {
    // AccountId is mapped to the primitive "account_id" by syn_type_to_idl_type,
    // so it should NOT appear in idl.types as an unresolvable Defined reference.
    let src = r#"
        #[account_type]
        pub struct HoldingAccount {
            pub definition_id: AccountId,
            pub balance: u128,
        }

        #[lez_program]
        pub mod prog {
            #[instruction]
            pub fn init(acc: AccountWithMetadata) {}
        }
    "#;
    let idl = ok(src);
    assert_eq!(idl.accounts.len(), 1);
    // AccountId → primitive "account_id", so no helper types needed
    assert!(idl.types.is_empty());
    assert!(
        matches!(&idl.accounts[0].type_.fields[0].type_, IdlType::Primitive(s) if s == "account_id")
    );
}

#[test]
fn account_type_field_types_correctly_mapped() {
    let src = r#"
        #[account_type]
        pub struct Everything {
            pub a: u8,
            pub b: u64,
            pub c: u128,
            pub d: bool,
            pub e: String,
            pub f: AccountId,
            pub g: Option<u32>,
            pub h: Vec<u8>,
        }

        #[lez_program]
        pub mod prog {
            #[instruction]
            pub fn init(acc: AccountWithMetadata) {}
        }
    "#;
    let idl = ok(src);
    let fields = &idl.accounts[0].type_.fields;
    assert!(matches!(&fields[0].type_, IdlType::Primitive(s) if s == "u8"));
    assert!(matches!(&fields[1].type_, IdlType::Primitive(s) if s == "u64"));
    assert!(matches!(&fields[2].type_, IdlType::Primitive(s) if s == "u128"));
    assert!(matches!(&fields[3].type_, IdlType::Primitive(s) if s == "bool"));
    assert!(matches!(&fields[4].type_, IdlType::Primitive(s) if s == "string"));
    assert!(matches!(&fields[5].type_, IdlType::Primitive(s) if s == "account_id"));
    assert!(matches!(&fields[6].type_, IdlType::Option { .. }));
    assert!(matches!(&fields[7].type_, IdlType::Vec { .. }));
}
