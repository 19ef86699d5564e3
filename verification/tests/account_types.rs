//! Annotated layouts and the helper types they need.
use spel_framework_core::account_types::collect_account_types;
use spel_framework_core::source::parse_source;
use spel_framework_core::syntax::Item;

fn items(src: &str) -> Vec<Item> {
    parse_source(src).expect("failed to parse source")
}

#[test]
fn helper_types_returned_in_sorted_order() {
    // Helper types are discovered via a BFS whose order must not depend on
    // `HashSet` iteration (randomized per process). They are returned in a
    // canonical name-sorted order so the generated IDL is byte-stable across
    // processes. The account references helpers in non-alphabetical order.
    let src = r#"
        pub struct Zeta { pub x: u8 }
        pub struct Alpha { pub x: u8 }
        pub struct Mu { pub x: u8 }

        #[account_type]
        pub struct VaultState {
            pub zeta: Zeta,
            pub alpha: Alpha,
            pub mu: Mu,
        }
    "#;
    let (accounts, helpers) = collect_account_types(&items(src));
    assert_eq!(accounts.len(), 1);
    let names: Vec<&str> = helpers.iter().map(|t| t.name.as_str()).collect();
    assert_eq!(names, vec!["Alpha", "Mu", "Zeta"]);
}

#[test]
fn instruction_arg_defined_types_are_collected() {
    let src = r#"
        pub enum MyChoice {
            A,
            B { x: u64 },
        }

        #[instruction]
        pub fn do_it(caller: AccountWithMetadata, choice: MyChoice) -> SpelResult {
            todo!()
        }
    "#;
    let (accounts, types) = collect_account_types(&items(src));
    assert!(accounts.is_empty());
    assert_eq!(types.len(), 1);
    assert_eq!(types[0].name, "MyChoice");
    assert_eq!(types[0].kind, "enum");
}

#[test]
fn alias_to_enum_resolves_under_alias_name() {
    let src = r#"
        pub enum Real { A, B { x: u64 } }
        pub type Alias = Real;

        #[instruction]
        pub fn do_it(choice: Alias) -> SpelResult { todo!() }
    "#;
    let (_, types) = collect_account_types(&items(src));
    assert_eq!(types.len(), 1);
    assert_eq!(types[0].name, "Alias");
}
