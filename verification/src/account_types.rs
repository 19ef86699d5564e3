//! Shared account type scanning logic for IDL generation.
//!
//! This module scans source items for `#[account_type]`-annotated types and
//! collects the helper types referenced by them.
use crate::attrs;
use crate::attrs::has_attr;
use crate::idl::{
    IdlAccountType, IdlAccountTypeView, IdlEnumVariant, IdlEnumVariantView, IdlField, IdlFieldView,
    IdlType, IdlTypeDef, IdlTypeDefView, IdlTypeView,
};
use crate::idl_gen;
use crate::idl_gen::{is_account_type, is_context_type, is_vec_account_type};
use crate::model::{none, put, put_all};
use crate::syntax::{
    Attribute, AttributeView, Field, FieldView, FnArg, FnArgView, Item, ItemEnum, ItemEnumView,
    ItemFn, ItemStruct, ItemStructView, ItemView, Type, TypeView, VariantView,
};
use crate::text;
use crate::text::{holds, name_le, same};
use vstd::prelude::*;

verus! {

// ── Account type scanning ────────────────────────────────────────────────

/// Whether one of the attributes is `#[account_type]`, bare or at the end of a
/// path.
pub open spec fn is_annotated(attrs: Seq<AttributeView>) -> bool {
    attrs::ending(attrs, "account_type"@)
}

/// Check if an item has the `#[account_type]` attribute.
///
/// Matches both the bare form `#[account_type]` and the fully-qualified
/// form `#[spel_framework_macros::account_type]` (idiomatic when importing
/// via a path rather than a `use` declaration).
pub fn has_account_type_attr(attrs: &Vec<Attribute>) -> (r: bool)
    ensures
        r == is_annotated(attrs.deep_view()),
{
    let mut i: usize = 0;
    while i < attrs.len()
        invariant
            i <= attrs.len(),
            forall|j: int|
                0 <= j < i ==> !(#[trigger] attrs.deep_view()[j]).path.ends("account_type"@),
        decreases attrs.len() - i,
    {
        if attrs[i].path.ends("account_type") {
            assert(attrs.deep_view()[i as int].path.ends("account_type"@));
            return true;
        }
        i += 1;
    }
    false
}

/// Whether `name` is a type the IDL knows under its own, lower-case name.
pub open spec fn is_builtin(name: Seq<char>) -> bool {
    ||| name == "u8"@
    ||| name == "u16"@
    ||| name == "u32"@
    ||| name == "u64"@
    ||| name == "u128"@
    ||| name == "i8"@
    ||| name == "i16"@
    ||| name == "i32"@
    ||| name == "i64"@
    ||| name == "i128"@
    ||| name == "bool"@
}

/// How the IDL writes a source type.
pub open spec fn idl_type(ty: TypeView) -> IdlTypeView
    decreases ty,
{
    match ty {
        TypeView::Named { ident, arg } => if is_builtin(ident) {
            IdlTypeView::Primitive(ident)
        } else if ident == "String"@ {
            IdlTypeView::Primitive("string"@)
        } else if ident == "Vec"@ {
            match arg {
                Some(inner) => IdlTypeView::Vec { vec: Box::new(idl_type(*inner)) },
                None => IdlTypeView::Primitive("vec<unknown>"@),
            }
        } else if ident == "Option"@ {
            match arg {
                Some(inner) => IdlTypeView::Option { option: Box::new(idl_type(*inner)) },
                None => IdlTypeView::Primitive("option<unknown>"@),
            }
        } else if ident == "ProgramId"@ {
            IdlTypeView::Primitive("program_id"@)
        } else if ident == "AccountId"@ {
            IdlTypeView::Primitive("account_id"@)
        } else {
            IdlTypeView::Defined { defined: ident }
        },
        TypeView::Array { elem, len } => IdlTypeView::Array {
            elem: Box::new(idl_type(*elem)),
            len: match len {
                Some(n) => n,
                None => 0,
            },
        },
        TypeView::Other => IdlTypeView::Primitive("unknown"@),
    }
}

fn is_builtin_name(name: &str) -> (r: bool)
    ensures
        r == is_builtin(name@),
{
    same(name, "u8") || same(name, "u16") || same(name, "u32") || same(name, "u64") || same(
        name,
        "u128",
    ) || same(name, "i8") || same(name, "i16") || same(name, "i32") || same(name, "i64") || same(
        name,
        "i128",
    ) || same(name, "bool")
}

/// Convert a source type to an IDL type representation.
pub fn syn_type_to_idl_type(ty: &Type) -> (r: IdlType)
    ensures
        r.deep_view() == idl_type(ty.deep_view()),
    decreases ty,
{
    match ty {
        Type::Named { ident, arg } => {
            let name = ident.as_str();
            if is_builtin_name(name) {
                IdlType::Primitive(ident.clone())
            } else if same(name, "String") {
                IdlType::Primitive("string".to_owned())
            } else if same(name, "Vec") {
                match arg {
                    Some(inner) => IdlType::Vec { vec: Box::new(syn_type_to_idl_type(inner)) },
                    None => IdlType::Primitive("vec<unknown>".to_owned()),
                }
            } else if same(name, "Option") {
                match arg {
                    Some(inner) => {
                        IdlType::Option { option: Box::new(syn_type_to_idl_type(inner)) }
                    },
                    None => IdlType::Primitive("option<unknown>".to_owned()),
                }
            } else if same(name, "ProgramId") {
                IdlType::Primitive("program_id".to_owned())
            } else if same(name, "AccountId") {
                IdlType::Primitive("account_id".to_owned())
            } else {
                IdlType::Defined { defined: ident.clone() }
            }
        },
        Type::Array { elem, len } => {
            let size: usize = match len {
                Some(n) => *n,
                None => 0,
            };
            IdlType::Array { array: (Box::new(syn_type_to_idl_type(elem)), size) }
        },
        Type::Other => IdlType::Primitive("unknown".to_owned()),
    }
}

/// How the IDL describes a named field.
pub open spec fn idl_field(f: FieldView) -> IdlFieldView {
    IdlFieldView { name: f.name, type_: idl_type(f.ty) }
}

/// How the IDL describes named fields.
pub open spec fn idl_fields(fields: Seq<FieldView>) -> Seq<IdlFieldView> {
    fields.map_values(|f: FieldView| idl_field(f))
}

fn convert_fields(fields: &Vec<Field>) -> (r: Vec<IdlField>)
    ensures
        r.deep_view() == idl_fields(fields.deep_view()),
{
    let mut out: Vec<IdlField> = Vec::new();
    let mut i: usize = 0;
    while i < fields.len()
        invariant
            i <= fields.len(),
            out.len() == i,
            forall|j: int|
                0 <= j < i ==> (#[trigger] out@[j]).deep_view() == idl_field(
                    fields@[j].deep_view(),
                ),
        decreases fields.len() - i,
    {
        out.push(
            IdlField { name: fields[i].name.clone(), type_: syn_type_to_idl_type(&fields[i].ty) },
        );
        i += 1;
    }
    assert(out.deep_view() =~= idl_fields(fields.deep_view()));
    out
}

/// The layout of a struct with named fields.
pub open spec fn struct_layout(s: ItemStructView) -> Option<IdlAccountTypeView> {
    match s.fields {
        Some(fields) => Some(
            IdlAccountTypeView {
                name: s.name,
                type_: IdlTypeDefView {
                    name: Seq::empty(),
                    kind: "struct"@,
                    fields: idl_fields(fields),
                    variants: Seq::empty(),
                },
            },
        ),
        None => None,
    }
}

/// Parse a named struct annotated with `#[account_type]` into an [`IdlAccountType`].
/// Returns `None` for tuple / unit structs (no named fields to describe).
pub fn parse_struct_account_type(item: &ItemStruct) -> (r: Option<IdlAccountType>)
    ensures
        r.deep_view() == struct_layout(item.deep_view()),
{
    match &item.fields {
        Some(fields) => Some(
            IdlAccountType {
                name: item.name.clone(),
                type_: IdlTypeDef {
                    name: String::new(),
                    kind: "struct".to_owned(),
                    fields: convert_fields(fields),
                    variants: none(),
                },
            },
        ),
        None => None,
    }
}

/// How the IDL describes a variant: tuple variants have no fields.
pub open spec fn idl_variant(v: VariantView) -> IdlEnumVariantView {
    IdlEnumVariantView {
        name: v.name,
        fields: match v.fields {
            Some(fields) => idl_fields(fields),
            None => Seq::empty(),
        },
    }
}

/// The layout of an enum.
pub open spec fn enum_layout(e: ItemEnumView) -> IdlAccountTypeView {
    IdlAccountTypeView {
        name: e.name,
        type_: IdlTypeDefView {
            name: Seq::empty(),
            kind: "enum"@,
            fields: Seq::empty(),
            variants: e.variants.map_values(|v: VariantView| idl_variant(v)),
        },
    }
}

/// Parse an enum annotated with `#[account_type]` into an [`IdlAccountType`].
/// Only named-field variants are supported; tuple variants are emitted with no fields.
pub fn parse_enum_account_type(item: &ItemEnum) -> (r: IdlAccountType)
    ensures
        r.deep_view() == enum_layout(item.deep_view()),
{
    let mut out: Vec<IdlEnumVariant> = Vec::new();
    let mut i: usize = 0;
    while i < item.variants.len()
        invariant
            i <= item.variants.len(),
            out.len() == i,
            forall|j: int|
                0 <= j < i ==> (#[trigger] out@[j]).deep_view() == idl_variant(
                    item.variants@[j].deep_view(),
                ),
        decreases item.variants.len() - i,
    {
        let v = &item.variants[i];
        let fields = match &v.fields {
            Some(f) => convert_fields(f),
            None => none(),
        };
        out.push(IdlEnumVariant { name: v.name.clone(), fields });
        i += 1;
    }
    assert(out.deep_view() =~= item.variants.deep_view().map_values(
        |v: VariantView| idl_variant(v),
    ));
    IdlAccountType {
        name: item.name.clone(),
        type_: IdlTypeDef {
            name: String::new(),
            kind: "enum".to_owned(),
            fields: none(),
            variants: out,
        },
    }
}

// ── References ───────────────────────────────────────────────────────────

/// The names of the types a type refers to.
pub open spec fn type_refs(ty: IdlTypeView) -> Seq<Seq<char>>
    decreases ty,
{
    match ty {
        IdlTypeView::Defined { defined } => seq![defined],
        IdlTypeView::Vec { vec } => type_refs(*vec),
        IdlTypeView::Option { option } => type_refs(*option),
        IdlTypeView::Array { elem, len } => type_refs(*elem),
        IdlTypeView::Primitive(_) => Seq::empty(),
    }
}

/// The names of the types a list of fields refers to.
pub open spec fn field_refs(fields: Seq<IdlFieldView>) -> Seq<Seq<char>>
    decreases fields.len(),
{
    if fields.len() == 0 {
        Seq::empty()
    } else {
        field_refs(fields.drop_last()) + type_refs(fields.last().type_)
    }
}

/// The names of the types a list of variants refers to.
pub open spec fn variant_refs(variants: Seq<IdlEnumVariantView>) -> Seq<Seq<char>>
    decreases variants.len(),
{
    if variants.len() == 0 {
        Seq::empty()
    } else {
        variant_refs(variants.drop_last()) + field_refs(variants.last().fields)
    }
}

/// The names of the types a layout refers to.
pub open spec fn layout_refs(def: IdlTypeDefView) -> Seq<Seq<char>> {
    field_refs(def.fields) + variant_refs(def.variants)
}

fn collect_defined_refs_from_type(ty: &IdlType, out: &mut Vec<String>)
    ensures
        final(out).deep_view() == old(out).deep_view() + type_refs(ty.deep_view()),
    decreases ty,
{
    match ty {
        IdlType::Defined { defined } => {
            put(out, defined.clone());
            assert(out.deep_view() =~= old(out).deep_view() + seq![defined@]);
        },
        IdlType::Vec { vec } => collect_defined_refs_from_type(vec, out),
        IdlType::Option { option } => collect_defined_refs_from_type(option, out),
        IdlType::Array { array } => collect_defined_refs_from_type(&array.0, out),
        IdlType::Primitive(_) => {
            assert(out.deep_view() =~= old(out).deep_view() + Seq::<Seq<char>>::empty());
        },
    }
}

fn collect_field_refs(fields: &Vec<IdlField>, out: &mut Vec<String>)
    ensures
        final(out).deep_view() == old(out).deep_view() + field_refs(fields.deep_view()),
{
    let ghost fs = fields.deep_view();
    let ghost start = out.deep_view();
    let mut i: usize = 0;
    assert(fs.take(0) =~= Seq::empty());
    assert(start =~= start + Seq::<Seq<char>>::empty());
    while i < fields.len()
        invariant
            i <= fields.len(),
            fs == fields.deep_view(),
            out.deep_view() == start + field_refs(fs.take(i as int)),
        decreases fields.len() - i,
    {
        collect_defined_refs_from_type(&fields[i].type_, out);
        proof {
            assert(fs.take(i + 1).drop_last() =~= fs.take(i as int));
            assert(fs.take(i + 1).last() == fields@[i as int].deep_view());
            assert(out.deep_view() =~= start + field_refs(fs.take(i + 1)));
        }
        i += 1;
    }
    assert(fs.take(i as int) =~= fs);
}

/// Collect all `Defined { name }` type references that appear anywhere within a
/// type definition (fields of structs, fields of enum variants).
fn collect_defined_refs(type_def: &IdlTypeDef) -> (r: Vec<String>)
    ensures
        r.deep_view() == layout_refs(type_def.deep_view()),
{
    let mut refs: Vec<String> = none();
    collect_field_refs(&type_def.fields, &mut refs);
    let ghost vs = type_def.variants.deep_view();
    let ghost start = refs.deep_view();
    let mut i: usize = 0;
    assert(vs.take(0) =~= Seq::empty());
    assert(start =~= start + Seq::<Seq<char>>::empty());
    while i < type_def.variants.len()
        invariant
            i <= type_def.variants.len(),
            vs == type_def.variants.deep_view(),
            refs.deep_view() == start + variant_refs(vs.take(i as int)),
        decreases type_def.variants.len() - i,
    {
        collect_field_refs(&type_def.variants[i].fields, &mut refs);
        proof {
            assert(vs.take(i + 1).drop_last() =~= vs.take(i as int));
            assert(vs.take(i + 1).last() == type_def.variants@[i as int].deep_view());
            assert(refs.deep_view() =~= start + variant_refs(vs.take(i + 1)));
        }
        i += 1;
    }
    assert(vs.take(i as int) =~= vs);
    assert(refs.deep_view() =~= layout_refs(type_def.deep_view()));
    refs
}

// ── Definitions by name ──────────────────────────────────────────────────

/// The last name of a path type.
pub open spec fn last_name(ty: TypeView) -> Option<Seq<char>> {
    match ty {
        TypeView::Named { ident, .. } => Some(ident),
        _ => None,
    }
}

/// A layout under another name.
pub open spec fn renamed(def: IdlTypeDefView, name: Seq<char>) -> IdlTypeDefView {
    IdlTypeDefView { name, ..def }
}

/// The definition the first item called `name` gives, from item `from` on:
/// a struct's or enum's own layout, or what an alias leads to in `hops` more
/// steps, under the name asked for. An alias whose target is not among the
/// items, or that leads back to itself, gives none.
pub open spec fn definition_from(
    items: Seq<ItemView>,
    name: Seq<char>,
    from: int,
    hops: nat,
) -> Option<IdlTypeDefView>
    decreases hops, items.len() - from,
{
    if from < 0 || from >= items.len() {
        None
    } else {
        match items[from] {
            ItemView::Struct(s) => if s.name == name {
                match struct_layout(s) {
                    Some(at) => Some(renamed(at.type_, name)),
                    None => None,
                }
            } else {
                definition_from(items, name, from + 1, hops)
            },
            ItemView::Enum(e) => if e.name == name {
                Some(renamed(enum_layout(e).type_, name))
            } else {
                definition_from(items, name, from + 1, hops)
            },
            ItemView::Type(t) => if t.name == name {
                match last_name(t.ty) {
                    Some(target) => if hops == 0 {
                        None
                    } else {
                        match definition_from(items, target, 0, (hops - 1) as nat) {
                            Some(def) => Some(renamed(def, name)),
                            None => None,
                        }
                    },
                    None => None,
                }
            } else {
                definition_from(items, name, from + 1, hops)
            },
            _ => definition_from(items, name, from + 1, hops),
        }
    }
}

/// The definition of a type among `items`. A chain of aliases that does not
/// repeat is no longer than the list of items.
pub open spec fn definition(items: Seq<ItemView>, name: Seq<char>) -> Option<IdlTypeDefView> {
    definition_from(items, name, 0, items.len())
}

fn find_in_hops(items: &Vec<Item>, name: &str, hops: usize) -> (r: Option<IdlTypeDef>)
    ensures
        r.deep_view() == definition_from(items.deep_view(), name@, 0, hops as nat),
    decreases hops,
{
    let ghost its = items.deep_view();
    let mut i: usize = 0;
    while i < items.len()
        invariant
            i <= items.len(),
            its == items.deep_view(),
            definition_from(its, name@, 0, hops as nat) == definition_from(
                its,
                name@,
                i as int,
                hops as nat,
            ),
        decreases items.len() - i,
    {
        assert(its[i as int] == items@[i as int].deep_view());
        match &items[i] {
            Item::Struct(s) => {
                if same(s.name.as_str(), name) {
                    return match parse_struct_account_type(s) {
                        Some(at) => Some(
                            IdlTypeDef {
                                name: name.to_owned(),
                                kind: at.type_.kind,
                                fields: at.type_.fields,
                                variants: at.type_.variants,
                            },
                        ),
                        None => None,
                    };
                }
            },
            Item::Enum(e) => {
                if same(e.name.as_str(), name) {
                    let at = parse_enum_account_type(e);
                    return Some(
                        IdlTypeDef {
                            name: name.to_owned(),
                            kind: at.type_.kind,
                            fields: at.type_.fields,
                            variants: at.type_.variants,
                        },
                    );
                }
            },
            Item::Type(t) => {
                if same(t.name.as_str(), name) {
                    // Type alias: resolve the target and emit its def under the
                    // alias name, so instruction args referencing the alias find
                    // a matching entry in the IDL's `types` array.
                    return match last_ident(&t.ty) {
                        Some(target) => if hops == 0 {
                            None
                        } else {
                            match find_in_hops(items, target.as_str(), hops - 1) {
                                Some(def) => Some(
                                    IdlTypeDef {
                                        name: name.to_owned(),
                                        kind: def.kind,
                                        fields: def.fields,
                                        variants: def.variants,
                                    },
                                ),
                                None => None,
                            }
                        },
                        None => None,
                    };
                }
            },
            _ => {},
        }
        i += 1;
    }
    None
}

/// Look up a type by name in the top-level items of a file and parse it.
/// Returns `None` if not found or the item cannot be represented (e.g. tuple struct).
fn find_and_parse_type(items: &Vec<Item>, name: &str) -> (r: Option<IdlTypeDef>)
    ensures
        r.deep_view() == definition(items.deep_view(), name@),
{
    find_in_hops(items, name, items.len())
}

/// Last path segment of a type, e.g. `nssa_core::account::AccountWithMetadata`
/// → `AccountWithMetadata`. `None` for non-path types (references, tuples).
fn last_ident(ty: &Type) -> (r: Option<String>)
    ensures
        r.deep_view() == last_name(ty.deep_view()),
{
    match ty {
        Type::Named { ident, .. } => Some(ident.clone()),
        _ => None,
    }
}

/// Whether a parameter type stands for an account rather than a data argument.
pub open spec fn account_shaped(ty: TypeView) -> bool {
    idl_gen::account_type(ty) || idl_gen::vec_account_type(ty) || idl_gen::context_type(ty)
}

/// True for instruction params that are accounts rather than data args:
/// `AccountWithMetadata`, `Vec<AccountWithMetadata>`, and `ProgramContext`.
fn is_account_shaped(ty: &Type) -> (r: bool)
    ensures
        r == account_shaped(ty.deep_view()),
{
    is_account_type(ty) || is_vec_account_type(ty) || is_context_type(ty)
}

// ── Annotated types and the helpers they need ────────────────────────────

/// The layout an item puts into the IDL by its own annotation.
pub open spec fn annotated_layout(item: ItemView) -> Option<IdlAccountTypeView> {
    match item {
        ItemView::Struct(s) => if is_annotated(s.attrs) {
            struct_layout(s)
        } else {
            None
        },
        ItemView::Enum(e) => if is_annotated(e.attrs) {
            Some(enum_layout(e))
        } else {
            None
        },
        _ => None,
    }
}

/// The layouts of the annotated items, in source order.
pub open spec fn annotated(items: Seq<ItemView>) -> Seq<IdlAccountTypeView>
    decreases items.len(),
{
    if items.len() == 0 {
        Seq::empty()
    } else {
        match annotated_layout(items.last()) {
            Some(at) => annotated(items.drop_last()).push(at),
            None => annotated(items.drop_last()),
        }
    }
}

/// Whether one of the annotated layouts is called `name`.
pub open spec fn is_account_name(accounts: Seq<IdlAccountTypeView>, name: Seq<char>) -> bool {
    exists|i: int| 0 <= i < accounts.len() && (#[trigger] accounts[i]).name == name
}

/// The names the layouts refer to.
pub open spec fn account_refs(accounts: Seq<IdlAccountTypeView>) -> Seq<Seq<char>>
    decreases accounts.len(),
{
    if accounts.len() == 0 {
        Seq::empty()
    } else {
        account_refs(accounts.drop_last()) + layout_refs(accounts.last().type_)
    }
}

/// The names an instruction's data arguments refer to.
pub open spec fn input_refs(inputs: Seq<FnArgView>) -> Seq<Seq<char>>
    decreases inputs.len(),
{
    if inputs.len() == 0 {
        Seq::empty()
    } else {
        let before = input_refs(inputs.drop_last());
        match inputs.last() {
            FnArgView::Typed(p) => if account_shaped(p.ty) {
                before
            } else {
                before + type_refs(idl_type(p.ty))
            },
            FnArgView::Receiver => before,
        }
    }
}

/// The names the data arguments of the instructions among `items` refer to.
pub open spec fn instruction_refs(items: Seq<ItemView>) -> Seq<Seq<char>>
    decreases items.len(),
{
    if items.len() == 0 {
        Seq::empty()
    } else {
        let before = instruction_refs(items.drop_last());
        match items.last() {
            ItemView::Fn(f) => if attrs::named(f.attrs, "instruction"@) {
                before + input_refs(f.inputs)
            } else {
                before
            },
            _ => before,
        }
    }
}

/// The names the search for helper types starts from.
pub open spec fn root_refs(items: Seq<ItemView>) -> Seq<Seq<char>> {
    account_refs(annotated(items)) + instruction_refs(items)
}

/// Whether the definition of `user` among `items` refers to `name`.
pub open spec fn uses(items: Seq<ItemView>, user: Seq<char>, name: Seq<char>) -> bool {
    definition(items, user) matches Some(def) && layout_refs(def).contains(name)
}

/// Whether the type `name` is needed at `steps` references from the annotated
/// types and instruction arguments, and is not itself annotated.
pub open spec fn needed_in(items: Seq<ItemView>, name: Seq<char>, steps: nat) -> bool
    decreases steps,
{
    &&& !is_account_name(annotated(items), name)
    &&& if steps == 0 {
        root_refs(items).contains(name)
    } else {
        exists|user: Seq<char>| #[trigger]
            uses(items, user, name) && needed_in(items, user, (steps - 1) as nat)
    }
}

/// Whether the type `name` is a helper: reachable by references from the
/// annotated types or the instruction arguments, and not itself annotated.
pub open spec fn is_needed(items: Seq<ItemView>, name: Seq<char>) -> bool {
    exists|steps: nat| needed_in(items, name, steps)
}

/// Whether layouts stand in strictly ascending order of their names.
pub open spec fn name_sorted(types: Seq<IdlTypeDefView>) -> bool {
    forall|i: int, j: int|
        0 <= i < j < types.len() ==> text::lex_le(
            (#[trigger] types[i]).name,
            (#[trigger] types[j]).name,
        ) && types[i].name != types[j].name
}

/// Whether `types` are the helper types of `items`: the definitions of all the
/// needed names that have one, each once, sorted by name.
pub open spec fn are_helpers(items: Seq<ItemView>, types: Seq<IdlTypeDefView>) -> bool {
    &&& name_sorted(types)
    &&& forall|i: int|
        0 <= i < types.len() ==> is_needed(items, (#[trigger] types[i]).name) && definition(
            items,
            types[i].name,
        ) == Some(types[i])
    &&& forall|name: Seq<char>|
        #![trigger is_needed(items, name)]
        is_needed(items, name) && definition(items, name) is Some ==> exists|i: int|
            0 <= i < types.len() && (#[trigger] types[i]).name == name
}

// ── Every name a reference can carry ─────────────────────────────────────

/// The names the layout of an item refers to.
spec fn item_refs(item: ItemView) -> Seq<Seq<char>> {
    match item {
        ItemView::Struct(s) => match struct_layout(s) {
            Some(at) => layout_refs(at.type_),
            None => Seq::empty(),
        },
        ItemView::Enum(e) => layout_refs(enum_layout(e).type_),
        _ => Seq::empty(),
    }
}

/// The names the layouts of `items` refer to.
spec fn items_refs(items: Seq<ItemView>) -> Seq<Seq<char>>
    decreases items.len(),
{
    if items.len() == 0 {
        Seq::empty()
    } else {
        items_refs(items.drop_last()) + item_refs(items.last())
    }
}

proof fn item_refs_listed(items: Seq<ItemView>, i: int, name: Seq<char>)
    requires
        0 <= i < items.len(),
        item_refs(items[i]).contains(name),
    ensures
        items_refs(items).contains(name),
    decreases items.len(),
{
    let before = items_refs(items.drop_last());
    let last = item_refs(items.last());
    if i == items.len() - 1 {
        let k = choose|k: int| 0 <= k < last.len() && last[k] == name;
        assert((before + last)[before.len() + k] == name);
    } else {
        item_refs_listed(items.drop_last(), i, name);
        let k = choose|k: int| 0 <= k < before.len() && before[k] == name;
        assert((before + last)[k] == name);
    }
}

proof fn definition_refs_listed(
    items: Seq<ItemView>,
    user: Seq<char>,
    from: int,
    hops: nat,
    name: Seq<char>,
)
    requires
        0 <= from,
        definition_from(items, user, from, hops) matches Some(def) && layout_refs(def).contains(
            name,
        ),
    ensures
        items_refs(items).contains(name),
    decreases hops, items.len() - from,
{
    if from < items.len() {
        match items[from] {
            ItemView::Struct(s) => {
                if s.name == user {
                    item_refs_listed(items, from, name);
                } else {
                    definition_refs_listed(items, user, from + 1, hops, name);
                }
            },
            ItemView::Enum(e) => {
                if e.name == user {
                    item_refs_listed(items, from, name);
                } else {
                    definition_refs_listed(items, user, from + 1, hops, name);
                }
            },
            ItemView::Type(t) => {
                if t.name == user {
                    definition_refs_listed(
                        items,
                        last_name(t.ty)->Some_0,
                        0,
                        (hops - 1) as nat,
                        name,
                    );
                } else {
                    definition_refs_listed(items, user, from + 1, hops, name);
                }
            },
            _ => {
                definition_refs_listed(items, user, from + 1, hops, name);
            },
        }
    }
}

proof fn definition_named(items: Seq<ItemView>, name: Seq<char>, from: int, hops: nat)
    requires
        0 <= from,
    ensures
        definition_from(items, name, from, hops) matches Some(def) ==> def.name == name,
    decreases hops, items.len() - from,
{
    if from < items.len() {
        definition_named(items, name, from + 1, hops);
    }
}

// ── The search ───────────────────────────────────────────────────────────

/// What the search for helper types knows at any point: `seen` names were
/// looked up, or are annotated; every other name it must still look at is in
/// `queue`, from `at` on.
spec fn search_inv(
    items: Seq<ItemView>,
    queue: Seq<Seq<char>>,
    at: int,
    seen: Seq<Seq<char>>,
    types: Seq<IdlTypeDefView>,
) -> bool {
    let accounts = annotated(items);
    &&& 0 <= at <= queue.len()
    &&& forall|name: Seq<char>| is_account_name(accounts, name) ==> #[trigger] seen.contains(name)
    &&& forall|i: int|
        0 <= i < seen.len() ==> is_account_name(accounts, #[trigger] seen[i]) || is_needed(
            items,
            seen[i],
        )
    &&& forall|i: int|
        0 <= i < queue.len() ==> is_account_name(accounts, #[trigger] queue[i]) || is_needed(
            items,
            queue[i],
        )
    &&& forall|i: int|
        0 <= i < queue.len() ==> (root_refs(items) + items_refs(items)).contains(
            #[trigger] queue[i],
        )
    &&& forall|name: Seq<char>| #[trigger]
        root_refs(items).contains(name) ==> pending(queue, at, seen, name)
    &&& forall|user: Seq<char>, name: Seq<char>|
        #![trigger seen.contains(user), uses(items, user, name)]
        seen.contains(user) && !is_account_name(accounts, user) && uses(items, user, name)
            ==> pending(queue, at, seen, name)
    &&& name_sorted(types)
    &&& forall|i: int|
        0 <= i < types.len() ==> seen.contains((#[trigger] types[i]).name) && !is_account_name(
            accounts,
            types[i].name,
        ) && definition(items, types[i].name) == Some(types[i])
    &&& forall|name: Seq<char>|
        #![trigger seen.contains(name)]
        seen.contains(name) && !is_account_name(accounts, name) && definition(items, name) is Some
            ==> exists|i: int| 0 <= i < types.len() && (#[trigger] types[i]).name == name
}

/// A name that was looked up or still will be.
spec fn pending(queue: Seq<Seq<char>>, at: int, seen: Seq<Seq<char>>, name: Seq<char>) -> bool {
    seen.contains(name) || exists|i: int| at <= i < queue.len() && #[trigger] queue[i] == name
}

proof fn needed_is_seen(
    items: Seq<ItemView>,
    queue: Seq<Seq<char>>,
    seen: Seq<Seq<char>>,
    types: Seq<IdlTypeDefView>,
    name: Seq<char>,
    steps: nat,
)
    requires
        search_inv(items, queue, queue.len() as int, seen, types),
        needed_in(items, name, steps),
    ensures
        seen.contains(name),
    decreases steps,
{
    if steps == 0 {
        assert(root_refs(items).contains(name));
        assert(pending(queue, queue.len() as int, seen, name));
    } else {
        let user = choose|user: Seq<char>| #[trigger]
            uses(items, user, name) && needed_in(items, user, (steps - 1) as nat);
        needed_is_seen(items, queue, seen, types, user, (steps - 1) as nat);
        assert(pending(queue, queue.len() as int, seen, name));
    }
}

/// Inserts a layout into a list sorted by name.
fn insert_by_name(types: &mut Vec<IdlTypeDef>, def: IdlTypeDef) -> (at: Ghost<int>)
    requires
        name_sorted(old(types).deep_view()),
        forall|i: int|
            0 <= i < old(types).len() ==> (#[trigger] old(types).deep_view()[i]).name
                != def.deep_view().name,
    ensures
        0 <= at@ <= old(types).len(),
        final(types).deep_view() == old(types).deep_view().insert(at@, def.deep_view()),
        name_sorted(final(types).deep_view()),
{
    let ghost before = types.deep_view();
    let ghost d = def.deep_view();
    let mut i: usize = 0;
    while i < types.len() && name_le(types[i].name.as_str(), def.name.as_str())
        invariant
            i <= types.len(),
            before == types.deep_view(),
            d == def.deep_view(),
            forall|j: int| 0 <= j < i ==> text::lex_le((#[trigger] before[j]).name, d.name),
        decreases types.len() - i,
    {
        assert(before[i as int] == types@[i as int].deep_view());
        i += 1;
    }
    proof {
        if i < types.len() {
            assert(before[i as int] == types@[i as int].deep_view());
            text::lex_total(before[i as int].name, d.name);
            assert forall|j: int| i <= j < before.len() implies text::lex_le(
                d.name,
                (#[trigger] before[j]).name,
            ) by {
                if j > i {
                    text::lex_transitive(d.name, before[i as int].name, before[j].name);
                }
            }
        }
    }
    types.insert(i, def);
    proof {
        let after = types.deep_view();
        assert(after =~= before.insert(i as int, d));
        assert forall|a: int, b: int| 0 <= a < b < after.len() implies text::lex_le(
            (#[trigger] after[a]).name,
            (#[trigger] after[b]).name,
        ) && after[a].name != after[b].name by {
            if a != i && b != i {
                let x = if a < i { a } else { a - 1 };
                let y = if b < i { b } else { b - 1 };
                assert(after[a] == before[x] && after[b] == before[y]);
            } else if a == i {
                assert(after[b] == before[b - 1]);
            } else {
                assert(after[a] == before[a]);
            }
        }
    }
    Ghost(i as int)
}

proof fn search_start(items: Seq<ItemView>, seen: Seq<Seq<char>>)
    requires
        seen == annotated(items).map_values(|a: IdlAccountTypeView| a.name),
    ensures
        search_inv(items, root_refs(items), 0, seen, Seq::empty()),
{
    let accounts = annotated(items);
    let queue = root_refs(items);
    assert forall|name: Seq<char>| is_account_name(accounts, name) implies #[trigger] seen.contains(
        name,
    ) by {
        let i = choose|i: int| 0 <= i < accounts.len() && (#[trigger] accounts[i]).name == name;
        assert(seen[i] == name);
    }
    assert forall|i: int| 0 <= i < seen.len() implies is_account_name(accounts, #[trigger] seen[i]) by {
        assert(accounts[i].name == seen[i]);
    }
    assert forall|i: int| 0 <= i < queue.len() implies is_account_name(
        accounts,
        #[trigger] queue[i],
    ) || is_needed(items, queue[i]) by {
        if !is_account_name(accounts, queue[i]) {
            assert(needed_in(items, queue[i], 0));
        }
    }
    assert forall|i: int| 0 <= i < queue.len() implies (root_refs(items) + items_refs(
        items,
    )).contains(#[trigger] queue[i]) by {
        assert((root_refs(items) + items_refs(items))[i] == queue[i]);
    }
    assert forall|name: Seq<char>| #[trigger] root_refs(items).contains(name) implies pending(
        queue,
        0,
        seen,
        name,
    ) by {
        let i = choose|i: int| 0 <= i < queue.len() && queue[i] == name;
        assert(queue[i] == name);
    }
    assert forall|name: Seq<char>| seen.contains(name) implies is_account_name(accounts, name) by {
        let i = choose|i: int| 0 <= i < seen.len() && seen[i] == name;
        assert(accounts[i].name == name);
    }
}

proof fn search_skip(
    items: Seq<ItemView>,
    queue: Seq<Seq<char>>,
    at: int,
    seen: Seq<Seq<char>>,
    types: Seq<IdlTypeDefView>,
)
    requires
        search_inv(items, queue, at, seen, types),
        at < queue.len(),
        seen.contains(queue[at]),
    ensures
        search_inv(items, queue, at + 1, seen, types),
{
    assert forall|name: Seq<char>| pending(queue, at, seen, name) implies pending(
        queue,
        at + 1,
        seen,
        name,
    ) by {
        if !seen.contains(name) {
            let i = choose|i: int| at <= i < queue.len() && #[trigger] queue[i] == name;
            assert(queue[i] == name);
        }
    }
}

/// One look-up: `name` becomes seen, and where it has a definition, that joins
/// `types` at `pos` and its references the queue.
proof fn search_step(
    items: Seq<ItemView>,
    queue: Seq<Seq<char>>,
    at: int,
    seen: Seq<Seq<char>>,
    types: Seq<IdlTypeDefView>,
    queue2: Seq<Seq<char>>,
    types2: Seq<IdlTypeDefView>,
    pos: int,
)
    requires
        search_inv(items, queue, at, seen, types),
        at < queue.len(),
        !seen.contains(queue[at]),
        match definition(items, queue[at]) {
            Some(def) => {
                &&& queue2 == queue + layout_refs(def)
                &&& 0 <= pos <= types.len()
                &&& types2 == types.insert(pos, def)
                &&& name_sorted(types2)
            },
            None => queue2 == queue && types2 == types,
        },
    ensures
        search_inv(items, queue2, at + 1, seen.push(queue[at]), types2),
{
    let accounts = annotated(items);
    let name0 = queue[at];
    let seen2 = seen.push(name0);
    let found = definition(items, name0);
    definition_named(items, name0, 0, items.len());
    assert(!is_account_name(accounts, name0));
    assert(is_needed(items, name0));
    assert forall|n: Seq<char>| seen.contains(n) implies #[trigger] seen2.contains(n) by {
        let i = choose|i: int| 0 <= i < seen.len() && seen[i] == n;
        assert(seen2[i] == n);
    }
    assert(seen2[seen.len() as int] == name0);
    assert forall|n: Seq<char>| #[trigger] seen2.contains(n) implies seen.contains(n) || n
        == name0 by {
        let i = choose|i: int| 0 <= i < seen2.len() && seen2[i] == n;
        if i < seen.len() {
            assert(seen[i] == n);
        }
    }
    assert forall|n: Seq<char>| pending(queue, at, seen, n) implies pending(
        queue2,
        at + 1,
        seen2,
        n,
    ) by {
        if !seen.contains(n) {
            let i = choose|i: int| at <= i < queue.len() && #[trigger] queue[i] == n;
            assert(queue2[i] == queue[i]);
            if i == at {
                assert(seen2.contains(n));
            } else {
                assert(queue2[i] == n);
            }
        } else {
            assert(seen2.contains(n));
        }
    }
    assert forall|user: Seq<char>, n: Seq<char>|
        #![trigger seen2.contains(user), uses(items, user, n)]
        seen2.contains(user) && !is_account_name(accounts, user) && uses(items, user, n) implies pending(
        queue2,
        at + 1,
        seen2,
        n,
    ) by {
        if seen.contains(user) {
            assert(pending(queue, at, seen, n));
        } else {
            let refs = layout_refs(found->Some_0);
            let k = choose|k: int| 0 <= k < refs.len() && refs[k] == n;
            assert(queue2[queue.len() + k] == n);
        }
    }
    if let Some(def) = found {
        let refs = layout_refs(def);
        assert forall|i: int| 0 <= i < queue2.len() implies is_account_name(
            accounts,
            #[trigger] queue2[i],
        ) || is_needed(items, queue2[i]) by {
            if i < queue.len() {
                assert(queue2[i] == queue[i]);
            } else if !is_account_name(accounts, queue2[i]) {
                let n = queue2[i];
                assert(refs[i - queue.len()] == n);
                assert(refs.contains(n));
                let steps = choose|steps: nat| needed_in(items, name0, steps);
                assert(uses(items, name0, n));
                assert(needed_in(items, n, steps + 1));
            }
        }
        assert forall|i: int| 0 <= i < queue2.len() implies (root_refs(items) + items_refs(
            items,
        )).contains(#[trigger] queue2[i]) by {
            if i < queue.len() {
                assert(queue2[i] == queue[i]);
            } else {
                let n = queue2[i];
                assert(refs[i - queue.len()] == n);
                assert(refs.contains(n));
                definition_refs_listed(items, name0, 0, items.len(), n);
                let all = items_refs(items);
                let k = choose|k: int| 0 <= k < all.len() && all[k] == n;
                assert((root_refs(items) + all)[root_refs(items).len() + k] == n);
            }
        }
        assert forall|i: int| 0 <= i < types2.len() implies seen2.contains(
            (#[trigger] types2[i]).name,
        ) && !is_account_name(accounts, types2[i].name) && definition(items, types2[i].name)
            == Some(types2[i]) by {
            if i == pos {
                assert(types2[i] == def);
            } else {
                let k = if i < pos { i } else { i - 1 };
                assert(types2[i] == types[k]);
            }
        }
        assert forall|n: Seq<char>| #![trigger seen2.contains(n)]
            seen2.contains(n) && !is_account_name(accounts, n) && definition(items, n) is Some implies exists|
            i: int,
        | 0 <= i < types2.len() && (#[trigger] types2[i]).name == n by {
            if n == name0 {
                assert(types2[pos].name == n);
            } else {
                let k = choose|k: int| 0 <= k < types.len() && (#[trigger] types[k]).name == n;
                let i = if k < pos { k } else { k + 1 };
                assert(types2[i] == types[k]);
            }
        }
    } else {
        assert forall|n: Seq<char>| #![trigger seen2.contains(n)]
            seen2.contains(n) && !is_account_name(accounts, n) && definition(items, n) is Some implies exists|
            i: int,
        | 0 <= i < types2.len() && (#[trigger] types2[i]).name == n by {
            assert(seen.contains(n));
        }
    }
}

proof fn search_done(
    items: Seq<ItemView>,
    queue: Seq<Seq<char>>,
    seen: Seq<Seq<char>>,
    types: Seq<IdlTypeDefView>,
)
    requires
        search_inv(items, queue, queue.len() as int, seen, types),
    ensures
        are_helpers(items, types),
{
    assert forall|i: int| 0 <= i < types.len() implies is_needed(
        items,
        (#[trigger] types[i]).name,
    ) by {
        let n = types[i].name;
        let k = choose|k: int| 0 <= k < seen.len() && seen[k] == n;
        assert(is_account_name(annotated(items), seen[k]) || is_needed(items, seen[k]));
    }
    assert forall|name: Seq<char>| #![trigger is_needed(items, name)]
        is_needed(items, name) && definition(items, name) is Some implies exists|i: int|
        0 <= i < types.len() && (#[trigger] types[i]).name == name by {
        let steps = choose|steps: nat| needed_in(items, name, steps);
        needed_is_seen(items, queue, seen, types, name, steps);
        assert(!is_account_name(annotated(items), name));
    }
}

proof fn seen_shrinks(all: Seq<Seq<char>>, seen: Seq<Seq<char>>, name: Seq<char>)
    requires
        all.contains(name),
        !seen.contains(name),
    ensures
        all.to_set().difference(seen.push(name).to_set()).len() < all.to_set().difference(
            seen.to_set(),
        ).len(),
{
    vstd::seq_lib::seq_to_set_is_finite(all);
    let left = all.to_set().difference(seen.to_set());
    assert(seen.push(name).to_set() =~= seen.to_set().insert(name)) by {
        assert forall|n: Seq<char>| seen.push(name).contains(n) <==> seen.contains(n) || n
            == name by {
            if seen.contains(n) {
                let i = choose|i: int| 0 <= i < seen.len() && seen[i] == n;
                assert(seen.push(name)[i] == n);
            }
            assert(seen.push(name)[seen.len() as int] == name);
        }
    }
    assert(all.to_set().difference(seen.push(name).to_set()) =~= left.remove(name));
    assert(left.contains(name));
}

/// The layouts of the annotated items, in source order.
pub fn collect_annotated(items: &Vec<Item>) -> (r: Vec<IdlAccountType>)
    ensures
        r.deep_view() == annotated(items.deep_view()),
{
    let ghost its = items.deep_view();
    let mut accounts: Vec<IdlAccountType> = none();
    let mut i: usize = 0;
    assert(its.take(0) =~= Seq::empty());
    while i < items.len()
        invariant
            i <= items.len(),
            its == items.deep_view(),
            accounts.deep_view() == annotated(its.take(i as int)),
        decreases items.len() - i,
    {
        assert(its.take(i + 1).drop_last() =~= its.take(i as int));
        assert(its.take(i + 1).last() == items@[i as int].deep_view());
        match &items[i] {
            Item::Struct(s) => {
                if has_account_type_attr(&s.attrs) {
                    if let Some(at) = parse_struct_account_type(s) {
                        put(&mut accounts, at);
                    }
                }
            },
            Item::Enum(e) => {
                if has_account_type_attr(&e.attrs) {
                    put(&mut accounts, parse_enum_account_type(e));
                }
            },
            _ => {},
        }
        i += 1;
    }
    assert(its.take(i as int) =~= its);
    accounts
}

fn collect_account_refs(accounts: &Vec<IdlAccountType>) -> (r: Vec<String>)
    ensures
        r.deep_view() == account_refs(accounts.deep_view()),
{
    let ghost accs = accounts.deep_view();
    let mut refs: Vec<String> = none();
    let mut i: usize = 0;
    assert(accs.take(0) =~= Seq::empty());
    while i < accounts.len()
        invariant
            i <= accounts.len(),
            accs == accounts.deep_view(),
            refs.deep_view() == account_refs(accs.take(i as int)),
        decreases accounts.len() - i,
    {
        assert(accs.take(i + 1).drop_last() =~= accs.take(i as int));
        assert(accs.take(i + 1).last() == accounts@[i as int].deep_view());
        put_all(&mut refs, collect_defined_refs(&accounts[i].type_));
        i += 1;
    }
    assert(accs.take(i as int) =~= accs);
    refs
}

fn collect_input_refs(func: &ItemFn, refs: &mut Vec<String>)
    ensures
        final(refs).deep_view() == old(refs).deep_view() + input_refs(func.deep_view().inputs),
{
    let ghost inputs = func.deep_view().inputs;
    let ghost start = refs.deep_view();
    let mut i: usize = 0;
    assert(inputs.take(0) =~= Seq::empty());
    assert(start =~= start + Seq::<Seq<char>>::empty());
    while i < func.inputs.len()
        invariant
            i <= func.inputs.len(),
            inputs == func.deep_view().inputs,
            inputs.len() == func.inputs.len(),
            refs.deep_view() == start + input_refs(inputs.take(i as int)),
        decreases func.inputs.len() - i,
    {
        assert(inputs.take(i + 1).drop_last() =~= inputs.take(i as int));
        assert(inputs.take(i + 1).last() == func.inputs@[i as int].deep_view());
        if let FnArg::Typed(p) = &func.inputs[i] {
            if !is_account_shaped(&p.ty) {
                let idl_ty = syn_type_to_idl_type(&p.ty);
                collect_defined_refs_from_type(&idl_ty, refs);
                assert(refs.deep_view() =~= start + input_refs(inputs.take(i + 1)));
            }
        }
        i += 1;
    }
    assert(inputs.take(i as int) =~= inputs);
}

fn collect_instruction_refs(items: &Vec<Item>) -> (r: Vec<String>)
    ensures
        r.deep_view() == instruction_refs(items.deep_view()),
{
    let ghost its = items.deep_view();
    let mut refs: Vec<String> = none();
    let mut i: usize = 0;
    assert(its.take(0) =~= Seq::empty());
    while i < items.len()
        invariant
            i <= items.len(),
            its == items.deep_view(),
            refs.deep_view() == instruction_refs(its.take(i as int)),
        decreases items.len() - i,
    {
        assert(its.take(i + 1).drop_last() =~= its.take(i as int));
        assert(its.take(i + 1).last() == items@[i as int].deep_view());
        if let Item::Fn(f) = &items[i] {
            if has_attr(&f.attrs, "instruction") {
                collect_input_refs(f, &mut refs);
            }
        }
        i += 1;
    }
    assert(its.take(i as int) =~= its);
    refs
}

/// Scan `items` for `#[account_type]`-annotated types and return:
/// - `accounts`: directly annotated types (primary account data layouts)
/// - `types`: helper types referenced by account types but not themselves annotated
///
/// Helper types are resolved transitively: if `Vault` references `VaultStatus`
/// and `VaultStatus` references `StatusFlags`, all three end up in the IDL.
/// Types used only as instruction arguments count as referenced. A name no
/// item defines (e.g. a type of another crate) is left out. Helper types come
/// sorted by name, so the result does not depend on declaration order.
pub fn collect_account_types(items: &Vec<Item>) -> (r: (Vec<IdlAccountType>, Vec<IdlTypeDef>))
    ensures
        r.0.deep_view() == annotated(items.deep_view()),
        are_helpers(items.deep_view(), r.1.deep_view()),
{
    let ghost its = items.deep_view();
    let accounts = collect_annotated(items);
    let mut queue: Vec<String> = collect_account_refs(&accounts);
    put_all(&mut queue, collect_instruction_refs(items));

    let mut seen: Vec<String> = Vec::new();
    let mut a: usize = 0;
    while a < accounts.len()
        invariant
            a <= accounts.len(),
            seen.len() == a,
            forall|j: int| 0 <= j < a ==> (#[trigger] seen@[j])@ == accounts@[j].name@,
        decreases accounts.len() - a,
    {
        seen.push(accounts[a].name.clone());
        a += 1;
    }
    assert(seen.deep_view() =~= annotated(its).map_values(|x: IdlAccountTypeView| x.name));

    let ghost all = root_refs(its) + items_refs(its);
    let mut types: Vec<IdlTypeDef> = none();
    let mut at: usize = 0;
    proof {
        search_start(its, seen.deep_view());
    }
    while at < queue.len()
        invariant
            its == items.deep_view(),
            all == root_refs(its) + items_refs(its),
            search_inv(its, queue.deep_view(), at as int, seen.deep_view(), types.deep_view()),
        decreases
            all.to_set().difference(seen.deep_view().to_set()).len(),
            queue.len() - at,
    {
        let name = queue[at].clone();
        let ghost queue0 = queue.deep_view();
        let ghost seen0 = seen.deep_view();
        let ghost types0 = types.deep_view();
        assert(queue0[at as int] == name@);
        if holds(&seen, name.as_str()) {
            proof {
                search_skip(its, queue0, at as int, seen0, types0);
            }
            at += 1;
            continue ;
        }
        let mut pos: Ghost<int> = Ghost(0);
        match find_and_parse_type(items, name.as_str()) {
            Some(def) => {
                proof {
                    definition_named(its, name@, 0, its.len());
                    assert forall|i: int| 0 <= i < types0.len() implies (#[trigger] types0[i]).name
                        != name@ by {
                        assert(seen0.contains(types0[i].name));
                    }
                }
                put_all(&mut queue, collect_defined_refs(&def));
                pos = insert_by_name(&mut types, def);
            },
            None => {},
        }
        proof {
            search_step(
                its,
                queue0,
                at as int,
                seen0,
                types0,
                queue.deep_view(),
                types.deep_view(),
                pos@,
            );
            seen_shrinks(all, seen0, name@);
        }
        put(&mut seen, name);
        at += 1;
    }
    proof {
        search_done(its, queue.deep_view(), seen.deep_view(), types.deep_view());
    }
    (accounts, types)
}

} // verus!
