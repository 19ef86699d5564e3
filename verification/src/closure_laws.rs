//! What the IDL describes: all that it refers to, as the source declares it.
use crate::account_types;
use crate::attrs;
use crate::idl::{
    IdlAccountTypeView, IdlEnumVariantView, IdlFieldView, IdlTypeDefView, IdlTypeView,
};
use crate::idl_laws;
use crate::syntax::{AttributeView, FieldView, FnArgView, ItemView, TypeView};
use vstd::prelude::*;

verus! {

// ── References ───────────────────────────────────────────────────────────

/// Whether `part` is `whole` or stands inside it, at any depth.
pub open spec fn is_part(part: IdlTypeView, whole: IdlTypeView) -> bool
    decreases whole,
{
    part == whole || match whole {
        IdlTypeView::Vec { vec } => is_part(part, *vec),
        IdlTypeView::Option { option } => is_part(part, *option),
        IdlTypeView::Array { elem, len } => is_part(part, *elem),
        _ => false,
    }
}

/// Whether a type refers to `name`.
pub open spec fn type_mentions(ty: IdlTypeView, name: Seq<char>) -> bool {
    is_part(IdlTypeView::Defined { defined: name }, ty)
}

/// Whether the type of one of the fields refers to `name`.
pub open spec fn fields_mention(fields: Seq<IdlFieldView>, name: Seq<char>) -> bool {
    exists|i: int| 0 <= i < fields.len() && type_mentions((#[trigger] fields[i]).type_, name)
}

/// Whether a layout refers to `name`: in a field of its own or of a variant.
pub open spec fn layout_mentions(def: IdlTypeDefView, name: Seq<char>) -> bool {
    ||| fields_mention(def.fields, name)
    ||| exists|i: int|
        0 <= i < def.variants.len() && fields_mention((#[trigger] def.variants[i]).fields, name)
}

/// Whether a parameter type is that of a data argument: no account, no list of
/// accounts and no program context.
pub open spec fn is_data(ty: TypeView) -> bool {
    match ty {
        TypeView::Named { ident, arg } => {
            &&& ident != "AccountWithMetadata"@
            &&& ident != "ProgramContext"@
            &&& !(ident == "Vec"@ && (arg matches Some(inner) && (*inner matches TypeView::Named {
                ident: of,
                ..
            } && of == "AccountWithMetadata"@)))
        },
        _ => true,
    }
}

/// Whether an item is an instruction with a data argument that refers to `name`.
pub open spec fn argument_mentions(item: ItemView, name: Seq<char>) -> bool {
    item matches ItemView::Fn(f) && {
        &&& exists|a: int|
            0 <= a < f.attrs.len() && (#[trigger] f.attrs[a]).path.segments == seq![
                "instruction"@,
            ] && !f.attrs[a].path.leading_colon
        &&& exists|i: int|
            0 <= i < f.inputs.len() && (#[trigger] f.inputs[i] matches FnArgView::Typed(p)
                && is_data(p.ty) && type_mentions(account_types::idl_type(p.ty), name))
    }
}

proof fn type_ref_listed(ty: IdlTypeView, name: Seq<char>)
    requires
        type_mentions(ty, name),
    ensures
        account_types::type_refs(ty).contains(name),
    decreases ty,
{
    match ty {
        IdlTypeView::Defined { defined } => {
            assert(account_types::type_refs(ty)[0] == name);
        },
        IdlTypeView::Vec { vec } => type_ref_listed(*vec, name),
        IdlTypeView::Option { option } => type_ref_listed(*option, name),
        IdlTypeView::Array { elem, len } => type_ref_listed(*elem, name),
        IdlTypeView::Primitive(_) => {},
    }
}

proof fn in_sum(a: Seq<Seq<char>>, b: Seq<Seq<char>>, name: Seq<char>)
    requires
        a.contains(name) || b.contains(name),
    ensures
        (a + b).contains(name),
{
    if a.contains(name) {
        let k = choose|k: int| 0 <= k < a.len() && a[k] == name;
        assert((a + b)[k] == name);
    } else {
        let k = choose|k: int| 0 <= k < b.len() && b[k] == name;
        assert((a + b)[a.len() + k] == name);
    }
}

proof fn field_ref_listed(fields: Seq<IdlFieldView>, at: int, name: Seq<char>)
    requires
        0 <= at < fields.len(),
        type_mentions(fields[at].type_, name),
    ensures
        account_types::field_refs(fields).contains(name),
    decreases fields.len(),
{
    if at == fields.len() - 1 {
        type_ref_listed(fields.last().type_, name);
    } else {
        field_ref_listed(fields.drop_last(), at, name);
    }
    in_sum(
        account_types::field_refs(fields.drop_last()),
        account_types::type_refs(fields.last().type_),
        name,
    );
}

proof fn variant_ref_listed(variants: Seq<IdlEnumVariantView>, at: int, name: Seq<char>)
    requires
        0 <= at < variants.len(),
        fields_mention(variants[at].fields, name),
    ensures
        account_types::variant_refs(variants).contains(name),
    decreases variants.len(),
{
    if at == variants.len() - 1 {
        let fields = variants.last().fields;
        let i = choose|i: int|
            0 <= i < fields.len() && type_mentions((#[trigger] fields[i]).type_, name);
        field_ref_listed(fields, i, name);
    } else {
        variant_ref_listed(variants.drop_last(), at, name);
    }
    in_sum(
        account_types::variant_refs(variants.drop_last()),
        account_types::field_refs(variants.last().fields),
        name,
    );
}

proof fn layout_ref_listed(def: IdlTypeDefView, name: Seq<char>)
    requires
        layout_mentions(def, name),
    ensures
        account_types::layout_refs(def).contains(name),
{
    if fields_mention(def.fields, name) {
        let i = choose|i: int|
            0 <= i < def.fields.len() && type_mentions((#[trigger] def.fields[i]).type_, name);
        field_ref_listed(def.fields, i, name);
    } else {
        let i = choose|i: int|
            0 <= i < def.variants.len() && fields_mention(
                (#[trigger] def.variants[i]).fields,
                name,
            );
        variant_ref_listed(def.variants, i, name);
    }
    in_sum(
        account_types::field_refs(def.fields),
        account_types::variant_refs(def.variants),
        name,
    );
}

proof fn account_ref_listed(accounts: Seq<IdlAccountTypeView>, at: int, name: Seq<char>)
    requires
        0 <= at < accounts.len(),
        layout_mentions(accounts[at].type_, name),
    ensures
        account_types::account_refs(accounts).contains(name),
    decreases accounts.len(),
{
    if at == accounts.len() - 1 {
        layout_ref_listed(accounts.last().type_, name);
    } else {
        account_ref_listed(accounts.drop_last(), at, name);
    }
    in_sum(
        account_types::account_refs(accounts.drop_last()),
        account_types::layout_refs(accounts.last().type_),
        name,
    );
}

proof fn input_ref_listed(inputs: Seq<FnArgView>, at: int, name: Seq<char>)
    requires
        0 <= at < inputs.len(),
        inputs[at] matches FnArgView::Typed(p) && is_data(p.ty) && type_mentions(
            account_types::idl_type(p.ty),
            name,
        ),
    ensures
        account_types::input_refs(inputs).contains(name),
    decreases inputs.len(),
{
    let before = account_types::input_refs(inputs.drop_last());
    if at == inputs.len() - 1 {
        let ty = inputs[at]->Typed_0.ty;
        type_ref_listed(account_types::idl_type(ty), name);
        in_sum(before, account_types::type_refs(account_types::idl_type(ty)), name);
    } else {
        input_ref_listed(inputs.drop_last(), at, name);
        if let FnArgView::Typed(p) = inputs.last() {
            in_sum(before, account_types::type_refs(account_types::idl_type(p.ty)), name);
        }
    }
}

proof fn argument_ref_listed(items: Seq<ItemView>, at: int, name: Seq<char>)
    requires
        0 <= at < items.len(),
        argument_mentions(items[at], name),
    ensures
        account_types::instruction_refs(items).contains(name),
    decreases items.len(),
{
    let before = account_types::instruction_refs(items.drop_last());
    if at == items.len() - 1 {
        let f = items[at]->Fn_0;
        let a = choose|a: int|
            0 <= a < f.attrs.len() && (#[trigger] f.attrs[a]).path.segments == seq!["instruction"@]
                && !f.attrs[a].path.leading_colon;
        assert(f.attrs[a].path.is("instruction"@));
        assert(attrs::named(f.attrs, "instruction"@));
        let i = choose|i: int|
            0 <= i < f.inputs.len() && (#[trigger] f.inputs[i] matches FnArgView::Typed(p)
                && is_data(p.ty) && type_mentions(account_types::idl_type(p.ty), name));
        input_ref_listed(f.inputs, i, name);
        in_sum(before, account_types::input_refs(f.inputs), name);
    } else {
        argument_ref_listed(items.drop_last(), at, name);
        if let ItemView::Fn(f) = items.last() {
            in_sum(before, account_types::input_refs(f.inputs), name);
        }
    }
}

/// Whether the first of the items called `name` describes it: a struct with named
/// fields, an enum, or an alias, `steps` of which lead to one of these.
pub open spec fn describes(items: Seq<ItemView>, name: Seq<char>, steps: nat) -> bool
    decreases steps,
{
    exists|i: int|
        #![trigger items[i]]
        0 <= i < items.len() && (forall|j: int|
            0 <= j < i ==> idl_laws::called(#[trigger] items[j]) != Some(name)) && match items[i] {
            ItemView::Struct(s) => s.name == name && s.fields is Some,
            ItemView::Enum(e) => e.name == name,
            ItemView::Type(t) => t.name == name && steps > 0 && (
            t.ty matches TypeView::Named { ident, .. } && describes(
                items,
                ident,
                (steps - 1) as nat,
            )),
            _ => false,
        }
}

proof fn described_from(items: Seq<ItemView>, name: Seq<char>, steps: nat, hops: nat)
    requires
        describes(items, name, steps),
        steps <= hops,
    ensures
        account_types::definition_from(items, name, 0, hops) is Some,
    decreases steps, items.len() + 1,
{
    let i = choose|i: int|
        #![trigger items[i]]
        0 <= i < items.len() && (forall|j: int|
            0 <= j < i ==> idl_laws::called(#[trigger] items[j]) != Some(name)) && match items[i] {
            ItemView::Struct(s) => s.name == name && s.fields is Some,
            ItemView::Enum(e) => e.name == name,
            ItemView::Type(t) => t.name == name && steps > 0 && (
            t.ty matches TypeView::Named { ident, .. } && describes(
                items,
                ident,
                (steps - 1) as nat,
            )),
            _ => false,
        };
    described_at(items, name, steps, hops, i, 0);
}

proof fn described_at(
    items: Seq<ItemView>,
    name: Seq<char>,
    steps: nat,
    hops: nat,
    i: int,
    from: int,
)
    requires
        0 <= from <= i < items.len(),
        steps <= hops,
        forall|j: int| 0 <= j < i ==> idl_laws::called(#[trigger] items[j]) != Some(name),
        match items[i] {
            ItemView::Struct(s) => s.name == name && s.fields is Some,
            ItemView::Enum(e) => e.name == name,
            ItemView::Type(t) => t.name == name && steps > 0 && (
            t.ty matches TypeView::Named { ident, .. } && describes(
                items,
                ident,
                (steps - 1) as nat,
            )),
            _ => false,
        },
    ensures
        account_types::definition_from(items, name, from, hops) is Some,
    decreases steps, i - from,
{
    if from < i {
        assert(idl_laws::called(items[from]) != Some(name));
        described_at(items, name, steps, hops, i, from + 1);
    } else if let ItemView::Type(t) = items[i] {
        described_from(items, t.ty->Named_ident, (steps - 1) as nat, (hops - 1) as nat);
    }
}

/// Whether a layout, a helper type or an instruction refers to `name`.
pub open spec fn is_referred_to(
    items: Seq<ItemView>,
    accounts: Seq<IdlAccountTypeView>,
    types: Seq<IdlTypeDefView>,
    name: Seq<char>,
) -> bool {
    ||| exists|i: int|
        0 <= i < accounts.len() && layout_mentions((#[trigger] accounts[i]).type_, name)
    ||| exists|i: int| 0 <= i < types.len() && layout_mentions(#[trigger] types[i], name)
    ||| exists|i: int| 0 <= i < items.len() && argument_mentions(#[trigger] items[i], name)
}

/// Whether one of the layouts or helper types is called `name`.
pub open spec fn is_described(
    accounts: Seq<IdlAccountTypeView>,
    types: Seq<IdlTypeDefView>,
    name: Seq<char>,
) -> bool {
    ||| exists|i: int| 0 <= i < accounts.len() && (#[trigger] accounts[i]).name == name
    ||| exists|i: int| 0 <= i < types.len() && (#[trigger] types[i]).name == name
}

/// The IDL is closed under reference: whatever the field of an account layout, of
/// a helper type, or a data argument of an instruction refers to, at any depth of
/// lists, options and arrays, is described too, if the items describe it.
pub proof fn what_is_referred_to_is_described(
    items: Seq<ItemView>,
    accounts: Seq<IdlAccountTypeView>,
    types: Seq<IdlTypeDefView>,
    name: Seq<char>,
    steps: nat,
)
    requires
        accounts == account_types::annotated(items),
        account_types::are_helpers(items, types),
        describes(items, name, steps),
        is_referred_to(items, accounts, types, name),
    ensures
        is_described(accounts, types, name),
{
    described_from(items, name, steps, steps + items.len());
    idl_laws::aliases_are_followed_to_their_end(items, name, steps + items.len());
    if !account_types::is_account_name(accounts, name) {
        let roots = account_types::account_refs(accounts);
        let args = account_types::instruction_refs(items);
        if exists|i: int|
            0 <= i < accounts.len() && layout_mentions((#[trigger] accounts[i]).type_, name) {
            let i = choose|i: int|
                0 <= i < accounts.len() && layout_mentions((#[trigger] accounts[i]).type_, name);
            account_ref_listed(accounts, i, name);
            in_sum(roots, args, name);
            assert(account_types::needed_in(items, name, 0));
        } else if exists|i: int|
            0 <= i < items.len() && argument_mentions(#[trigger] items[i], name) {
            let i = choose|i: int|
                0 <= i < items.len() && argument_mentions(#[trigger] items[i], name);
            argument_ref_listed(items, i, name);
            in_sum(roots, args, name);
            assert(account_types::needed_in(items, name, 0));
        } else {
            let i = choose|i: int|
                0 <= i < types.len() && layout_mentions(#[trigger] types[i], name);
            layout_ref_listed(types[i], name);
            let user = types[i].name;
            assert(account_types::is_needed(items, user));
            let n = choose|n: nat| account_types::needed_in(items, user, n);
            assert(account_types::uses(items, user, name));
            assert(account_types::needed_in(items, name, n + 1));
        }
        assert(account_types::is_needed(items, name));
    }
}

// ── Descriptions ─────────────────────────────────────────────────────────

/// Types are written as the source declares them: built-in types under their own
/// names, lists, options and arrays around what they hold, and any other type as a
/// reference to its name.
pub proof fn types_are_written_as_declared(ident: Seq<char>, inner: TypeView, len: usize)
    ensures
        account_types::idl_type(
            TypeView::Named { ident: "Vec"@, arg: Some(Box::new(inner)) },
        ) == (IdlTypeView::Vec { vec: Box::new(account_types::idl_type(inner)) }),
        account_types::idl_type(
            TypeView::Named { ident: "Option"@, arg: Some(Box::new(inner)) },
        ) == (IdlTypeView::Option { option: Box::new(account_types::idl_type(inner)) }),
        account_types::idl_type(TypeView::Array { elem: Box::new(inner), len: Some(len) }) == (
        IdlTypeView::Array { elem: Box::new(account_types::idl_type(inner)), len }),
        is_number(ident) || ident == "bool"@ ==> account_types::idl_type(
            TypeView::Named { ident, arg: None },
        ) == IdlTypeView::Primitive(ident),
        account_types::idl_type(TypeView::Named { ident: "String"@, arg: None })
            == IdlTypeView::Primitive("string"@),
        account_types::idl_type(TypeView::Named { ident: "ProgramId"@, arg: None })
            == IdlTypeView::Primitive("program_id"@),
        account_types::idl_type(TypeView::Named { ident: "AccountId"@, arg: None })
            == IdlTypeView::Primitive("account_id"@),
        !is_known(ident) ==> account_types::idl_type(TypeView::Named { ident, arg: None }) == (
        IdlTypeView::Defined { defined: ident }),
{
    reveal_strlit("u8");
    reveal_strlit("u16");
    reveal_strlit("u32");
    reveal_strlit("u64");
    reveal_strlit("u128");
    reveal_strlit("i8");
    reveal_strlit("i16");
    reveal_strlit("i32");
    reveal_strlit("i64");
    reveal_strlit("i128");
    reveal_strlit("bool");
    reveal_strlit("String");
    reveal_strlit("Vec");
    reveal_strlit("Option");
    reveal_strlit("ProgramId");
    reveal_strlit("AccountId");
    assert("Vec"@[0] == 'V' && "Option"@[0] == 'O' && "String"@[0] == 'S');
    assert("ProgramId"@[0] == 'P' && "AccountId"@[0] == 'A');
    assert("u8"@[0] == 'u' && "u16"@[0] == 'u' && "u32"@[0] == 'u' && "u64"@[0] == 'u');
    assert("u128"@[0] == 'u' && "i128"@[0] == 'i' && "bool"@[0] == 'b');
    assert("i8"@[0] == 'i' && "i16"@[0] == 'i' && "i32"@[0] == 'i' && "i64"@[0] == 'i');
}

/// Whether `ident` is an integer type.
pub open spec fn is_number(ident: Seq<char>) -> bool {
    ||| ident == "u8"@ || ident == "u16"@ || ident == "u32"@ || ident == "u64"@
    ||| ident == "u128"@ || ident == "i8"@ || ident == "i16"@ || ident == "i32"@
    ||| ident == "i64"@ || ident == "i128"@
}

/// Whether `ident` is a type the IDL has a form of its own for.
pub open spec fn is_known(ident: Seq<char>) -> bool {
    ||| is_number(ident) || ident == "bool"@ || ident == "String"@ || ident == "Vec"@
    ||| ident == "Option"@ || ident == "ProgramId"@ || ident == "AccountId"@
}

/// Whether fields are described one for one, in their order.
pub open spec fn describe_fields(written: Seq<IdlFieldView>, fields: Seq<FieldView>) -> bool {
    written.len() == fields.len() && forall|i: int|
        0 <= i < fields.len() ==> (#[trigger] written[i]).name == fields[i].name
            && written[i].type_ == account_types::idl_type(fields[i].ty)
}

/// Whether a layout describes an item: a struct by its fields, an enum by its
/// variants and their named fields.
pub open spec fn describes_item(def: IdlTypeDefView, item: ItemView) -> bool {
    match item {
        ItemView::Struct(s) => def.kind == "struct"@ && def.variants.len() == 0 && (
        s.fields matches Some(fields) && describe_fields(def.fields, fields)),
        ItemView::Enum(e) => {
            &&& def.kind == "enum"@
            &&& def.fields.len() == 0
            &&& def.variants.len() == e.variants.len()
            &&& forall|i: int|
                0 <= i < e.variants.len() ==> {
                    &&& (#[trigger] def.variants[i]).name == e.variants[i].name
                    &&& match e.variants[i].fields {
                        Some(fields) => describe_fields(def.variants[i].fields, fields),
                        None => def.variants[i].fields.len() == 0,
                    }
                }
        },
        _ => false,
    }
}

/// Whether one of the attributes is `account_type`, alone or at the end of a path.
pub open spec fn is_marked(list: Seq<AttributeView>) -> bool {
    exists|a: int|
        0 <= a < list.len() && (#[trigger] list[a]).path.segments.len() > 0
            && list[a].path.segments.last() == "account_type"@
}

/// Whether an item declares an account layout called `name`.
pub open spec fn declares_layout(item: ItemView, name: Seq<char>) -> bool {
    match item {
        ItemView::Struct(s) => s.name == name && s.fields is Some && is_marked(s.attrs),
        ItemView::Enum(e) => e.name == name && is_marked(e.attrs),
        _ => false,
    }
}

proof fn layout_describes(item: ItemView, name: Seq<char>)
    ensures
        declares_layout(item, name) <==> (account_types::annotated_layout(item) matches Some(at)
            && at.name == name),
        account_types::annotated_layout(item) matches Some(at) ==> describes_item(at.type_, item),
{
    let list = match item {
        ItemView::Struct(s) => s.attrs,
        ItemView::Enum(e) => e.attrs,
        _ => Seq::empty(),
    };
    if is_marked(list) {
        let a = choose|a: int|
            0 <= a < list.len() && (#[trigger] list[a]).path.segments.len() > 0
                && list[a].path.segments.last() == "account_type"@;
        assert(list[a].path.ends("account_type"@));
        assert(account_types::is_annotated(list));
    }
    if account_types::is_annotated(list) {
        let a = choose|a: int|
            0 <= a < list.len() && (#[trigger] list[a]).path.ends("account_type"@);
        assert(list[a].path.segments.len() > 0);
        assert(is_marked(list));
    }
}

/// The accounts of the IDL are the marked items: each struct with named fields and
/// each enum that carries `#[account_type]` is described under its own name, field
/// by field and variant by variant, and nothing else is an account.
pub proof fn accounts_are_the_marked_items(items: Seq<ItemView>)
    ensures
        forall|i: int, name: Seq<char>|
            0 <= i < items.len() && #[trigger] declares_layout(items[i], name) ==> exists|k: int|
                0 <= k < account_types::annotated(items).len() && (
                #[trigger] account_types::annotated(items)[k]).name == name && describes_item(
                    account_types::annotated(items)[k].type_,
                    items[i],
                ),
        forall|k: int|
            0 <= k < account_types::annotated(items).len() ==> exists|i: int|
                0 <= i < items.len() && declares_layout(
                    items[i],
                    (#[trigger] account_types::annotated(items)[k]).name,
                ) && describes_item(account_types::annotated(items)[k].type_, #[trigger] items[i]),
    decreases items.len(),
{
    let all = account_types::annotated(items);
    if items.len() > 0 {
        let init = items.drop_last();
        let before = account_types::annotated(init);
        accounts_are_the_marked_items(init);
        assert forall|i: int, name: Seq<char>|
            0 <= i < items.len() && #[trigger] declares_layout(items[i], name) implies exists|
            k: int,
        |
            0 <= k < all.len() && (#[trigger] all[k]).name == name && describes_item(
                all[k].type_,
                items[i],
            ) by {
            if i < init.len() {
                assert(init[i] == items[i]);
                assert(declares_layout(init[i], name));
                let k = choose|k: int|
                    0 <= k < before.len() && (#[trigger] before[k]).name == name && describes_item(
                        before[k].type_,
                        init[i],
                    );
                assert(all[k] == before[k]);
            } else {
                layout_describes(items.last(), name);
                assert(all[before.len() as int].name == name);
            }
        }
        assert forall|k: int| 0 <= k < all.len() implies exists|i: int|
            0 <= i < items.len() && declares_layout(items[i], (#[trigger] all[k]).name)
                && describes_item(all[k].type_, #[trigger] items[i]) by {
            if k < before.len() {
                assert(all[k] == before[k]);
                let i = choose|i: int|
                    0 <= i < init.len() && declares_layout(init[i], before[k].name)
                        && describes_item(before[k].type_, #[trigger] init[i]);
                assert(items[i] == init[i]);
            } else {
                layout_describes(items.last(), all[k].name);
                assert(describes_item(all[k].type_, items[items.len() - 1]));
            }
        }
    }
}

proof fn first_item_describes(items: Seq<ItemView>, name: Seq<char>, i: int, from: int, hops: nat)
    requires
        0 <= from <= i < items.len(),
        idl_laws::called(items[i]) == Some(name),
        !(items[i] is Type),
        forall|j: int| 0 <= j < i ==> idl_laws::called(#[trigger] items[j]) != Some(name),
    ensures
        account_types::definition_from(items, name, from, hops) matches Some(def)
            ==> describes_item(def, items[i]),
    decreases i - from,
{
    if from < i {
        assert(idl_laws::called(items[from]) != Some(name));
        first_item_describes(items, name, i, from + 1, hops);
    }
}

/// A helper type describes the item it is named after: the first one called so,
/// where that is a struct or an enum.
pub proof fn helper_types_describe_their_items(
    items: Seq<ItemView>,
    types: Seq<IdlTypeDefView>,
    k: int,
    i: int,
)
    requires
        account_types::are_helpers(items, types),
        0 <= k < types.len(),
        0 <= i < items.len(),
        idl_laws::called(items[i]) == Some(types[k].name),
        !(items[i] is Type),
        forall|j: int| 0 <= j < i ==> idl_laws::called(#[trigger] items[j]) != Some(types[k].name),
    ensures
        describes_item(types[k], items[i]),
{
    first_item_describes(items, types[k].name, i, 0, items.len());
    assert(account_types::definition(items, types[k].name) == Some(types[k]));
}

/// An alias of a helper type is described as what it stands for, under its own
/// name.
pub proof fn aliases_describe_what_they_stand_for(
    items: Seq<ItemView>,
    name: Seq<char>,
    target: Seq<char>,
    i: int,
)
    requires
        0 <= i < items.len(),
        items[i] matches ItemView::Type(t) && t.name == name && (t.ty matches TypeView::Named {
            ident,
            ..
        } && ident == target),
        forall|j: int| 0 <= j < i ==> idl_laws::called(#[trigger] items[j]) != Some(name),
    ensures
        account_types::definition(items, target) matches Some(def) ==> (
        account_types::definition(items, name) matches Some(own) && own.name == name && own.kind
            == def.kind && own.fields == def.fields && own.variants == def.variants),
{
    if account_types::definition(items, target) is Some {
        let hops = items.len() + 1;
        idl_laws::aliases_are_followed_to_their_end(items, name, hops);
        alias_from(items, name, target, i, 0, hops);
    }
}

proof fn alias_from(
    items: Seq<ItemView>,
    name: Seq<char>,
    target: Seq<char>,
    i: int,
    from: int,
    hops: nat,
)
    requires
        0 <= from <= i < items.len(),
        hops > 0,
        items[i] matches ItemView::Type(t) && t.name == name && (t.ty matches TypeView::Named {
            ident,
            ..
        } && ident == target),
        forall|j: int| 0 <= j < i ==> idl_laws::called(#[trigger] items[j]) != Some(name),
    ensures
        account_types::definition_from(items, target, 0, (hops - 1) as nat) matches Some(def) ==> (
        account_types::definition_from(items, name, from, hops) matches Some(own) && own == (
        IdlTypeDefView { name, ..def })),
    decreases i - from,
{
    if from < i {
        assert(idl_laws::called(items[from]) != Some(name));
        alias_from(items, name, target, i, from + 1, hops);
    }
}

// ── Nothing else ─────────────────────────────────────────────────────────

proof fn out_of_sum(a: Seq<Seq<char>>, b: Seq<Seq<char>>, name: Seq<char>)
    requires
        (a + b).contains(name),
    ensures
        a.contains(name) || b.contains(name),
{
    let k = choose|k: int| 0 <= k < (a + b).len() && (a + b)[k] == name;
    if k < a.len() {
        assert(a[k] == name);
    } else {
        assert(b[k - a.len()] == name);
    }
}

proof fn type_ref_mentioned(ty: IdlTypeView, name: Seq<char>)
    requires
        account_types::type_refs(ty).contains(name),
    ensures
        type_mentions(ty, name),
    decreases ty,
{
    match ty {
        IdlTypeView::Defined { defined } => {},
        IdlTypeView::Vec { vec } => type_ref_mentioned(*vec, name),
        IdlTypeView::Option { option } => type_ref_mentioned(*option, name),
        IdlTypeView::Array { elem, len } => type_ref_mentioned(*elem, name),
        IdlTypeView::Primitive(_) => {},
    }
}

proof fn field_ref_mentioned(fields: Seq<IdlFieldView>, name: Seq<char>)
    requires
        account_types::field_refs(fields).contains(name),
    ensures
        fields_mention(fields, name),
    decreases fields.len(),
{
    let init = fields.drop_last();
    out_of_sum(
        account_types::field_refs(init),
        account_types::type_refs(fields.last().type_),
        name,
    );
    if account_types::field_refs(init).contains(name) {
        field_ref_mentioned(init, name);
        let i = choose|i: int|
            0 <= i < init.len() && type_mentions((#[trigger] init[i]).type_, name);
        assert(fields[i] == init[i]);
    } else {
        type_ref_mentioned(fields.last().type_, name);
        assert(type_mentions(fields[fields.len() - 1].type_, name));
    }
}

proof fn variant_ref_mentioned(variants: Seq<IdlEnumVariantView>, name: Seq<char>)
    requires
        account_types::variant_refs(variants).contains(name),
    ensures
        exists|i: int|
            0 <= i < variants.len() && fields_mention((#[trigger] variants[i]).fields, name),
    decreases variants.len(),
{
    let init = variants.drop_last();
    out_of_sum(
        account_types::variant_refs(init),
        account_types::field_refs(variants.last().fields),
        name,
    );
    if account_types::variant_refs(init).contains(name) {
        variant_ref_mentioned(init, name);
        let i = choose|i: int|
            0 <= i < init.len() && fields_mention((#[trigger] init[i]).fields, name);
        assert(variants[i] == init[i]);
    } else {
        field_ref_mentioned(variants.last().fields, name);
        assert(fields_mention(variants[variants.len() - 1].fields, name));
    }
}

proof fn layout_ref_mentioned(def: IdlTypeDefView, name: Seq<char>)
    requires
        account_types::layout_refs(def).contains(name),
    ensures
        layout_mentions(def, name),
{
    out_of_sum(
        account_types::field_refs(def.fields),
        account_types::variant_refs(def.variants),
        name,
    );
    if account_types::field_refs(def.fields).contains(name) {
        field_ref_mentioned(def.fields, name);
    } else {
        variant_ref_mentioned(def.variants, name);
    }
}

proof fn account_ref_mentioned(accounts: Seq<IdlAccountTypeView>, name: Seq<char>)
    requires
        account_types::account_refs(accounts).contains(name),
    ensures
        exists|i: int|
            0 <= i < accounts.len() && layout_mentions((#[trigger] accounts[i]).type_, name),
    decreases accounts.len(),
{
    let init = accounts.drop_last();
    out_of_sum(
        account_types::account_refs(init),
        account_types::layout_refs(accounts.last().type_),
        name,
    );
    if account_types::account_refs(init).contains(name) {
        account_ref_mentioned(init, name);
        let i = choose|i: int|
            0 <= i < init.len() && layout_mentions((#[trigger] init[i]).type_, name);
        assert(accounts[i] == init[i]);
    } else {
        layout_ref_mentioned(accounts.last().type_, name);
        assert(layout_mentions(accounts[accounts.len() - 1].type_, name));
    }
}

/// Whether the type of one of the inputs refers to `name`.
pub open spec fn inputs_mention(inputs: Seq<FnArgView>, name: Seq<char>) -> bool {
    exists|i: int|
        0 <= i < inputs.len() && (#[trigger] inputs[i] matches FnArgView::Typed(p)
            && type_mentions(account_types::idl_type(p.ty), name))
}

/// Whether an item is an instruction with an input that refers to `name`.
pub open spec fn instruction_mentions(item: ItemView, name: Seq<char>) -> bool {
    item matches ItemView::Fn(f) && attrs::named(f.attrs, "instruction"@) && inputs_mention(
        f.inputs,
        name,
    )
}

proof fn input_ref_mentioned(inputs: Seq<FnArgView>, name: Seq<char>)
    requires
        account_types::input_refs(inputs).contains(name),
    ensures
        inputs_mention(inputs, name),
    decreases inputs.len(),
{
    let init = inputs.drop_last();
    let n = inputs.len() - 1;
    if let FnArgView::Typed(p) = inputs.last() {
        if !account_types::account_shaped(p.ty) {
            out_of_sum(
                account_types::input_refs(init),
                account_types::type_refs(account_types::idl_type(p.ty)),
                name,
            );
        }
    }
    if account_types::input_refs(init).contains(name) {
        input_ref_mentioned(init, name);
        let i = choose|i: int|
            0 <= i < init.len() && (#[trigger] init[i] matches FnArgView::Typed(p)
                && type_mentions(account_types::idl_type(p.ty), name));
        assert(inputs[i] == init[i]);
    } else {
        let p = inputs[n]->Typed_0;
        type_ref_mentioned(account_types::idl_type(p.ty), name);
        assert(inputs[n] matches FnArgView::Typed(q) && type_mentions(
            account_types::idl_type(q.ty),
            name,
        ));
    }
}

proof fn instruction_ref_mentioned(items: Seq<ItemView>, name: Seq<char>)
    requires
        account_types::instruction_refs(items).contains(name),
    ensures
        exists|i: int| 0 <= i < items.len() && instruction_mentions(#[trigger] items[i], name),
    decreases items.len(),
{
    let init = items.drop_last();
    let n = items.len() - 1;
    if let ItemView::Fn(f) = items.last() {
        if attrs::named(f.attrs, "instruction"@) {
            out_of_sum(
                account_types::instruction_refs(init),
                account_types::input_refs(f.inputs),
                name,
            );
        }
    }
    if account_types::instruction_refs(init).contains(name) {
        instruction_ref_mentioned(init, name);
        let i = choose|i: int|
            0 <= i < init.len() && instruction_mentions(#[trigger] init[i], name);
        assert(items[i] == init[i]);
    } else {
        input_ref_mentioned(items[n]->Fn_0.inputs, name);
        assert(instruction_mentions(items[n], name));
    }
}

/// Nothing is described for its own sake: a helper type is referred to by an account
/// layout, by another helper type, or by an input of an instruction, and is itself no
/// account layout.
pub proof fn only_what_is_referred_to_is_described(
    items: Seq<ItemView>,
    accounts: Seq<IdlAccountTypeView>,
    types: Seq<IdlTypeDefView>,
    k: int,
)
    requires
        accounts == account_types::annotated(items),
        account_types::are_helpers(items, types),
        0 <= k < types.len(),
    ensures
        (exists|i: int|
            0 <= i < accounts.len() && layout_mentions(
                (#[trigger] accounts[i]).type_,
                types[k].name,
            )) || (exists|i: int|
            0 <= i < types.len() && layout_mentions(#[trigger] types[i], types[k].name)) || (
        exists|i: int|
            0 <= i < items.len() && instruction_mentions(#[trigger] items[i], types[k].name)),
        forall|i: int| 0 <= i < accounts.len() ==> (#[trigger] accounts[i]).name != types[k].name,
{
    let name = types[k].name;
    assert(account_types::is_needed(items, name));
    let steps = choose|steps: nat| account_types::needed_in(items, name, steps);
    if steps == 0 {
        out_of_sum(
            account_types::account_refs(accounts),
            account_types::instruction_refs(items),
            name,
        );
        if account_types::account_refs(accounts).contains(name) {
            account_ref_mentioned(accounts, name);
        } else {
            instruction_ref_mentioned(items, name);
        }
    } else {
        let user = choose|user: Seq<char>| #[trigger]
            account_types::uses(items, user, name) && account_types::needed_in(
                items,
                user,
                (steps - 1) as nat,
            );
        assert(account_types::is_needed(items, user));
        let i = choose|i: int| 0 <= i < types.len() && (#[trigger] types[i]).name == user;
        layout_ref_mentioned(types[i], name);
        assert(layout_mentions(types[i], name));
    }
}

} // verus!
