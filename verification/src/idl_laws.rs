//! What holds of the IDL on every input.
use crate::account_types;
use crate::attrs;
use crate::dep_walk;
use crate::dep_walk::DepGraphView;
use crate::disk::{ContentsView, DiskView};
use crate::extension;
use crate::extension::discovery;
use crate::extension::discovery_laws;
use crate::extension::gate_laws;
use crate::extension::inject;
use crate::extension::inject::GateLocations;
use crate::extension::{
    CarriersView, EmbedView, PreparedInstructionView, PreparedProgramView, ProgramDepsView,
};
use crate::idl::{IdlAccountTypeView, IdlTypeDefView, SpelIdlView};
use crate::idl_gen;
use crate::idl_gen::{
    AccountConstraintsView, AccountParamView, ArgParamView, IdlDraft, IdlGenErrorView,
    InstructionInfoView,
};
use crate::layouts;
use crate::layouts::CrateItemsView;
use crate::path;
use crate::path::DirPathView;
use crate::scan;
use crate::scan::ScanView;
use crate::source;
use crate::syntax::{AttributeView, EntryView, FnArgView, ItemFnView, ItemModView, ItemView};
use crate::text;
use vstd::prelude::*;

verus! {

// ── Helper types ─────────────────────────────────────────────────────────

proof fn lex_antisymmetric(a: Seq<char>, b: Seq<char>)
    requires
        text::lex_le(a, b),
        text::lex_le(b, a),
    ensures
        a == b,
    decreases a.len(),
{
    if a.len() > 0 && b.len() > 0 {
        lex_antisymmetric(a.skip(1), b.skip(1));
        assert(a =~= seq![a[0]] + a.skip(1));
        assert(b =~= seq![b[0]] + b.skip(1));
    } else {
        assert(a =~= b);
    }
}

proof fn lex_reflexive(a: Seq<char>)
    ensures
        text::lex_le(a, a),
{
    text::lex_total(a, a);
}

proof fn same_up_to(items: Seq<ItemView>, a: Seq<IdlTypeDefView>, b: Seq<IdlTypeDefView>, n: int)
    requires
        account_types::are_helpers(items, a),
        account_types::are_helpers(items, b),
        0 <= n <= a.len(),
        n <= b.len(),
    ensures
        forall|i: int| 0 <= i < n ==> (#[trigger] a[i]) == b[i],
    decreases n,
{
    if n > 0 {
        let i = n - 1;
        same_up_to(items, a, b, i);
        assert(account_types::is_needed(items, a[i].name));
        assert(account_types::is_needed(items, b[i].name));
        let j = choose|j: int| 0 <= j < b.len() && (#[trigger] b[j]).name == a[i].name;
        let k = choose|k: int| 0 <= k < a.len() && (#[trigger] a[k]).name == b[i].name;
        if j < i {
            assert(a[j] == b[j]);
            assert(a[j].name != a[i].name);
        }
        if k < i {
            assert(a[k] == b[k]);
            assert(b[k].name != b[i].name);
        }
        lex_reflexive(a[i].name);
        lex_reflexive(b[i].name);
        assert(text::lex_le(b[i].name, b[j].name));
        assert(text::lex_le(a[i].name, a[k].name));
        lex_antisymmetric(a[i].name, b[i].name);
        assert(a[i] == b[i]);
    }
}

/// The helper types are determined by the items: there is one list of them.
pub proof fn helpers_are_determined(
    items: Seq<ItemView>,
    a: Seq<IdlTypeDefView>,
    b: Seq<IdlTypeDefView>,
)
    requires
        account_types::are_helpers(items, a),
        account_types::are_helpers(items, b),
    ensures
        a == b,
{
    let n = if a.len() <= b.len() {
        a.len() as int
    } else {
        b.len() as int
    };
    same_up_to(items, a, b, n);
    if a.len() > n {
        assert(account_types::is_needed(items, a[n].name));
        let j = choose|j: int| 0 <= j < b.len() && (#[trigger] b[j]).name == a[n].name;
        assert(a[j] == b[j]);
    }
    if b.len() > n {
        assert(account_types::is_needed(items, b[n].name));
        let j = choose|j: int| 0 <= j < a.len() && (#[trigger] a[j]).name == b[n].name;
        assert(a[j] == b[j]);
    }
    assert(a =~= b);
}

/// No type is listed twice: an annotated one is not among the helper types, and
/// no two helper types share a name.
pub proof fn helpers_are_no_accounts(items: Seq<ItemView>, types: Seq<IdlTypeDefView>)
    requires
        account_types::are_helpers(items, types),
    ensures
        forall|i: int|
            0 <= i < types.len() ==> !account_types::is_account_name(
                account_types::annotated(items),
                (#[trigger] types[i]).name,
            ),
        forall|i: int, j: int|
            0 <= i < j < types.len() ==> (#[trigger] types[i]).name != (#[trigger] types[j]).name,
{
    assert forall|i: int| 0 <= i < types.len() implies !account_types::is_account_name(
        account_types::annotated(items),
        (#[trigger] types[i]).name,
    ) by {
        assert(account_types::is_needed(items, types[i].name));
        let steps = choose|steps: nat| account_types::needed_in(items, types[i].name, steps);
        assert(account_types::needed_in(items, types[i].name, steps));
    }
}

// ── Aliases ──────────────────────────────────────────────────────────────

/// The name of a struct, enum or alias.
pub open spec fn called(item: ItemView) -> Option<Seq<char>> {
    match item {
        ItemView::Struct(s) => Some(s.name),
        ItemView::Enum(e) => Some(e.name),
        ItemView::Type(t) => Some(t.name),
        _ => None,
    }
}

spec fn first_called(items: Seq<ItemView>, name: Seq<char>, from: int) -> Option<int>
    decreases items.len() - from,
{
    if from < 0 || from >= items.len() {
        None
    } else if called(items[from]) == Some(name) {
        Some(from)
    } else {
        first_called(items, name, from + 1)
    }
}

/// What the item at `at` defines.
spec fn defined_at(items: Seq<ItemView>, name: Seq<char>, at: Option<int>, hops: nat) -> Option<
    IdlTypeDefView,
> {
    match at {
        None => None,
        Some(i) => match items[i] {
            ItemView::Struct(s) => match account_types::struct_layout(s) {
                Some(l) => Some(account_types::renamed(l.type_, name)),
                None => None,
            },
            ItemView::Enum(e) => Some(
                account_types::renamed(account_types::enum_layout(e).type_, name),
            ),
            ItemView::Type(t) => match account_types::last_name(t.ty) {
                None => None,
                Some(target) => if hops == 0 {
                    None
                } else {
                    match account_types::definition_from(items, target, 0, (hops - 1) as nat) {
                        Some(def) => Some(account_types::renamed(def, name)),
                        None => None,
                    }
                },
            },
            _ => None,
        },
    }
}

proof fn defined_by_first(items: Seq<ItemView>, name: Seq<char>, from: int, hops: nat)
    requires
        0 <= from,
    ensures
        account_types::definition_from(items, name, from, hops) == defined_at(
            items,
            name,
            first_called(items, name, from),
            hops,
        ),
        first_called(items, name, from) matches Some(i) ==> from <= i < items.len() && called(
            items[i],
        ) == Some(name),
    decreases items.len() - from,
{
    if from < items.len() && called(items[from]) != Some(name) {
        defined_by_first(items, name, from + 1, hops);
    }
}

proof fn more_hops(items: Seq<ItemView>, name: Seq<char>, few: nat, many: nat)
    requires
        few <= many,
        account_types::definition_from(items, name, 0, few) is Some,
    ensures
        account_types::definition_from(items, name, 0, many) == account_types::definition_from(
            items,
            name,
            0,
            few,
        ),
    decreases few,
{
    defined_by_first(items, name, 0, few);
    defined_by_first(items, name, 0, many);
    if let Some(i) = first_called(items, name, 0) {
        if let ItemView::Type(t) = items[i] {
            if let Some(target) = account_types::last_name(t.ty) {
                more_hops(items, target, (few - 1) as nat, (many - 1) as nat);
            }
        }
    }
}

/// The items a chain of `hops` aliases goes through, the last of them first.
proof fn chain(items: Seq<ItemView>, name: Seq<char>, hops: nat) -> (r: Seq<int>)
    requires
        account_types::definition_from(items, name, 0, hops) is Some,
        hops > 0 ==> account_types::definition_from(items, name, 0, (hops - 1) as nat) is None,
    ensures
        r.len() == hops + 1,
        r.no_duplicates(),
        forall|j: int|
            0 <= j < r.len() ==> 0 <= (#[trigger] r[j]) < items.len() && called(items[r[j]]) is Some
                && account_types::definition_from(
                items,
                called(items[r[j]])->Some_0,
                0,
                j as nat,
            ) is Some,
    decreases hops,
{
    defined_by_first(items, name, 0, hops);
    let i = first_called(items, name, 0)->Some_0;
    if hops == 0 {
        seq![i]
    } else {
        defined_by_first(items, name, 0, (hops - 1) as nat);
        let target = account_types::last_name(items[i]->Type_0.ty)->Some_0;
        let rest = chain(items, target, (hops - 1) as nat);
        let all = rest.push(i);
        assert forall|a: int, b: int| 0 <= a < b < all.len() implies all[a] != all[b] by {
            if b == rest.len() && all[a] == i {
                assert(account_types::definition_from(
                    items,
                    called(items[rest[a]])->Some_0,
                    0,
                    a as nat,
                ) is Some);
                more_hops(items, name, a as nat, (hops - 1) as nat);
            }
        }
        all
    }
}

proof fn short_enough(items: Seq<ItemView>, name: Seq<char>, hops: nat)
    requires
        account_types::definition_from(items, name, 0, hops) is Some,
    ensures
        account_types::definition_from(items, name, 0, items.len()) is Some,
    decreases hops,
{
    if hops > 0 && account_types::definition_from(items, name, 0, (hops - 1) as nat) is Some {
        short_enough(items, name, (hops - 1) as nat);
    } else {
        let through = chain(items, name, hops);
        through.unique_seq_to_set();
        vstd::set_lib::lemma_int_range(0, items.len() as int);
        let all = vstd::set_lib::set_int_range(0, items.len() as int);
        assert forall|x: int| through.to_set().contains(x) implies all.contains(x) by {
            let j = choose|j: int| 0 <= j < through.len() && through[j] == x;
            assert(0 <= through[j] < items.len());
        }
        vstd::set_lib::lemma_len_subset(through.to_set(), all);
        more_hops(items, name, hops, items.len());
    }
}

/// Aliases are followed to their end: allowing more of them than there are items
/// gives no other definition.
pub proof fn aliases_are_followed_to_their_end(items: Seq<ItemView>, name: Seq<char>, hops: nat)
    requires
        hops >= items.len(),
    ensures
        account_types::definition_from(items, name, 0, hops) == account_types::definition(
            items,
            name,
        ),
{
    if account_types::definition_from(items, name, 0, hops) is Some {
        short_enough(items, name, hops);
    }
    if account_types::definition(items, name) is Some {
        more_hops(items, name, items.len(), hops);
    }
}

// ── Declaration order ────────────────────────────────────────────────────

/// Whether no two structs, enums or aliases among the items share a name.
pub open spec fn declared_once(items: Seq<ItemView>) -> bool {
    forall|i: int, j: int|
        0 <= i < j < items.len() && called(#[trigger] items[i]) is Some ==> called(items[i])
            != called(#[trigger] items[j])
}

/// Whether two lists hold the same items.
spec fn same_members(a: Seq<ItemView>, b: Seq<ItemView>) -> bool {
    forall|x: ItemView| #[trigger] a.contains(x) == b.contains(x)
}

proof fn definition_reordered(a: Seq<ItemView>, b: Seq<ItemView>, name: Seq<char>, hops: nat)
    requires
        same_members(a, b),
        declared_once(a),
    ensures
        account_types::definition_from(a, name, 0, hops) == account_types::definition_from(
            b,
            name,
            0,
            hops,
        ),
    decreases hops,
{
    defined_by_first(a, name, 0, hops);
    defined_by_first(b, name, 0, hops);
    first_called_found(a, name, 0);
    first_called_found(b, name, 0);
    match (first_called(a, name, 0), first_called(b, name, 0)) {
        (Some(i), Some(j)) => {
            assert(b.contains(b[j]));
            assert(a.contains(b[j]));
            let k = choose|k: int| 0 <= k < a.len() && a[k] == b[j];
            if k < i {
                assert(called(a[k]) != called(a[i]));
            } else if i < k {
                assert(called(a[i]) != called(a[k]));
            }
            assert(a[i] == b[j]);
            if let ItemView::Type(t) = a[i] {
                if let Some(target) = account_types::last_name(t.ty) {
                    if hops > 0 {
                        definition_reordered(a, b, target, (hops - 1) as nat);
                    }
                }
            }
        },
        (Some(i), None) => {
            assert(a.contains(a[i]));
            assert(b.contains(a[i]));
            let k = choose|k: int| 0 <= k < b.len() && b[k] == a[i];
            assert(called(b[k]) == Some(name));
        },
        (None, Some(j)) => {
            assert(b.contains(b[j]));
            assert(a.contains(b[j]));
            let k = choose|k: int| 0 <= k < a.len() && a[k] == b[j];
            assert(called(a[k]) == Some(name));
        },
        (None, None) => {},
    }
}

proof fn first_called_found(items: Seq<ItemView>, name: Seq<char>, from: int)
    requires
        0 <= from,
    ensures
        first_called(items, name, from) is None ==> forall|i: int|
            from <= i < items.len() ==> called(#[trigger] items[i]) != Some(name),
    decreases items.len() - from,
{
    if from < items.len() && called(items[from]) != Some(name) {
        first_called_found(items, name, from + 1);
    }
}

proof fn annotated_without(items: Seq<ItemView>, at: int)
    requires
        0 <= at < items.len(),
    ensures
        account_types::annotated(items).to_multiset() == (match account_types::annotated_layout(
            items[at],
        ) {
            Some(l) => account_types::annotated(items.remove(at)).to_multiset().insert(l),
            None => account_types::annotated(items.remove(at)).to_multiset(),
        }),
    decreases items.len(),
{
    let init = items.drop_last();
    let rest = items.remove(at);
    account_types::annotated(init).to_multiset_ensures();
    if at == items.len() - 1 {
        assert(rest =~= init);
    } else {
        assert(rest.drop_last() =~= init.remove(at));
        assert(rest.last() == items.last());
        account_types::annotated(init.remove(at)).to_multiset_ensures();
        annotated_without(init, at);
        let own = account_types::annotated(init.remove(at)).to_multiset();
        if let (Some(l), Some(k)) = (
            account_types::annotated_layout(items[at]),
            account_types::annotated_layout(items.last()),
        ) {
            assert(own.insert(l).insert(k) =~= own.insert(k).insert(l));
        }
    }
}

proof fn annotated_reordered(a: Seq<ItemView>, b: Seq<ItemView>)
    requires
        a.to_multiset() == b.to_multiset(),
    ensures
        account_types::annotated(a).to_multiset() == account_types::annotated(b).to_multiset(),
    decreases a.len(),
{
    a.to_multiset_ensures();
    b.to_multiset_ensures();
    if a.len() > 0 {
        assert(a.contains(a[0]));
        assert(a.to_multiset().count(a[0]) > 0);
        assert(b.to_multiset().count(a[0]) > 0);
        assert(b.contains(a[0]));
        let at = choose|at: int| 0 <= at < b.len() && b[at] == a[0];
        annotated_without(a, 0);
        annotated_without(b, at);
        annotated_reordered(a.remove(0), b.remove(at));
    }
}

proof fn account_refs_from(accounts: Seq<IdlAccountTypeView>, name: Seq<char>)
    ensures
        account_types::account_refs(accounts).contains(name) <==> exists|i: int|
            0 <= i < accounts.len() && account_types::layout_refs(
                (#[trigger] accounts[i]).type_,
            ).contains(name),
    decreases accounts.len(),
{
    if accounts.len() > 0 {
        let init = accounts.drop_last();
        let before = account_types::account_refs(init);
        let own = account_types::layout_refs(accounts.last().type_);
        let all = account_types::account_refs(accounts);
        account_refs_from(init, name);
        if all.contains(name) {
            let k = choose|k: int| 0 <= k < all.len() && all[k] == name;
            if k < before.len() {
                assert(before[k] == name);
                let i = choose|i: int|
                    0 <= i < init.len() && account_types::layout_refs(
                        (#[trigger] init[i]).type_,
                    ).contains(name);
                assert(accounts[i] == init[i]);
            } else {
                assert(own[k - before.len()] == name);
                assert(account_types::layout_refs(accounts[accounts.len() - 1].type_).contains(
                    name,
                ));
            }
        }
        if exists|i: int|
            0 <= i < accounts.len() && account_types::layout_refs(
                (#[trigger] accounts[i]).type_,
            ).contains(name) {
            let i = choose|i: int|
                0 <= i < accounts.len() && account_types::layout_refs(
                    (#[trigger] accounts[i]).type_,
                ).contains(name);
            if i < init.len() {
                assert(init[i] == accounts[i]);
                let k = choose|k: int| 0 <= k < before.len() && before[k] == name;
                assert(all[k] == name);
            } else {
                let k = choose|k: int| 0 <= k < own.len() && own[k] == name;
                assert(all[before.len() + k] == name);
            }
        }
    }
}

/// The names the data arguments of one instruction refer to.
spec fn fn_refs(item: ItemView) -> Seq<Seq<char>> {
    match item {
        ItemView::Fn(f) => if attrs::named(f.attrs, "instruction"@) {
            account_types::input_refs(f.inputs)
        } else {
            Seq::empty()
        },
        _ => Seq::empty(),
    }
}

proof fn instruction_refs_from(items: Seq<ItemView>, name: Seq<char>)
    ensures
        account_types::instruction_refs(items).contains(name) <==> exists|i: int|
            0 <= i < items.len() && fn_refs(#[trigger] items[i]).contains(name),
    decreases items.len(),
{
    if items.len() > 0 {
        let init = items.drop_last();
        let before = account_types::instruction_refs(init);
        let own = fn_refs(items.last());
        let all = account_types::instruction_refs(items);
        assert(all =~= before + own);
        instruction_refs_from(init, name);
        if all.contains(name) {
            let k = choose|k: int| 0 <= k < all.len() && all[k] == name;
            if k < before.len() {
                assert(before[k] == name);
                let i = choose|i: int|
                    0 <= i < init.len() && fn_refs(#[trigger] init[i]).contains(name);
                assert(items[i] == init[i]);
            } else {
                assert(own[k - before.len()] == name);
                assert(fn_refs(items[items.len() - 1]).contains(name));
            }
        }
        if exists|i: int| 0 <= i < items.len() && fn_refs(#[trigger] items[i]).contains(name) {
            let i = choose|i: int|
                0 <= i < items.len() && fn_refs(#[trigger] items[i]).contains(name);
            if i < init.len() {
                assert(init[i] == items[i]);
                let k = choose|k: int| 0 <= k < before.len() && before[k] == name;
                assert(all[k] == name);
            } else {
                let k = choose|k: int| 0 <= k < own.len() && own[k] == name;
                assert(all[before.len() + k] == name);
            }
        }
    }
}

/// Whether two lists of layouts hold the same ones.
spec fn same_layouts(a: Seq<IdlAccountTypeView>, b: Seq<IdlAccountTypeView>) -> bool {
    forall|x: IdlAccountTypeView| #[trigger] a.contains(x) == b.contains(x)
}

proof fn roots_kept(a: Seq<ItemView>, b: Seq<ItemView>, name: Seq<char>)
    requires
        same_members(a, b),
        same_layouts(account_types::annotated(a), account_types::annotated(b)),
        account_types::root_refs(a).contains(name),
    ensures
        account_types::root_refs(b).contains(name),
{
    let (x, y) = (account_types::annotated(a), account_types::annotated(b));
    let (first, second) = (account_types::account_refs(x), account_types::instruction_refs(a));
    let (first2, second2) = (account_types::account_refs(y), account_types::instruction_refs(b));
    account_refs_from(x, name);
    account_refs_from(y, name);
    instruction_refs_from(a, name);
    instruction_refs_from(b, name);
    let k = choose|k: int|
        0 <= k < account_types::root_refs(a).len() && account_types::root_refs(a)[k] == name;
    if k < first.len() {
        assert(first[k] == name);
        let i = choose|i: int|
            0 <= i < x.len() && account_types::layout_refs((#[trigger] x[i]).type_).contains(name);
        assert(x.contains(x[i]));
        let j = choose|j: int| 0 <= j < y.len() && y[j] == x[i];
        assert(account_types::layout_refs(y[j].type_).contains(name));
        let m = choose|m: int| 0 <= m < first2.len() && first2[m] == name;
        assert(account_types::root_refs(b)[m] == name);
    } else {
        assert(second[k - first.len()] == name);
        let i = choose|i: int| 0 <= i < a.len() && fn_refs(#[trigger] a[i]).contains(name);
        assert(a.contains(a[i]));
        let j = choose|j: int| 0 <= j < b.len() && b[j] == a[i];
        assert(fn_refs(b[j]).contains(name));
        let m = choose|m: int| 0 <= m < second2.len() && second2[m] == name;
        assert(account_types::root_refs(b)[first2.len() + m] == name);
    }
}

proof fn account_name_kept(
    a: Seq<IdlAccountTypeView>,
    b: Seq<IdlAccountTypeView>,
    name: Seq<char>,
)
    requires
        same_layouts(a, b),
        account_types::is_account_name(a, name),
    ensures
        account_types::is_account_name(b, name),
{
    let i = choose|i: int| 0 <= i < a.len() && (#[trigger] a[i]).name == name;
    assert(a.contains(a[i]));
    let j = choose|j: int| 0 <= j < b.len() && b[j] == a[i];
    assert(b[j].name == name);
}

proof fn needed_kept(a: Seq<ItemView>, b: Seq<ItemView>, name: Seq<char>, steps: nat)
    requires
        same_members(a, b),
        same_layouts(account_types::annotated(a), account_types::annotated(b)),
        forall|n: Seq<char>| #[trigger]
            account_types::definition(a, n) == account_types::definition(b, n),
        account_types::needed_in(a, name, steps),
    ensures
        account_types::needed_in(b, name, steps),
    decreases steps,
{
    let (x, y) = (account_types::annotated(a), account_types::annotated(b));
    if account_types::is_account_name(y, name) {
        assert(same_layouts(y, x)) by {
            assert forall|l: IdlAccountTypeView| #[trigger] y.contains(l) == x.contains(l) by {
                assert(x.contains(l) == y.contains(l));
            }
        }
        account_name_kept(y, x, name);
    }
    if steps == 0 {
        roots_kept(a, b, name);
    } else {
        let user = choose|user: Seq<char>| #[trigger]
            account_types::uses(a, user, name) && account_types::needed_in(
                a,
                user,
                (steps - 1) as nat,
            );
        needed_kept(a, b, user, (steps - 1) as nat);
        assert(account_types::definition(a, user) == account_types::definition(b, user));
        assert(account_types::uses(b, user, name));
    }
}

/// The order of declarations does not matter: where no two types share a name,
/// the items in any other order have the same helper types, in the same order,
/// and the same annotated layouts.
pub proof fn declaration_order_is_free(
    a: Seq<ItemView>,
    b: Seq<ItemView>,
    types: Seq<IdlTypeDefView>,
    types2: Seq<IdlTypeDefView>,
)
    requires
        a.to_multiset() == b.to_multiset(),
        declared_once(a),
        account_types::are_helpers(a, types),
        account_types::are_helpers(b, types2),
    ensures
        types2 == types,
        account_types::annotated(b).to_multiset() == account_types::annotated(a).to_multiset(),
{
    let (x, y) = (account_types::annotated(a), account_types::annotated(b));
    annotated_reordered(a, b);
    a.to_multiset_ensures();
    b.to_multiset_ensures();
    x.to_multiset_ensures();
    y.to_multiset_ensures();
    assert forall|i: ItemView| #[trigger] a.contains(i) == b.contains(i) by {
        assert(a.contains(i) <==> a.to_multiset().count(i) > 0);
        assert(b.contains(i) <==> b.to_multiset().count(i) > 0);
    }
    assert forall|l: IdlAccountTypeView| #[trigger] x.contains(l) == y.contains(l) by {
        assert(x.to_multiset().count(l) == y.to_multiset().count(l));
    }
    assert(same_members(b, a)) by {
        assert forall|i: ItemView| #[trigger] b.contains(i) == a.contains(i) by {
            assert(a.contains(i) == b.contains(i));
        }
    }
    assert(same_layouts(y, x)) by {
        assert forall|l: IdlAccountTypeView| #[trigger] y.contains(l) == x.contains(l) by {
            assert(x.contains(l) == y.contains(l));
        }
    }
    assert forall|n: Seq<char>| #[trigger]
        account_types::definition(a, n) == account_types::definition(b, n) by {
        definition_reordered(a, b, n, a.len());
    }
    assert forall|n: Seq<char>| #[trigger]
        account_types::definition(b, n) == account_types::definition(a, n) by {
        assert(account_types::definition(a, n) == account_types::definition(b, n));
    }
    assert forall|n: Seq<char>|
        account_types::is_needed(a, n) == #[trigger] account_types::is_needed(b, n) by {
        if account_types::is_needed(a, n) {
            let steps = choose|steps: nat| account_types::needed_in(a, n, steps);
            needed_kept(a, b, n, steps);
        }
        if account_types::is_needed(b, n) {
            let steps = choose|steps: nat| account_types::needed_in(b, n, steps);
            needed_kept(b, a, n, steps);
        }
    }
    assert(account_types::are_helpers(a, types2)) by {
        assert forall|i: int| 0 <= i < types2.len() implies account_types::is_needed(
            a,
            (#[trigger] types2[i]).name,
        ) && account_types::definition(a, types2[i].name) == Some(types2[i]) by {
            assert(account_types::is_needed(b, types2[i].name));
            assert(account_types::definition(b, types2[i].name) == Some(types2[i]));
        }
        assert forall|name: Seq<char>|
            #![trigger account_types::is_needed(a, name)]
            account_types::is_needed(a, name) && account_types::definition(
                a,
                name,
            ) is Some implies exists|i: int|
            0 <= i < types2.len() && (#[trigger] types2[i]).name == name by {
            assert(account_types::is_needed(b, name));
            assert(account_types::definition(b, name) is Some);
        }
    }
    helpers_are_determined(a, types, types2);
}

// ── Owners of layouts ────────────────────────────────────────────────────

proof fn first_declaring_is_first(crates: Seq<CrateItemsView>, name: Seq<char>, from: int)
    requires
        0 <= from <= crates.len(),
    ensures
        from <= layouts::first_declaring(crates, name, from) <= crates.len(),
        layouts::first_declaring(crates, name, from) < crates.len() ==> layouts::declares(
            crates[layouts::first_declaring(crates, name, from)],
            name,
        ),
        forall|i: int|
            from <= i < layouts::first_declaring(crates, name, from) ==> !layouts::declares(
                #[trigger] crates[i],
                name,
            ),
    decreases crates.len() - from,
{
    if from < crates.len() && !layouts::declares(crates[from], name) {
        first_declaring_is_first(crates, name, from + 1);
    }
}

proof fn owned_in_step(
    crates: Seq<CrateItemsView>,
    at: int,
    list: Seq<IdlAccountTypeView>,
    from: int,
)
    requires
        0 <= from <= list.len(),
        0 <= at < crates.len(),
    ensures
        layouts::owned_in(crates, at, list, from) is Ok <==> forall|i: int, k: int|
            0 <= i < at && from <= k < list.len() ==> !layouts::declares(
                #[trigger] crates[i],
                (#[trigger] list[k]).name,
            ),
    decreases list.len() - from,
{
    if from < list.len() {
        let name = list[from].name;
        first_declaring_is_first(crates, name, 0);
        owned_in_step(crates, at, list, from + 1);
        let first = layouts::first_declaring(crates, name, 0);
        if first < at {
            assert(layouts::declares(crates[first], list[from].name));
        } else if layouts::owned_in(crates, at, list, from + 1) is Ok {
            assert forall|i: int, k: int| 0 <= i < at && from <= k < list.len() implies !layouts::declares(
                #[trigger] crates[i],
                (#[trigger] list[k]).name,
            ) by {}
        }
    }
}

proof fn owned_step(crates: Seq<CrateItemsView>, from: int)
    requires
        0 <= from <= crates.len(),
    ensures
        layouts::owned_from(crates, from) is Ok <==> forall|i: int, j: int, name: Seq<char>|
            0 <= i < j < crates.len() && from <= j ==> !(#[trigger] layouts::declares(
                crates[i],
                name,
            ) && #[trigger] layouts::declares(crates[j], name)),
    decreases crates.len() - from,
{
    if from < crates.len() {
        let list = account_types::annotated(crates[from].items);
        owned_in_step(crates, from, list, 0);
        owned_step(crates, from + 1);
        if layouts::owned_in(crates, from, list, 0) is Ok {
            if layouts::owned_from(crates, from + 1) is Ok {
                assert forall|i: int, j: int, name: Seq<char>|
                    0 <= i < j < crates.len() && from <= j implies !(#[trigger] layouts::declares(
                    crates[i],
                    name,
                ) && #[trigger] layouts::declares(crates[j], name)) by {
                    if j == from && layouts::declares(crates[j], name) {
                        let k = choose|k: int| 0 <= k < list.len() && (#[trigger] list[k]).name == name;
                        assert(!layouts::declares(crates[i], list[k].name));
                    }
                }
            }
        } else {
            let (i, k) = choose|i: int, k: int|
                0 <= i < from && 0 <= k < list.len() && layouts::declares(
                    #[trigger] crates[i],
                    (#[trigger] list[k]).name,
                );
            assert(layouts::declares(crates[i], list[k].name));
            assert(layouts::declares(crates[from], list[k].name));
        }
    }
}

/// An account layout has one owner: crates are accepted together exactly when no
/// two of them declare layouts of one name.
pub proof fn accepted_layouts_have_one_owner(crates: Seq<CrateItemsView>)
    ensures
        layouts::owned_from(crates, 0) is Ok <==> forall|i: int, j: int, name: Seq<char>|
            0 <= i < j < crates.len() ==> !(#[trigger] layouts::declares(crates[i], name)
                && #[trigger] layouts::declares(crates[j], name)),
{
    owned_step(crates, 0);
}

proof fn unannotated_is_not_annotated(list: Seq<AttributeView>)
    ensures
        !account_types::is_annotated(layouts::unannotated(list)),
    decreases list.len(),
{
    if list.len() > 0 {
        unannotated_is_not_annotated(list.drop_last());
        let out = layouts::unannotated(list);
        let before = layouts::unannotated(list.drop_last());
        assert forall|i: int| 0 <= i < out.len() implies !(#[trigger] out[i]).path.ends(
            "account_type"@,
        ) by {
            if i < before.len() {
                assert(out[i] == before[i]);
            }
        }
    }
}

proof fn disowned_layouts(items: Seq<ItemView>, names: Seq<Seq<char>>, name: Seq<char>)
    ensures
        names.contains(name) ==> !account_types::is_account_name(
            account_types::annotated(layouts::all_disowned(items, names)),
            name,
        ),
        !names.contains(name) ==> account_types::is_account_name(
            account_types::annotated(layouts::all_disowned(items, names)),
            name,
        ) == account_types::is_account_name(account_types::annotated(items), name),
    decreases items.len(),
{
    let now = layouts::all_disowned(items, names);
    if items.len() > 0 {
        let init = items.drop_last();
        assert(now.drop_last() =~= layouts::all_disowned(init, names));
        disowned_layouts(init, names, name);
        let item = items.last();
        assert(now.last() == layouts::disowned(item, names));
        match item {
            ItemView::Struct(s) => {
                unannotated_is_not_annotated(s.attrs);
            },
            ItemView::Enum(e) => {
                unannotated_is_not_annotated(e.attrs);
            },
            _ => {},
        }
        let a = account_types::annotated(init);
        let b = account_types::annotated(now.drop_last());
        one_more_layout(a, account_types::annotated_layout(item), name);
        one_more_layout(b, account_types::annotated_layout(now.last()), name);
    }
}

proof fn one_more_layout(
    list: Seq<IdlAccountTypeView>,
    more: Option<IdlAccountTypeView>,
    name: Seq<char>,
)
    ensures
        more matches Some(l) ==> account_types::is_account_name(list.push(l), name) == (
        account_types::is_account_name(list, name) || l.name == name),
{
    if let Some(l) = more {
        let all = list.push(l);
        if account_types::is_account_name(list, name) {
            let i = choose|i: int| 0 <= i < list.len() && (#[trigger] list[i]).name == name;
            assert(all[i].name == name);
        }
        if l.name == name {
            assert(all[list.len() as int].name == name);
        }
        if account_types::is_account_name(all, name) {
            let i = choose|i: int| 0 <= i < all.len() && (#[trigger] all[i]).name == name;
            if i < list.len() {
                assert(list[i].name == name);
            }
        }
    }
}

proof fn embedded_type_listed(embeds: Seq<EmbedView>, at: int)
    requires
        0 <= at < embeds.len(),
    ensures
        layouts::embedded_types(embeds, embeds[at].source).contains(
            text::pieces(embeds[at].state_type).last(),
        ),
    decreases embeds.len(),
{
    let owner = embeds[at].source;
    let init = embeds.drop_last();
    let before = layouts::embedded_types(init, owner);
    let all = layouts::embedded_types(embeds, owner);
    let name = text::pieces(embeds[at].state_type).last();
    if at == embeds.len() - 1 {
        assert(all[before.len() as int] == name);
    } else {
        assert(init[at] == embeds[at]);
        embedded_type_listed(init, at);
        let k = choose|k: int| 0 <= k < before.len() && before[k] == name;
        assert(all[k] == name);
    }
}

/// An extension in embedded mode contributes no layout for its config type, and
/// keeps its others.
pub proof fn embedded_types_are_no_layouts(
    embeds: Seq<EmbedView>,
    at: int,
    items: Seq<ItemView>,
    name: Seq<char>,
)
    requires
        0 <= at < embeds.len(),
    ensures
        ({
            let owner = embeds[at].source;
            let names = layouts::embedded_types(embeds, owner);
            let now = CrateItemsView { label: owner, items: layouts::all_disowned(items, names) };
            &&& !layouts::declares(now, text::pieces(embeds[at].state_type).last())
            &&& !names.contains(name) ==> layouts::declares(now, name) == layouts::declares(
                (CrateItemsView { label: owner, items }),
                name,
            )
        }),
{
    let names = layouts::embedded_types(embeds, embeds[at].source);
    embedded_type_listed(embeds, at);
    disowned_layouts(items, names, text::pieces(embeds[at].state_type).last());
    disowned_layouts(items, names, name);
}

proof fn layouts_are_types(items: Seq<ItemView>, name: Seq<char>)
    requires
        account_types::is_account_name(account_types::annotated(items), name),
    ensures
        layouts::type_names(items).contains(name),
    decreases items.len(),
{
    if items.len() > 0 {
        let init = items.drop_last();
        let before = layouts::type_names(init);
        let all = layouts::type_names(items);
        if account_types::is_account_name(account_types::annotated(init), name) {
            layouts_are_types(init, name);
            let i = choose|i: int| 0 <= i < before.len() && before[i] == name;
            assert(all[i] == name);
        } else {
            assert(all.last() == name);
        }
    }
}

proof fn crates_step(
    disk: DiskView,
    dirs: Seq<DirPathView>,
    deps: ProgramDepsView,
    own: Seq<DirPathView>,
    from: int,
    s: ScanView,
    out: Seq<CrateItemsView>,
)
    requires
        0 <= from <= dirs.len(),
    ensures
        ({
            let crates = layouts::crates_from(disk, dirs, deps, own, from, s, out);
            &&& crates.len() == out.len() + dirs.len() - from
            &&& crates.take(out.len() as int) == out
            &&& forall|i: int|
                from <= i < dirs.len() && !layouts::is_connected(
                    disk,
                    deps,
                    own,
                    #[trigger] dirs[i],
                ) ==> has_no_layout(crates[out.len() + i - from])
        }),
    decreases dirs.len() - from,
{
    let crates = layouts::crates_from(disk, dirs, deps, own, from, s, out);
    if from < dirs.len() {
        let after = scan::scan_crate(disk, dirs[from], ScanView { items: Seq::empty(), ..s });
        let names = layouts::disowned_names(disk, deps, own, dirs[from], after.items);
        let here = CrateItemsView {
            label: layouts::crate_label(disk, dirs[from]),
            items: layouts::all_disowned(after.items, names),
        };
        crates_step(disk, dirs, deps, own, from + 1, after, out.push(here));
        assert(crates.take(out.len() as int + 1)[out.len() as int] == here);
        assert(crates.take(out.len() as int) =~= out) by {
            assert forall|i: int| 0 <= i < out.len() implies crates[i] == out[i] by {
                assert(crates.take(out.len() as int + 1)[i] == out.push(here)[i]);
            }
        }
        if !layouts::is_connected(disk, deps, own, dirs[from]) {
            assert forall|name: Seq<char>| !(#[trigger] layouts::declares(here, name)) by {
                disowned_layouts(after.items, names, name);
                if account_types::is_account_name(account_types::annotated(after.items), name) {
                    layouts_are_types(after.items, name);
                }
            }
        }
    } else {
        assert(crates.take(out.len() as int) =~= out);
    }
}

/// Whether a crate declares no layout.
pub open spec fn has_no_layout(c: CrateItemsView) -> bool {
    forall|name: Seq<char>| !(#[trigger] layouts::declares(c, name))
}

/// A crate that merely appears in the dependency graph puts no layout into the
/// IDL: of the crates that are scanned, one that is neither a local path
/// dependency nor an activated extension declares none.
pub proof fn unconnected_crates_have_no_layouts(
    disk: DiskView,
    source_path: DirPathView,
    dirs: Seq<DirPathView>,
    deps: ProgramDepsView,
    at: int,
)
    requires
        0 <= at < dirs.len(),
        !layouts::is_connected(
            disk,
            deps,
            dep_walk::owned_path_dirs(disk, source_path),
            dirs[at],
        ),
    ensures
        has_no_layout(idl_gen::dep_crates(disk, source_path, dirs, deps)[at]),
{
    crates_step(
        disk,
        dirs,
        deps,
        dep_walk::owned_path_dirs(disk, source_path),
        0,
        scan::no_scan(),
        Seq::empty(),
    );
}

proof fn disowned_definition_from(
    items: Seq<ItemView>,
    names: Seq<Seq<char>>,
    name: Seq<char>,
    from: int,
    hops: nat,
)
    requires
        0 <= from,
    ensures
        account_types::definition_from(layouts::all_disowned(items, names), name, from, hops)
            == account_types::definition_from(items, name, from, hops),
    decreases hops, items.len() - from,
{
    let now = layouts::all_disowned(items, names);
    if from < items.len() {
        assert(now[from] == layouts::disowned(items[from], names));
        disowned_definition_from(items, names, name, from + 1, hops);
        if let ItemView::Type(t) = items[from] {
            if let Some(target) = account_types::last_name(t.ty) {
                if hops > 0 {
                    disowned_definition_from(items, names, target, 0, (hops - 1) as nat);
                }
            }
        }
    }
}

/// A type that is no layout is still described where it is referred to: its
/// definition stays.
pub proof fn disowned_types_keep_their_definitions(
    items: Seq<ItemView>,
    names: Seq<Seq<char>>,
    name: Seq<char>,
)
    ensures
        account_types::definition(layouts::all_disowned(items, names), name)
            == account_types::definition(items, name),
{
    disowned_definition_from(items, names, name, 0, items.len());
}

// ── Accounts of an instruction ───────────────────────────────────────────

/// Whether creating an account makes it writable.
pub open spec fn init_is_mutable(c: AccountConstraintsView) -> bool {
    c.init ==> c.mutable
}

proof fn constrain_from_keeps(
    entries: Seq<EntryView>,
    stop: Option<Seq<char>>,
    from: int,
    c: AccountConstraintsView,
)
    requires
        0 <= from,
        init_is_mutable(c),
    ensures
        idl_gen::constrain_from(entries, stop, from, c) matches Ok(d) ==> init_is_mutable(d),
    decreases entries.len() - from,
{
    if from < entries.len() {
        if let Ok(d) = idl_gen::constrain(c, entries[from]) {
            constrain_from_keeps(entries, stop, from + 1, d);
        }
    }
}

proof fn constraints_from_keeps(
    list: Seq<AttributeView>,
    from: int,
    c: AccountConstraintsView,
)
    requires
        0 <= from,
        init_is_mutable(c),
    ensures
        idl_gen::constraints_from(list, from, c) matches Ok(d) ==> init_is_mutable(d),
    decreases list.len() - from,
{
    if from < list.len() {
        if let crate::syntax::AttrFormView::List(l) = list[from].form {
            constrain_from_keeps(l.entries, l.stop, 0, c);
        }
        if let Ok(d) = idl_gen::constrain_by(c, list[from]) {
            constraints_from_keeps(list, from + 1, d);
        }
    }
}

/// Whether accounts are in order: no name twice, and whatever is created is
/// writable.
pub open spec fn accounts_in_order(accounts: Seq<AccountParamView>) -> bool {
    &&& forall|i: int, j: int|
        0 <= i < j < accounts.len() ==> (#[trigger] accounts[i]).name != (
        #[trigger] accounts[j]).name
    &&& forall|i: int|
        0 <= i < accounts.len() ==> init_is_mutable((#[trigger] accounts[i]).constraints)
}

proof fn with_account_keeps(
    accounts: Seq<AccountParamView>,
    account: AccountParamView,
    from: int,
)
    requires
        0 <= from,
        accounts_in_order(accounts),
        init_is_mutable(account.constraints),
        forall|i: int|
            0 <= i < from && i < accounts.len() ==> (#[trigger] accounts[i]).name != account.name,
    ensures
        accounts_in_order(idl_gen::with_account(accounts, account, from)),
    decreases accounts.len() - from,
{
    if from < accounts.len() && accounts[from].name != account.name {
        with_account_keeps(accounts, account, from + 1);
    }
}

proof fn params_from_keeps(
    inputs: Seq<FnArgView>,
    from: int,
    accounts: Seq<AccountParamView>,
    args: Seq<ArgParamView>,
)
    requires
        0 <= from,
        accounts_in_order(accounts),
    ensures
        idl_gen::params_from(inputs, from, accounts, args) matches Ok((a, _)) ==> accounts_in_order(
            a,
        ),
    decreases inputs.len() - from,
{
    if from < inputs.len() {
        if let FnArgView::Typed(p) = inputs[from] {
            if let Some(name) = p.name {
                if idl_gen::account_type(p.ty) || idl_gen::vec_account_type(p.ty) {
                    constraints_from_keeps(p.attrs, 0, idl_gen::unconstrained());
                    if let Ok(constraints) = idl_gen::constraints_from(
                        p.attrs,
                        0,
                        idl_gen::unconstrained(),
                    ) {
                        let account = AccountParamView {
                            name,
                            constraints,
                            is_rest: !idl_gen::account_type(p.ty),
                        };
                        with_account_keeps(accounts, account, 0);
                        params_from_keeps(
                            inputs,
                            from + 1,
                            idl_gen::with_account(accounts, account, 0),
                            args,
                        );
                    }
                } else if idl_gen::context_type(p.ty) {
                    params_from_keeps(inputs, from + 1, accounts, args);
                } else {
                    params_from_keeps(
                        inputs,
                        from + 1,
                        accounts,
                        args.push(ArgParamView { name, ty: p.ty }),
                    );
                }
            }
        }
    }
}

/// An instruction names each account once, and marks as writable whatever it
/// creates.
pub proof fn instruction_accounts_are_in_order(func: ItemFnView)
    ensures
        idl_gen::instruction_of(func) matches Ok(info) ==> accounts_in_order(info.accounts),
{
    params_from_keeps(func.inputs, 0, Seq::empty(), Seq::empty());
}

proof fn shifted(
    a: Seq<FnArgView>,
    b: Seq<FnArgView>,
    at: int,
    from: int,
    accounts: Seq<AccountParamView>,
    args: Seq<ArgParamView>,
)
    requires
        0 <= at < a.len(),
        b == a.remove(at),
        at < from,
    ensures
        idl_gen::params_from(a, from, accounts, args) == idl_gen::params_from(
            b,
            from - 1,
            accounts,
            args,
        ),
    decreases a.len() - from,
{
    if from < a.len() {
        assert(b[from - 1] == a[from]);
        if let FnArgView::Typed(p) = a[from] {
            if let Some(name) = p.name {
                if idl_gen::account_type(p.ty) || idl_gen::vec_account_type(p.ty) {
                    if let Ok(constraints) = idl_gen::constraints_from(
                        p.attrs,
                        0,
                        idl_gen::unconstrained(),
                    ) {
                        let account = AccountParamView {
                            name,
                            constraints,
                            is_rest: !idl_gen::account_type(p.ty),
                        };
                        let more = idl_gen::with_account(accounts, account, 0);
                        shifted(a, b, at, from + 1, more, args);
                    }
                } else if idl_gen::context_type(p.ty) {
                    shifted(a, b, at, from + 1, accounts, args);
                } else {
                    shifted(
                        a,
                        b,
                        at,
                        from + 1,
                        accounts,
                        args.push(ArgParamView { name, ty: p.ty }),
                    );
                }
            }
        }
    }
}

proof fn context_skipped(
    a: Seq<FnArgView>,
    b: Seq<FnArgView>,
    at: int,
    from: int,
    accounts: Seq<AccountParamView>,
    args: Seq<ArgParamView>,
)
    requires
        0 <= from <= at < a.len(),
        b == a.remove(at),
        a[at] matches FnArgView::Typed(p) && p.name is Some && idl_gen::context_type(p.ty),
    ensures
        idl_gen::params_from(a, from, accounts, args) == idl_gen::params_from(
            b,
            from,
            accounts,
            args,
        ),
    decreases at - from,
{
    if from == at {
        reveal_strlit("ProgramContext");
        reveal_strlit("AccountWithMetadata");
        reveal_strlit("Vec");
        assert("ProgramContext"@.len() == 14);
        assert("AccountWithMetadata"@.len() == 19);
        assert("Vec"@.len() == 3);
        shifted(a, b, at, at + 1, accounts, args);
    } else {
        assert(b[from] == a[from]);
        if let FnArgView::Typed(p) = a[from] {
            if let Some(name) = p.name {
                if idl_gen::account_type(p.ty) || idl_gen::vec_account_type(p.ty) {
                    if let Ok(constraints) = idl_gen::constraints_from(
                        p.attrs,
                        0,
                        idl_gen::unconstrained(),
                    ) {
                        let account = AccountParamView {
                            name,
                            constraints,
                            is_rest: !idl_gen::account_type(p.ty),
                        };
                        let more = idl_gen::with_account(accounts, account, 0);
                        context_skipped(a, b, at, from + 1, more, args);
                    }
                } else if idl_gen::context_type(p.ty) {
                    context_skipped(a, b, at, from + 1, accounts, args);
                } else {
                    context_skipped(
                        a,
                        b,
                        at,
                        from + 1,
                        accounts,
                        args.push(ArgParamView { name, ty: p.ty }),
                    );
                }
            }
        }
    }
}

/// The program context is invisible to clients: an instruction reads the same
/// with a context parameter and without it.
pub proof fn program_context_is_invisible(func: ItemFnView, at: int)
    requires
        0 <= at < func.inputs.len(),
        func.inputs[at] matches FnArgView::Typed(p) && p.name is Some && idl_gen::context_type(
            p.ty,
        ),
    ensures
        idl_gen::instruction_of(func) == idl_gen::instruction_of(
            (ItemFnView { inputs: func.inputs.remove(at), ..func }),
        ),
{
    context_skipped(func.inputs, func.inputs.remove(at), at, 0, Seq::empty(), Seq::empty());
}

/// The data arguments among inputs.
pub open spec fn data_args(inputs: Seq<FnArgView>) -> Seq<ArgParamView>
    decreases inputs.len(),
{
    if inputs.len() == 0 {
        Seq::empty()
    } else {
        let before = data_args(inputs.drop_last());
        match inputs.last() {
            FnArgView::Typed(p) => match p.name {
                Some(name) => if account_types::account_shaped(p.ty) {
                    before
                } else {
                    before.push(ArgParamView { name, ty: p.ty })
                },
                None => before,
            },
            FnArgView::Receiver => before,
        }
    }
}

proof fn params_from_args(
    inputs: Seq<FnArgView>,
    from: int,
    accounts: Seq<AccountParamView>,
    args: Seq<ArgParamView>,
)
    requires
        0 <= from <= inputs.len(),
        args == data_args(inputs.take(from)),
    ensures
        idl_gen::params_from(inputs, from, accounts, args) matches Ok((_, a)) ==> a == data_args(
            inputs,
        ),
    decreases inputs.len() - from,
{
    if from == inputs.len() {
        assert(inputs.take(from) =~= inputs);
    } else {
        assert(inputs.take(from + 1).drop_last() =~= inputs.take(from));
        if let FnArgView::Typed(p) = inputs[from] {
            if let Some(name) = p.name {
                if idl_gen::account_type(p.ty) || idl_gen::vec_account_type(p.ty) {
                    if let Ok(constraints) = idl_gen::constraints_from(
                        p.attrs,
                        0,
                        idl_gen::unconstrained(),
                    ) {
                        let account = AccountParamView {
                            name,
                            constraints,
                            is_rest: !idl_gen::account_type(p.ty),
                        };
                        params_from_args(
                            inputs,
                            from + 1,
                            idl_gen::with_account(accounts, account, 0),
                            args,
                        );
                    }
                } else if idl_gen::context_type(p.ty) {
                    params_from_args(inputs, from + 1, accounts, args);
                } else {
                    params_from_args(
                        inputs,
                        from + 1,
                        accounts,
                        args.push(ArgParamView { name, ty: p.ty }),
                    );
                }
            }
        }
    }
}

proof fn data_args_join(a: Seq<FnArgView>, b: Seq<FnArgView>)
    ensures
        data_args(a + b) == data_args(a) + data_args(b),
    decreases b.len(),
{
    if b.len() == 0 {
        assert(a + b =~= a);
        assert(data_args(a) + data_args(b) =~= data_args(a));
    } else {
        assert((a + b).drop_last() =~= a + b.drop_last());
        assert((a + b).last() == b.last());
        data_args_join(a, b.drop_last());
        assert(data_args(a + b) =~= data_args(a) + data_args(b));
    }
}

proof fn accounts_are_no_data(inputs: Seq<FnArgView>)
    requires
        forall|i: int|
            0 <= i < inputs.len() ==> ((#[trigger] inputs[i]) matches FnArgView::Typed(p)
                && idl_gen::account_type(p.ty)),
    ensures
        data_args(inputs) == Seq::<ArgParamView>::empty(),
    decreases inputs.len(),
{
    if inputs.len() > 0 {
        let init = inputs.drop_last();
        assert forall|i: int| 0 <= i < init.len() implies ((
        #[trigger] init[i]) matches FnArgView::Typed(p) && idl_gen::account_type(p.ty)) by {
            assert(init[i] == inputs[i]);
        }
        accounts_are_no_data(init);
        assert(inputs.last() == inputs[inputs.len() - 1]);
    }
}

/// Gating a program's own fn never touches its data arguments: clients encode
/// the same arguments with the extensions and without.
pub proof fn gating_keeps_the_data_arguments(p: PreparedProgramView, func: ItemFnView)
    ensures
        p.gated(func, None) matches Ok((f, _)) ==> (idl_gen::instruction_of(f) matches Ok(now) ==> (
        idl_gen::instruction_of(func) matches Ok(before) ==> now.args == before.args)),
{
    let start = inject::gate_start(func, p.inject_specs, None);
    let pairs = inject::remap_of(p.inject_specs, start);
    let wrapped = inject::wrapped_from(
        p.active_wraps,
        p.inject_specs,
        p.embeds,
        p.locations,
        None,
        crate::attrs::named_params(start.inputs),
        pairs,
        0,
        start.attrs,
    );
    if let Ok(list) = wrapped {
        let g = ItemFnView { attrs: list, ..start };
        gate_laws::injection_only_adds(g, p.inject_specs, pairs);
        if let Ok((f, names)) = inject::injected(g, p.inject_specs, pairs) {
            let at = inject::insert_at(func.inputs);
            let k = names.len() as int;
            let head = func.inputs.take(at);
            let tail = func.inputs.skip(at);
            let new = f.inputs.subrange(at, at + k);
            assert(f.inputs =~= head + new + tail) by {
                assert(f.inputs.take(at) =~= head);
                assert(f.inputs.skip(at + k) =~= tail);
                assert forall|i: int| 0 <= i < f.inputs.len() implies f.inputs[i] == (head + new
                    + tail)[i] by {
                    if i < at {
                        assert(f.inputs.take(at)[i] == head[i]);
                    } else if i >= at + k {
                        assert(f.inputs.skip(at + k)[i - at - k] == tail[i - at - k]);
                    }
                }
            }
            assert(func.inputs =~= head + tail);
            assert forall|i: int| 0 <= i < new.len() implies ((
            #[trigger] new[i]) matches FnArgView::Typed(q) && idl_gen::account_type(q.ty)) by {
                assert(gate_laws::is_account_param(f.inputs[at + i], names[i]));
            }
            accounts_are_no_data(new);
            data_args_join(head + new, tail);
            data_args_join(head, new);
            data_args_join(head, tail);
            assert(data_args(head) + Seq::<ArgParamView>::empty() =~= data_args(head));
            assert(data_args(f.inputs) == data_args(func.inputs));
            assert(f.inputs.take(0) =~= Seq::empty());
            assert(func.inputs.take(0) =~= Seq::empty());
            params_from_args(f.inputs, 0, Seq::empty(), Seq::empty());
            params_from_args(func.inputs, 0, Seq::empty(), Seq::empty());
        }
    }
}

// ── Instructions of a program ────────────────────────────────────────────

proof fn own_listed(
    p: PreparedProgramView,
    fns: Seq<ItemFnView>,
    from: int,
    out: Seq<InstructionInfoView>,
)
    requires
        0 <= from <= fns.len(),
        out.len() == from,
        forall|i: int|
            0 <= i < from ==> (#[trigger] out[i]).fn_name == fns[i].name
                && out[i].external_call_path is None,
    ensures
        idl_gen::gated_from(p, fns, from, out) matches Ok(done) ==> done.len() == fns.len()
            && forall|i: int|
            0 <= i < fns.len() ==> (#[trigger] done[i]).fn_name == fns[i].name
                && done[i].external_call_path is None,
    decreases fns.len() - from,
{
    if from < fns.len() {
        gate_laws::gating_strips_nothing(
            fns[from],
            p.active_wraps,
            p.inject_specs,
            p.embeds,
            p.locations,
            None,
        );
        if let Ok((f, _)) = p.gated(fns[from], None) {
            if let Ok(info) = idl_gen::instruction_of(f) {
                own_listed(p, fns, from + 1, out.push(info));
            }
        }
    }
}

proof fn external_listed(
    p: PreparedProgramView,
    list: Seq<PreparedInstructionView>,
    from: int,
    own: Seq<InstructionInfoView>,
    out: Seq<InstructionInfoView>,
)
    requires
        0 <= from <= list.len(),
        out.len() == own.len() + from,
        out.take(own.len() as int) == own,
        forall|i: int|
            own.len() <= i < out.len() ==> (#[trigger] out[i]).fn_name == list[i
                - own.len()].func.name && out[i].external_call_path == Some(
                idl_gen::call_path(list[i - own.len()].crate_path, out[i].fn_name),
            ),
    ensures
        idl_gen::external_from(p, list, from, out) matches Ok(done) ==> {
            &&& done.len() == own.len() + list.len()
            &&& done.take(own.len() as int) == own
            &&& forall|i: int|
                own.len() <= i < done.len() ==> (#[trigger] done[i]).fn_name == list[i
                    - own.len()].func.name && done[i].external_call_path == Some(
                    idl_gen::call_path(list[i - own.len()].crate_path, done[i].fn_name),
                )
        },
    decreases list.len() - from,
{
    if from < list.len() {
        let x = list[from];
        gate_laws::gating_strips_nothing(
            x.func,
            p.active_wraps,
            p.inject_specs,
            p.embeds,
            p.locations,
            Some(x.qualified),
        );
        if let Ok((f, _)) = p.gated(x.func, Some(x.qualified)) {
            if let Ok(info) = idl_gen::instruction_of(f) {
                let one = InstructionInfoView {
                    external_call_path: Some(idl_gen::call_path(x.crate_path, info.fn_name)),
                    ..info
                };
                assert(out.push(one).take(own.len() as int) =~= own) by {
                    assert forall|i: int| 0 <= i < own.len() implies out.push(one)[i] == own[i] by {
                        assert(out.take(own.len() as int)[i] == own[i]);
                    }
                }
                external_listed(p, list, from + 1, own, out.push(one));
            }
        }
    }
}

/// The IDL lists exactly the instructions the program ships: its own in source
/// order, then each the extensions contribute, called by the path of its crate,
/// and no name twice.
pub proof fn idl_lists_every_instruction(deps: ProgramDepsView, inner: Seq<ItemView>)
    ensures
        idl_gen::all_instructions(deps, inner) matches Ok(infos) ==> {
            let own = discovery::instruction_fns(inner);
            let more = deps.extensions.instructions;
            &&& infos.len() == own.len() + more.len()
            &&& forall|i: int|
                0 <= i < own.len() ==> (#[trigger] infos[i]).fn_name == own[i].name
                    && infos[i].external_call_path is None
            &&& forall|i: int|
                own.len() <= i < infos.len() ==> (#[trigger] infos[i]).fn_name == more[i
                    - own.len()].0.name && infos[i].external_call_path == Some(
                    idl_gen::call_path(more[i - own.len()].1, infos[i].fn_name),
                )
            &&& forall|i: int, j: int|
                0 <= i < j < infos.len() ==> (#[trigger] infos[i]).fn_name != (
                #[trigger] infos[j]).fn_name
        },
{
    if let Ok(p) = extension::prepared(deps, inner, CarriersView::Skip) {
        let fns = discovery::instruction_fns(inner);
        own_listed(p, fns, 0, Seq::empty());
        if let Ok(own) = idl_gen::gated_from(p, fns, 0, Seq::empty()) {
            assert(own.take(own.len() as int) =~= own);
            external_listed(p, p.instructions, 0, own, own);
            if let Ok(infos) = idl_gen::external_from(p, p.instructions, 0, own) {
                let names = idl_gen::labelled(infos);
                discovery_laws::accepted_names_are_distinct(names);
                assert forall|i: int| 0 <= i < own.len() implies (#[trigger] infos[i]).fn_name
                    == fns[i].name && infos[i].external_call_path is None by {
                    assert(infos.take(own.len() as int)[i] == own[i]);
                }
                if extension::unique_from(names, 0) is Ok {
                    assert forall|i: int, j: int| 0 <= i < j < infos.len() implies (
                    #[trigger] infos[i]).fn_name != (#[trigger] infos[j]).fn_name by {
                        assert(names[i].0 == infos[i].fn_name);
                        assert(names[j].0 == infos[j].fn_name);
                    }
                }
            }
        }
    }
}

/// The instruction names of a generated IDL are pairwise distinct.
pub proof fn generated_names_are_distinct(
    disk: DiskView,
    source_path: DirPathView,
    items: Seq<ItemView>,
    dirs: Seq<DirPathView>,
    graph: Option<DepGraphView>,
)
    ensures
        idl_gen::program_draft(disk, source_path, items, dirs, graph).0 matches Ok(d) ==> forall|
            i: int,
            j: int,
        |
            0 <= i < j < d.idl.instructions.len() ==> (#[trigger] d.idl.instructions[i]).name != (
            #[trigger] d.idl.instructions[j]).name,
{
    if let Ok((m, inner)) = idl_gen::opened(items, path::shown(source_path)) {
        if let Ok(deps) = idl_gen::side(disk, source_path, graph, m.attrs, inner).0 {
            idl_lists_every_instruction(deps, inner);
            if let Ok(infos) = idl_gen::all_instructions(deps, inner) {
                let list = infos.map_values(|ix: InstructionInfoView| idl_gen::idl_instruction(ix));
                assert forall|i: int, j: int| 0 <= i < j < list.len() implies (
                #[trigger] list[i]).name != (#[trigger] list[j]).name by {
                    assert(list[i].name == infos[i].fn_name);
                    assert(list[j].name == infos[j].fn_name);
                }
            }
        }
    }
}

/// The entry points agree: generation over the graph of the program's own
/// dependencies describes what generation that resolves the graph itself does.
pub proof fn entry_points_agree(
    disk: DiskView,
    source_path: DirPathView,
    items: Seq<ItemView>,
    dirs: Seq<DirPathView>,
    graph: DepGraphView,
)
    requires
        idl_gen::opened(items, path::shown(source_path)) matches Ok((m, _)) ==> graph
            == dep_walk::dep_graph(disk, source_path, extension::has_candidates(m.attrs)).0,
    ensures
        idl_gen::program_draft(disk, source_path, items, dirs, Some(graph)).0
            == idl_gen::program_draft(disk, source_path, items, dirs, None).0,
{
}

proof fn nothing_authored_on(
    a: AttributeView,
    func: Seq<char>,
    embeds: Seq<EmbedView>,
)
    ensures
        inject::authored_on(a, func, Seq::empty(), embeds, 0) is Ok,
{
}

proof fn nothing_authored(
    list: Seq<AttributeView>,
    func: Seq<char>,
    embeds: Seq<EmbedView>,
    from: int,
)
    requires
        0 <= from,
    ensures
        inject::authored_from(list, func, Seq::empty(), embeds, from) is Ok,
    decreases list.len() - from,
{
    if from < list.len() {
        nothing_authored_on(list[from], func, embeds);
        nothing_authored(list, func, embeds, from + 1);
    }
}

/// What a program without extensions is prepared to.
spec fn is_plain(p: PreparedProgramView) -> bool {
    &&& p.inject_specs.len() == 0
    &&& p.embeds.len() == 0
    &&& p.active_wraps.len() == 0
    &&& p.instructions.len() == 0
    &&& p.locations == GateLocations::Omit
}

proof fn plain_gating(p: PreparedProgramView, f: ItemFnView)
    requires
        is_plain(p),
    ensures
        p.gated(f, None) == Ok::<(ItemFnView, Seq<Seq<char>>), Seq<char>>((f, Seq::empty())),
{
    assert(p.inject_specs =~= Seq::empty());
    nothing_authored(f.attrs, f.name, p.embeds, 0);
    assert(inject::called_for(p.inject_specs, f.attrs) =~= Seq::empty());
}

proof fn plain_instructions(
    p: PreparedProgramView,
    fns: Seq<ItemFnView>,
    from: int,
    out: Seq<InstructionInfoView>,
)
    requires
        is_plain(p),
        0 <= from,
    ensures
        idl_gen::gated_from(p, fns, from, out) == (match idl_gen::instructions_from(
            fns,
            from,
            out,
        ) {
            Ok(infos) => Ok(infos),
            Err(e) => Err(IdlGenErrorView::Parse(e)),
        }),
    decreases fns.len() - from,
{
    if from < fns.len() {
        plain_gating(p, fns[from]);
        if let Ok(info) = idl_gen::instruction_of(fns[from]) {
            plain_instructions(p, fns, from + 1, out.push(info));
        }
    }
}

proof fn one_crate_owns_its_layouts(
    crates: Seq<CrateItemsView>,
    list: Seq<IdlAccountTypeView>,
    from: int,
)
    requires
        0 <= from,
    ensures
        layouts::owned_in(crates, 0, list, from) is Ok,
    decreases list.len() - from,
{
    if from < list.len() {
        first_declaring_is_first(crates, list[from].name, 0);
        one_crate_owns_its_layouts(crates, list, from + 1);
    }
}

/// Whether no attribute of a source's program module could be an extension
/// marker.
pub open spec fn markerless(items: Seq<ItemView>) -> bool {
    idl_gen::program_from(items, 0) matches Some(m) ==> !extension::has_candidates(m.attrs)
}

/// Whether no two instructions of a description share a name.
pub open spec fn names_differ(idl: SpelIdlView) -> bool {
    forall|i: int, j: int|
        0 <= i < j < idl.instructions.len() ==> (#[trigger] idl.instructions[i]).name != (
        #[trigger] idl.instructions[j]).name
}

/// Generation from a file describes what generation from its text does, or
/// fails as that does, where the program module carries nothing that could be
/// an extension marker and no two instructions share a name. A file that cannot
/// be read is an error.
pub proof fn file_and_text_agree(disk: DiskView, source_path: DirPathView)
    ensures
        match disk.read(source_path) {
            ContentsView::Failed(e) => idl_gen::file_draft(
                disk,
                source_path,
                Seq::empty(),
                None,
            ).0 == Err::<IdlDraft, IdlGenErrorView>(IdlGenErrorView::Io(e)),
            ContentsView::Text(content) => {
                let from_text = idl_gen::str_draft(content, path::shown(source_path));
                (source::source_items(content) matches Ok(items) ==> markerless(items)) && (
                from_text matches Ok(d) ==> names_differ(d.idl)) ==> idl_gen::file_draft(
                    disk,
                    source_path,
                    Seq::empty(),
                    None,
                ).0 == from_text
            },
        },
{
    if let ContentsView::Text(content) = disk.read(source_path) {
        let label = path::shown(source_path);
        let from_text = idl_gen::str_draft(content, label);
        if let Ok(items) = source::source_items(content) {
            if markerless(items) && (from_text matches Ok(d) ==> names_differ(d.idl)) {
                if let Ok((m, inner)) = idl_gen::opened(items, label) {
                    plain_program(disk, source_path, items, m, inner);
                }
            }
        }
    }
}

proof fn plain_program(
    disk: DiskView,
    source_path: DirPathView,
    items: Seq<ItemView>,
    m: ItemModView,
    inner: Seq<ItemView>,
)
    requires
        idl_gen::opened(items, path::shown(source_path)) == Ok::<
            (ItemModView, Seq<ItemView>),
            IdlGenErrorView,
        >((m, inner)),
        !extension::has_candidates(m.attrs),
        idl_gen::items_draft(items, path::shown(source_path)) matches Ok(d) ==> names_differ(d.idl),
    ensures
        idl_gen::program_draft(disk, source_path, items, Seq::empty(), None).0
            == idl_gen::items_draft(items, path::shown(source_path)),
{
    let label = path::shown(source_path);
    if let Ok(infos) = idl_gen::own_instructions(inner, label) {
        let deps = idl_gen::side(disk, source_path, None, m.attrs, inner).0->Ok_0;
        let fns = discovery::instruction_fns(inner);
        assert(idl_gen::side(disk, source_path, None, m.attrs, inner).0 is Ok);
        let p = extension::prepared(deps, inner, CarriersView::Skip)->Ok_0;
        assert(extension::prepared(deps, inner, CarriersView::Skip) is Ok);
        assert(is_plain(p));
        plain_instructions(p, fns, 0, Seq::empty());
        let list = idl_gen::labelled(infos);
        let d = idl_gen::items_draft(items, label)->Ok_0;
        assert forall|i: int, j: int| 0 <= i < j < list.len() implies (#[trigger] list[i]).0 != (
        #[trigger] list[j]).0 by {
            assert(d.idl.instructions[i].name == list[i].0);
            assert(d.idl.instructions[j].name == list[j].0);
        }
        discovery_laws::accepted_names_are_distinct(list);
        let more = idl_gen::dep_crates(disk, source_path, Seq::empty(), deps);
        assert(more =~= Seq::empty());
        let crates = layouts::with_program(items + inner, more);
        one_crate_owns_its_layouts(crates, account_types::annotated(crates[0].items), 0);
        assert(layouts::owned_from(crates, 1) is Ok);
    }
}

} // verus!
