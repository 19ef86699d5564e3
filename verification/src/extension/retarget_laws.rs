//! How the instructions of an embedded extension come to use the consumer's account.
use crate::account_laws;
use crate::extension::inject;
use crate::extension::injection_laws;
use crate::extension::remap_laws;
use crate::extension::role_laws;
use crate::extension::{InjectAccountView, InjectSeedView, InjectSpecView};
use crate::syntax::{AttributeView, ExprView, FnArgView, ItemFnView};
use vstd::prelude::*;

verus! {

/// Whether an attribute says that an account lies at `seeds`, and nothing else but
/// that it changes, if it said so before.
pub open spec fn lies_at(
    now: AttributeView,
    before: AttributeView,
    seeds: Seq<InjectSeedView>,
) -> bool {
    let changes = role_laws::attr_flags(before, "mut"@);
    let last: int = if changes {
        1
    } else {
        0
    };
    &&& account_laws::says(now, last, "pda"@)
    &&& now.form->List_0.entries.len() == last + 1
    &&& now.form->List_0.stop is None
    &&& account_laws::value_at(now, last) matches Some(v) && injection_laws::is_expr_of(
        v,
        seeds,
        Seq::empty(),
    )
    &&& changes ==> account_laws::says(now, 0, "mut"@) && account_laws::value_at(now, 0) is None
}

/// Whether an input is another that came to stand for an account: under the account's
/// name and at its address, of the same type and with the same other attributes.
pub open spec fn stands_for(now: FnArgView, before: FnArgView, acc: InjectAccountView) -> bool {
    now matches FnArgView::Typed(q) && (before matches FnArgView::Typed(p) && {
        &&& q.name == Some(acc.name)
        &&& q.ty == p.ty
        &&& q.attrs.len() == p.attrs.len()
        &&& forall|a: int|
            0 <= a < p.attrs.len() ==> if account_laws::just(p.attrs[a].path, "account"@) {
                lies_at(#[trigger] q.attrs[a], p.attrs[a], acc.seeds)
            } else {
                q.attrs[a] == p.attrs[a]
            }
    })
}

/// Whether an input is a parameter called `name`.
pub open spec fn is_called(input: FnArgView, name: Seq<char>) -> bool {
    input matches FnArgView::Typed(p) && p.name == Some(name)
}

/// Whether an embedded account plays the role `name`.
pub open spec fn plays_embedded(acc: InjectAccountView, name: Seq<char>) -> bool {
    acc.embedded && acc.seeds.len() > 0 && acc.role == name
}

proof fn attr_is_moved(a: AttributeView, seeds: Seq<InjectSeedView>, pda: ExprView)
    requires
        injection_laws::is_expr_of(pda, seeds, Seq::empty()),
    ensures
        if account_laws::just(a.path, "account"@) {
            lies_at(inject::retargeted_attr(a, pda), a, seeds)
        } else {
            inject::retargeted_attr(a, pda) == a
        },
{
    account_laws::paths_are_just(a.path, "account"@);
    role_laws::attr_flags_are_carried(a, "mut"@);
    let now = inject::retargeted_attr(a, pda);
    if account_laws::just(a.path, "account"@) {
        let path = seq!["account"@];
        assert(now.path.segments == path);
        if role_laws::attr_flags(a, "mut"@) {
            assert(account_laws::says(now, 0, "mut"@));
            assert(account_laws::says(now, 1, "pda"@));
        } else {
            assert(account_laws::says(now, 0, "pda"@));
        }
    }
}

proof fn seeds_by_their_names(seeds: Seq<InjectSeedView>)
    ensures
        inject::seeds_resolved(seeds, Seq::empty()) == seeds,
{
    assert(inject::seeds_resolved(seeds, Seq::empty()) =~= seeds);
}

proof fn input_is_moved(input: FnArgView, acc: InjectAccountView)
    ensures
        acc.embedded && acc.seeds.len() > 0 && is_called(input, acc.role) ==> stands_for(
            inject::retargeted(input, acc),
            input,
            acc,
        ),
        !(acc.embedded && acc.seeds.len() > 0 && is_called(input, acc.role))
            ==> inject::retargeted(input, acc) == input,
{
    if acc.embedded && acc.seeds.len() > 0 && is_called(input, acc.role) {
        seeds_by_their_names(acc.seeds);
        injection_laws::addresses_are_written(acc.seeds, Seq::empty());
        let pda = inject::seeds_expr(acc.seeds)->Some_0;
        let p = input->Typed_0;
        let q = inject::retargeted(input, acc)->Typed_0;
        assert forall|a: int| 0 <= a < p.attrs.len() implies if account_laws::just(
            p.attrs[a].path,
            "account"@,
        ) {
            lies_at(#[trigger] q.attrs[a], p.attrs[a], acc.seeds)
        } else {
            q.attrs[a] == p.attrs[a]
        } by {
            attr_is_moved(p.attrs[a], acc.seeds, pda);
        }
    }
}

proof fn moved_from(
    inputs: Seq<FnArgView>,
    accounts: Seq<InjectAccountView>,
    from: int,
    start: Seq<FnArgView>,
    i: int,
    acc: InjectAccountView,
)
    requires
        0 <= from <= accounts.len(),
        0 <= i < start.len(),
        inputs.len() == start.len(),
        acc.name != acc.role,
        is_called(start[i], acc.role),
        forall|k: int|
            0 <= k < accounts.len() && plays_embedded(#[trigger] accounts[k], acc.role)
                ==> accounts[k].name == acc.name && accounts[k].seeds == acc.seeds,
        forall|k: int|
            0 <= k < accounts.len() ==> !plays_embedded(#[trigger] accounts[k], acc.name),
        stands_for(inputs[i], start[i], acc) || (inputs[i] == start[i] && exists|k: int|
            from <= k < accounts.len() && plays_embedded(#[trigger] accounts[k], acc.role)),
    ensures
        inject::substituted_from(inputs, accounts, from).len() == start.len(),
        stands_for(inject::substituted_from(inputs, accounts, from)[i], start[i], acc),
    decreases accounts.len() - from,
{
    if from < accounts.len() {
        let own = accounts[from];
        let next = inputs.map_values(|x: FnArgView| inject::retargeted(x, own));
        input_is_moved(inputs[i], own);
        assert(next[i] == inject::retargeted(inputs[i], own));
        if stands_for(inputs[i], start[i], acc) {
            assert(!plays_embedded(own, acc.name));
            assert(next[i] == inputs[i]);
        } else if plays_embedded(own, acc.role) {
            assert(stands_for(next[i], start[i], own));
            assert(stands_for(next[i], start[i], acc));
        } else {
            assert(next[i] == inputs[i]);
        }
        moved_from(next, accounts, from + 1, start, i, acc);
    }
}

proof fn left_from(
    inputs: Seq<FnArgView>,
    accounts: Seq<InjectAccountView>,
    from: int,
    i: int,
)
    requires
        0 <= from <= accounts.len(),
        0 <= i < inputs.len(),
        forall|k: int, name: Seq<char>|
            #![trigger plays_embedded(accounts[k], name)]
            0 <= k < accounts.len() && plays_embedded(accounts[k], name) ==> !is_called(
                inputs[i],
                name,
            ),
    ensures
        inject::substituted_from(inputs, accounts, from).len() == inputs.len(),
        inject::substituted_from(inputs, accounts, from)[i] == inputs[i],
    decreases accounts.len() - from,
{
    if from < accounts.len() {
        let own = accounts[from];
        let next = inputs.map_values(|x: FnArgView| inject::retargeted(x, own));
        input_is_moved(inputs[i], own);
        assert(next[i] == inject::retargeted(inputs[i], own));
        if own.embedded && own.seeds.len() > 0 {
            assert(plays_embedded(own, own.role));
        }
        assert(next[i] == inputs[i]);
        left_from(next, accounts, from + 1, i);
    }
}

/// A parameter of an extension's instruction that plays an embedded role comes to stand
/// for the consumer's account: it takes the account's name and address, keeps its type
/// and its other attributes, and still changes the account if it did. The accounts of
/// one role must be the same, and no role may go by that account's name.
pub proof fn embedded_params_stand_for_the_account(
    func: ItemFnView,
    specs: Seq<InjectSpecView>,
    qualified: Seq<char>,
    acc: InjectAccountView,
    i: int,
)
    requires
        remap_laws::is_declared(specs, acc),
        acc.embedded,
        acc.seeds.len() > 0,
        acc.name != acc.role,
        0 <= i < func.inputs.len(),
        is_called(func.inputs[i], acc.role),
        forall|other: InjectAccountView| #[trigger]
            remap_laws::is_declared(specs, other) ==> {
                &&& plays_embedded(other, acc.role) ==> other.name == acc.name && other.seeds
                    == acc.seeds
                &&& !plays_embedded(other, acc.name)
            },
    ensures
        inject::gate_start(func, specs, Some(qualified)).inputs.len() == func.inputs.len(),
        stands_for(
            inject::gate_start(func, specs, Some(qualified)).inputs[i],
            func.inputs[i],
            acc,
        ),
{
    let accounts = inject::all_accounts(specs);
    assert forall|k: int| 0 <= k < accounts.len() implies remap_laws::is_declared(
        specs,
        #[trigger] accounts[k],
    ) by {
        remap_laws::accounts_are_declared(specs, accounts[k]);
        assert(accounts.contains(accounts[k]));
    }
    remap_laws::accounts_are_declared(specs, acc);
    let k = choose|k: int| 0 <= k < accounts.len() && accounts[k] == acc;
    assert(plays_embedded(accounts[k], acc.role));
    moved_from(func.inputs, accounts, 0, func.inputs, i, acc);
}

/// Any other parameter of an extension's instruction is left as it is, and so is all
/// of a fn of the program itself.
pub proof fn other_params_are_left_alone(
    func: ItemFnView,
    specs: Seq<InjectSpecView>,
    qualified: Seq<char>,
    i: int,
)
    requires
        0 <= i < func.inputs.len(),
        forall|acc: InjectAccountView, name: Seq<char>|
            #![trigger remap_laws::is_declared(specs, acc), plays_embedded(acc, name)]
            remap_laws::is_declared(specs, acc) && plays_embedded(acc, name) ==> !is_called(
                func.inputs[i],
                name,
            ),
    ensures
        inject::gate_start(func, specs, Some(qualified)).inputs.len() == func.inputs.len(),
        inject::gate_start(func, specs, Some(qualified)).inputs[i] == func.inputs[i],
        inject::gate_start(func, specs, Some(qualified)).attrs == func.attrs,
        inject::gate_start(func, specs, Some(qualified)).name == func.name,
        inject::gate_start(func, specs, None) == func,
{
    let accounts = inject::all_accounts(specs);
    assert forall|k: int, name: Seq<char>|
        #![trigger plays_embedded(accounts[k], name)]
        0 <= k < accounts.len() && plays_embedded(accounts[k], name) implies !is_called(
        func.inputs[i],
        name,
    ) by {
        remap_laws::accounts_are_declared(specs, accounts[k]);
        assert(accounts.contains(accounts[k]));
        assert(remap_laws::is_declared(specs, accounts[k]));
    }
    left_from(func.inputs, accounts, 0, i);
}

} // verus!
