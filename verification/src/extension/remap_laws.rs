//! Which parameters stand in for a gate's roles.
use crate::attrs;
use crate::extension::inject;
use crate::extension::injection_laws;
use crate::extension::role_laws;
use crate::extension::{InjectAccountView, InjectSeedView, InjectSpecView};
use crate::syntax::{AttributeView, ExprView, FnArgView, ItemFnView, ParamView};
use vstd::prelude::*;

verus! {

// ── Parameters ───────────────────────────────────────────────────────────

/// Whether an input is a parameter with a name.
pub open spec fn is_named(input: FnArgView) -> bool {
    input matches FnArgView::Typed(p) && p.name is Some
}

/// How many of the first `n` inputs are parameters with a name.
#[verifier::opaque]
spec fn named_before(inputs: Seq<FnArgView>, n: int) -> nat
    decreases n,
{
    if n <= 0 {
        0
    } else {
        named_before(inputs, n - 1) + if is_named(inputs[n - 1]) {
            1nat
        } else {
            0nat
        }
    }
}

proof fn named_taken(inputs: Seq<FnArgView>, m: int, n: int)
    requires
        0 <= n <= m <= inputs.len(),
    ensures
        named_before(inputs.take(m), n) == named_before(inputs, n),
    decreases n,
{
    reveal(named_before);
    if n > 0 {
        named_taken(inputs, m, n - 1);
    }
}

proof fn named_are_counted(inputs: Seq<FnArgView>)
    ensures
        attrs::named_params(inputs).len() == named_before(inputs, inputs.len() as int),
        forall|x: int|
            0 <= x < inputs.len() && is_named(#[trigger] inputs[x]) ==> named_before(inputs, x)
                < attrs::named_params(inputs).len() && attrs::named_params(inputs)[named_before(
                inputs,
                x,
            ) as int] == (inputs[x]->Typed_0.name->Some_0, inputs[x]->Typed_0),
    decreases inputs.len(),
{
    let all = attrs::named_params(inputs);
    if inputs.len() == 0 {
        reveal(named_before);
    } else {
        let n = inputs.len() - 1;
        let init = inputs.drop_last();
        named_are_counted(init);
        assert(init =~= inputs.take(n));
        named_taken(inputs, n, n);
        assert(named_before(inputs, n + 1) == named_before(inputs, n) + if is_named(inputs[n]) {
            1nat
        } else {
            0nat
        }) by {
            reveal_with_fuel(named_before, 2);
        }
        assert forall|x: int| 0 <= x < inputs.len() && is_named(
            #[trigger] inputs[x],
        ) implies named_before(inputs, x) < all.len() && all[named_before(inputs, x) as int] == (
            inputs[x]->Typed_0.name->Some_0,
            inputs[x]->Typed_0,
        ) by {
            if x < n {
                assert(init[x] == inputs[x]);
                named_taken(inputs, n, x);
            }
        }
    }
}

/// The place of the `k`-th parameter with a name.
proof fn named_at(inputs: Seq<FnArgView>, n: int, k: int) -> (x: int)
    requires
        0 <= n <= inputs.len(),
        0 <= k < named_before(inputs, n),
    ensures
        0 <= x < n,
        is_named(inputs[x]),
        named_before(inputs, x) == k,
    decreases n,
{
    reveal(named_before);
    if is_named(inputs[n - 1]) && named_before(inputs, n - 1) == k {
        n - 1
    } else {
        named_at(inputs, n - 1, k)
    }
}

proof fn named_grows(inputs: Seq<FnArgView>, a: int, b: int)
    requires
        0 <= a < b <= inputs.len(),
        is_named(inputs[a]),
    ensures
        named_before(inputs, a) < named_before(inputs, b),
    decreases b,
{
    reveal(named_before);
    if a < b - 1 {
        named_grows(inputs, a, b - 1);
    }
}

// ── Stand-ins ────────────────────────────────────────────────────────────

/// Whether input `i` is a parameter called `name` that signs.
pub open spec fn signs(inputs: Seq<FnArgView>, i: int) -> bool {
    0 <= i < inputs.len() && is_named(inputs[i]) && role_laws::is_flagged(
        inputs[i]->Typed_0,
        "signer"@,
    )
}

/// Whether the parameter called `name` is the only one that signs.
pub open spec fn is_only_signer(inputs: Seq<FnArgView>, name: Seq<char>) -> bool {
    exists|i: int| #[trigger]
        signs(inputs, i) && inputs[i]->Typed_0.name == Some(name) && forall|j: int| #[trigger]
            signs(inputs, j) ==> j == i
}

/// Whether a parameter's address is declared by `seeds`: the first of its
/// attributes that declares one is read as these.
pub open spec fn has_address(p: ParamView, seeds: Seq<InjectSeedView>) -> bool {
    exists|a: int, v: ExprView|
        0 <= a < p.attrs.len() && #[trigger] role_laws::attr_declares(p.attrs[a], v)
            && role_laws::are_read_from(v, seeds) && forall|b: int, w: ExprView|
            0 <= b < a ==> !#[trigger] role_laws::attr_declares(p.attrs[b], w)
}

/// Whether the parameter called `name` is the first whose address is `seeds`.
pub open spec fn is_first_at(
    inputs: Seq<FnArgView>,
    name: Seq<char>,
    seeds: Seq<InjectSeedView>,
) -> bool {
    exists|i: int|
        0 <= i < inputs.len() && is_named(#[trigger] inputs[i]) && inputs[i]->Typed_0.name == Some(
            name,
        ) && has_address(inputs[i]->Typed_0, seeds) && forall|j: int|
            0 <= j < i && is_named(#[trigger] inputs[j]) ==> !has_address(
                inputs[j]->Typed_0,
                seeds,
            )
}

proof fn signers_are_counted(params: Seq<(Seq<char>, ParamView)>)
    ensures
        forall|k: int|
            0 <= k < params.len() && role_laws::is_flagged((#[trigger] params[k]).1, "signer"@)
                ==> inject::signers(params).len() > 0,
        inject::signers(params).len() > 0 ==> exists|k: int|
            0 <= k < params.len() && role_laws::is_flagged((#[trigger] params[k]).1, "signer"@),
        inject::signers(params).len() == 1 ==> exists|k: int|
            0 <= k < params.len() && role_laws::is_flagged((#[trigger] params[k]).1, "signer"@)
                && params[k].0 == inject::signers(params)[0] && forall|l: int|
                0 <= l < params.len() && role_laws::is_flagged((#[trigger] params[l]).1, "signer"@)
                    ==> l == k,
        inject::signers(params).len() > 1 ==> exists|k: int, l: int|
            0 <= k < l < params.len() && role_laws::is_flagged((#[trigger] params[k]).1, "signer"@)
                && role_laws::is_flagged((#[trigger] params[l]).1, "signer"@),
    decreases params.len(),
{
    if params.len() > 0 {
        let head = params.drop_last();
        let n = params.len() - 1;
        signers_are_counted(head);
        role_laws::flags_are_read(params[n].1, "signer"@);
        assert forall|k: int| 0 <= k < n implies #[trigger] params[k] == head[k] by {}
        let before = inject::signers(head);
        if before.len() > 0 {
            let k = choose|k: int|
                0 <= k < head.len() && role_laws::is_flagged((#[trigger] head[k]).1, "signer"@);
            assert(params[k] == head[k]);
            if before.len() == 1 {
                let k = choose|k: int|
                    0 <= k < head.len() && role_laws::is_flagged(
                        (#[trigger] head[k]).1,
                        "signer"@,
                    ) && head[k].0 == before[0] && forall|l: int|
                        0 <= l < head.len() && role_laws::is_flagged(
                            (#[trigger] head[l]).1,
                            "signer"@,
                        ) ==> l == k;
                assert(params[k] == head[k]);
                if role_laws::is_flagged(params[n].1, "signer"@) {
                    assert(role_laws::is_flagged(params[k].1, "signer"@));
                } else {
                    assert forall|l: int| 0 <= l < params.len() && role_laws::is_flagged(
                        (#[trigger] params[l]).1,
                        "signer"@,
                    ) implies l == k by {
                        assert(head[l] == params[l]);
                    }
                }
            } else {
                let (k, l) = choose|k: int, l: int|
                    0 <= k < l < head.len() && role_laws::is_flagged(
                        (#[trigger] head[k]).1,
                        "signer"@,
                    ) && role_laws::is_flagged((#[trigger] head[l]).1, "signer"@);
                assert(params[k] == head[k] && params[l] == head[l]);
            }
        } else {
            assert forall|k: int| 0 <= k < n implies !role_laws::is_flagged(
                (#[trigger] params[k]).1,
                "signer"@,
            ) by {
                assert(head[k] == params[k]);
            }
            if role_laws::is_flagged(params[n].1, "signer"@) {
                assert(inject::signers(params)[0] == params[n].0);
            }
        }
    }
}

/// The parameter that stands in for a signer is the only one that signs.
pub proof fn the_sole_signer_is_the_only_one(inputs: Seq<FnArgView>, name: Seq<char>)
    ensures
        inject::sole_signer(attrs::named_params(inputs)) == Some(name) <==> is_only_signer(
            inputs,
            name,
        ),
{
    let params = attrs::named_params(inputs);
    let all = inject::signers(params);
    named_are_counted(inputs);
    signers_are_counted(params);
    if all.len() == 1 && all[0] == name {
        let k = choose|k: int|
            0 <= k < params.len() && role_laws::is_flagged((#[trigger] params[k]).1, "signer"@)
                && params[k].0 == all[0] && forall|l: int|
                0 <= l < params.len() && role_laws::is_flagged((#[trigger] params[l]).1, "signer"@)
                    ==> l == k;
        let x = named_at(inputs, inputs.len() as int, k);
        assert(params[k] == (inputs[x]->Typed_0.name->Some_0, inputs[x]->Typed_0));
        assert(signs(inputs, x));
        assert forall|j: int| #[trigger] signs(inputs, j) implies j == x by {
            let l = named_before(inputs, j) as int;
            assert(params[l] == (inputs[j]->Typed_0.name->Some_0, inputs[j]->Typed_0));
            assert(l == k);
            if j < x {
                named_grows(inputs, j, x);
            } else if x < j {
                named_grows(inputs, x, j);
            }
        }
    }
    if is_only_signer(inputs, name) {
        let i = choose|i: int| #[trigger]
            signs(inputs, i) && inputs[i]->Typed_0.name == Some(name) && forall|j: int| #[trigger]
                signs(inputs, j) ==> j == i;
        let k = named_before(inputs, i) as int;
        assert(params[k] == (name, inputs[i]->Typed_0));
        assert(role_laws::is_flagged(params[k].1, "signer"@));
        if all.len() > 1 {
            let (a, b) = choose|a: int, b: int|
                0 <= a < b < params.len() && role_laws::is_flagged(
                    (#[trigger] params[a]).1,
                    "signer"@,
                ) && role_laws::is_flagged((#[trigger] params[b]).1, "signer"@);
            let x = named_at(inputs, inputs.len() as int, a);
            let y = named_at(inputs, inputs.len() as int, b);
            assert(params[a] == (inputs[x]->Typed_0.name->Some_0, inputs[x]->Typed_0));
            assert(params[b] == (inputs[y]->Typed_0.name->Some_0, inputs[y]->Typed_0));
            assert(signs(inputs, x) && signs(inputs, y));
        }
    }
}

proof fn address_is_read(list: Seq<AttributeView>, from: int, seeds: Seq<InjectSeedView>)
    requires
        0 <= from <= list.len(),
        forall|b: int, w: ExprView|
            0 <= b < from ==> !#[trigger] role_laws::attr_declares(list[b], w),
    ensures
        inject::pda_seeds_from(list, from) == Some(seeds) <==> exists|a: int, v: ExprView|
            0 <= a < list.len() && #[trigger] role_laws::attr_declares(list[a], v)
                && role_laws::are_read_from(v, seeds) && forall|b: int, w: ExprView|
                0 <= b < a ==> !#[trigger] role_laws::attr_declares(list[b], w),
    decreases list.len() - from,
{
    if from < list.len() {
        role_laws::addresses_are_read(list[from]);
        let kept = attrs::keyed(list[from].entries(), "pda"@, 0, None);
        if list[from].path.is("account"@) && kept is Some {
            let v = kept->Some_0;
            assert(role_laws::attr_declares(list[from], v));
            role_laws::seeds_are_read(v);
            assert(role_laws::are_read_from(v, seeds) <==> inject::expr_seeds(v) == Some(seeds));
            if exists|a: int, w: ExprView|
                0 <= a < list.len() && #[trigger] role_laws::attr_declares(list[a], w)
                    && role_laws::are_read_from(w, seeds) && forall|b: int, x: ExprView|
                    0 <= b < a ==> !#[trigger] role_laws::attr_declares(list[b], x) {
                let (a, w) = choose|a: int, w: ExprView|
                    0 <= a < list.len() && #[trigger] role_laws::attr_declares(list[a], w)
                        && role_laws::are_read_from(w, seeds) && forall|b: int, x: ExprView|
                        0 <= b < a ==> !#[trigger] role_laws::attr_declares(list[b], x);
                assert(a == from);
                assert(w == v);
            }
        } else {
            assert forall|w: ExprView| !#[trigger] role_laws::attr_declares(list[from], w) by {}
            address_is_read(list, from + 1, seeds);
        }
    }
}

proof fn declaring_is_first(
    params: Seq<(Seq<char>, ParamView)>,
    seeds: Seq<InjectSeedView>,
    from: int,
    name: Seq<char>,
)
    requires
        0 <= from <= params.len(),
    ensures
        inject::declares_seeds(params, seeds, from) == Some(name) <==> exists|k: int|
            from <= k < params.len() && (#[trigger] params[k]).0 == name && has_address(
                params[k].1,
                seeds,
            ) && forall|l: int|
                from <= l < k ==> !has_address((#[trigger] params[l]).1, seeds),
    decreases params.len() - from,
{
    if from < params.len() {
        address_is_read(params[from].1.attrs, 0, seeds);
        assert(has_address(params[from].1, seeds) == (inject::pda_seeds_from(
            params[from].1.attrs,
            0,
        ) == Some(seeds)));
        declaring_is_first(params, seeds, from + 1, name);
        if has_address(params[from].1, seeds) {
            if inject::declares_seeds(params, seeds, from) == Some(name) {
                assert(params[from].0 == name);
            }
        } else {
            if inject::declares_seeds(params, seeds, from) == Some(name) {
                let k = choose|k: int|
                    from + 1 <= k < params.len() && (#[trigger] params[k]).0 == name && has_address(
                        params[k].1,
                        seeds,
                    ) && forall|l: int|
                        from + 1 <= l < k ==> !has_address((#[trigger] params[l]).1, seeds);
                assert(params[k].0 == name);
                assert forall|l: int| from <= l < k implies !has_address(
                    (#[trigger] params[l]).1,
                    seeds,
                ) by {}
            }
            if exists|k: int|
                from <= k < params.len() && (#[trigger] params[k]).0 == name && has_address(
                    params[k].1,
                    seeds,
                ) && forall|l: int|
                    from <= l < k ==> !has_address((#[trigger] params[l]).1, seeds) {
                let k = choose|k: int|
                    from <= k < params.len() && (#[trigger] params[k]).0 == name && has_address(
                        params[k].1,
                        seeds,
                    ) && forall|l: int|
                        from <= l < k ==> !has_address((#[trigger] params[l]).1, seeds);
                assert(k != from);
                assert(params[k].0 == name);
            }
        }
    }
}

/// The parameter that stands in for an address is the first that declares it.
pub proof fn the_declaring_param_is_the_first(
    inputs: Seq<FnArgView>,
    seeds: Seq<InjectSeedView>,
    name: Seq<char>,
)
    ensures
        inject::declares_seeds(attrs::named_params(inputs), seeds, 0) == Some(name)
            <==> is_first_at(inputs, name, seeds),
{
    let params = attrs::named_params(inputs);
    named_are_counted(inputs);
    declaring_is_first(params, seeds, 0, name);
    if inject::declares_seeds(params, seeds, 0) == Some(name) {
        let k = choose|k: int|
            0 <= k < params.len() && (#[trigger] params[k]).0 == name && has_address(
                params[k].1,
                seeds,
            ) && forall|l: int| 0 <= l < k ==> !has_address((#[trigger] params[l]).1, seeds);
        let x = named_at(inputs, inputs.len() as int, k);
        assert(params[k] == (inputs[x]->Typed_0.name->Some_0, inputs[x]->Typed_0));
        assert forall|j: int| 0 <= j < x && is_named(#[trigger] inputs[j]) implies !has_address(
            inputs[j]->Typed_0,
            seeds,
        ) by {
            named_grows(inputs, j, x);
            let l = named_before(inputs, j) as int;
            assert(params[l] == (inputs[j]->Typed_0.name->Some_0, inputs[j]->Typed_0));
        }
        assert(is_named(inputs[x]));
    }
    if is_first_at(inputs, name, seeds) {
        let i = choose|i: int|
            0 <= i < inputs.len() && is_named(#[trigger] inputs[i]) && inputs[i]->Typed_0.name
                == Some(name) && has_address(inputs[i]->Typed_0, seeds) && forall|j: int|
                0 <= j < i && is_named(#[trigger] inputs[j]) ==> !has_address(
                    inputs[j]->Typed_0,
                    seeds,
                );
        let k = named_before(inputs, i) as int;
        assert(params[k] == (name, inputs[i]->Typed_0));
        assert forall|l: int| 0 <= l < k implies !has_address(
            (#[trigger] params[l]).1,
            seeds,
        ) by {
            let y = named_at(inputs, inputs.len() as int, l);
            assert(params[l] == (inputs[y]->Typed_0.name->Some_0, inputs[y]->Typed_0));
            if y > i {
                named_grows(inputs, i, y);
            }
        }
        assert(params[k].0 == name);
    }
}

// ── The remap ────────────────────────────────────────────────────────────

/// Whether an account is found by itself: it signs, or its address is a constant.
pub open spec fn is_simple(acc: InjectAccountView) -> bool {
    acc.signer || (acc.seeds.len() == 1 && acc.seeds[0] is Const)
}

/// Whether the parameter called `name` plays the role of a simple account: the only
/// signer for a signer, else the first at the account's address.
pub open spec fn plays(
    inputs: Seq<FnArgView>,
    acc: InjectAccountView,
    name: Seq<char>,
) -> bool {
    if acc.signer {
        is_only_signer(inputs, name)
    } else {
        acc.seeds.len() == 1 && acc.seeds[0] is Const && is_first_at(inputs, name, acc.seeds)
    }
}

/// Whether accounts of one name are found alike.
pub open spec fn names_agree(specs: Seq<InjectSpecView>, acc: InjectAccountView) -> bool {
    forall|s: int, a: int|
        #![trigger specs[s].accounts[a]]
        0 <= s < specs.len() && 0 <= a < specs[s].accounts.len() && specs[s].accounts[a].name
            == acc.name ==> specs[s].accounts[a].signer == acc.signer && specs[s].accounts[a].seeds
            == acc.seeds
}

/// Whether an account is one of a spec's.
pub open spec fn is_declared(specs: Seq<InjectSpecView>, acc: InjectAccountView) -> bool {
    exists|s: int, a: int|
        #![trigger specs[s].accounts[a]]
        0 <= s < specs.len() && 0 <= a < specs[s].accounts.len() && specs[s].accounts[a] == acc
}

/// The accounts of specs are all those that one of them declares.
pub proof fn accounts_are_declared(specs: Seq<InjectSpecView>, acc: InjectAccountView)
    ensures
        inject::all_accounts(specs).contains(acc) == is_declared(specs, acc),
    decreases specs.len(),
{
    if specs.len() > 0 {
        let head = specs.drop_last();
        let before = inject::all_accounts(head);
        let all = inject::all_accounts(specs);
        let n = specs.len() - 1;
        accounts_are_declared(head, acc);
        if all.contains(acc) {
            let k = choose|k: int| 0 <= k < all.len() && all[k] == acc;
            if k < before.len() {
                assert(before[k] == acc);
                let (s, a) = choose|s: int, a: int|
                    #![trigger head[s].accounts[a]]
                    0 <= s < head.len() && 0 <= a < head[s].accounts.len() && head[s].accounts[a]
                        == acc;
                assert(specs[s] == head[s]);
                assert(specs[s].accounts[a] == acc);
            } else {
                assert(specs[n].accounts[k - before.len()] == acc);
            }
        }
        if is_declared(specs, acc) {
            let (s, a) = choose|s: int, a: int|
                #![trigger specs[s].accounts[a]]
                0 <= s < specs.len() && 0 <= a < specs[s].accounts.len() && specs[s].accounts[a]
                    == acc;
            if s < n {
                assert(head[s] == specs[s]);
                assert(head[s].accounts[a] == acc);
                let k = choose|k: int| 0 <= k < before.len() && before[k] == acc;
                assert(all[k] == acc);
            } else {
                assert(all[before.len() + a] == acc);
            }
        }
    }
}

/// The parameter that stands in for a simple account.
spec fn found(inputs: Seq<FnArgView>, acc: InjectAccountView) -> Option<Seq<char>> {
    let params = attrs::named_params(inputs);
    if acc.signer {
        inject::sole_signer(params)
    } else if acc.seeds.len() == 1 && acc.seeds[0] is Const {
        inject::declares_seeds(params, acc.seeds, 0)
    } else {
        None
    }
}

proof fn found_plays(inputs: Seq<FnArgView>, acc: InjectAccountView, name: Seq<char>)
    ensures
        found(inputs, acc) == Some(name) <==> plays(inputs, acc, name),
{
    the_sole_signer_is_the_only_one(inputs, name);
    the_declaring_param_is_the_first(inputs, acc.seeds, name);
}

/// What a remap says of a name, where accounts of that name are found alike.
spec fn maps_to(
    pairs: Seq<(Seq<char>, Seq<char>)>,
    name: Seq<char>,
    existing: Option<Seq<char>>,
) -> bool {
    match existing {
        Some(e) => if e == name {
            inject::mapped(pairs, name) is None
        } else {
            inject::mapped(pairs, name) == Some(e)
        },
        None => inject::mapped(pairs, name) is None,
    }
}

proof fn simple_maps(
    accounts: Seq<InjectAccountView>,
    inputs: Seq<FnArgView>,
    from: int,
    pairs: Seq<(Seq<char>, Seq<char>)>,
    acc: InjectAccountView,
)
    requires
        0 <= from <= accounts.len(),
        forall|k: int|
            0 <= k < accounts.len() && (#[trigger] accounts[k]).name == acc.name
                ==> accounts[k].signer == acc.signer && accounts[k].seeds == acc.seeds,
        maps_to(pairs, acc.name, found(inputs, acc)) || (inject::mapped(pairs, acc.name) is None
            && exists|k: int| from <= k < accounts.len() && (#[trigger] accounts[k]).name
            == acc.name),
    ensures
        maps_to(
            inject::simple_remap_from(accounts, attrs::named_params(inputs), from, pairs),
            acc.name,
            found(inputs, acc),
        ),
    decreases accounts.len() - from,
{
    if from < accounts.len() {
        let own = accounts[from];
        let existing = found(inputs, own);
        let next = inject::remapped(pairs, own.name, existing);
        if let Some(e) = existing {
            if e != own.name {
                assert(next.drop_last() =~= pairs);
                assert(next.last() == (own.name, e));
            }
        }
        if own.name == acc.name {
            assert(found(inputs, own) == found(inputs, acc));
            assert(maps_to(next, acc.name, found(inputs, acc)));
        } else {
            assert(inject::mapped(next, acc.name) == inject::mapped(pairs, acc.name));
        }
        simple_maps(accounts, inputs, from + 1, next, acc);
    }
}

proof fn compound_leaves(
    accounts: Seq<InjectAccountView>,
    params: Seq<(Seq<char>, ParamView)>,
    from: int,
    pairs: Seq<(Seq<char>, Seq<char>)>,
    name: Seq<char>,
)
    requires
        0 <= from <= accounts.len(),
        forall|k: int|
            0 <= k < accounts.len() && (#[trigger] accounts[k]).name == name
                ==> accounts[k].seeds.len() < 2,
    ensures
        inject::mapped(inject::compound_remap_from(accounts, params, from, pairs), name)
            == inject::mapped(pairs, name),
    decreases accounts.len() - from,
{
    if from < accounts.len() {
        let acc = accounts[from];
        let existing = if acc.seeds.len() >= 2 {
            inject::declares_seeds(params, inject::seeds_resolved(acc.seeds, pairs), 0)
        } else {
            None
        };
        let next = inject::remapped(pairs, acc.name, existing);
        if let Some(e) = existing {
            if e != acc.name {
                assert(next.drop_last() =~= pairs);
                assert(next.last() == (acc.name, e));
            }
        }
        compound_leaves(accounts, params, from + 1, next, name);
    }
}

/// A role is played by the parameter that fits it, and by no other: a signer goes by
/// the only parameter that signs, an account at a constant address by the first
/// parameter that declares that address, and each by its own name where there is
/// none.
pub proof fn simple_roles_go_by_the_param_that_fits(
    specs: Seq<InjectSpecView>,
    func: ItemFnView,
    acc: InjectAccountView,
)
    requires
        is_declared(specs, acc),
        is_simple(acc),
        acc.seeds.len() < 2,
        names_agree(specs, acc),
    ensures
        forall|name: Seq<char>| #[trigger]
            plays(func.inputs, acc, name) ==> injection_laws::goes_by(
                inject::remap_of(specs, func),
                acc.name,
                name,
            ),
        (forall|name: Seq<char>| !#[trigger] plays(func.inputs, acc, name))
            ==> injection_laws::goes_by(inject::remap_of(specs, func), acc.name, acc.name),
{
    let accounts = inject::all_accounts(specs);
    let params = attrs::named_params(func.inputs);
    let simple = inject::simple_remap_from(accounts, params, 0, Seq::empty());
    let pairs = inject::remap_of(specs, func);
    assert forall|k: int| 0 <= k < accounts.len() && (#[trigger] accounts[k]).name
        == acc.name implies accounts[k].signer == acc.signer && accounts[k].seeds == acc.seeds by {
        accounts_are_declared(specs, accounts[k]);
        assert(accounts.contains(accounts[k]));
        let (s, a) = choose|s: int, a: int|
            #![trigger specs[s].accounts[a]]
            0 <= s < specs.len() && 0 <= a < specs[s].accounts.len() && specs[s].accounts[a]
                == accounts[k];
        assert(specs[s].accounts[a].name == acc.name);
    }
    accounts_are_declared(specs, acc);
    let k = choose|k: int| 0 <= k < accounts.len() && accounts[k] == acc;
    assert(accounts[k].name == acc.name);
    simple_maps(accounts, func.inputs, 0, Seq::empty(), acc);
    compound_leaves(accounts, params, 0, simple, acc.name);
    injection_laws::resolved_names_are_gone_by(pairs, acc.name);
    assert forall|name: Seq<char>| #[trigger] plays(
        func.inputs,
        acc,
        name,
    ) implies injection_laws::goes_by(pairs, acc.name, name) by {
        found_plays(func.inputs, acc, name);
    }
    if forall|name: Seq<char>| !#[trigger] plays(func.inputs, acc, name) {
        if let Some(e) = found(func.inputs, acc) {
            found_plays(func.inputs, acc, e);
        }
    }
}

/// Whether seeds are those of an account in the names of a remap.
pub open spec fn are_renamed(
    now: Seq<InjectSeedView>,
    seeds: Seq<InjectSeedView>,
    pairs: Seq<(Seq<char>, Seq<char>)>,
) -> bool {
    now.len() == seeds.len() && forall|i: int|
        0 <= i < seeds.len() ==> match seeds[i] {
            InjectSeedView::Const(v) => #[trigger] now[i] == InjectSeedView::Const(v),
            InjectSeedView::Account(v) => now[i] matches InjectSeedView::Account(other)
                && injection_laws::goes_by(pairs, v, other),
        }
}

/// Whether every account seed of an account names a role that is found by itself.
pub open spec fn rests_on_simple_roles(
    specs: Seq<InjectSpecView>,
    acc: InjectAccountView,
) -> bool {
    forall|i: int, s: int, a: int|
        #![trigger acc.seeds[i], specs[s].accounts[a]]
        0 <= i < acc.seeds.len() && 0 <= s < specs.len() && 0 <= a < specs[s].accounts.len()
            && acc.seeds[i] == InjectSeedView::Account(specs[s].accounts[a].name)
            ==> specs[s].accounts[a].seeds.len() < 2
}

proof fn renamed_alike(
    seeds: Seq<InjectSeedView>,
    now: Seq<InjectSeedView>,
    pairs: Seq<(Seq<char>, Seq<char>)>,
    others: Seq<(Seq<char>, Seq<char>)>,
)
    requires
        are_renamed(now, seeds, pairs),
        forall|i: int|
            0 <= i < seeds.len() ==> (#[trigger] seeds[i] matches InjectSeedView::Account(v)
                ==> inject::mapped(pairs, v) == inject::mapped(others, v)),
    ensures
        inject::seeds_resolved(seeds, others) == now,
{
    let made = inject::seeds_resolved(seeds, others);
    assert forall|i: int| 0 <= i < seeds.len() implies made[i] == now[i] by {
        let own = now[i];
        if let InjectSeedView::Account(v) = seeds[i] {
            injection_laws::names_gone_by_are_resolved(pairs, v, own->Account_0);
        }
    }
    assert(made =~= now);
}

proof fn compound_maps(
    accounts: Seq<InjectAccountView>,
    inputs: Seq<FnArgView>,
    from: int,
    pairs: Seq<(Seq<char>, Seq<char>)>,
    simple: Seq<(Seq<char>, Seq<char>)>,
    acc: InjectAccountView,
    now: Seq<InjectSeedView>,
    name: Seq<char>,
)
    requires
        0 <= from <= accounts.len(),
        acc.seeds.len() >= 2,
        name != acc.name,
        is_first_at(inputs, name, now),
        are_renamed(now, acc.seeds, simple),
        forall|k: int|
            0 <= k < accounts.len() && (#[trigger] accounts[k]).name == acc.name
                ==> accounts[k].seeds == acc.seeds,
        forall|i: int, k: int|
            #![trigger acc.seeds[i], accounts[k]]
            0 <= i < acc.seeds.len() && 0 <= k < accounts.len() && acc.seeds[i]
                == InjectSeedView::Account(accounts[k].name) ==> accounts[k].seeds.len() < 2,
        forall|i: int|
            0 <= i < acc.seeds.len() ==> (#[trigger] acc.seeds[i] matches InjectSeedView::Account(v)
                ==> inject::mapped(pairs, v) == inject::mapped(simple, v)),
        inject::mapped(pairs, acc.name) == Some(name) || exists|k: int|
            from <= k < accounts.len() && (#[trigger] accounts[k]).name == acc.name,
    ensures
        inject::mapped(
            inject::compound_remap_from(accounts, attrs::named_params(inputs), from, pairs),
            acc.name,
        ) == Some(name),
    decreases accounts.len() - from,
{
    if from < accounts.len() {
        let params = attrs::named_params(inputs);
        let own = accounts[from];
        let existing = if own.seeds.len() >= 2 {
            inject::declares_seeds(params, inject::seeds_resolved(own.seeds, pairs), 0)
        } else {
            None
        };
        let next = inject::remapped(pairs, own.name, existing);
        if let Some(e) = existing {
            if e != own.name {
                assert(next.drop_last() =~= pairs);
                assert(next.last() == (own.name, e));
            }
        }
        if own.name == acc.name {
            assert forall|i: int| 0 <= i < acc.seeds.len() implies (
            #[trigger] acc.seeds[i] matches InjectSeedView::Account(v) ==> inject::mapped(simple, v)
                == inject::mapped(pairs, v)) by {}
            renamed_alike(acc.seeds, now, simple, pairs);
            the_declaring_param_is_the_first(inputs, now, name);
            assert(existing == Some(name));
        }
        assert forall|i: int| 0 <= i < acc.seeds.len() implies (
        #[trigger] acc.seeds[i] matches InjectSeedView::Account(v) ==> inject::mapped(next, v)
            == inject::mapped(simple, v)) by {
            if let InjectSeedView::Account(v) = acc.seeds[i] {
                if v == own.name {
                    assert(acc.seeds[i] == InjectSeedView::Account(accounts[from].name));
                }
            }
        }
        compound_maps(accounts, inputs, from + 1, next, simple, acc, now, name);
    }
}

/// A role at a compound address is played by the first parameter that declares that
/// address in the names of the fn, where the roles it rests on are found by
/// themselves.
pub proof fn compound_roles_go_by_the_param_at_their_address(
    specs: Seq<InjectSpecView>,
    func: ItemFnView,
    acc: InjectAccountView,
    now: Seq<InjectSeedView>,
    name: Seq<char>,
)
    requires
        is_declared(specs, acc),
        acc.seeds.len() >= 2,
        name != acc.name,
        names_agree(specs, acc),
        rests_on_simple_roles(specs, acc),
        are_renamed(now, acc.seeds, inject::remap_of(specs, func)),
        is_first_at(func.inputs, name, now),
    ensures
        injection_laws::goes_by(inject::remap_of(specs, func), acc.name, name),
{
    let accounts = inject::all_accounts(specs);
    let params = attrs::named_params(func.inputs);
    let simple = inject::simple_remap_from(accounts, params, 0, Seq::empty());
    let pairs = inject::remap_of(specs, func);
    assert forall|k: int| 0 <= k < accounts.len() implies exists|s: int, a: int|
        #![trigger specs[s].accounts[a]]
        0 <= s < specs.len() && 0 <= a < specs[s].accounts.len() && specs[s].accounts[a]
            == #[trigger] accounts[k] by {
        accounts_are_declared(specs, accounts[k]);
        assert(accounts.contains(accounts[k]));
    }
    assert forall|k: int| 0 <= k < accounts.len() && (#[trigger] accounts[k]).name
        == acc.name implies accounts[k].seeds == acc.seeds by {
        let (s, a) = choose|s: int, a: int|
            #![trigger specs[s].accounts[a]]
            0 <= s < specs.len() && 0 <= a < specs[s].accounts.len() && specs[s].accounts[a]
                == accounts[k];
        assert(specs[s].accounts[a].name == acc.name);
    }
    assert forall|i: int, k: int|
        #![trigger acc.seeds[i], accounts[k]]
        0 <= i < acc.seeds.len() && 0 <= k < accounts.len() && acc.seeds[i]
            == InjectSeedView::Account(accounts[k].name) implies accounts[k].seeds.len() < 2 by {
        let (s, a) = choose|s: int, a: int|
            #![trigger specs[s].accounts[a]]
            0 <= s < specs.len() && 0 <= a < specs[s].accounts.len() && specs[s].accounts[a]
                == accounts[k];
        assert(acc.seeds[i] == InjectSeedView::Account(specs[s].accounts[a].name));
    }
    accounts_are_declared(specs, acc);
    let k = choose|k: int| 0 <= k < accounts.len() && accounts[k] == acc;
    assert(accounts[k].name == acc.name);
    assert forall|i: int| 0 <= i < acc.seeds.len() implies (
    #[trigger] acc.seeds[i] matches InjectSeedView::Account(v) ==> inject::mapped(pairs, v)
        == inject::mapped(simple, v)) by {
        if let InjectSeedView::Account(v) = acc.seeds[i] {
            assert forall|l: int| 0 <= l < accounts.len() && (#[trigger] accounts[l]).name
                == v implies accounts[l].seeds.len() < 2 by {
                assert(acc.seeds[i] == InjectSeedView::Account(accounts[l].name));
            }
            compound_leaves(accounts, params, 0, simple, v);
        }
    }
    renamed_alike(acc.seeds, now, pairs, simple);
    resolved_is_renamed(acc.seeds, simple);
    compound_maps(accounts, func.inputs, 0, simple, simple, acc, now, name);
    injection_laws::resolved_names_are_gone_by(pairs, acc.name);
}

proof fn resolved_is_renamed(
    seeds: Seq<InjectSeedView>,
    pairs: Seq<(Seq<char>, Seq<char>)>,
)
    ensures
        are_renamed(inject::seeds_resolved(seeds, pairs), seeds, pairs),
{
    let now = inject::seeds_resolved(seeds, pairs);
    assert forall|i: int| 0 <= i < seeds.len() implies match seeds[i] {
        InjectSeedView::Const(v) => #[trigger] now[i] == InjectSeedView::Const(v),
        InjectSeedView::Account(v) => now[i] matches InjectSeedView::Account(other)
            && injection_laws::goes_by(pairs, v, other),
    } by {
        if let InjectSeedView::Account(v) = seeds[i] {
            injection_laws::resolved_names_are_gone_by(pairs, v);
        }
    }
}

} // verus!
