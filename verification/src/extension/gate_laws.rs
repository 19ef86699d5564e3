//! What holds of injection, wrapping and stamping on every input.
use crate::attrs;
use crate::extension::inject;
use crate::extension::inject::{ActiveWrapView, GateLocations, Injection, PdaDeclView};
use crate::extension::{
    EmbedDeclView, EmbedView, InjectAccountView, InjectSeedView, InjectSpecView,
    WrapInstructionsView,
};
use crate::idl_gen;
use crate::syntax::{AttributeView, EntryView, FnArgView, ItemFnView, ParamView};
use vstd::prelude::*;

verus! {

// ── Injection ────────────────────────────────────────────────────────────

/// Whether an input is an account parameter called `name`.
pub open spec fn is_account_param(input: FnArgView, name: Seq<char>) -> bool {
    input matches FnArgView::Typed(p) && p.name == Some(name) && idl_gen::account_type(p.ty)
}

/// What injection has done to `inputs` so far: a block of new parameters stands
/// where injection starts, and everything else is as it was.
spec fn inserted(
    inputs: Seq<FnArgView>,
    pairs: Seq<(Seq<char>, Seq<char>)>,
    s: Injection,
) -> bool {
    let at = inject::insert_at(inputs);
    let k = s.injected.len();
    &&& s.at == at + k
    &&& s.by.len() == k
    &&& s.inputs.len() == inputs.len() + k
    &&& s.inputs.take(at) == inputs.take(at)
    &&& s.inputs.skip(at + k) == inputs.skip(at)
    &&& forall|i: int|
        0 <= i < k ==> is_account_param(s.inputs[at + i], #[trigger] s.injected[i])
    &&& forall|i: int|
        0 <= i < k ==> (#[trigger] s.by[i]).0 == inject::resolved(pairs, s.injected[i])
            && !inject::has_param(inputs, s.by[i].0)
    &&& forall|i: int, j: int|
        0 <= i < j < k ==> (#[trigger] s.by[i]).0 != (#[trigger] s.by[j]).0
}

proof fn not_injected(
    by: Seq<(Seq<char>, InjectAccountView, Seq<char>)>,
    name: Seq<char>,
    from: int,
)
    requires
        0 <= from,
        inject::injected_for(by, name, from) is None,
    ensures
        forall|i: int| from <= i < by.len() ==> (#[trigger] by[i]).0 != name,
    decreases by.len() - from,
{
    if from < by.len() {
        not_injected(by, name, from + 1);
    }
}

proof fn has_param_kept(before: Seq<FnArgView>, after: Seq<FnArgView>, at: int, k: int, name: Seq<char>)
    requires
        0 <= at <= before.len(),
        0 <= k,
        after.len() == before.len() + k,
        after.take(at) == before.take(at),
        after.skip(at + k) == before.skip(at),
        inject::has_param(before, name),
    ensures
        inject::has_param(after, name),
{
    let i = choose|i: int| 0 <= i < before.len() && inject::is_param(#[trigger] before[i], name);
    if i < at {
        assert(after.take(at)[i] == before.take(at)[i]);
        assert(inject::is_param(after[i], name));
    } else {
        assert(after.skip(at + k)[i - at] == before.skip(at)[i - at]);
        assert(inject::is_param(after[i + k], name));
    }
}

proof fn injects_step(
    inputs: Seq<FnArgView>,
    accounts: Seq<(InjectAccountView, Seq<char>)>,
    pairs: Seq<(Seq<char>, Seq<char>)>,
    from: int,
    s: Injection,
)
    requires
        inserted(inputs, pairs, s),
        0 <= from,
    ensures
        inject::inject_from(accounts, pairs, from, s) matches Ok(done) ==> inserted(
            inputs,
            pairs,
            done,
        ),
    decreases accounts.len() - from,
{
    if from < accounts.len() {
        let acc = accounts[from].0;
        if let Ok(s2) = inject::inject_one(s, acc, accounts[from].1, pairs) {
            if s2 != s {
                let at = inject::insert_at(inputs);
                let k = s.injected.len();
                assert(s2.inputs.take(at) =~= inputs.take(at)) by {
                    assert forall|i: int| 0 <= i < at implies s2.inputs[i] == inputs[i] by {
                        assert(s.inputs.take(at)[i] == inputs.take(at)[i]);
                    }
                }
                let rest = s2.inputs.skip(at + k + 1);
                assert(rest =~= inputs.skip(at)) by {
                    assert forall|i: int| 0 <= i < rest.len() implies #[trigger] rest[i]
                        == inputs.skip(at)[i] by {
                        assert(s.inputs.skip(at + k)[i] == inputs.skip(at)[i]);
                    }
                }
                assert forall|i: int| 0 <= i < k + 1 implies is_account_param(
                    s2.inputs[at + i],
                    #[trigger] s2.injected[i],
                ) by {
                    if i < k {
                        assert(s2.injected[i] == s.injected[i]);
                        assert(s2.inputs[at + i] == s.inputs[at + i]);
                    }
                }
                if inject::has_param(inputs, inject::resolved(pairs, acc.name)) {
                    has_param_kept(inputs, s.inputs, at, k as int, inject::resolved(pairs, acc.name));
                }
                assert forall|i: int| 0 <= i < k + 1 implies (#[trigger] s2.by[i]).0
                    == inject::resolved(pairs, s2.injected[i]) && !inject::has_param(
                    inputs,
                    s2.by[i].0,
                ) by {
                    if i < k {
                        assert(s2.by[i] == s.by[i]);
                        assert(s2.injected[i] == s.injected[i]);
                    }
                }
                not_injected(s.by, inject::resolved(pairs, acc.name), 0);
                assert forall|i: int, j: int| 0 <= i < j < k + 1 implies (#[trigger] s2.by[i]).0
                    != (#[trigger] s2.by[j]).0 by {
                    assert(s2.by[i] == s.by[i]);
                    if j < k {
                        assert(s2.by[j] == s.by[j]);
                    }
                }
            }
            injects_step(inputs, accounts, pairs, from + 1, s2);
        }
    }
}

/// Injection only adds accounts. The new parameters stand in one block behind a leading
/// `ProgramContext`, else at the front, in the order in which they are reported.
/// Every declared parameter, every attribute and the fn's name stay as they
/// were. Nothing is injected for a role the fn declares already, and nothing is
/// injected twice: accounts that several gates call for become one parameter.
pub proof fn injection_only_adds(
    func: ItemFnView,
    specs: Seq<InjectSpecView>,
    pairs: Seq<(Seq<char>, Seq<char>)>,
)
    ensures
        inject::injected(func, specs, pairs) matches Ok((f, names)) ==> {
            let at = inject::insert_at(func.inputs);
            let k = names.len();
            &&& f.attrs == func.attrs
            &&& f.name == func.name
            &&& f.inputs.len() == func.inputs.len() + k
            &&& f.inputs.take(at) == func.inputs.take(at)
            &&& f.inputs.skip(at + k) == func.inputs.skip(at)
            &&& forall|i: int|
                0 <= i < k ==> is_account_param(f.inputs[at + i], #[trigger] names[i])
                    && !inject::has_param(func.inputs, inject::resolved(pairs, names[i]))
            &&& forall|i: int, j: int|
                0 <= i < j < k ==> (#[trigger] names[i]) != (#[trigger] names[j])
        },
{
    let s = inject::before_injection(func.inputs);
    assert(inserted(func.inputs, pairs, s));
    injects_step(func.inputs, inject::called_for(specs, func.attrs), pairs, 0, s);
    if let Ok(done) = inject::inject_from(
        inject::called_for(specs, func.attrs),
        pairs,
        0,
        s,
    ) {
        assert forall|i: int| 0 <= i < done.injected.len() implies !inject::has_param(
            func.inputs,
            inject::resolved(pairs, #[trigger] done.injected[i]),
        ) by {
            assert(done.by[i].0 == inject::resolved(pairs, done.injected[i]));
        }
        assert forall|i: int, j: int| 0 <= i < j < done.injected.len() implies (
        #[trigger] done.injected[i]) != (#[trigger] done.injected[j]) by {
            assert(done.by[i].0 != done.by[j].0);
        }
    }
}

/// Whether a remap leads to declared parameters only.
pub open spec fn leads_to_declared(
    pairs: Seq<(Seq<char>, Seq<char>)>,
    inputs: Seq<FnArgView>,
) -> bool {
    forall|i: int| 0 <= i < pairs.len() ==> inject::has_param(inputs, (#[trigger] pairs[i]).1)
}

proof fn mapped_declared(
    pairs: Seq<(Seq<char>, Seq<char>)>,
    inputs: Seq<FnArgView>,
    key: Seq<char>,
)
    requires
        leads_to_declared(pairs, inputs),
    ensures
        inject::mapped(pairs, key) matches Some(n) ==> inject::has_param(inputs, n),
    decreases pairs.len(),
{
    if pairs.len() > 0 {
        if pairs.last().0 == key {
            assert(inject::has_param(inputs, pairs[pairs.len() - 1].1));
        } else {
            assert forall|i: int| 0 <= i < pairs.drop_last().len() implies inject::has_param(
                inputs,
                (#[trigger] pairs.drop_last()[i]).1,
            ) by {
                assert(pairs.drop_last()[i] == pairs[i]);
            }
            mapped_declared(pairs.drop_last(), inputs, key);
        }
    }
}

proof fn named_param_declared(inputs: Seq<FnArgView>, i: int)
    requires
        0 <= i < attrs::named_params(inputs).len(),
    ensures
        inject::has_param(inputs, attrs::named_params(inputs)[i].0),
    decreases inputs.len(),
{
    if inputs.len() > 0 {
        let init = inputs.drop_last();
        let before = attrs::named_params(init);
        if i < before.len() {
            named_param_declared(init, i);
            let name = before[i].0;
            let j = choose|j: int| 0 <= j < init.len() && inject::is_param(#[trigger] init[j], name);
            assert(inject::is_param(inputs[j], name));
        } else {
            assert(inject::is_param(
                inputs[inputs.len() - 1],
                attrs::named_params(inputs)[i].0,
            ));
        }
    }
}

proof fn signer_declared(params: Seq<(Seq<char>, ParamView)>, i: int)
    requires
        0 <= i < inject::signers(params).len(),
    ensures
        exists|j: int| 0 <= j < params.len() && (#[trigger] params[j]).0 == inject::signers(
            params,
        )[i],
    decreases params.len(),
{
    if params.len() > 0 {
        let init = params.drop_last();
        if i < inject::signers(init).len() {
            signer_declared(init, i);
            let j = choose|j: int|
                0 <= j < init.len() && (#[trigger] init[j]).0 == inject::signers(init)[i];
            assert(params[j] == init[j]);
        } else {
            assert(params[params.len() - 1].0 == inject::signers(params)[i]);
        }
    }
}

proof fn seeds_declared(
    params: Seq<(Seq<char>, ParamView)>,
    seeds: Seq<InjectSeedView>,
    from: int,
)
    requires
        0 <= from,
    ensures
        inject::declares_seeds(params, seeds, from) matches Some(n) ==> exists|j: int|
            0 <= j < params.len() && (#[trigger] params[j]).0 == n,
    decreases params.len() - from,
{
    if from < params.len() {
        if inject::pda_seeds_from(params[from].1.attrs, 0) == Some(seeds) {
            assert(params[from].0 == inject::declares_seeds(params, seeds, from)->Some_0);
        } else {
            seeds_declared(params, seeds, from + 1);
        }
    }
}

proof fn remapped_declared(
    pairs: Seq<(Seq<char>, Seq<char>)>,
    name: Seq<char>,
    existing: Option<Seq<char>>,
    inputs: Seq<FnArgView>,
)
    requires
        leads_to_declared(pairs, inputs),
        existing matches Some(e) ==> exists|j: int|
            0 <= j < attrs::named_params(inputs).len() && (#[trigger] attrs::named_params(
                inputs,
            )[j]).0 == e,
    ensures
        leads_to_declared(inject::remapped(pairs, name, existing), inputs),
{
    let next = inject::remapped(pairs, name, existing);
    assert forall|i: int| 0 <= i < next.len() implies inject::has_param(
        inputs,
        (#[trigger] next[i]).1,
    ) by {
        if i < pairs.len() {
            assert(next[i] == pairs[i]);
        } else {
            let params = attrs::named_params(inputs);
            let j = choose|j: int| 0 <= j < params.len() && (#[trigger] params[j]).0 == existing->Some_0;
            named_param_declared(inputs, j);
        }
    }
}

proof fn simple_declared(
    accounts: Seq<InjectAccountView>,
    inputs: Seq<FnArgView>,
    from: int,
    pairs: Seq<(Seq<char>, Seq<char>)>,
)
    requires
        0 <= from,
        leads_to_declared(pairs, inputs),
    ensures
        leads_to_declared(
            inject::simple_remap_from(accounts, attrs::named_params(inputs), from, pairs),
            inputs,
        ),
    decreases accounts.len() - from,
{
    if from < accounts.len() {
        let params = attrs::named_params(inputs);
        let acc = accounts[from];
        if acc.signer {
            if inject::signers(params).len() == 1 {
                signer_declared(params, 0);
            }
            remapped_declared(pairs, acc.name, inject::sole_signer(params), inputs);
        } else if acc.seeds.len() == 1 && acc.seeds[0] is Const {
            seeds_declared(params, acc.seeds, 0);
            remapped_declared(
                pairs,
                acc.name,
                inject::declares_seeds(params, acc.seeds, 0),
                inputs,
            );
        }
        let existing = if acc.signer {
            inject::sole_signer(params)
        } else if acc.seeds.len() == 1 && acc.seeds[0] is Const {
            inject::declares_seeds(params, acc.seeds, 0)
        } else {
            None
        };
        simple_declared(accounts, inputs, from + 1, inject::remapped(pairs, acc.name, existing));
    }
}

proof fn compound_declared(
    accounts: Seq<InjectAccountView>,
    inputs: Seq<FnArgView>,
    from: int,
    pairs: Seq<(Seq<char>, Seq<char>)>,
)
    requires
        0 <= from,
        leads_to_declared(pairs, inputs),
    ensures
        leads_to_declared(
            inject::compound_remap_from(accounts, attrs::named_params(inputs), from, pairs),
            inputs,
        ),
    decreases accounts.len() - from,
{
    if from < accounts.len() {
        let params = attrs::named_params(inputs);
        let acc = accounts[from];
        let target = inject::seeds_resolved(acc.seeds, pairs);
        let existing = if acc.seeds.len() >= 2 {
            inject::declares_seeds(params, target, 0)
        } else {
            None
        };
        seeds_declared(params, target, 0);
        remapped_declared(pairs, acc.name, existing, inputs);
        compound_declared(accounts, inputs, from + 1, inject::remapped(pairs, acc.name, existing));
    }
}

/// The remap of a fn only ever leads to parameters the fn declares.
pub proof fn remap_leads_to_declared(specs: Seq<InjectSpecView>, func: ItemFnView)
    ensures
        leads_to_declared(inject::remap_of(specs, func), func.inputs),
{
    let accounts = inject::all_accounts(specs);
    simple_declared(accounts, func.inputs, 0, Seq::empty());
    compound_declared(
        accounts,
        func.inputs,
        0,
        inject::simple_remap_from(accounts, attrs::named_params(func.inputs), 0, Seq::empty()),
    );
}

proof fn satisfied_step(
    inputs: Seq<FnArgView>,
    accounts: Seq<(InjectAccountView, Seq<char>)>,
    pairs: Seq<(Seq<char>, Seq<char>)>,
    from: int,
    s: Injection,
    i: int,
)
    requires
        0 <= from <= accounts.len(),
        inserted(inputs, pairs, s),
        leads_to_declared(pairs, inputs),
        0 <= i < accounts.len(),
        i < from ==> inject::has_param(s.inputs, inject::resolved(pairs, accounts[i].0.name)),
    ensures
        inject::inject_from(accounts, pairs, from, s) matches Ok(done) ==> inject::has_param(
            done.inputs,
            inject::resolved(pairs, accounts[i].0.name),
        ),
    decreases accounts.len() - from,
{
    if from < accounts.len() {
        let acc = accounts[from].0;
        let effective = inject::resolved(pairs, acc.name);
        if let Ok(s2) = inject::inject_one(s, acc, accounts[from].1, pairs) {
            let one = seq![accounts[from]];
            injects_step(inputs, one, pairs, 0, s);
            assert(one[0] == accounts[from]);
            assert(inject::inject_from(one, pairs, 1, s2) == Ok::<Injection, Seq<char>>(s2));
            assert(inject::inject_from(one, pairs, 0, s) == Ok::<Injection, Seq<char>>(s2));
            assert(inserted(inputs, pairs, s2));
            if i < from {
                let name = inject::resolved(pairs, accounts[i].0.name);
                if s2 != s {
                    let j = choose|j: int|
                        0 <= j < s.inputs.len() && inject::is_param(#[trigger] s.inputs[j], name);
                    if j < s.at {
                        assert(inject::is_param(s2.inputs[j], name));
                    } else {
                        assert(s2.inputs[j + 1] == s.inputs[j]);
                        assert(inject::is_param(s2.inputs[j + 1], name));
                    }
                }
            } else if i == from {
                mapped_declared(pairs, inputs, acc.name);
                if inject::mapped(pairs, acc.name) is Some {
                    has_param_kept(
                        inputs,
                        s2.inputs,
                        inject::insert_at(inputs),
                        s2.injected.len() as int,
                        effective,
                    );
                } else if s2 != s {
                    assert(inject::is_param(s2.inputs[s.at], effective));
                } else if inject::injected_for(s.by, effective, 0) is Some {
                    injected_for_at(s.by, effective, 0);
                    let j = choose|j: int| 0 <= j < s.by.len() && (#[trigger] s.by[j]).0 == effective;
                    assert(inject::resolved(pairs, s.injected[j]) == effective);
                    mapped_declared(pairs, inputs, s.injected[j]);
                    let at = inject::insert_at(inputs);
                    if inject::mapped(pairs, s.injected[j]) is Some {
                        assert(inject::has_param(inputs, effective));
                    } else {
                        assert(is_account_param(s.inputs[at + j], s.injected[j]));
                        assert(inject::is_param(s.inputs[at + j], s.injected[j]));
                    }
                }
            }
            satisfied_step(inputs, accounts, pairs, from + 1, s2, i);
        }
    }
}

proof fn injected_for_at(
    by: Seq<(Seq<char>, InjectAccountView, Seq<char>)>,
    name: Seq<char>,
    from: int,
)
    requires
        0 <= from,
        inject::injected_for(by, name, from) is Some,
    ensures
        exists|j: int| 0 <= j < by.len() && (#[trigger] by[j]).0 == name,
    decreases by.len() - from,
{
    if from < by.len() && by[from].0 != name {
        injected_for_at(by, name, from + 1);
    }
}

proof fn nothing_left(
    accounts: Seq<(InjectAccountView, Seq<char>)>,
    pairs: Seq<(Seq<char>, Seq<char>)>,
    from: int,
    s: Injection,
)
    requires
        0 <= from,
        s.by.len() == 0,
        forall|i: int|
            0 <= i < accounts.len() ==> inject::has_param(
                s.inputs,
                inject::resolved(pairs, (#[trigger] accounts[i]).0.name),
            ),
    ensures
        inject::inject_from(accounts, pairs, from, s) == Ok::<Injection, Seq<char>>(s),
    decreases accounts.len() - from,
{
    if from < accounts.len() {
        nothing_left(accounts, pairs, from + 1, s);
    }
}

/// Every role an active gate calls for has its parameter once injection is done:
/// the one that stands in for it, or one of its own name.
pub proof fn every_role_is_filled(
    func: ItemFnView,
    specs: Seq<InjectSpecView>,
    pairs: Seq<(Seq<char>, Seq<char>)>,
)
    requires
        leads_to_declared(pairs, func.inputs),
    ensures
        inject::injected(func, specs, pairs) matches Ok((f, _)) ==> forall|i: int|
            0 <= i < inject::called_for(specs, func.attrs).len() ==> inject::has_param(
                f.inputs,
                inject::resolved(
                    pairs,
                    (#[trigger] inject::called_for(specs, func.attrs)[i]).0.name,
                ),
            ),
{
    let accounts = inject::called_for(specs, func.attrs);
    let s = inject::before_injection(func.inputs);
    assert(inserted(func.inputs, pairs, s));
    if let Ok(done) = inject::inject_from(accounts, pairs, 0, s) {
        assert forall|i: int| 0 <= i < accounts.len() implies inject::has_param(
            done.inputs,
            inject::resolved(pairs, (#[trigger] accounts[i]).0.name),
        ) by {
            satisfied_step(func.inputs, accounts, pairs, 0, s, i);
        }
    }
}

/// Injecting again under the same remap injects nothing and changes nothing: a
/// role that is declared or was injected is never injected twice.
pub proof fn injection_is_idempotent(
    func: ItemFnView,
    specs: Seq<InjectSpecView>,
    pairs: Seq<(Seq<char>, Seq<char>)>,
)
    requires
        leads_to_declared(pairs, func.inputs),
    ensures
        inject::injected(func, specs, pairs) matches Ok((f, _)) ==> inject::injected(
            f,
            specs,
            pairs,
        ) == Ok::<(ItemFnView, Seq<Seq<char>>), Seq<char>>((f, Seq::empty())),
{
    let accounts = inject::called_for(specs, func.attrs);
    let s = inject::before_injection(func.inputs);
    assert(inserted(func.inputs, pairs, s));
    if let Ok(done) = inject::inject_from(accounts, pairs, 0, s) {
        assert forall|i: int| 0 <= i < accounts.len() implies inject::has_param(
            done.inputs,
            inject::resolved(pairs, (#[trigger] accounts[i]).0.name),
        ) by {
            satisfied_step(func.inputs, accounts, pairs, 0, s, i);
        }
        nothing_left(accounts, pairs, 0, inject::before_injection(done.inputs));
    }
}

/// Whether every role that `before` leads to a parameter still has one: `after`
/// leads it to one too, or the inputs declare one under its own name.
pub open spec fn roles_keep_their_params(
    accounts: Seq<(InjectAccountView, Seq<char>)>,
    before: Seq<(Seq<char>, Seq<char>)>,
    after: Seq<(Seq<char>, Seq<char>)>,
    inputs: Seq<FnArgView>,
) -> bool {
    forall|i: int|
        0 <= i < accounts.len() && inject::mapped(before, (#[trigger] accounts[i]).0.name) is Some
            && inject::mapped(after, accounts[i].0.name) is None ==> inject::has_param(
            inputs,
            accounts[i].0.name,
        )
}

proof fn injected_grows(
    accounts: Seq<(InjectAccountView, Seq<char>)>,
    pairs: Seq<(Seq<char>, Seq<char>)>,
    from: int,
    s: Injection,
)
    requires
        0 <= from,
    ensures
        inject::inject_from(accounts, pairs, from, s) matches Ok(done) ==> s.injected.len()
            <= done.injected.len(),
    decreases accounts.len() - from,
{
    if from < accounts.len() {
        if let Ok(s2) = inject::inject_one(s, accounts[from].0, accounts[from].1, pairs) {
            injected_grows(accounts, pairs, from + 1, s2);
        }
    }
}

proof fn something_left(
    accounts: Seq<(InjectAccountView, Seq<char>)>,
    pairs: Seq<(Seq<char>, Seq<char>)>,
    from: int,
    s: Injection,
    i: int,
)
    requires
        0 <= from <= i < accounts.len(),
        s.by.len() == 0,
        !inject::has_param(s.inputs, inject::resolved(pairs, accounts[i].0.name)),
    ensures
        inject::inject_from(accounts, pairs, from, s) matches Ok(done) ==> s.injected.len()
            < done.injected.len(),
    decreases accounts.len() - from,
{
    if let Ok(s2) = inject::inject_one(s, accounts[from].0, accounts[from].1, pairs) {
        if s2.by.len() == 0 {
            something_left(accounts, pairs, from + 1, s2, i);
        } else {
            injected_grows(accounts, pairs, from + 1, s2);
        }
    }
}

/// Injecting into a fn that injection has made, under the remap of that fn,
/// injects nothing and changes nothing exactly where every role that was led to
/// a declared parameter keeps one.
pub proof fn injection_is_idempotent_anew(func: ItemFnView, specs: Seq<InjectSpecView>)
    ensures
        inject::injected(func, specs, inject::remap_of(specs, func)) matches Ok((f, _)) ==> {
            let after = inject::remap_of(specs, f);
            (inject::injected(f, specs, after) == Ok::<(ItemFnView, Seq<Seq<char>>), Seq<char>>(
                (f, Seq::empty()),
            )) <==> roles_keep_their_params(
                inject::called_for(specs, func.attrs),
                inject::remap_of(specs, func),
                after,
                f.inputs,
            )
        },
{
    let accounts = inject::called_for(specs, func.attrs);
    let before = inject::remap_of(specs, func);
    let s = inject::before_injection(func.inputs);
    assert(inserted(func.inputs, before, s));
    remap_leads_to_declared(specs, func);
    if let Ok(done) = inject::inject_from(accounts, before, 0, s) {
        let f = ItemFnView { inputs: done.inputs, ..func };
        let after = inject::remap_of(specs, f);
        let again = inject::before_injection(f.inputs);
        remap_leads_to_declared(specs, f);
        assert forall|i: int| 0 <= i < accounts.len() implies inject::has_param(
            f.inputs,
            inject::resolved(after, (#[trigger] accounts[i]).0.name),
        ) == (inject::mapped(before, accounts[i].0.name) is Some && inject::mapped(
            after,
            accounts[i].0.name,
        ) is None ==> inject::has_param(f.inputs, accounts[i].0.name)) by {
            satisfied_step(func.inputs, accounts, before, 0, s, i);
            mapped_declared(after, f.inputs, accounts[i].0.name);
        }
        if roles_keep_their_params(accounts, before, after, f.inputs) {
            nothing_left(accounts, after, 0, again);
        } else {
            let i = choose|i: int|
                0 <= i < accounts.len() && inject::mapped(
                    before,
                    (#[trigger] accounts[i]).0.name,
                ) is Some && inject::mapped(after, accounts[i].0.name) is None
                    && !inject::has_param(f.inputs, accounts[i].0.name);
            something_left(accounts, after, 0, again, i);
        }
    }
}

/// The parameter that plays the part of an account without compound seeds.
spec fn stand_in(acc: InjectAccountView, params: Seq<(Seq<char>, ParamView)>) -> Option<Seq<char>> {
    if acc.signer {
        inject::sole_signer(params)
    } else if acc.seeds.len() == 1 && acc.seeds[0] is Const {
        inject::declares_seeds(params, acc.seeds, 0)
    } else {
        None
    }
}

/// Whether an account called `name` from `from` on has a stand-in.
spec fn has_stand_in(
    accounts: Seq<InjectAccountView>,
    params: Seq<(Seq<char>, ParamView)>,
    name: Seq<char>,
    from: int,
) -> bool {
    exists|k: int|
        from <= k < accounts.len() && (#[trigger] accounts[k]).name == name && stand_in(
            accounts[k],
            params,
        ) is Some
}

proof fn compound_maps_nothing(
    accounts: Seq<InjectAccountView>,
    params: Seq<(Seq<char>, ParamView)>,
    from: int,
    pairs: Seq<(Seq<char>, Seq<char>)>,
)
    requires
        0 <= from,
        forall|k: int| 0 <= k < accounts.len() ==> (#[trigger] accounts[k]).seeds.len() < 2,
    ensures
        inject::compound_remap_from(accounts, params, from, pairs) == pairs,
    decreases accounts.len() - from,
{
    if from < accounts.len() {
        compound_maps_nothing(accounts, params, from + 1, pairs);
    }
}

proof fn mapped_has_stand_in(
    accounts: Seq<InjectAccountView>,
    params: Seq<(Seq<char>, ParamView)>,
    from: int,
    pairs: Seq<(Seq<char>, Seq<char>)>,
    name: Seq<char>,
)
    requires
        0 <= from,
        inject::mapped(inject::simple_remap_from(accounts, params, from, pairs), name) is Some,
    ensures
        inject::mapped(pairs, name) is Some || has_stand_in(accounts, params, name, from),
    decreases accounts.len() - from,
{
    if from < accounts.len() {
        let acc = accounts[from];
        let next = inject::remapped(pairs, acc.name, stand_in(acc, params));
        mapped_has_stand_in(accounts, params, from + 1, next, name);
        if has_stand_in(accounts, params, name, from + 1) {
            let k = choose|k: int|
                from + 1 <= k < accounts.len() && (#[trigger] accounts[k]).name == name
                    && stand_in(accounts[k], params) is Some;
            assert(accounts[k].name == name);
        } else if next.len() > pairs.len() {
            assert(next.drop_last() =~= pairs);
        }
    }
}

proof fn stays_mapped(
    accounts: Seq<InjectAccountView>,
    params: Seq<(Seq<char>, ParamView)>,
    from: int,
    pairs: Seq<(Seq<char>, Seq<char>)>,
    name: Seq<char>,
)
    requires
        0 <= from,
        inject::mapped(pairs, name) is Some,
    ensures
        inject::mapped(inject::simple_remap_from(accounts, params, from, pairs), name) is Some,
    decreases accounts.len() - from,
{
    if from < accounts.len() {
        let acc = accounts[from];
        let next = inject::remapped(pairs, acc.name, stand_in(acc, params));
        if next.len() > pairs.len() {
            assert(next.drop_last() =~= pairs);
        }
        stays_mapped(accounts, params, from + 1, next, name);
    }
}

proof fn stand_in_is_mapped(
    accounts: Seq<InjectAccountView>,
    params: Seq<(Seq<char>, ParamView)>,
    from: int,
    pairs: Seq<(Seq<char>, Seq<char>)>,
    k: int,
)
    requires
        0 <= from <= k < accounts.len(),
        stand_in(accounts[k], params) is Some,
    ensures
        inject::mapped(
            inject::simple_remap_from(accounts, params, from, pairs),
            accounts[k].name,
        ) is Some || stand_in(accounts[k], params) == Some(accounts[k].name),
    decreases accounts.len() - from,
{
    let acc = accounts[from];
    let next = inject::remapped(pairs, acc.name, stand_in(acc, params));
    if from < k {
        stand_in_is_mapped(accounts, params, from + 1, next, k);
    } else if stand_in(acc, params) != Some(acc.name) {
        stays_mapped(accounts, params, from + 1, next, acc.name);
    }
}

proof fn stand_in_declared(acc: InjectAccountView, inputs: Seq<FnArgView>)
    ensures
        stand_in(acc, attrs::named_params(inputs)) matches Some(n) ==> inject::has_param(inputs, n),
{
    let params = attrs::named_params(inputs);
    if let Some(n) = stand_in(acc, params) {
        if acc.signer {
            signer_declared(params, 0);
        } else {
            seeds_declared(params, acc.seeds, 0);
        }
        let j = choose|j: int| 0 <= j < params.len() && (#[trigger] params[j]).0 == n;
        named_param_declared(inputs, j);
    }
}

proof fn named_params_join(a: Seq<FnArgView>, b: Seq<FnArgView>)
    ensures
        attrs::named_params(a + b) == attrs::named_params(a) + attrs::named_params(b),
    decreases b.len(),
{
    if b.len() == 0 {
        assert(a + b =~= a);
        assert(attrs::named_params(a) + attrs::named_params(b) =~= attrs::named_params(a));
    } else {
        assert((a + b).drop_last() =~= a + b.drop_last());
        assert((a + b).last() == b.last());
        named_params_join(a, b.drop_last());
        assert(attrs::named_params(a + b) =~= attrs::named_params(a) + attrs::named_params(b));
    }
}

proof fn signers_join(a: Seq<(Seq<char>, ParamView)>, b: Seq<(Seq<char>, ParamView)>)
    ensures
        inject::signers(a + b) == inject::signers(a) + inject::signers(b),
    decreases b.len(),
{
    if b.len() == 0 {
        assert(a + b =~= a);
        assert(inject::signers(a) + inject::signers(b) =~= inject::signers(a));
    } else {
        assert((a + b).drop_last() =~= a + b.drop_last());
        assert((a + b).last() == b.last());
        signers_join(a, b.drop_last());
        assert(inject::signers(a + b) =~= inject::signers(a) + inject::signers(b));
    }
}

proof fn declaring_found(
    params: Seq<(Seq<char>, ParamView)>,
    seeds: Seq<InjectSeedView>,
    from: int,
    i: int,
)
    requires
        0 <= from <= i < params.len(),
        inject::pda_seeds_from(params[i].1.attrs, 0) == Some(seeds),
    ensures
        inject::declares_seeds(params, seeds, from) is Some,
    decreases params.len() - from,
{
    if inject::pda_seeds_from(params[from].1.attrs, 0) != Some(seeds) {
        declaring_found(params, seeds, from + 1, i);
    }
}

proof fn declaring_at(
    params: Seq<(Seq<char>, ParamView)>,
    seeds: Seq<InjectSeedView>,
    from: int,
) -> (i: int)
    requires
        0 <= from,
        inject::declares_seeds(params, seeds, from) is Some,
    ensures
        from <= i < params.len(),
        inject::pda_seeds_from(params[i].1.attrs, 0) == Some(seeds),
    decreases params.len() - from,
{
    if inject::pda_seeds_from(params[from].1.attrs, 0) == Some(seeds) {
        from
    } else {
        declaring_at(params, seeds, from + 1)
    }
}

/// An insertion keeps what stands in for an account, unless the account signs
/// and so does what is inserted.
proof fn stand_in_kept(acc: InjectAccountView, inputs: Seq<FnArgView>, at: int, p: ParamView)
    requires
        0 <= at <= inputs.len(),
        stand_in(acc, attrs::named_params(inputs)) is Some,
        acc.signer ==> !p.has_flag("signer"@),
    ensures
        stand_in(
            acc,
            attrs::named_params(inputs.insert(at, FnArgView::Typed(p))),
        ) is Some,
{
    let one = seq![FnArgView::Typed(p)];
    let (front, back) = (inputs.take(at), inputs.skip(at));
    let after = inputs.insert(at, FnArgView::Typed(p));
    assert(inputs =~= front + back);
    assert(after =~= (front + one) + back);
    named_params_join(front, back);
    named_params_join(front + one, back);
    named_params_join(front, one);
    let (pf, po, pb) = (
        attrs::named_params(front),
        attrs::named_params(one),
        attrs::named_params(back),
    );
    assert(one.drop_last() =~= Seq::empty());
    assert(attrs::named_params(Seq::<FnArgView>::empty()) =~= Seq::empty());
    if acc.signer {
        signers_join(pf, pb);
        signers_join(pf + po, pb);
        signers_join(pf, po);
        assert(inject::signers(po) =~= Seq::empty()) by {
            assert(one.last() == FnArgView::Typed(p));
            assert(inject::signers(po.take(0)) =~= Seq::empty());
            if let Some(n) = p.name {
                assert(po =~= seq![(n, p)]);
                assert(po.drop_last() =~= po.take(0));
            } else {
                assert(po =~= po.take(0));
            }
        }
        assert(inject::signers(pf) + inject::signers(po) =~= inject::signers(pf));
    } else {
        let i = declaring_at(pf + pb, acc.seeds, 0);
        let j = if i < pf.len() {
            i
        } else {
            i + po.len()
        };
        assert((pf + po + pb)[j] == (pf + pb)[i]);
        declaring_found(pf + po + pb, acc.seeds, 0, j);
    }
}

proof fn unsigned_param(acc: InjectAccountView, pairs: Seq<(Seq<char>, Seq<char>)>)
    requires
        !acc.signer,
    ensures
        inject::injected_param(acc, pairs) matches FnArgView::Typed(p) && !p.has_flag("signer"@),
{
    reveal_strlit("pda");
    reveal_strlit("signer");
    let p = inject::injected_param(acc, pairs)->Typed_0;
    if let Some(pda) = inject::seeds_expr(inject::seeds_resolved(acc.seeds, pairs)) {
        let entries = seq![inject::value_entry("pda"@, pda)];
        assert(inject::account_attr(entries).entries() == entries);
        assert(entries[0].path.segments[0] == "pda"@);
        assert(!attrs::carries(entries, "signer"@));
    }
}

/// Injection keeps every stand-in.
proof fn stand_ins_kept(
    accounts: Seq<(InjectAccountView, Seq<char>)>,
    pairs: Seq<(Seq<char>, Seq<char>)>,
    from: int,
    s: Injection,
    acc: InjectAccountView,
)
    requires
        0 <= from,
        0 <= s.at <= s.inputs.len(),
        stand_in(acc, attrs::named_params(s.inputs)) is Some,
        acc.signer ==> forall|i: int|
            0 <= i < accounts.len() && (#[trigger] accounts[i]).0.signer ==> inject::has_param(
                s.inputs,
                inject::resolved(pairs, accounts[i].0.name),
            ),
    ensures
        inject::inject_from(accounts, pairs, from, s) matches Ok(done) ==> stand_in(
            acc,
            attrs::named_params(done.inputs),
        ) is Some,
    decreases accounts.len() - from,
{
    if from < accounts.len() {
        let next = accounts[from].0;
        if let Ok(s2) = inject::inject_one(s, next, accounts[from].1, pairs) {
            if s2 != s {
                let p = inject::injected_param(next, pairs)->Typed_0;
                if acc.signer {
                    unsigned_param(next, pairs);
                }
                stand_in_kept(acc, s.inputs, s.at, p);
                if acc.signer {
                    assert forall|i: int|
                        0 <= i < accounts.len() && (#[trigger] accounts[i]).0.signer implies inject::has_param(
                        s2.inputs,
                        inject::resolved(pairs, accounts[i].0.name),
                    ) by {
                        assert(s2.inputs.take(s.at) =~= s.inputs.take(s.at));
                        assert(s2.inputs.skip(s.at + 1) =~= s.inputs.skip(s.at));
                        has_param_kept(
                            s.inputs,
                            s2.inputs,
                            s.at,
                            1,
                            inject::resolved(pairs, accounts[i].0.name),
                        );
                    }
                }
            }
            stand_ins_kept(accounts, pairs, from + 1, s2, acc);
        }
    }
}

proof fn called_for_declared(specs: Seq<InjectSpecView>, list: Seq<AttributeView>, i: int)
    requires
        0 <= i < inject::called_for(specs, list).len(),
    ensures
        inject::all_accounts(specs).contains(inject::called_for(specs, list)[i].0),
    decreases specs.len(),
{
    if specs.len() > 0 {
        let before = inject::called_for(specs.drop_last(), list);
        let earlier = inject::all_accounts(specs.drop_last());
        let all = inject::all_accounts(specs);
        let acc = inject::called_for(specs, list)[i].0;
        if i < before.len() {
            called_for_declared(specs.drop_last(), list, i);
            let k = choose|k: int| 0 <= k < earlier.len() && earlier[k] == acc;
            assert(all[k] == acc);
        } else {
            assert(all[earlier.len() + (i - before.len())] == acc);
        }
    }
}

/// Injecting into a fn that injection has made, under the remap of that fn,
/// injects nothing and changes nothing where no account of the specs has
/// compound seeds.
pub proof fn simple_injection_is_idempotent_anew(func: ItemFnView, specs: Seq<InjectSpecView>)
    requires
        forall|k: int|
            0 <= k < inject::all_accounts(specs).len() ==> (#[trigger] inject::all_accounts(
                specs,
            )[k]).seeds.len() < 2,
    ensures
        inject::injected(func, specs, inject::remap_of(specs, func)) matches Ok((f, _))
            ==> inject::injected(f, specs, inject::remap_of(specs, f)) == Ok::<
            (ItemFnView, Seq<Seq<char>>),
            Seq<char>,
        >((f, Seq::empty())),
{
    injection_is_idempotent_anew(func, specs);
    let all = inject::all_accounts(specs);
    let accounts = inject::called_for(specs, func.attrs);
    let before = inject::remap_of(specs, func);
    let s = inject::before_injection(func.inputs);
    let params = attrs::named_params(func.inputs);
    compound_maps_nothing(
        all,
        params,
        0,
        inject::simple_remap_from(all, params, 0, Seq::empty()),
    );
    if let Ok(done) = inject::inject_from(accounts, before, 0, s) {
        let f = ItemFnView { inputs: done.inputs, ..func };
        let after = inject::remap_of(specs, f);
        let now = attrs::named_params(f.inputs);
        compound_maps_nothing(all, now, 0, inject::simple_remap_from(all, now, 0, Seq::empty()));
        assert forall|i: int|
            0 <= i < accounts.len() && inject::mapped(before, (#[trigger] accounts[i]).0.name) is Some
                && inject::mapped(after, accounts[i].0.name) is None implies inject::has_param(
            f.inputs,
            accounts[i].0.name,
        ) by {
            let name = accounts[i].0.name;
            mapped_has_stand_in(all, params, 0, Seq::empty(), name);
            let k = choose|k: int|
                0 <= k < all.len() && (#[trigger] all[k]).name == name && stand_in(
                    all[k],
                    params,
                ) is Some;
            if all[k].signer {
                assert forall|j: int|
                    0 <= j < accounts.len() && (#[trigger] accounts[j]).0.signer implies inject::has_param(
                    s.inputs,
                    inject::resolved(before, accounts[j].0.name),
                ) by {
                    called_for_declared(specs, func.attrs, j);
                    let m = choose|m: int| 0 <= m < all.len() && all[m] == accounts[j].0;
                    stand_in_is_mapped(all, params, 0, Seq::empty(), m);
                    stand_in_declared(all[m], func.inputs);
                    remap_leads_to_declared(specs, func);
                    mapped_declared(before, func.inputs, accounts[j].0.name);
                }
            }
            stand_ins_kept(accounts, before, 0, s, all[k]);
            stand_in_is_mapped(all, now, 0, Seq::empty(), k);
            stand_in_declared(all[k], f.inputs);
        }
    }
}

// ── Producers that write locations and producers that do not ─────────────

/// Whether two lists of attributes have the same paths, and the same of them
/// carry a value.
pub open spec fn alike(a: Seq<AttributeView>, b: Seq<AttributeView>) -> bool {
    a.len() == b.len() && forall|i: int|
        0 <= i < a.len() ==> (#[trigger] a[i]).path == b[i].path && (a[i].form is Value) == (
        b[i].form is Value)
}

/// Whether two lists of embeds are declared by the same extensions, in order.
pub open spec fn same_sources(a: Seq<EmbedView>, b: Seq<EmbedView>) -> bool {
    a.len() == b.len() && forall|i: int| 0 <= i < a.len() ==> (#[trigger] a[i]).source == b[i].source
}

proof fn embedded_alike(a: Seq<EmbedView>, b: Seq<EmbedView>, source: Seq<char>)
    requires
        same_sources(a, b),
    ensures
        (inject::embed_offset(a, source) is Some) == (inject::embed_offset(b, source) is Some),
    decreases a.len(),
{
    if a.len() > 0 {
        assert(a[a.len() - 1].source == b[b.len() - 1].source);
        assert forall|i: int| 0 <= i < a.drop_last().len() implies (#[trigger] a.drop_last()[i]).source
            == b.drop_last()[i].source by {
            assert(a[i].source == b[i].source);
        }
        embedded_alike(a.drop_last(), b.drop_last(), source);
    }
}

proof fn authored_alike_on(
    x: AttributeView,
    func: Seq<char>,
    specs: Seq<InjectSpecView>,
    a: Seq<EmbedView>,
    b: Seq<EmbedView>,
    from: int,
)
    requires
        same_sources(a, b),
        0 <= from,
    ensures
        inject::authored_on(x, func, specs, a, from) == inject::authored_on(x, func, specs, b, from),
    decreases specs.len() - from,
{
    if from < specs.len() {
        embedded_alike(a, b, specs[from].source);
        authored_alike_on(x, func, specs, a, b, from + 1);
    }
}

proof fn authored_alike(
    list: Seq<AttributeView>,
    func: Seq<char>,
    specs: Seq<InjectSpecView>,
    a: Seq<EmbedView>,
    b: Seq<EmbedView>,
    from: int,
)
    requires
        same_sources(a, b),
        0 <= from,
    ensures
        inject::authored_from(list, func, specs, a, from) == inject::authored_from(
            list,
            func,
            specs,
            b,
            from,
        ),
    decreases list.len() - from,
{
    if from < list.len() {
        authored_alike_on(list[from], func, specs, a, b, 0);
        authored_alike(list, func, specs, a, b, from + 1);
    }
}

proof fn omitted_args(
    specs: Seq<InjectSpecView>,
    last: Seq<char>,
    pairs: Seq<(Seq<char>, Seq<char>)>,
    embeds: Seq<EmbedView>,
    from: int,
    out: Seq<crate::syntax::EntryView>,
)
    requires
        0 <= from,
    ensures
        inject::wrap_args_from(
            specs,
            last,
            pairs,
            embeds,
            GateLocations::Omit,
            from,
            out,
        ) is Ok,
    decreases specs.len() - from,
{
    if from < specs.len() {
        if specs[from].wrapper != last {
            omitted_args(specs, last, pairs, embeds, from + 1, out);
        } else {
            let args = inject::gate_args(specs[from], pairs, None)->Ok_0;
            omitted_args(specs, last, pairs, embeds, from + 1, out + args);
        }
    }
}

proof fn named_alike(a: Seq<AttributeView>, b: Seq<AttributeView>, name: Seq<char>)
    requires
        alike(a, b),
        attrs::named(a, name),
    ensures
        attrs::named(b, name),
{
    let i = choose|i: int| 0 <= i < a.len() && (#[trigger] a[i]).path.is(name);
    assert(b[i].path.is(name));
}

proof fn alike_flipped(a: Seq<AttributeView>, b: Seq<AttributeView>)
    requires
        alike(a, b),
    ensures
        alike(b, a),
{
    assert forall|i: int| 0 <= i < b.len() implies (#[trigger] b[i]).path == a[i].path && (
    b[i].form is Value) == (a[i].form is Value) by {
        assert(a[i].path == b[i].path);
    }
}

proof fn wrapped_alike(
    wraps: Seq<ActiveWrapView>,
    specs: Seq<InjectSpecView>,
    emitted: Seq<EmbedView>,
    omitted: Seq<EmbedView>,
    qualified: Option<Seq<char>>,
    params: Seq<(Seq<char>, ParamView)>,
    pairs: Seq<(Seq<char>, Seq<char>)>,
    from: int,
    a: Seq<AttributeView>,
    b: Seq<AttributeView>,
)
    requires
        alike(a, b),
        0 <= from,
    ensures
        inject::wrapped_from(
            wraps,
            specs,
            emitted,
            GateLocations::Emit,
            qualified,
            params,
            pairs,
            from,
            a,
        ) matches Ok(x) ==> inject::wrapped_from(
            wraps,
            specs,
            omitted,
            GateLocations::Omit,
            qualified,
            params,
            pairs,
            from,
            b,
        ) matches Ok(y) && alike(x, y),
    decreases wraps.len() - from,
{
    if from < wraps.len() {
        let w = wraps[from];
        alike_flipped(a, b);
        if attrs::named(a, w.config.self_exempt_marker) {
            named_alike(a, b, w.config.self_exempt_marker);
        }
        if attrs::named(b, w.config.self_exempt_marker) {
            named_alike(b, a, w.config.self_exempt_marker);
        }
        if inject::is_exempt(w, a, params, specs, qualified) {
            wrapped_alike(wraps, specs, emitted, omitted, qualified, params, pairs, from + 1, a, b);
        } else if let Ok(args) = inject::wrap_args_from(
            specs,
            w.last,
            pairs,
            emitted,
            GateLocations::Emit,
            0,
            Seq::empty(),
        ) {
            omitted_args(specs, w.last, pairs, omitted, 0, Seq::empty());
            let fewer = inject::wrap_args_from(
                specs,
                w.last,
                pairs,
                omitted,
                GateLocations::Omit,
                0,
                Seq::empty(),
            )->Ok_0;
            let a2 = seq![inject::wrap_attr(w.path, args)] + a;
            let b2 = seq![inject::wrap_attr(w.path, fewer)] + b;
            assert forall|i: int| 0 <= i < a2.len() implies (#[trigger] a2[i]).path == b2[i].path
                && (a2[i].form is Value) == (b2[i].form is Value) by {
                if i > 0 {
                    assert(a2[i] == a[i - 1] && b2[i] == b[i - 1]);
                }
            }
            wrapped_alike(
                wraps,
                specs,
                emitted,
                omitted,
                qualified,
                params,
                pairs,
                from + 1,
                a2,
                b2,
            );
        }
    }
}

proof fn activates_alike(spec: InjectSpecView, a: Seq<AttributeView>, b: Seq<AttributeView>)
    requires
        alike(a, b),
        inject::activates(spec, a),
    ensures
        inject::activates(spec, b),
{
    let i = choose|i: int|
        0 <= i < a.len() && (#[trigger] a[i]).path.ends(spec.wrapper) && !(a[i].form is Value);
    assert(b[i].path.ends(spec.wrapper) && !(b[i].form is Value));
}

proof fn called_for_alike(
    specs: Seq<InjectSpecView>,
    a: Seq<AttributeView>,
    b: Seq<AttributeView>,
)
    requires
        alike(a, b),
    ensures
        inject::called_for(specs, a) == inject::called_for(specs, b),
    decreases specs.len(),
{
    if specs.len() > 0 {
        alike_flipped(a, b);
        called_for_alike(specs.drop_last(), a, b);
        if inject::activates(specs.last(), a) {
            activates_alike(specs.last(), a, b);
        }
        if inject::activates(specs.last(), b) {
            activates_alike(specs.last(), b, a);
        }
    }
}

/// A producer that omits locations sees the accounts of one that writes them:
/// whatever the dispatcher's pass accepts, the IDL producers' pass accepts as
/// well, with the same parameters in the same order and the same ones reported
/// as injected, however the embeds' offsets stand.
pub proof fn omitting_locations_changes_no_account(
    func: ItemFnView,
    wraps: Seq<ActiveWrapView>,
    specs: Seq<InjectSpecView>,
    emitted: Seq<EmbedView>,
    omitted: Seq<EmbedView>,
    qualified: Option<Seq<char>>,
)
    requires
        same_sources(emitted, omitted),
    ensures
        inject::gated(func, wraps, specs, emitted, GateLocations::Emit, qualified) matches Ok((f, names))
            ==> inject::gated(func, wraps, specs, omitted, GateLocations::Omit, qualified) matches Ok((g, same))
            && f.inputs == g.inputs && f.name == g.name && names == same,
{
    let start = inject::gate_start(func, specs, qualified);
    let pairs = inject::remap_of(specs, start);
    let params = attrs::named_params(start.inputs);
    authored_alike(start.attrs, start.name, specs, emitted, omitted, 0);
    assert(alike(start.attrs, start.attrs));
    wrapped_alike(
        wraps,
        specs,
        emitted,
        omitted,
        qualified,
        params,
        pairs,
        0,
        start.attrs,
        start.attrs,
    );
    if let Ok(x) = inject::wrapped_from(
        wraps,
        specs,
        emitted,
        GateLocations::Emit,
        qualified,
        params,
        pairs,
        0,
        start.attrs,
    ) {
        if let Ok(y) = inject::wrapped_from(
            wraps,
            specs,
            omitted,
            GateLocations::Omit,
            qualified,
            params,
            pairs,
            0,
            start.attrs,
        ) {
            called_for_alike(specs, x, y);
        }
    }
}

// ── Wrapping and stamping keep what is written ───────────────────────────

/// Whether a wrap may stand on a fn: it neither exempts the fn by name nor
/// decodes an embedded account the fn creates.
pub open spec fn may_wrap(
    wrap: ActiveWrapView,
    params: Seq<(Seq<char>, ParamView)>,
    specs: Seq<InjectSpecView>,
    qualified: Option<Seq<char>>,
) -> bool {
    &&& !(qualified matches Some(q) && wrap.config.exempt.contains(q))
    &&& !inject::creates_gated(specs, params, wrap.last)
}

proof fn wraps_in_front(
    wraps: Seq<ActiveWrapView>,
    specs: Seq<InjectSpecView>,
    embeds: Seq<EmbedView>,
    locations: GateLocations,
    qualified: Option<Seq<char>>,
    params: Seq<(Seq<char>, ParamView)>,
    pairs: Seq<(Seq<char>, Seq<char>)>,
    from: int,
    list: Seq<AttributeView>,
)
    requires
        0 <= from,
    ensures
        inject::wrapped_from(wraps, specs, embeds, locations, qualified, params, pairs, from, list) matches Ok(out)
            ==> {
            let k = out.len() - list.len();
            &&& k >= 0
            &&& out.skip(k) == list
            &&& forall|i: int|
                0 <= i < k ==> exists|w: int|
                    0 <= w < wraps.len() && (#[trigger] wraps[w]).path == (#[trigger] out[i]).path
                        && may_wrap(wraps[w], params, specs, qualified)
        },
    decreases wraps.len() - from,
{
    if from >= wraps.len() {
        assert(list.skip(0) =~= list);
    } else if inject::is_exempt(wraps[from], list, params, specs, qualified) {
        wraps_in_front(wraps, specs, embeds, locations, qualified, params, pairs, from + 1, list);
    } else if let Ok(args) = inject::wrap_args_from(
        specs,
        wraps[from].last,
        pairs,
        embeds,
        locations,
        0,
        Seq::empty(),
    ) {
        let next = seq![inject::wrap_attr(wraps[from].path, args)] + list;
        wraps_in_front(wraps, specs, embeds, locations, qualified, params, pairs, from + 1, next);
        if let Ok(out) = inject::wrapped_from(
            wraps,
            specs,
            embeds,
            locations,
            qualified,
            params,
            pairs,
            from + 1,
            next,
        ) {
            let k = out.len() - list.len();
            assert(out.skip(k) =~= list) by {
                assert forall|i: int| 0 <= i < list.len() implies out.skip(k)[i] == list[i] by {
                    assert(out.skip(k - 1)[i + 1] == next[i + 1]);
                }
            }
            assert forall|i: int| 0 <= i < k implies exists|w: int|
                0 <= w < wraps.len() && (#[trigger] wraps[w]).path == (#[trigger] out[i]).path
                    && may_wrap(wraps[w], params, specs, qualified) by {
                if i == k - 1 {
                    assert(out.skip(k - 1)[0] == next[0]);
                    assert(wraps[from].path == out[i].path);
                }
            }
        }
    }
}

proof fn stamping_keeps_path(
    a: AttributeView,
    specs: Seq<InjectSpecView>,
    pairs: Seq<(Seq<char>, Seq<char>)>,
    embeds: Seq<EmbedView>,
    from: int,
)
    requires
        0 <= from,
    ensures
        inject::stamped_from(a, specs, pairs, embeds, from) matches Ok(b) ==> b.path == a.path,
    decreases specs.len() - from,
{
    if from < specs.len() {
        let offset = inject::embed_offset(embeds, specs[from].source);
        if a.path.ends(specs[from].wrapper) && offset is Some {
            if let Ok(args) = inject::gate_args(specs[from], pairs, offset) {
                stamping_keeps_path(
                    inject::list_attr(a.path, args),
                    specs,
                    pairs,
                    embeds,
                    from + 1,
                );
            }
        } else {
            stamping_keeps_path(a, specs, pairs, embeds, from + 1);
        }
    }
}

/// Whether `b` is `a` but for arguments written on bare attributes.
pub open spec fn only_bare_filled(a: Seq<AttributeView>, b: Seq<AttributeView>) -> bool {
    a.len() == b.len() && forall|i: int|
        0 <= i < a.len() ==> (#[trigger] b[i]).path == a[i].path && (!(a[i].form is Bare) ==> b[i]
            == a[i])
}

proof fn stamping_fills_bare(
    list: Seq<AttributeView>,
    specs: Seq<InjectSpecView>,
    pairs: Seq<(Seq<char>, Seq<char>)>,
    embeds: Seq<EmbedView>,
    from: int,
    out: Seq<AttributeView>,
)
    requires
        0 <= from <= list.len(),
        only_bare_filled(list.take(from), out),
    ensures
        inject::stamp_from(list, specs, pairs, embeds, from, out) matches Ok(done)
            ==> only_bare_filled(list, done),
    decreases list.len() - from,
{
    if from < list.len() {
        assert forall|x: AttributeView|
            x.path == list[from].path && (!(list[from].form is Bare) ==> x == list[from]) implies #[trigger] only_bare_filled(
            list.take(from + 1),
            out.push(x),
        ) by {
            let next = out.push(x);
            assert forall|i: int| 0 <= i < from + 1 implies (#[trigger] next[i]).path == list.take(
                from + 1,
            )[i].path && (!(list.take(from + 1)[i].form is Bare) ==> next[i] == list.take(
                from + 1,
            )[i]) by {
                if i < from {
                    assert(out[i].path == list.take(from)[i].path);
                }
            }
        }
        if !(list[from].form is Bare) {
            assert(only_bare_filled(list.take(from + 1), out.push(list[from])));
            stamping_fills_bare(list, specs, pairs, embeds, from + 1, out.push(list[from]));
        } else if let Ok(a) = inject::stamped_from(list[from], specs, pairs, embeds, 0) {
            stamping_keeps_path(list[from], specs, pairs, embeds, 0);
            assert(only_bare_filled(list.take(from + 1), out.push(a)));
            stamping_fills_bare(list, specs, pairs, embeds, from + 1, out.push(a));
        }
    } else {
        assert(list.take(from) =~= list);
    }
}

/// Gating strips nothing a fn was written with: every authored attribute stays,
/// in order, behind the wraps, and at most a bare one is given arguments. A
/// producer that omits locations leaves each exactly as it was written. Each
/// attribute in front is the path of a wrap that does not exempt the fn by name
/// and that decodes no embedded account the fn creates.
pub proof fn gating_strips_nothing(
    func: ItemFnView,
    wraps: Seq<ActiveWrapView>,
    specs: Seq<InjectSpecView>,
    embeds: Seq<EmbedView>,
    locations: GateLocations,
    qualified: Option<Seq<char>>,
)
    ensures
        inject::gated(func, wraps, specs, embeds, locations, qualified) matches Ok((f, _)) ==> {
            let k = f.attrs.len() - func.attrs.len();
            let params = attrs::named_params(
                inject::gate_start(func, specs, qualified).inputs,
            );
            &&& k >= 0
            &&& f.name == func.name
            &&& only_bare_filled(func.attrs, f.attrs.skip(k))
            &&& locations == GateLocations::Omit ==> f.attrs.skip(k) == func.attrs
            &&& forall|i: int|
                0 <= i < k ==> exists|w: int|
                    0 <= w < wraps.len() && (#[trigger] wraps[w]).path == (#[trigger] f.attrs[i]).path
                        && may_wrap(wraps[w], params, specs, qualified)
        },
{
    let start = inject::gate_start(func, specs, qualified);
    let pairs = inject::remap_of(specs, start);
    let params = attrs::named_params(start.inputs);
    wraps_in_front(wraps, specs, embeds, locations, qualified, params, pairs, 0, start.attrs);
    if let Ok(wrapped) = inject::wrapped_from(
        wraps,
        specs,
        embeds,
        locations,
        qualified,
        params,
        pairs,
        0,
        start.attrs,
    ) {
        let k = wrapped.len() - start.attrs.len();
        assert(only_bare_filled(func.attrs, wrapped.skip(k)));
        stamping_fills_bare(wrapped, specs, pairs, embeds, 0, Seq::empty());
        if let Ok(stamped) = inject::stamp_from(
            wrapped,
            specs,
            pairs,
            embeds,
            0,
            Seq::empty(),
        ) {
            assert forall|i: int| 0 <= i < func.attrs.len() implies (#[trigger] stamped.skip(
                k,
            )[i]).path == func.attrs[i].path && (!(func.attrs[i].form is Bare) ==> stamped.skip(
                k,
            )[i] == func.attrs[i]) by {
                assert(wrapped.skip(k)[i] == func.attrs[i]);
                assert(stamped[k + i].path == wrapped[k + i].path);
            }
            assert forall|i: int| 0 <= i < k implies exists|w: int|
                0 <= w < wraps.len() && (#[trigger] wraps[w]).path == (#[trigger] stamped[i]).path
                    && may_wrap(wraps[w], params, specs, qualified) by {
                assert(stamped[i].path == wrapped[i].path);
            }
        }
    }
}

/// Whether an attribute carries an entry for `key`.
pub open spec fn carries_key(a: AttributeView, key: Seq<char>) -> bool {
    exists|i: int| 0 <= i < a.entries().len() && (#[trigger] a.entries()[i]).path.is(key)
}

/// Whether a role of the specs is called `key`.
pub open spec fn names_role(specs: Seq<InjectSpecView>, key: Seq<char>) -> bool {
    exists|i: int, j: int|
        #![trigger specs[i].accounts[j]]
        0 <= i < specs.len() && 0 <= j < specs[i].accounts.len() && specs[i].accounts[j].role == key
}

/// Whether every parameter attribute among `inputs` that carries `key` stands
/// on a parameter among `authored` too.
pub open spec fn only_authored(
    inputs: Seq<FnArgView>,
    authored: Seq<FnArgView>,
    key: Seq<char>,
) -> bool {
    forall|i: int, a: AttributeView|
        0 <= i < inputs.len() && carries_key(a, key) && #[trigger] has_param_attr(inputs[i], a)
            ==> exists|k: int| 0 <= k < authored.len() && #[trigger] has_param_attr(authored[k], a)
}

/// Whether an input is a parameter with the attribute `a`.
pub open spec fn has_param_attr(input: FnArgView, a: AttributeView) -> bool {
    input matches FnArgView::Typed(p) && p.attrs.contains(a)
}

proof fn omitted_args_lack(
    specs: Seq<InjectSpecView>,
    last: Seq<char>,
    pairs: Seq<(Seq<char>, Seq<char>)>,
    embeds: Seq<EmbedView>,
    from: int,
    out: Seq<EntryView>,
    key: Seq<char>,
)
    requires
        0 <= from,
        !names_role(specs, key),
        forall|i: int| 0 <= i < out.len() ==> !(#[trigger] out[i]).path.is(key),
    ensures
        inject::wrap_args_from(specs, last, pairs, embeds, GateLocations::Omit, from, out) matches Ok(done)
            ==> forall|i: int| 0 <= i < done.len() ==> !(#[trigger] done[i]).path.is(key),
    decreases specs.len() - from,
{
    if from < specs.len() {
        if specs[from].wrapper != last {
            omitted_args_lack(specs, last, pairs, embeds, from + 1, out, key);
        } else if let Ok(args) = inject::gate_args(specs[from], pairs, None) {
            let next = out + args;
            assert forall|i: int| 0 <= i < next.len() implies !(#[trigger] next[i]).path.is(key) by {
                if i >= out.len() {
                    let j = i - out.len();
                    assert(specs[from].accounts[j].role != key);
                    assert(next[i].path.segments[0] == specs[from].accounts[j].role);
                }
            }
            omitted_args_lack(specs, last, pairs, embeds, from + 1, next, key);
        }
    }
}

proof fn omitted_wraps_lack(
    wraps: Seq<ActiveWrapView>,
    specs: Seq<InjectSpecView>,
    embeds: Seq<EmbedView>,
    qualified: Option<Seq<char>>,
    params: Seq<(Seq<char>, ParamView)>,
    pairs: Seq<(Seq<char>, Seq<char>)>,
    from: int,
    list: Seq<AttributeView>,
    authored: Seq<AttributeView>,
    key: Seq<char>,
)
    requires
        0 <= from,
        !names_role(specs, key),
        forall|i: int|
            0 <= i < list.len() && carries_key(#[trigger] list[i], key) ==> authored.contains(
                list[i],
            ),
    ensures
        inject::wrapped_from(
            wraps,
            specs,
            embeds,
            GateLocations::Omit,
            qualified,
            params,
            pairs,
            from,
            list,
        ) matches Ok(out) ==> forall|i: int|
            0 <= i < out.len() && carries_key(#[trigger] out[i], key) ==> authored.contains(out[i]),
    decreases wraps.len() - from,
{
    if from < wraps.len() {
        if inject::is_exempt(wraps[from], list, params, specs, qualified) {
            omitted_wraps_lack(
                wraps,
                specs,
                embeds,
                qualified,
                params,
                pairs,
                from + 1,
                list,
                authored,
                key,
            );
        } else if let Ok(args) = inject::wrap_args_from(
            specs,
            wraps[from].last,
            pairs,
            embeds,
            GateLocations::Omit,
            0,
            Seq::empty(),
        ) {
            omitted_args_lack(specs, wraps[from].last, pairs, embeds, 0, Seq::empty(), key);
            let wrap = inject::wrap_attr(wraps[from].path, args);
            assert(!carries_key(wrap, key)) by {
                if args.len() > 0 {
                    assert(wrap.entries() == args);
                }
            }
            let next = seq![wrap] + list;
            assert forall|i: int|
                0 <= i < next.len() && carries_key(#[trigger] next[i], key) implies authored.contains(
                next[i],
            ) by {
                if i > 0 {
                    assert(next[i] == list[i - 1]);
                }
            }
            omitted_wraps_lack(
                wraps,
                specs,
                embeds,
                qualified,
                params,
                pairs,
                from + 1,
                next,
                authored,
                key,
            );
        }
    }
}

proof fn constraints_lack(entries: Seq<EntryView>, key: Seq<char>)
    requires
        forall|i: int| 0 <= i < entries.len() ==> !(#[trigger] entries[i]).path.is(key),
    ensures
        !carries_key(inject::account_attr(entries), key),
{
    assert(inject::account_attr(entries).entries() == entries);
}

/// The keys the framework writes on a parameter.
spec fn is_constraint_key(key: Seq<char>) -> bool {
    key == "pda"@ || key == "mut"@ || key == "signer"@
}

proof fn retargeting_lacks(
    inputs: Seq<FnArgView>,
    accounts: Seq<InjectAccountView>,
    from: int,
    authored: Seq<FnArgView>,
    key: Seq<char>,
)
    requires
        0 <= from,
        !is_constraint_key(key),
        only_authored(inputs, authored, key),
    ensures
        only_authored(inject::substituted_from(inputs, accounts, from), authored, key),
    decreases accounts.len() - from,
{
    if from < accounts.len() {
        let acc = accounts[from];
        let next = inputs.map_values(|i: FnArgView| inject::retargeted(i, acc));
        assert forall|i: int, a: AttributeView|
            0 <= i < next.len() && carries_key(a, key) && #[trigger] has_param_attr(
                next[i],
                a,
            ) implies exists|k: int|
            0 <= k < authored.len() && #[trigger] has_param_attr(authored[k], a) by {
            if next[i] != inputs[i] {
                let pda = inject::seeds_expr(acc.seeds)->Some_0;
                let p = inputs[i]->Typed_0;
                let q = next[i]->Typed_0;
                let j = choose|j: int| 0 <= j < q.attrs.len() && q.attrs[j] == a;
                assert(q.attrs[j] == inject::retargeted_attr(p.attrs[j], pda));
                let short = seq![inject::value_entry("pda"@, pda)];
                let long = seq![inject::flag_entry("mut"@), inject::value_entry("pda"@, pda)];
                assert(short[0].path.segments[0] == "pda"@);
                assert(long[0].path.segments[0] == "mut"@);
                assert(long[1].path.segments[0] == "pda"@);
                constraints_lack(short, key);
                constraints_lack(long, key);
                assert(a == p.attrs[j]);
            }
            assert(has_param_attr(inputs[i], a));
        }
        retargeting_lacks(next, accounts, from + 1, authored, key);
    }
}

proof fn injecting_lacks(
    accounts: Seq<(InjectAccountView, Seq<char>)>,
    pairs: Seq<(Seq<char>, Seq<char>)>,
    from: int,
    s: Injection,
    authored: Seq<FnArgView>,
    key: Seq<char>,
)
    requires
        0 <= from,
        0 <= s.at <= s.inputs.len(),
        !is_constraint_key(key),
        only_authored(s.inputs, authored, key),
    ensures
        inject::inject_from(accounts, pairs, from, s) matches Ok(done) ==> only_authored(
            done.inputs,
            authored,
            key,
        ),
    decreases accounts.len() - from,
{
    if from < accounts.len() {
        let acc = accounts[from].0;
        if let Ok(s2) = inject::inject_one(s, acc, accounts[from].1, pairs) {
            if s2 != s {
                let param = inject::injected_param(acc, pairs);
                assert forall|a: AttributeView| carries_key(a, key) implies !has_param_attr(
                    param,
                    a,
                ) by {
                    let flags = seq![inject::flag_entry("signer"@)];
                    assert(flags[0].path.segments[0] == "signer"@);
                    constraints_lack(flags, key);
                    if let Some(pda) = inject::seeds_expr(
                        inject::seeds_resolved(acc.seeds, pairs),
                    ) {
                        let short = seq![inject::value_entry("pda"@, pda)];
                        assert(short[0].path.segments[0] == "pda"@);
                        constraints_lack(short, key);
                    }
                }
                assert forall|i: int, a: AttributeView|
                    0 <= i < s2.inputs.len() && carries_key(a, key) && #[trigger] has_param_attr(
                        s2.inputs[i],
                        a,
                    ) implies exists|k: int|
                    0 <= k < authored.len() && #[trigger] has_param_attr(authored[k], a) by {
                    if i < s.at {
                        assert(has_param_attr(s.inputs[i], a));
                    } else if i > s.at {
                        assert(s2.inputs[i] == s.inputs[i - 1]);
                        assert(has_param_attr(s.inputs[i - 1], a));
                    }
                }
            }
            injecting_lacks(accounts, pairs, from + 1, s2, authored, key);
        }
    }
}

/// A producer that omits locations writes no `offset`: every attribute of the
/// gated fn, or of a parameter of it, that carries one is an attribute the fn
/// was written with. A role called `offset` is written as any other.
pub proof fn omitting_locations_writes_no_offset(
    func: ItemFnView,
    wraps: Seq<ActiveWrapView>,
    specs: Seq<InjectSpecView>,
    embeds: Seq<EmbedView>,
    qualified: Option<Seq<char>>,
)
    requires
        !names_role(specs, "offset"@),
    ensures
        inject::gated(func, wraps, specs, embeds, GateLocations::Omit, qualified) matches Ok((f, _))
            ==> {
            &&& forall|i: int|
                0 <= i < f.attrs.len() && carries_key(#[trigger] f.attrs[i], "offset"@)
                    ==> func.attrs.contains(f.attrs[i])
            &&& only_authored(f.inputs, func.inputs, "offset"@)
        },
{
    let key = "offset"@;
    let start = inject::gate_start(func, specs, qualified);
    let pairs = inject::remap_of(specs, start);
    let params = attrs::named_params(start.inputs);
    reveal_strlit("offset");
    reveal_strlit("pda");
    reveal_strlit("mut");
    reveal_strlit("signer");
    assert("offset"@[0] != "signer"@[0]);
    assert(!is_constraint_key(key));
    retargeting_lacks(func.inputs, inject::all_accounts(specs), 0, func.inputs, key);
    omitted_wraps_lack(
        wraps,
        specs,
        embeds,
        qualified,
        params,
        pairs,
        0,
        start.attrs,
        func.attrs,
        key,
    );
    if let Ok(wrapped) = inject::wrapped_from(
        wraps,
        specs,
        embeds,
        GateLocations::Omit,
        qualified,
        params,
        pairs,
        0,
        start.attrs,
    ) {
        injecting_lacks(
            inject::called_for(specs, wrapped),
            pairs,
            0,
            inject::before_injection(start.inputs),
            func.inputs,
            key,
        );
    }
}

/// A fn every wrap exempts gets no gate at all: by its own marker, by its
/// qualified name, or because it creates the account a gate would decode.
pub proof fn exempt_fns_get_no_gate(
    func: ItemFnView,
    wraps: Seq<ActiveWrapView>,
    specs: Seq<InjectSpecView>,
    embeds: Seq<EmbedView>,
    locations: GateLocations,
    qualified: Option<Seq<char>>,
)
    requires
        forall|w: int|
            0 <= w < wraps.len() ==> inject::is_exempt(
                #[trigger] wraps[w],
                func.attrs,
                attrs::named_params(inject::gate_start(func, specs, qualified).inputs),
                specs,
                qualified,
            ),
    ensures
        inject::gated(func, wraps, specs, embeds, locations, qualified) matches Ok((f, _))
            ==> only_bare_filled(func.attrs, f.attrs),
        locations == GateLocations::Omit ==> (inject::gated(
            func,
            wraps,
            specs,
            embeds,
            locations,
            qualified,
        ) matches Ok((f, _)) ==> f.attrs == func.attrs),
{
    let start = inject::gate_start(func, specs, qualified);
    let pairs = inject::remap_of(specs, start);
    let params = attrs::named_params(start.inputs);
    all_exempt(wraps, specs, embeds, locations, qualified, params, pairs, 0, start.attrs);
    stamping_fills_bare(start.attrs, specs, pairs, embeds, 0, Seq::empty());
}

proof fn all_exempt(
    wraps: Seq<ActiveWrapView>,
    specs: Seq<InjectSpecView>,
    embeds: Seq<EmbedView>,
    locations: GateLocations,
    qualified: Option<Seq<char>>,
    params: Seq<(Seq<char>, ParamView)>,
    pairs: Seq<(Seq<char>, Seq<char>)>,
    from: int,
    list: Seq<AttributeView>,
)
    requires
        0 <= from,
        forall|w: int|
            0 <= w < wraps.len() ==> inject::is_exempt(
                #[trigger] wraps[w],
                list,
                params,
                specs,
                qualified,
            ),
    ensures
        inject::wrapped_from(wraps, specs, embeds, locations, qualified, params, pairs, from, list)
            == Ok::<Seq<AttributeView>, Seq<char>>(list),
    decreases wraps.len() - from,
{
    if from < wraps.len() {
        all_exempt(wraps, specs, embeds, locations, qualified, params, pairs, from + 1, list);
    }
}

// ── Active wraps ─────────────────────────────────────────────────────────

/// The wraps that stay active for their markers, in order.
pub open spec fn kept(wraps: Seq<(Seq<char>, WrapInstructionsView)>) -> Seq<WrapInstructionsView>
    decreases wraps.len(),
{
    if wraps.len() == 0 {
        Seq::empty()
    } else if inject::is_kept(wraps.last().0, wraps.last().1) {
        kept(wraps.drop_last()).push(wraps.last().1)
    } else {
        kept(wraps.drop_last())
    }
}

proof fn active_step(
    wraps: Seq<(Seq<char>, WrapInstructionsView)>,
    from: int,
    out: Seq<ActiveWrapView>,
)
    requires
        0 <= from <= wraps.len(),
        out.map_values(|w: ActiveWrapView| w.config) == kept(wraps.take(from)),
    ensures
        inject::active_from(wraps, from, out) matches Ok(done) ==> done.map_values(
            |w: ActiveWrapView| w.config,
        ) == kept(wraps),
    decreases wraps.len() - from,
{
    if from == wraps.len() {
        assert(wraps.take(from) =~= wraps);
    } else {
        assert(wraps.take(from + 1).drop_last() =~= wraps.take(from));
        if !inject::is_kept(wraps[from].0, wraps[from].1) {
            active_step(wraps, from + 1, out);
        } else if let Ok(w) = inject::with_path(
            wraps[from].1,
            crate::nodes::parsed_path(wraps[from].1.wrapper),
        ) {
            let f = |w: ActiveWrapView| w.config;
            assert(out.push(w).map_values(f) =~= out.map_values(f).push(w.config));
            active_step(wraps, from + 1, out.push(w));
        }
    }
}

/// The active wraps are those whose skip word the marker does not carry, in
/// the order in which they were declared.
pub proof fn active_wraps_are_the_kept_ones(wraps: Seq<(Seq<char>, WrapInstructionsView)>)
    ensures
        inject::active_from(wraps, 0, Seq::empty()) matches Ok(done) ==> done.map_values(
            |w: ActiveWrapView| w.config,
        ) == kept(wraps),
{
    assert(wraps.take(0) =~= Seq::empty());
    assert(Seq::<ActiveWrapView>::empty().map_values(|w: ActiveWrapView| w.config)
        =~= Seq::empty());
    active_step(wraps, 0, Seq::empty());
}

// ── Seeds ────────────────────────────────────────────────────────────────

proof fn written_call_reads_back(seed: InjectSeedView)
    ensures
        inject::call_seed(inject::seed_call(seed)) == Some(seed),
{
    reveal_strlit("literal");
    reveal_strlit("account");
    assert("literal"@[0] != "account"@[0]);
}

proof fn written_array_reads_back(seeds: Seq<InjectSeedView>, from: int)
    requires
        0 <= from <= seeds.len(),
    ensures
        inject::array_seeds_from(
            seeds.map_values(|s: InjectSeedView| Some(inject::seed_call(s))),
            from,
            seeds.take(from),
        ) == Some(seeds),
    decreases seeds.len() - from,
{
    if from == seeds.len() {
        assert(seeds.take(from) =~= seeds);
    } else {
        written_call_reads_back(seeds[from]);
        assert(seeds.take(from).push(seeds[from]) =~= seeds.take(from + 1));
        written_array_reads_back(seeds, from + 1);
    }
}

/// A `pda` constraint written from seeds reads back as the same seeds.
pub proof fn written_seeds_read_back(seeds: Seq<InjectSeedView>)
    requires
        seeds.len() > 0,
    ensures
        inject::seeds_expr(seeds) matches Some(e) && inject::expr_seeds(e) == Some(seeds),
{
    if seeds.len() == 1 {
        written_call_reads_back(seeds[0]);
        assert(seq![seeds[0]] =~= seeds);
    } else {
        assert(seeds.take(0) =~= Seq::empty());
        written_array_reads_back(seeds, 0);
    }
}

// ── Embedded roles ───────────────────────────────────────────────────────

proof fn offsets_noted(
    specs: Seq<InjectSpecView>,
    now: Seq<InjectSpecView>,
    embeds: Seq<EmbedView>,
    fns: Seq<ItemFnView>,
    from: int,
)
    requires
        0 <= from <= embeds.len(),
        noted(specs, now, embeds.take(from)),
    ensures
        inject::rewritten_from(now, embeds, fns, from) matches Ok(done) ==> noted(
            specs,
            done,
            embeds,
        ),
    decreases embeds.len() - from,
{
    if from == embeds.len() {
        assert(embeds.take(from) =~= embeds);
    } else if let Ok(next) = inject::rewritten(now, embeds[from], fns) {
        let upto = embeds.take(from + 1);
        assert(upto.drop_last() =~= embeds.take(from));
        assert(upto.last() == embeds[from]);
        assert forall|i: int| 0 <= i < specs.len() implies {
            &&& (#[trigger] next[i]).source == specs[i].source
            &&& next[i].wrapper == specs[i].wrapper
            &&& next[i].accounts.len() == specs[i].accounts.len()
            &&& next[i].embedded_offset == match inject::embed_offset(upto, specs[i].source) {
                Some(o) => Some(o),
                None => specs[i].embedded_offset,
            }
        } by {
            assert(now[i].source == specs[i].source);
        }
        offsets_noted(specs, next, embeds, fns, from + 1);
    }
}

/// Whether `now` is `specs` with the offsets of `embeds` noted: each spec has
/// the offset its extension is embedded at, or what it had where it is not.
pub open spec fn noted(
    specs: Seq<InjectSpecView>,
    now: Seq<InjectSpecView>,
    embeds: Seq<EmbedView>,
) -> bool {
    now.len() == specs.len() && forall|i: int|
        0 <= i < specs.len() ==> {
            &&& (#[trigger] now[i]).source == specs[i].source
            &&& now[i].wrapper == specs[i].wrapper
            &&& now[i].accounts.len() == specs[i].accounts.len()
            &&& now[i].embedded_offset == match inject::embed_offset(embeds, specs[i].source) {
                Some(o) => Some(o),
                None => specs[i].embedded_offset,
            }
        }
}

/// Rewriting notes on each spec the offset its extension is embedded at, keeps
/// which extension and wrapper it belongs to, and neither adds nor drops an
/// account.
pub proof fn rewriting_notes_each_offset(
    specs: Seq<InjectSpecView>,
    embeds: Seq<EmbedView>,
    fns: Seq<ItemFnView>,
)
    ensures
        inject::all_rewritten(specs, embeds, fns) matches Ok(done) ==> noted(specs, done, embeds),
{
    assert(embeds.take(0) =~= Seq::empty());
    offsets_noted(specs, specs, embeds, fns, 0);
}

/// Whether two lists of specs differ at most in what embeds write.
spec fn same_roles(a: Seq<InjectSpecView>, b: Seq<InjectSpecView>) -> bool {
    &&& a.len() == b.len()
    &&& forall|i: int|
        0 <= i < a.len() ==> {
            &&& (#[trigger] a[i]).source == b[i].source
            &&& a[i].wrapper == b[i].wrapper
            &&& a[i].accounts.len() == b[i].accounts.len()
        }
    &&& forall|i: int, j: int|
        #![trigger a[i].accounts[j]]
        0 <= i < a.len() && 0 <= j < a[i].accounts.len() ==> {
            &&& a[i].accounts[j].role == b[i].accounts[j].role
            &&& a[i].accounts[j].signer == b[i].accounts[j].signer
        }
}

/// Whether one of the embeds from `from` on is declared by `source`.
spec fn embeds_source(embeds: Seq<EmbedView>, source: Seq<char>, from: int) -> bool {
    exists|e: int| from <= e < embeds.len() && (#[trigger] embeds[e]).source == source
}

/// Whether one of the embeds from `from` on retargets a role of `source`.
spec fn embeds_role(
    embeds: Seq<EmbedView>,
    source: Seq<char>,
    role: Seq<char>,
    from: int,
) -> bool {
    exists|e: int|
        from <= e < embeds.len() && (#[trigger] embeds[e]).source == source && embeds[e].decl.role
            == role
}

/// What the embeds from `from` on write is the same on both lists, and what
/// they do not write stays.
spec fn written_alike(
    a: Seq<InjectSpecView>,
    b: Seq<InjectSpecView>,
    a2: Seq<InjectSpecView>,
    b2: Seq<InjectSpecView>,
    embeds: Seq<EmbedView>,
    from: int,
) -> bool {
    &&& same_roles(a, a2)
    &&& same_roles(b, b2)
    &&& forall|i: int|
        0 <= i < a.len() ==> if embeds_source(embeds, (#[trigger] a[i]).source, from) {
            a2[i].embedded_offset == b2[i].embedded_offset
        } else {
            a2[i].embedded_offset == a[i].embedded_offset && b2[i].embedded_offset
                == b[i].embedded_offset
        }
    &&& forall|i: int, j: int|
        #![trigger a[i].accounts[j]]
        0 <= i < a.len() && 0 <= j < a[i].accounts.len() ==> if embeds_role(
            embeds,
            a[i].source,
            a[i].accounts[j].role,
            from,
        ) {
            a2[i].accounts[j] == b2[i].accounts[j]
        } else {
            a2[i].accounts[j] == a[i].accounts[j] && b2[i].accounts[j] == b[i].accounts[j]
        }
}

proof fn roles_declared_alike(
    a: Seq<InjectSpecView>,
    b: Seq<InjectSpecView>,
    source: Seq<char>,
    role: Seq<char>,
)
    requires
        same_roles(a, b),
        inject::declares_role(a, source, role),
    ensures
        inject::declares_role(b, source, role),
{
    let (i, j) = choose|i: int, j: int|
        #![trigger a[i].accounts[j]]
        0 <= i < a.len() && 0 <= j < a[i].accounts.len() && a[i].source == source
            && a[i].accounts[j].role == role;
    assert(a[i].source == b[i].source);
    assert(b[i].accounts[j].role == role);
}

proof fn rewrites_alike(
    a: Seq<InjectSpecView>,
    b: Seq<InjectSpecView>,
    embeds: Seq<EmbedView>,
    fns: Seq<ItemFnView>,
    from: int,
)
    requires
        0 <= from,
        same_roles(a, b),
    ensures
        inject::rewritten_from(a, embeds, fns, from) matches Ok(a2) ==> {
            inject::rewritten_from(b, embeds, fns, from) matches Ok(b2) && written_alike(
                a,
                b,
                a2,
                b2,
                embeds,
                from,
            )
        },
    decreases embeds.len() - from,
{
    if from < embeds.len() {
        if let Ok(an) = inject::rewritten(a, embeds[from], fns) {
            let embed = embeds[from];
            roles_declared_alike(a, b, embed.source, embed.decl.role);
            let bn = inject::rewritten(b, embed, fns)->Ok_0;
            assert(inject::rewritten(b, embed, fns) is Ok);
            assert forall|i: int| 0 <= i < a.len() implies {
                &&& (#[trigger] an[i]).source == a[i].source
                &&& bn[i].source == b[i].source
                &&& an[i].wrapper == a[i].wrapper
                &&& bn[i].wrapper == b[i].wrapper
                &&& an[i].accounts.len() == a[i].accounts.len()
                &&& bn[i].accounts.len() == b[i].accounts.len()
            } by {
                assert(a[i].source == b[i].source);
            }
            assert forall|i: int, j: int|
                #![trigger an[i].accounts[j]]
                0 <= i < a.len() && 0 <= j < a[i].accounts.len() implies {
                &&& an[i].accounts[j].role == a[i].accounts[j].role
                &&& bn[i].accounts[j].role == b[i].accounts[j].role
                &&& an[i].accounts[j].signer == a[i].accounts[j].signer
                &&& bn[i].accounts[j].signer == b[i].accounts[j].signer
            } by {
                assert(a[i].source == b[i].source);
            }
            assert(same_roles(an, bn));
            rewrites_alike(an, bn, embeds, fns, from + 1);
            if let Ok(a2) = inject::rewritten_from(an, embeds, fns, from + 1) {
                let b2 = inject::rewritten_from(bn, embeds, fns, from + 1)->Ok_0;
                written_alike_step(a, b, an, bn, a2, b2, embeds, fns, from);
            }
        }
    }
}

proof fn written_alike_step(
    a: Seq<InjectSpecView>,
    b: Seq<InjectSpecView>,
    an: Seq<InjectSpecView>,
    bn: Seq<InjectSpecView>,
    a2: Seq<InjectSpecView>,
    b2: Seq<InjectSpecView>,
    embeds: Seq<EmbedView>,
    fns: Seq<ItemFnView>,
    from: int,
)
    requires
        0 <= from < embeds.len(),
        same_roles(a, b),
        inject::rewritten(a, embeds[from], fns) == Ok::<_, Seq<char>>(an),
        inject::rewritten(b, embeds[from], fns) == Ok::<_, Seq<char>>(bn),
        written_alike(an, bn, a2, b2, embeds, from + 1),
    ensures
        written_alike(a, b, a2, b2, embeds, from),
{
    assert forall|i: int| 0 <= i < a.len() implies {
        &&& (#[trigger] a[i]).source == a2[i].source
        &&& a[i].wrapper == a2[i].wrapper
        &&& a[i].accounts.len() == a2[i].accounts.len()
        &&& b[i].source == b2[i].source
        &&& b[i].wrapper == b2[i].wrapper
        &&& b[i].accounts.len() == b2[i].accounts.len()
        &&& if embeds_source(embeds, a[i].source, from) {
            a2[i].embedded_offset == b2[i].embedded_offset
        } else {
            a2[i].embedded_offset == a[i].embedded_offset && b2[i].embedded_offset
                == b[i].embedded_offset
        }
    } by {
        assert(an[i].source == a2[i].source);
        assert(bn[i].source == b2[i].source);
        let source = a[i].source;
        if embeds_source(embeds, source, from + 1) {
            let e = choose|e: int|
                from + 1 <= e < embeds.len() && (#[trigger] embeds[e]).source == source;
            assert(embeds[e].source == source);
        } else if embeds[from].source == source {
            assert(an[i].embedded_offset == bn[i].embedded_offset);
        } else {
            assert(!embeds_source(embeds, source, from));
        }
    }
    assert forall|i: int, j: int|
        #![trigger a[i].accounts[j]]
        0 <= i < a.len() && 0 <= j < a[i].accounts.len() implies {
        &&& a[i].accounts[j].role == a2[i].accounts[j].role
        &&& a[i].accounts[j].signer == a2[i].accounts[j].signer
        &&& b[i].accounts[j].role == b2[i].accounts[j].role
        &&& b[i].accounts[j].signer == b2[i].accounts[j].signer
        &&& if embeds_role(embeds, a[i].source, a[i].accounts[j].role, from) {
            a2[i].accounts[j] == b2[i].accounts[j]
        } else {
            a2[i].accounts[j] == a[i].accounts[j] && b2[i].accounts[j] == b[i].accounts[j]
        }
    } by {
        assert(a[i].source == b[i].source);
        assert(an[i].source == a2[i].source);
        assert(an[i].accounts[j].role == a2[i].accounts[j].role);
        assert(bn[i].accounts[j].role == b2[i].accounts[j].role);
        let source = a[i].source;
        let role = a[i].accounts[j].role;
        if embeds_role(embeds, source, role, from + 1) {
            let e = choose|e: int|
                from + 1 <= e < embeds.len() && (#[trigger] embeds[e]).source == source
                    && embeds[e].decl.role == role;
            assert(embeds[e].source == source);
        } else if embeds[from].source == source && embeds[from].decl.role == role {
            assert(an[i].accounts[j] == bn[i].accounts[j]);
        } else {
            assert(!embeds_role(embeds, source, role, from));
        }
    }
    assert forall|i: int, j: int|
        #![trigger b[i].accounts[j]]
        0 <= i < b.len() && 0 <= j < b[i].accounts.len() implies b[i].accounts[j].role
        == b2[i].accounts[j].role && b[i].accounts[j].signer == b2[i].accounts[j].signer by {
        assert(a[i].accounts.len() == b[i].accounts.len());
        assert(a[i].accounts[j].role == b[i].accounts[j].role);
    }
    assert forall|i: int| 0 <= i < b.len() implies {
        &&& (#[trigger] b[i]).source == b2[i].source
        &&& b[i].wrapper == b2[i].wrapper
        &&& b[i].accounts.len() == b2[i].accounts.len()
    } by {
        assert(a[i].source == b[i].source);
    }
    assert(same_roles(a, a2));
    assert(same_roles(b, b2));
}

/// Rewriting again, for the same embeds and fns, succeeds and changes nothing.
pub proof fn rewriting_is_idempotent(
    specs: Seq<InjectSpecView>,
    embeds: Seq<EmbedView>,
    fns: Seq<ItemFnView>,
)
    ensures
        inject::all_rewritten(specs, embeds, fns) matches Ok(done) ==> inject::all_rewritten(
            done,
            embeds,
            fns,
        ) == Ok::<Seq<InjectSpecView>, Seq<char>>(done),
{
    if let Ok(done) = inject::all_rewritten(specs, embeds, fns) {
        rewrites_alike(specs, specs, embeds, fns, 0);
        assert(same_roles(specs, done));
        rewrites_alike(specs, done, embeds, fns, 0);
        let again = inject::rewritten_from(done, embeds, fns, 0)->Ok_0;
        assert forall|i: int| 0 <= i < done.len() implies again[i] == done[i] by {
            assert(specs[i].source == done[i].source);
            assert forall|j: int| 0 <= j < done[i].accounts.len() implies again[i].accounts[j]
                == done[i].accounts[j] by {
                assert(specs[i].accounts[j].role == done[i].accounts[j].role);
            }
            assert(again[i].accounts =~= done[i].accounts);
        }
        assert(again =~= done);
    }
}

/// The seeds of the consumer's own declaration of an account.
pub open spec fn declared_seeds(fns: Seq<ItemFnView>, account: Seq<char>) -> Option<
    Seq<InjectSeedView>,
> {
    match inject::canonical_constraint(fns, account) {
        Ok(c) => inject::expr_seeds(c),
        Err(_) => None,
    }
}

/// Whether each embedded entry carries the seeds the consumer declares for its
/// account.
pub open spec fn carry_declared_seeds(specs: Seq<InjectSpecView>, fns: Seq<ItemFnView>) -> bool {
    forall|i: int, j: int|
        #![trigger specs[i].accounts[j]]
        0 <= i < specs.len() && 0 <= j < specs[i].accounts.len() && specs[i].accounts[j].embedded
            ==> declared_seeds(fns, specs[i].accounts[j].name) == Some(specs[i].accounts[j].seeds)
}

proof fn seeds_carried(
    now: Seq<InjectSpecView>,
    embeds: Seq<EmbedView>,
    fns: Seq<ItemFnView>,
    from: int,
)
    requires
        0 <= from <= embeds.len(),
        carry_declared_seeds(now, fns),
    ensures
        inject::rewritten_from(now, embeds, fns, from) matches Ok(done) ==> carry_declared_seeds(
            done,
            fns,
        ),
    decreases embeds.len() - from,
{
    if from < embeds.len() {
        if let Ok(next) = inject::rewritten(now, embeds[from], fns) {
            assert forall|i: int, j: int|
                #![trigger next[i].accounts[j]]
                0 <= i < next.len() && 0 <= j < next[i].accounts.len()
                    && next[i].accounts[j].embedded implies declared_seeds(
                fns,
                next[i].accounts[j].name,
            ) == Some(next[i].accounts[j].seeds) by {
                let before = now[i].accounts[j];
                assert(before.embedded ==> declared_seeds(fns, before.name) == Some(before.seeds));
            }
            seeds_carried(next, embeds, fns, from + 1);
        }
    }
}

/// Embedded roles that resolve to one consumer account are one account: each
/// carries the seeds of the consumer's own declaration, so two of them that
/// agree on signing never conflict.
pub proof fn embedded_roles_share_their_account(
    specs: Seq<InjectSpecView>,
    embeds: Seq<EmbedView>,
    fns: Seq<ItemFnView>,
)
    requires
        forall|i: int, j: int|
            #![trigger specs[i].accounts[j]]
            0 <= i < specs.len() && 0 <= j < specs[i].accounts.len()
                ==> !specs[i].accounts[j].embedded,
    ensures
        inject::all_rewritten(specs, embeds, fns) matches Ok(done) ==> {
            &&& carry_declared_seeds(done, fns)
            &&& forall|i: int, j: int, k: int, l: int|
                #![trigger done[i].accounts[j], done[k].accounts[l]]
                0 <= i < done.len() && 0 <= j < done[i].accounts.len() && 0 <= k < done.len() && 0
                    <= l < done[k].accounts.len() && done[i].accounts[j].embedded
                    && done[k].accounts[l].embedded && done[i].accounts[j].name
                    == done[k].accounts[l].name && done[i].accounts[j].signer
                    == done[k].accounts[l].signer ==> inject::agree(
                    done[i].accounts[j],
                    done[k].accounts[l],
                )
        },
{
    seeds_carried(specs, embeds, fns, 0);
}

proof fn no_collision_with(a: EmbedView, embeds: Seq<EmbedView>, from: int)
    requires
        0 <= from,
    ensures
        inject::collision_with(a, embeds, from) is None <==> forall|j: int|
            from <= j < embeds.len() ==> !inject::collides(a.decl, (#[trigger] embeds[j]).decl),
    decreases embeds.len() - from,
{
    if from < embeds.len() {
        no_collision_with(a, embeds, from + 1);
        if !inject::collides(a.decl, embeds[from].decl) {
            assert((forall|j: int|
                from <= j < embeds.len() ==> !inject::collides(a.decl, (#[trigger] embeds[j]).decl))
                <==> (forall|j: int|
                from + 1 <= j < embeds.len() ==> !inject::collides(
                    a.decl,
                    (#[trigger] embeds[j]).decl,
                )));
        }
    }
}

proof fn no_collisions(embeds: Seq<EmbedView>, from: int)
    requires
        0 <= from,
    ensures
        inject::collisions_from(embeds, from) is Ok <==> forall|i: int, j: int|
            from <= i < j < embeds.len() ==> !inject::collides(
                (#[trigger] embeds[i]).decl,
                (#[trigger] embeds[j]).decl,
            ),
    decreases embeds.len() - from,
{
    if from < embeds.len() {
        no_collision_with(embeds[from], embeds, from + 1);
        no_collisions(embeds, from + 1);
        if inject::collisions_from(embeds, from) is Ok {
            assert forall|i: int, j: int| from <= i < j < embeds.len() implies !inject::collides(
                (#[trigger] embeds[i]).decl,
                (#[trigger] embeds[j]).decl,
            ) by {}
        }
    }
}

/// Embeds are accepted together exactly when no two of them claim the same
/// literal offset of the same account.
pub proof fn accepted_embeds_do_not_collide(embeds: Seq<EmbedView>)
    ensures
        inject::collisions_from(embeds, 0) is Ok <==> forall|i: int, j: int|
            0 <= i < j < embeds.len() ==> !inject::collides(
                (#[trigger] embeds[i]).decl,
                (#[trigger] embeds[j]).decl,
            ),
{
    no_collisions(embeds, 0);
}

proof fn creating_found(decls: Seq<PdaDeclView>, from: int)
    requires
        0 <= from,
    ensures
        inject::creating_decl(decls, from) matches Some(d) ==> exists|i: int|
            from <= i < decls.len() && (#[trigger] decls[i]) == d && d.has_init,
        inject::creating_decl(decls, from) is None ==> forall|i: int|
            from <= i < decls.len() ==> !(#[trigger] decls[i]).has_init,
    decreases decls.len() - from,
{
    if from < decls.len() {
        creating_found(decls, from + 1);
        if decls[from].has_init {
            assert(decls[from] == inject::creating_decl(decls, from)->Some_0);
        }
    }
}

proof fn no_conflict(decls: Seq<PdaDeclView>, pda: Seq<char>, from: int)
    requires
        0 <= from,
    ensures
        inject::conflicting_decl(decls, pda, from) is None <==> forall|i: int|
            from <= i < decls.len() ==> (#[trigger] decls[i]).pda.text == pda,
    decreases decls.len() - from,
{
    if from < decls.len() {
        no_conflict(decls, pda, from + 1);
    }
}

/// An embedded account has a canonical constraint exactly when some instruction
/// creates it and all declarations of it agree; the constraint is then that of
/// a creating declaration.
pub proof fn canonical_constraint_is_agreed(fns: Seq<ItemFnView>, account: Seq<char>)
    ensures
        ({
            let decls = inject::fn_decls(fns, account);
            &&& inject::canonical_constraint(fns, account) is Ok <==> {
                &&& exists|i: int| 0 <= i < decls.len() && (#[trigger] decls[i]).has_init
                &&& forall|i: int, j: int|
                    0 <= i < decls.len() && 0 <= j < decls.len() ==> (#[trigger] decls[i]).pda.text
                        == (#[trigger] decls[j]).pda.text
            }
            &&& inject::canonical_constraint(fns, account) matches Ok(p) ==> exists|i: int|
                0 <= i < decls.len() && (#[trigger] decls[i]).has_init && decls[i].pda == p
        }),
{
    let decls = inject::fn_decls(fns, account);
    creating_found(decls, 0);
    if let Some(d) = inject::creating_decl(decls, 0) {
        no_conflict(decls, d.pda.text, 0);
    }
}

proof fn covered(fns: Seq<ItemFnView>, account: Seq<char>, anchor: Seq<char>, from: int)
    requires
        0 <= from,
    ensures
        inject::coverage_from(fns, account, anchor, from) is Ok <==> forall|i: int|
            from <= i < fns.len() ==> inject::creates(
                attrs::named_params((#[trigger] fns[i]).inputs),
                account,
            ) == inject::carries_initializer(fns[i].attrs, anchor),
    decreases fns.len() - from,
{
    if from < fns.len() {
        covered(fns, account, anchor, from + 1);
    }
}

/// An embed's initializer is covered exactly when the instructions that create
/// the account are the ones that carry the initializer.
pub proof fn initializer_goes_with_creation(
    embed: EmbedDeclView,
    fns: Seq<ItemFnView>,
)
    ensures
        embed.initializer matches Some(anchor) ==> (inject::coverage(embed, fns) is Ok
            <==> forall|i: int|
            0 <= i < fns.len() ==> inject::creates(
                attrs::named_params((#[trigger] fns[i]).inputs),
                embed.account,
            ) == inject::carries_initializer(fns[i].attrs, anchor)),
        embed.initializer is None ==> inject::coverage(embed, fns) is Ok,
{
    if let Some(anchor) = embed.initializer {
        covered(fns, embed.account, anchor, 0);
    }
}

proof fn none_derived(embeds: Seq<EmbedView>, from: int)
    requires
        0 <= from,
    ensures
        inject::first_derived(embeds, from) is None <==> forall|i: int|
            from <= i < embeds.len() ==> !((#[trigger] embeds[i]).decl.offset is Derived),
    decreases embeds.len() - from,
{
    if from < embeds.len() {
        none_derived(embeds, from + 1);
    }
}

/// A producer that writes locations starts only once no derived offset is left;
/// one that omits them needs none.
pub proof fn locations_need_resolved_offsets(embeds: Seq<EmbedView>)
    ensures
        inject::locations_ready(embeds, GateLocations::Emit) is Ok <==> forall|i: int|
            0 <= i < embeds.len() ==> !((#[trigger] embeds[i]).decl.offset is Derived),
        inject::locations_ready(embeds, GateLocations::Omit) is Ok,
{
    none_derived(embeds, 0);
}

} // verus!
