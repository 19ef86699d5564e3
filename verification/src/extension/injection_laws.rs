//! What an injected parameter says: what its account declares, in the names of the
//! fn it is injected into.
use crate::account_laws;
use crate::extension::gate_laws;
use crate::extension::inject;
use crate::extension::inject::Injection;
use crate::extension::{InjectAccountView, InjectSeedView, InjectSpecView};
use crate::nodes;
use crate::syntax::{
    AttributeView, CallView, ExprKindView, ExprView, FnArgView, ItemFnView,
    TypeView,
};
use crate::text;
use vstd::prelude::*;

verus! {

// ── Names ────────────────────────────────────────────────────────────────

/// Whether the role `name` goes by `other`: the last pair for it says so, or there
/// is none and it keeps its name.
pub open spec fn goes_by(
    pairs: Seq<(Seq<char>, Seq<char>)>,
    name: Seq<char>,
    other: Seq<char>,
) -> bool {
    ||| exists|i: int|
        0 <= i < pairs.len() && #[trigger] pairs[i] == (name, other) && forall|j: int|
            i < j < pairs.len() ==> (#[trigger] pairs[j]).0 != name
    ||| other == name && forall|j: int| 0 <= j < pairs.len() ==> (#[trigger] pairs[j]).0 != name
}

/// The name a remap resolves a role to is the one it goes by.
pub proof fn resolved_names_are_gone_by(pairs: Seq<(Seq<char>, Seq<char>)>, name: Seq<char>)
    ensures
        goes_by(pairs, name, inject::resolved(pairs, name)),
{
    resolved_is_gone_by(pairs, name);
}

proof fn resolved_is_gone_by(pairs: Seq<(Seq<char>, Seq<char>)>, name: Seq<char>)
    ensures
        goes_by(pairs, name, inject::resolved(pairs, name)),
        inject::mapped(pairs, name) is None ==> forall|j: int|
            0 <= j < pairs.len() ==> (#[trigger] pairs[j]).0 != name,
    decreases pairs.len(),
{
    if pairs.len() > 0 {
        let init = pairs.drop_last();
        let other = inject::resolved(pairs, name);
        if pairs.last().0 == name {
            assert(pairs[pairs.len() - 1] == (name, other));
        } else {
            resolved_is_gone_by(init, name);
            assert(inject::resolved(init, name) == other);
            if inject::mapped(init, name) is None {
                assert forall|j: int| 0 <= j < pairs.len() implies (#[trigger] pairs[j]).0
                    != name by {
                    if j < init.len() {
                        assert(init[j] == pairs[j]);
                    }
                }
            } else {
                let i = choose|i: int|
                    0 <= i < init.len() && #[trigger] init[i] == (name, other) && forall|j: int|
                        i < j < init.len() ==> (#[trigger] init[j]).0 != name;
                if 0 <= i < init.len() && init[i] == (name, other) {
                    assert(pairs[i] == (name, other));
                    assert forall|j: int| i < j < pairs.len() implies (#[trigger] pairs[j]).0
                        != name by {
                        if j < init.len() {
                            assert(init[j] == pairs[j]);
                        }
                    }
                } else {
                    mapped_pair(init, name);
                }
            }
        }
    }
}

proof fn mapped_pair(pairs: Seq<(Seq<char>, Seq<char>)>, name: Seq<char>)
    ensures
        inject::mapped(pairs, name) matches Some(other) ==> exists|i: int|
            0 <= i < pairs.len() && #[trigger] pairs[i] == (name, other),
    decreases pairs.len(),
{
    if pairs.len() > 0 && pairs.last().0 != name {
        let init = pairs.drop_last();
        mapped_pair(init, name);
        if let Some(other) = inject::mapped(init, name) {
            let i = choose|i: int| 0 <= i < init.len() && #[trigger] init[i] == (name, other);
            assert(pairs[i] == (name, other));
        }
    } else if pairs.len() > 0 {
        assert(pairs[pairs.len() - 1] == (name, pairs.last().1));
    }
}

// ── Parameters ───────────────────────────────────────────────────────────

/// Whether a call is written for a seed: a constant as it is, an account by the
/// name its role goes by.
pub open spec fn is_call_of(
    call: CallView,
    seed: InjectSeedView,
    pairs: Seq<(Seq<char>, Seq<char>)>,
) -> bool {
    match seed {
        InjectSeedView::Const(v) => call.func == Some("literal"@) && call.args == seq![Some(v)],
        InjectSeedView::Account(v) => call.func == Some("account"@) && call.args.len() == 1 && (
        call.args[0] matches Some(other) && goes_by(pairs, v, other)),
    }
}

/// A call with a text as its argument, as source.
pub open spec fn call_source(call: CallView) -> Seq<char> {
    call.func->Some_0 + " ("@ + nodes::literal_text(call.args[0]->Some_0) + ")"@
}

/// Calls, as the source of array elements.
pub open spec fn calls_source(calls: Seq<CallView>) -> Seq<char>
    decreases calls.len(),
{
    if calls.len() == 0 {
        Seq::empty()
    } else if calls.len() == 1 {
        call_source(calls[0])
    } else {
        calls_source(calls.drop_last()) + " , "@ + call_source(calls.last())
    }
}

/// Whether an expression is written for seeds: one call, or an array of as many
/// calls as there are seeds, in their order.
pub open spec fn is_expr_of(
    v: ExprView,
    seeds: Seq<InjectSeedView>,
    pairs: Seq<(Seq<char>, Seq<char>)>,
) -> bool {
    exists|calls: Seq<CallView>| #[trigger]
        are_calls_of(calls, seeds, pairs) && if seeds.len() == 1 {
            v.kind == ExprKindView::Call(calls[0]) && v.text == call_source(calls[0])
        } else {
            v.kind == ExprKindView::Array(Seq::new(seeds.len(), |i: int| Some(calls[i])))
                && v.text == "["@ + calls_source(calls) + "]"@
        }
}

/// Whether calls are written for seeds, one for one.
pub open spec fn are_calls_of(
    calls: Seq<CallView>,
    seeds: Seq<InjectSeedView>,
    pairs: Seq<(Seq<char>, Seq<char>)>,
) -> bool {
    calls.len() == seeds.len() && forall|i: int|
        0 <= i < seeds.len() ==> is_call_of(#[trigger] calls[i], seeds[i], pairs)
}

/// Whether an attribute is `#[account(...)]` with the one entry `word`.
pub open spec fn says_only(attr: AttributeView, word: Seq<char>) -> bool {
    account_laws::says(attr, 0, word) && attr.form->List_0.entries.len() == 1
        && attr.form->List_0.stop is None
}

/// Whether a parameter is the one an account calls for: an account of that name,
/// with the account's address in the names of the fn, or else its signature.
pub open spec fn is_param_of(
    input: FnArgView,
    acc: InjectAccountView,
    pairs: Seq<(Seq<char>, Seq<char>)>,
) -> bool {
    input matches FnArgView::Typed(p) && {
        &&& p.name == Some(acc.name)
        &&& p.ty == (TypeView::Named { ident: "AccountWithMetadata"@, arg: None })
        &&& if acc.seeds.len() > 0 {
            p.attrs.len() == 1 && says_only(p.attrs[0], "pda"@) && (account_laws::value_at(
                p.attrs[0],
                0,
            ) matches Some(v) && is_expr_of(v, acc.seeds, pairs))
        } else if acc.signer {
            p.attrs.len() == 1 && says_only(p.attrs[0], "signer"@)
        } else {
            p.attrs.len() == 0
        }
    }
}

proof fn source_of_call(seed: InjectSeedView)
    ensures
        inject::seed_text(seed) == call_source(inject::seed_call(seed)),
{
    reveal_strlit("literal (");
    reveal_strlit("account (");
    reveal_strlit("literal");
    reveal_strlit("account");
    reveal_strlit(" (");
    assert("literal ("@ =~= "literal"@ + " ("@);
    assert("account ("@ =~= "account"@ + " ("@);
}

proof fn source_of_calls(words: Seq<Seq<char>>, calls: Seq<CallView>, from: int)
    requires
        words.len() == calls.len(),
        forall|i: int| 0 <= i < words.len() ==> #[trigger] words[i] == call_source(calls[i]),
        0 <= from <= words.len(),
    ensures
        calls_source(calls) == calls_source(calls.take(from)) + text::separated(
            words,
            " , "@,
            from,
        ),
    decreases words.len() - from,
{
    if from < words.len() {
        source_of_calls(words, calls, from + 1);
        let next = calls.take(from + 1);
        assert(next.drop_last() =~= calls.take(from));
        assert(next.last() == calls[from]);
        let rest = text::separated(words, " , "@, from + 1);
        if from == 0 {
            assert(calls.take(0) =~= Seq::empty());
            assert(calls_source(next) + rest =~= calls_source(calls.take(0)) + (words[0] + rest));
        } else {
            assert(calls_source(next) + rest =~= calls_source(calls.take(from)) + (" , "@
                + words[from] + rest));
        }
    } else {
        assert(calls.take(from) =~= calls);
        assert(calls_source(calls) + Seq::<char>::empty() =~= calls_source(calls));
    }
}

/// The address of an account is written with one call for each of its seeds, in the
/// names of the fn.
pub proof fn addresses_are_written(
    seeds: Seq<InjectSeedView>,
    pairs: Seq<(Seq<char>, Seq<char>)>,
)
    requires
        seeds.len() > 0,
    ensures
        inject::seeds_expr(inject::seeds_resolved(seeds, pairs)) matches Some(v) && is_expr_of(
            v,
            seeds,
            pairs,
        ),
{
    let named = inject::seeds_resolved(seeds, pairs);
    let calls = Seq::new(named.len(), |i: int| inject::seed_call(named[i]));
    let words = named.map_values(|s: InjectSeedView| inject::seed_text(s));
    assert forall|i: int| 0 <= i < seeds.len() implies is_call_of(
        #[trigger] calls[i],
        seeds[i],
        pairs,
    ) by {
        if let InjectSeedView::Account(v) = seeds[i] {
            resolved_is_gone_by(pairs, v);
        }
    }
    assert forall|i: int| 0 <= i < words.len() implies #[trigger] words[i] == call_source(
        calls[i],
    ) by {
        source_of_call(named[i]);
    }
    assert(are_calls_of(calls, seeds, pairs));
    source_of_calls(words, calls, 0);
    assert(calls.take(0) =~= Seq::empty());
    assert(calls_source(calls) =~= text::separated(words, " , "@, 0));
    if seeds.len() > 1 {
        assert(named.map_values(|s: InjectSeedView| Some(inject::seed_call(s))) =~= Seq::new(
            seeds.len(),
            |i: int| Some(calls[i]),
        ));
    } else {
        source_of_call(named[0]);
    }
}

proof fn param_is_written(acc: InjectAccountView, pairs: Seq<(Seq<char>, Seq<char>)>)
    ensures
        is_param_of(inject::injected_param(acc, pairs), acc, pairs),
{
    let named = inject::seeds_resolved(acc.seeds, pairs);
    let p = inject::injected_param(acc, pairs)->Typed_0;
    if acc.seeds.len() > 0 {
        addresses_are_written(acc.seeds, pairs);
        let v = inject::seeds_expr(named)->Some_0;
        assert(account_laws::value_at(p.attrs[0], 0) == Some(v));
    }
}

// ── Injection ────────────────────────────────────────────────────────────

/// Whether a spec is active on a fn: one of its attributes ends in the wrapper's
/// name, bare or with arguments.
pub open spec fn is_active(spec: InjectSpecView, list: Seq<AttributeView>) -> bool {
    exists|i: int|
        0 <= i < list.len() && (#[trigger] list[i]).path.segments.len() > 0
            && list[i].path.segments.last() == spec.wrapper && !(list[i].form is Value)
}

/// Whether an account is one an active spec calls for.
pub open spec fn is_called_for(
    acc: InjectAccountView,
    specs: Seq<InjectSpecView>,
    list: Seq<AttributeView>,
) -> bool {
    exists|s: int, a: int|
        #![trigger specs[s].accounts[a]]
        0 <= s < specs.len() && is_active(specs[s], list) && 0 <= a < specs[s].accounts.len()
            && specs[s].accounts[a] == acc
}

proof fn active_is_activated(spec: InjectSpecView, list: Seq<AttributeView>)
    ensures
        inject::activates(spec, list) == is_active(spec, list),
{
    if is_active(spec, list) {
        let i = choose|i: int|
            0 <= i < list.len() && (#[trigger] list[i]).path.segments.len() > 0
                && list[i].path.segments.last() == spec.wrapper && !(list[i].form is Value);
        assert(list[i].path.ends(spec.wrapper));
    }
    if inject::activates(spec, list) {
        let i = choose|i: int|
            0 <= i < list.len() && (#[trigger] list[i]).path.ends(spec.wrapper) && !(
            list[i].form is Value);
        assert(list[i].path.segments.len() > 0);
    }
}

proof fn listed_is_called_for(specs: Seq<InjectSpecView>, list: Seq<AttributeView>)
    ensures
        forall|i: int|
            0 <= i < inject::called_for(specs, list).len() ==> is_called_for(
                (#[trigger] inject::called_for(specs, list)[i]).0,
                specs,
                list,
            ),
        forall|acc: InjectAccountView| #[trigger]
            is_called_for(acc, specs, list) ==> exists|i: int|
                0 <= i < inject::called_for(specs, list).len() && (#[trigger] inject::called_for(
                    specs,
                    list,
                )[i]).0 == acc,
    decreases specs.len(),
{
    let all = inject::called_for(specs, list);
    if specs.len() > 0 {
        let init = specs.drop_last();
        let last = specs.last();
        let before = inject::called_for(init, list);
        listed_is_called_for(init, list);
        active_is_activated(last, list);
        assert forall|i: int| 0 <= i < all.len() implies is_called_for(
            (#[trigger] all[i]).0,
            specs,
            list,
        ) by {
            if i < before.len() {
                assert(all[i] == before[i]);
                let (s, a) = choose|s: int, a: int|
                    #![trigger init[s].accounts[a]]
                    0 <= s < init.len() && is_active(init[s], list) && 0 <= a
                        < init[s].accounts.len() && init[s].accounts[a] == before[i].0;
                assert(specs[s] == init[s]);
                assert(specs[s].accounts[a] == all[i].0);
            } else {
                let a = i - before.len();
                assert(specs[specs.len() - 1].accounts[a] == all[i].0);
            }
        }
        assert forall|acc: InjectAccountView| #[trigger]
            is_called_for(acc, specs, list) implies exists|i: int|
            0 <= i < all.len() && (#[trigger] all[i]).0 == acc by {
            let (s, a) = choose|s: int, a: int|
                #![trigger specs[s].accounts[a]]
                0 <= s < specs.len() && is_active(specs[s], list) && 0 <= a
                    < specs[s].accounts.len() && specs[s].accounts[a] == acc;
            if s < init.len() {
                assert(init[s] == specs[s]);
                assert(init[s].accounts[a] == acc);
                assert(is_called_for(acc, init, list));
                let i = choose|i: int| 0 <= i < before.len() && (#[trigger] before[i]).0 == acc;
                assert(all[i] == before[i]);
            } else {
                assert(all[before.len() + a].0 == acc);
            }
        }
    }
}

/// Where injected parameters stand: behind a program context in front, else first.
pub open spec fn front(inputs: Seq<FnArgView>) -> int {
    if inputs.len() > 0 && (inputs[0] matches FnArgView::Typed(p) && (
    p.ty matches TypeView::Named { ident, .. } && ident == "ProgramContext"@)) {
        1
    } else {
        0
    }
}

/// What injection has put in place so far.
spec fn placed(
    inputs: Seq<FnArgView>,
    accounts: Seq<(InjectAccountView, Seq<char>)>,
    pairs: Seq<(Seq<char>, Seq<char>)>,
    s: Injection,
) -> bool {
    let at = front(inputs);
    let k = s.injected.len() as int;
    &&& s.at == at + k
    &&& s.by.len() == k
    &&& s.inputs.len() == inputs.len() + k
    &&& forall|i: int|
        0 <= i < k ==> {
            &&& s.injected[i] == (#[trigger] s.by[i]).1.name
            &&& s.inputs[at + i] == inject::injected_param(s.by[i].1, pairs)
            &&& exists|a: int| 0 <= a < accounts.len() && (#[trigger] accounts[a]).0 == s.by[i].1
        }
}

proof fn places(
    inputs: Seq<FnArgView>,
    accounts: Seq<(InjectAccountView, Seq<char>)>,
    pairs: Seq<(Seq<char>, Seq<char>)>,
    from: int,
    s: Injection,
)
    requires
        0 <= from,
        placed(inputs, accounts, pairs, s),
    ensures
        inject::inject_from(accounts, pairs, from, s) matches Ok(done) ==> placed(
            inputs,
            accounts,
            pairs,
            done,
        ),
    decreases accounts.len() - from,
{
    if from < accounts.len() {
        let acc = accounts[from].0;
        if let Ok(s2) = inject::inject_one(s, acc, accounts[from].1, pairs) {
            let at = front(inputs);
            let k = s.injected.len() as int;
            if s2 != s {
                assert forall|i: int| 0 <= i < k + 1 implies {
                    &&& s2.injected[i] == (#[trigger] s2.by[i]).1.name
                    &&& s2.inputs[at + i] == inject::injected_param(s2.by[i].1, pairs)
                    &&& exists|a: int|
                        0 <= a < accounts.len() && (#[trigger] accounts[a]).0 == s2.by[i].1
                } by {
                    if i < k {
                        assert(s2.by[i] == s.by[i]);
                        assert(s2.inputs[at + i] == s.inputs[at + i]);
                    } else {
                        assert(accounts[from].0 == s2.by[i].1);
                    }
                }
            }
            places(inputs, accounts, pairs, from + 1, s2);
        }
    }
}

/// An injected parameter says what its account declares: its address by the
/// account's own seeds, each constant kept and each account by the name that role
/// goes by in the fn; and a signer without seeds signs. Nothing else is injected
/// than what the active gates call for.
pub proof fn injected_params_say_what_is_declared(
    func: ItemFnView,
    specs: Seq<InjectSpecView>,
    pairs: Seq<(Seq<char>, Seq<char>)>,
)
    ensures
        inject::injected(func, specs, pairs) matches Ok((f, names)) ==> f.inputs.len()
            == func.inputs.len() + names.len() && forall|i: int|
            0 <= i < names.len() ==> exists|acc: InjectAccountView|
                (#[trigger] names[i]) == acc.name && #[trigger] is_called_for(
                    acc,
                    specs,
                    func.attrs,
                ) && is_param_of(f.inputs[front(func.inputs) + i], acc, pairs),
{
    let accounts = inject::called_for(specs, func.attrs);
    places(func.inputs, accounts, pairs, 0, inject::before_injection(func.inputs));
    if let Ok(s) = inject::inject_from(
        accounts,
        pairs,
        0,
        inject::before_injection(func.inputs),
    ) {
        listed_is_called_for(specs, func.attrs);
        assert forall|i: int| 0 <= i < s.injected.len() implies exists|acc: InjectAccountView|
            (#[trigger] s.injected[i]) == acc.name && #[trigger] is_called_for(
                acc,
                specs,
                func.attrs,
            ) && is_param_of(s.inputs[front(func.inputs) + i], acc, pairs) by {
            let acc = s.by[i].1;
            param_is_written(acc, pairs);
            assert(is_called_for(acc, specs, func.attrs));
        }
    }
}

/// Whether one of the parameters is called `name`.
pub open spec fn has_named(inputs: Seq<FnArgView>, name: Seq<char>) -> bool {
    exists|i: int|
        0 <= i < inputs.len() && (#[trigger] inputs[i] matches FnArgView::Typed(p) && p.name
            == Some(name))
}

/// A role goes by one name alone, the one a remap resolves it to.
pub proof fn names_gone_by_are_resolved(
    pairs: Seq<(Seq<char>, Seq<char>)>,
    name: Seq<char>,
    other: Seq<char>,
)
    requires
        goes_by(pairs, name, other),
    ensures
        other == inject::resolved(pairs, name),
{
    resolved_is_gone_by(pairs, name);
}

proof fn param_is_named(inputs: Seq<FnArgView>, name: Seq<char>)
    ensures
        inject::has_param(inputs, name) == has_named(inputs, name),
{
    if has_named(inputs, name) {
        let i = choose|i: int|
            0 <= i < inputs.len() && (#[trigger] inputs[i] matches FnArgView::Typed(p) && p.name
                == Some(name));
        assert(inject::is_param(inputs[i], name));
    }
    if inject::has_param(inputs, name) {
        let i = choose|i: int|
            0 <= i < inputs.len() && inject::is_param(#[trigger] inputs[i], name);
        assert(inputs[i] matches FnArgView::Typed(p) && p.name == Some(name));
    }
}

/// No address hangs in the air: whatever role an active gate calls for, the fn
/// has a parameter of the name that role goes by, so an account seed that names
/// such a role, or a parameter the fn declares, names a parameter of the gated fn.
pub proof fn seeds_name_params_of_the_fn(
    func: ItemFnView,
    specs: Seq<InjectSpecView>,
    role: Seq<char>,
    other: Seq<char>,
)
    requires
        goes_by(inject::remap_of(specs, func), role, other),
        has_named(func.inputs, role) || exists|acc: InjectAccountView|
            #![trigger is_called_for(acc, specs, func.attrs)]
            is_called_for(acc, specs, func.attrs) && acc.name == role,
    ensures
        inject::injected(func, specs, inject::remap_of(specs, func)) matches Ok((f, _))
            ==> has_named(f.inputs, other),
{
    let pairs = inject::remap_of(specs, func);
    gate_laws::remap_leads_to_declared(specs, func);
    names_gone_by_are_resolved(pairs, role, other);
    if let Ok((f, names)) = inject::injected(func, specs, pairs) {
        param_is_named(f.inputs, other);
        param_is_named(func.inputs, other);
        if exists|acc: InjectAccountView|
            #![trigger is_called_for(acc, specs, func.attrs)]
            is_called_for(acc, specs, func.attrs) && acc.name == role {
            let acc = choose|acc: InjectAccountView|
                #![trigger is_called_for(acc, specs, func.attrs)]
                is_called_for(acc, specs, func.attrs) && acc.name == role;
            listed_is_called_for(specs, func.attrs);
            gate_laws::every_role_is_filled(func, specs, pairs);
            let all = inject::called_for(specs, func.attrs);
            let i = choose|i: int| 0 <= i < all.len() && (#[trigger] all[i]).0 == acc;
            assert(inject::has_param(f.inputs, inject::resolved(pairs, all[i].0.name)));
        } else {
            gate_laws::injection_only_adds(func, specs, pairs);
            if inject::mapped(pairs, role) is Some {
                mapped_pair(pairs, role);
                let i = choose|i: int|
                    0 <= i < pairs.len() && #[trigger] pairs[i] == (role, other);
                assert(inject::has_param(func.inputs, pairs[i].1));
            }
            assert(has_named(func.inputs, other));
            let at = inject::insert_at(func.inputs);
            let k = names.len();
            let j = choose|j: int|
                0 <= j < func.inputs.len() && (#[trigger] func.inputs[j] matches FnArgView::Typed(
                    p,
                ) && p.name == Some(other));
            if j < at {
                assert(f.inputs.take(at)[j] == func.inputs.take(at)[j]);
                assert(f.inputs[j] == func.inputs[j]);
            } else {
                assert(f.inputs.skip(at + k)[j - at] == func.inputs.skip(at)[j - at]);
                assert(f.inputs[j + k] == func.inputs[j]);
            }
        }
    }
}

} // verus!
