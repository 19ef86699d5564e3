//! What the IDL says of an instruction's accounts and arguments: what its
//! parameters declare.
use crate::account_types;
use crate::closure_laws;
use crate::idl::{IdlAccountItemView, IdlPdaView, IdlSeedView};
use crate::idl_gen;
use crate::idl_gen::{
    AccountConstraintsView, AccountParamView, ArgParamView, InstructionInfoView, PdaSeedDefView,
};
use crate::syntax::{
    AttrFormView, AttributeView, CallView, EntryView, ExprKindView, ExprView, FnArgView,
    ItemFnView, PathView, TypeView,
};
use crate::text;
use vstd::prelude::*;

verus! {

// ── What a parameter declares ────────────────────────────────────────────

/// Whether a path is just `name`.
pub open spec fn just(path: PathView, name: Seq<char>) -> bool {
    !path.leading_colon && path.segments == seq![name]
}

/// Whether entry `e` of the argument list of an `#[account(...)]` attribute is
/// `word`.
pub open spec fn says(attr: AttributeView, e: int, word: Seq<char>) -> bool {
    just(attr.path, "account"@) && (attr.form matches AttrFormView::List(l) && 0 <= e
        < l.entries.len() && just(l.entries[e].path, word))
}

/// The value of entry `e` of an attribute's argument list.
pub open spec fn value_at(attr: AttributeView, e: int) -> Option<ExprView> {
    attr.form->List_0.entries[e].value
}

/// Whether one of the attributes is an `#[account(...)]` with the entry `word`.
pub open spec fn declares(list: Seq<AttributeView>, word: Seq<char>) -> bool {
    exists|a: int, e: int| 0 <= a < list.len() && #[trigger] says(list[a], e, word)
}

/// Whether entry `e` of attribute `a` is the last `pda` constraint.
pub open spec fn is_last_pda(list: Seq<AttributeView>, a: int, e: int) -> bool {
    &&& 0 <= a < list.len()
    &&& says(list[a], e, "pda"@)
    &&& forall|b: int, f: int|
        0 <= b < list.len() && (b > a || (b == a && f > e)) ==> !#[trigger] says(
            list[b],
            f,
            "pda"@,
        )
}

/// Whether a call is written for a seed: its name gives the kind, its only
/// argument the text.
pub open spec fn is_seed_call(call: CallView, seed: PdaSeedDefView) -> bool {
    call.args.len() == 1 && match seed {
        PdaSeedDefView::Const(v) => call.args[0] == Some(v) && (call.func == Some("literal"@)
            || call.func == Some("const"@) || call.func == Some("r#const"@) || call.func == Some(
            "seed_const"@,
        )),
        PdaSeedDefView::Account(v) => call.args[0] == Some(v) && call.func == Some("account"@),
        PdaSeedDefView::Arg(v) => call.args[0] == Some(v) && call.func == Some("arg"@),
    }
}

/// Whether an expression is written for seeds: a call for one, an array of calls
/// for as many as it has, in order.
pub open spec fn is_seeds_expr(v: ExprView, seeds: Seq<PdaSeedDefView>) -> bool {
    match v.kind {
        ExprKindView::Call(call) => seeds.len() == 1 && is_seed_call(call, seeds[0]),
        ExprKindView::Array(elems) => seeds.len() == elems.len() && forall|i: int|
            0 <= i < seeds.len() ==> (#[trigger] elems[i] matches Some(call) && is_seed_call(
                call,
                seeds[i],
            )),
        _ => false,
    }
}

/// Whether seeds are those the attributes declare: none without a `pda`
/// constraint, and else those of the last one.
pub open spec fn are_declared(list: Seq<AttributeView>, seeds: Seq<PdaSeedDefView>) -> bool {
    &&& !declares(list, "pda"@) ==> seeds.len() == 0
    &&& forall|a: int, e: int| #[trigger]
        is_last_pda(list, a, e) ==> (value_at(list[a], e) matches Some(v) && is_seeds_expr(
            v,
            seeds,
        ))
}

/// A path is just a name where it has that one piece alone.
pub proof fn paths_are_just(path: PathView, name: Seq<char>)
    ensures
        path.is(name) == just(path, name),
{
    just_is(path, name);
}

proof fn just_is(path: PathView, name: Seq<char>)
    ensures
        path.is(name) == just(path, name),
{
    if path.is(name) {
        assert(path.segments =~= seq![name]);
    }
}

proof fn words_differ()
    ensures
        "mut"@ != "init"@,
        "mut"@ != "signer"@,
        "mut"@ != "owner"@,
        "mut"@ != "pda"@,
        "init"@ != "signer"@,
        "init"@ != "owner"@,
        "init"@ != "pda"@,
        "signer"@ != "owner"@,
        "signer"@ != "pda"@,
        "owner"@ != "pda"@,
        "account"@ != "arg"@,
        "account"@ != "literal"@,
        "account"@ != "const"@,
        "account"@ != "r#const"@,
        "account"@ != "seed_const"@,
        "arg"@ != "literal"@,
        "arg"@ != "const"@,
        "arg"@ != "r#const"@,
        "arg"@ != "seed_const"@,
        "account"@.len() > 0,
        "arg"@.len() > 0,
        "literal"@.len() > 0,
        "const"@.len() > 0,
        "r#const"@.len() > 0,
        "seed_const"@.len() > 0,
{
    reveal_strlit("mut");
    reveal_strlit("init");
    reveal_strlit("signer");
    reveal_strlit("owner");
    reveal_strlit("pda");
    reveal_strlit("account");
    reveal_strlit("arg");
    reveal_strlit("literal");
    reveal_strlit("const");
    reveal_strlit("r#const");
    reveal_strlit("seed_const");
    assert("account"@.len() == 7 && "arg"@.len() == 3);
    assert("account"@[0] == 'a' && "literal"@[0] == 'l' && "const"@[0] == 'c');
    assert("r#const"@[0] == 'r' && "seed_const"@[0] == 's' && "arg"@[0] == 'a');
    assert("mut"@[0] == 'm' && "pda"@[0] == 'p' && "init"@[0] == 'i');
    assert("signer"@[0] == 's' && "owner"@[0] == 'o');
}

proof fn array_seeds_read(elems: Seq<Option<CallView>>, from: int, seeds: Seq<PdaSeedDefView>)
    requires
        0 <= from <= elems.len(),
        seeds.len() == from,
        forall|i: int|
            0 <= i < from ==> (#[trigger] elems[i] matches Some(call) && is_seed_call(
                call,
                seeds[i],
            )),
    ensures
        idl_gen::seeds_from(elems, from, seeds) matches Ok(all) ==> all.len() == elems.len()
            && forall|i: int|
            0 <= i < elems.len() ==> (#[trigger] elems[i] matches Some(call) && is_seed_call(
                call,
                all[i],
            )),
    decreases elems.len() - from,
{
    if from < elems.len() {
        if let Some(call) = elems[from] {
            if let Ok(seed) = idl_gen::seed_of(call) {
                words_differ();
                assert(is_seed_call(call, seed));
                array_seeds_read(elems, from + 1, seeds.push(seed));
            }
        }
    }
}

proof fn seeds_read(v: ExprView)
    ensures
        idl_gen::seeds_of(v) matches Ok(seeds) ==> is_seeds_expr(v, seeds),
{
    words_differ();
    if let ExprKindView::Array(elems) = v.kind {
        array_seeds_read(elems, 0, Seq::empty());
    }
}

/// Whether one of the entries from `from` on is `word`.
spec fn entry_says(entries: Seq<EntryView>, from: int, word: Seq<char>) -> bool {
    exists|e: int| from <= e < entries.len() && just((#[trigger] entries[e]).path, word)
}

proof fn entry_says_step(entries: Seq<EntryView>, from: int, word: Seq<char>)
    requires
        0 <= from < entries.len(),
    ensures
        entry_says(entries, from, word) <==> just(entries[from].path, word) || entry_says(
            entries,
            from + 1,
            word,
        ),
{
}

/// What a list of entries makes of constraints.
spec fn entries_constrain(
    entries: Seq<EntryView>,
    from: int,
    c: AccountConstraintsView,
    d: AccountConstraintsView,
) -> bool {
    &&& d.signer == (c.signer || entry_says(entries, from, "signer"@))
    &&& d.init == (c.init || entry_says(entries, from, "init"@))
    &&& d.mutable == (c.mutable || entry_says(entries, from, "mut"@) || entry_says(
        entries,
        from,
        "init"@,
    ))
    &&& !entry_says(entries, from, "pda"@) ==> d.pda_seeds == c.pda_seeds
    &&& forall|e: int|
        from <= e < entries.len() && just((#[trigger] entries[e]).path, "pda"@) && !entry_says(
            entries,
            e + 1,
            "pda"@,
        ) ==> (entries[e].value matches Some(v) && is_seeds_expr(v, d.pda_seeds))
}

proof fn entries_are_read(
    entries: Seq<EntryView>,
    stop: Option<Seq<char>>,
    from: int,
    c: AccountConstraintsView,
)
    requires
        0 <= from <= entries.len(),
    ensures
        idl_gen::constrain_from(entries, stop, from, c) matches Ok(d) ==> entries_constrain(
            entries,
            from,
            c,
            d,
        ),
    decreases entries.len() - from,
{
    if from < entries.len() {
        let e = entries[from];
        words_differ();
        just_is(e.path, "mut"@);
        just_is(e.path, "init"@);
        just_is(e.path, "signer"@);
        just_is(e.path, "owner"@);
        just_is(e.path, "pda"@);
        assert(e.path.segments.len() == 1 ==> e.path.segments =~= seq![e.path.segments[0]]);
        assert(seq!["mut"@][0] == "mut"@ && seq!["init"@][0] == "init"@);
        assert(seq!["signer"@][0] == "signer"@ && seq!["owner"@][0] == "owner"@);
        assert(seq!["pda"@][0] == "pda"@);
        entry_says_step(entries, from, "mut"@);
        entry_says_step(entries, from, "init"@);
        entry_says_step(entries, from, "signer"@);
        entry_says_step(entries, from, "pda"@);
        if let Some(v) = e.value {
            seeds_read(v);
        }
        if let Ok(c2) = idl_gen::constrain(c, e) {
            entries_are_read(entries, stop, from + 1, c2);
        }
    }
}

/// Whether one of the attributes from `from` on has the entry `word`.
spec fn later_declares(list: Seq<AttributeView>, from: int, word: Seq<char>) -> bool {
    exists|a: int, e: int| from <= a < list.len() && #[trigger] says(list[a], e, word)
}

proof fn later_declares_step(list: Seq<AttributeView>, from: int, word: Seq<char>)
    requires
        0 <= from < list.len(),
    ensures
        later_declares(list, from, word) <==> (just(list[from].path, "account"@) && (
        list[from].form matches AttrFormView::List(l) && entry_says(l.entries, 0, word)))
            || later_declares(list, from + 1, word),
{
    if just(list[from].path, "account"@) {
        if let AttrFormView::List(l) = list[from].form {
            if entry_says(l.entries, 0, word) {
                let e = choose|e: int|
                    0 <= e < l.entries.len() && just((#[trigger] l.entries[e]).path, word);
                assert(says(list[from], e, word));
            }
        }
    }
    if later_declares(list, from, word) {
        let (a, e) = choose|a: int, e: int|
            from <= a < list.len() && #[trigger] says(list[a], e, word);
        if a == from {
            let l = list[from].form->List_0;
            assert(just(l.entries[e].path, word));
        }
    }
}

/// What a list of attributes makes of constraints.
spec fn attrs_constrain(
    list: Seq<AttributeView>,
    from: int,
    c: AccountConstraintsView,
    d: AccountConstraintsView,
) -> bool {
    &&& d.signer == (c.signer || later_declares(list, from, "signer"@))
    &&& d.init == (c.init || later_declares(list, from, "init"@))
    &&& d.mutable == (c.mutable || later_declares(list, from, "mut"@) || later_declares(
        list,
        from,
        "init"@,
    ))
    &&& !later_declares(list, from, "pda"@) ==> d.pda_seeds == c.pda_seeds
    &&& forall|a: int, e: int|
        from <= a && #[trigger] is_last_pda(list, a, e) ==> (value_at(list[a], e) matches Some(v)
            && is_seeds_expr(v, d.pda_seeds))
}

proof fn attrs_are_read(list: Seq<AttributeView>, from: int, c: AccountConstraintsView)
    requires
        0 <= from <= list.len(),
    ensures
        idl_gen::constraints_from(list, from, c) matches Ok(d) ==> attrs_constrain(
            list,
            from,
            c,
            d,
        ),
    decreases list.len() - from,
{
    if from < list.len() {
        let a = list[from];
        just_is(a.path, "account"@);
        if let AttrFormView::List(l) = a.form {
            entries_are_read(l.entries, l.stop, 0, c);
        }
        later_declares_step(list, from, "mut"@);
        later_declares_step(list, from, "init"@);
        later_declares_step(list, from, "signer"@);
        later_declares_step(list, from, "pda"@);
        if let Ok(c2) = idl_gen::constrain_by(c, a) {
            attrs_are_read(list, from + 1, c2);
            if let Ok(d) = idl_gen::constraints_from(list, from, c) {
                assert forall|b: int, e: int|
                    from <= b && #[trigger] is_last_pda(list, b, e) implies (value_at(
                    list[b],
                    e,
                ) matches Some(v) && is_seeds_expr(v, d.pda_seeds)) by {
                    if b == from {
                        let l = a.form->List_0;
                        if later_declares(list, from + 1, "pda"@) {
                            let (b2, e2) = choose|b2: int, e2: int|
                                from + 1 <= b2 < list.len() && #[trigger] says(
                                    list[b2],
                                    e2,
                                    "pda"@,
                                );
                            assert(!says(list[b2], e2, "pda"@));
                        }
                        if entry_says(l.entries, e + 1, "pda"@) {
                            let e2 = choose|e2: int|
                                e + 1 <= e2 < l.entries.len() && just(
                                    (#[trigger] l.entries[e2]).path,
                                    "pda"@,
                                );
                            assert(says(list[from], e2, "pda"@));
                        }
                        assert(just(l.entries[e].path, "pda"@));
                        assert(entries_constrain(l.entries, 0, c, c2));
                    }
                }
            }
        }
    }
}

/// The constraints of a parameter are what its attributes declare: `signer` and
/// `init` where an `#[account(...)]` says so, writable for `mut` and for `init`,
/// and the seeds of its last `pda`.
pub proof fn constraints_are_what_is_declared(list: Seq<AttributeView>)
    ensures
        idl_gen::constraints_from(list, 0, idl_gen::unconstrained()) matches Ok(c) ==> {
            &&& c.signer == declares(list, "signer"@)
            &&& c.init == declares(list, "init"@)
            &&& c.mutable == (declares(list, "mut"@) || declares(list, "init"@))
            &&& are_declared(list, c.pda_seeds)
        },
{
    attrs_are_read(list, 0, idl_gen::unconstrained());
    if let Ok(c) = idl_gen::constraints_from(list, 0, idl_gen::unconstrained()) {
        assert(later_declares(list, 0, "signer"@) == declares(list, "signer"@));
        assert(later_declares(list, 0, "init"@) == declares(list, "init"@));
        assert(later_declares(list, 0, "mut"@) == declares(list, "mut"@));
        assert(later_declares(list, 0, "pda"@) == declares(list, "pda"@));
    }
}

// ── What an account item says ────────────────────────────────────────────

/// Whether a seed is written as it was declared.
pub open spec fn same_seed(written: IdlSeedView, seed: PdaSeedDefView) -> bool {
    match seed {
        PdaSeedDefView::Const(v) => written == (IdlSeedView::Const { value: v }),
        PdaSeedDefView::Account(p) => written == (IdlSeedView::Account { path: p }),
        PdaSeedDefView::Arg(p) => written == (IdlSeedView::Arg { path: p }),
    }
}

/// Whether an address is written for seeds: there is one exactly where there are
/// seeds, and it has them all, in order.
pub open spec fn same_seeds(pda: Option<IdlPdaView>, seeds: Seq<PdaSeedDefView>) -> bool {
    match pda {
        None => seeds.len() == 0,
        Some(p) => {
            &&& seeds.len() > 0
            &&& p.seeds.len() == seeds.len()
            &&& forall|i: int|
                0 <= i < seeds.len() ==> same_seed(#[trigger] p.seeds[i], seeds[i])
        },
    }
}

/// Whether `short` is `name` without the underscores it starts with.
pub open spec fn is_trimmed(short: Seq<char>, name: Seq<char>) -> bool {
    &&& short.len() > 0 ==> short[0] != '_'
    &&& exists|n: int|
        0 <= n <= name.len() && short == #[trigger] name.skip(n) && forall|i: int|
            0 <= i < n ==> name[i] == '_'
}

proof fn trimming_drops_underscores(name: Seq<char>)
    ensures
        is_trimmed(text::without_underscores(name), name),
    decreases name.len(),
{
    if name.len() > 0 && name[0] == '_' {
        let rest = name.skip(1);
        trimming_drops_underscores(rest);
        let n = choose|n: int|
            0 <= n <= rest.len() && text::without_underscores(name) == #[trigger] rest.skip(n)
                && forall|i: int| 0 <= i < n ==> rest[i] == '_';
        assert(rest.skip(n) =~= name.skip(n + 1));
        assert forall|i: int| 0 <= i < n + 1 implies name[i] == '_' by {
            if i > 0 {
                assert(rest[i - 1] == '_');
            }
        }
    } else {
        assert(name.skip(0) =~= name);
    }
}

/// An account item of the IDL says what the parameter declares: an address exactly
/// where seeds are declared, whatever flags stand beside them, with those seeds in
/// number, order, kind and text; and each flag as it is.
pub proof fn account_items_say_what_is_declared(acc: AccountParamView)
    ensures
        same_seeds(idl_gen::idl_account(acc).pda, acc.constraints.pda_seeds),
        idl_gen::idl_account(acc).writable == acc.constraints.mutable,
        idl_gen::idl_account(acc).signer == acc.constraints.signer,
        idl_gen::idl_account(acc).init == acc.constraints.init,
        idl_gen::idl_account(acc).rest == acc.is_rest,
        idl_gen::idl_account(acc).owner is None,
        idl_gen::idl_account(acc).visibility == seq!["public"@],
        idl_gen::idl_account(acc).pda matches Some(pda) ==> !pda.private,
        is_trimmed(idl_gen::idl_account(acc).name, acc.name),
{
    trimming_drops_underscores(acc.name);
}

// ── What an instruction says ─────────────────────────────────────────────

/// Whether a type is that of one account.
pub open spec fn is_account(ty: TypeView) -> bool {
    ty matches TypeView::Named { ident, .. } && ident == "AccountWithMetadata"@
}

/// Whether a type is that of a list of accounts.
pub open spec fn is_account_list(ty: TypeView) -> bool {
    ty matches TypeView::Named { ident, arg: Some(inner) } && ident == "Vec"@ && is_account(*inner)
}

/// Whether a parameter takes accounts and is called `name`.
pub open spec fn takes(input: FnArgView, name: Seq<char>) -> bool {
    input matches FnArgView::Typed(p) && p.name == Some(name) && (is_account(p.ty)
        || is_account_list(p.ty))
}

/// Whether one of the first `n` parameters that take accounts and are called
/// `name` declares `word`.
pub open spec fn any_declares(
    inputs: Seq<FnArgView>,
    n: int,
    name: Seq<char>,
    word: Seq<char>,
) -> bool {
    exists|j: int|
        0 <= j < n && takes(#[trigger] inputs[j], name) && declares(
            inputs[j]->Typed_0.attrs,
            word,
        )
}

/// Whether parameter `j` is the first that takes accounts under its name.
pub open spec fn is_first(inputs: Seq<FnArgView>, j: int, name: Seq<char>) -> bool {
    &&& 0 <= j < inputs.len()
    &&& takes(inputs[j], name)
    &&& forall|i: int| 0 <= i < j ==> !takes(#[trigger] inputs[i], name)
}

/// Whether constraints under a name are what the first `n` parameters declare.
#[verifier::opaque]
spec fn sums_up(inputs: Seq<FnArgView>, n: int, acc: AccountParamView) -> bool {
    &&& acc.constraints.signer == any_declares(inputs, n, acc.name, "signer"@)
    &&& acc.constraints.init == any_declares(inputs, n, acc.name, "init"@)
    &&& acc.constraints.mutable == (any_declares(inputs, n, acc.name, "mut"@) || any_declares(
        inputs,
        n,
        acc.name,
        "init"@,
    ))
    &&& exists|j: int|
        j < n && #[trigger] is_first(inputs, j, acc.name) && are_declared(
            inputs[j]->Typed_0.attrs,
            acc.constraints.pda_seeds,
        ) && acc.is_rest == is_account_list(inputs[j]->Typed_0.ty)
}

/// How many of the first `n` parameters are data arguments.
#[verifier::opaque]
pub open spec fn data_before(inputs: Seq<FnArgView>, n: int) -> nat
    decreases n,
{
    if n <= 0 {
        0
    } else {
        data_before(inputs, n - 1) + if inputs[n - 1] matches FnArgView::Typed(p)
            && closure_laws::is_data(p.ty) {
            1nat
        } else {
            0nat
        }
    }
}

/// What is known of accounts and arguments once `n` parameters are read.
spec fn read_so_far(
    inputs: Seq<FnArgView>,
    n: int,
    accounts: Seq<AccountParamView>,
    args: Seq<ArgParamView>,
) -> bool {
    &&& forall|k: int| 0 <= k < accounts.len() ==> sums_up(inputs, n, #[trigger] accounts[k])
    &&& forall|k: int, l: int|
        0 <= k < l < accounts.len() ==> (#[trigger] accounts[k]).name != (
        #[trigger] accounts[l]).name
    &&& forall|j: int, name: Seq<char>|
        0 <= j < n && #[trigger] takes(inputs[j], name) ==> exists|k: int|
            0 <= k < accounts.len() && (#[trigger] accounts[k]).name == name
    &&& args_so_far(inputs, n, args)
}

/// What is known of arguments once `n` parameters are read.
#[verifier::opaque]
spec fn args_so_far(inputs: Seq<FnArgView>, n: int, args: Seq<ArgParamView>) -> bool {
    &&& args.len() == data_before(inputs, n)
    &&& forall|j: int|
        0 <= j < n && (#[trigger] inputs[j] matches FnArgView::Typed(p) && closure_laws::is_data(
            p.ty,
        )) ==> {
            &&& data_before(inputs, j) < args.len()
            &&& Some(args[data_before(inputs, j) as int].name) == inputs[j]->Typed_0.name
            &&& args[data_before(inputs, j) as int].ty == inputs[j]->Typed_0.ty
        }
}

proof fn arg_read(inputs: Seq<FnArgView>, n: int, args: Seq<ArgParamView>, arg: ArgParamView)
    requires
        0 <= n < inputs.len(),
        args_so_far(inputs, n, args),
    ensures
        !(inputs[n] matches FnArgView::Typed(p) && closure_laws::is_data(p.ty)) ==> args_so_far(
            inputs,
            n + 1,
            args,
        ),
        (inputs[n] matches FnArgView::Typed(p) && closure_laws::is_data(p.ty) && p.name == Some(
            arg.name,
        ) && p.ty == arg.ty) ==> args_so_far(inputs, n + 1, args.push(arg)),
{
    reveal(args_so_far);
    assert(data_before(inputs, n + 1) == data_before(inputs, n) + if inputs[n] matches FnArgView::Typed(p)
        && closure_laws::is_data(p.ty) {
        1nat
    } else {
        0nat
    }) by {
        reveal_with_fuel(data_before, 2);
    }
}

proof fn shapes_agree(ty: TypeView)
    ensures
        idl_gen::account_type(ty) == is_account(ty),
        idl_gen::vec_account_type(ty) == is_account_list(ty),
        closure_laws::is_data(ty) == !(is_account(ty) || is_account_list(ty)
            || idl_gen::context_type(ty)),
        !(is_account(ty) && is_account_list(ty)),
        !(is_account(ty) && idl_gen::context_type(ty)),
        !(is_account_list(ty) && idl_gen::context_type(ty)),
{
    reveal_strlit("AccountWithMetadata");
    reveal_strlit("ProgramContext");
    reveal_strlit("Vec");
    assert("AccountWithMetadata"@[0] == 'A' && "Vec"@[0] == 'V' && "ProgramContext"@[0] == 'P');
}

/// Where an account is put: at the one of its name, or behind them all.
proof fn account_is_put(
    accounts: Seq<AccountParamView>,
    account: AccountParamView,
    from: int,
) -> (k: int)
    requires
        0 <= from <= accounts.len(),
        forall|j: int| 0 <= j < from ==> (#[trigger] accounts[j]).name != account.name,
    ensures
        0 <= k <= accounts.len(),
        forall|j: int| 0 <= j < k ==> (#[trigger] accounts[j]).name != account.name,
        k == accounts.len() ==> idl_gen::with_account(accounts, account, from) == accounts.push(
            account,
        ),
        k < accounts.len() ==> {
            let all = idl_gen::with_account(accounts, account, from);
            &&& accounts[k].name == account.name
            &&& all.len() == accounts.len()
            &&& forall|j: int| 0 <= j < all.len() && j != k ==> #[trigger] all[j] == accounts[j]
            &&& all[k].name == account.name
            &&& all[k].is_rest == accounts[k].is_rest
            &&& all[k].constraints.pda_seeds == accounts[k].constraints.pda_seeds
            &&& all[k].constraints.signer == (accounts[k].constraints.signer
                || account.constraints.signer)
            &&& all[k].constraints.init == (accounts[k].constraints.init
                || account.constraints.init)
            &&& all[k].constraints.mutable == (accounts[k].constraints.mutable
                || account.constraints.mutable)
        },
    decreases accounts.len() - from,
{
    if from < accounts.len() && accounts[from].name != account.name {
        account_is_put(accounts, account, from + 1)
    } else {
        from
    }
}

proof fn any_declares_step(
    inputs: Seq<FnArgView>,
    n: int,
    name: Seq<char>,
    word: Seq<char>,
)
    requires
        0 <= n < inputs.len(),
    ensures
        any_declares(inputs, n + 1, name, word) <==> any_declares(inputs, n, name, word) || (takes(
            inputs[n],
            name,
        ) && declares(inputs[n]->Typed_0.attrs, word)),
{
    if any_declares(inputs, n, name, word) {
        let j = choose|j: int|
            0 <= j < n && takes(#[trigger] inputs[j], name) && declares(
                inputs[j]->Typed_0.attrs,
                word,
            );
        assert(takes(inputs[j], name));
    }
}

/// Accounts of other names are not touched by one more parameter.
proof fn sums_up_stays(inputs: Seq<FnArgView>, n: int, acc: AccountParamView)
    requires
        0 <= n < inputs.len(),
        sums_up(inputs, n, acc),
        !takes(inputs[n], acc.name),
    ensures
        sums_up(inputs, n + 1, acc),
{
    reveal(sums_up);
    any_declares_step(inputs, n, acc.name, "signer"@);
    any_declares_step(inputs, n, acc.name, "init"@);
    any_declares_step(inputs, n, acc.name, "mut"@);
}

/// Whether constraints are those parameter `n` declares, under its name.
spec fn is_read_from(inputs: Seq<FnArgView>, n: int, account: AccountParamView) -> bool {
    &&& takes(inputs[n], account.name)
    &&& idl_gen::constraints_from(
        inputs[n]->Typed_0.attrs,
        0,
        idl_gen::unconstrained(),
    ) == Ok::<AccountConstraintsView, Seq<char>>(account.constraints)
    &&& account.is_rest == is_account_list(inputs[n]->Typed_0.ty)
}

proof fn new_sums_up(inputs: Seq<FnArgView>, n: int, account: AccountParamView)
    requires
        0 <= n < inputs.len(),
        is_read_from(inputs, n, account),
        forall|j: int| 0 <= j < n ==> !takes(#[trigger] inputs[j], account.name),
    ensures
        sums_up(inputs, n + 1, account),
{
    reveal(sums_up);
    constraints_are_what_is_declared(inputs[n]->Typed_0.attrs);
    any_declares_step(inputs, n, account.name, "signer"@);
    any_declares_step(inputs, n, account.name, "init"@);
    any_declares_step(inputs, n, account.name, "mut"@);
    assert(!any_declares(inputs, n, account.name, "signer"@));
    assert(!any_declares(inputs, n, account.name, "init"@));
    assert(!any_declares(inputs, n, account.name, "mut"@));
    assert(is_first(inputs, n, account.name));
}

proof fn merged_sums_up(
    inputs: Seq<FnArgView>,
    n: int,
    before: AccountParamView,
    account: AccountParamView,
    after: AccountParamView,
)
    requires
        0 <= n < inputs.len(),
        is_read_from(inputs, n, account),
        sums_up(inputs, n, before),
        before.name == account.name,
        after.name == account.name,
        after.is_rest == before.is_rest,
        after.constraints.pda_seeds == before.constraints.pda_seeds,
        after.constraints.signer == (before.constraints.signer || account.constraints.signer),
        after.constraints.init == (before.constraints.init || account.constraints.init),
        after.constraints.mutable == (before.constraints.mutable || account.constraints.mutable),
    ensures
        sums_up(inputs, n + 1, after),
{
    reveal(sums_up);
    constraints_are_what_is_declared(inputs[n]->Typed_0.attrs);
    any_declares_step(inputs, n, account.name, "signer"@);
    any_declares_step(inputs, n, account.name, "init"@);
    any_declares_step(inputs, n, account.name, "mut"@);
    let f = choose|f: int|
        f < n && #[trigger] is_first(inputs, f, before.name) && are_declared(
            inputs[f]->Typed_0.attrs,
            before.constraints.pda_seeds,
        ) && before.is_rest == is_account_list(inputs[f]->Typed_0.ty);
    assert(is_first(inputs, f, after.name));
}

proof fn account_read(
    inputs: Seq<FnArgView>,
    n: int,
    accounts: Seq<AccountParamView>,
    args: Seq<ArgParamView>,
    account: AccountParamView,
)
    requires
        0 <= n < inputs.len(),
        read_so_far(inputs, n, accounts, args),
        is_read_from(inputs, n, account),
    ensures
        read_so_far(inputs, n + 1, idl_gen::with_account(accounts, account, 0), args),
{
    let name = account.name;
    shapes_agree(inputs[n]->Typed_0.ty);
    arg_read(inputs, n, args, ArgParamView { name, ty: inputs[n]->Typed_0.ty });
    let k = account_is_put(accounts, account, 0);
    let all = idl_gen::with_account(accounts, account, 0);
    if k == accounts.len() {
        assert forall|j: int| 0 <= j < n implies !takes(#[trigger] inputs[j], name) by {
            if takes(inputs[j], name) {
                let l = choose|l: int| 0 <= l < accounts.len() && (#[trigger] accounts[l]).name
                    == name;
                assert(accounts[l].name != name);
            }
        }
        new_sums_up(inputs, n, account);
    } else {
        assert(sums_up(inputs, n, accounts[k]));
        merged_sums_up(inputs, n, accounts[k], account, all[k]);
    }
    assert forall|j: int| 0 <= j < all.len() implies sums_up(inputs, n + 1, #[trigger] all[j]) by {
        if j != k {
            assert(all[j] == accounts[j]);
            assert(accounts[j].name != name) by {
                if k < accounts.len() {
                    if j < k {
                        assert(accounts[j].name != accounts[k].name);
                    } else {
                        assert(accounts[k].name != accounts[j].name);
                    }
                }
            }
            sums_up_stays(inputs, n, accounts[j]);
        }
    }
    assert forall|j: int, other: Seq<char>|
        0 <= j < n + 1 && #[trigger] takes(inputs[j], other) implies exists|l: int|
        0 <= l < all.len() && (#[trigger] all[l]).name == other by {
        if j == n {
            assert(all[k].name == other);
        } else {
            let l = choose|l: int| 0 <= l < accounts.len() && (#[trigger] accounts[l]).name
                == other;
            assert(all[l].name == other);
        }
    }
}

proof fn params_are_read(
    inputs: Seq<FnArgView>,
    n: int,
    accounts: Seq<AccountParamView>,
    args: Seq<ArgParamView>,
)
    requires
        0 <= n <= inputs.len(),
        read_so_far(inputs, n, accounts, args),
    ensures
        idl_gen::params_from(inputs, n, accounts, args) matches Ok((a, b)) ==> read_so_far(
            inputs,
            inputs.len() as int,
            a,
            b,
        ),
    decreases inputs.len() - n,
{
    if n < inputs.len() {
        if let FnArgView::Typed(p) = inputs[n] {
            shapes_agree(p.ty);
            if let Some(name) = p.name {
                if is_account(p.ty) || is_account_list(p.ty) {
                    if let Ok(constraints) = idl_gen::constraints_from(
                        p.attrs,
                        0,
                        idl_gen::unconstrained(),
                    ) {
                        let account = AccountParamView {
                            name,
                            constraints,
                            is_rest: !idl_gen::account_type(p.ty),
                        };
                        account_read(inputs, n, accounts, args, account);
                        params_are_read(
                            inputs,
                            n + 1,
                            idl_gen::with_account(accounts, account, 0),
                            args,
                        );
                    }
                } else {
                    assert forall|k: int| 0 <= k < accounts.len() implies sums_up(
                        inputs,
                        n + 1,
                        #[trigger] accounts[k],
                    ) by {
                        sums_up_stays(inputs, n, accounts[k]);
                    }
                    if idl_gen::context_type(p.ty) {
                        arg_read(inputs, n, args, ArgParamView { name, ty: p.ty });
                        params_are_read(inputs, n + 1, accounts, args);
                    } else {
                        let arg = ArgParamView { name, ty: p.ty };
                        let more = args.push(arg);
                        arg_read(inputs, n, args, arg);
                        assert(read_so_far(inputs, n + 1, accounts, more));
                        params_are_read(inputs, n + 1, accounts, more);
                    }
                }
            }
        }
    }
}

/// Whether an account item says what the parameters called `name` declare between
/// them: each flag where one of them says so, the address and the kind of the
/// first.
pub open spec fn says_declared(
    item: IdlAccountItemView,
    inputs: Seq<FnArgView>,
    name: Seq<char>,
) -> bool {
    let n = inputs.len() as int;
    &&& is_trimmed(item.name, name)
    &&& item.signer == any_declares(inputs, n, name, "signer"@)
    &&& item.init == any_declares(inputs, n, name, "init"@)
    &&& item.writable == (any_declares(inputs, n, name, "mut"@) || any_declares(
        inputs,
        n,
        name,
        "init"@,
    ))
    &&& exists|j: int, seeds: Seq<PdaSeedDefView>|
        #![trigger is_first(inputs, j, name), same_seeds(item.pda, seeds)]
        is_first(inputs, j, name) && are_declared(inputs[j]->Typed_0.attrs, seeds) && same_seeds(
            item.pda,
            seeds,
        ) && item.rest == is_account_list(inputs[j]->Typed_0.ty)
}

proof fn item_says_declared(inputs: Seq<FnArgView>, acc: AccountParamView)
    requires
        sums_up(inputs, inputs.len() as int, acc),
    ensures
        says_declared(idl_gen::idl_account(acc), inputs, acc.name),
{
    reveal(sums_up);
    let item = idl_gen::idl_account(acc);
    account_items_say_what_is_declared(acc);
    let j = choose|j: int|
        j < inputs.len() && #[trigger] is_first(inputs, j, acc.name) && are_declared(
            inputs[j]->Typed_0.attrs,
            acc.constraints.pda_seeds,
        ) && acc.is_rest == is_account_list(inputs[j]->Typed_0.ty);
    assert(is_first(inputs, j, acc.name));
    assert(same_seeds(item.pda, acc.constraints.pda_seeds));
}

proof fn every_account_is_read(func: ItemFnView, info: InstructionInfoView)
    requires
        idl_gen::instruction_of(func) == Ok::<InstructionInfoView, Seq<char>>(info),
    ensures
        read_so_far(func.inputs, func.inputs.len() as int, info.accounts, info.args),
{
    reveal(args_so_far);
    assert(data_before(func.inputs, 0) == 0) by {
        reveal(data_before);
    }
    assert(args_so_far(func.inputs, 0, Seq::empty()));
    params_are_read(func.inputs, 0, Seq::empty(), Seq::empty());
}

proof fn every_item_says_declared(func: ItemFnView, info: InstructionInfoView)
    requires
        read_so_far(func.inputs, func.inputs.len() as int, info.accounts, info.args),
    ensures
        idl_gen::idl_instruction(info).accounts.len() == info.accounts.len(),
        forall|k: int|
            0 <= k < info.accounts.len() ==> says_declared(
                #[trigger] idl_gen::idl_instruction(info).accounts[k],
                func.inputs,
                info.accounts[k].name,
            ),
{
    assert forall|k: int| 0 <= k < info.accounts.len() implies says_declared(
        #[trigger] idl_gen::idl_instruction(info).accounts[k],
        func.inputs,
        info.accounts[k].name,
    ) by {
        assert(sums_up(func.inputs, func.inputs.len() as int, info.accounts[k]));
        item_says_declared(func.inputs, info.accounts[k]);
    }
}

/// Whether account items are those of the parameters: each parameter that takes
/// accounts has one that says what is declared, and each item is one's.
pub open spec fn are_the_accounts(
    items: Seq<IdlAccountItemView>,
    inputs: Seq<FnArgView>,
) -> bool {
    &&& forall|j: int, name: Seq<char>|
        0 <= j < inputs.len() && #[trigger] takes(inputs[j], name) ==> has_item(
            items,
            inputs,
            name,
        )
    &&& forall|k: int| 0 <= k < items.len() ==> has_param(#[trigger] items[k], inputs)
}

/// Whether one of the items says what the parameters called `name` declare.
pub open spec fn has_item(
    items: Seq<IdlAccountItemView>,
    inputs: Seq<FnArgView>,
    name: Seq<char>,
) -> bool {
    exists|k: int| 0 <= k < items.len() && says_declared(#[trigger] items[k], inputs, name)
}

/// Whether an item says what the parameters of some name declare.
pub open spec fn has_param(item: IdlAccountItemView, inputs: Seq<FnArgView>) -> bool {
    exists|name: Seq<char>| #[trigger] says_declared(item, inputs, name)
}

/// The accounts of an instruction are its account parameters: each is described
/// by what its `#[account(...)]` declares, and nothing else is an account.
pub proof fn instruction_accounts_are_its_account_params(func: ItemFnView)
    ensures
        idl_gen::instruction_of(func) matches Ok(info) ==> are_the_accounts(
            idl_gen::idl_instruction(info).accounts,
            func.inputs,
        ),
{
    if let Ok(info) = idl_gen::instruction_of(func) {
        every_account_is_read(func, info);
        every_item_says_declared(func, info);
        let items = idl_gen::idl_instruction(info).accounts;
        assert forall|j: int, name: Seq<char>|
            0 <= j < func.inputs.len() && #[trigger] takes(
                func.inputs[j],
                name,
            ) implies has_item(items, func.inputs, name) by {
            let k = choose|k: int|
                0 <= k < info.accounts.len() && (#[trigger] info.accounts[k]).name == name;
            assert(says_declared(items[k], func.inputs, info.accounts[k].name));
        }
        assert forall|k: int| 0 <= k < items.len() implies has_param(
            #[trigger] items[k],
            func.inputs,
        ) by {
            assert(says_declared(items[k], func.inputs, info.accounts[k].name));
        }
    }
}

/// The arguments of an instruction are its data parameters, in order: each under
/// its name, with its type.
pub proof fn instruction_args_are_its_data_params(func: ItemFnView)
    ensures
        idl_gen::instruction_of(func) matches Ok(info) ==> {
            let args = idl_gen::idl_instruction(info).args;
            &&& idl_gen::idl_instruction(info).name == func.name
            &&& args.len() == data_before(func.inputs, func.inputs.len() as int)
            &&& forall|j: int|
                0 <= j < func.inputs.len() && (#[trigger] func.inputs[j] matches FnArgView::Typed(p)
                    && closure_laws::is_data(p.ty)) ==> {
                    let arg = args[data_before(func.inputs, j) as int];
                    &&& func.inputs[j]->Typed_0.name matches Some(name) && is_trimmed(
                        arg.name,
                        name,
                    )
                    &&& arg.type_ == account_types::idl_type(func.inputs[j]->Typed_0.ty)
                }
        },
{
    let inputs = func.inputs;
    if let Ok(info) = idl_gen::instruction_of(func) {
        every_account_is_read(func, info);
        reveal(args_so_far);
        let args = idl_gen::idl_instruction(info).args;
        assert forall|j: int|
            0 <= j < inputs.len() && (#[trigger] inputs[j] matches FnArgView::Typed(p)
                && closure_laws::is_data(p.ty)) implies {
            let arg = args[data_before(inputs, j) as int];
            &&& inputs[j]->Typed_0.name matches Some(name) && is_trimmed(arg.name, name)
            &&& arg.type_ == account_types::idl_type(inputs[j]->Typed_0.ty)
        } by {
            let k = data_before(inputs, j) as int;
            assert(k < info.args.len());
            assert(args[k] == idl_gen::idl_arg(info.args[k]));
            trimming_drops_underscores(info.args[k].name);
        }
    }
}

/// The place of the `a`-th data parameter.
pub proof fn data_at(inputs: Seq<FnArgView>, n: int, a: int) -> (j: int)
    requires
        0 <= n <= inputs.len(),
        0 <= a < data_before(inputs, n),
    ensures
        0 <= j < n,
        inputs[j] matches FnArgView::Typed(p) && closure_laws::is_data(p.ty),
        data_before(inputs, j) == a,
    decreases n,
{
    reveal(data_before);
    if (inputs[n - 1] matches FnArgView::Typed(p) && closure_laws::is_data(p.ty)) && data_before(
        inputs,
        n - 1,
    ) == a {
        n - 1
    } else {
        data_at(inputs, n - 1, a)
    }
}

} // verus!
