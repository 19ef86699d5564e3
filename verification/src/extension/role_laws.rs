//! What embedding makes of roles: where an account is created, what its address is
//! and which roles take it.
use crate::account_laws;
use crate::attrs;
use crate::extension::inject;
use crate::extension::gate_laws;
use crate::extension::inject::PdaDeclView;
use crate::extension::{
    EmbedDeclView, EmbedView, InjectAccountView, InjectSeedView, InjectSpecView, OffsetSpecView,
};
use crate::syntax::{
    AttributeView, CallView, EntryView, ExprKindView, ExprView, FnArgView, ItemFnView, ParamView,
};
use vstd::prelude::*;

verus! {

// ── Reading a parameter ──────────────────────────────────────────────────

/// Whether a reader comes to entry `e` of a list: every value before it parses.
pub open spec fn comes_to(entries: Seq<EntryView>, e: int) -> bool {
    0 <= e < entries.len() && forall|j: int|
        0 <= j < e && (#[trigger] entries[j]).assigned ==> entries[j].value is Some
}

/// Whether an `#[account(...)]` attribute says `word` where a reader comes to it.
pub open spec fn attr_flags(attr: AttributeView, word: Seq<char>) -> bool {
    exists|e: int| #[trigger]
        account_laws::says(attr, e, word) && comes_to(attr.form->List_0.entries, e)
}

/// Whether a parameter is flagged with `word`.
pub open spec fn is_flagged(p: ParamView, word: Seq<char>) -> bool {
    exists|a: int| 0 <= a < p.attrs.len() && attr_flags(#[trigger] p.attrs[a], word)
}

/// Whether entry `e` of an `#[account(...)]` attribute is a `pda` constraint with
/// a value that a reader comes to, past no `pda` without one.
pub open spec fn is_pda_at(attr: AttributeView, e: int, v: ExprView) -> bool {
    &&& account_laws::says(attr, e, "pda"@)
    &&& account_laws::value_at(attr, e) == Some(v)
    &&& comes_to(attr.form->List_0.entries, e)
    &&& forall|j: int|
        0 <= j < e && account_laws::just(
            (#[trigger] attr.form->List_0.entries[j]).path,
            "pda"@,
        ) ==> attr.form->List_0.entries[j].value is Some
}

/// Whether an attribute declares the address `v`: its last `pda` constraint.
pub open spec fn attr_declares(attr: AttributeView, v: ExprView) -> bool {
    exists|e: int| #[trigger]
        is_pda_at(attr, e, v) && forall|f: int, w: ExprView|
            f > e ==> !#[trigger] is_pda_at(attr, f, w)
}

proof fn just_is(path: crate::syntax::PathView, name: Seq<char>)
    ensures
        path.is(name) == account_laws::just(path, name),
{
    if path.is(name) {
        assert(path.segments =~= seq![name]);
    }
}

/// A word flags an attribute if a reader of its entries comes to it.
pub proof fn attr_flags_are_carried(attr: AttributeView, word: Seq<char>)
    ensures
        attr_flags(attr, word) == (attr.path.is("account"@) && attrs::carries(
            attr.entries(),
            word,
        )),
{
    just_is(attr.path, "account"@);
    let entries = attr.entries();
    if attr_flags(attr, word) {
        let e = choose|e: int| #[trigger]
            account_laws::says(attr, e, word) && comes_to(attr.form->List_0.entries, e);
        just_is(entries[e].path, word);
        assert(attrs::reached(entries, e));
    }
    if attr.path.is("account"@) && attrs::carries(entries, word) {
        let e = choose|e: int|
            0 <= e < entries.len() && (#[trigger] entries[e]).path.is(word) && attrs::reached(
                entries,
                e,
            );
        just_is(entries[e].path, word);
        assert(account_laws::says(attr, e, word));
    }
}

/// The flags of a parameter are those a reader of its attributes comes to.
pub proof fn flags_are_read(p: ParamView, word: Seq<char>)
    ensures
        p.has_flag(word) == is_flagged(p, word),
{
    assert forall|a: int| 0 <= a < p.attrs.len() implies attr_flags(#[trigger] p.attrs[a], word)
        == (p.attrs[a].path.is("account"@) && attrs::carries(p.attrs[a].entries(), word)) by {
        attr_flags_are_carried(p.attrs[a], word);
    }
    if p.has_flag(word) {
        let a = choose|a: int|
            0 <= a < p.attrs.len() && (#[trigger] p.attrs[a]).path.is("account"@)
                && attrs::carries(p.attrs[a].entries(), word);
        assert(attr_flags(p.attrs[a], word));
    }
    if is_flagged(p, word) {
        let a = choose|a: int| 0 <= a < p.attrs.len() && attr_flags(#[trigger] p.attrs[a], word);
        assert(p.attrs[a].path.is("account"@));
    }
}

/// Whether a reader stops at an entry: a value that does not parse, or a `pda`
/// without one.
spec fn stops_at(e: EntryView) -> bool {
    (e.assigned || account_laws::just(e.path, "pda"@)) && e.value is None
}

proof fn keyed_is_declared(
    attr: AttributeView,
    from: int,
    found: Option<ExprView>,
)
    requires
        account_laws::just(attr.path, "account"@),
        attr.form is List,
        0 <= from <= attr.entries().len(),
        forall|j: int| 0 <= j < from ==> !stops_at(#[trigger] attr.entries()[j]),
        found is None ==> forall|e: int, w: ExprView| e < from ==> !#[trigger] is_pda_at(attr, e, w),
        found matches Some(v) ==> exists|e: int| #[trigger]
            is_pda_at(attr, e, v) && e < from && forall|f: int, w: ExprView|
                e < f < from ==> !#[trigger] is_pda_at(attr, f, w),
    ensures
        attrs::keyed(attr.entries(), "pda"@, from, found) is None ==> forall|v: ExprView|
            !attr_declares(attr, v),
        attrs::keyed(attr.entries(), "pda"@, from, found) matches Some(v) ==> attr_declares(
            attr,
            v,
        ),
    decreases attr.entries().len() - from,
{
    let entries = attr.entries();
    if from < entries.len() {
        let e = entries[from];
        just_is(e.path, "pda"@);
        if stops_at(e) {
            assert forall|f: int, w: ExprView| f >= from implies !#[trigger] is_pda_at(
                attr,
                f,
                w,
            ) by {
                if is_pda_at(attr, f, w) && f > from {
                    assert(entries[from].value is None);
                }
            }
            ends_here(attr, from, found);
        } else if account_laws::just(e.path, "pda"@) {
            let v = e.value->Some_0;
            assert(account_laws::says(attr, from, "pda"@));
            assert(is_pda_at(attr, from, v)) by {
                assert forall|j: int| 0 <= j < from && (
                #[trigger] entries[j]).assigned implies entries[j].value is Some by {
                    assert(!stops_at(entries[j]));
                }
                assert forall|j: int| 0 <= j < from && account_laws::just(
                    (#[trigger] attr.form->List_0.entries[j]).path,
                    "pda"@,
                ) implies attr.form->List_0.entries[j].value is Some by {
                    assert(!stops_at(entries[j]));
                }
            }
            keyed_is_declared(attr, from + 1, Some(v));
        } else {
            assert forall|w: ExprView| !#[trigger] is_pda_at(attr, from, w) by {
                assert(!account_laws::says(attr, from, "pda"@));
            }
            keyed_is_declared(attr, from + 1, found);
        }
    } else {
        assert forall|f: int, w: ExprView| f >= from implies !#[trigger] is_pda_at(attr, f, w) by {}
        ends_here(attr, from, found);
    }
}

proof fn ends_here(attr: AttributeView, from: int, found: Option<ExprView>)
    requires
        forall|f: int, w: ExprView| f >= from ==> !#[trigger] is_pda_at(attr, f, w),
        found is None ==> forall|e: int, w: ExprView| e < from ==> !#[trigger] is_pda_at(attr, e, w),
        found matches Some(v) ==> exists|e: int| #[trigger]
            is_pda_at(attr, e, v) && e < from && forall|f: int, w: ExprView|
                e < f < from ==> !#[trigger] is_pda_at(attr, f, w),
    ensures
        found is None ==> forall|v: ExprView| !attr_declares(attr, v),
        found matches Some(v) ==> attr_declares(attr, v),
{
    if let Some(v) = found {
        let e = choose|e: int| #[trigger]
            is_pda_at(attr, e, v) && e < from && forall|f: int, w: ExprView|
                e < f < from ==> !#[trigger] is_pda_at(attr, f, w);
        assert(is_pda_at(attr, e, v));
        assert forall|f: int, w: ExprView| f > e implies !#[trigger] is_pda_at(attr, f, w) by {}
    } else {
        assert forall|v: ExprView| !attr_declares(attr, v) by {
            if attr_declares(attr, v) {
                let e = choose|e: int| #[trigger]
                    is_pda_at(attr, e, v) && forall|f: int, w: ExprView|
                        f > e ==> !#[trigger] is_pda_at(attr, f, w);
                assert(is_pda_at(attr, e, v));
            }
        }
    }
}

/// The address an attribute declares is the one a reader of it keeps.
pub proof fn addresses_are_read(attr: AttributeView)
    ensures
        forall|v: ExprView| #[trigger]
            attr_declares(attr, v) <==> attr.path.is("account"@) && attrs::keyed(
                attr.entries(),
                "pda"@,
                0,
                None,
            ) == Some(v),
{
    just_is(attr.path, "account"@);
    let kept = attrs::keyed(attr.entries(), "pda"@, 0, None);
    if account_laws::just(attr.path, "account"@) && attr.form is List {
        assert forall|e: int, w: ExprView| e < 0 implies !#[trigger] is_pda_at(attr, e, w) by {}
        keyed_is_declared(attr, 0, None);
        assert forall|v: ExprView| #[trigger] attr_declares(attr, v) implies kept == Some(v) by {
            let w = kept->Some_0;
            declares_one(attr, v, w);
        }
    } else {
        assert forall|v: ExprView| !#[trigger] attr_declares(attr, v) by {
            if attr_declares(attr, v) {
                let e = choose|e: int| #[trigger]
                    is_pda_at(attr, e, v) && forall|f: int, w: ExprView|
                        f > e ==> !#[trigger] is_pda_at(attr, f, w);
                assert(account_laws::says(attr, e, "pda"@));
            }
        }
    }
}

proof fn declares_one(attr: AttributeView, v: ExprView, w: ExprView)
    requires
        attr_declares(attr, v),
        attr_declares(attr, w),
    ensures
        v == w,
{
    let e = choose|e: int| #[trigger]
        is_pda_at(attr, e, v) && forall|f: int, x: ExprView|
            f > e ==> !#[trigger] is_pda_at(attr, f, x);
    let f = choose|f: int| #[trigger]
        is_pda_at(attr, f, w) && forall|g: int, x: ExprView|
            g > f ==> !#[trigger] is_pda_at(attr, g, x);
    assert(is_pda_at(attr, e, v) && is_pda_at(attr, f, w));
    assert(e == f);
}

// ── Canonical addresses ──────────────────────────────────────────────────

/// Whether attribute `a` of parameter `i` of a fn declares the address `v` for the
/// account called `account`.
pub open spec fn declares_address(
    f: ItemFnView,
    i: int,
    a: int,
    account: Seq<char>,
    v: ExprView,
) -> bool {
    &&& 0 <= i < f.inputs.len()
    &&& f.inputs[i] matches FnArgView::Typed(p) && p.name == Some(account) && 0 <= a
        < p.attrs.len() && attr_declares(p.attrs[a], v)
}

/// Whether the same attribute creates the account.
pub open spec fn creates_too(f: ItemFnView, i: int, a: int) -> bool {
    attr_flags(f.inputs[i]->Typed_0.attrs[a], "init"@)
}

/// Whether one of the fns declares the address `v` for `account`.
pub open spec fn some_declares(fns: Seq<ItemFnView>, account: Seq<char>, v: ExprView) -> bool {
    exists|k: int, i: int, a: int|
        0 <= k < fns.len() && #[trigger] declares_address(fns[k], i, a, account, v)
}

/// Whether one of the fns creates `account` at the address `v`.
pub open spec fn some_creates(fns: Seq<ItemFnView>, account: Seq<char>, v: ExprView) -> bool {
    exists|k: int, i: int, a: int|
        0 <= k < fns.len() && #[trigger] declares_address(fns[k], i, a, account, v) && creates_too(
            fns[k],
            i,
            a,
        )
}

/// Whether a declaration is among those listed.
spec fn is_listed(decls: Seq<PdaDeclView>, v: ExprView, init: bool) -> bool {
    exists|d: int|
        0 <= d < decls.len() && (#[trigger] decls[d]).pda == v && (init ==> decls[d].has_init)
}

proof fn listed_in_sum(a: Seq<PdaDeclView>, b: Seq<PdaDeclView>, v: ExprView, init: bool)
    ensures
        is_listed(a + b, v, init) == (is_listed(a, v, init) || is_listed(b, v, init)),
{
    if is_listed(a, v, init) {
        let d = choose|d: int|
            0 <= d < a.len() && (#[trigger] a[d]).pda == v && (init ==> a[d].has_init);
        assert((a + b)[d] == a[d]);
    }
    if is_listed(b, v, init) {
        let d = choose|d: int|
            0 <= d < b.len() && (#[trigger] b[d]).pda == v && (init ==> b[d].has_init);
        assert((a + b)[a.len() + d] == b[d]);
    }
    if is_listed(a + b, v, init) {
        let d = choose|d: int|
            0 <= d < (a + b).len() && (#[trigger] (a + b)[d]).pda == v && (init ==> (a
                + b)[d].has_init);
        if d < a.len() {
            assert(a[d] == (a + b)[d]);
        } else {
            assert(b[d - a.len()] == (a + b)[d]);
        }
    }
}

/// Whether one of the attributes declares the address `v`, and creates the account
/// if `init`.
spec fn attrs_declare(list: Seq<AttributeView>, v: ExprView, init: bool) -> bool {
    exists|a: int|
        0 <= a < list.len() && attr_declares(#[trigger] list[a], v) && (init ==> attr_flags(
            list[a],
            "init"@,
        ))
}

proof fn attrs_are_listed(func: Seq<char>, list: Seq<AttributeView>, v: ExprView, init: bool)
    ensures
        is_listed(inject::attr_decls(func, list), v, init) == attrs_declare(list, v, init),
    decreases list.len(),
{
    if list.len() > 0 {
        let head = list.drop_last();
        let last = list.last();
        let before = inject::attr_decls(func, head);
        let all = inject::attr_decls(func, list);
        attrs_are_listed(func, head, v, init);
        addresses_are_read(last);
        attr_flags_are_carried(last, "init"@);
        assert(attr_declares(last, v) <==> last.path.is("account"@) && attrs::keyed(
            last.entries(),
            "pda"@,
            0,
            None,
        ) == Some(v));
        let own = all.skip(before.len() as int);
        assert(all =~= before + own);
        listed_in_sum(before, own, v, init);
        if attrs_declare(head, v, init) {
            let a = choose|a: int|
                0 <= a < head.len() && attr_declares(#[trigger] head[a], v) && (init ==> attr_flags(
                    head[a],
                    "init"@,
                ));
            assert(list[a] == head[a]);
        }
        if attrs_declare(list, v, init) {
            let a = choose|a: int|
                0 <= a < list.len() && attr_declares(#[trigger] list[a], v) && (init ==> attr_flags(
                    list[a],
                    "init"@,
                ));
            if a < head.len() {
                assert(head[a] == list[a]);
            } else {
                assert(own[0].pda == v);
            }
        }
        if is_listed(own, v, init) {
            let d = choose|d: int|
                0 <= d < own.len() && (#[trigger] own[d]).pda == v && (init ==> own[d].has_init);
            assert(own[d] == all[before.len() + d]);
            assert(attr_declares(list[list.len() - 1], v));
        }
    }
}

/// Whether one of the parameters called `account` declares the address `v`.
spec fn params_declare(
    params: Seq<(Seq<char>, ParamView)>,
    account: Seq<char>,
    v: ExprView,
    init: bool,
) -> bool {
    exists|i: int|
        0 <= i < params.len() && (#[trigger] params[i]).0 == account && attrs_declare(
            params[i].1.attrs,
            v,
            init,
        )
}

proof fn params_are_listed(
    func: Seq<char>,
    params: Seq<(Seq<char>, ParamView)>,
    account: Seq<char>,
    v: ExprView,
    init: bool,
)
    ensures
        is_listed(inject::param_decls(func, params, account), v, init) == params_declare(
            params,
            account,
            v,
            init,
        ),
    decreases params.len(),
{
    if params.len() > 0 {
        let head = params.drop_last();
        params_are_listed(func, head, account, v, init);
        attrs_are_listed(func, params.last().1.attrs, v, init);
        listed_in_sum(
            inject::param_decls(func, head, account),
            inject::attr_decls(func, params.last().1.attrs),
            v,
            init,
        );
        if params_declare(head, account, v, init) {
            let i = choose|i: int|
                0 <= i < head.len() && (#[trigger] head[i]).0 == account && attrs_declare(
                    head[i].1.attrs,
                    v,
                    init,
                );
            assert(params[i] == head[i]);
        }
        if params_declare(params, account, v, init) {
            let i = choose|i: int|
                0 <= i < params.len() && (#[trigger] params[i]).0 == account && attrs_declare(
                    params[i].1.attrs,
                    v,
                    init,
                );
            if i < head.len() {
                assert(head[i] == params[i]);
            }
        }
        if params.last().0 == account && attrs_declare(params.last().1.attrs, v, init) {
            assert(params[params.len() - 1].0 == account);
        }
    }
}

/// The named parameters of a fn are its typed inputs with a name.
pub proof fn named_params_are_inputs(inputs: Seq<FnArgView>, name: Seq<char>, p: ParamView)
    ensures
        (exists|i: int|
            0 <= i < attrs::named_params(inputs).len() && #[trigger] attrs::named_params(inputs)[i]
                == (name, p)) <==> (exists|i: int|
            0 <= i < inputs.len() && #[trigger] inputs[i] == FnArgView::Typed(p) && p.name == Some(
                name,
            )),
    decreases inputs.len(),
{
    if inputs.len() > 0 {
        let head = inputs.drop_last();
        let before = attrs::named_params(head);
        let all = attrs::named_params(inputs);
        named_params_are_inputs(head, name, p);
        if exists|i: int| 0 <= i < all.len() && #[trigger] all[i] == (name, p) {
            let i = choose|i: int| 0 <= i < all.len() && #[trigger] all[i] == (name, p);
            if i < before.len() {
                assert(before[i] == all[i]);
                let j = choose|j: int|
                    0 <= j < head.len() && #[trigger] head[j] == FnArgView::Typed(p) && p.name
                        == Some(name);
                assert(inputs[j] == head[j]);
            } else {
                assert(inputs[inputs.len() - 1] == FnArgView::Typed(p));
            }
        }
        if exists|i: int|
            0 <= i < inputs.len() && #[trigger] inputs[i] == FnArgView::Typed(p) && p.name == Some(
                name,
            ) {
            let i = choose|i: int|
                0 <= i < inputs.len() && #[trigger] inputs[i] == FnArgView::Typed(p) && p.name
                    == Some(name);
            if i < head.len() {
                assert(head[i] == inputs[i]);
                let j = choose|j: int| 0 <= j < before.len() && #[trigger] before[j] == (name, p);
                assert(all[j] == before[j]);
            } else {
                assert(all[before.len() as int] == (name, p));
            }
        }
    }
}

/// Whether a fn declares the address `v` for `account`, and creates it if `init`.
spec fn fn_declares(f: ItemFnView, account: Seq<char>, v: ExprView, init: bool) -> bool {
    exists|i: int, a: int| #[trigger]
        declares_address(f, i, a, account, v) && (init ==> creates_too(f, i, a))
}

proof fn fn_is_listed(f: ItemFnView, account: Seq<char>, v: ExprView, init: bool)
    ensures
        params_declare(attrs::named_params(f.inputs), account, v, init) == fn_declares(
            f,
            account,
            v,
            init,
        ),
{
    let params = attrs::named_params(f.inputs);
    if params_declare(params, account, v, init) {
        let i = choose|i: int|
            0 <= i < params.len() && (#[trigger] params[i]).0 == account && attrs_declare(
                params[i].1.attrs,
                v,
                init,
            );
        let p = params[i].1;
        assert(params[i] == (account, p));
        named_params_are_inputs(f.inputs, account, p);
        let j = choose|j: int|
            0 <= j < f.inputs.len() && #[trigger] f.inputs[j] == FnArgView::Typed(p) && p.name
                == Some(account);
        let a = choose|a: int|
            0 <= a < p.attrs.len() && attr_declares(#[trigger] p.attrs[a], v) && (init
                ==> attr_flags(p.attrs[a], "init"@));
        assert(declares_address(f, j, a, account, v));
    }
    if fn_declares(f, account, v, init) {
        let (j, a) = choose|j: int, a: int| #[trigger]
            declares_address(f, j, a, account, v) && (init ==> creates_too(f, j, a));
        let p = f.inputs[j]->Typed_0;
        assert(f.inputs[j] == FnArgView::Typed(p));
        named_params_are_inputs(f.inputs, account, p);
        let i = choose|i: int| 0 <= i < params.len() && #[trigger] params[i] == (account, p);
        assert(attr_declares(p.attrs[a], v));
        assert(attrs_declare(params[i].1.attrs, v, init));
    }
}

/// Whether one of the fns declares the address `v` for `account`.
spec fn fns_declare(fns: Seq<ItemFnView>, account: Seq<char>, v: ExprView, init: bool) -> bool {
    exists|k: int| 0 <= k < fns.len() && fn_declares(#[trigger] fns[k], account, v, init)
}

proof fn fns_are_listed(fns: Seq<ItemFnView>, account: Seq<char>, v: ExprView, init: bool)
    ensures
        is_listed(inject::fn_decls(fns, account), v, init) == fns_declare(fns, account, v, init),
    decreases fns.len(),
{
    if fns.len() > 0 {
        let head = fns.drop_last();
        let params = attrs::named_params(fns.last().inputs);
        fns_are_listed(head, account, v, init);
        params_are_listed(fns.last().name, params, account, v, init);
        fn_is_listed(fns.last(), account, v, init);
        listed_in_sum(
            inject::fn_decls(head, account),
            inject::param_decls(fns.last().name, params, account),
            v,
            init,
        );
        if fns_declare(head, account, v, init) {
            let k = choose|k: int|
                0 <= k < head.len() && fn_declares(#[trigger] head[k], account, v, init);
            assert(fns[k] == head[k]);
        }
        if fns_declare(fns, account, v, init) {
            let k = choose|k: int|
                0 <= k < fns.len() && fn_declares(#[trigger] fns[k], account, v, init);
            if k < head.len() {
                assert(head[k] == fns[k]);
            }
        }
        if fn_declares(fns.last(), account, v, init) {
            assert(fn_declares(fns[fns.len() - 1], account, v, init));
        }
    }
}

proof fn declared_somewhere(fns: Seq<ItemFnView>, account: Seq<char>, v: ExprView)
    ensures
        fns_declare(fns, account, v, false) == some_declares(fns, account, v),
        fns_declare(fns, account, v, true) == some_creates(fns, account, v),
{
    if fns_declare(fns, account, v, false) {
        let k = choose|k: int|
            0 <= k < fns.len() && fn_declares(#[trigger] fns[k], account, v, false);
        let (i, a) = choose|i: int, a: int| #[trigger]
            declares_address(fns[k], i, a, account, v);
        assert(declares_address(fns[k], i, a, account, v));
    }
    if some_declares(fns, account, v) {
        let (k, i, a) = choose|k: int, i: int, a: int|
            0 <= k < fns.len() && #[trigger] declares_address(fns[k], i, a, account, v);
        assert(fn_declares(fns[k], account, v, false));
    }
    if fns_declare(fns, account, v, true) {
        let k = choose|k: int|
            0 <= k < fns.len() && fn_declares(#[trigger] fns[k], account, v, true);
        let (i, a) = choose|i: int, a: int| #[trigger]
            declares_address(fns[k], i, a, account, v) && creates_too(fns[k], i, a);
        assert(declares_address(fns[k], i, a, account, v));
    }
    if some_creates(fns, account, v) {
        let (k, i, a) = choose|k: int, i: int, a: int|
            0 <= k < fns.len() && #[trigger] declares_address(fns[k], i, a, account, v)
                && creates_too(fns[k], i, a);
        assert(fn_declares(fns[k], account, v, true));
    }
}

proof fn first_creating(decls: Seq<PdaDeclView>, from: int)
    requires
        0 <= from,
    ensures
        inject::creating_decl(decls, from) is None ==> forall|d: int|
            from <= d < decls.len() ==> !(#[trigger] decls[d]).has_init,
        inject::creating_decl(decls, from) matches Some(c) ==> exists|d: int|
            from <= d < decls.len() && #[trigger] decls[d] == c && c.has_init,
    decreases decls.len() - from,
{
    if from < decls.len() && !decls[from].has_init {
        first_creating(decls, from + 1);
    }
}

proof fn first_conflict(decls: Seq<PdaDeclView>, pda: Seq<char>, from: int)
    requires
        0 <= from,
    ensures
        inject::conflicting_decl(decls, pda, from) is None <==> forall|d: int|
            from <= d < decls.len() ==> (#[trigger] decls[d]).pda.text == pda,
    decreases decls.len() - from,
{
    if from < decls.len() && decls[from].pda.text == pda {
        first_conflict(decls, pda, from + 1);
    }
}

/// The canonical address of an account is the one it is created at, and the only
/// one any fn declares for it: there is one exactly where some fn creates the
/// account at an address and no fn declares another for it.
pub proof fn canonical_address_is_where_the_account_is_created(
    fns: Seq<ItemFnView>,
    account: Seq<char>,
)
    ensures
        inject::canonical_constraint(fns, account) matches Ok(c) ==> some_creates(fns, account, c)
            && forall|v: ExprView| #[trigger] some_declares(fns, account, v) ==> v.text == c.text,
        inject::canonical_constraint(fns, account) is Err ==> (forall|c: ExprView|
            !#[trigger] some_creates(fns, account, c)) || (exists|v: ExprView, w: ExprView|
            #[trigger] some_declares(fns, account, v) && #[trigger] some_declares(fns, account, w)
                && v.text != w.text),
{
    let decls = inject::fn_decls(fns, account);
    first_creating(decls, 0);
    assert forall|v: ExprView| #[trigger] some_declares(fns, account, v) == is_listed(
        decls,
        v,
        false,
    ) by {
        fns_are_listed(fns, account, v, false);
        declared_somewhere(fns, account, v);
    }
    assert forall|v: ExprView| #[trigger] some_creates(fns, account, v) == is_listed(
        decls,
        v,
        true,
    ) by {
        fns_are_listed(fns, account, v, true);
        declared_somewhere(fns, account, v);
    }
    match inject::creating_decl(decls, 0) {
        None => {
            assert forall|c: ExprView| !#[trigger] some_creates(fns, account, c) by {}
        },
        Some(c) => {
            first_conflict(decls, c.pda.text, 0);
            let d = choose|d: int| 0 <= d < decls.len() && #[trigger] decls[d] == c && c.has_init;
            assert(is_listed(decls, c.pda, true));
            assert(is_listed(decls, c.pda, false));
            assert(some_creates(fns, account, c.pda));
            assert(some_declares(fns, account, c.pda));
            if inject::conflicting_decl(decls, c.pda.text, 0) is Some {
                let e = choose|e: int|
                    0 <= e < decls.len() && (#[trigger] decls[e]).pda.text != c.pda.text;
                assert(is_listed(decls, decls[e].pda, false));
                assert(some_declares(fns, account, decls[e].pda));
            }
        },
    }
}

// ── Seeds ────────────────────────────────────────────────────────────────

/// Whether a call is read as a seed: its first argument under the kind its name
/// gives.
pub open spec fn is_read_as(call: CallView, seed: InjectSeedView) -> bool {
    call.args.len() > 0 && match seed {
        InjectSeedView::Const(v) => call.func == Some("literal"@) && call.args[0] == Some(v),
        InjectSeedView::Account(v) => call.func == Some("account"@) && call.args[0] == Some(v),
    }
}

/// Whether an expression is read as seeds: a call as one, an array of calls as
/// many, in order.
pub open spec fn are_read_from(v: ExprView, seeds: Seq<InjectSeedView>) -> bool {
    match v.kind {
        ExprKindView::Call(call) => seeds.len() == 1 && is_read_as(call, seeds[0]),
        ExprKindView::Array(elems) => seeds.len() == elems.len() && forall|i: int|
            0 <= i < elems.len() ==> (#[trigger] elems[i] matches Some(call) && is_read_as(
                call,
                seeds[i],
            )),
        _ => false,
    }
}

proof fn seed_words_differ()
    ensures
        "literal"@ != "account"@,
{
    reveal_strlit("literal");
    reveal_strlit("account");
    assert("literal"@[0] == 'l' && "account"@[0] == 'a');
}

proof fn call_is_read(call: CallView)
    ensures
        forall|seed: InjectSeedView| #[trigger]
            is_read_as(call, seed) <==> inject::call_seed(call) == Some(seed),
{
    seed_words_differ();
}

proof fn array_is_read(elems: Seq<Option<CallView>>, from: int, out: Seq<InjectSeedView>)
    requires
        0 <= from <= elems.len(),
        out.len() == from,
        forall|i: int|
            0 <= i < from ==> (#[trigger] elems[i] matches Some(call) && is_read_as(call, out[i])),
    ensures
        inject::array_seeds_from(elems, from, out) matches Some(all) ==> all.len() == elems.len()
            && forall|i: int|
            0 <= i < elems.len() ==> (#[trigger] elems[i] matches Some(call) && is_read_as(
                call,
                all[i],
            )),
        inject::array_seeds_from(elems, from, out) is None ==> exists|i: int|
            from <= i < elems.len() && (#[trigger] elems[i] matches Some(call) ==> inject::call_seed(
                call,
            ) is None),
    decreases elems.len() - from,
{
    if from < elems.len() {
        if let Some(call) = elems[from] {
            call_is_read(call);
            if let Some(seed) = inject::call_seed(call) {
                assert(is_read_as(call, seed));
                array_is_read(elems, from + 1, out.push(seed));
            }
        }
    }
}

/// The seeds of an expression are the ones its calls name, in number, order, kind
/// and text; an expression of another shape has none.
pub proof fn seeds_are_read(v: ExprView)
    ensures
        forall|seeds: Seq<InjectSeedView>| #[trigger]
            are_read_from(v, seeds) <==> inject::expr_seeds(v) == Some(seeds),
{
    match v.kind {
        ExprKindView::Array(elems) => {
            array_is_read(elems, 0, Seq::empty());
            let got = inject::expr_seeds(v);
            assert forall|seeds: Seq<InjectSeedView>| #[trigger] are_read_from(v, seeds) <==> got
                == Some(seeds) by {
                if are_read_from(v, seeds) {
                    assert forall|i: int| 0 <= i < elems.len() implies (
                    #[trigger] elems[i] matches Some(call) && inject::call_seed(call) == Some(
                        seeds[i],
                    )) by {
                        call_is_read(elems[i]->Some_0);
                    }
                    if let Some(all) = got {
                        assert forall|i: int| 0 <= i < elems.len() implies all[i] == seeds[i] by {
                            call_is_read(elems[i]->Some_0);
                            assert(is_read_as(elems[i]->Some_0, all[i]));
                        }
                        assert(all =~= seeds);
                    } else {
                        let i = choose|i: int|
                            0 <= i < elems.len() && (#[trigger] elems[i] matches Some(call)
                                ==> inject::call_seed(call) is None);
                        assert(elems[i] is Some);
                    }
                }
            }
        },
        ExprKindView::Call(call) => {
            call_is_read(call);
            assert forall|seeds: Seq<InjectSeedView>| #[trigger]
                are_read_from(v, seeds) implies inject::expr_seeds(v) == Some(seeds) by {
                assert(seeds =~= seq![seeds[0]]);
            }
        },
        _ => {},
    }
}

// ── Rewriting ────────────────────────────────────────────────────────────

/// Whether embed `k` is the last of an extension's for a role.
pub open spec fn is_last_embed(
    embeds: Seq<EmbedView>,
    k: int,
    source: Seq<char>,
    role: Seq<char>,
) -> bool {
    &&& 0 <= k < embeds.len()
    &&& embeds[k].source == source
    &&& embeds[k].decl.role == role
    &&& forall|l: int|
        k < l < embeds.len() ==> !((#[trigger] embeds[l]).source == source && embeds[l].decl.role
            == role)
}

/// What an embed makes of the account of its role: the consumer's account, at the
/// address the consumer creates it at.
pub open spec fn is_embedded_as(
    now: InjectAccountView,
    before: InjectAccountView,
    embed: EmbedDeclView,
    fns: Seq<ItemFnView>,
) -> bool {
    &&& now.name == embed.account
    &&& now.embedded
    &&& now.role == before.role
    &&& now.signer == before.signer
    &&& exists|c: ExprView| #[trigger]
        some_creates(fns, embed.account, c) && are_read_from(c, now.seeds)
}

/// What is known of specs once the first `n` embeds are applied.
spec fn applied(
    specs: Seq<InjectSpecView>,
    now: Seq<InjectSpecView>,
    embeds: Seq<EmbedView>,
    fns: Seq<ItemFnView>,
) -> bool {
    now.len() == specs.len() && forall|i: int|
        0 <= i < specs.len() ==> spec_applied(specs[i], #[trigger] now[i], embeds, fns)
}

spec fn spec_applied(
    spec: InjectSpecView,
    now: InjectSpecView,
    embeds: Seq<EmbedView>,
    fns: Seq<ItemFnView>,
) -> bool {
    &&& now.source == spec.source
    &&& now.wrapper == spec.wrapper
    &&& now.accounts.len() == spec.accounts.len()
    &&& forall|j: int|
        0 <= j < spec.accounts.len() ==> account_applied(
            spec.source,
            spec.accounts[j],
            #[trigger] now.accounts[j],
            embeds,
            fns,
        )
}

/// Whether an account of an extension is what its embeds make of it: what the last
/// embed of its role says, or what it was where none names its role.
pub open spec fn account_applied(
    source: Seq<char>,
    before: InjectAccountView,
    now: InjectAccountView,
    embeds: Seq<EmbedView>,
    fns: Seq<ItemFnView>,
) -> bool {
    ||| exists|k: int| #[trigger]
        is_last_embed(embeds, k, source, before.role) && is_embedded_as(
            now,
            before,
            embeds[k].decl,
            fns,
        )
    ||| now == before && forall|k: int|
        0 <= k < embeds.len() ==> !((#[trigger] embeds[k]).source == source && embeds[k].decl.role
            == before.role)
}

proof fn one_more_applied(
    source: Seq<char>,
    before: InjectAccountView,
    now: InjectAccountView,
    next: InjectAccountView,
    embeds: Seq<EmbedView>,
    n: int,
    fns: Seq<ItemFnView>,
    seeds: Seq<InjectSeedView>,
)
    requires
        0 <= n < embeds.len(),
        account_applied(source, before, now, embeds.take(n), fns),
        inject::canonical_constraint(fns, embeds[n].decl.account) matches Ok(c)
            && inject::expr_seeds(c) == Some(seeds),
        source == embeds[n].source ==> next == inject::embedded_account(now, embeds[n].decl, seeds),
        source != embeds[n].source ==> next == now,
    ensures
        account_applied(source, before, next, embeds.take(n + 1), fns),
{
    let done = embeds.take(n);
    let more = embeds.take(n + 1);
    assert(now.role == before.role);
    if source == embeds[n].source && embeds[n].decl.role == before.role {
        let c = inject::canonical_constraint(fns, embeds[n].decl.account)->Ok_0;
        canonical_address_is_where_the_account_is_created(fns, embeds[n].decl.account);
        seeds_are_read(c);
        assert(are_read_from(c, seeds));
        assert(some_creates(fns, embeds[n].decl.account, c));
        assert(more[n] == embeds[n]);
        assert(is_last_embed(more, n, source, before.role));
        assert(is_embedded_as(next, before, more[n].decl, fns));
    } else {
        assert(next == now);
        if exists|k: int| #[trigger]
            is_last_embed(done, k, source, before.role) && is_embedded_as(
                now,
                before,
                done[k].decl,
                fns,
            ) {
            let k = choose|k: int| #[trigger]
                is_last_embed(done, k, source, before.role) && is_embedded_as(
                    now,
                    before,
                    done[k].decl,
                    fns,
                );
            assert(more[k] == done[k]);
            assert forall|l: int| k < l < more.len() implies !((#[trigger] more[l]).source
                == source && more[l].decl.role == before.role) by {
                if l < n {
                    assert(done[l] == more[l]);
                }
            }
            assert(is_last_embed(more, k, source, before.role));
        } else {
            assert forall|k: int| 0 <= k < more.len() implies !((#[trigger] more[k]).source
                == source && more[k].decl.role == before.role) by {
                if k < n {
                    assert(done[k] == more[k]);
                }
            }
        }
    }
}

proof fn embeds_are_applied(
    specs: Seq<InjectSpecView>,
    now: Seq<InjectSpecView>,
    embeds: Seq<EmbedView>,
    fns: Seq<ItemFnView>,
    n: int,
)
    requires
        0 <= n <= embeds.len(),
        applied(specs, now, embeds.take(n), fns),
    ensures
        inject::rewritten_from(now, embeds, fns, n) matches Ok(done) ==> applied(
            specs,
            done,
            embeds,
            fns,
        ),
    decreases embeds.len() - n,
{
    if n < embeds.len() {
        if let Ok(next) = inject::rewritten(now, embeds[n], fns) {
            let c = inject::canonical_constraint(fns, embeds[n].decl.account)->Ok_0;
            let seeds = inject::expr_seeds(c)->Some_0;
            assert forall|i: int| 0 <= i < specs.len() implies spec_applied(
                specs[i],
                #[trigger] next[i],
                embeds.take(n + 1),
                fns,
            ) by {
                assert(spec_applied(specs[i], now[i], embeds.take(n), fns));
                assert(next[i] == inject::embedded_spec(now[i], embeds[n], seeds));
                assert forall|j: int| 0 <= j < specs[i].accounts.len() implies account_applied(
                    specs[i].source,
                    specs[i].accounts[j],
                    #[trigger] next[i].accounts[j],
                    embeds.take(n + 1),
                    fns,
                ) by {
                    assert(account_applied(
                        specs[i].source,
                        specs[i].accounts[j],
                        now[i].accounts[j],
                        embeds.take(n),
                        fns,
                    ));
                    one_more_applied(
                        specs[i].source,
                        specs[i].accounts[j],
                        now[i].accounts[j],
                        next[i].accounts[j],
                        embeds,
                        n,
                        fns,
                        seeds,
                    );
                }
            }
            embeds_are_applied(specs, next, embeds, fns, n + 1);
        }
    } else {
        assert(embeds.take(n) =~= embeds);
    }
}

/// Rewriting turns an embedded role into the consumer's account, and touches
/// nothing else: the account takes the consumer's name and the address it is
/// created at, and keeps its role and its signature.
pub proof fn embedded_roles_become_the_consumers_account(
    specs: Seq<InjectSpecView>,
    embeds: Seq<EmbedView>,
    fns: Seq<ItemFnView>,
    i: int,
    j: int,
)
    requires
        0 <= i < specs.len(),
        0 <= j < specs[i].accounts.len(),
    ensures
        inject::all_rewritten(specs, embeds, fns) matches Ok(done) ==> done.len() == specs.len()
            && done[i].accounts.len() == specs[i].accounts.len() && done[i].source
            == specs[i].source && done[i].wrapper == specs[i].wrapper && account_applied(
            specs[i].source,
            specs[i].accounts[j],
            done[i].accounts[j],
            embeds,
            fns,
        ),
{
    assert forall|k: int| 0 <= k < specs.len() implies spec_applied(
        specs[k],
        #[trigger] specs[k],
        embeds.take(0),
        fns,
    ) by {
        assert forall|l: int| 0 <= l < specs[k].accounts.len() implies account_applied(
            specs[k].source,
            specs[k].accounts[l],
            #[trigger] specs[k].accounts[l],
            embeds.take(0),
            fns,
        ) by {}
    }
    embeds_are_applied(specs, specs, embeds, fns, 0);
    if let Ok(done) = inject::all_rewritten(specs, embeds, fns) {
        assert(spec_applied(specs[i], done[i], embeds, fns));
        assert(account_applied(
            specs[i].source,
            specs[i].accounts[j],
            done[i].accounts[j],
            embeds,
            fns,
        ));
    }
}

// ── Initializers and windows ─────────────────────────────────────────────

/// Whether a fn creates the account called `account`.
pub open spec fn creates_account(f: ItemFnView, account: Seq<char>) -> bool {
    exists|i: int|
        0 <= i < f.inputs.len() && (#[trigger] f.inputs[i] matches FnArgView::Typed(p) && p.name
            == Some(account) && is_flagged(p, "init"@))
}

/// Whether one of the attributes ends in `name`.
pub open spec fn ends_in(list: Seq<AttributeView>, name: Seq<char>) -> bool {
    exists|a: int|
        0 <= a < list.len() && (#[trigger] list[a]).path.segments.len() > 0
            && list[a].path.segments.last() == name
}

/// A fn creates an account where a parameter of that name says `init`.
pub proof fn creation_is_read(f: ItemFnView, account: Seq<char>)
    ensures
        inject::creates(attrs::named_params(f.inputs), account) == creates_account(f, account),
{
    let params = attrs::named_params(f.inputs);
    if inject::creates(params, account) {
        let i = choose|i: int|
            0 <= i < params.len() && (#[trigger] params[i]).0 == account && params[i].1.has_flag(
                "init"@,
            );
        let p = params[i].1;
        assert(params[i] == (account, p));
        named_params_are_inputs(f.inputs, account, p);
        flags_are_read(p, "init"@);
        let j = choose|j: int|
            0 <= j < f.inputs.len() && #[trigger] f.inputs[j] == FnArgView::Typed(p) && p.name
                == Some(account);
        assert(f.inputs[j] matches FnArgView::Typed(q) && q.name == Some(account) && is_flagged(
            q,
            "init"@,
        ));
    }
    if creates_account(f, account) {
        let j = choose|j: int|
            0 <= j < f.inputs.len() && (#[trigger] f.inputs[j] matches FnArgView::Typed(p)
                && p.name == Some(account) && is_flagged(p, "init"@));
        let p = f.inputs[j]->Typed_0;
        assert(f.inputs[j] == FnArgView::Typed(p));
        named_params_are_inputs(f.inputs, account, p);
        flags_are_read(p, "init"@);
        let i = choose|i: int| 0 <= i < params.len() && #[trigger] params[i] == (account, p);
        assert(params[i].0 == account && params[i].1.has_flag("init"@));
    }
}

proof fn ending_is_ends_in(list: Seq<AttributeView>, name: Seq<char>)
    ensures
        attrs::ending(list, name) == ends_in(list, name),
{
    if attrs::ending(list, name) {
        let a = choose|a: int| 0 <= a < list.len() && (#[trigger] list[a]).path.ends(name);
        assert(list[a].path.segments.len() > 0);
    }
    if ends_in(list, name) {
        let a = choose|a: int|
            0 <= a < list.len() && (#[trigger] list[a]).path.segments.len() > 0
                && list[a].path.segments.last() == name;
        assert(list[a].path.ends(name));
    }
}

/// An initializer goes with creation: a program is accepted exactly where the fns
/// that carry the initializer, by its name or as `initialize`, are the fns that
/// create the account.
pub proof fn initializers_are_the_creators(embed: EmbedDeclView, fns: Seq<ItemFnView>)
    ensures
        embed.initializer matches Some(anchor) ==> (inject::coverage(embed, fns) is Ok
            <==> forall|i: int|
            0 <= i < fns.len() ==> creates_account(#[trigger] fns[i], embed.account) == (ends_in(
                fns[i].attrs,
                anchor,
            ) || ends_in(fns[i].attrs, "initialize"@))),
        embed.initializer is None ==> inject::coverage(embed, fns) is Ok,
{
    gate_laws::initializer_goes_with_creation(embed, fns);
    if let Some(anchor) = embed.initializer {
        assert forall|i: int| 0 <= i < fns.len() implies inject::creates(
            attrs::named_params((#[trigger] fns[i]).inputs),
            embed.account,
        ) == creates_account(fns[i], embed.account) && inject::carries_initializer(
            fns[i].attrs,
            anchor,
        ) == (ends_in(fns[i].attrs, anchor) || ends_in(fns[i].attrs, "initialize"@)) by {
            creation_is_read(fns[i], embed.account);
            ending_is_ends_in(fns[i].attrs, anchor);
            ending_is_ends_in(fns[i].attrs, "initialize"@);
        }
    }
}

/// Whether two offsets are the same literal.
pub open spec fn same_literal(a: OffsetSpecView, b: OffsetSpecView) -> bool {
    match (a, b) {
        (OffsetSpecView::Literal(m), OffsetSpecView::Literal(n)) => m == n,
        _ => false,
    }
}

/// Two embeds are refused exactly where they would share a window: one account,
/// and the same literal offset.
pub proof fn shared_windows_are_refused(embeds: Seq<EmbedView>)
    ensures
        inject::collisions_from(embeds, 0) is Err <==> exists|i: int, j: int|
            0 <= i < j < embeds.len() && (#[trigger] embeds[i]).decl.account == (
            #[trigger] embeds[j]).decl.account && same_literal(
                embeds[i].decl.offset,
                embeds[j].decl.offset,
            ),
{
    gate_laws::accepted_embeds_do_not_collide(embeds);
}

} // verus!
