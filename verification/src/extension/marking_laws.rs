//! What a marker says, and what is read of it.
use crate::account_laws;
use crate::attrs;
use crate::extension::marker;
use crate::extension::marker::{MarkerArgsView, MarkerReadingView, OffsetSpecView};
use crate::extension::role_laws;
use crate::syntax::{
    AttrFormView, AttributeView, ExprKindView, FnArgView, ItemFnView, ItemView, MetaFormView,
    MetaView, ParamView,
};
use vstd::prelude::*;

verus! {

/// Whether an argument is the bare word `w`.
pub open spec fn is_word(m: MetaView, w: Seq<char>) -> bool {
    m.form is Bare && account_laws::just(m.path, w)
}

/// Whether an argument is `offset = n`.
pub open spec fn is_offset(m: MetaView, n: usize) -> bool {
    m.form matches MetaFormView::Value(v) && v.kind == ExprKindView::Int(n) && account_laws::just(
        m.path,
        "offset"@,
    )
}

/// Whether an argument is `role = account`.
pub open spec fn is_role(m: MetaView, role: Seq<char>, account: Seq<char>) -> bool {
    m.form matches MetaFormView::Value(v) && v.kind == ExprKindView::Name(Some(account))
        && account_laws::just(m.path, role) && role != "offset"@
}

/// Whether one of the first `n` arguments is the word `w`.
pub open spec fn has_word(metas: Seq<MetaView>, n: int, w: Seq<char>) -> bool {
    exists|i: int| 0 <= i < n && is_word(#[trigger] metas[i], w)
}

/// Whether one of the first `n` arguments is `offset = k`.
pub open spec fn has_offset(metas: Seq<MetaView>, n: int, k: usize) -> bool {
    exists|i: int| 0 <= i < n && is_offset(#[trigger] metas[i], k)
}

/// Whether one of the first `n` arguments is `role = account`.
pub open spec fn has_role(
    metas: Seq<MetaView>,
    n: int,
    role: Seq<char>,
    account: Seq<char>,
) -> bool {
    exists|i: int| 0 <= i < n && is_role(#[trigger] metas[i], role, account)
}

/// Whether an argument is one that a marker takes.
pub open spec fn is_argument(m: MetaView) -> bool {
    ||| exists|w: Seq<char>| is_word(m, w)
    ||| exists|n: usize| is_offset(m, n)
    ||| exists|role: Seq<char>, account: Seq<char>| is_role(m, role, account)
}

/// Whether two arguments say the same kind of thing.
pub open spec fn are_alike(a: MetaView, b: MetaView) -> bool {
    ||| a.form is Bare && b.form is Bare
    ||| (exists|n: usize| is_offset(a, n)) && (exists|n: usize| is_offset(b, n))
    ||| (exists|role: Seq<char>, account: Seq<char>| is_role(a, role, account)) && (exists|
        role: Seq<char>,
        account: Seq<char>,
    |
        is_role(b, role, account))
}

/// Whether arguments can be read: each is one a marker takes, and no two are alike.
pub open spec fn are_readable(metas: Seq<MetaView>) -> bool {
    &&& forall|i: int| 0 <= i < metas.len() ==> is_argument(#[trigger] metas[i])
    &&& forall|i: int, j: int|
        0 <= i < j < metas.len() ==> !are_alike(#[trigger] metas[i], #[trigger] metas[j])
}

/// Whether a reading is that of the first `n` arguments.
spec fn is_reading(r: MarkerReadingView, metas: Seq<MetaView>, n: int) -> bool {
    &&& match r.word {
        Some(w) => has_word(metas, n, w),
        None => forall|i: int, w: Seq<char>| 0 <= i < n ==> !#[trigger] is_word(metas[i], w),
    }
    &&& match r.offset {
        Some(k) => has_offset(metas, n, k),
        None => forall|i: int, k: usize| 0 <= i < n ==> !#[trigger] is_offset(metas[i], k),
    }
    &&& match r.role {
        Some((role, account)) => has_role(metas, n, role, account),
        None => forall|i: int, role: Seq<char>, account: Seq<char>|
            0 <= i < n ==> !#[trigger] is_role(metas[i], role, account),
    }
}

proof fn idents_are_just(m: MetaView)
    ensures
        m.path.ident() matches Some(name) ==> account_laws::just(m.path, name),
        forall|name: Seq<char>| #[trigger]
            account_laws::just(m.path, name) ==> m.path.ident() == Some(name),
{
    if let Some(name) = m.path.ident() {
        account_laws::paths_are_just(m.path, name);
    }
    assert forall|name: Seq<char>| #[trigger] account_laws::just(
        m.path,
        name,
    ) implies m.path.ident() == Some(name) by {
        account_laws::paths_are_just(m.path, name);
    }
}

proof fn argument_is_read(
    r: MarkerReadingView,
    metas: Seq<MetaView>,
    n: int,
    ext: Seq<char>,
)
    requires
        0 <= n < metas.len(),
        is_reading(r, metas, n),
    ensures
        marker::marker_arg(r, metas[n], ext) matches Ok(next) ==> is_reading(next, metas, n + 1)
            && is_argument(metas[n]),
        are_readable(metas) ==> marker::marker_arg(r, metas[n], ext) is Ok,
{
    let m = metas[n];
    idents_are_just(m);
    if let Ok(next) = marker::marker_arg(r, m, ext) {
        match m.form {
            MetaFormView::Bare => {
                let w = m.path.ident()->Some_0;
                assert(is_word(m, w));
                assert(has_word(metas, n + 1, w));
            },
            MetaFormView::Value(v) => {
                let key = m.path.ident()->Some_0;
                if key == "offset"@ {
                    let k = v.kind->Int_0;
                    assert(is_offset(m, k));
                    assert(has_offset(metas, n + 1, k));
                } else {
                    let account = next.role->Some_0.1;
                    assert(is_role(m, key, account));
                    assert(has_role(metas, n + 1, key, account));
                }
            },
            MetaFormView::List => {},
        }
        if let Some(w) = r.word {
            let i = choose|i: int| 0 <= i < n && is_word(#[trigger] metas[i], w);
            assert(is_word(metas[i], w));
            assert(has_word(metas, n + 1, w));
        }
        if let Some(k) = r.offset {
            let i = choose|i: int| 0 <= i < n && is_offset(#[trigger] metas[i], k);
            assert(is_offset(metas[i], k));
            assert(has_offset(metas, n + 1, k));
        }
        if let Some((role, account)) = r.role {
            let i = choose|i: int| 0 <= i < n && is_role(#[trigger] metas[i], role, account);
            assert(is_role(metas[i], role, account));
            assert(has_role(metas, n + 1, role, account));
        }
    }
    if are_readable(metas) {
        assert(is_argument(m));
        if exists|w: Seq<char>| is_word(m, w) {
            if let Some(w) = r.word {
                let i = choose|i: int| 0 <= i < n && is_word(#[trigger] metas[i], w);
                assert(are_alike(metas[i], metas[n]));
            }
        } else if exists|k: usize| is_offset(m, k) {
            let k = choose|k: usize| is_offset(m, k);
            if let Some(l) = r.offset {
                let i = choose|i: int| 0 <= i < n && is_offset(#[trigger] metas[i], l);
                assert(is_offset(metas[i], l) && is_offset(metas[n], k));
                assert(are_alike(metas[i], metas[n]));
            }
        } else {
            let (role, account) = choose|role: Seq<char>, account: Seq<char>|
                is_role(m, role, account);
            assert(m.path.ident() == Some(role));
            if let Some((other, own)) = r.role {
                let i = choose|i: int| 0 <= i < n && is_role(#[trigger] metas[i], other, own);
                assert(is_role(metas[i], other, own) && is_role(metas[n], role, account));
                assert(are_alike(metas[i], metas[n]));
            }
        }
    }
}

proof fn arguments_are_read(
    metas: Seq<MetaView>,
    n: int,
    r: MarkerReadingView,
    ext: Seq<char>,
)
    requires
        0 <= n <= metas.len(),
        is_reading(r, metas, n),
        forall|i: int| 0 <= i < n ==> is_argument(#[trigger] metas[i]),
    ensures
        marker::marker_args_from(metas, n, r, ext) matches Ok(end) ==> is_reading(
            end,
            metas,
            metas.len() as int,
        ) && forall|i: int| 0 <= i < metas.len() ==> is_argument(#[trigger] metas[i]),
        are_readable(metas) ==> marker::marker_args_from(metas, n, r, ext) is Ok,
    decreases metas.len() - n,
{
    if n < metas.len() {
        argument_is_read(r, metas, n, ext);
        if let Ok(next) = marker::marker_arg(r, metas[n], ext) {
            arguments_are_read(metas, n + 1, next, ext);
        }
    }
}

/// Whether a marker's arguments are what its list says: the word, the role and the
/// account it is embedded in, and the offset, derived where none is given.
pub open spec fn says_so(args: MarkerArgsView, metas: Seq<MetaView>) -> bool {
    let n = metas.len() as int;
    &&& match args.word {
        Some(w) => has_word(metas, n, w),
        None => forall|i: int, w: Seq<char>| 0 <= i < n ==> !#[trigger] is_word(metas[i], w),
    }
    &&& match args.embed {
        Some(e) => has_role(metas, n, e.role, e.account) && e.initializer is None
            && match e.offset {
            OffsetSpecView::Literal(k) => has_offset(metas, n, k),
            OffsetSpecView::Derived => forall|i: int, k: usize|
                0 <= i < n ==> !#[trigger] is_offset(metas[i], k),
            OffsetSpecView::Path(_) => false,
        },
        None => forall|i: int, role: Seq<char>, account: Seq<char>|
            0 <= i < n ==> !#[trigger] is_role(metas[i], role, account),
    }
}

/// A marker is read as it is written. What it says is what is read of it; an argument
/// that a marker does not take is refused, and arguments that can be read are, if an
/// offset comes with a role.
pub proof fn markers_are_read_as_written(a: AttributeView, ext: Seq<char>)
    ensures
        !account_laws::just(a.path, ext) ==> marker::marker_args(a, ext) matches Ok(None),
        account_laws::just(a.path, ext) && a.form is Bare ==> (marker::marker_args(a, ext) matches Ok(
            Some(args),
        ) && args.word is None && args.embed is None),
        account_laws::just(a.path, ext) ==> (a.form matches AttrFormView::List(l) ==> (
        l.malformed is None ==> {
            &&& marker::marker_args(a, ext) matches Ok(Some(args)) ==> says_so(args, l.metas)
            &&& marker::marker_args(a, ext) is Ok ==> forall|i: int|
                0 <= i < l.metas.len() ==> is_argument(#[trigger] l.metas[i])
            &&& !(marker::marker_args(a, ext) matches Ok(None))
            &&& are_readable(l.metas) && (exists|i: int, role: Seq<char>, account: Seq<char>|
                0 <= i < l.metas.len() && #[trigger] is_role(l.metas[i], role, account))
                ==> marker::marker_args(a, ext) is Ok
            &&& are_readable(l.metas) && (forall|i: int, k: usize|
                0 <= i < l.metas.len() ==> !#[trigger] is_offset(l.metas[i], k))
                ==> marker::marker_args(a, ext) is Ok
        })),
{
    account_laws::paths_are_just(a.path, ext);
    if account_laws::just(a.path, ext) {
        if let AttrFormView::List(l) = a.form {
            if l.malformed is None {
                arguments_are_read(l.metas, 0, marker::nothing_read(), ext);
                if let Ok(end) = marker::marker_args_from(
                    l.metas,
                    0,
                    marker::nothing_read(),
                    ext,
                ) {
                    if let Some(k) = end.offset {
                        let i = choose|i: int|
                            0 <= i < l.metas.len() && is_offset(#[trigger] l.metas[i], k);
                        assert(is_offset(l.metas[i], k));
                    }
                }
            }
        }
    }
}

// ── Candidates ───────────────────────────────────────────────────────────

/// Whether a name is reserved: it is that of the program or of the language.
pub open spec fn is_reserved(name: Seq<char>) -> bool {
    seq![
        "lez_program"@,
        "doc"@,
        "cfg"@,
        "cfg_attr"@,
        "allow"@,
        "deny"@,
        "warn"@,
        "expect"@,
        "forbid"@,
        "deprecated"@,
    ].contains(name)
}

/// The candidates for markers are the names of a module's attributes that are not
/// reserved.
pub proof fn candidates_are_the_unreserved_names(list: Seq<AttributeView>, name: Seq<char>)
    ensures
        marker::candidates(list).contains(name) <==> !is_reserved(name) && exists|i: int|
            0 <= i < list.len() && account_laws::just((#[trigger] list[i]).path, name),
    decreases list.len(),
{
    let reserved = seq![
        "lez_program"@,
        "doc"@,
        "cfg"@,
        "cfg_attr"@,
        "allow"@,
        "deny"@,
        "warn"@,
        "expect"@,
        "forbid"@,
        "deprecated"@,
    ];
    assert(marker::could_mark(name) == !is_reserved(name)) by {
        if !marker::could_mark(name) {
            assert(reserved[0] == name || reserved[1] == name || reserved[2] == name || reserved[3]
                == name || reserved[4] == name || reserved[5] == name || reserved[6] == name
                || reserved[7] == name || reserved[8] == name || reserved[9] == name);
        }
    }
    if list.len() > 0 {
        let init = list.drop_last();
        let n = list.len() - 1;
        let before = marker::candidates(init);
        let all = marker::candidates(list);
        candidates_are_the_unreserved_names(init, name);
        account_laws::paths_are_just(list[n].path, name);
        if before.contains(name) {
            let k = choose|k: int| 0 <= k < before.len() && before[k] == name;
            assert(all[k] == name);
            let i = choose|i: int|
                0 <= i < init.len() && account_laws::just((#[trigger] init[i]).path, name);
            assert(list[i] == init[i]);
        }
        if account_laws::just(list[n].path, name) && marker::could_mark(name) {
            assert(all[before.len() as int] == name);
        }
        if all.contains(name) && !before.contains(name) {
            let k = choose|k: int| 0 <= k < all.len() && all[k] == name;
            if k < before.len() {
                assert(before[k] == name);
            }
            assert(account_laws::just(list[n].path, name));
        }
        if exists|i: int|
            0 <= i < list.len() && account_laws::just((#[trigger] list[i]).path, name) {
            let i = choose|i: int|
                0 <= i < list.len() && account_laws::just((#[trigger] list[i]).path, name);
            if i < n {
                assert(init[i] == list[i]);
            }
        }
    }
}

// ── Anchors ──────────────────────────────────────────────────────────────

/// Whether attribute `a` of a fn is one of its anchors: it ends in the anchor's name or
/// in `initialize`.
pub open spec fn is_anchor(f: ItemFnView, a: int, anchor: Seq<char>) -> bool {
    &&& 0 <= a < f.attrs.len()
    &&& f.attrs[a].path.segments.len() > 0
    &&& f.attrs[a].path.segments.last() == anchor || f.attrs[a].path.segments.last()
        == "initialize"@
}

/// Whether an item is a fn with an anchor.
pub open spec fn is_anchored(item: ItemView, anchor: Seq<char>) -> bool {
    item matches ItemView::Fn(f) && exists|a: int| #[trigger] is_anchor(f, a, anchor)
}

/// Whether a fn creates the account of its parameter called `name`.
pub open spec fn creates(f: ItemFnView, name: Seq<char>) -> bool {
    exists|i: int|
        0 <= i < f.inputs.len() && (#[trigger] f.inputs[i] matches FnArgView::Typed(p) && p.name
            == Some(name) && role_laws::is_flagged(p, "init"@))
}

proof fn first_is_ending(list: Seq<AttributeView>, name: Seq<char>, from: int)
    requires
        0 <= from <= list.len(),
    ensures
        attrs::first_ending(list, name, from) matches Some(i) ==> from <= i < list.len()
            && list[i].path.segments.len() > 0 && list[i].path.segments.last() == name,
        attrs::first_ending(list, name, from) is None ==> forall|i: int|
            from <= i < list.len() ==> !((#[trigger] list[i]).path.segments.len() > 0
                && list[i].path.segments.last() == name),
    decreases list.len() - from,
{
    if from < list.len() && !list[from].path.ends(name) {
        first_is_ending(list, name, from + 1);
    }
}

proof fn anchor_is_found(f: ItemFnView, anchor: Seq<char>, name: Seq<char>)
    ensures
        marker::anchor_on(f, anchor, name) matches Ok(Some(x)) ==> exists|a: int| #[trigger]
            is_anchor(f, a, anchor) && f.attrs[a] == x,
        marker::anchor_on(f, anchor, name) matches Ok(None) ==> forall|a: int| !#[trigger]
            is_anchor(f, a, anchor),
        marker::anchor_on(f, anchor, name) is Err ==> exists|a: int| #[trigger]
            is_anchor(f, a, anchor),
{
    first_is_ending(f.attrs, anchor, 0);
    first_is_ending(f.attrs, "initialize"@, 0);
    if let Some(i) = attrs::first_ending(f.attrs, anchor, 0) {
        assert(is_anchor(f, i, anchor));
    }
    if let Some(i) = attrs::first_ending(f.attrs, "initialize"@, 0) {
        assert(is_anchor(f, i, anchor));
    }
}

/// Whether a pair is a fn among `items` and an anchor of it.
pub open spec fn is_anchored_by(
    items: Seq<ItemView>,
    x: (ItemFnView, AttributeView),
    anchor: Seq<char>,
) -> bool {
    (exists|i: int| 0 <= i < items.len() && #[trigger] items[i] == ItemView::Fn(x.0)) && exists|
        a: int,
    | #[trigger]
        is_anchor(x.0, a, anchor) && x.0.attrs[a] == x.1
}

proof fn anchors_are_found(
    items: Seq<ItemView>,
    anchor: Seq<char>,
    name: Seq<char>,
    from: int,
    out: Seq<(ItemFnView, AttributeView)>,
)
    requires
        0 <= from <= items.len(),
        forall|k: int| 0 <= k < out.len() ==> is_anchored_by(items, #[trigger] out[k], anchor),
    ensures
        marker::anchors_from(items, anchor, name, from, out) matches Ok(all) ==> {
            &&& forall|k: int| 0 <= k < all.len() ==> is_anchored_by(items, #[trigger] all[k], anchor)
            &&& all.len() >= out.len()
            &&& (exists|i: int|
                from <= i < items.len() && is_anchored(#[trigger] items[i], anchor)) <==> all.len()
                > out.len()
            &&& (exists|i: int, j: int|
                from <= i < j < items.len() && is_anchored(#[trigger] items[i], anchor)
                    && is_anchored(#[trigger] items[j], anchor)) ==> all.len() > out.len() + 1
        },
        marker::anchors_from(items, anchor, name, from, out) is Err ==> exists|i: int|
            from <= i < items.len() && is_anchored(#[trigger] items[i], anchor),
    decreases items.len() - from,
{
    if from < items.len() {
        if let ItemView::Fn(f) = items[from] {
            anchor_is_found(f, anchor, name);
            match marker::anchor_on(f, anchor, name) {
                Err(_) => {
                    assert(is_anchored(items[from], anchor));
                },
                Ok(Some(x)) => {
                    assert(is_anchored(items[from], anchor));
                    let a = choose|a: int| #[trigger]
                        is_anchor(f, a, anchor) && f.attrs[a] == x;
                    let pair = (f, x);
                    assert(items[from] == ItemView::Fn(pair.0));
                    assert(is_anchor(pair.0, a, anchor) && pair.0.attrs[a] == pair.1);
                    assert(is_anchored_by(items, pair, anchor));
                    anchors_are_found(items, anchor, name, from + 1, out.push((f, x)));
                },
                Ok(None) => {
                    assert(!is_anchored(items[from], anchor));
                    anchors_are_found(items, anchor, name, from + 1, out);
                },
            }
        } else {
            assert(!is_anchored(items[from], anchor));
            anchors_are_found(items, anchor, name, from + 1, out);
        }
    }
}

proof fn created_are_flagged(params: Seq<(Seq<char>, ParamView)>, name: Seq<char>)
    ensures
        marker::created(params).contains(name) <==> exists|k: int|
            0 <= k < params.len() && (#[trigger] params[k]).0 == name && role_laws::is_flagged(
                params[k].1,
                "init"@,
            ),
    decreases params.len(),
{
    if params.len() > 0 {
        let init = params.drop_last();
        let n = params.len() - 1;
        let before = marker::created(init);
        let all = marker::created(params);
        created_are_flagged(init, name);
        role_laws::flags_are_read(params[n].1, "init"@);
        if before.contains(name) {
            let k = choose|k: int| 0 <= k < before.len() && before[k] == name;
            assert(all[k] == name);
            let i = choose|i: int|
                0 <= i < init.len() && (#[trigger] init[i]).0 == name && role_laws::is_flagged(
                    init[i].1,
                    "init"@,
                );
            assert(params[i] == init[i]);
        }
        if params[n].0 == name && role_laws::is_flagged(params[n].1, "init"@) {
            assert(all[before.len() as int] == name);
        }
        if all.contains(name) && !before.contains(name) {
            let k = choose|k: int| 0 <= k < all.len() && all[k] == name;
            if k < before.len() {
                assert(before[k] == name);
            }
            assert(params[n].0 == name);
        }
        if exists|k: int|
            0 <= k < params.len() && (#[trigger] params[k]).0 == name && role_laws::is_flagged(
                params[k].1,
                "init"@,
            ) {
            let k = choose|k: int|
                0 <= k < params.len() && (#[trigger] params[k]).0 == name
                    && role_laws::is_flagged(params[k].1, "init"@);
            if k < n {
                assert(init[k] == params[k]);
            }
        }
    }
}

proof fn created_is_param(f: ItemFnView, name: Seq<char>)
    ensures
        marker::created(attrs::named_params(f.inputs)).contains(name) <==> creates(f, name),
{
    let params = attrs::named_params(f.inputs);
    created_are_flagged(params, name);
    if marker::created(params).contains(name) {
        let k = choose|k: int|
            0 <= k < params.len() && (#[trigger] params[k]).0 == name && role_laws::is_flagged(
                params[k].1,
                "init"@,
            );
        let p = params[k].1;
        role_laws::named_params_are_inputs(f.inputs, name, p);
        assert(params[k] == (name, p));
        let i = choose|i: int|
            0 <= i < f.inputs.len() && #[trigger] f.inputs[i] == FnArgView::Typed(p) && p.name
                == Some(name);
        assert(f.inputs[i] == FnArgView::Typed(p));
    }
    if creates(f, name) {
        let i = choose|i: int|
            0 <= i < f.inputs.len() && (#[trigger] f.inputs[i] matches FnArgView::Typed(p)
                && p.name == Some(name) && role_laws::is_flagged(p, "init"@));
        let p = f.inputs[i]->Typed_0;
        role_laws::named_params_are_inputs(f.inputs, name, p);
        assert(f.inputs[i] == FnArgView::Typed(p));
        let k = choose|k: int|
            0 <= k < params.len() && #[trigger] params[k] == (name, p);
        assert(params[k].0 == name);
    }
}

/// An anchored extension is embedded in an account that its anchored fn creates. It is
/// not embedded where no fn is anchored, and two anchored fns are refused.
pub proof fn anchors_embed_in_an_account_they_create(
    items: Seq<ItemView>,
    anchor: Seq<char>,
    role: Seq<char>,
    name: Seq<char>,
)
    ensures
        marker::inferred_embed(items, anchor, role, name) matches Ok(Some(e)) ==> {
            &&& e.role == role
            &&& e.offset is Derived
            &&& e.initializer == Some(anchor)
            &&& exists|i: int|
                0 <= i < items.len() && is_anchored(#[trigger] items[i], anchor) && creates(
                    items[i]->Fn_0,
                    e.account,
                )
        },
        marker::inferred_embed(items, anchor, role, name) matches Ok(None) <==> forall|i: int|
            0 <= i < items.len() ==> !is_anchored(#[trigger] items[i], anchor),
        (exists|i: int, j: int|
            0 <= i < j < items.len() && is_anchored(#[trigger] items[i], anchor) && is_anchored(
                #[trigger] items[j],
                anchor,
            )) ==> marker::inferred_embed(items, anchor, role, name) is Err,
{
    anchors_are_found(items, anchor, name, 0, Seq::empty());
    if let Ok(all) = marker::anchors_from(items, anchor, name, 0, Seq::empty()) {
        if all.len() == 1 {
            let x = all[0];
            assert(is_anchored_by(items, x, anchor));
            let i = choose|i: int|
                0 <= i < items.len() && #[trigger] items[i] == ItemView::Fn(x.0);
            let a = choose|a: int| #[trigger]
                is_anchor(x.0, a, anchor) && x.0.attrs[a] == x.1;
            assert(items[i]->Fn_0 == x.0);
            assert(is_anchor(x.0, a, anchor));
            assert(is_anchored(items[i], anchor));
            if let Ok(Some(e)) = marker::inferred_embed(items, anchor, role, name) {
                created_is_param(x.0, e.account);
                let inits = marker::created(attrs::named_params(x.0.inputs));
                assert(inits.contains(e.account)) by {
                    if inits.len() == 1 {
                        assert(inits[0] == inits[0]);
                    }
                }
                assert(creates(items[i]->Fn_0, e.account));
            }
        }
    }
}

} // verus!
