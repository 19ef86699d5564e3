//! What an extension declares in its manifest, and what is read of it.
use crate::extension::metadata;
use crate::extension::metadata::{BoundArgView, EmbedAnchorView, EmbeddedMetaView};
use crate::extension::{
    InjectAccountView, InjectSeedView, InjectSpecView, WrapInstructionsView,
};
use crate::path::DirPathView;
use crate::text;
use crate::value;
use crate::value::ValueView;
use vstd::prelude::*;

verus! {

// ── Values ───────────────────────────────────────────────────────────────

/// Whether a value is a table whose first entry under `key` is `v`.
pub open spec fn holds(table: ValueView, key: Seq<char>, v: ValueView) -> bool {
    table matches ValueView::Object(fields) && exists|k: int|
        0 <= k < fields.len() && #[trigger] fields[k] == (key, v) && forall|j: int|
            0 <= j < k ==> (#[trigger] fields[j]).0 != key
}

/// Whether a value has nothing under `key`.
pub open spec fn lacks(table: ValueView, key: Seq<char>) -> bool {
    table matches ValueView::Object(fields) ==> forall|j: int|
        0 <= j < fields.len() ==> (#[trigger] fields[j]).0 != key
}

/// Whether a value is a list of just these strings.
pub open spec fn are_strings(v: ValueView, list: Seq<Seq<char>>) -> bool {
    v matches ValueView::Array(a) && a.len() == list.len() && forall|i: int|
        0 <= i < a.len() ==> #[trigger] a[i] == ValueView::Str(list[i])
}

proof fn field_is_first(fields: Seq<(Seq<char>, ValueView)>, key: Seq<char>, from: int)
    requires
        0 <= from <= fields.len(),
        forall|j: int| 0 <= j < from ==> (#[trigger] fields[j]).0 != key,
    ensures
        match value::field_from(fields, key, from) {
            Some(v) => exists|k: int|
                0 <= k < fields.len() && #[trigger] fields[k] == (key, v) && forall|j: int|
                    0 <= j < k ==> (#[trigger] fields[j]).0 != key,
            None => forall|j: int| 0 <= j < fields.len() ==> (#[trigger] fields[j]).0 != key,
        },
    decreases fields.len() - from,
{
    if from < fields.len() {
        if fields[from].0 == key {
            assert(fields[from] == (key, fields[from].1));
        } else {
            field_is_first(fields, key, from + 1);
        }
    }
}

/// An entry of a table is the first under its key.
pub proof fn entries_are_held(table: ValueView, key: Seq<char>)
    ensures
        table.field(key) matches Some(v) ==> holds(table, key, v),
        table.field(key) is None ==> lacks(table, key),
        forall|v: ValueView| #[trigger] holds(table, key, v) ==> table.field(key) == Some(v),
        lacks(table, key) ==> table.field(key) is None,
{
    if let ValueView::Object(fields) = table {
        field_is_first(fields, key, 0);
        assert forall|v: ValueView| #[trigger] holds(table, key, v) implies table.field(key)
            == Some(v) by {
            let k = choose|k: int|
                0 <= k < fields.len() && #[trigger] fields[k] == (key, v) && forall|j: int|
                    0 <= j < k ==> (#[trigger] fields[j]).0 != key;
            assert(fields[k].0 == key);
            if let Some(w) = table.field(key) {
                let l = choose|l: int|
                    0 <= l < fields.len() && #[trigger] fields[l] == (key, w) && forall|j: int|
                        0 <= j < l ==> (#[trigger] fields[j]).0 != key;
                assert(fields[l].0 == key);
                assert(k == l);
            }
        }
        if lacks(table, key) {
            if let Some(w) = table.field(key) {
                let l = choose|l: int|
                    0 <= l < fields.len() && #[trigger] fields[l] == (key, w) && forall|j: int|
                        0 <= j < l ==> (#[trigger] fields[j]).0 != key;
                assert(fields[l].0 == key);
            }
        }
    }
}

/// Whether a manifest has `v` under `key` of its `package.metadata.spel`.
pub open spec fn declares(manifest: ValueView, key: Seq<char>, v: ValueView) -> bool {
    exists|p: ValueView, m: ValueView, s: ValueView| #[trigger]
        holds(manifest, "package"@, p) && #[trigger] holds(p, "metadata"@, m) && #[trigger] holds(
            m,
            "spel"@,
            s,
        ) && holds(s, key, v)
}

proof fn declared_is_key(manifest: ValueView, key: Seq<char>, v: ValueView)
    ensures
        declares(manifest, key, v) <==> metadata::spel_key(manifest, key) == Some(v),
{
    entries_are_held(manifest, "package"@);
    if let Some(p) = manifest.field("package"@) {
        entries_are_held(p, "metadata"@);
        if let Some(m) = p.field("metadata"@) {
            entries_are_held(m, "spel"@);
            if let Some(s) = m.field("spel"@) {
                entries_are_held(s, key);
                if metadata::spel_key(manifest, key) == Some(v) {
                    assert(holds(manifest, "package"@, p) && holds(p, "metadata"@, m) && holds(
                        m,
                        "spel"@,
                        s,
                    ) && holds(s, key, v));
                }
            }
        }
    }
    if declares(manifest, key, v) {
        let (p, m, s) = choose|p: ValueView, m: ValueView, s: ValueView| #[trigger]
            holds(manifest, "package"@, p) && #[trigger] holds(p, "metadata"@, m) && #[trigger]
                holds(m, "spel"@, s) && holds(s, key, v);
        assert(manifest.field("package"@) == Some(p));
        entries_are_held(p, "metadata"@);
        entries_are_held(m, "spel"@);
        entries_are_held(s, key);
    }
}

proof fn strings_are_read(
    a: Seq<ValueView>,
    from: int,
    out: Seq<Seq<char>>,
    list: Seq<Seq<char>>,
)
    requires
        0 <= from <= a.len(),
        out.len() == from,
    ensures
        metadata::texts_from(a, from, out) == Some(list) <==> (a.len() == list.len() && list.take(
            from,
        ) == out && forall|i: int|
            from <= i < a.len() ==> #[trigger] a[i] == ValueView::Str(list[i])),
    decreases a.len() - from,
{
    if from < a.len() {
        if let Some(s) = a[from].text() {
            strings_are_read(a, from + 1, out.push(s), list);
            if a.len() == list.len() {
                assert(list.take(from + 1) =~= list.take(from).push(list[from]));
                if list.take(from + 1) == out.push(s) {
                    assert(list.take(from + 1).drop_last() =~= list.take(from));
                    assert(out.push(s).drop_last() =~= out);
                    assert(list.take(from + 1).last() == s);
                }
            }
        }
    } else {
        if a.len() == list.len() {
            assert(list.take(from) =~= list);
        }
    }
}

proof fn string_list_is_read(v: ValueView, list: Seq<Seq<char>>)
    ensures
        are_strings(v, list) <==> (v.elements() matches Some(a) && metadata::texts_from(
            a,
            0,
            Seq::empty(),
        ) == Some(list)),
{
    if let ValueView::Array(a) = v {
        strings_are_read(a, 0, Seq::empty(), list);
        assert(list.take(0) =~= Seq::empty());
    }
}

// ── Injected accounts ────────────────────────────────────────────────────

/// Whether a seed is what a table declares: a constant, or else an account.
pub open spec fn is_seed_of(seed: InjectSeedView, v: ValueView) -> bool {
    match seed {
        InjectSeedView::Const(s) => holds(v, "const"@, ValueView::Str(s)),
        InjectSeedView::Account(s) => holds(v, "account"@, ValueView::Str(s)) && forall|
            t: Seq<char>,
        |
            !#[trigger] holds(v, "const"@, ValueView::Str(t)),
    }
}

/// Whether seeds are what an account's table declares: none, a single one or a list.
pub open spec fn are_seeds_of(seeds: Seq<InjectSeedView>, acc: ValueView) -> bool {
    ||| lacks(acc, "seed"@) && seeds.len() == 0
    ||| exists|v: ValueView| #[trigger]
        holds(acc, "seed"@, v) && match v {
            ValueView::Array(a) => a.len() == seeds.len() && forall|i: int|
                0 <= i < a.len() ==> is_seed_of(#[trigger] seeds[i], a[i]),
            _ => seeds.len() == 1 && is_seed_of(seeds[0], v),
        }
}

/// Whether an account is what a table declares.
pub open spec fn is_account_of(a: InjectAccountView, v: ValueView) -> bool {
    &&& holds(v, "name"@, ValueView::Str(a.name))
    &&& a.role == a.name
    &&& !a.embedded
    &&& holds(v, "signer"@, ValueView::Bool(a.signer)) || (lacks(v, "signer"@) && !a.signer)
    &&& are_seeds_of(a.seeds, v)
}

/// Whether a spec is what a table declares.
pub open spec fn is_spec_of(spec: InjectSpecView, v: ValueView) -> bool {
    &&& holds(v, "wrapper"@, ValueView::Str(spec.wrapper))
    &&& spec.source.len() == 0
    &&& spec.embedded_offset is None
    &&& exists|accs: Seq<ValueView>|
        {
            &&& #[trigger] holds(v, "account"@, ValueView::Array(accs))
            &&& accs.len() == spec.accounts.len()
            &&& forall|i: int|
                0 <= i < accs.len() ==> is_account_of(#[trigger] spec.accounts[i], accs[i])
        }
}

proof fn seed_is_read(seed: InjectSeedView, v: ValueView)
    ensures
        metadata::seed_entry(v) == Some(seed) <==> is_seed_of(seed, v),
{
    entries_are_held(v, "const"@);
    entries_are_held(v, "account"@);
    if let Some(s) = v.text_at("const"@) {
        assert(holds(v, "const"@, ValueView::Str(s)));
    }
    if v.text_at("const"@) is None {
        assert forall|t: Seq<char>| !#[trigger] holds(v, "const"@, ValueView::Str(t)) by {
            if holds(v, "const"@, ValueView::Str(t)) {
                assert(v.field("const"@) == Some(ValueView::Str(t)));
            }
        }
    }
}

proof fn seed_list_is_read(
    a: Seq<ValueView>,
    from: int,
    out: Seq<InjectSeedView>,
    seeds: Seq<InjectSeedView>,
)
    requires
        0 <= from <= a.len(),
        out.len() == from,
    ensures
        metadata::seed_entries_from(a, from, out) == Some(seeds) <==> (a.len() == seeds.len()
            && seeds.take(from) == out && forall|i: int|
            from <= i < a.len() ==> is_seed_of(#[trigger] seeds[i], a[i])),
    decreases a.len() - from,
{
    if from < a.len() {
        if a.len() == seeds.len() {
            seed_is_read(seeds[from], a[from]);
        }
        if let Some(s) = metadata::seed_entry(a[from]) {
            seed_is_read(s, a[from]);
            seed_list_is_read(a, from + 1, out.push(s), seeds);
            if a.len() == seeds.len() {
                assert(seeds.take(from + 1) =~= seeds.take(from).push(seeds[from]));
                if seeds.take(from + 1) == out.push(s) {
                    assert(seeds.take(from + 1).drop_last() =~= seeds.take(from));
                    assert(out.push(s).drop_last() =~= out);
                    assert(seeds.take(from + 1).last() == s);
                    assert(seeds[from] == s);
                }
            }
        }
    } else {
        if a.len() == seeds.len() {
            assert(seeds.take(from) =~= seeds);
        }
    }
}

proof fn seeds_are_read(seeds: Seq<InjectSeedView>, acc: ValueView, dir: DirPathView)
    ensures
        metadata::account_seeds(acc, dir) == Ok::<Seq<InjectSeedView>, Seq<char>>(seeds)
            <==> are_seeds_of(seeds, acc),
{
    entries_are_held(acc, "seed"@);
    match acc.field("seed"@) {
        None => {
            if seeds.len() == 0 {
                assert(seeds =~= Seq::empty());
            }
        },
        Some(v) => {
            assert(holds(acc, "seed"@, v));
            assert(!lacks(acc, "seed"@));
            if let ValueView::Array(a) = v {
                seed_list_is_read(a, 0, Seq::empty(), seeds);
                assert(seeds.take(0) =~= Seq::empty());
            } else {
                if seeds.len() == 1 {
                    assert(seeds =~= seq![seeds[0]]);
                    seed_is_read(seeds[0], v);
                }
                if let Some(s) = metadata::seed_entry(v) {
                    seed_is_read(s, v);
                    assert(seq![s][0] == s);
                }
            }
        },
    }
}

/// An account is read as its table declares it, and one that is not declared as an
/// account must be is refused.
pub proof fn accounts_are_read_as_declared(a: InjectAccountView, v: ValueView, dir: DirPathView)
    ensures
        metadata::inject_account(v, dir) == Ok::<InjectAccountView, Seq<char>>(a)
            <==> is_account_of(a, v),
{
    entries_are_held(v, "name"@);
    entries_are_held(v, "signer"@);
    seeds_are_read(a.seeds, v, dir);
    if let Ok(x) = metadata::inject_account(v, dir) {
        seeds_are_read(x.seeds, v, dir);
    }
}

proof fn account_list_is_read(
    arr: Seq<ValueView>,
    dir: DirPathView,
    from: int,
    out: Seq<InjectAccountView>,
    list: Seq<InjectAccountView>,
)
    requires
        0 <= from <= arr.len(),
        out.len() == from,
    ensures
        metadata::inject_accounts_from(arr, dir, from, out) == Ok::<
            Seq<InjectAccountView>,
            Seq<char>,
        >(list) <==> (arr.len() == list.len() && list.take(from) == out && forall|i: int|
            from <= i < arr.len() ==> is_account_of(#[trigger] list[i], arr[i])),
    decreases arr.len() - from,
{
    if from < arr.len() {
        if arr.len() == list.len() {
            accounts_are_read_as_declared(list[from], arr[from], dir);
        }
        if let Ok(a) = metadata::inject_account(arr[from], dir) {
            accounts_are_read_as_declared(a, arr[from], dir);
            account_list_is_read(arr, dir, from + 1, out.push(a), list);
            if arr.len() == list.len() {
                assert(list.take(from + 1) =~= list.take(from).push(list[from]));
                if list.take(from + 1) == out.push(a) {
                    assert(list.take(from + 1).drop_last() =~= list.take(from));
                    assert(out.push(a).drop_last() =~= out);
                    assert(list.take(from + 1).last() == a);
                    assert(list[from] == a);
                }
            }
        }
    } else {
        if arr.len() == list.len() {
            assert(list.take(from) =~= list);
        }
    }
}

proof fn spec_is_read(spec: InjectSpecView, v: ValueView, dir: DirPathView)
    ensures
        metadata::inject_spec(v, dir) == Ok::<InjectSpecView, Seq<char>>(spec) <==> is_spec_of(
            spec,
            v,
        ),
{
    entries_are_held(v, "wrapper"@);
    entries_are_held(v, "account"@);
    if let Some(accs) = v.elements_at("account"@) {
        account_list_is_read(accs, dir, 0, Seq::empty(), spec.accounts);
        assert(spec.accounts.take(0) =~= Seq::empty());
        assert(holds(v, "account"@, ValueView::Array(accs)));
    }
    if spec.source.len() == 0 {
        assert(spec.source =~= Seq::empty());
    }
    if is_spec_of(spec, v) {
        let accs = choose|accs: Seq<ValueView>|
            {
                &&& #[trigger] holds(v, "account"@, ValueView::Array(accs))
                &&& accs.len() == spec.accounts.len()
                &&& forall|i: int|
                    0 <= i < accs.len() ==> is_account_of(#[trigger] spec.accounts[i], accs[i])
            };
        assert(v.field("account"@) == Some(ValueView::Array(accs)));
    }
}

proof fn spec_list_is_read(
    arr: Seq<ValueView>,
    dir: DirPathView,
    from: int,
    out: Seq<InjectSpecView>,
    list: Seq<InjectSpecView>,
)
    requires
        0 <= from <= arr.len(),
        out.len() == from,
    ensures
        metadata::inject_specs_from(arr, dir, from, out) == Ok::<Seq<InjectSpecView>, Seq<char>>(
            list,
        ) <==> (arr.len() == list.len() && list.take(from) == out && forall|i: int|
            from <= i < arr.len() ==> is_spec_of(#[trigger] list[i], arr[i])),
    decreases arr.len() - from,
{
    if from < arr.len() {
        if arr.len() == list.len() {
            spec_is_read(list[from], arr[from], dir);
        }
        if let Ok(a) = metadata::inject_spec(arr[from], dir) {
            spec_is_read(a, arr[from], dir);
            spec_list_is_read(arr, dir, from + 1, out.push(a), list);
            if arr.len() == list.len() {
                assert(list.take(from + 1) =~= list.take(from).push(list[from]));
                if list.take(from + 1) == out.push(a) {
                    assert(list.take(from + 1).drop_last() =~= list.take(from));
                    assert(out.push(a).drop_last() =~= out);
                    assert(list.take(from + 1).last() == a);
                    assert(list[from] == a);
                }
            }
        }
    } else {
        if arr.len() == list.len() {
            assert(list.take(from) =~= list);
        }
    }
}

/// The specs of an extension are read as its manifest declares them, table by table;
/// what is not declared so is refused.
pub proof fn specs_are_read_as_declared(
    manifest: ValueView,
    arr: Seq<ValueView>,
    list: Seq<InjectSpecView>,
    dir: DirPathView,
)
    requires
        declares(manifest, "inject"@, ValueView::Array(arr)),
    ensures
        metadata::inject_specs(manifest, dir) == Ok::<Seq<InjectSpecView>, Seq<char>>(list)
            <==> arr.len() == list.len() && forall|i: int|
            0 <= i < arr.len() ==> is_spec_of(#[trigger] list[i], arr[i]),
{
    declared_is_key(manifest, "inject"@, ValueView::Array(arr));
    spec_list_is_read(arr, dir, 0, Seq::empty(), list);
    assert(list.take(0) =~= Seq::empty());
}

// ── Wraps, bound arguments, embedding ────────────────────────────────────

/// Whether a wrap is what a table declares.
pub open spec fn is_wrap_of(w: WrapInstructionsView, v: ValueView) -> bool {
    &&& holds(v, "wrapper"@, ValueView::Str(w.wrapper))
    &&& holds(v, "self_exempt_marker"@, ValueView::Str(w.self_exempt_marker))
    &&& match w.skip {
        Some(s) => s.len() > 0 && holds(v, "skip"@, ValueView::Str(s)),
        None => lacks(v, "skip"@),
    }
    &&& (lacks(v, "exempt"@) && w.exempt.len() == 0) || exists|x: ValueView| #[trigger]
        holds(v, "exempt"@, x) && are_strings(x, w.exempt)
}

/// The wrap of an extension is read as its manifest declares it, and there is none
/// only where the manifest declares none.
pub proof fn wraps_are_read_as_declared(
    manifest: ValueView,
    v: ValueView,
    w: WrapInstructionsView,
    dir: DirPathView,
)
    requires
        declares(manifest, "wrap_instructions"@, v),
    ensures
        metadata::wrap_instructions(manifest, dir) == Ok::<
            Option<WrapInstructionsView>,
            Seq<char>,
        >(Some(w)) <==> is_wrap_of(w, v),
        !(metadata::wrap_instructions(manifest, dir) matches Ok(None)),
{
    declared_is_key(manifest, "wrap_instructions"@, v);
    entries_are_held(v, "wrapper"@);
    entries_are_held(v, "self_exempt_marker"@);
    entries_are_held(v, "skip"@);
    entries_are_held(v, "exempt"@);
    if let Some(x) = v.field("exempt"@) {
        string_list_is_read(x, w.exempt);
        assert(holds(v, "exempt"@, x));
    } else {
        if w.exempt.len() == 0 {
            assert(w.exempt =~= Seq::empty());
        }
    }
    if exists|x: ValueView| #[trigger] holds(v, "exempt"@, x) && are_strings(x, w.exempt) {
        let x = choose|x: ValueView| #[trigger]
            holds(v, "exempt"@, x) && are_strings(x, w.exempt);
        assert(v.field("exempt"@) == Some(x));
        string_list_is_read(x, w.exempt);
    }
}

/// Whether a bound argument is what a table declares.
pub open spec fn is_bound_of(b: BoundArgView, v: ValueView) -> bool {
    &&& holds(v, "arg"@, ValueView::Str(b.arg))
    &&& holds(v, "from"@, ValueView::Str(b.from))
    &&& is_identifier(b.from) || exists|x: Seq<char>, y: Seq<char>|
        is_identifier(x) && is_identifier(y) && b.from == #[trigger] (x + "::"@ + y)
    &&& match b.default {
        Some(n) => exists|m: int| m == n && #[trigger] is_number_at(v, "default"@, m),
        None => lacks(v, "default"@),
    }
}

/// Whether a table has the number `n` under `key`.
pub open spec fn is_number_at(v: ValueView, key: Seq<char>, n: int) -> bool {
    exists|x: ValueView| #[trigger] holds(v, key, x) && (x matches ValueView::Int(m) && m == n)
}

/// A bound argument is read as its table declares it.
pub proof fn bound_args_are_read_as_declared(b: BoundArgView, v: ValueView, dir: DirPathView)
    ensures
        metadata::bound_arg(v, dir) == Ok::<BoundArgView, Seq<char>>(b) <==> is_bound_of(b, v),
{
    entries_are_held(v, "arg"@);
    entries_are_held(v, "from"@);
    entries_are_held(v, "default"@);
    bounds_name_a_keyword_or_that_of_a_marker(b.from);
    if let Some(x) = v.field("default"@) {
        assert(holds(v, "default"@, x));
        if let ValueView::Int(m) = x {
            assert(is_number_at(v, "default"@, m as int));
        }
    }
    if let Some(n) = b.default {
        if is_bound_of(b, v) {
            let m = choose|m: int| m == n && #[trigger] is_number_at(v, "default"@, m);
            let x = choose|x: ValueView| #[trigger]
                holds(v, "default"@, x) && (x matches ValueView::Int(l) && l == m);
            assert(v.field("default"@) == Some(x));
        }
    }
}

proof fn bound_list_is_read(
    arr: Seq<ValueView>,
    dir: DirPathView,
    from: int,
    out: Seq<BoundArgView>,
    list: Seq<BoundArgView>,
)
    requires
        0 <= from <= arr.len(),
        out.len() == from,
    ensures
        metadata::bound_args_from(arr, dir, from, out) == Ok::<Seq<BoundArgView>, Seq<char>>(list)
            <==> (arr.len() == list.len() && list.take(from) == out && forall|i: int|
            from <= i < arr.len() ==> is_bound_of(#[trigger] list[i], arr[i])),
    decreases arr.len() - from,
{
    if from < arr.len() {
        if arr.len() == list.len() {
            bound_args_are_read_as_declared(list[from], arr[from], dir);
        }
        if let Ok(a) = metadata::bound_arg(arr[from], dir) {
            bound_args_are_read_as_declared(a, arr[from], dir);
            bound_list_is_read(arr, dir, from + 1, out.push(a), list);
            if arr.len() == list.len() {
                assert(list.take(from + 1) =~= list.take(from).push(list[from]));
                if list.take(from + 1) == out.push(a) {
                    assert(list.take(from + 1).drop_last() =~= list.take(from));
                    assert(out.push(a).drop_last() =~= out);
                    assert(list.take(from + 1).last() == a);
                    assert(list[from] == a);
                }
            }
        }
    } else {
        if arr.len() == list.len() {
            assert(list.take(from) =~= list);
        }
    }
}

/// The bound arguments of an extension are those its manifest declares, in their order.
pub proof fn bound_lists_are_read_as_declared(
    manifest: ValueView,
    arr: Seq<ValueView>,
    list: Seq<BoundArgView>,
    dir: DirPathView,
)
    requires
        declares(manifest, "bound_args"@, ValueView::Array(arr)),
    ensures
        metadata::bound_args(manifest, dir) == Ok::<Seq<BoundArgView>, Seq<char>>(list)
            <==> arr.len() == list.len() && forall|i: int|
            0 <= i < arr.len() ==> is_bound_of(#[trigger] list[i], arr[i]),
{
    declared_is_key(manifest, "bound_args"@, ValueView::Array(arr));
    bound_list_is_read(arr, dir, 0, Seq::empty(), list);
    assert(list.take(0) =~= Seq::empty());
}

/// Whether a text is an identifier.
pub open spec fn is_identifier(s: Seq<char>) -> bool {
    s.len() > 0 && !('0' <= s[0] <= '9') && forall|i: int|
        0 <= i < s.len() ==> ('a' <= #[trigger] s[i] <= 'z' || 'A' <= s[i] <= 'Z' || '0' <= s[i]
            <= '9' || s[i] == '_')
}

/// The first `::` of a text from `from` on is the first there is.
pub proof fn colons_are_found(s: Seq<char>, from: int)
    requires
        0 <= from <= s.len(),
    ensures
        from <= text::find_colons(s, from) <= s.len(),
        forall|i: int| from <= i < text::find_colons(s, from) ==> !#[trigger] text::colons_at(s, i),
        text::find_colons(s, from) < s.len() ==> text::colons_at(s, text::find_colons(s, from)),
    decreases s.len() - from,
{
    if from < s.len() && !text::colons_at(s, from) {
        colons_are_found(s, from + 1);
    }
}

proof fn identifiers_are_one_piece(s: Seq<char>)
    requires
        is_identifier(s),
    ensures
        text::split_first(s) is None,
        text::pieces(s) == seq![s],
{
    colons_are_found(s, 0);
    let k = text::find_colons(s, 0);
    if k < s.len() {
        assert(s[k] == ':');
    }
}

/// A bound argument is bound to a keyword, or to one of another marker: what it is bound
/// from is an identifier, or two with `::` between them.
pub proof fn bounds_name_a_keyword_or_that_of_a_marker(from: Seq<char>)
    ensures
        metadata::from_shape(from) is Ok <==> is_identifier(from) || exists|
            a: Seq<char>,
            b: Seq<char>,
        |
            is_identifier(a) && is_identifier(b) && from == #[trigger] (a + "::"@ + b),
{
    reveal_with_fuel(metadata::segment_error, 3);
    reveal_strlit("::");
    if is_identifier(from) {
        identifiers_are_one_piece(from);
        assert(text::pieces(from)[0] == from);
        assert(metadata::from_shape(from) is Ok);
    }
    if exists|a: Seq<char>, b: Seq<char>|
        is_identifier(a) && is_identifier(b) && from == #[trigger] (a + "::"@ + b) {
        let (a, b) = choose|a: Seq<char>, b: Seq<char>|
            is_identifier(a) && is_identifier(b) && from == #[trigger] (a + "::"@ + b);
        let n = a.len() as int;
        colons_are_found(from, 0);
        let k = text::find_colons(from, 0);
        assert(from[n] == ':' && from[n + 1] == ':');
        assert(text::colons_at(from, n));
        if k < n {
            assert(from[k] == a[k]);
            assert(a[k] != ':');
        }
        assert(from.take(n) =~= a);
        assert(from.skip(n + 2) =~= b);
        identifiers_are_one_piece(b);
        let both = text::pieces(from);
        assert(both =~= seq![a, b]);
        assert(both[0] == a && both[1] == b);
        assert(metadata::from_shape(from) is Ok);
    }
    if metadata::from_shape(from) is Ok {
        let all = text::pieces(from);
        colons_are_found(from, 0);
        let k = text::find_colons(from, 0);
        if k < from.len() {
            let a = from.take(k);
            let b = from.skip(k + 2);
            let rest = text::pieces(b);
            assert(all == seq![a] + rest);
            assert(rest.len() == 1) by {
                assert(rest.len() >= 1);
            }
            assert(text::split_first(b) is None) by {
                if let Some((c, d)) = text::split_first(b) {
                    assert(rest == seq![c] + text::pieces(d));
                    assert(text::pieces(d).len() >= 1);
                }
            }
            assert(rest == seq![b]);
            assert(all[0] == a && all[1] == b);
            assert(from =~= a + "::"@ + b);
            assert(is_identifier(a) && is_identifier(b));
        } else {
            assert(all[0] == from);
            assert(is_identifier(from));
        }
    }
}

/// Whether an optional text is what a table declares under `key`.
pub open spec fn is_text_at(t: Option<Seq<char>>, v: ValueView, key: Seq<char>) -> bool {
    match t {
        Some(s) => holds(v, key, ValueView::Str(s)),
        None => lacks(v, key),
    }
}

/// Whether the embedding of an extension is what a table declares: an anchor names an
/// attribute and a role, and comes with a state type.
pub open spec fn is_embedding_of(e: EmbeddedMetaView, v: ValueView) -> bool {
    &&& (lacks(v, "skip"@) && e.skip.len() == 0) || exists|x: ValueView| #[trigger]
        holds(v, "skip"@, x) && are_strings(x, e.skip)
    &&& is_text_at(e.state_type, v, "state_type"@)
    &&& match e.anchor {
        Some(EmbedAnchorView { attr, role }) => e.state_type is Some && holds(
            v,
            "anchor_attr"@,
            ValueView::Str(attr),
        ) && holds(v, "anchor_role"@, ValueView::Str(role)),
        None => lacks(v, "anchor_attr"@) && lacks(v, "anchor_role"@),
    }
}

/// The embedding of an extension is read as its manifest declares it.
pub proof fn embeddings_are_read_as_declared(
    manifest: ValueView,
    v: ValueView,
    e: EmbeddedMetaView,
    dir: DirPathView,
)
    requires
        declares(manifest, "embedded"@, v),
    ensures
        metadata::embedded_meta(manifest, dir) == Ok::<EmbeddedMetaView, Seq<char>>(e)
            <==> is_embedding_of(e, v),
{
    declared_is_key(manifest, "embedded"@, v);
    entries_are_held(v, "skip"@);
    entries_are_held(v, "state_type"@);
    entries_are_held(v, "anchor_attr"@);
    entries_are_held(v, "anchor_role"@);
    if let Some(x) = v.field("skip"@) {
        string_list_is_read(x, e.skip);
        assert(holds(v, "skip"@, x));
    } else {
        if e.skip.len() == 0 {
            assert(e.skip =~= Seq::empty());
        }
    }
    if exists|x: ValueView| #[trigger] holds(v, "skip"@, x) && are_strings(x, e.skip) {
        let x = choose|x: ValueView| #[trigger] holds(v, "skip"@, x) && are_strings(x, e.skip);
        assert(v.field("skip"@) == Some(x));
        string_list_is_read(x, e.skip);
    }
}

/// A marker is the string that the manifest declares, and a manifest that declares
/// none of a section contributes none of it.
pub proof fn undeclared_sections_are_empty(manifest: ValueView, s: Seq<char>, dir: DirPathView)
    ensures
        metadata::extension_attr(manifest, dir) == Ok::<Option<Seq<char>>, Seq<char>>(Some(s))
            <==> declares(manifest, "extension_attr"@, ValueView::Str(s)),
        (forall|v: ValueView| !#[trigger] declares(manifest, "extension_attr"@, v))
            <==> metadata::extension_attr(manifest, dir) matches Ok(None),
        (forall|v: ValueView| !#[trigger] declares(manifest, "inject"@, v))
            ==> metadata::inject_specs(manifest, dir) == Ok::<Seq<InjectSpecView>, Seq<char>>(
            Seq::empty(),
        ),
        (forall|v: ValueView| !#[trigger] declares(manifest, "bound_args"@, v))
            ==> metadata::bound_args(manifest, dir) == Ok::<Seq<BoundArgView>, Seq<char>>(
            Seq::empty(),
        ),
        (forall|v: ValueView| !#[trigger] declares(manifest, "wrap_instructions"@, v))
            ==> metadata::wrap_instructions(manifest, dir) matches Ok(None),
        (forall|v: ValueView| !#[trigger] declares(manifest, "embedded"@, v))
            ==> metadata::embedded_meta(manifest, dir) == Ok::<EmbeddedMetaView, Seq<char>>(
            (EmbeddedMetaView { skip: Seq::empty(), state_type: None, anchor: None }),
        ),
{
    assert forall|key: Seq<char>, v: ValueView| #[trigger] declares(manifest, key, v) == (
    metadata::spel_key(manifest, key) == Some(v)) by {
        declared_is_key(manifest, key, v);
    }
    if let Some(v) = metadata::spel_key(manifest, "extension_attr"@) {
        assert(declares(manifest, "extension_attr"@, v));
    }
    if let Some(v) = metadata::spel_key(manifest, "inject"@) {
        assert(declares(manifest, "inject"@, v));
    }
    if let Some(v) = metadata::spel_key(manifest, "bound_args"@) {
        assert(declares(manifest, "bound_args"@, v));
    }
    if let Some(v) = metadata::spel_key(manifest, "wrap_instructions"@) {
        assert(declares(manifest, "wrap_instructions"@, v));
    }
    if let Some(v) = metadata::spel_key(manifest, "embedded"@) {
        assert(declares(manifest, "embedded"@, v));
    }
}

} // verus!
