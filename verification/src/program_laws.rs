//! What the IDL says of a program: its instructions, one by one.
use crate::account_laws;
use crate::account_types;
use crate::attrs;
use crate::closure_laws;
use crate::extension;
use crate::extension::discovery;
use crate::extension::{CarriersView, PreparedInstructionView, PreparedProgramView, ProgramDepsView};
use crate::hash_laws;
use crate::idl::{IdlInstructionView, SpelIdlView};
use crate::idl_gen;
use crate::idl_gen::{IdlDraft, IdlGenErrorView, InstructionInfoView};
use crate::sha256;
use crate::syntax::{
    AttrFormView, AttributeView, EntryView, FnArgView, ItemFnView, ItemModView, ItemView,
};
use crate::text;
use vstd::prelude::*;

verus! {

/// Whether one of the attributes is just `name`.
pub open spec fn carries(list: Seq<AttributeView>, name: Seq<char>) -> bool {
    exists|a: int| 0 <= a < list.len() && account_laws::just((#[trigger] list[a]).path, name)
}

/// Whether an item is an instruction fn.
pub open spec fn is_instruction(item: ItemView) -> bool {
    item matches ItemView::Fn(f) && carries(f.attrs, "instruction"@)
}

/// How many of the first `n` items are instruction fns.
#[verifier::opaque]
pub open spec fn instructions_before(items: Seq<ItemView>, n: int) -> nat
    decreases n,
{
    if n <= 0 {
        0
    } else {
        instructions_before(items, n - 1) + if is_instruction(items[n - 1]) {
            1nat
        } else {
            0nat
        }
    }
}

/// Whether an instruction of the IDL is that of the fn `f`: under its name, with
/// the accounts its parameters declare and its data parameters in order.
pub open spec fn is_instruction_of(ix: IdlInstructionView, f: ItemFnView) -> bool {
    &&& ix.name == f.name
    &&& account_laws::are_the_accounts(ix.accounts, f.inputs)
    &&& ix.args.len() == account_laws::data_before(f.inputs, f.inputs.len() as int)
    &&& forall|j: int|
        0 <= j < f.inputs.len() && (#[trigger] f.inputs[j] matches FnArgView::Typed(p)
            && closure_laws::is_data(p.ty)) ==> {
            let arg = ix.args[account_laws::data_before(f.inputs, j) as int];
            &&& f.inputs[j]->Typed_0.name matches Some(name) && account_laws::is_trimmed(
                arg.name,
                name,
            )
            &&& arg.type_ == account_types::idl_type(f.inputs[j]->Typed_0.ty)
        }
}

/// An attribute is carried where one is named so.
pub proof fn carried_attrs_are_named(list: Seq<AttributeView>, name: Seq<char>)
    ensures
        attrs::named(list, name) == carries(list, name),
{
    carries_named(list, name);
}

proof fn carries_named(list: Seq<AttributeView>, name: Seq<char>)
    ensures
        attrs::named(list, name) == carries(list, name),
{
    if attrs::named(list, name) {
        let a = choose|a: int| 0 <= a < list.len() && (#[trigger] list[a]).path.is(name);
        assert(list[a].path.segments =~= seq![name]);
        assert(account_laws::just(list[a].path, name));
    }
    if carries(list, name) {
        let a = choose|a: int|
            0 <= a < list.len() && account_laws::just((#[trigger] list[a]).path, name);
        assert(list[a].path.is(name));
    }
}

proof fn count_step(items: Seq<ItemView>, n: int)
    requires
        0 <= n < items.len(),
    ensures
        instructions_before(items, 0) == 0,
        instructions_before(items, n + 1) == instructions_before(items, n) + if is_instruction(
            items[n],
        ) {
            1nat
        } else {
            0nat
        },
{
    reveal_with_fuel(instructions_before, 2);
}

proof fn count_taken(items: Seq<ItemView>, m: int, n: int)
    requires
        0 <= n <= m <= items.len(),
    ensures
        instructions_before(items.take(m), n) == instructions_before(items, n),
    decreases n,
{
    reveal(instructions_before);
    if n > 0 {
        count_taken(items, m, n - 1);
    }
}

/// The instruction fns of a list are counted, each at its place.
proof fn fns_are_counted(items: Seq<ItemView>)
    ensures
        discovery::instruction_fns(items).len() == instructions_before(items, items.len() as int),
        forall|x: int|
            0 <= x < items.len() && is_instruction(#[trigger] items[x]) ==> instructions_before(
                items,
                x,
            ) < discovery::instruction_fns(items).len() && discovery::instruction_fns(
                items,
            )[instructions_before(items, x) as int] == items[x]->Fn_0,
    decreases items.len(),
{
    let all = discovery::instruction_fns(items);
    if items.len() == 0 {
        reveal(instructions_before);
    } else {
        let n = items.len() - 1;
        let init = items.drop_last();
        let before = discovery::instruction_fns(init);
        fns_are_counted(init);
        assert(init =~= items.take(n));
        count_taken(items, n, n);
        count_step(items, n);
        if let ItemView::Fn(f) = items.last() {
            carries_named(f.attrs, "instruction"@);
        }
        assert forall|x: int| 0 <= x < items.len() && is_instruction(
            #[trigger] items[x],
        ) implies instructions_before(items, x) < all.len() && all[instructions_before(
            items,
            x,
        ) as int] == items[x]->Fn_0 by {
            if x < n {
                assert(init[x] == items[x]);
                count_taken(items, n, x);
            }
        }
    }
}

proof fn fn_is_described(func: ItemFnView, info: InstructionInfoView)
    requires
        idl_gen::instruction_of(func) == Ok::<InstructionInfoView, Seq<char>>(info),
    ensures
        is_instruction_of(idl_gen::idl_instruction(info), func),
{
    account_laws::instruction_accounts_are_its_account_params(func);
    account_laws::instruction_args_are_its_data_params(func);
}

proof fn fns_are_read(fns: Seq<ItemFnView>, from: int, out: Seq<InstructionInfoView>)
    requires
        0 <= from <= fns.len(),
        out.len() == from,
        forall|i: int|
            0 <= i < from ==> idl_gen::instruction_of(#[trigger] fns[i]) == Ok::<
                InstructionInfoView,
                Seq<char>,
            >(out[i]),
    ensures
        idl_gen::instructions_from(fns, from, out) matches Ok(all) ==> all.len() == fns.len()
            && forall|i: int|
            0 <= i < fns.len() ==> idl_gen::instruction_of(#[trigger] fns[i]) == Ok::<
                InstructionInfoView,
                Seq<char>,
            >(all[i]),
    decreases fns.len() - from,
{
    if from < fns.len() {
        if let Ok(info) = idl_gen::instruction_of(fns[from]) {
            fns_are_read(fns, from + 1, out.push(info));
        }
    }
}

/// Whether the item at `at` is the program: the first module that carries
/// `#[lez_program]`.
pub open spec fn is_program(items: Seq<ItemView>, at: int, m: ItemModView) -> bool {
    &&& 0 <= at < items.len()
    &&& items[at] == ItemView::Mod(m)
    &&& carries(m.attrs, "lez_program"@)
    &&& forall|j: int|
        0 <= j < at ==> !(#[trigger] items[j] matches ItemView::Mod(o) && carries(
            o.attrs,
            "lez_program"@,
        ))
}

proof fn program_is_found(items: Seq<ItemView>, at: int, m: ItemModView, from: int)
    requires
        is_program(items, at, m),
        0 <= from <= at,
    ensures
        idl_gen::program_from(items, from) == Some(m),
    decreases at - from,
{
    if let ItemView::Mod(o) = items[from] {
        carries_named(o.attrs, "lez_program"@);
    }
    if from < at {
        assert(!(items[from] matches ItemView::Mod(o) && carries(o.attrs, "lez_program"@)));
        program_is_found(items, at, m, from + 1);
    }
}

proof fn no_program_is_found(items: Seq<ItemView>, from: int)
    requires
        0 <= from,
    ensures
        idl_gen::program_from(items, from) matches Some(m) ==> exists|j: int|
            from <= j < items.len() && #[trigger] items[j] == ItemView::Mod(m) && carries(
                m.attrs,
                "lez_program"@,
            ),
    decreases items.len() - from,
{
    if from < items.len() {
        if let ItemView::Mod(o) = items[from] {
            carries_named(o.attrs, "lez_program"@);
        }
        no_program_is_found(items, from + 1);
    }
}

/// The IDL of a source without extensions is that of its program: under the
/// module's name, with one instruction for each of its instruction fns, in source
/// order, and each as the fn declares it.
pub proof fn idl_is_that_of_the_program(
    items: Seq<ItemView>,
    label: Seq<char>,
    at: int,
    m: ItemModView,
    d: IdlDraft,
)
    requires
        is_program(items, at, m),
        idl_gen::items_draft(items, label) == Ok::<IdlDraft, IdlGenErrorView>(d),
    ensures
        d.idl.name == m.name,
        m.content matches Some(inner) && {
            &&& d.items == items + inner
            &&& d.idl.instructions.len() == instructions_before(inner, inner.len() as int)
            &&& forall|x: int|
                0 <= x < inner.len() && is_instruction(#[trigger] inner[x]) ==> is_instruction_of(
                    d.idl.instructions[instructions_before(inner, x) as int],
                    inner[x]->Fn_0,
                )
        },
{
    program_is_found(items, at, m, 0);
    let inner = m.content->Some_0;
    let fns = discovery::instruction_fns(inner);
    fns_are_counted(inner);
    fns_are_read(fns, 0, Seq::empty());
    let infos = idl_gen::own_instructions(inner, label)->Ok_0;
    assert(d.items =~= items + inner);
    assert forall|x: int| 0 <= x < inner.len() && is_instruction(
        #[trigger] inner[x],
    ) implies is_instruction_of(
        d.idl.instructions[instructions_before(inner, x) as int],
        inner[x]->Fn_0,
    ) by {
        let k = instructions_before(inner, x) as int;
        assert(idl_gen::instruction_of(fns[k]) == Ok::<InstructionInfoView, Seq<char>>(infos[k]));
        fn_is_described(fns[k], infos[k]);
        assert(d.idl.instructions[k] == idl_gen::idl_instruction(infos[k]));
    }
}

/// A source without a program, or whose program has no body or no instruction fn,
/// has no IDL.
pub proof fn no_idl_without_instructions(items: Seq<ItemView>, label: Seq<char>)
    ensures
        idl_gen::items_draft(items, label) is Ok ==> exists|at: int, m: ItemModView|
            #![trigger is_program(items, at, m)]
            is_program(items, at, m) && (m.content matches Some(inner) && instructions_before(
                inner,
                inner.len() as int,
            ) > 0),
{
    if idl_gen::items_draft(items, label) is Ok {
        no_program_is_found(items, 0);
        let m = idl_gen::program_from(items, 0)->Some_0;
        let inner = m.content->Some_0;
        fns_are_counted(inner);
        fns_are_read(discovery::instruction_fns(inner), 0, Seq::empty());
        let at = first_program(items, 0);
        program_is_found(items, at.0, at.1, 0);
    }
}

proof fn first_program(items: Seq<ItemView>, from: int) -> (r: (int, ItemModView))
    requires
        0 <= from <= items.len(),
        idl_gen::program_from(items, from) is Some,
        forall|j: int|
            0 <= j < from ==> !(#[trigger] items[j] matches ItemView::Mod(o) && carries(
                o.attrs,
                "lez_program"@,
            )),
    ensures
        is_program(items, r.0, r.1),
    decreases items.len() - from,
{
    if let ItemView::Mod(o) = items[from] {
        carries_named(o.attrs, "lez_program"@);
        if carries(o.attrs, "lez_program"@) {
            (from, o)
        } else {
            first_program(items, from + 1)
        }
    } else {
        first_program(items, from + 1)
    }
}

// ── With extensions ──────────────────────────────────────────────────────

proof fn own_are_gated(
    p: PreparedProgramView,
    fns: Seq<ItemFnView>,
    from: int,
    out: Seq<InstructionInfoView>,
)
    requires
        0 <= from <= fns.len(),
        out.len() == from,
        forall|i: int| 0 <= i < from ==> is_gated_info(p, #[trigger] fns[i], None, out[i]),
    ensures
        idl_gen::gated_from(p, fns, from, out) matches Ok(all) ==> all.len() == fns.len()
            && forall|i: int|
            0 <= i < fns.len() ==> is_gated_info(p, #[trigger] fns[i], None, all[i]),
    decreases fns.len() - from,
{
    if from < fns.len() {
        if let Ok((f, _)) = p.gated(fns[from], None) {
            if let Ok(info) = idl_gen::instruction_of(f) {
                own_are_gated(p, fns, from + 1, out.push(info));
            }
        }
    }
}

/// Whether `info` is read from what gating makes of a fn.
spec fn is_gated_info(
    p: PreparedProgramView,
    func: ItemFnView,
    qualified: Option<Seq<char>>,
    info: InstructionInfoView,
) -> bool {
    p.gated(func, qualified) matches Ok((f, _)) && (idl_gen::instruction_of(f) matches Ok(own)
        && info == (InstructionInfoView { external_call_path: info.external_call_path, ..own }))
}

proof fn contributed_are_gated(
    p: PreparedProgramView,
    list: Seq<PreparedInstructionView>,
    from: int,
    own: Seq<InstructionInfoView>,
    out: Seq<InstructionInfoView>,
)
    requires
        0 <= from <= list.len(),
        out.len() == own.len() + from,
        forall|i: int| 0 <= i < own.len() ==> #[trigger] out[i] == own[i],
        forall|i: int|
            0 <= i < from ==> is_gated_info(
                p,
                (#[trigger] list[i]).func,
                Some(list[i].qualified),
                out[own.len() + i],
            ),
    ensures
        idl_gen::external_from(p, list, from, out) matches Ok(all) ==> {
            &&& all.len() == own.len() + list.len()
            &&& forall|i: int| 0 <= i < own.len() ==> #[trigger] all[i] == own[i]
            &&& forall|i: int|
                0 <= i < list.len() ==> is_gated_info(
                    p,
                    (#[trigger] list[i]).func,
                    Some(list[i].qualified),
                    all[own.len() + i],
                )
        },
    decreases list.len() - from,
{
    if from < list.len() {
        if let Ok((f, _)) = p.gated(list[from].func, Some(list[from].qualified)) {
            if let Ok(info) = idl_gen::instruction_of(f) {
                let one = InstructionInfoView {
                    external_call_path: Some(
                        idl_gen::call_path(list[from].crate_path, info.fn_name),
                    ),
                    ..info
                };
                contributed_are_gated(p, list, from + 1, own, out.push(one));
            }
        }
    }
}

/// Whether an instruction of the IDL is that of a fn as gating leaves it.
pub open spec fn is_gated_instruction(
    ix: IdlInstructionView,
    p: PreparedProgramView,
    func: ItemFnView,
    qualified: Option<Seq<char>>,
) -> bool {
    exists|f: ItemFnView, names: Seq<Seq<char>>|
        #![trigger is_instruction_of(ix, f), names.len()]
        p.gated(func, qualified) == Ok::<(ItemFnView, Seq<Seq<char>>), Seq<char>>((f, names))
            && is_instruction_of(ix, f)
}

proof fn gated_is_described(
    p: PreparedProgramView,
    func: ItemFnView,
    qualified: Option<Seq<char>>,
    info: InstructionInfoView,
)
    requires
        is_gated_info(p, func, qualified, info),
    ensures
        is_gated_instruction(idl_gen::idl_instruction(info), p, func, qualified),
{
    let (f, names) = p.gated(func, qualified)->Ok_0;
    let own = idl_gen::instruction_of(f)->Ok_0;
    fn_is_described(f, own);
    assert(idl_gen::idl_instruction(info) == idl_gen::idl_instruction(own));
    assert(is_instruction_of(idl_gen::idl_instruction(info), f));
    assert(names.len() >= 0);
}

/// The instructions of a program with extensions are its own instruction fns, in
/// source order, and then those the extensions contribute, in theirs; each is
/// described as gating leaves it.
pub proof fn instructions_are_described_as_gated(
    deps: ProgramDepsView,
    inner: Seq<ItemView>,
    p: PreparedProgramView,
    infos: Seq<InstructionInfoView>,
)
    requires
        extension::prepared(deps, inner, CarriersView::Skip) == Ok::<
            PreparedProgramView,
            Seq<char>,
        >(p),
        idl_gen::all_instructions(deps, inner) == Ok::<Seq<InstructionInfoView>, IdlGenErrorView>(
            infos,
        ),
    ensures
        infos.len() == instructions_before(inner, inner.len() as int) + p.instructions.len(),
        forall|x: int|
            0 <= x < inner.len() && is_instruction(#[trigger] inner[x]) ==> is_gated_instruction(
                idl_gen::idl_instruction(infos[instructions_before(inner, x) as int]),
                p,
                inner[x]->Fn_0,
                None,
            ),
        forall|i: int|
            0 <= i < p.instructions.len() ==> is_gated_instruction(
                idl_gen::idl_instruction(
                    infos[instructions_before(inner, inner.len() as int) + i],
                ),
                p,
                (#[trigger] p.instructions[i]).func,
                Some(p.instructions[i].qualified),
            ),
{
    let fns = discovery::instruction_fns(inner);
    fns_are_counted(inner);
    own_are_gated(p, fns, 0, Seq::empty());
    let own = idl_gen::gated_from(p, fns, 0, Seq::empty())->Ok_0;
    contributed_are_gated(p, p.instructions, 0, own, own);
    assert forall|x: int| 0 <= x < inner.len() && is_instruction(
        #[trigger] inner[x],
    ) implies is_gated_instruction(
        idl_gen::idl_instruction(infos[instructions_before(inner, x) as int]),
        p,
        inner[x]->Fn_0,
        None,
    ) by {
        let k = instructions_before(inner, x) as int;
        assert(is_gated_info(p, fns[k], None, own[k]));
        assert(infos[k] == own[k]);
        gated_is_described(p, fns[k], None, infos[k]);
    }
    assert forall|i: int| 0 <= i < p.instructions.len() implies is_gated_instruction(
        idl_gen::idl_instruction(infos[instructions_before(inner, inner.len() as int) + i]),
        p,
        (#[trigger] p.instructions[i]).func,
        Some(p.instructions[i].qualified),
    ) by {
        gated_is_described(
            p,
            p.instructions[i].func,
            Some(p.instructions[i].qualified),
            infos[own.len() + i],
        );
    }
}

/// The types of the arguments are described: what an argument of an instruction
/// refers to is among the accounts or the types, if the source describes it.
pub proof fn argument_types_are_described(
    items: Seq<ItemView>,
    label: Seq<char>,
    at: int,
    m: ItemModView,
    d: IdlDraft,
    idl: SpelIdlView,
    k: int,
    a: int,
    name: Seq<char>,
    steps: nat,
)
    requires
        is_program(items, at, m),
        idl_gen::items_draft(items, label) == Ok::<IdlDraft, IdlGenErrorView>(d),
        idl_gen::completes(idl, d),
        0 <= k < idl.instructions.len(),
        0 <= a < idl.instructions[k].args.len(),
        closure_laws::type_mentions(idl.instructions[k].args[a].type_, name),
        closure_laws::describes(d.items, name, steps),
    ensures
        closure_laws::is_described(idl.accounts, idl.types, name),
{
    idl_is_that_of_the_program(items, label, at, m, d);
    let inner = m.content->Some_0;
    let x = instruction_at(inner, inner.len() as int, k);
    let f = inner[x]->Fn_0;
    let ix = idl.instructions[k];
    assert(is_instruction_of(ix, f));
    let j = account_laws::data_at(f.inputs, f.inputs.len() as int, a);
    assert(f.inputs[j] matches FnArgView::Typed(p) && closure_laws::is_data(p.ty));
    assert(ix.args[a].type_ == account_types::idl_type(f.inputs[j]->Typed_0.ty));
    assert(d.items[items.len() + x] == inner[x]);
    assert(closure_laws::argument_mentions(d.items[items.len() + x], name));
    closure_laws::what_is_referred_to_is_described(d.items, idl.accounts, idl.types, name, steps);
}

/// The place of the `k`-th instruction fn.
proof fn instruction_at(items: Seq<ItemView>, n: int, k: int) -> (x: int)
    requires
        0 <= n <= items.len(),
        0 <= k < instructions_before(items, n),
    ensures
        0 <= x < n,
        is_instruction(items[x]),
        instructions_before(items, x) == k,
    decreases n,
{
    reveal(instructions_before);
    if is_instruction(items[n - 1]) && instructions_before(items, n - 1) == k {
        n - 1
    } else {
        instruction_at(items, n - 1, k)
    }
}

// ── What an instruction goes by ──────────────────────────────────────────

/// An instruction goes by its name: its variant is that name in pascal case, its
/// discriminator the first eight bytes of the hash of `global:` and that name.
pub proof fn instructions_go_by_their_names(ix: InstructionInfoView)
    ensures
        idl_gen::idl_instruction(ix).name == ix.fn_name,
        idl_gen::idl_instruction(ix).variant == Some(text::pascal(ix.fn_name)),
        idl_gen::idl_instruction(ix).discriminator matches Some(d) && d.len() == 8 && forall|i: int|
            0 <= i < 8 ==> #[trigger] d[i] == sha256::hash(
                vstd::utf8::encode_utf8("global:"@ + ix.fn_name),
            )[i],
        idl_gen::idl_instruction(ix).execution matches Some(e) && e.public && !e.private_owned,
{
    hash_laws::hashes_have_one_length(vstd::utf8::encode_utf8("global:"@ + ix.fn_name));
}

/// Whether entry `e` of a list is `instruction = "name"`, and a reader comes to it.
pub open spec fn names_instruction_type(entries: Seq<EntryView>, e: int, name: Seq<char>) -> bool {
    &&& 0 <= e < entries.len()
    &&& account_laws::just(entries[e].path, "instruction"@)
    &&& entries[e].assigned
    &&& entries[e].lead == Some(name)
    &&& entries[e].value matches Some(v) && v.kind is Str
    &&& forall|j: int|
        0 <= j < entries.len() && j != e ==> !account_laws::just(
            (#[trigger] entries[j]).path,
            "instruction"@,
        )
    &&& forall|j: int|
        0 <= j < e ==> ((#[trigger] entries[j]).assigned ==> entries[j].value is Some)
}

proof fn type_stays(entries: Seq<EntryView>, from: int, found: Option<Seq<char>>)
    requires
        0 <= from <= entries.len(),
        forall|j: int|
            from <= j < entries.len() ==> !account_laws::just(
                (#[trigger] entries[j]).path,
                "instruction"@,
            ),
    ensures
        idl_gen::instruction_text(entries, from, found) == found,
    decreases entries.len() - from,
{
    if from < entries.len() {
        account_laws::paths_are_just(entries[from].path, "instruction"@);
        type_stays(entries, from + 1, found);
    }
}

proof fn type_is_found(entries: Seq<EntryView>, from: int, e: int, name: Seq<char>)
    requires
        0 <= from <= e,
        names_instruction_type(entries, e, name),
    ensures
        idl_gen::instruction_text(entries, from, None) == Some(name),
    decreases e - from,
{
    account_laws::paths_are_just(entries[from].path, "instruction"@);
    if from < e {
        type_is_found(entries, from + 1, e, name);
    } else {
        type_stays(entries, from + 1, Some(name));
    }
}

proof fn program_attr_is_first(list: Seq<AttributeView>, i: int, from: int)
    requires
        0 <= from <= i < list.len(),
        account_laws::just(list[i].path, "lez_program"@),
        forall|j: int|
            0 <= j < i ==> !account_laws::just((#[trigger] list[j]).path, "lez_program"@),
    ensures
        attrs::first_named(list, "lez_program"@, from) == Some(i),
    decreases i - from,
{
    account_laws::paths_are_just(list[from].path, "lez_program"@);
    if from < i {
        program_attr_is_first(list, i, from + 1);
    }
}

/// The instruction type of a program is the one its attribute names, and there is none
/// where it names none.
pub proof fn instruction_types_are_named_on_the_program(
    list: Seq<AttributeView>,
    i: int,
    e: int,
    name: Seq<char>,
)
    requires
        0 <= i < list.len(),
        account_laws::just(list[i].path, "lez_program"@),
        forall|j: int|
            0 <= j < i ==> !account_laws::just((#[trigger] list[j]).path, "lez_program"@),
    ensures
        list[i].form matches AttrFormView::List(l) ==> (names_instruction_type(l.entries, e, name)
            ==> idl_gen::external_instruction(list) == Some(name)),
        list[i].form matches AttrFormView::List(l) ==> ((forall|j: int|
            0 <= j < l.entries.len() ==> !account_laws::just(
                (#[trigger] l.entries[j]).path,
                "instruction"@,
            )) ==> idl_gen::external_instruction(list) is None),
        !(list[i].form is List) ==> idl_gen::external_instruction(list) is None,
{
    program_attr_is_first(list, i, 0);
    if let AttrFormView::List(l) = list[i].form {
        if names_instruction_type(l.entries, e, name) {
            type_is_found(l.entries, 0, e, name);
        }
        if forall|j: int|
            0 <= j < l.entries.len() ==> !account_laws::just(
                (#[trigger] l.entries[j]).path,
                "instruction"@,
            ) {
            type_stays(l.entries, 0, None);
        }
    }
}

} // verus!
