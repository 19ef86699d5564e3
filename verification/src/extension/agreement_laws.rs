//! The dispatcher and the IDL see the same program.
use crate::attrs;
use crate::extension;
use crate::extension::discovery;
use crate::extension::discovery_laws;
use crate::extension::gate_laws;
use crate::extension::inject;
use crate::extension::inject::{ActiveWrapView, GateLocations};
use crate::extension::slots;
use crate::extension::{CarriersView, EmbedView, InjectSpecView, ProgramDepsView};
use crate::syntax::{AttributeView, EntryView, ItemFnView, ItemView, ParamView};
use vstd::prelude::*;

verus! {

/// Whether specs are the same but for the offsets noted on them.
pub open spec fn same_gates(a: Seq<InjectSpecView>, b: Seq<InjectSpecView>) -> bool {
    a.len() == b.len() && forall|i: int|
        0 <= i < a.len() ==> (#[trigger] a[i]).wrapper == b[i].wrapper && a[i].accounts
            == b[i].accounts && a[i].source == b[i].source
}

proof fn same_init(a: Seq<InjectSpecView>, b: Seq<InjectSpecView>)
    requires
        same_gates(a, b),
        a.len() > 0,
    ensures
        same_gates(a.drop_last(), b.drop_last()),
        a.last().wrapper == b.last().wrapper,
        a.last().accounts == b.last().accounts,
        a.last().source == b.last().source,
{
    assert(a[a.len() - 1].wrapper == b[b.len() - 1].wrapper);
    assert forall|i: int| 0 <= i < a.drop_last().len() implies (#[trigger] a.drop_last()[i]).wrapper
        == b.drop_last()[i].wrapper && a.drop_last()[i].accounts == b.drop_last()[i].accounts
        && a.drop_last()[i].source == b.drop_last()[i].source by {
        assert(a[i].wrapper == b[i].wrapper);
    }
}

proof fn same_accounts(a: Seq<InjectSpecView>, b: Seq<InjectSpecView>)
    requires
        same_gates(a, b),
    ensures
        inject::all_accounts(a) == inject::all_accounts(b),
    decreases a.len(),
{
    if a.len() > 0 {
        same_init(a, b);
        same_accounts(a.drop_last(), b.drop_last());
    }
}

proof fn same_called_for(a: Seq<InjectSpecView>, b: Seq<InjectSpecView>, list: Seq<AttributeView>)
    requires
        same_gates(a, b),
    ensures
        inject::called_for(a, list) == inject::called_for(b, list),
    decreases a.len(),
{
    if a.len() > 0 {
        same_init(a, b);
        same_called_for(a.drop_last(), b.drop_last(), list);
        assert(inject::activates(a.last(), list) == inject::activates(b.last(), list));
    }
}

proof fn same_creates(
    a: Seq<InjectSpecView>,
    b: Seq<InjectSpecView>,
    params: Seq<(Seq<char>, ParamView)>,
    last: Seq<char>,
)
    requires
        same_gates(a, b),
        inject::creates_gated(a, params, last),
    ensures
        inject::creates_gated(b, params, last),
{
    let (i, j) = choose|i: int, j: int|
        #![trigger a[i].accounts[j]]
        0 <= i < a.len() && 0 <= j < a[i].accounts.len() && a[i].wrapper == last
            && a[i].accounts[j].embedded && inject::creates(params, a[i].accounts[j].name);
    assert(b[i].accounts[j] == a[i].accounts[j]);
}

proof fn same_flipped(a: Seq<InjectSpecView>, b: Seq<InjectSpecView>)
    requires
        same_gates(a, b),
    ensures
        same_gates(b, a),
{
    assert forall|i: int| 0 <= i < b.len() implies (#[trigger] b[i]).wrapper == a[i].wrapper
        && b[i].accounts == a[i].accounts && b[i].source == a[i].source by {
        assert(a[i].wrapper == b[i].wrapper);
    }
}

proof fn same_args(
    a: Seq<InjectSpecView>,
    b: Seq<InjectSpecView>,
    last: Seq<char>,
    pairs: Seq<(Seq<char>, Seq<char>)>,
    embeds: Seq<EmbedView>,
    locations: GateLocations,
    from: int,
    out: Seq<EntryView>,
)
    requires
        same_gates(a, b),
        0 <= from,
    ensures
        inject::wrap_args_from(a, last, pairs, embeds, locations, from, out)
            == inject::wrap_args_from(b, last, pairs, embeds, locations, from, out),
    decreases a.len() - from,
{
    if from < a.len() {
        assert(a[from].wrapper == b[from].wrapper);
        let offset = inject::written_offset(embeds, locations, a[from].source);
        assert(inject::gate_args(a[from], pairs, offset) == inject::gate_args(
            b[from],
            pairs,
            offset,
        ));
        if a[from].wrapper != last {
            same_args(a, b, last, pairs, embeds, locations, from + 1, out);
        } else if let Ok(args) = inject::gate_args(a[from], pairs, offset) {
            same_args(a, b, last, pairs, embeds, locations, from + 1, out + args);
        }
    }
}

proof fn same_wrapped(
    wraps: Seq<ActiveWrapView>,
    a: Seq<InjectSpecView>,
    b: Seq<InjectSpecView>,
    embeds: Seq<EmbedView>,
    locations: GateLocations,
    qualified: Option<Seq<char>>,
    params: Seq<(Seq<char>, ParamView)>,
    pairs: Seq<(Seq<char>, Seq<char>)>,
    from: int,
    list: Seq<AttributeView>,
)
    requires
        same_gates(a, b),
        0 <= from,
    ensures
        inject::wrapped_from(wraps, a, embeds, locations, qualified, params, pairs, from, list)
            == inject::wrapped_from(
            wraps,
            b,
            embeds,
            locations,
            qualified,
            params,
            pairs,
            from,
            list,
        ),
    decreases wraps.len() - from,
{
    if from < wraps.len() {
        same_flipped(a, b);
        if inject::creates_gated(a, params, wraps[from].last) {
            same_creates(a, b, params, wraps[from].last);
        }
        if inject::creates_gated(b, params, wraps[from].last) {
            same_creates(b, a, params, wraps[from].last);
        }
        same_args(a, b, wraps[from].last, pairs, embeds, locations, 0, Seq::empty());
        if inject::is_exempt(wraps[from], list, params, a, qualified) {
            same_wrapped(
                wraps,
                a,
                b,
                embeds,
                locations,
                qualified,
                params,
                pairs,
                from + 1,
                list,
            );
        } else if let Ok(args) = inject::wrap_args_from(
            a,
            wraps[from].last,
            pairs,
            embeds,
            locations,
            0,
            Seq::empty(),
        ) {
            same_wrapped(
                wraps,
                a,
                b,
                embeds,
                locations,
                qualified,
                params,
                pairs,
                from + 1,
                seq![inject::wrap_attr(wraps[from].path, args)] + list,
            );
        }
    }
}

proof fn same_authored_on(
    x: AttributeView,
    func: Seq<char>,
    a: Seq<InjectSpecView>,
    b: Seq<InjectSpecView>,
    embeds: Seq<EmbedView>,
    from: int,
)
    requires
        same_gates(a, b),
        0 <= from,
    ensures
        inject::authored_on(x, func, a, embeds, from) == inject::authored_on(
            x,
            func,
            b,
            embeds,
            from,
        ),
    decreases a.len() - from,
{
    if from < a.len() {
        assert(a[from].wrapper == b[from].wrapper);
        same_authored_on(x, func, a, b, embeds, from + 1);
    }
}

proof fn same_authored(
    list: Seq<AttributeView>,
    func: Seq<char>,
    a: Seq<InjectSpecView>,
    b: Seq<InjectSpecView>,
    embeds: Seq<EmbedView>,
    from: int,
)
    requires
        same_gates(a, b),
        0 <= from,
    ensures
        inject::authored_from(list, func, a, embeds, from) == inject::authored_from(
            list,
            func,
            b,
            embeds,
            from,
        ),
    decreases list.len() - from,
{
    if from < list.len() {
        same_authored_on(list[from], func, a, b, embeds, 0);
        same_authored(list, func, a, b, embeds, from + 1);
    }
}

proof fn same_stamped(
    x: AttributeView,
    a: Seq<InjectSpecView>,
    b: Seq<InjectSpecView>,
    pairs: Seq<(Seq<char>, Seq<char>)>,
    embeds: Seq<EmbedView>,
    from: int,
)
    requires
        same_gates(a, b),
        0 <= from,
    ensures
        inject::stamped_from(x, a, pairs, embeds, from) == inject::stamped_from(
            x,
            b,
            pairs,
            embeds,
            from,
        ),
    decreases a.len() - from,
{
    if from < a.len() {
        assert(a[from].wrapper == b[from].wrapper);
        let offset = inject::embed_offset(embeds, a[from].source);
        assert(inject::gate_args(a[from], pairs, offset) == inject::gate_args(
            b[from],
            pairs,
            offset,
        ));
        if x.path.ends(a[from].wrapper) && offset is Some {
            if let Ok(args) = inject::gate_args(a[from], pairs, offset) {
                same_stamped(inject::list_attr(x.path, args), a, b, pairs, embeds, from + 1);
            }
        } else {
            same_stamped(x, a, b, pairs, embeds, from + 1);
        }
    }
}

proof fn same_stamp(
    list: Seq<AttributeView>,
    a: Seq<InjectSpecView>,
    b: Seq<InjectSpecView>,
    pairs: Seq<(Seq<char>, Seq<char>)>,
    embeds: Seq<EmbedView>,
    from: int,
    out: Seq<AttributeView>,
)
    requires
        same_gates(a, b),
        0 <= from,
    ensures
        inject::stamp_from(list, a, pairs, embeds, from, out) == inject::stamp_from(
            list,
            b,
            pairs,
            embeds,
            from,
            out,
        ),
    decreases list.len() - from,
{
    if from < list.len() {
        same_stamped(list[from], a, b, pairs, embeds, 0);
        if !(list[from].form is Bare) {
            same_stamp(list, a, b, pairs, embeds, from + 1, out.push(list[from]));
        } else if let Ok(x) = inject::stamped_from(list[from], a, pairs, embeds, 0) {
            same_stamp(list, a, b, pairs, embeds, from + 1, out.push(x));
        }
    }
}

/// Gating goes by the embeds alone: the offsets noted on the specs change
/// nothing.
pub proof fn gating_ignores_noted_offsets(
    func: ItemFnView,
    wraps: Seq<ActiveWrapView>,
    a: Seq<InjectSpecView>,
    b: Seq<InjectSpecView>,
    embeds: Seq<EmbedView>,
    locations: GateLocations,
    qualified: Option<Seq<char>>,
)
    requires
        same_gates(a, b),
    ensures
        inject::gated(func, wraps, a, embeds, locations, qualified) == inject::gated(
            func,
            wraps,
            b,
            embeds,
            locations,
            qualified,
        ),
{
    same_accounts(a, b);
    let start = inject::gate_start(func, a, qualified);
    let pairs = inject::remap_of(a, start);
    let params = attrs::named_params(start.inputs);
    same_authored(start.attrs, start.name, a, b, embeds, 0);
    same_wrapped(wraps, a, b, embeds, locations, qualified, params, pairs, 0, start.attrs);
    if let Ok(wrapped) = inject::wrapped_from(
        wraps,
        a,
        embeds,
        locations,
        qualified,
        params,
        pairs,
        0,
        start.attrs,
    ) {
        same_called_for(a, b, wrapped);
        same_stamp(wrapped, a, b, pairs, embeds, 0, Seq::empty());
    }
}

proof fn same_declared_role(
    a: Seq<InjectSpecView>,
    b: Seq<InjectSpecView>,
    source: Seq<char>,
    role: Seq<char>,
)
    requires
        same_gates(a, b),
        inject::declares_role(a, source, role),
    ensures
        inject::declares_role(b, source, role),
{
    let (i, j) = choose|i: int, j: int|
        #![trigger a[i].accounts[j]]
        0 <= i < a.len() && 0 <= j < a[i].accounts.len() && a[i].source == source
            && a[i].accounts[j].role == role;
    assert(b[i].accounts[j] == a[i].accounts[j]);
}

proof fn rewritten_alike(
    a: Seq<InjectSpecView>,
    b: Seq<InjectSpecView>,
    x: Seq<EmbedView>,
    y: Seq<EmbedView>,
    fns: Seq<ItemFnView>,
    from: int,
)
    requires
        same_gates(a, b),
        discovery_laws::offsets_settled(x, y),
        0 <= from,
    ensures
        match (
            inject::rewritten_from(a, x, fns, from),
            inject::rewritten_from(b, y, fns, from),
        ) {
            (Ok(p), Ok(q)) => same_gates(p, q),
            (Err(e), Err(f)) => e == f,
            _ => false,
        },
    decreases x.len() - from,
{
    if from < x.len() {
        assert(discovery_laws::offset_settled(x[from], y[from]));
        same_flipped(a, b);
        if inject::declares_role(a, x[from].source, x[from].decl.role) {
            same_declared_role(a, b, x[from].source, x[from].decl.role);
        }
        if inject::declares_role(b, x[from].source, x[from].decl.role) {
            same_declared_role(b, a, x[from].source, x[from].decl.role);
        }
        if let (Ok(p), Ok(q)) = (
            inject::rewritten(a, x[from], fns),
            inject::rewritten(b, y[from], fns),
        ) {
            let seeds = inject::expr_seeds(
                inject::canonical_constraint(fns, x[from].decl.account)->Ok_0,
            )->Some_0;
            assert forall|i: int| 0 <= i < p.len() implies (#[trigger] p[i]).wrapper == q[i].wrapper
                && p[i].accounts == q[i].accounts && p[i].source == q[i].source by {
                assert(a[i].wrapper == b[i].wrapper);
                assert(p[i] == inject::embedded_spec(a[i], x[from], seeds));
                assert(q[i] == inject::embedded_spec(b[i], y[from], seeds));
                assert(p[i].accounts =~= q[i].accounts);
            }
            rewritten_alike(p, q, x, y, fns, from + 1);
        }
    }
}

/// Whatever the dispatcher makes of a program, the IDL makes as well. Where
/// preparation with carriers succeeds, so does preparation without; and each fn
/// the first gates, the second gates to the same parameters in the same order,
/// with the same ones reported as injected.
pub proof fn dispatcher_and_idl_agree(
    deps: ProgramDepsView,
    mod_items: Seq<ItemView>,
    items: Seq<ItemView>,
    func: ItemFnView,
    qualified: Option<Seq<char>>,
)
    ensures
        extension::prepared(deps, mod_items, CarriersView::Resolve(items)) matches Ok(p) ==> {
            &&& extension::prepared(deps, mod_items, CarriersView::Skip) matches Ok(q)
            &&& p.instructions == q.instructions
            &&& p.gated(func, qualified) matches Ok((f, names)) ==> q.gated(func, qualified) matches Ok((g, same))
                && f.inputs == g.inputs && f.name == g.name && names == same
        },
{
    let ext = deps.extensions;
    let fns = discovery::instruction_fns(mod_items);
    discovery_laws::resolution_settles_every_offset(ext, items);
    if let Ok(now) = slots::resolved_offsets(ext, items) {
        assert(same_gates(ext.inject_specs, ext.inject_specs));
        rewritten_alike(ext.inject_specs, ext.inject_specs, ext.embeds, now.embeds, fns, 0);
        gate_laws::accepted_embeds_do_not_collide(ext.embeds);
        gate_laws::accepted_embeds_do_not_collide(now.embeds);
        if inject::collisions_from(now.embeds, 0) is Ok {
            assert forall|i: int, j: int| 0 <= i < j < ext.embeds.len() implies !inject::collides(
                (#[trigger] ext.embeds[i]).decl,
                (#[trigger] ext.embeds[j]).decl,
            ) by {
                assert(discovery_laws::offset_settled(ext.embeds[i], now.embeds[i]));
                assert(discovery_laws::offset_settled(ext.embeds[j], now.embeds[j]));
            }
        }
        if let (Ok(p), Ok(q)) = (
            extension::prepared(deps, mod_items, CarriersView::Resolve(items)),
            extension::prepared(deps, mod_items, CarriersView::Skip),
        ) {
            gating_ignores_noted_offsets(
                func,
                q.active_wraps,
                p.inject_specs,
                q.inject_specs,
                q.embeds,
                GateLocations::Omit,
                qualified,
            );
            assert forall|i: int| 0 <= i < p.embeds.len() implies (#[trigger] p.embeds[i]).source
                == q.embeds[i].source by {
                assert(discovery_laws::offset_settled(q.embeds[i], p.embeds[i]));
            }
            gate_laws::omitting_locations_changes_no_account(
                func,
                p.active_wraps,
                p.inject_specs,
                p.embeds,
                q.embeds,
                qualified,
            );
        }
    }
}

} // verus!
