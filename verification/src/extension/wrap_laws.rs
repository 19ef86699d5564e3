//! What a gate says: which fns it stands on and where it points.
use crate::account_laws;
use crate::attrs;
use crate::extension::gate_laws;
use crate::extension::inject;
use crate::extension::inject::{ActiveWrapView, GateLocations};
use crate::extension::injection_laws;
use crate::extension::marker;
use crate::extension::role_laws;
use crate::extension::{EmbedView, InjectAccountView, InjectSpecView};
use crate::program_laws;
use crate::syntax::{
    AttributeView, EntryView, ExprKindView, ExprView, FnArgView, ItemFnView,
};
use vstd::prelude::*;

verus! {

// ── Arguments ────────────────────────────────────────────────────────────

/// Whether an entry is `key = name`.
pub open spec fn points_to(e: EntryView, key: Seq<char>, name: Seq<char>) -> bool {
    &&& account_laws::just(e.path, key)
    &&& e.assigned
    &&& e.value == Some(ExprView { text: name, kind: ExprKindView::Name(Some(name)) })
}

/// Whether an entry is `offset = v`.
pub open spec fn gives_offset(e: EntryView, v: ExprView) -> bool {
    account_laws::just(e.path, "offset"@) && e.assigned && e.value == Some(v)
}

/// Whether embed `k` is the last of an extension.
pub open spec fn is_last_of(embeds: Seq<EmbedView>, k: int, source: Seq<char>) -> bool {
    &&& 0 <= k < embeds.len()
    &&& embeds[k].source == source
    &&& forall|l: int| k < l < embeds.len() ==> (#[trigger] embeds[l]).source != source
}

/// Whether an entry gives the offset of an extension, as its last embed has it.
pub open spec fn gives_offset_of(
    e: EntryView,
    source: Seq<char>,
    embeds: Seq<EmbedView>,
) -> bool {
    exists|k: int| #[trigger]
        is_last_of(embeds, k, source) && (marker::offset_expr(
            embeds[k].decl.offset,
            source,
        ) matches Ok(v) && gives_offset(e, v))
}

/// Whether an extension is embedded.
pub open spec fn is_embedded(embeds: Seq<EmbedView>, source: Seq<char>) -> bool {
    exists|k: int| 0 <= k < embeds.len() && (#[trigger] embeds[k]).source == source
}

/// Whether an entry names the parameter that the role of an account goes by.
pub open spec fn names_param(
    e: EntryView,
    acc: InjectAccountView,
    pairs: Seq<(Seq<char>, Seq<char>)>,
) -> bool {
    exists|other: Seq<char>| #[trigger]
        injection_laws::goes_by(pairs, acc.name, other) && points_to(e, acc.role, other)
}

/// Whether entries from `from` to `upto` are the arguments of a spec's gate: one
/// for each of its accounts, in order, that names the parameter the role goes by,
/// and the offset behind them where one is written.
pub open spec fn are_args_of(
    entries: Seq<EntryView>,
    from: int,
    upto: int,
    spec: InjectSpecView,
    pairs: Seq<(Seq<char>, Seq<char>)>,
    embeds: Seq<EmbedView>,
    locations: GateLocations,
) -> bool {
    let n = spec.accounts.len();
    &&& 0 <= from <= upto <= entries.len()
    &&& forall|a: int|
        0 <= a < n ==> from + a < upto && names_param(
            entries[from + a],
            #[trigger] spec.accounts[a],
            pairs,
        )
    &&& if locations == GateLocations::Emit && is_embedded(embeds, spec.source) {
        upto == from + n + 1 && gives_offset_of(entries[upto - 1], spec.source, embeds)
    } else {
        upto == from + n
    }
}

proof fn embed_offset_is_last(embeds: Seq<EmbedView>, source: Seq<char>)
    ensures
        inject::embed_offset(embeds, source) is Some == is_embedded(embeds, source),
        inject::embed_offset(embeds, source) matches Some(o) ==> exists|k: int| #[trigger]
            is_last_of(embeds, k, source) && embeds[k].decl.offset == o,
    decreases embeds.len(),
{
    if embeds.len() > 0 {
        let init = embeds.drop_last();
        embed_offset_is_last(init, source);
        if embeds.last().source == source {
            assert(is_last_of(embeds, embeds.len() - 1, source));
            assert(embeds[embeds.len() - 1].source == source);
        } else {
            if let Some(o) = inject::embed_offset(init, source) {
                let k = choose|k: int| #[trigger]
                    is_last_of(init, k, source) && init[k].decl.offset == o;
                assert(embeds[k] == init[k]);
                assert forall|l: int| k < l < embeds.len() implies (#[trigger] embeds[l]).source
                    != source by {
                    if l < init.len() {
                        assert(init[l] == embeds[l]);
                    }
                }
                assert(is_last_of(embeds, k, source));
            }
            if is_embedded(embeds, source) {
                let k = choose|k: int|
                    0 <= k < embeds.len() && (#[trigger] embeds[k]).source == source;
                assert(init[k] == embeds[k]);
            }
            if is_embedded(init, source) {
                let k = choose|k: int| 0 <= k < init.len() && (#[trigger] init[k]).source == source;
                assert(embeds[k] == init[k]);
            }
        }
    }
}

proof fn args_are_written(
    spec: InjectSpecView,
    pairs: Seq<(Seq<char>, Seq<char>)>,
    embeds: Seq<EmbedView>,
    locations: GateLocations,
    before: Seq<EntryView>,
    after: Seq<EntryView>,
)
    ensures
        inject::gate_args(
            spec,
            pairs,
            inject::written_offset(embeds, locations, spec.source),
        ) matches Ok(args) ==> are_args_of(
            before + args + after,
            before.len() as int,
            (before.len() + args.len()) as int,
            spec,
            pairs,
            embeds,
            locations,
        ),
{
    embed_offset_is_last(embeds, spec.source);
    let written = inject::written_offset(embeds, locations, spec.source);
    if let Ok(args) = inject::gate_args(spec, pairs, written) {
        let entries = before + args + after;
        let from = before.len() as int;
        let upto = (before.len() + args.len()) as int;
        assert forall|a: int| 0 <= a < spec.accounts.len() implies from + a < upto && names_param(
            entries[from + a],
            #[trigger] spec.accounts[a],
            pairs,
        ) by {
            let other = inject::resolved(pairs, spec.accounts[a].name);
            injection_laws::resolved_names_are_gone_by(pairs, spec.accounts[a].name);
            assert(entries[from + a] == args[a]);
            assert(args[a] == inject::value_entry(
                spec.accounts[a].role,
                inject::name_expr(other),
            ));
            assert(points_to(args[a], spec.accounts[a].role, other));
        }
        if locations == GateLocations::Emit && is_embedded(embeds, spec.source) {
            let o = inject::embed_offset(embeds, spec.source)->Some_0;
            let k = choose|k: int| #[trigger]
                is_last_of(embeds, k, spec.source) && embeds[k].decl.offset == o;
            let v = marker::offset_expr(o, spec.source)->Ok_0;
            assert(entries[upto - 1] == args[args.len() - 1]);
            assert(is_last_of(embeds, k, spec.source));
            assert(gives_offset(entries[upto - 1], v));
        }
    }
}

// ── Wraps ────────────────────────────────────────────────────────────────

/// Whether a fn is spared a wrap: it carries the marker, is on the list of those
/// exempt, or creates an account that the role is embedded in.
pub open spec fn is_spared(
    wrap: ActiveWrapView,
    f: ItemFnView,
    specs: Seq<InjectSpecView>,
    qualified: Option<Seq<char>>,
) -> bool {
    ||| program_laws::carries(f.attrs, wrap.config.self_exempt_marker)
    ||| qualified matches Some(q) && exists|x: int|
        0 <= x < wrap.config.exempt.len() && #[trigger] wrap.config.exempt[x] == q
    ||| exists|s: int, a: int|
        #![trigger specs[s].accounts[a]]
        0 <= s < specs.len() && specs[s].wrapper == wrap.last && 0 <= a < specs[s].accounts.len()
            && specs[s].accounts[a].embedded && role_laws::creates_account(
            f,
            specs[s].accounts[a].name,
        )
}

/// How many of the first `n` wraps a fn is not spared.
#[verifier::opaque]
pub open spec fn wraps_before(
    wraps: Seq<ActiveWrapView>,
    n: int,
    f: ItemFnView,
    specs: Seq<InjectSpecView>,
    qualified: Option<Seq<char>>,
) -> nat
    decreases n,
{
    if n <= 0 {
        0
    } else {
        wraps_before(wraps, n - 1, f, specs, qualified) + if is_spared(
            wraps[n - 1],
            f,
            specs,
            qualified,
        ) {
            0nat
        } else {
            1nat
        }
    }
}

/// Whether no wrap's attribute is the marker of another.
pub open spec fn markers_stand_apart(wraps: Seq<ActiveWrapView>) -> bool {
    forall|v: int, w: int|
        0 <= v < wraps.len() && 0 <= w < wraps.len() ==> !account_laws::just(
            (#[trigger] wraps[v]).path,
            (#[trigger] wraps[w]).config.self_exempt_marker,
        )
}

/// Where the arguments of each spec stand in a wrap's attribute.
pub open spec fn args_by_spec(
    entries: Seq<EntryView>,
    starts: Seq<int>,
    last: Seq<char>,
    specs: Seq<InjectSpecView>,
    pairs: Seq<(Seq<char>, Seq<char>)>,
    embeds: Seq<EmbedView>,
    locations: GateLocations,
) -> bool {
    &&& starts.len() == specs.len() + 1
    &&& starts[0] == 0
    &&& starts[specs.len() as int] == entries.len()
    &&& forall|s: int|
        0 <= s < specs.len() ==> if (#[trigger] specs[s]).wrapper == last {
            are_args_of(entries, starts[s], starts[s + 1], specs[s], pairs, embeds, locations)
        } else {
            starts[s + 1] == starts[s]
        }
}

/// Whether an attribute gates a fn for a wrap: by its path, with the arguments of
/// every spec of that wrapper and no others; bare where there are none.
pub open spec fn is_gate_of(
    attr: AttributeView,
    wrap: ActiveWrapView,
    specs: Seq<InjectSpecView>,
    pairs: Seq<(Seq<char>, Seq<char>)>,
    embeds: Seq<EmbedView>,
    locations: GateLocations,
) -> bool {
    &&& attr.path == wrap.path
    &&& !(attr.form is Value)
    &&& attr.form is Bare <==> attr.entries().len() == 0
    &&& are_wrap_args(attr.entries(), wrap.last, specs, pairs, embeds, locations)
}

/// Whether entries are the arguments of every spec of a wrapper, one behind the
/// other.
pub open spec fn are_wrap_args(
    entries: Seq<EntryView>,
    last: Seq<char>,
    specs: Seq<InjectSpecView>,
    pairs: Seq<(Seq<char>, Seq<char>)>,
    embeds: Seq<EmbedView>,
    locations: GateLocations,
) -> bool {
    exists|starts: Seq<int>| #[trigger]
        args_by_spec(entries, starts, last, specs, pairs, embeds, locations)
}

proof fn wrap_args_by_spec(
    specs: Seq<InjectSpecView>,
    last: Seq<char>,
    pairs: Seq<(Seq<char>, Seq<char>)>,
    embeds: Seq<EmbedView>,
    locations: GateLocations,
    from: int,
    out: Seq<EntryView>,
    starts: Seq<int>,
)
    requires
        0 <= from <= specs.len(),
        starts.len() == from + 1,
        starts[0] == 0,
        starts[from] == out.len(),
        forall|s: int, more: Seq<EntryView>|
            0 <= s < from ==> if (#[trigger] specs[s]).wrapper == last {
                are_args_of(
                    #[trigger] (out + more),
                    starts[s],
                    starts[s + 1],
                    specs[s],
                    pairs,
                    embeds,
                    locations,
                )
            } else {
                starts[s + 1] == starts[s]
            },
    ensures
        inject::wrap_args_from(specs, last, pairs, embeds, locations, from, out) matches Ok(all)
            ==> are_wrap_args(all, last, specs, pairs, embeds, locations),
    decreases specs.len() - from,
{
    if from < specs.len() {
        if specs[from].wrapper != last {
            let next = starts.push(out.len() as int);
            assert forall|s: int, more: Seq<EntryView>| 0 <= s < from + 1 implies if (
            #[trigger] specs[s]).wrapper == last {
                are_args_of(
                    #[trigger] (out + more),
                    next[s],
                    next[s + 1],
                    specs[s],
                    pairs,
                    embeds,
                    locations,
                )
            } else {
                next[s + 1] == next[s]
            } by {
                if s < from {
                    assert(next[s] == starts[s] && next[s + 1] == starts[s + 1]);
                }
            }
            wrap_args_by_spec(specs, last, pairs, embeds, locations, from + 1, out, next);
            assert(inject::wrap_args_from(specs, last, pairs, embeds, locations, from, out)
                == inject::wrap_args_from(specs, last, pairs, embeds, locations, from + 1, out));
        } else if let Ok(args) = inject::gate_args(
            specs[from],
            pairs,
            inject::written_offset(embeds, locations, specs[from].source),
        ) {
            let wide = out + args;
            let next = starts.push(wide.len() as int);
            assert forall|s: int, more: Seq<EntryView>| 0 <= s < from + 1 implies if (
            #[trigger] specs[s]).wrapper == last {
                are_args_of(
                    #[trigger] (wide + more),
                    next[s],
                    next[s + 1],
                    specs[s],
                    pairs,
                    embeds,
                    locations,
                )
            } else {
                next[s + 1] == next[s]
            } by {
                if s < from {
                    assert(next[s] == starts[s] && next[s + 1] == starts[s + 1]);
                    assert(wide + more =~= out + (args + more));
                } else {
                    args_are_written(specs[from], pairs, embeds, locations, out, more);
                }
            }
            wrap_args_by_spec(specs, last, pairs, embeds, locations, from + 1, wide, next);
            assert(inject::wrap_args_from(specs, last, pairs, embeds, locations, from, out)
                == inject::wrap_args_from(specs, last, pairs, embeds, locations, from + 1, wide));
        }
    } else {
        assert(out + Seq::<EntryView>::empty() =~= out);
        let ends = starts;
        assert forall|s: int| 0 <= s < specs.len() implies if (#[trigger] specs[s]).wrapper
            == last {
            are_args_of(out, ends[s], ends[s + 1], specs[s], pairs, embeds, locations)
        } else {
            ends[s + 1] == ends[s]
        } by {
            let more = Seq::<EntryView>::empty();
            if specs[s].wrapper == last {
                assert(are_args_of(
                    out + more,
                    starts[s],
                    starts[s + 1],
                    specs[s],
                    pairs,
                    embeds,
                    locations,
                ));
            } else {
                assert((out + more).len() == out.len());
            }
        }
        assert(args_by_spec(out, ends, last, specs, pairs, embeds, locations));
    }
}

proof fn exempt_is_spared(
    wrap: ActiveWrapView,
    now: Seq<AttributeView>,
    f: ItemFnView,
    specs: Seq<InjectSpecView>,
    qualified: Option<Seq<char>>,
    n: int,
)
    requires
        0 <= n <= now.len(),
        now.skip(n) == f.attrs,
        forall|i: int|
            0 <= i < n ==> !account_laws::just(
                (#[trigger] now[i]).path,
                wrap.config.self_exempt_marker,
            ),
    ensures
        inject::is_exempt(wrap, now, attrs::named_params(f.inputs), specs, qualified) == is_spared(
            wrap,
            f,
            specs,
            qualified,
        ),
{
    let marker = wrap.config.self_exempt_marker;
    program_laws::carried_attrs_are_named(now, marker);
    program_laws::carried_attrs_are_named(f.attrs, marker);
    if program_laws::carries(now, marker) {
        let a = choose|a: int|
            0 <= a < now.len() && account_laws::just((#[trigger] now[a]).path, marker);
        assert(a >= n);
        assert(f.attrs[a - n] == now[a]);
    }
    if program_laws::carries(f.attrs, marker) {
        let a = choose|a: int|
            0 <= a < f.attrs.len() && account_laws::just((#[trigger] f.attrs[a]).path, marker);
        assert(now.skip(n)[a] == now[n + a]);
    }
    if let Some(q) = qualified {
        if wrap.config.exempt.contains(q) {
            let x = choose|x: int| 0 <= x < wrap.config.exempt.len() && wrap.config.exempt[x] == q;
            assert(wrap.config.exempt[x] == q);
        }
        if exists|x: int| 0 <= x < wrap.config.exempt.len() && #[trigger] wrap.config.exempt[x] == q {
            assert(wrap.config.exempt.contains(q));
        }
    }
    let params = attrs::named_params(f.inputs);
    if inject::creates_gated(specs, params, wrap.last) {
        let (s, a) = choose|s: int, a: int|
            #![trigger specs[s].accounts[a]]
            0 <= s < specs.len() && 0 <= a < specs[s].accounts.len() && specs[s].wrapper
                == wrap.last && specs[s].accounts[a].embedded && inject::creates(
                params,
                specs[s].accounts[a].name,
            );
        role_laws::creation_is_read(f, specs[s].accounts[a].name);
    }
    if exists|s: int, a: int|
        #![trigger specs[s].accounts[a]]
        0 <= s < specs.len() && specs[s].wrapper == wrap.last && 0 <= a < specs[s].accounts.len()
            && specs[s].accounts[a].embedded && role_laws::creates_account(
            f,
            specs[s].accounts[a].name,
        ) {
        let (s, a) = choose|s: int, a: int|
            #![trigger specs[s].accounts[a]]
            0 <= s < specs.len() && specs[s].wrapper == wrap.last && 0 <= a
                < specs[s].accounts.len() && specs[s].accounts[a].embedded
                && role_laws::creates_account(f, specs[s].accounts[a].name);
        role_laws::creation_is_read(f, specs[s].accounts[a].name);
    }
}

/// What is known of attributes once `n` wraps are tried.
spec fn wrapped_so_far(
    wraps: Seq<ActiveWrapView>,
    n: int,
    f: ItemFnView,
    specs: Seq<InjectSpecView>,
    embeds: Seq<EmbedView>,
    locations: GateLocations,
    qualified: Option<Seq<char>>,
    pairs: Seq<(Seq<char>, Seq<char>)>,
    now: Seq<AttributeView>,
) -> bool {
    let k = wraps_before(wraps, n, f, specs, qualified) as int;
    &&& now.len() == f.attrs.len() + k
    &&& now.skip(k) == f.attrs
    &&& forall|w: int|
        0 <= w < n && !is_spared(#[trigger] wraps[w], f, specs, qualified) ==> {
            let at = k - 1 - wraps_before(wraps, w, f, specs, qualified);
            0 <= at < k && is_gate_of(now[at], wraps[w], specs, pairs, embeds, locations)
        }
    &&& forall|i: int|
        0 <= i < k ==> exists|w: int| 0 <= w < n && (#[trigger] wraps[w]).path == (
        #[trigger] now[i]).path
}

proof fn wraps_before_step(
    wraps: Seq<ActiveWrapView>,
    n: int,
    f: ItemFnView,
    specs: Seq<InjectSpecView>,
    qualified: Option<Seq<char>>,
)
    requires
        0 <= n,
    ensures
        wraps_before(wraps, 0, f, specs, qualified) == 0,
        wraps_before(wraps, n + 1, f, specs, qualified) == wraps_before(
            wraps,
            n,
            f,
            specs,
            qualified,
        ) + if is_spared(wraps[n], f, specs, qualified) {
            0nat
        } else {
            1nat
        },
{
    reveal_with_fuel(wraps_before, 2);
}

proof fn wraps_are_tried(
    wraps: Seq<ActiveWrapView>,
    n: int,
    f: ItemFnView,
    specs: Seq<InjectSpecView>,
    embeds: Seq<EmbedView>,
    locations: GateLocations,
    qualified: Option<Seq<char>>,
    pairs: Seq<(Seq<char>, Seq<char>)>,
    now: Seq<AttributeView>,
)
    requires
        0 <= n <= wraps.len(),
        markers_stand_apart(wraps),
        wrapped_so_far(wraps, n, f, specs, embeds, locations, qualified, pairs, now),
    ensures
        inject::wrapped_from(
            wraps,
            specs,
            embeds,
            locations,
            qualified,
            attrs::named_params(f.inputs),
            pairs,
            n,
            now,
        ) matches Ok(all) ==> wrapped_so_far(
            wraps,
            wraps.len() as int,
            f,
            specs,
            embeds,
            locations,
            qualified,
            pairs,
            all,
        ),
    decreases wraps.len() - n,
{
    if n < wraps.len() {
        let k = wraps_before(wraps, n, f, specs, qualified) as int;
        let wrap = wraps[n];
        assert forall|i: int| 0 <= i < k implies !account_laws::just(
            (#[trigger] now[i]).path,
            wrap.config.self_exempt_marker,
        ) by {
            let w = choose|w: int| 0 <= w < n && (#[trigger] wraps[w]).path == now[i].path;
            assert(!account_laws::just(wraps[w].path, wraps[n].config.self_exempt_marker));
        }
        exempt_is_spared(wrap, now, f, specs, qualified, k);
        wraps_before_step(wraps, n, f, specs, qualified);
        if is_spared(wrap, f, specs, qualified) {
            assert(wrapped_so_far(
                wraps,
                n + 1,
                f,
                specs,
                embeds,
                locations,
                qualified,
                pairs,
                now,
            ));
            wraps_are_tried(
                wraps,
                n + 1,
                f,
                specs,
                embeds,
                locations,
                qualified,
                pairs,
                now,
            );
        } else if let Ok(args) = inject::wrap_args_from(
            specs,
            wrap.last,
            pairs,
            embeds,
            locations,
            0,
            Seq::empty(),
        ) {
            wrap_args_by_spec(
                specs,
                wrap.last,
                pairs,
                embeds,
                locations,
                0,
                Seq::empty(),
                seq![0int],
            );
            let gate = inject::wrap_attr(wrap.path, args);
            assert(gate.entries() =~= args);
            assert(is_gate_of(gate, wrap, specs, pairs, embeds, locations));
            let next = seq![gate] + now;
            assert(next.skip(k + 1) =~= now.skip(k));
            assert forall|w: int| 0 <= w < n + 1 && !is_spared(
                #[trigger] wraps[w],
                f,
                specs,
                qualified,
            ) implies {
                let at = k + 1 - 1 - wraps_before(wraps, w, f, specs, qualified);
                0 <= at < k + 1 && is_gate_of(next[at], wraps[w], specs, pairs, embeds, locations)
            } by {
                let at = k - wraps_before(wraps, w, f, specs, qualified);
                if w < n {
                    assert(next[at] == now[at - 1]);
                } else {
                    assert(next[0] == gate);
                }
            }
            assert forall|i: int| 0 <= i < k + 1 implies exists|w: int|
                0 <= w < n + 1 && (#[trigger] wraps[w]).path == (#[trigger] next[i]).path by {
                if i > 0 {
                    assert(next[i] == now[i - 1]);
                    let w = choose|w: int| 0 <= w < n && (#[trigger] wraps[w]).path == now[i
                        - 1].path;
                    assert(wraps[w].path == next[i].path);
                } else {
                    assert(wraps[n].path == next[0].path);
                }
            }
            assert(wrapped_so_far(
                wraps,
                n + 1,
                f,
                specs,
                embeds,
                locations,
                qualified,
                pairs,
                next,
            ));
            wraps_are_tried(
                wraps,
                n + 1,
                f,
                specs,
                embeds,
                locations,
                qualified,
                pairs,
                next,
            );
        }
    }
}

/// Every wrap a fn is not spared stands on it: in front of what was authored, the
/// later wrap before the earlier, each with the arguments its wrapper's specs call
/// for; and nothing else is put there.
pub proof fn wraps_stand_on_every_fn_they_do_not_spare(
    wraps: Seq<ActiveWrapView>,
    f: ItemFnView,
    specs: Seq<InjectSpecView>,
    embeds: Seq<EmbedView>,
    locations: GateLocations,
    qualified: Option<Seq<char>>,
    pairs: Seq<(Seq<char>, Seq<char>)>,
    all: Seq<AttributeView>,
)
    requires
        markers_stand_apart(wraps),
        inject::wrapped_from(
            wraps,
            specs,
            embeds,
            locations,
            qualified,
            attrs::named_params(f.inputs),
            pairs,
            0,
            f.attrs,
        ) == Ok::<Seq<AttributeView>, Seq<char>>(all),
    ensures
        ({
            let k = wraps_before(wraps, wraps.len() as int, f, specs, qualified) as int;
            &&& all.len() == f.attrs.len() + k
            &&& all.skip(k) == f.attrs
            &&& forall|w: int|
                0 <= w < wraps.len() && !is_spared(#[trigger] wraps[w], f, specs, qualified) ==> {
                    let at = k - 1 - wraps_before(wraps, w, f, specs, qualified);
                    0 <= at < k && is_gate_of(all[at], wraps[w], specs, pairs, embeds, locations)
                }
        }),
{
    wraps_before_step(wraps, 0, f, specs, qualified);
    assert(f.attrs.skip(0) =~= f.attrs);
    assert(wrapped_so_far(
        wraps,
        0,
        f,
        specs,
        embeds,
        locations,
        qualified,
        pairs,
        f.attrs,
    ));
    wraps_are_tried(wraps, 0, f, specs, embeds, locations, qualified, pairs, f.attrs);
}

// ── Stamps ───────────────────────────────────────────────────────────────

/// Whether a spec's gate is an attribute that locations are written to: it ends in
/// the wrapper's name, and the extension is embedded.
pub open spec fn is_stamped_by(
    attr: AttributeView,
    spec: InjectSpecView,
    embeds: Seq<EmbedView>,
) -> bool {
    attr.path.segments.len() > 0 && attr.path.segments.last() == spec.wrapper && is_embedded(
        embeds,
        spec.source,
    )
}

/// Whether `now` is what stamping makes of an attribute: a bare gate of embedded
/// extensions gets the arguments of the last of them, anything else stays.
pub open spec fn is_stamp_of(
    now: AttributeView,
    attr: AttributeView,
    specs: Seq<InjectSpecView>,
    pairs: Seq<(Seq<char>, Seq<char>)>,
    embeds: Seq<EmbedView>,
) -> bool {
    ||| now == attr && (attr.form is Bare ==> forall|s: int|
        0 <= s < specs.len() ==> !is_stamped_by(attr, #[trigger] specs[s], embeds))
    ||| attr.form is Bare && now.path == attr.path && now.form is List && exists|s: int|
        #![trigger specs[s]]
        0 <= s < specs.len() && is_stamped_by(attr, specs[s], embeds) && are_args_of(
            now.entries(),
            0,
            now.entries().len() as int,
            specs[s],
            pairs,
            embeds,
            GateLocations::Emit,
        ) && forall|l: int|
            s < l < specs.len() ==> !is_stamped_by(attr, #[trigger] specs[l], embeds)
}

proof fn stamp_is_written(
    attr: AttributeView,
    now: AttributeView,
    specs: Seq<InjectSpecView>,
    pairs: Seq<(Seq<char>, Seq<char>)>,
    embeds: Seq<EmbedView>,
    from: int,
)
    requires
        attr.form is Bare,
        0 <= from <= specs.len(),
        is_stamp_of(now, attr, specs.take(from), pairs, embeds),
    ensures
        inject::stamped_from(now, specs, pairs, embeds, from) matches Ok(done) ==> is_stamp_of(
            done,
            attr,
            specs,
            pairs,
            embeds,
        ),
    decreases specs.len() - from,
{
    if from < specs.len() {
        let spec = specs[from];
        let more = specs.take(from + 1);
        let done = specs.take(from);
        assert(more[from] == spec);
        embed_offset_is_last(embeds, spec.source);
        assert(now.path == attr.path);
        if is_stamped_by(attr, spec, embeds) {
            if let Ok(args) = inject::gate_args(
                spec,
                pairs,
                inject::embed_offset(embeds, spec.source),
            ) {
                let next = inject::list_attr(now.path, args);
                args_are_written(
                    spec,
                    pairs,
                    embeds,
                    GateLocations::Emit,
                    Seq::empty(),
                    Seq::empty(),
                );
                assert(Seq::<EntryView>::empty() + args + Seq::<EntryView>::empty() =~= args);
                assert(next.entries() =~= args);
                assert(is_stamped_by(attr, more[from], embeds));
                assert(is_stamp_of(next, attr, more, pairs, embeds));
                stamp_is_written(attr, next, specs, pairs, embeds, from + 1);
            }
        } else {
            if now == attr {
                assert forall|s: int| 0 <= s < more.len() implies !is_stamped_by(
                    attr,
                    #[trigger] more[s],
                    embeds,
                ) by {
                    if s < from {
                        assert(done[s] == more[s]);
                    }
                }
            } else {
                let s = choose|s: int|
                    #![trigger done[s]]
                    0 <= s < done.len() && is_stamped_by(attr, done[s], embeds) && are_args_of(
                        now.entries(),
                        0,
                        now.entries().len() as int,
                        done[s],
                        pairs,
                        embeds,
                        GateLocations::Emit,
                    ) && forall|l: int|
                        s < l < done.len() ==> !is_stamped_by(attr, #[trigger] done[l], embeds);
                assert(more[s] == done[s]);
                assert forall|l: int| s < l < more.len() implies !is_stamped_by(
                    attr,
                    #[trigger] more[l],
                    embeds,
                ) by {
                    if l < from {
                        assert(done[l] == more[l]);
                    }
                }
            }
            assert(is_stamp_of(now, attr, more, pairs, embeds));
            stamp_is_written(attr, now, specs, pairs, embeds, from + 1);
        }
    } else {
        assert(specs.take(from) =~= specs);
    }
}

proof fn stamps_are_written(
    list: Seq<AttributeView>,
    specs: Seq<InjectSpecView>,
    pairs: Seq<(Seq<char>, Seq<char>)>,
    embeds: Seq<EmbedView>,
    from: int,
    out: Seq<AttributeView>,
)
    requires
        0 <= from <= list.len(),
        out.len() == from,
        forall|i: int|
            0 <= i < from ==> is_stamp_of(#[trigger] out[i], list[i], specs, pairs, embeds),
    ensures
        inject::stamp_from(list, specs, pairs, embeds, from, out) matches Ok(all) ==> all.len()
            == list.len() && forall|i: int|
            0 <= i < list.len() ==> is_stamp_of(#[trigger] all[i], list[i], specs, pairs, embeds),
    decreases list.len() - from,
{
    if from < list.len() {
        let attr = list[from];
        if !(attr.form is Bare) {
            assert(is_stamp_of(attr, attr, specs, pairs, embeds));
            stamps_are_written(list, specs, pairs, embeds, from + 1, out.push(attr));
        } else {
            assert(is_stamp_of(attr, attr, specs.take(0), pairs, embeds));
            stamp_is_written(attr, attr, specs, pairs, embeds, 0);
            if let Ok(a) = inject::stamped_from(attr, specs, pairs, embeds, 0) {
                stamps_are_written(list, specs, pairs, embeds, from + 1, out.push(a));
            }
        }
    }
}

// ── Gate passes ────────────────────────────────────────────────────────

/// A gate pass puts on a fn every wrap it is not spared, injects what the gates on
/// it then call for, and changes nothing else: each parameter that is added is
/// the one its account calls for, in the names of the fn, and each attribute is a
/// wrap's or was authored, but for the locations stamped on bare gates where they
/// are written.
pub proof fn a_gate_pass_wraps_injects_and_stamps(
    func: ItemFnView,
    wraps: Seq<ActiveWrapView>,
    specs: Seq<InjectSpecView>,
    embeds: Seq<EmbedView>,
    locations: GateLocations,
    qualified: Option<Seq<char>>,
    f: ItemFnView,
    names: Seq<Seq<char>>,
)
    requires
        markers_stand_apart(wraps),
        inject::gated(func, wraps, specs, embeds, locations, qualified) == Ok::<
            (ItemFnView, Seq<Seq<char>>),
            Seq<char>,
        >((f, names)),
    ensures
        ({
            let start = inject::gate_start(func, specs, qualified);
            let pairs = inject::remap_of(specs, start);
            let k = wraps_before(wraps, wraps.len() as int, start, specs, qualified) as int;
            &&& qualified is None ==> start == func
            &&& start.attrs == func.attrs
            &&& f.name == func.name
            &&& f.inputs.len() == start.inputs.len() + names.len()
            &&& exists|all: Seq<AttributeView>| #[trigger]
                is_gated_by(all, f, start, wraps, specs, embeds, locations, qualified, pairs)
                    && forall|i: int|
                    0 <= i < names.len() ==> is_injected_for(
                        f.inputs[injection_laws::front(start.inputs) + i],
                        #[trigger] names[i],
                        specs,
                        all,
                        pairs,
                    )
        }),
{
    let start = inject::gate_start(func, specs, qualified);
    let pairs = inject::remap_of(specs, start);
    let all = inject::wrapped_from(
        wraps,
        specs,
        embeds,
        locations,
        qualified,
        attrs::named_params(start.inputs),
        pairs,
        0,
        start.attrs,
    )->Ok_0;
    wraps_stand_on_every_fn_they_do_not_spare(
        wraps,
        start,
        specs,
        embeds,
        locations,
        qualified,
        pairs,
        all,
    );
    let wrapped = ItemFnView { attrs: all, ..start };
    injection_laws::injected_params_say_what_is_declared(wrapped, specs, pairs);
    gate_laws::injection_only_adds(wrapped, specs, pairs);
    let (g, same) = inject::injected(wrapped, specs, pairs)->Ok_0;
    stamps_are_written(all, specs, pairs, embeds, 0, Seq::empty());
    assert(same == names && g.inputs == f.inputs && g.attrs == all);
    assert(is_gated_by(all, f, start, wraps, specs, embeds, locations, qualified, pairs));
    assert forall|i: int| 0 <= i < names.len() implies is_injected_for(
        f.inputs[injection_laws::front(start.inputs) + i],
        #[trigger] names[i],
        specs,
        all,
        pairs,
    ) by {
        let acc = choose|acc: InjectAccountView|
            names[i] == acc.name && #[trigger] injection_laws::is_called_for(acc, specs, all)
                && injection_laws::is_param_of(
                g.inputs[injection_laws::front(start.inputs) + i],
                acc,
                pairs,
            );
        assert(injection_laws::is_called_for(acc, specs, all));
    }
}

/// Whether a parameter is that of an account called `name` that gates call for.
pub open spec fn is_injected_for(
    input: FnArgView,
    name: Seq<char>,
    specs: Seq<InjectSpecView>,
    list: Seq<AttributeView>,
    pairs: Seq<(Seq<char>, Seq<char>)>,
) -> bool {
    exists|acc: InjectAccountView| #[trigger]
        injection_laws::is_called_for(acc, specs, list) && acc.name == name
            && injection_laws::is_param_of(input, acc, pairs)
}

/// Whether `all` are the attributes of a fn with its wraps in front, and those of
/// `f` are these, stamped where locations are written.
pub open spec fn is_gated_by(
    all: Seq<AttributeView>,
    f: ItemFnView,
    start: ItemFnView,
    wraps: Seq<ActiveWrapView>,
    specs: Seq<InjectSpecView>,
    embeds: Seq<EmbedView>,
    locations: GateLocations,
    qualified: Option<Seq<char>>,
    pairs: Seq<(Seq<char>, Seq<char>)>,
) -> bool {
    let k = wraps_before(wraps, wraps.len() as int, start, specs, qualified) as int;
    &&& all.len() == start.attrs.len() + k
    &&& all.skip(k) == start.attrs
    &&& forall|w: int|
        0 <= w < wraps.len() && !is_spared(#[trigger] wraps[w], start, specs, qualified) ==> {
            let at = k - 1 - wraps_before(wraps, w, start, specs, qualified);
            0 <= at < k && is_gate_of(all[at], wraps[w], specs, pairs, embeds, locations)
        }
    &&& match locations {
        GateLocations::Omit => f.attrs == all,
        GateLocations::Emit => f.attrs.len() == all.len() && forall|i: int|
            0 <= i < all.len() ==> is_stamp_of(
                #[trigger] f.attrs[i],
                all[i],
                specs,
                pairs,
                embeds,
            ),
    }
}

// ── Authored locations ───────────────────────────────────────────────────

/// Whether an attribute gives a location that embedding writes: an `offset`, or a
/// role of the spec that does not sign.
pub open spec fn gives_location(attr: AttributeView, spec: InjectSpecView) -> bool {
    exists|e: int| #[trigger]
        role_laws::comes_to(attr.entries(), e) && (account_laws::just(
            attr.entries()[e].path,
            "offset"@,
        ) || names_unsigned(spec.accounts, attr.entries()[e]))
}

/// Whether an entry names the role of an account that does not sign.
pub open spec fn names_unsigned(accounts: Seq<InjectAccountView>, e: EntryView) -> bool {
    exists|a: int|
        0 <= a < accounts.len() && !(#[trigger] accounts[a]).signer && account_laws::just(
            e.path,
            accounts[a].role,
        )
}

proof fn role_is_unsigned(accounts: Seq<InjectAccountView>, upto: int, e: EntryView)
    requires
        0 <= upto <= accounts.len(),
    ensures
        inject::location_role(accounts, upto, e.path) is Some <==> exists|a: int|
            0 <= a < upto && !(#[trigger] accounts[a]).signer && account_laws::just(
                e.path,
                accounts[a].role,
            ),
    decreases upto,
{
    if upto > 0 {
        role_is_unsigned(accounts, upto - 1, e);
        account_laws::paths_are_just(e.path, accounts[upto - 1].role);
        let a = upto - 1;
        assert(accounts[a] == accounts[upto - 1]);
    }
}

proof fn location_is_given(
    attr: AttributeView,
    spec: InjectSpecView,
    from: int,
    found: Option<Seq<char>>,
)
    requires
        0 <= from <= attr.entries().len(),
        forall|j: int|
            0 <= j < from && (#[trigger] attr.entries()[j]).assigned ==> attr.entries()[j].value
                is Some,
        found is Some <==> exists|e: int|
            e < from && #[trigger] role_laws::comes_to(attr.entries(), e) && (account_laws::just(
                attr.entries()[e].path,
                "offset"@,
            ) || names_unsigned(spec.accounts, attr.entries()[e])),
    ensures
        inject::location_kwarg(attr.entries(), spec.accounts, from, found) is Some
            <==> gives_location(attr, spec),
    decreases attr.entries().len() - from,
{
    let entries = attr.entries();
    if from < entries.len() {
        let e = entries[from];
        account_laws::paths_are_just(e.path, "offset"@);
        role_is_unsigned(spec.accounts, spec.accounts.len() as int, e);
        let here = if e.path.is("offset"@) {
            Some("offset"@)
        } else {
            match inject::location_role(spec.accounts, spec.accounts.len() as int, e.path) {
                Some(role) => Some(role),
                None => found,
            }
        };
        assert(role_laws::comes_to(entries, from));
        let own = account_laws::just(e.path, "offset"@) || names_unsigned(spec.accounts, e);
        assert(here is Some <==> (found is Some || own));
        if here is Some {
            if own {
                assert(role_laws::comes_to(entries, from));
            } else {
                let k = choose|k: int|
                    k < from && #[trigger] role_laws::comes_to(entries, k) && (account_laws::just(
                        entries[k].path,
                        "offset"@,
                    ) || names_unsigned(spec.accounts, entries[k]));
                assert(role_laws::comes_to(entries, k) && k < from + 1);
            }
        }
        if e.assigned && e.value is None {
            if gives_location(attr, spec) {
                let k = choose|k: int| #[trigger]
                    role_laws::comes_to(entries, k) && (account_laws::just(
                        entries[k].path,
                        "offset"@,
                    ) || names_unsigned(spec.accounts, entries[k]));
                if k > from {
                    assert(entries[from].assigned);
                }
            }
        } else {
            location_is_given(attr, spec, from + 1, here);
        }
    } else {
        if gives_location(attr, spec) {
            let k = choose|k: int| #[trigger]
                role_laws::comes_to(entries, k) && (account_laws::just(
                    entries[k].path,
                    "offset"@,
                ) || names_unsigned(spec.accounts, entries[k]));
            assert(k < from);
        }
    }
}

/// Whether an attribute with arguments gives a location that some embedded
/// extension's gate has from the module.
pub open spec fn is_misplaced(
    attr: AttributeView,
    specs: Seq<InjectSpecView>,
    embeds: Seq<EmbedView>,
) -> bool {
    attr.form is List && exists|s: int|
        0 <= s < specs.len() && is_stamped_by(attr, #[trigger] specs[s], embeds) && gives_location(
            attr,
            specs[s],
        )
}

proof fn misplaced_on(
    attr: AttributeView,
    func: Seq<char>,
    specs: Seq<InjectSpecView>,
    embeds: Seq<EmbedView>,
    from: int,
)
    requires
        0 <= from <= specs.len(),
    ensures
        inject::authored_on(attr, func, specs, embeds, from) is Err <==> exists|s: int|
            from <= s < specs.len() && is_stamped_by(attr, #[trigger] specs[s], embeds)
                && gives_location(attr, specs[s]),
    decreases specs.len() - from,
{
    if from < specs.len() {
        embed_offset_is_last(embeds, specs[from].source);
        assert(!(exists|e: int|
            e < 0 && #[trigger] role_laws::comes_to(attr.entries(), e) && (account_laws::just(
                attr.entries()[e].path,
                "offset"@,
            ) || names_unsigned(specs[from].accounts, attr.entries()[e]))));
        location_is_given(attr, specs[from], 0, None);
        misplaced_on(attr, func, specs, embeds, from + 1);
    }
}

proof fn misplaced_from(
    list: Seq<AttributeView>,
    func: Seq<char>,
    specs: Seq<InjectSpecView>,
    embeds: Seq<EmbedView>,
    from: int,
)
    requires
        0 <= from <= list.len(),
    ensures
        inject::authored_from(list, func, specs, embeds, from) is Err <==> exists|i: int|
            from <= i < list.len() && is_misplaced(#[trigger] list[i], specs, embeds),
    decreases list.len() - from,
{
    if from < list.len() {
        misplaced_on(list[from], func, specs, embeds, 0);
        misplaced_from(list, func, specs, embeds, from + 1);
    }
}

/// A location is written in one place: a fn is refused exactly where a gate of an
/// embedded extension is authored with an offset, or with a role that does not
/// sign.
pub proof fn authored_locations_are_refused(
    list: Seq<AttributeView>,
    func: Seq<char>,
    specs: Seq<InjectSpecView>,
    embeds: Seq<EmbedView>,
)
    ensures
        inject::authored_from(list, func, specs, embeds, 0) is Err <==> exists|i: int|
            0 <= i < list.len() && is_misplaced(#[trigger] list[i], specs, embeds),
{
    misplaced_from(list, func, specs, embeds, 0);
}

} // verus!
