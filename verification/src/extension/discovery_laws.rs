//! What holds of discovery and preparation on every input.
use crate::attrs;
use crate::dep_laws;
use crate::dep_walk;
use crate::dep_walk::DepGraphView;
use crate::disk::DiskView;
use crate::extension;
use crate::extension::discovery;
use crate::extension::discovery::MatchedExtensionView;
use crate::extension::gate_laws;
use crate::extension::inject;
use crate::extension::inject::GateLocations;
use crate::extension::marker;
use crate::extension::marker::{BoundValueView, EmbedDeclView, MarkerArgsView, MarkerReadingView};
use crate::extension::metadata;
use crate::extension::metadata::BoundArgView;
use crate::extension::slots;
use crate::extension::{CarriersView, EmbedView, ExtensionDiscoveriesView, ProgramDepsView};
use crate::path::DirPathView;
use crate::scan;
use crate::syntax::{AttributeView, FnArgView, ItemFnView, ItemView, MetaView, PathView};
use crate::value::ValueView;
use vstd::prelude::*;

verus! {

// ── Order and origin ─────────────────────────────────────────────────────

/// Whether contributions stand in the order of their markers on the module.
pub open spec fn in_marker_order(list: Seq<MatchedExtensionView>) -> bool {
    forall|i: int, j: int|
        0 <= i < j < list.len() ==> (#[trigger] list[i]).marker_pos <= (#[trigger] list[j]).marker_pos
}

/// Whether every contribution is that of one of the crates at `dirs`.
pub open spec fn contributed_by(
    disk: DiskView,
    dirs: Seq<DirPathView>,
    mod_attrs: Seq<AttributeView>,
    mod_items: Seq<ItemView>,
    list: Seq<MatchedExtensionView>,
) -> bool {
    forall|i: int|
        0 <= i < list.len() ==> exists|d: int|
            0 <= d < dirs.len() && discovery::matched_in(
                disk,
                #[trigger] dirs[d],
                mod_attrs,
                mod_items,
            ).0 == Ok::<Option<MatchedExtensionView>, Seq<char>>(Some(#[trigger] list[i]))
}

proof fn placed_holds(list: Seq<MatchedExtensionView>, m: MatchedExtensionView)
    requires
        in_marker_order(list),
    ensures
        in_marker_order(discovery::placed(list, m)),
        discovery::placed(list, m).len() == list.len() + 1,
        forall|i: int|
            0 <= i < list.len() + 1 ==> (#[trigger] discovery::placed(list, m)[i]) == m
                || list.contains(discovery::placed(list, m)[i]),
    decreases list.len(),
{
    let out = discovery::placed(list, m);
    if list.len() == 0 || list.last().marker_pos <= m.marker_pos {
        assert forall|i: int| 0 <= i < list.len() + 1 implies (#[trigger] out[i]) == m
            || list.contains(out[i]) by {
            if i < list.len() {
                assert(list[i] == out[i]);
            }
        }
        assert forall|i: int, j: int| 0 <= i < j < out.len() implies (#[trigger] out[i]).marker_pos
            <= (#[trigger] out[j]).marker_pos by {
            if j == list.len() {
                assert(list[i].marker_pos <= list[list.len() - 1].marker_pos);
            } else {
                assert(list[i].marker_pos <= list[j].marker_pos);
            }
        }
    } else {
        let init = list.drop_last();
        placed_holds(init, m);
        let inner = discovery::placed(init, m);
        assert forall|i: int| 0 <= i < list.len() + 1 implies (#[trigger] out[i]) == m
            || list.contains(out[i]) by {
            if i < list.len() {
                if inner[i] != m {
                    let k = choose|k: int| 0 <= k < init.len() && init[k] == inner[i];
                    assert(list[k] == out[i]);
                }
            } else {
                assert(list[list.len() - 1] == out[i]);
            }
        }
        assert forall|i: int, j: int| 0 <= i < j < out.len() implies (#[trigger] out[i]).marker_pos
            <= (#[trigger] out[j]).marker_pos by {
            if j == list.len() {
                if inner[i] != m {
                    let k = choose|k: int| 0 <= k < init.len() && init[k] == inner[i];
                    assert(list[k].marker_pos <= list[list.len() - 1].marker_pos);
                }
            } else {
                assert(inner[i].marker_pos <= inner[j].marker_pos);
            }
        }
    }
}

proof fn matched_holds(
    disk: DiskView,
    dirs: Seq<DirPathView>,
    mod_attrs: Seq<AttributeView>,
    mod_items: Seq<ItemView>,
    from: int,
    matched: Seq<MatchedExtensionView>,
    warnings: Seq<Seq<char>>,
)
    requires
        0 <= from,
        in_marker_order(matched),
        contributed_by(disk, dirs, mod_attrs, mod_items, matched),
    ensures
        discovery::matched_from(disk, dirs, mod_attrs, mod_items, from, matched, warnings).0 matches Ok(list)
            ==> in_marker_order(list) && contributed_by(disk, dirs, mod_attrs, mod_items, list),
    decreases dirs.len() - from,
{
    if from < dirs.len() {
        let (r, ws) = discovery::matched_in(disk, dirs[from], mod_attrs, mod_items);
        match r {
            Err(_) => {},
            Ok(None) => {
                matched_holds(disk, dirs, mod_attrs, mod_items, from + 1, matched, warnings + ws);
            },
            Ok(Some(m)) => {
                placed_holds(matched, m);
                let next = discovery::placed(matched, m);
                assert forall|i: int| 0 <= i < next.len() implies exists|d: int|
                    0 <= d < dirs.len() && discovery::matched_in(
                        disk,
                        #[trigger] dirs[d],
                        mod_attrs,
                        mod_items,
                    ).0 == Ok::<Option<MatchedExtensionView>, Seq<char>>(
                        Some(#[trigger] next[i]),
                    ) by {
                    if next[i] == m {
                        assert(discovery::matched_in(disk, dirs[from], mod_attrs, mod_items).0
                            == Ok::<Option<MatchedExtensionView>, Seq<char>>(Some(next[i])));
                    } else {
                        let k = choose|k: int| 0 <= k < matched.len() && matched[k] == next[i];
                        assert(matched[k] == next[i]);
                    }
                }
                matched_holds(disk, dirs, mod_attrs, mod_items, from + 1, next, warnings + ws);
            },
        }
    }
}

/// Contributions come in the order of their markers on the module, whatever the
/// order of the dependencies, and each is that of one of the crates given.
pub proof fn contributions_follow_the_markers(
    disk: DiskView,
    dirs: Seq<DirPathView>,
    mod_attrs: Seq<AttributeView>,
    mod_items: Seq<ItemView>,
)
    ensures
        discovery::matched_from(
            disk,
            dirs,
            mod_attrs,
            mod_items,
            0,
            Seq::empty(),
            Seq::empty(),
        ).0 matches Ok(list) ==> {
            &&& in_marker_order(list)
            &&& contributed_by(disk, dirs, mod_attrs, mod_items, list)
            &&& discovery::discovered(disk, dirs, mod_attrs, mod_items).0 == Ok::<
                ExtensionDiscoveriesView,
                Seq<char>,
            >(discovery::flattened(list))
        },
{
    matched_holds(disk, dirs, mod_attrs, mod_items, 0, Seq::empty(), Seq::empty());
}

proof fn first_named_at(list: Seq<AttributeView>, name: Seq<char>, from: int)
    requires
        0 <= from,
    ensures
        attrs::first_named(list, name, from) matches Some(i) ==> from <= i < list.len()
            && list[i].path.is(name),
    decreases list.len() - from,
{
    if from < list.len() && !list[from].path.is(name) {
        first_named_at(list, name, from + 1);
    }
}

/// A crate contributes by consent of both sides: its manifest declares the
/// marker and the module carries it, not above `#[lez_program]`. Its fns are
/// called by the path of the package that declares them.
pub proof fn contribution_needs_both_sides(
    disk: DiskView,
    dir: DirPathView,
    mod_attrs: Seq<AttributeView>,
    mod_items: Seq<ItemView>,
)
    requires
        mod_attrs.len() <= usize::MAX,
    ensures
        discovery::matched_in(disk, dir, mod_attrs, mod_items).0 matches Ok(Some(m)) ==> {
            &&& metadata::manifest_value(disk, dir) matches Some(manifest)
            &&& metadata::extension_attr(manifest, dir) == Ok::<Option<Seq<char>>, Seq<char>>(
                Some(m.marker),
            )
            &&& m.marker_pos < mod_attrs.len()
            &&& mod_attrs[m.marker_pos as int].path.is(m.marker)
            &&& !discovery::above_program(mod_attrs, m.marker_pos as int)
            &&& metadata::package_ident(manifest) matches Some(name)
            &&& forall|i: int|
                0 <= i < m.instructions.len() ==> (#[trigger] m.instructions[i]).1
                    == discovery::crate_path_of(name)
            &&& forall|i: int|
                0 <= i < m.inject_specs.len() ==> (#[trigger] m.inject_specs[i]).source == name
            &&& forall|i: int| 0 <= i < m.embeds.len() ==> (#[trigger] m.embeds[i]).source == name
        },
{
    if let Some(manifest) = metadata::manifest_value(disk, dir) {
        if let Ok(Some(ext)) = metadata::extension_attr(manifest, dir) {
            first_named_at(mod_attrs, ext, 0);
        }
    }
}

/// Transitive dependencies are never discovered: two graphs with the same direct
/// dependencies, and the same word on whether they are complete, give the same
/// extensions, the same refusal and the same warnings.
pub proof fn transitive_dirs_contribute_nothing(
    disk: DiskView,
    a: DepGraphView,
    b: DepGraphView,
    mod_attrs: Seq<AttributeView>,
    mod_items: Seq<ItemView>,
)
    requires
        a.direct_dirs == b.direct_dirs,
        a.metadata_failure == b.metadata_failure,
    ensures
        extension::program_deps(disk, a, mod_attrs, mod_items).1 == extension::program_deps(
            disk,
            b,
            mod_attrs,
            mod_items,
        ).1,
        match (
            extension::program_deps(disk, a, mod_attrs, mod_items).0,
            extension::program_deps(disk, b, mod_attrs, mod_items).0,
        ) {
            (Ok(x), Ok(y)) => x.extensions == y.extensions,
            (Err(x), Err(y)) => x == y,
            _ => false,
        },
{
}

proof fn unmatched_is_what_is_missing(names: Seq<Seq<char>>, matched: Seq<Seq<char>>)
    ensures
        extension::unmatched(names, matched).len() == 0 <==> forall|i: int|
            0 <= i < names.len() ==> matched.contains(#[trigger] names[i]),
    decreases names.len(),
{
    if names.len() > 0 {
        let init = names.drop_last();
        unmatched_is_what_is_missing(init, matched);
        if matched.contains(names.last()) {
            if extension::unmatched(init, matched).len() == 0 {
                assert forall|i: int| 0 <= i < names.len() implies matched.contains(
                    #[trigger] names[i],
                ) by {
                    if i < init.len() {
                        assert(matched.contains(init[i]));
                    }
                }
            } else if forall|i: int| 0 <= i < names.len() ==> matched.contains(#[trigger] names[i]) {
                assert forall|i: int| 0 <= i < init.len() implies matched.contains(
                    #[trigger] init[i],
                ) by {
                    assert(matched.contains(names[i]));
                }
            }
        } else {
            assert(!matched.contains(names[names.len() - 1]));
        }
    }
}

/// A program is never compiled with a marker left over: where extensions were
/// discovered, it is accepted exactly when each name that could be a marker is
/// the marker of a discovered extension. A degraded resolution changes the
/// message, not the verdict.
pub proof fn every_marker_is_accounted_for(
    disk: DiskView,
    graph: DepGraphView,
    mod_attrs: Seq<AttributeView>,
    mod_items: Seq<ItemView>,
)
    ensures
        extension::has_candidates(mod_attrs) ==> (discovery::discovered(
            disk,
            graph.direct_dirs,
            mod_attrs,
            mod_items,
        ).0 matches Ok(found) ==> {
            let names = marker::candidates(mod_attrs);
            extension::program_deps(disk, graph, mod_attrs, mod_items).0 is Ok <==> forall|i: int|
                0 <= i < names.len() ==> found.matched_markers.contains(#[trigger] names[i])
        }),
        extension::has_candidates(mod_attrs) ==> (discovery::discovered(
            disk,
            graph.direct_dirs,
            mod_attrs,
            mod_items,
        ).0 is Err ==> extension::program_deps(disk, graph, mod_attrs, mod_items).0 is Err),
        extension::program_deps(disk, graph, mod_attrs, mod_items).0 matches Ok(deps) ==> deps.graph
            == graph,
{
    if let Ok(found) = discovery::discovered(disk, graph.direct_dirs, mod_attrs, mod_items).0 {
        unmatched_is_what_is_missing(marker::candidates(mod_attrs), found.matched_markers);
    }
}

// ── Instruction names ────────────────────────────────────────────────────

proof fn first_seen_is_first(list: Seq<(Seq<char>, Seq<char>)>, name: Seq<char>, from: int)
    requires
        0 <= from <= list.len(),
    ensures
        from <= extension::first_seen(list, name, from) <= list.len(),
        extension::first_seen(list, name, from) < list.len() ==> list[extension::first_seen(
            list,
            name,
            from,
        )].0 == name,
        forall|i: int|
            from <= i < extension::first_seen(list, name, from) ==> (#[trigger] list[i]).0 != name,
    decreases list.len() - from,
{
    if from < list.len() && list[from].0 != name {
        first_seen_is_first(list, name, from + 1);
    }
}

proof fn unique_step(list: Seq<(Seq<char>, Seq<char>)>, from: int)
    requires
        0 <= from <= list.len(),
    ensures
        extension::unique_from(list, from) is Ok <==> forall|i: int, j: int|
            0 <= i < j < list.len() && from <= j ==> (#[trigger] list[i]).0 != (
            #[trigger] list[j]).0,
    decreases list.len() - from,
{
    if from < list.len() {
        first_seen_is_first(list, list[from].0, 0);
        unique_step(list, from + 1);
        let first = extension::first_seen(list, list[from].0, 0);
        if first < from {
            assert(list[first].0 == list[from].0);
        } else if extension::unique_from(list, from + 1) is Ok {
            assert forall|i: int, j: int| 0 <= i < j < list.len() && from <= j implies (
            #[trigger] list[i]).0 != (#[trigger] list[j]).0 by {}
        }
    }
}

/// Instructions are accepted together exactly when their names are pairwise
/// distinct, whichever crates they come from.
pub proof fn accepted_names_are_distinct(list: Seq<(Seq<char>, Seq<char>)>)
    ensures
        extension::unique_from(list, 0) is Ok <==> forall|i: int, j: int|
            0 <= i < j < list.len() ==> (#[trigger] list[i]).0 != (#[trigger] list[j]).0,
{
    unique_step(list, 0);
}

/// A module without a candidate marker skips `cargo metadata` and discovery: no
/// question about it is one for cargo, and nothing is discovered.
pub proof fn markerless_modules_skip_discovery(
    disk: DiskView,
    start: DirPathView,
    mod_attrs: Seq<AttributeView>,
    mod_items: Seq<ItemView>,
)
    requires
        !extension::has_candidates(mod_attrs),
    ensures
        !dep_laws::asks_cargo(extension::resolved_question(disk, start, mod_attrs, mod_items)),
        extension::resolved_deps(disk, start, mod_attrs, mod_items) == (
            Ok::<ProgramDepsView, Seq<char>>(
                ProgramDepsView {
                    graph: dep_walk::dep_graph(disk, start, false).0,
                    extensions: discovery::nothing_discovered(),
                },
            ),
            dep_walk::dep_graph(disk, start, false).1,
        ),
{
    dep_laws::cargo_is_asked_on_request_only(disk, start, false);
    let ws = dep_walk::dep_graph(disk, start, false).1;
    assert(ws + Seq::<Seq<char>>::empty() =~= ws);
}

// ── Bound arguments ──────────────────────────────────────────────────────

/// A default never stands in for a declared embed: the value of a bound argument
/// is that of the embed wherever there is one, derived offsets included.
pub proof fn declared_embed_beats_default(
    bound: BoundArgView,
    embed: EmbedDeclView,
    mod_attrs: Seq<AttributeView>,
    crate_name: Seq<char>,
)
    ensures
        crate::text::split_first(bound.from) is None ==> discovery::bound_value(
            bound,
            Some(embed),
            mod_attrs,
            crate_name,
        ) == Ok::<BoundValueView, Seq<char>>(discovery::embed_value(embed)),
        forall|own: Option<EmbedDeclView>|
            crate::text::split_first(bound.from) matches Some((name, _)) && discovery::first_args(
                mod_attrs,
                name,
            ) matches Ok(Some(args)) && args.embed == Some(embed)
                ==> #[trigger] discovery::bound_value(bound, own, mod_attrs, crate_name) == Ok::<
                BoundValueView,
                Seq<char>,
            >(discovery::embed_value(embed)),
        embed.offset is Derived ==> discovery::embed_value(embed) is Derived,
{
}

proof fn param_at_is_first(inputs: Seq<FnArgView>, name: Seq<char>, from: int)
    requires
        0 <= from,
    ensures
        discovery::param_at(inputs, name, from) matches Some(i) ==> from <= i < inputs.len()
            && inject::is_param(inputs[i], name) && forall|j: int|
            from <= j < i ==> !inject::is_param(#[trigger] inputs[j], name),
        discovery::param_at(inputs, name, from) is None ==> forall|j: int|
            from <= j < inputs.len() ==> !inject::is_param(#[trigger] inputs[j], name),
    decreases inputs.len() - from,
{
    if from < inputs.len() && !inject::is_param(inputs[from], name) {
        param_at_is_first(inputs, name, from + 1);
    }
}

/// Whether the first `at` bound args were looked up: each is absent, or its
/// first position is among those found, and every position found is one.
spec fn looked_up(
    inputs: Seq<FnArgView>,
    bounds: Seq<BoundArgView>,
    at: int,
    found: Seq<int>,
) -> bool {
    &&& forall|j: int|
        0 <= j < at && j < bounds.len() ==> match discovery::param_at(
            inputs,
            (#[trigger] bounds[j]).arg,
            0,
        ) {
            Some(pos) => found.contains(pos),
            None => true,
        }
    &&& forall|i: int|
        0 <= i < found.len() ==> exists|j: int|
            0 <= j < at && j < bounds.len() && discovery::param_at(
                inputs,
                (#[trigger] bounds[j]).arg,
                0,
            ) == Some(#[trigger] found[i])
}

proof fn bound_in_looks_up(
    inputs: Seq<FnArgView>,
    bounds: Seq<BoundArgView>,
    own: Option<EmbedDeclView>,
    mod_attrs: Seq<AttributeView>,
    crate_name: Seq<char>,
    at: int,
    found: Seq<int>,
    values: Seq<BoundValueView>,
)
    requires
        0 <= at <= bounds.len(),
        looked_up(inputs, bounds, at, found),
        found.len() == values.len(),
    ensures
        discovery::bound_in(inputs, bounds, own, mod_attrs, crate_name, at, found, values) matches Ok((f, v))
            ==> f.len() == v.len() && looked_up(inputs, bounds, bounds.len() as int, f),
    decreases bounds.len() - at,
{
    if at < bounds.len() {
        match discovery::param_at(inputs, bounds[at].arg, 0) {
            None => {
                assert(looked_up(inputs, bounds, at + 1, found)) by {
                    assert forall|i: int| 0 <= i < found.len() implies exists|j: int|
                        0 <= j < at + 1 && j < bounds.len() && discovery::param_at(
                            inputs,
                            (#[trigger] bounds[j]).arg,
                            0,
                        ) == Some(#[trigger] found[i]) by {
                        let j = choose|j: int|
                            0 <= j < at && j < bounds.len() && discovery::param_at(
                                inputs,
                                (#[trigger] bounds[j]).arg,
                                0,
                            ) == Some(found[i]);
                        assert(discovery::param_at(inputs, bounds[j].arg, 0) == Some(found[i]));
                    }
                }
                bound_in_looks_up(
                    inputs,
                    bounds,
                    own,
                    mod_attrs,
                    crate_name,
                    at + 1,
                    found,
                    values,
                );
            },
            Some(pos) => {
                let next = found.push(pos);
                assert(next[found.len() as int] == pos);
                assert(looked_up(inputs, bounds, at + 1, next)) by {
                    assert forall|j: int| 0 <= j < at + 1 && j < bounds.len() implies match
                        discovery::param_at(inputs, (#[trigger] bounds[j]).arg, 0) {
                        Some(p) => next.contains(p),
                        None => true,
                    } by {
                        if j < at {
                            if let Some(p) = discovery::param_at(inputs, bounds[j].arg, 0) {
                                assert(found.contains(p));
                                let k = choose|k: int| 0 <= k < found.len() && found[k] == p;
                                assert(next[k] == p);
                            }
                        }
                    }
                    assert forall|i: int| 0 <= i < next.len() implies exists|j: int|
                        0 <= j < at + 1 && j < bounds.len() && discovery::param_at(
                            inputs,
                            (#[trigger] bounds[j]).arg,
                            0,
                        ) == Some(#[trigger] next[i]) by {
                        if i < found.len() {
                            let j = choose|j: int|
                                0 <= j < at && j < bounds.len() && discovery::param_at(
                                    inputs,
                                    (#[trigger] bounds[j]).arg,
                                    0,
                                ) == Some(found[i]);
                            assert(discovery::param_at(inputs, bounds[j].arg, 0) == Some(next[i]));
                        } else {
                            assert(discovery::param_at(inputs, bounds[at].arg, 0) == Some(next[i]));
                        }
                    }
                }
                if let Ok(v) = discovery::bound_value(bounds[at], own, mod_attrs, crate_name) {
                    bound_in_looks_up(
                        inputs,
                        bounds,
                        own,
                        mod_attrs,
                        crate_name,
                        at + 1,
                        next,
                        values.push(v),
                    );
                }
            },
        }
    }
}

/// Stripping takes exactly the bound arguments: what stays is a prefix of the
/// inputs without any bound one, what goes is one bound argument per value, and
/// nothing else of the fn changes.
pub proof fn stripping_takes_the_bound_params(
    f: ItemFnView,
    bounds: Seq<BoundArgView>,
    own: Option<EmbedDeclView>,
    mod_attrs: Seq<AttributeView>,
    crate_name: Seq<char>,
)
    ensures
        discovery::stripped(f, bounds, own, mod_attrs, crate_name) matches Ok((g, values)) ==> {
            &&& g.attrs == f.attrs
            &&& g.name == f.name
            &&& g.inputs.len() + values.len() == f.inputs.len()
            &&& g.inputs == f.inputs.take(g.inputs.len() as int)
            &&& forall|j: int|
                0 <= j < bounds.len() ==> !inject::has_param(g.inputs, (#[trigger] bounds[j]).arg)
            &&& forall|i: int|
                g.inputs.len() <= i < f.inputs.len() ==> exists|j: int|
                    0 <= j < bounds.len() && inject::is_param(
                        #[trigger] f.inputs[i],
                        (#[trigger] bounds[j]).arg,
                    )
        },
{
    bound_in_looks_up(
        f.inputs,
        bounds,
        own,
        mod_attrs,
        crate_name,
        0,
        Seq::empty(),
        Seq::empty(),
    );
    if let Ok((found, values)) = discovery::bound_in(
        f.inputs,
        bounds,
        own,
        mod_attrs,
        crate_name,
        0,
        Seq::empty(),
        Seq::empty(),
    ) {
        let n = f.inputs.len() as int;
        let k = found.len() as int;
        if discovery::trailing(found, n) {
            if k > 0 {
                assert(found[0] == n - k);
                let j = choose|j: int|
                    0 <= j < bounds.len() && discovery::param_at(
                        f.inputs,
                        (#[trigger] bounds[j]).arg,
                        0,
                    ) == Some(found[0]);
                param_at_is_first(f.inputs, bounds[j].arg, 0);
            }
            let kept = f.inputs.take(n - k);
            assert forall|j: int| 0 <= j < bounds.len() implies !inject::has_param(
                kept,
                (#[trigger] bounds[j]).arg,
            ) by {
                param_at_is_first(f.inputs, bounds[j].arg, 0);
                if inject::has_param(kept, bounds[j].arg) {
                    let p = choose|p: int|
                        0 <= p < kept.len() && inject::is_param(#[trigger] kept[p], bounds[j].arg);
                    assert(inject::is_param(f.inputs[p], bounds[j].arg));
                    let pos = discovery::param_at(f.inputs, bounds[j].arg, 0)->Some_0;
                    assert(found.contains(pos));
                    let i = choose|i: int| 0 <= i < found.len() && found[i] == pos;
                    assert(found[i] == n - k + i);
                }
            }
            assert forall|i: int| n - k <= i < n implies exists|j: int|
                0 <= j < bounds.len() && inject::is_param(
                    #[trigger] f.inputs[i],
                    (#[trigger] bounds[j]).arg,
                ) by {
                let at = i - (n - k);
                assert(found[at] == i);
                let j = choose|j: int|
                    0 <= j < bounds.len() && discovery::param_at(
                        f.inputs,
                        (#[trigger] bounds[j]).arg,
                        0,
                    ) == Some(found[at]);
                param_at_is_first(f.inputs, bounds[j].arg, 0);
                assert(inject::is_param(f.inputs[i], bounds[j].arg));
            }
        }
    }
}

/// Whether no fn name stands twice among bound calls.
pub open spec fn bound_once(calls: Seq<(Seq<char>, Seq<BoundValueView>)>) -> bool {
    forall|i: int, j: int|
        0 <= i < j < calls.len() ==> (#[trigger] calls[i]).0 != (#[trigger] calls[j]).0
}

proof fn with_call_once(
    calls: Seq<(Seq<char>, Seq<BoundValueView>)>,
    name: Seq<char>,
    values: Seq<BoundValueView>,
)
    requires
        bound_once(calls),
    ensures
        bound_once(discovery::with_call(calls, name, values)),
        forall|i: int|
            0 <= i < discovery::with_call(calls, name, values).len() ==> (
            #[trigger] discovery::with_call(calls, name, values)[i]).0 == name || exists|j: int|
                0 <= j < calls.len() && (#[trigger] calls[j]).0 == discovery::with_call(
                    calls,
                    name,
                    values,
                )[i].0,
    decreases calls.len(),
{
    let now = discovery::with_call(calls, name, values);
    if calls.len() > 0 {
        let rest = calls.skip(1);
        assert forall|i: int, j: int| 0 <= i < j < rest.len() implies (#[trigger] rest[i]).0 != (
        #[trigger] rest[j]).0 by {
            assert(calls[i + 1].0 != calls[j + 1].0);
        }
        with_call_once(rest, name, values);
        let tail = if calls[0].0 == name {
            rest
        } else {
            discovery::with_call(rest, name, values)
        };
        assert forall|i: int| 0 <= i < now.len() implies (#[trigger] now[i]).0 == name || exists|
            j: int,
        |
            0 <= j < calls.len() && (#[trigger] calls[j]).0 == now[i].0 by {
            if i == 0 {
                assert(calls[0].0 == now[0].0);
            } else {
                assert(now[i] == tail[i - 1]);
                if calls[0].0 == name {
                    assert(calls[i].0 == now[i].0);
                } else if tail[i - 1].0 != name {
                    let j = choose|j: int|
                        0 <= j < rest.len() && (#[trigger] rest[j]).0 == tail[i - 1].0;
                    assert(calls[j + 1].0 == now[i].0);
                }
            }
        }
        assert forall|i: int, j: int| 0 <= i < j < now.len() implies (#[trigger] now[i]).0 != (
        #[trigger] now[j]).0 by {
            assert(now[j] == tail[j - 1]);
            if i > 0 {
                assert(now[i] == tail[i - 1]);
            } else if calls[0].0 == name {
                assert(calls[0].0 != calls[j].0);
            } else if tail[j - 1].0 != name {
                let k = choose|k: int|
                    0 <= k < rest.len() && (#[trigger] rest[k]).0 == tail[j - 1].0;
                assert(calls[0].0 != calls[k + 1].0);
            }
        }
    }
}

proof fn with_calls_once(
    calls: Seq<(Seq<char>, Seq<BoundValueView>)>,
    more: Seq<(Seq<char>, Seq<BoundValueView>)>,
    from: int,
)
    requires
        0 <= from,
        bound_once(calls),
    ensures
        bound_once(discovery::with_calls(calls, more, from)),
    decreases more.len() - from,
{
    if from < more.len() {
        with_call_once(calls, more[from].0, more[from].1);
        with_calls_once(
            discovery::with_call(calls, more[from].0, more[from].1),
            more,
            from + 1,
        );
    }
}

proof fn flattened_once(matched: Seq<MatchedExtensionView>)
    ensures
        bound_once(discovery::flattened(matched).bound_calls),
    decreases matched.len(),
{
    if matched.len() > 0 {
        flattened_once(matched.drop_last());
        with_calls_once(
            discovery::flattened(matched.drop_last()).bound_calls,
            matched.last().bound_calls,
            0,
        );
    }
}

/// What is bound to a call is found by the name of its fn: no name stands twice
/// among the bound calls of a discovery, and resolving offsets keeps it so.
pub proof fn calls_are_bound_once(
    disk: DiskView,
    dirs: Seq<DirPathView>,
    mod_attrs: Seq<AttributeView>,
    mod_items: Seq<ItemView>,
    items: Seq<ItemView>,
)
    ensures
        discovery::discovered(disk, dirs, mod_attrs, mod_items).0 matches Ok(d) ==> bound_once(
            d.bound_calls,
        ) && (slots::resolved_offsets(d, items) matches Ok(now) ==> bound_once(now.bound_calls)),
{
    if let Ok(matched) = discovery::matched_from(
        disk,
        dirs,
        mod_attrs,
        mod_items,
        0,
        Seq::empty(),
        Seq::empty(),
    ).0 {
        flattened_once(matched);
        let d = discovery::flattened(matched);
        resolution_settles_every_offset(d, items);
        if let Ok(now) = slots::resolved_offsets(d, items) {
            assert forall|i: int, j: int| 0 <= i < j < now.bound_calls.len() implies (
            #[trigger] now.bound_calls[i]).0 != (#[trigger] now.bound_calls[j]).0 by {
                assert(d.bound_calls[i].0 != d.bound_calls[j].0);
            }
        }
    }
}

// ── Marker arguments ─────────────────────────────────────────────────────

proof fn args_commute(r: MarkerReadingView, a: MetaView, b: MetaView, ext: Seq<char>)
    ensures
        marker::marker_arg(r, a, ext) matches Ok(x) ==> (marker::marker_arg(x, b, ext) matches Ok(y)
            ==> (marker::marker_arg(r, b, ext) matches Ok(z) && marker::marker_arg(z, a, ext) == Ok::<
            MarkerReadingView,
            Seq<char>,
        >(y))),
{
}

proof fn same_tail(
    a: Seq<MetaView>,
    b: Seq<MetaView>,
    from: int,
    r: MarkerReadingView,
    ext: Seq<char>,
)
    requires
        a.len() == b.len(),
        0 <= from,
        forall|i: int| from <= i < a.len() ==> (#[trigger] a[i]) == b[i],
    ensures
        marker::marker_args_from(a, from, r, ext) == marker::marker_args_from(b, from, r, ext),
    decreases a.len() - from,
{
    if from < a.len() {
        if let Ok(x) = marker::marker_arg(r, a[from], ext) {
            same_tail(a, b, from + 1, x, ext);
        }
    }
}

proof fn swap_from(metas: Seq<MetaView>, at: int, from: int, r: MarkerReadingView, ext: Seq<char>)
    requires
        0 <= from <= at,
        at + 1 < metas.len(),
    ensures
        marker::marker_args_from(metas, from, r, ext) matches Ok(x) ==> marker::marker_args_from(
            metas.update(at, metas[at + 1]).update(at + 1, metas[at]),
            from,
            r,
            ext,
        ) == Ok::<MarkerReadingView, Seq<char>>(x),
    decreases at - from,
{
    let other = metas.update(at, metas[at + 1]).update(at + 1, metas[at]);
    if from < at {
        assert(other[from] == metas[from]);
        if let Ok(x) = marker::marker_arg(r, metas[from], ext) {
            swap_from(metas, at, from + 1, x, ext);
        }
    } else {
        args_commute(r, metas[at], metas[at + 1], ext);
        if let Ok(x) = marker::marker_arg(r, metas[at], ext) {
            if let Ok(y) = marker::marker_arg(x, metas[at + 1], ext) {
                let z = marker::marker_arg(r, metas[at + 1], ext)->Ok_0;
                assert(marker::marker_args_from(metas, at + 1, x, ext)
                    == marker::marker_args_from(metas, at + 2, y, ext));
                assert(marker::marker_args_from(other, at + 1, z, ext)
                    == marker::marker_args_from(other, at + 2, y, ext));
                same_tail(metas, other, at + 2, y, ext);
            }
        }
    }
}

proof fn moved_to_front(metas: Seq<MetaView>, at: int, r: MarkerReadingView, ext: Seq<char>)
    requires
        0 <= at < metas.len(),
    ensures
        marker::marker_args_from(metas, 0, r, ext) matches Ok(x) ==> marker::marker_args_from(
            seq![metas[at]] + metas.remove(at),
            0,
            r,
            ext,
        ) == Ok::<MarkerReadingView, Seq<char>>(x),
    decreases at,
{
    if at == 0 {
        assert(seq![metas[at]] + metas.remove(at) =~= metas);
    } else {
        let swapped = metas.update(at - 1, metas[at]).update(at, metas[at - 1]);
        swap_from(metas, at - 1, 0, r, ext);
        moved_to_front(swapped, at - 1, r, ext);
        assert(swapped.remove(at - 1) =~= metas.remove(at));
    }
}

proof fn reading_shifts(metas: Seq<MetaView>, from: int, r: MarkerReadingView, ext: Seq<char>)
    requires
        0 <= from,
        0 < metas.len(),
    ensures
        marker::marker_args_from(metas, from + 1, r, ext) == marker::marker_args_from(
            metas.skip(1),
            from,
            r,
            ext,
        ),
    decreases metas.len() - from,
{
    if from + 1 < metas.len() {
        assert(metas.skip(1)[from] == metas[from + 1]);
        if let Ok(x) = marker::marker_arg(r, metas[from + 1], ext) {
            reading_shifts(metas, from + 1, x, ext);
        }
    }
}

proof fn order_is_free(
    a: Seq<MetaView>,
    b: Seq<MetaView>,
    r: MarkerReadingView,
    ext: Seq<char>,
)
    requires
        a.to_multiset() == b.to_multiset(),
    ensures
        marker::marker_args_from(a, 0, r, ext) matches Ok(x) ==> marker::marker_args_from(
            b,
            0,
            r,
            ext,
        ) == Ok::<MarkerReadingView, Seq<char>>(x),
    decreases b.len(),
{
    a.to_multiset_ensures();
    b.to_multiset_ensures();
    if b.len() > 0 {
        assert(b.contains(b[0]));
        assert(b.to_multiset().count(b[0]) > 0);
        assert(a.to_multiset().count(b[0]) > 0);
        assert(a.contains(b[0]));
        let at = choose|at: int| 0 <= at < a.len() && a[at] == b[0];
        let front = seq![a[at]] + a.remove(at);
        moved_to_front(a, at, r, ext);
        assert(front.skip(1) =~= a.remove(at));
        assert(b.skip(1) =~= b.remove(0));
        reading_shifts(b, 0, r, ext);
        if let Ok(next) = marker::marker_arg(r, b[0], ext) {
            reading_shifts(front, 0, next, ext);
            reading_shifts(b, 0, next, ext);
            order_is_free(a.remove(at), b.remove(0), next, ext);
        }
    }
}

/// The order of a marker's arguments does not matter: a marker that lists the
/// arguments of an accepted one in any other order is accepted and declares
/// the same.
pub proof fn marker_argument_order_is_free(a: AttributeView, b: AttributeView, ext: Seq<char>)
    requires
        a.path.is(ext),
        b.path.is(ext),
        marker::nested_metas(a) is Ok,
        marker::nested_metas(b) is Ok,
        marker::nested_metas(a)->Ok_0.to_multiset() == marker::nested_metas(
            b,
        )->Ok_0.to_multiset(),
        marker::marker_args(a, ext) is Ok,
    ensures
        marker::marker_args(b, ext) == marker::marker_args(a, ext),
{
    order_is_free(
        marker::nested_metas(a)->Ok_0,
        marker::nested_metas(b)->Ok_0,
        marker::nothing_read(),
        ext,
    );
}

// ── Derived offsets ──────────────────────────────────────────────────────

/// Whether `now` is `e` with its carrier bound and its offset resolved: an
/// offset that was no derivation stays, and none is left.
pub open spec fn offset_settled(e: EmbedView, now: EmbedView) -> bool {
    &&& now.source == e.source
    &&& now.state_type == e.state_type
    &&& now.decl.role == e.decl.role
    &&& now.decl.account == e.decl.account
    &&& now.decl.initializer == e.decl.initializer
    &&& !(now.decl.offset is Derived)
    &&& !(e.decl.offset is Derived) ==> now.decl.offset == e.decl.offset
    &&& e.decl.offset is Derived ==> now.decl.offset is Path
}

/// Whether the embeds of `now` are those of `before`, settled.
pub open spec fn offsets_settled(before: Seq<EmbedView>, now: Seq<EmbedView>) -> bool {
    before.len() == now.len() && forall|i: int|
        0 <= i < before.len() ==> offset_settled(before[i], #[trigger] now[i])
}

proof fn embeds_settle(
    embeds: Seq<EmbedView>,
    items: Seq<ItemView>,
    from: int,
    out: Seq<EmbedView>,
)
    requires
        0 <= from <= embeds.len(),
        offsets_settled(embeds.take(from), out),
    ensures
        slots::bound_embeds_from(embeds, items, from, out) matches Ok(done) ==> offsets_settled(
            embeds,
            done,
        ),
    decreases embeds.len() - from,
{
    if from == embeds.len() {
        assert(embeds.take(from) =~= embeds);
    } else if let Ok(e) = slots::bound_embed(embeds[from], items) {
        let next = out.push(e);
        assert forall|i: int| 0 <= i < from + 1 implies offset_settled(
            embeds.take(from + 1)[i],
            #[trigger] next[i],
        ) by {
            if i < from {
                assert(offset_settled(embeds.take(from)[i], out[i]));
            }
        }
        embeds_settle(embeds, items, from + 1, next);
    }
}

/// Whether `now` is `values` with derivations resolved.
pub open spec fn values_settled(values: Seq<BoundValueView>, now: Seq<BoundValueView>) -> bool {
    values.len() == now.len() && forall|i: int|
        0 <= i < values.len() ==> !((#[trigger] now[i]) is Derived) && (!(values[i] is Derived)
            ==> now[i] == values[i])
}

proof fn values_settle(
    values: Seq<BoundValueView>,
    embeds: Seq<EmbedView>,
    items: Seq<ItemView>,
    from: int,
    out: Seq<BoundValueView>,
)
    requires
        0 <= from <= values.len(),
        values_settled(values.take(from), out),
    ensures
        slots::resolved_values_from(values, embeds, items, from, out) matches Ok(done)
            ==> values_settled(values, done),
    decreases values.len() - from,
{
    if from == values.len() {
        assert(values.take(from) =~= values);
    } else if let Ok(v) = slots::resolved_value(values[from], embeds, items) {
        let next = out.push(v);
        assert forall|i: int| 0 <= i < from + 1 implies !((#[trigger] next[i]) is Derived) && (!(
        values.take(from + 1)[i] is Derived) ==> next[i] == values.take(from + 1)[i]) by {
            if i < from {
                assert(out[i] == next[i]);
            }
        }
        values_settle(values, embeds, items, from + 1, next);
    }
}

/// Whether the bound calls of `now` are those of `before`, settled.
pub open spec fn calls_settled(
    before: Seq<(Seq<char>, Seq<BoundValueView>)>,
    now: Seq<(Seq<char>, Seq<BoundValueView>)>,
) -> bool {
    before.len() == now.len() && forall|i: int|
        0 <= i < before.len() ==> (#[trigger] now[i]).0 == before[i].0 && values_settled(
            before[i].1,
            now[i].1,
        )
}

proof fn calls_settle(
    calls: Seq<(Seq<char>, Seq<BoundValueView>)>,
    embeds: Seq<EmbedView>,
    items: Seq<ItemView>,
    from: int,
    out: Seq<(Seq<char>, Seq<BoundValueView>)>,
)
    requires
        0 <= from <= calls.len(),
        calls_settled(calls.take(from), out),
    ensures
        slots::resolved_calls_from(calls, embeds, items, from, out) matches Ok(done)
            ==> calls_settled(calls, done),
    decreases calls.len() - from,
{
    if from == calls.len() {
        assert(calls.take(from) =~= calls);
    } else {
        values_settle(calls[from].1, embeds, items, 0, Seq::empty());
        if let Ok(v) = slots::resolved_values_from(calls[from].1, embeds, items, 0, Seq::empty()) {
            let next = out.push((calls[from].0, v));
            assert forall|i: int| 0 <= i < from + 1 implies (#[trigger] next[i]).0 == calls.take(
                from + 1,
            )[i].0 && values_settled(calls.take(from + 1)[i].1, next[i].1) by {
                if i < from {
                    assert(out[i].0 == calls.take(from)[i].0);
                }
            }
            calls_settle(calls, embeds, items, from + 1, next);
        }
    }
}

/// Resolution leaves no derivation behind, neither in an embed nor in a bound
/// value, and changes nothing that was not one.
pub proof fn resolution_settles_every_offset(
    ext: ExtensionDiscoveriesView,
    items: Seq<ItemView>,
)
    ensures
        slots::resolved_offsets(ext, items) matches Ok(now) ==> {
            &&& offsets_settled(ext.embeds, now.embeds)
            &&& calls_settled(ext.bound_calls, now.bound_calls)
            &&& now.instructions == ext.instructions
            &&& now.inject_specs == ext.inject_specs
            &&& now.wraps == ext.wraps
            &&& now.matched_markers == ext.matched_markers
        },
{
    embeds_settle(ext.embeds, items, 0, Seq::empty());
    if let Ok(embeds) = slots::bound_embeds_from(ext.embeds, items, 0, Seq::empty()) {
        calls_settle(ext.bound_calls, embeds, items, 0, Seq::empty());
    }
}

proof fn bound_again(embeds: Seq<EmbedView>, items: Seq<ItemView>, from: int, out: Seq<EmbedView>)
    requires
        0 <= from,
        forall|i: int|
            0 <= i < out.len() ==> slots::bound_embed(#[trigger] out[i], items) == Ok::<
                EmbedView,
                Seq<char>,
            >(out[i]),
    ensures
        slots::bound_embeds_from(embeds, items, from, out) matches Ok(done) ==> forall|i: int|
            0 <= i < done.len() ==> slots::bound_embed(#[trigger] done[i], items) == Ok::<
                EmbedView,
                Seq<char>,
            >(done[i]),
    decreases embeds.len() - from,
{
    if from < embeds.len() {
        if let Ok(e) = slots::bound_embed(embeds[from], items) {
            let next = out.push(e);
            assert forall|i: int| 0 <= i < next.len() implies slots::bound_embed(
                #[trigger] next[i],
                items,
            ) == Ok::<EmbedView, Seq<char>>(next[i]) by {
                if i < out.len() {
                    assert(next[i] == out[i]);
                }
            }
            bound_again(embeds, items, from + 1, next);
        }
    }
}

proof fn bound_embeds_stay(embeds: Seq<EmbedView>, items: Seq<ItemView>, from: int)
    requires
        0 <= from <= embeds.len(),
        forall|i: int|
            0 <= i < embeds.len() ==> slots::bound_embed(#[trigger] embeds[i], items) == Ok::<
                EmbedView,
                Seq<char>,
            >(embeds[i]),
    ensures
        slots::bound_embeds_from(embeds, items, from, embeds.take(from)) == Ok::<
            Seq<EmbedView>,
            Seq<char>,
        >(embeds),
    decreases embeds.len() - from,
{
    if from < embeds.len() {
        assert(embeds.take(from).push(embeds[from]) =~= embeds.take(from + 1));
        bound_embeds_stay(embeds, items, from + 1);
    } else {
        assert(embeds.take(from) =~= embeds);
    }
}

proof fn settled_values_stay(
    values: Seq<BoundValueView>,
    embeds: Seq<EmbedView>,
    items: Seq<ItemView>,
    from: int,
)
    requires
        0 <= from <= values.len(),
        forall|i: int| 0 <= i < values.len() ==> !((#[trigger] values[i]) is Derived),
    ensures
        slots::resolved_values_from(values, embeds, items, from, values.take(from)) == Ok::<
            Seq<BoundValueView>,
            Seq<char>,
        >(values),
    decreases values.len() - from,
{
    if from < values.len() {
        assert(values.take(from).push(values[from]) =~= values.take(from + 1));
        assert(!(values[from] is Derived));
        settled_values_stay(values, embeds, items, from + 1);
    } else {
        assert(values.take(from) =~= values);
    }
}

proof fn settled_calls_stay(
    before: Seq<(Seq<char>, Seq<BoundValueView>)>,
    calls: Seq<(Seq<char>, Seq<BoundValueView>)>,
    embeds: Seq<EmbedView>,
    items: Seq<ItemView>,
    from: int,
)
    requires
        0 <= from <= calls.len(),
        calls_settled(before, calls),
    ensures
        slots::resolved_calls_from(calls, embeds, items, from, calls.take(from)) == Ok::<
            Seq<(Seq<char>, Seq<BoundValueView>)>,
            Seq<char>,
        >(calls),
    decreases calls.len() - from,
{
    if from < calls.len() {
        assert(calls[from].0 == before[from].0);
        assert(calls[from].1.take(0) =~= Seq::empty());
        settled_values_stay(calls[from].1, embeds, items, 0);
        assert(calls.take(from).push(calls[from]) =~= calls.take(from + 1));
        settled_calls_stay(before, calls, embeds, items, from + 1);
    } else {
        assert(calls.take(from) =~= calls);
    }
}

/// Resolving what is resolved, against the same items, changes nothing.
pub proof fn resolution_is_idempotent(ext: ExtensionDiscoveriesView, items: Seq<ItemView>)
    ensures
        slots::resolved_offsets(ext, items) matches Ok(now) ==> slots::resolved_offsets(now, items)
            == Ok::<ExtensionDiscoveriesView, Seq<char>>(now),
{
    resolution_settles_every_offset(ext, items);
    bound_again(ext.embeds, items, 0, Seq::empty());
    if let Ok(now) = slots::resolved_offsets(ext, items) {
        assert(now.embeds.take(0) =~= Seq::empty());
        assert(now.bound_calls.take(0) =~= Seq::empty());
        bound_embeds_stay(now.embeds, items, 0);
        settled_calls_stay(ext.bound_calls, now.bound_calls, now.embeds, items, 0);
    }
}

// ── Preparation ──────────────────────────────────────────────────────────

/// A prepared program writes locations exactly when its carriers were resolved,
/// and is then ready to: gating never meets an unresolved offset.
pub proof fn prepared_programs_are_ready(
    deps: ProgramDepsView,
    mod_items: Seq<ItemView>,
    carriers: CarriersView,
)
    ensures
        extension::prepared(deps, mod_items, carriers) matches Ok(p) ==> {
            &&& (p.locations == GateLocations::Emit) == (carriers is Resolve)
            &&& inject::locations_ready(p.embeds, p.locations) is Ok
        },
{
    if let CarriersView::Resolve(items) = carriers {
        resolution_settles_every_offset(deps.extensions, items);
        if let Ok(now) = slots::resolved_offsets(deps.extensions, items) {
            gate_laws::locations_need_resolved_offsets(now.embeds);
        }
    }
}

// ── Embedded extensions ──────────────────────────────────────────────────

proof fn skipping_drops(fns: Seq<ItemFnView>, skip: Seq<Seq<char>>)
    ensures
        forall|i: int|
            0 <= i < discovery::not_skipped(fns, skip).len() ==> !skip.contains(
                (#[trigger] discovery::not_skipped(fns, skip)[i]).name,
            ),
    decreases fns.len(),
{
    if fns.len() > 0 {
        skipping_drops(fns.drop_last(), skip);
        let before = discovery::not_skipped(fns.drop_last(), skip);
        let all = discovery::not_skipped(fns, skip);
        assert forall|i: int| 0 <= i < all.len() implies !skip.contains((#[trigger] all[i]).name) by {
            if i < before.len() {
                assert(all[i] == before[i]);
            }
        }
    }
}

proof fn stripping_keeps_names(
    fns: Seq<ItemFnView>,
    bounds: Seq<BoundArgView>,
    self_embed: Option<EmbedDeclView>,
    mod_attrs: Seq<AttributeView>,
    crate_name: Seq<char>,
    from: int,
    done: Seq<ItemFnView>,
    calls: Seq<(Seq<char>, Seq<BoundValueView>)>,
)
    requires
        0 <= from <= fns.len(),
        done.len() == from,
        forall|i: int| 0 <= i < from ==> (#[trigger] done[i]).name == fns[i].name,
    ensures
        discovery::stripped_from(
            fns,
            bounds,
            self_embed,
            mod_attrs,
            crate_name,
            from,
            done,
            calls,
        ) matches Ok((kept, _)) ==> kept.len() == fns.len() && forall|i: int|
            0 <= i < kept.len() ==> (#[trigger] kept[i]).name == fns[i].name,
    decreases fns.len() - from,
{
    if from < fns.len() {
        if let Ok((f, values)) = discovery::stripped(
            fns[from],
            bounds,
            self_embed,
            mod_attrs,
            crate_name,
        ) {
            let next = done.push(f);
            assert forall|i: int| 0 <= i < from + 1 implies (#[trigger] next[i]).name
                == fns[i].name by {
                if i < from {
                    assert(next[i] == done[i]);
                }
            }
            stripping_keeps_names(
                fns,
                bounds,
                self_embed,
                mod_attrs,
                crate_name,
                from + 1,
                next,
                if values.len() == 0 {
                    calls
                } else {
                    discovery::with_call(calls, f.name, values)
                },
            );
        }
    }
}

/// An extension in embedded mode emits none of the instructions its metadata
/// names to be skipped.
pub proof fn embedded_extensions_skip_their_initializers(
    disk: DiskView,
    dir: DirPathView,
    manifest: ValueView,
    ext: Seq<char>,
    pos: int,
    crate_name: Seq<char>,
    mod_attrs: Seq<AttributeView>,
    mod_items: Seq<ItemView>,
)
    ensures
        match (
            discovery::contribution(
                disk,
                dir,
                manifest,
                ext,
                pos,
                crate_name,
                mod_attrs,
                mod_items,
            ).0,
            metadata::embedded_meta(manifest, dir),
        ) {
            (Ok(m), Ok(embedded)) => m.embeds.len() > 0 ==> forall|i: int|
                0 <= i < m.instructions.len() ==> !embedded.skip.contains(
                    (#[trigger] m.instructions[i]).0.name,
                ),
            (Ok(_), Err(_)) => false,
            (Err(_), _) => true,
        },
{
    if let (Ok(m), Ok(embedded)) = (
        discovery::contribution(
            disk,
            dir,
            manifest,
            ext,
            pos,
            crate_name,
            mod_attrs,
            mod_items,
        ).0,
        metadata::embedded_meta(manifest, dir),
    ) {
        if m.embeds.len() > 0 {
            let all = discovery::instruction_fns(
                scan::scan_crates(disk, seq![dir], 0, scan::no_scan()).items,
            );
            let fns = discovery::not_skipped(all, embedded.skip);
            skipping_drops(all, embedded.skip);
            if let Ok(bounds) = metadata::bound_args(manifest, dir) {
                stripping_keeps_names(
                    fns,
                    bounds,
                    Some(m.embeds[0].decl),
                    mod_attrs,
                    crate_name,
                    0,
                    Seq::empty(),
                    Seq::empty(),
                );
                assert forall|i: int| 0 <= i < m.instructions.len() implies !embedded.skip.contains(
                    (#[trigger] m.instructions[i]).0.name,
                ) by {
                    assert(!embedded.skip.contains(fns[i].name));
                }
            }
        }
    }
}

// ── Switching an extension to embedded mode ──────────────────────────────

/// A discovery over the crates at `dirs`, for a module that carries the marker
/// `x` bare, and the embed that the marker is then made to declare.
pub struct EmbedSwitch {
    pub disk: DiskView,
    pub dirs: Seq<DirPathView>,
    pub mod_attrs: Seq<AttributeView>,
    pub mod_items: Seq<ItemView>,
    pub x: Seq<char>,
    pub decl: EmbedDeclView,
}

/// The instructions whose fns are not named in `skip`.
pub open spec fn unskipped(
    list: Seq<(ItemFnView, PathView)>,
    skip: Seq<Seq<char>>,
) -> Seq<(ItemFnView, PathView)>
    decreases list.len(),
{
    if list.len() == 0 {
        Seq::empty()
    } else if skip.contains(list.last().0.name) {
        unskipped(list.drop_last(), skip)
    } else {
        unskipped(list.drop_last(), skip).push(list.last())
    }
}

/// What embedded mode makes of `a`, the contribution of the extension crate at
/// `dir`: the fns its metadata skips are gone, and the declared embed is there.
pub open spec fn embedded_from(
    s: EmbedSwitch,
    dir: DirPathView,
    a: MatchedExtensionView,
    b: MatchedExtensionView,
) -> bool {
    match metadata::manifest_value(s.disk, dir) {
        Some(manifest) => match (
            metadata::embedded_meta(manifest, dir),
            metadata::package_ident(manifest),
        ) {
            (Ok(embedded), Some(name)) => {
                &&& discovery::matched_in(s.disk, dir, s.mod_attrs, s.mod_items).0 == Ok::<
                    Option<MatchedExtensionView>,
                    Seq<char>,
                >(Some(a))
                &&& embedded.state_type is Some
                &&& b.instructions == unskipped(a.instructions, embedded.skip)
                &&& a.embeds.len() == 0
                &&& b.embeds == seq![
                    EmbedView {
                        source: name,
                        decl: s.decl,
                        state_type: embedded.state_type->Some_0,
                        carrier: None,
                    },
                ]
            },
            _ => false,
        },
        None => false,
    }
}

/// How contributions `a` and `b` compare where the marker is bare and where it
/// declares the embed.
pub open spec fn switched_one(
    s: EmbedSwitch,
    a: MatchedExtensionView,
    b: MatchedExtensionView,
) -> bool {
    &&& b.marker == a.marker
    &&& b.marker_pos == a.marker_pos
    &&& b.inject_specs == a.inject_specs
    &&& b.wraps == a.wraps
    &&& if a.marker == s.x {
        exists|d: int| 0 <= d < s.dirs.len() && embedded_from(s, #[trigger] s.dirs[d], a, b)
    } else {
        b.instructions == a.instructions && b.embeds == a.embeds
    }
}

/// The same of two lists of contributions, one by one.
pub open spec fn switched(
    s: EmbedSwitch,
    a: Seq<MatchedExtensionView>,
    b: Seq<MatchedExtensionView>,
) -> bool {
    a.len() == b.len() && forall|i: int|
        0 <= i < a.len() ==> switched_one(s, #[trigger] a[i], b[i])
}

/// Whether `b` are the attributes of the module with the marker at `at`, which
/// is bare and the first of its name, declaring the embed and nothing else.
pub open spec fn declares_embed(s: EmbedSwitch, b: Seq<AttributeView>, at: int) -> bool {
    let a = s.mod_attrs;
    &&& 0 <= at < a.len()
    &&& attrs::first_named(a, s.x, 0) == Some(at)
    &&& a[at].form is Bare
    &&& b == a.update(at, b[at])
    &&& b[at].path == a[at].path
    &&& marker::marker_args(b[at], s.x) == Ok::<Option<MarkerArgsView>, Seq<char>>(
        Some(MarkerArgsView { word: None, embed: Some(s.decl) }),
    )
}

proof fn named_by_path(a: Seq<AttributeView>, b: Seq<AttributeView>, name: Seq<char>, from: int)
    requires
        0 <= from,
        a.len() == b.len(),
        forall|i: int| 0 <= i < a.len() ==> (#[trigger] a[i]).path == b[i].path,
    ensures
        attrs::first_named(a, name, from) == attrs::first_named(b, name, from),
    decreases a.len() - from,
{
    if from < a.len() {
        assert(a[from].path == b[from].path);
        named_by_path(a, b, name, from + 1);
    }
}

proof fn bound_where(
    inputs: Seq<FnArgView>,
    bounds: Seq<BoundArgView>,
    own: Option<EmbedDeclView>,
    a: Seq<AttributeView>,
    own2: Option<EmbedDeclView>,
    b: Seq<AttributeView>,
    crate_name: Seq<char>,
    at: int,
    found: Seq<int>,
    values: Seq<BoundValueView>,
    values2: Seq<BoundValueView>,
)
    requires
        0 <= at,
    ensures
        match (
            discovery::bound_in(inputs, bounds, own, a, crate_name, at, found, values),
            discovery::bound_in(inputs, bounds, own2, b, crate_name, at, found, values2),
        ) {
            (Ok(x), Ok(y)) => x.0 == y.0,
            _ => true,
        },
    decreases bounds.len() - at,
{
    if at < bounds.len() {
        match discovery::param_at(inputs, bounds[at].arg, 0) {
            None => {
                bound_where(
                    inputs,
                    bounds,
                    own,
                    a,
                    own2,
                    b,
                    crate_name,
                    at + 1,
                    found,
                    values,
                    values2,
                );
            },
            Some(pos) => {
                if let (Ok(v), Ok(v2)) = (
                    discovery::bound_value(bounds[at], own, a, crate_name),
                    discovery::bound_value(bounds[at], own2, b, crate_name),
                ) {
                    bound_where(
                        inputs,
                        bounds,
                        own,
                        a,
                        own2,
                        b,
                        crate_name,
                        at + 1,
                        found.push(pos),
                        values.push(v),
                        values2.push(v2),
                    );
                }
            },
        }
    }
}

proof fn stripped_alike(
    f: ItemFnView,
    bounds: Seq<BoundArgView>,
    own: Option<EmbedDeclView>,
    a: Seq<AttributeView>,
    own2: Option<EmbedDeclView>,
    b: Seq<AttributeView>,
    crate_name: Seq<char>,
)
    ensures
        match (
            discovery::stripped(f, bounds, own, a, crate_name),
            discovery::stripped(f, bounds, own2, b, crate_name),
        ) {
            (Ok(x), Ok(y)) => x.0 == y.0,
            _ => true,
        },
{
    bound_where(
        f.inputs,
        bounds,
        own,
        a,
        own2,
        b,
        crate_name,
        0,
        Seq::empty(),
        Seq::empty(),
        Seq::empty(),
    );
}

/// A fn without its bound params, where that works out.
spec fn bare_fn(
    f: ItemFnView,
    bounds: Seq<BoundArgView>,
    own: Option<EmbedDeclView>,
    mod_attrs: Seq<AttributeView>,
    crate_name: Seq<char>,
) -> ItemFnView {
    discovery::stripped(f, bounds, own, mod_attrs, crate_name)->Ok_0.0
}

proof fn stripped_one_by_one(
    fns: Seq<ItemFnView>,
    bounds: Seq<BoundArgView>,
    own: Option<EmbedDeclView>,
    mod_attrs: Seq<AttributeView>,
    crate_name: Seq<char>,
    from: int,
    done: Seq<ItemFnView>,
    calls: Seq<(Seq<char>, Seq<BoundValueView>)>,
)
    requires
        0 <= from <= fns.len(),
        done.len() == from,
        forall|i: int|
            0 <= i < from ==> discovery::stripped(
                #[trigger] fns[i],
                bounds,
                own,
                mod_attrs,
                crate_name,
            ) is Ok && done[i] == bare_fn(fns[i], bounds, own, mod_attrs, crate_name),
    ensures
        discovery::stripped_from(
            fns,
            bounds,
            own,
            mod_attrs,
            crate_name,
            from,
            done,
            calls,
        ) matches Ok((kept, _)) ==> kept.len() == fns.len() && forall|i: int|
            0 <= i < fns.len() ==> discovery::stripped(
                #[trigger] fns[i],
                bounds,
                own,
                mod_attrs,
                crate_name,
            ) is Ok && kept[i] == bare_fn(fns[i], bounds, own, mod_attrs, crate_name),
    decreases fns.len() - from,
{
    if from < fns.len() {
        if let Ok((f, values)) = discovery::stripped(
            fns[from],
            bounds,
            own,
            mod_attrs,
            crate_name,
        ) {
            stripped_one_by_one(
                fns,
                bounds,
                own,
                mod_attrs,
                crate_name,
                from + 1,
                done.push(f),
                if values.len() == 0 {
                    calls
                } else {
                    discovery::with_call(calls, f.name, values)
                },
            );
        }
    }
}

/// Skipping before stripping and behind it gives the same instructions.
proof fn skipped_either_way(
    all: Seq<ItemFnView>,
    bare: Seq<ItemFnView>,
    left: Seq<ItemFnView>,
    skip: Seq<Seq<char>>,
    crate_name: Seq<char>,
    to_bare: spec_fn(ItemFnView) -> ItemFnView,
)
    requires
        bare.len() == all.len(),
        forall|i: int|
            0 <= i < all.len() ==> (#[trigger] bare[i]) == to_bare(all[i]) && bare[i].name
                == all[i].name,
        left.len() == discovery::not_skipped(all, skip).len(),
        forall|i: int|
            0 <= i < left.len() ==> (#[trigger] left[i]) == to_bare(
                discovery::not_skipped(all, skip)[i],
            ),
    ensures
        discovery::with_path(left, crate_name) == unskipped(
            discovery::with_path(bare, crate_name),
            skip,
        ),
    decreases all.len(),
{
    let paired = discovery::with_path(bare, crate_name);
    if all.len() == 0 {
        assert(discovery::with_path(left, crate_name) =~= Seq::empty());
    } else {
        let init = all.drop_last();
        let kept = discovery::not_skipped(init, skip);
        assert(paired.drop_last() =~= discovery::with_path(bare.drop_last(), crate_name));
        assert(bare[all.len() - 1].name == all[all.len() - 1].name);
        assert forall|i: int| 0 <= i < init.len() implies (#[trigger] bare.drop_last()[i])
            == to_bare(init[i]) && bare.drop_last()[i].name == init[i].name by {
            assert(bare[i] == to_bare(all[i]));
        }
        if skip.contains(all.last().name) {
            skipped_either_way(init, bare.drop_last(), left, skip, crate_name, to_bare);
        } else {
            assert forall|i: int| 0 <= i < left.drop_last().len() implies (
            #[trigger] left.drop_last()[i]) == to_bare(kept[i]) by {
                assert(left[i] == to_bare(discovery::not_skipped(all, skip)[i]));
            }
            skipped_either_way(
                init,
                bare.drop_last(),
                left.drop_last(),
                skip,
                crate_name,
                to_bare,
            );
            assert(left[left.len() - 1] == to_bare(
                discovery::not_skipped(all, skip)[left.len() - 1],
            ));
            assert(discovery::with_path(left, crate_name) =~= discovery::with_path(
                left.drop_last(),
                crate_name,
            ).push(paired.last()));
        }
    }
}

proof fn bare_keeps_names(
    f: ItemFnView,
    bounds: Seq<BoundArgView>,
    own: Option<EmbedDeclView>,
    mod_attrs: Seq<AttributeView>,
    crate_name: Seq<char>,
)
    requires
        discovery::stripped(f, bounds, own, mod_attrs, crate_name) is Ok,
    ensures
        bare_fn(f, bounds, own, mod_attrs, crate_name).name == f.name,
{
}

proof fn kept_are_fns(all: Seq<ItemFnView>, skip: Seq<Seq<char>>, i: int)
    requires
        0 <= i < discovery::not_skipped(all, skip).len(),
    ensures
        all.contains(discovery::not_skipped(all, skip)[i]),
    decreases all.len(),
{
    if all.len() > 0 {
        let before = discovery::not_skipped(all.drop_last(), skip);
        if i < before.len() {
            kept_are_fns(all.drop_last(), skip, i);
            let k = choose|k: int|
                0 <= k < all.drop_last().len() && all.drop_last()[k] == before[i];
            assert(all[k] == before[i]);
        } else {
            assert(all[all.len() - 1] == discovery::not_skipped(all, skip)[i]);
        }
    }
}

proof fn switched_in(
    s: EmbedSwitch,
    d: int,
    b: Seq<AttributeView>,
    at: int,
)
    requires
        0 <= d < s.dirs.len(),
        declares_embed(s, b, at),
    ensures
        match (
            discovery::matched_in(s.disk, s.dirs[d], s.mod_attrs, s.mod_items).0,
            discovery::matched_in(s.disk, s.dirs[d], b, s.mod_items).0,
        ) {
            (Ok(Some(m)), Ok(n)) => n is Some && switched_one(s, m, n->Some_0),
            (Ok(None), Ok(n)) => n is None,
            _ => true,
        },
{
    let (disk, a, items, x, decl) = (s.disk, s.mod_attrs, s.mod_items, s.x, s.decl);
    let dir = s.dirs[d];
    assert forall|i: int| 0 <= i < a.len() implies (#[trigger] a[i]).path == b[i].path by {
        if i != at {
            assert(b[i] == a.update(at, b[at])[i]);
        }
    }
    named_by_path(a, b, "lez_program"@, 0);
    if let Some(manifest) = metadata::manifest_value(disk, dir) {
        if let Ok(Some(ext)) = metadata::extension_attr(manifest, dir) {
            named_by_path(a, b, ext, 0);
            first_named_at(a, ext, 0);
            first_named_at(a, x, 0);
            if let (Some(pos), Some(name)) = (
                attrs::first_named(a, ext, 0),
                metadata::package_ident(manifest),
            ) {
                let all = discovery::instruction_fns(
                    scan::scan_crates(disk, seq![dir], 0, scan::no_scan()).items,
                );
                if let (Ok(embedded), Ok(bounds)) = (
                    metadata::embedded_meta(manifest, dir),
                    metadata::bound_args(manifest, dir),
                ) {
                    if ext == x {
                        assert(pos == at);
                        let left = discovery::not_skipped(all, embedded.skip);
                        switched_own(all, bounds, embedded.skip, decl, a, b, name);
                        if let (Ok((bare, _)), Ok((kept, _))) = (
                            discovery::bound_contribution(manifest, dir, all, None, a, name),
                            discovery::bound_contribution(
                                manifest,
                                dir,
                                left,
                                Some(decl),
                                b,
                                name,
                            ),
                        ) {
                            assert(discovery::with_path(kept, name) == unskipped(
                                discovery::with_path(bare, name),
                                embedded.skip,
                            ));
                        }
                        if let (Ok(Some(m)), Ok(Some(n))) = (
                            discovery::matched_in(disk, dir, a, items).0,
                            discovery::matched_in(disk, dir, b, items).0,
                        ) {
                            assert(embedded_from(s, s.dirs[d], m, n));
                        }
                    } else {
                        assert(pos != at);
                        assert(b[pos] == a.update(at, b[at])[pos]);
                        assert(discovery::first_args(a, ext) == discovery::first_args(b, ext));
                        switched_other(manifest, dir, bounds, a, b, name);
                    }
                }
            }
        }
    }
}

proof fn switched_own(
    all: Seq<ItemFnView>,
    bounds: Seq<BoundArgView>,
    skip: Seq<Seq<char>>,
    decl: EmbedDeclView,
    a: Seq<AttributeView>,
    b: Seq<AttributeView>,
    name: Seq<char>,
)
    ensures
        match (
            discovery::stripped_from(
                all,
                bounds,
                None,
                a,
                name,
                0,
                Seq::empty(),
                Seq::empty(),
            ),
            discovery::stripped_from(
                discovery::not_skipped(all, skip),
                bounds,
                Some(decl),
                b,
                name,
                0,
                Seq::empty(),
                Seq::empty(),
            ),
        ) {
            (Ok((bare, _)), Ok((kept, _))) => discovery::with_path(kept, name) == unskipped(
                discovery::with_path(bare, name),
                skip,
            ),
            _ => true,
        },
{
    let left = discovery::not_skipped(all, skip);
    stripped_one_by_one(all, bounds, None, a, name, 0, Seq::empty(), Seq::empty());
    stripped_one_by_one(left, bounds, Some(decl), b, name, 0, Seq::empty(), Seq::empty());
    if let (Ok((bare, _)), Ok((kept, _))) = (
        discovery::stripped_from(all, bounds, None, a, name, 0, Seq::empty(), Seq::empty()),
        discovery::stripped_from(left, bounds, Some(decl), b, name, 0, Seq::empty(), Seq::empty()),
    ) {
        let to_bare = |f: ItemFnView| bare_fn(f, bounds, None, a, name);
        assert forall|i: int| 0 <= i < all.len() implies (#[trigger] bare[i]) == to_bare(all[i])
            && bare[i].name == all[i].name by {
            assert(discovery::stripped(all[i], bounds, None, a, name) is Ok);
            bare_keeps_names(all[i], bounds, None, a, name);
        }
        assert forall|i: int| 0 <= i < kept.len() implies (#[trigger] kept[i]) == to_bare(
            left[i],
        ) by {
            kept_are_fns(all, skip, i);
            let k = choose|k: int| 0 <= k < all.len() && all[k] == left[i];
            assert(discovery::stripped(all[k], bounds, None, a, name) is Ok);
            assert(discovery::stripped(left[i], bounds, Some(decl), b, name) is Ok);
            stripped_alike(left[i], bounds, None, a, Some(decl), b, name);
        }
        skipped_either_way(all, bare, kept, skip, name, to_bare);
    }
}

proof fn switched_other(
    manifest: ValueView,
    dir: DirPathView,
    bounds: Seq<BoundArgView>,
    a: Seq<AttributeView>,
    b: Seq<AttributeView>,
    name: Seq<char>,
)
    requires
        metadata::bound_args(manifest, dir) == Ok::<Seq<BoundArgView>, Seq<char>>(bounds),
    ensures
        forall|fns: Seq<ItemFnView>, own: Option<EmbedDeclView>|
            match (
                #[trigger] discovery::bound_contribution(manifest, dir, fns, own, a, name),
                discovery::bound_contribution(manifest, dir, fns, own, b, name),
            ) {
                (Ok(x), Ok(y)) => x.0 == y.0,
                _ => true,
            },
{
    assert forall|fns: Seq<ItemFnView>, own: Option<EmbedDeclView>|
        match (
            #[trigger] discovery::bound_contribution(manifest, dir, fns, own, a, name),
            discovery::bound_contribution(manifest, dir, fns, own, b, name),
        ) {
            (Ok(x), Ok(y)) => x.0 == y.0,
            _ => true,
        } by {
        stripped_one_by_one(fns, bounds, own, a, name, 0, Seq::empty(), Seq::empty());
        stripped_one_by_one(fns, bounds, own, b, name, 0, Seq::empty(), Seq::empty());
        if let (Ok((bare, _)), Ok((kept, _))) = (
            discovery::bound_contribution(manifest, dir, fns, own, a, name),
            discovery::bound_contribution(manifest, dir, fns, own, b, name),
        ) {
            assert forall|i: int| 0 <= i < fns.len() implies bare[i] == kept[i] by {
                assert(discovery::stripped(fns[i], bounds, own, a, name) is Ok);
                assert(discovery::stripped(fns[i], bounds, own, b, name) is Ok);
                stripped_alike(fns[i], bounds, own, a, own, b, name);
            }
            assert(bare =~= kept);
        }
    }
}

proof fn placed_alike(
    s: EmbedSwitch,
    a: Seq<MatchedExtensionView>,
    b: Seq<MatchedExtensionView>,
    m: MatchedExtensionView,
    n: MatchedExtensionView,
)
    requires
        switched(s, a, b),
        switched_one(s, m, n),
    ensures
        switched(s, discovery::placed(a, m), discovery::placed(b, n)),
    decreases a.len(),
{
    if a.len() > 0 {
        assert(switched_one(s, a[a.len() - 1], b[b.len() - 1]));
        if a.last().marker_pos > m.marker_pos {
            assert forall|i: int| 0 <= i < a.drop_last().len() implies switched_one(
                s,
                #[trigger] a.drop_last()[i],
                b.drop_last()[i],
            ) by {
                assert(switched_one(s, a[i], b[i]));
            }
            placed_alike(s, a.drop_last(), b.drop_last(), m, n);
        }
    }
}

proof fn matched_alike(
    s: EmbedSwitch,
    b: Seq<AttributeView>,
    at: int,
    from: int,
    done: Seq<MatchedExtensionView>,
    done2: Seq<MatchedExtensionView>,
    ws: Seq<Seq<char>>,
    ws2: Seq<Seq<char>>,
)
    requires
        0 <= from,
        declares_embed(s, b, at),
        switched(s, done, done2),
    ensures
        match (
            discovery::matched_from(s.disk, s.dirs, s.mod_attrs, s.mod_items, from, done, ws).0,
            discovery::matched_from(s.disk, s.dirs, b, s.mod_items, from, done2, ws2).0,
        ) {
            (Ok(m), Ok(n)) => switched(s, m, n),
            _ => true,
        },
    decreases s.dirs.len() - from,
{
    if from < s.dirs.len() {
        switched_in(s, from, b, at);
        let (r, w) = discovery::matched_in(s.disk, s.dirs[from], s.mod_attrs, s.mod_items);
        let (r2, w2) = discovery::matched_in(s.disk, s.dirs[from], b, s.mod_items);
        match (r, r2) {
            (Ok(Some(m)), Ok(Some(n))) => {
                placed_alike(s, done, done2, m, n);
                matched_alike(
                    s,
                    b,
                    at,
                    from + 1,
                    discovery::placed(done, m),
                    discovery::placed(done2, n),
                    ws + w,
                    ws2 + w2,
                );
            },
            (Ok(None), Ok(None)) => {
                matched_alike(s, b, at, from + 1, done, done2, ws + w, ws2 + w2);
            },
            _ => {},
        }
    }
}

/// Whether `x` stands in a list at `p` and nowhere else.
pub open spec fn stands_only_at(list: Seq<Seq<char>>, x: Seq<char>, p: int) -> bool {
    0 <= p < list.len() && forall|q: int|
        0 <= q < list.len() ==> ((#[trigger] list[q]) == x) == (q == p)
}

/// Whether `x` stands in a list once.
pub open spec fn stands_once(list: Seq<Seq<char>>, x: Seq<char>) -> bool {
    exists|p: int| #[trigger] stands_only_at(list, x, p)
}

/// Whether `e` is `d` with the extension crate at `dir` in embedded mode. What
/// the crate contributes stands from `i` up to `j` in `d`, and no longer holds
/// the instructions its metadata skips; its embed stands at `k`.
pub open spec fn embeds_one(
    s: EmbedSwitch,
    dir: DirPathView,
    d: ExtensionDiscoveriesView,
    e: ExtensionDiscoveriesView,
    i: int,
    j: int,
    k: int,
) -> bool {
    match (
        metadata::manifest_value(s.disk, dir),
        discovery::matched_in(s.disk, dir, s.mod_attrs, s.mod_items).0,
    ) {
        (Some(manifest), Ok(Some(own))) => match (
            metadata::embedded_meta(manifest, dir),
            metadata::package_ident(manifest),
        ) {
            (Ok(embedded), Some(name)) => {
                &&& own.marker == s.x
                &&& 0 <= i <= j <= d.instructions.len()
                &&& 0 <= k <= d.embeds.len()
                &&& d.instructions.subrange(i, j) == own.instructions
                &&& e.instructions == d.instructions.take(i) + unskipped(
                    own.instructions,
                    embedded.skip,
                ) + d.instructions.skip(j)
                &&& embedded.state_type is Some
                &&& e.embeds == d.embeds.take(k) + seq![
                    EmbedView {
                        source: name,
                        decl: s.decl,
                        state_type: embedded.state_type->Some_0,
                        carrier: None,
                    },
                ] + d.embeds.skip(k)
            },
            _ => false,
        },
        _ => false,
    }
}

proof fn flattened_same(
    s: EmbedSwitch,
    m: Seq<MatchedExtensionView>,
    n: Seq<MatchedExtensionView>,
)
    requires
        switched(s, m, n),
    ensures
        discovery::flattened(n).inject_specs == discovery::flattened(m).inject_specs,
        discovery::flattened(n).wraps == discovery::flattened(m).wraps,
        discovery::flattened(n).matched_markers == discovery::flattened(m).matched_markers,
        discovery::flattened(m).matched_markers == m.map_values(|c: MatchedExtensionView| c.marker),
        (forall|i: int| 0 <= i < m.len() ==> (#[trigger] m[i]).marker != s.x)
            ==> discovery::flattened(n).instructions == discovery::flattened(m).instructions
            && discovery::flattened(n).embeds == discovery::flattened(m).embeds,
    decreases m.len(),
{
    if m.len() > 0 {
        assert forall|i: int| 0 <= i < m.drop_last().len() implies switched_one(
            s,
            #[trigger] m.drop_last()[i],
            n.drop_last()[i],
        ) && m.drop_last()[i] == m[i] by {
            assert(switched_one(s, m[i], n[i]));
        }
        flattened_same(s, m.drop_last(), n.drop_last());
        assert(switched_one(s, m[m.len() - 1], n[n.len() - 1]));
        if forall|i: int| 0 <= i < m.len() ==> (#[trigger] m[i]).marker != s.x {
            assert forall|i: int| 0 <= i < m.drop_last().len() implies (
            #[trigger] m.drop_last()[i]).marker != s.x by {
                assert(m[i].marker != s.x);
            }
        }
        assert(m.map_values(|c: MatchedExtensionView| c.marker) =~= m.drop_last().map_values(
            |c: MatchedExtensionView| c.marker,
        ).push(m.last().marker));
    } else {
        assert(m.map_values(|c: MatchedExtensionView| c.marker) =~= Seq::empty());
    }
}

proof fn flattened_switch(
    s: EmbedSwitch,
    m: Seq<MatchedExtensionView>,
    n: Seq<MatchedExtensionView>,
    at: int,
) -> (r: (int, int, int, int))
    requires
        switched(s, m, n),
        0 <= at < m.len(),
        forall|i: int| 0 <= i < m.len() ==> ((#[trigger] m[i]).marker == s.x) == (i == at),
    ensures
        0 <= r.0 < s.dirs.len(),
        embeds_one(
            s,
            s.dirs[r.0],
            discovery::flattened(m),
            discovery::flattened(n),
            r.1,
            r.2,
            r.3,
        ),
    decreases m.len(),
{
    let (m1, n1) = (m.drop_last(), n.drop_last());
    let (f, g) = (discovery::flattened(m), discovery::flattened(n));
    let (f1, g1) = (discovery::flattened(m1), discovery::flattened(n1));
    assert forall|i: int| 0 <= i < m1.len() implies switched_one(
        s,
        #[trigger] m1[i],
        n1[i],
    ) && m1[i] == m[i] by {
        assert(switched_one(s, m[i], n[i]));
    }
    let (a, b) = (m.last(), n.last());
    assert(switched_one(s, m[m.len() - 1], n[n.len() - 1]));
    if at == m.len() - 1 {
        assert forall|i: int| 0 <= i < m1.len() implies (#[trigger] m1[i]).marker != s.x by {
            assert(m[i].marker != s.x);
        }
        flattened_same(s, m1, n1);
        let d = choose|d: int|
            0 <= d < s.dirs.len() && embedded_from(s, #[trigger] s.dirs[d], a, b);
        let (i, k) = (f1.instructions.len() as int, f1.embeds.len() as int);
        let j = f.instructions.len() as int;
        assert(f.instructions.take(i) =~= f1.instructions);
        assert(f.instructions.subrange(i, j) =~= a.instructions);
        assert(g.instructions =~= f.instructions.take(i) + b.instructions + f.instructions.skip(j));
        assert(f.embeds =~= f1.embeds);
        assert(g.embeds =~= f.embeds.take(k) + b.embeds + f.embeds.skip(k));
        (d, i, j, k)
    } else {
        assert forall|i: int| 0 <= i < m1.len() implies ((#[trigger] m1[i]).marker == s.x) == (i
            == at) by {
            assert((m[i].marker == s.x) == (i == at));
        }
        let (d, i, j, k) = flattened_switch(s, m1, n1, at);
        assert((m[m.len() - 1].marker == s.x) == (m.len() - 1 == at));
        assert(f.instructions.take(i) =~= f1.instructions.take(i));
        assert(f.instructions.subrange(i, j) =~= f1.instructions.subrange(i, j));
        assert(f.instructions.skip(j) =~= f1.instructions.skip(j) + a.instructions);
        assert(f.embeds.take(k) =~= f1.embeds.take(k));
        assert(f.embeds.skip(k) =~= f1.embeds.skip(k) + a.embeds);
        let manifest = metadata::manifest_value(s.disk, s.dirs[d])->Some_0;
        let embedded = metadata::embedded_meta(manifest, s.dirs[d])->Ok_0;
        let name = metadata::package_ident(manifest)->Some_0;
        let embed = EmbedView {
            source: name,
            decl: s.decl,
            state_type: embedded.state_type->Some_0,
            carrier: None,
        };
        assert(g.instructions =~= f.instructions.take(i) + unskipped(
            f.instructions.subrange(i, j),
            embedded.skip,
        ) + f.instructions.skip(j));
        assert(g.embeds =~= f.embeds.take(k) + seq![embed] + f.embeds.skip(k));
        (d, i, j, k)
    }
}

/// Switching the marker of an extension from its bare form to one that declares
/// an embed changes a discovery, where both are accepted, in this alone: the
/// extension no longer emits the instructions its metadata names to be skipped,
/// and has the declared embed. Everything else, and every order, stays as it is;
/// what is bound to a call may follow the embed.
pub proof fn embedding_only_skips_and_embeds(s: EmbedSwitch, b: Seq<AttributeView>, at: int)
    requires
        declares_embed(s, b, at),
    ensures
        match (
            discovery::discovered(s.disk, s.dirs, s.mod_attrs, s.mod_items).0,
            discovery::discovered(s.disk, s.dirs, b, s.mod_items).0,
        ) {
            (Ok(d), Ok(e)) => {
                &&& e.inject_specs == d.inject_specs
                &&& e.wraps == d.wraps
                &&& e.matched_markers == d.matched_markers
                &&& !d.matched_markers.contains(s.x) ==> e.instructions == d.instructions
                    && e.embeds == d.embeds
                &&& stands_once(d.matched_markers, s.x) ==> exists|c: int, i: int, j: int, k: int|
                    0 <= c < s.dirs.len() && #[trigger] embeds_one(s, s.dirs[c], d, e, i, j, k)
            },
            _ => true,
        },
{
    matched_alike(s, b, at, 0, Seq::empty(), Seq::empty(), Seq::empty(), Seq::empty());
    if let (Ok(m), Ok(n)) = (
        discovery::matched_from(
            s.disk,
            s.dirs,
            s.mod_attrs,
            s.mod_items,
            0,
            Seq::empty(),
            Seq::empty(),
        ).0,
        discovery::matched_from(s.disk, s.dirs, b, s.mod_items, 0, Seq::empty(), Seq::empty()).0,
    ) {
        flattened_same(s, m, n);
        let d = discovery::flattened(m);
        if !d.matched_markers.contains(s.x) {
            assert forall|i: int| 0 <= i < m.len() implies (#[trigger] m[i]).marker != s.x by {
                assert(d.matched_markers[i] == m[i].marker);
            }
        }
        if stands_once(d.matched_markers, s.x) {
            let p = choose|p: int| #[trigger] stands_only_at(d.matched_markers, s.x, p);
            assert forall|i: int| 0 <= i < m.len() implies ((#[trigger] m[i]).marker == s.x) == (i
                == p) by {
                assert(d.matched_markers[i] == m[i].marker);
            }
            let (c, i, j, k) = flattened_switch(s, m, n, p);
            assert(embeds_one(s, s.dirs[c], d, discovery::flattened(n), i, j, k));
        }
    }
}

} // verus!
