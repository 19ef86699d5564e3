//! What an extension contributes to a program.
use crate::account_laws;
use crate::attrs;
use crate::disk::DiskView;
use crate::extension::discovery;
use crate::extension::discovery_laws;
use crate::extension::inject;
use crate::extension::marker;
use crate::extension::marker::{
    BoundValueView, EmbedDeclView, MarkerArgsView, OffsetSpecView,
};
use crate::extension::metadata;
use crate::extension::metadata::{BoundArgView, EmbeddedMetaView};
use crate::extension::reading_laws;
use crate::extension::{InjectSpecView, WrapInstructionsView};
use crate::path::DirPathView;
use crate::scan;
use crate::syntax::{AttributeView, FnArgView, ItemFnView, ItemView};
use crate::text;
use crate::value::ValueView;
use vstd::prelude::*;

verus! {

// ── Bound values ─────────────────────────────────────────────────────────

/// Whether a bound value is the offset of an embed.
pub open spec fn is_offset_of(v: BoundValueView, e: EmbedDeclView) -> bool {
    match e.offset {
        OffsetSpecView::Literal(n) => v == BoundValueView::Literal(n),
        OffsetSpecView::Path(p) => v == BoundValueView::Path(p),
        OffsetSpecView::Derived => v matches BoundValueView::Derived { role } && role == e.role,
    }
}

/// Whether a bound value is the offset of an embed, or the default where there is no
/// embed.
pub open spec fn is_offset_or_default(
    v: BoundValueView,
    embed: Option<EmbedDeclView>,
    bound: BoundArgView,
) -> bool {
    match embed {
        Some(e) => is_offset_of(v, e),
        None => bound.default matches Some(n) && v == BoundValueView::Literal(n),
    }
}

/// Whether the first `::` of a text stands behind `head`.
pub open spec fn is_headed(s: Seq<char>, head: Seq<char>) -> bool {
    exists|rest: Seq<char>| s == #[trigger] (head + "::"@ + rest) && forall|i: int|
        0 <= i < head.len() ==> !(#[trigger] s[i] == ':' && s[i + 1] == ':')
}

/// Whether a text has no `::`.
pub open spec fn is_plain(s: Seq<char>) -> bool {
    forall|i: int| 0 <= i < s.len() - 1 ==> !(#[trigger] s[i] == ':' && s[i + 1] == ':')
}

/// Whether attribute `i` is the first that is just `name`.
pub open spec fn is_first_marker(list: Seq<AttributeView>, i: int, name: Seq<char>) -> bool {
    &&& 0 <= i < list.len()
    &&& account_laws::just(list[i].path, name)
    &&& forall|j: int| 0 <= j < i ==> !account_laws::just((#[trigger] list[j]).path, name)
}

proof fn plain_is_not_split(s: Seq<char>)
    requires
        is_plain(s),
    ensures
        text::split_first(s) is None,
{
    reading_laws::colons_are_found(s, 0);
    let k = text::find_colons(s, 0);
    if k < s.len() {
        assert(text::colons_at(s, k));
        assert(s[k] == ':');
    }
}

proof fn headed_is_split(s: Seq<char>, head: Seq<char>)
    requires
        is_headed(s, head),
    ensures
        text::split_first(s) matches Some((a, _)) && a == head,
{
    reading_laws::colons_are_found(s, 0);
    let k = text::find_colons(s, 0);
    let n = head.len() as int;
    let rest = choose|rest: Seq<char>| s == #[trigger] (head + "::"@ + rest);
    reveal_strlit("::");
    assert(s[n] == ':' && s[n + 1] == ':');
    assert(text::colons_at(s, n));
    assert(k <= n);
    if k < n {
        assert(text::colons_at(s, k));
        assert(s[k] == ':');
    }
    assert(s.take(n) =~= head);
}

proof fn marker_is_first(list: Seq<AttributeView>, i: int, name: Seq<char>, from: int)
    requires
        is_first_marker(list, i, name),
        0 <= from <= i,
    ensures
        attrs::first_named(list, name, from) == Some(i),
    decreases i - from,
{
    account_laws::paths_are_just(list[from].path, name);
    if from < i {
        marker_is_first(list, i, name, from + 1);
    }
}

proof fn marker_is_missing(list: Seq<AttributeView>, name: Seq<char>, from: int)
    requires
        0 <= from <= list.len(),
        forall|j: int| 0 <= j < list.len() ==> !account_laws::just((#[trigger] list[j]).path, name),
    ensures
        attrs::first_named(list, name, from) is None,
    decreases list.len() - from,
{
    if from < list.len() {
        account_laws::paths_are_just(list[from].path, name);
        marker_is_missing(list, name, from + 1);
    }
}

/// A bound argument takes its value from the embed it names: that of the extension
/// itself, or that of the marker before the `::`. Without an embed it takes its default,
/// and without that it is refused.
pub proof fn bound_values_come_from_the_embed(
    bound: BoundArgView,
    own: Option<EmbedDeclView>,
    mod_attrs: Seq<AttributeView>,
    crate_name: Seq<char>,
    head: Seq<char>,
    v: BoundValueView,
)
    ensures
        is_plain(bound.from) ==> (discovery::bound_value(bound, own, mod_attrs, crate_name) == Ok::<
            BoundValueView,
            Seq<char>,
        >(v) <==> is_offset_or_default(v, own, bound)),
        is_headed(bound.from, head) && (forall|j: int|
            0 <= j < mod_attrs.len() ==> !account_laws::just((#[trigger] mod_attrs[j]).path, head))
            ==> (discovery::bound_value(bound, own, mod_attrs, crate_name) == Ok::<
            BoundValueView,
            Seq<char>,
        >(v) <==> is_offset_or_default(v, None, bound)),
        forall|i: int, args: MarkerArgsView|
            #![trigger is_first_marker(mod_attrs, i, head), args.embed]
            is_headed(bound.from, head) && is_first_marker(mod_attrs, i, head)
                && marker::marker_args(mod_attrs[i], head) == Ok::<
                Option<MarkerArgsView>,
                Seq<char>,
            >(Some(args)) ==> (discovery::bound_value(bound, own, mod_attrs, crate_name) == Ok::<
                BoundValueView,
                Seq<char>,
            >(v) <==> is_offset_or_default(v, args.embed, bound)),
{
    if is_plain(bound.from) {
        plain_is_not_split(bound.from);
    }
    if is_headed(bound.from, head) {
        headed_is_split(bound.from, head);
        if forall|j: int|
            0 <= j < mod_attrs.len() ==> !account_laws::just((#[trigger] mod_attrs[j]).path, head) {
            marker_is_missing(mod_attrs, head, 0);
        }
        assert forall|i: int| #[trigger] is_first_marker(
            mod_attrs,
            i,
            head,
        ) implies attrs::first_named(mod_attrs, head, 0) == Some(i) by {
            marker_is_first(mod_attrs, i, head, 0);
        }
    }
}

/// Whether a value is that of a bound argument, for the parameter at `at`.
pub open spec fn is_bound_to(
    inputs: Seq<FnArgView>,
    at: int,
    v: BoundValueView,
    bounds: Seq<BoundArgView>,
    own: Option<EmbedDeclView>,
    mod_attrs: Seq<AttributeView>,
    crate_name: Seq<char>,
) -> bool {
    exists|j: int|
        0 <= j < bounds.len() && 0 <= at < inputs.len() && (inputs[at] matches FnArgView::Typed(p)
            && p.name == Some((#[trigger] bounds[j]).arg)) && discovery::bound_value(
            bounds[j],
            own,
            mod_attrs,
            crate_name,
        ) == Ok::<BoundValueView, Seq<char>>(v)
}

proof fn found_is_param(inputs: Seq<FnArgView>, name: Seq<char>, from: int)
    requires
        0 <= from,
    ensures
        discovery::param_at(inputs, name, from) matches Some(i) ==> 0 <= i < inputs.len() && (
        inputs[i] matches FnArgView::Typed(p) && p.name == Some(name)),
    decreases inputs.len() - from,
{
    if from < inputs.len() && !inject::is_param(inputs[from], name) {
        found_is_param(inputs, name, from + 1);
    }
}

proof fn values_are_bound(
    inputs: Seq<FnArgView>,
    bounds: Seq<BoundArgView>,
    own: Option<EmbedDeclView>,
    mod_attrs: Seq<AttributeView>,
    crate_name: Seq<char>,
    at: int,
    found: Seq<int>,
    values: Seq<BoundValueView>,
)
    requires
        0 <= at <= bounds.len(),
        found.len() == values.len(),
        forall|t: int|
            0 <= t < found.len() ==> is_bound_to(
                inputs,
                #[trigger] found[t],
                values[t],
                bounds,
                own,
                mod_attrs,
                crate_name,
            ),
    ensures
        discovery::bound_in(inputs, bounds, own, mod_attrs, crate_name, at, found, values) matches Ok((f, v))
            ==> f.len() == v.len() && forall|t: int|
            0 <= t < f.len() ==> is_bound_to(
                inputs,
                #[trigger] f[t],
                v[t],
                bounds,
                own,
                mod_attrs,
                crate_name,
            ),
    decreases bounds.len() - at,
{
    if at < bounds.len() {
        found_is_param(inputs, bounds[at].arg, 0);
        match discovery::param_at(inputs, bounds[at].arg, 0) {
            None => {
                values_are_bound(
                    inputs,
                    bounds,
                    own,
                    mod_attrs,
                    crate_name,
                    at + 1,
                    found,
                    values,
                );
            },
            Some(pos) => {
                if let Ok(v) = discovery::bound_value(bounds[at], own, mod_attrs, crate_name) {
                    assert(is_bound_to(inputs, pos, v, bounds, own, mod_attrs, crate_name));
                    let more = found.push(pos);
                    let all = values.push(v);
                    assert forall|t: int| 0 <= t < more.len() implies is_bound_to(
                        inputs,
                        #[trigger] more[t],
                        all[t],
                        bounds,
                        own,
                        mod_attrs,
                        crate_name,
                    ) by {
                        if t < found.len() {
                            assert(more[t] == found[t] && all[t] == values[t]);
                        }
                    }
                    values_are_bound(
                        inputs,
                        bounds,
                        own,
                        mod_attrs,
                        crate_name,
                        at + 1,
                        more,
                        all,
                    );
                }
            },
        }
    }
}

/// Each parameter that is stripped from a fn has its value: the values stand in the
/// order of the parameters they are for.
pub proof fn stripped_params_have_their_values(
    f: ItemFnView,
    bounds: Seq<BoundArgView>,
    own: Option<EmbedDeclView>,
    mod_attrs: Seq<AttributeView>,
    crate_name: Seq<char>,
)
    ensures
        discovery::stripped(f, bounds, own, mod_attrs, crate_name) matches Ok((g, values)) ==> {
            &&& g.inputs.len() + values.len() == f.inputs.len()
            &&& forall|t: int|
                0 <= t < values.len() ==> is_bound_to(
                    f.inputs,
                    g.inputs.len() + t,
                    #[trigger] values[t],
                    bounds,
                    own,
                    mod_attrs,
                    crate_name,
                )
        },
{
    discovery_laws::stripping_takes_the_bound_params(f, bounds, own, mod_attrs, crate_name);
    values_are_bound(
        f.inputs,
        bounds,
        own,
        mod_attrs,
        crate_name,
        0,
        Seq::empty(),
        Seq::empty(),
    );
    if let Ok((found, values)) = discovery::bound_in(
        f.inputs,
        bounds,
        own,
        mod_attrs,
        crate_name,
        0,
        Seq::empty(),
        Seq::empty(),
    ) {
        if let Ok((g, vs)) = discovery::stripped(f, bounds, own, mod_attrs, crate_name) {
            assert forall|t: int| 0 <= t < vs.len() implies is_bound_to(
                f.inputs,
                g.inputs.len() + t,
                #[trigger] vs[t],
                bounds,
                own,
                mod_attrs,
                crate_name,
            ) by {
                assert(found[t] == f.inputs.len() - found.len() + t);
            }
        }
    }
}

// ── Instructions ─────────────────────────────────────────────────────────

/// Whether an item is an instruction that an extension offers: in embedded mode, those
/// to be skipped are not.
pub open spec fn is_offered(item: ItemView, embedded: bool, skip: Seq<Seq<char>>) -> bool {
    item matches ItemView::Fn(f) && (exists|a: int|
        0 <= a < f.attrs.len() && account_laws::just((#[trigger] f.attrs[a]).path, "instruction"@))
        && !(embedded && skip.contains(f.name))
}

/// The instructions among `items` that an extension offers, in their order.
pub open spec fn offered(items: Seq<ItemView>, embedded: bool, skip: Seq<Seq<char>>) -> Seq<
    ItemView,
> {
    items.filter(|i: ItemView| is_offered(i, embedded, skip))
}

spec fn kept(items: Seq<ItemView>, embedded: bool, skip: Seq<Seq<char>>) -> Seq<ItemFnView> {
    let all = discovery::instruction_fns(items);
    if embedded {
        discovery::not_skipped(all, skip)
    } else {
        all
    }
}

proof fn kept_are_offered(items: Seq<ItemView>, embedded: bool, skip: Seq<Seq<char>>)
    ensures
        kept(items, embedded, skip).len() == offered(items, embedded, skip).len(),
        forall|i: int|
            0 <= i < kept(items, embedded, skip).len() ==> #[trigger] offered(
                items,
                embedded,
                skip,
            )[i] == ItemView::Fn(kept(items, embedded, skip)[i]),
    decreases items.len(),
{
    reveal(Seq::filter);
    if items.len() > 0 {
        let init = items.drop_last();
        let last = items.last();
        kept_are_offered(init, embedded, skip);
        let before = discovery::instruction_fns(init);
        let all = discovery::instruction_fns(items);
        if let ItemView::Fn(f) = last {
            assert forall|a: int| 0 <= a < f.attrs.len() implies (
            #[trigger] f.attrs[a]).path.is("instruction"@) == account_laws::just(
                f.attrs[a].path,
                "instruction"@,
            ) by {
                account_laws::paths_are_just(f.attrs[a].path, "instruction"@);
            }
            let marked = exists|a: int|
                0 <= a < f.attrs.len() && account_laws::just(
                    (#[trigger] f.attrs[a]).path,
                    "instruction"@,
                );
            if attrs::named(f.attrs, "instruction"@) {
                let a = choose|a: int|
                    0 <= a < f.attrs.len() && (#[trigger] f.attrs[a]).path.is("instruction"@);
                assert(account_laws::just(f.attrs[a].path, "instruction"@));
                assert(all.drop_last() =~= before);
                assert(all.last() == f);
            }
            if marked {
                let a = choose|a: int|
                    0 <= a < f.attrs.len() && account_laws::just(
                        (#[trigger] f.attrs[a]).path,
                        "instruction"@,
                    );
                assert(f.attrs[a].path.is("instruction"@));
            }
            assert(attrs::named(f.attrs, "instruction"@) == marked);
        }
    }
}

spec fn is_stripped(
    g: ItemFnView,
    f: ItemFnView,
    bounds: Seq<BoundArgView>,
    own: Option<EmbedDeclView>,
    mod_attrs: Seq<AttributeView>,
    crate_name: Seq<char>,
) -> bool {
    discovery::stripped(f, bounds, own, mod_attrs, crate_name) matches Ok(x) && x.0 == g
}

proof fn each_is_stripped(
    fns: Seq<ItemFnView>,
    bounds: Seq<BoundArgView>,
    own: Option<EmbedDeclView>,
    mod_attrs: Seq<AttributeView>,
    crate_name: Seq<char>,
    from: int,
    done: Seq<ItemFnView>,
    calls: Seq<(Seq<char>, Seq<BoundValueView>)>,
)
    requires
        0 <= from <= fns.len(),
        done.len() == from,
        forall|i: int|
            0 <= i < from ==> is_stripped(
                #[trigger] done[i],
                fns[i],
                bounds,
                own,
                mod_attrs,
                crate_name,
            ),
    ensures
        discovery::stripped_from(
            fns,
            bounds,
            own,
            mod_attrs,
            crate_name,
            from,
            done,
            calls,
        ) matches Ok(end) ==> end.0.len() == fns.len() && forall|i: int|
            0 <= i < fns.len() ==> is_stripped(
                #[trigger] end.0[i],
                fns[i],
                bounds,
                own,
                mod_attrs,
                crate_name,
            ),
    decreases fns.len() - from,
{
    if from < fns.len() {
        if let Ok((g, values)) = discovery::stripped(
            fns[from],
            bounds,
            own,
            mod_attrs,
            crate_name,
        ) {
            let next = if values.len() == 0 {
                calls
            } else {
                discovery::with_call(calls, g.name, values)
            };
            let more = done.push(g);
            assert forall|i: int| 0 <= i < from + 1 implies is_stripped(
                #[trigger] more[i],
                fns[i],
                bounds,
                own,
                mod_attrs,
                crate_name,
            ) by {
                if i < from {
                    assert(more[i] == done[i]);
                }
            }
            each_is_stripped(fns, bounds, own, mod_attrs, crate_name, from + 1, more, next);
        }
    }
}

/// Whether a fn is what an item offers: the same but for trailing inputs, and those it
/// keeps are none of the bound arguments.
pub open spec fn is_offer(g: ItemFnView, item: ItemView, bounds: Seq<BoundArgView>) -> bool {
    item matches ItemView::Fn(f) && {
        &&& g.name == f.name
        &&& g.attrs == f.attrs
        &&& g.inputs.len() <= f.inputs.len()
        &&& g.inputs == f.inputs.take(g.inputs.len() as int)
        &&& forall|i: int, j: int|
            #![trigger f.inputs[i], bounds[j]]
            0 <= i < g.inputs.len() && i < f.inputs.len() && 0 <= j < bounds.len()
                ==> !inject::is_param(f.inputs[i], bounds[j].arg)
        &&& forall|i: int|
            g.inputs.len() <= i < f.inputs.len() ==> exists|j: int|
                0 <= j < bounds.len() && inject::is_param(
                    #[trigger] f.inputs[i],
                    (#[trigger] bounds[j]).arg,
                )
    }
}

/// An extension contributes the instructions of its crate, all that it offers and in
/// their order, without the bound arguments; the specs of its manifest under its own
/// name; and its wrap with the word of its marker.
pub proof fn extensions_contribute_what_they_offer(
    disk: DiskView,
    dir: DirPathView,
    manifest: ValueView,
    ext: Seq<char>,
    pos: int,
    crate_name: Seq<char>,
    mod_attrs: Seq<AttributeView>,
    mod_items: Seq<ItemView>,
    args: MarkerArgsView,
    embedded: EmbeddedMetaView,
    injects: Seq<InjectSpecView>,
    bounds: Seq<BoundArgView>,
)
    requires
        is_first_marker(mod_attrs, pos, ext),
        marker::marker_args(mod_attrs[pos], ext) == Ok::<Option<MarkerArgsView>, Seq<char>>(
            Some(args),
        ),
        metadata::embedded_meta(manifest, dir) == Ok::<EmbeddedMetaView, Seq<char>>(embedded),
        metadata::inject_specs(manifest, dir) == Ok::<Seq<InjectSpecView>, Seq<char>>(injects),
        metadata::bound_args(manifest, dir) == Ok::<Seq<BoundArgView>, Seq<char>>(bounds),
    ensures
        discovery::contribution(
            disk,
            dir,
            manifest,
            ext,
            pos,
            crate_name,
            mod_attrs,
            mod_items,
        ).0 matches Ok(m) ==> {
            let items = scan::scan_crates(disk, seq![dir], 0, scan::no_scan()).items;
            let all = offered(items, m.embeds.len() > 0, embedded.skip);
            &&& m.marker == ext
            &&& m.instructions.len() == all.len()
            &&& forall|i: int|
                0 <= i < all.len() ==> is_offer((#[trigger] m.instructions[i]).0, all[i], bounds)
            &&& m.inject_specs.len() == injects.len()
            &&& forall|i: int|
                0 <= i < injects.len() ==> (#[trigger] m.inject_specs[i]).wrapper
                    == injects[i].wrapper && m.inject_specs[i].accounts == injects[i].accounts
                    && m.inject_specs[i].source == crate_name
            &&& metadata::wrap_instructions(manifest, dir) matches Ok(wrap) && match wrap {
                Some(w) => m.wraps.len() == 1 && m.wraps[0].1 == w && match args.word {
                    Some(word) => m.wraps[0].0 == word,
                    None => m.wraps[0].0.len() == 0,
                },
                None => m.wraps.len() == 0,
            }
            &&& embedded.anchor is None ==> match args.embed {
                Some(e) => m.embeds.len() == 1 && m.embeds[0].decl == e && m.embeds[0].source
                    == crate_name && embedded.state_type == Some(m.embeds[0].state_type),
                None => m.embeds.len() == 0,
            }
        },
{
    marker_is_first(mod_attrs, pos, ext, 0);
    if let Ok(m) = discovery::contribution(
        disk,
        dir,
        manifest,
        ext,
        pos,
        crate_name,
        mod_attrs,
        mod_items,
    ).0 {
        let items = scan::scan_crates(disk, seq![dir], 0, scan::no_scan()).items;
        let decl = discovery::embed_decl(args.embed, embedded, mod_items, crate_name, ext)->Ok_0;
        let fns = kept(items, decl is Some, embedded.skip);
        assert(m.embeds.len() > 0 <==> decl is Some);
        kept_are_offered(items, decl is Some, embedded.skip);
        let all = offered(items, m.embeds.len() > 0, embedded.skip);
        each_is_stripped(
            fns,
            bounds,
            decl,
            mod_attrs,
            crate_name,
            0,
            Seq::empty(),
            Seq::empty(),
        );
        assert forall|i: int| 0 <= i < all.len() implies is_offer(
            (#[trigger] m.instructions[i]).0,
            all[i],
            bounds,
        ) by {
            let f = fns[i];
            let g = m.instructions[i].0;
            discovery_laws::stripping_takes_the_bound_params(
                f,
                bounds,
                decl,
                mod_attrs,
                crate_name,
            );
            assert(all[i] == ItemView::Fn(f));
            assert forall|k: int, j: int|
                #![trigger f.inputs[k], bounds[j]]
                0 <= k < g.inputs.len() && k < f.inputs.len() && 0 <= j
                    < bounds.len() implies !inject::is_param(f.inputs[k], bounds[j].arg) by {
                if inject::is_param(f.inputs[k], bounds[j].arg) {
                    assert(g.inputs[k] == f.inputs[k]);
                    assert(inject::is_param(g.inputs[k], bounds[j].arg));
                    assert(inject::has_param(g.inputs, bounds[j].arg));
                }
            }
        }
        assert(metadata::wrap_instructions(manifest, dir) is Ok);
        let wrap: Option<WrapInstructionsView> = metadata::wrap_instructions(manifest, dir)->Ok_0;
        if wrap is Some {
            assert(m.wraps[0].1 == wrap->Some_0);
        }
    }
}

// ── Matching ─────────────────────────────────────────────────────────────

/// Whether a module has `#[lez_program]` below attribute `pos` and not above it.
pub open spec fn is_above_program(list: Seq<AttributeView>, pos: int) -> bool {
    exists|l: int| pos < l && #[trigger] is_first_marker(list, l, "lez_program"@)
}

proof fn above_is_first(list: Seq<AttributeView>, pos: int)
    ensures
        discovery::above_program(list, pos) == is_above_program(list, pos),
{
    if is_above_program(list, pos) {
        let l = choose|l: int| pos < l && #[trigger] is_first_marker(list, l, "lez_program"@);
        marker_is_first(list, l, "lez_program"@, 0);
    }
    if discovery::above_program(list, pos) {
        first_is_marker(list, "lez_program"@, 0);
        let l = attrs::first_named(list, "lez_program"@, 0)->Some_0;
        assert(is_first_marker(list, l, "lez_program"@));
    }
}

proof fn first_is_marker(list: Seq<AttributeView>, name: Seq<char>, from: int)
    requires
        0 <= from <= list.len(),
        forall|j: int| 0 <= j < from ==> !account_laws::just((#[trigger] list[j]).path, name),
    ensures
        attrs::first_named(list, name, from) matches Some(i) ==> is_first_marker(list, i, name),
    decreases list.len() - from,
{
    if from < list.len() {
        account_laws::paths_are_just(list[from].path, name);
        if !list[from].path.is(name) {
            first_is_marker(list, name, from + 1);
        }
    }
}

/// A crate takes part exactly where its marker stands: one whose manifest declares a
/// marker that the module carries contributes under that marker or is refused, and is
/// refused where the marker stands above the program. One whose marker the module does
/// not carry, or that declares none, contributes nothing.
pub proof fn crates_take_part_where_their_marker_stands(
    disk: DiskView,
    dir: DirPathView,
    manifest: ValueView,
    ext: Seq<char>,
    pos: int,
    mod_attrs: Seq<AttributeView>,
    mod_items: Seq<ItemView>,
)
    requires
        metadata::manifest_value(disk, dir) == Some(manifest),
        mod_attrs.len() <= usize::MAX,
    ensures
        ({
            let r = discovery::matched_in(disk, dir, mod_attrs, mod_items).0;
            let marked = reading_laws::declares(
                manifest,
                "extension_attr"@,
                ValueView::Str(ext),
            );
            &&& marked && is_first_marker(mod_attrs, pos, ext) && is_above_program(mod_attrs, pos)
                ==> r is Err
            &&& marked && is_first_marker(mod_attrs, pos, ext) && metadata::package_ident(
                manifest,
            ) is Some ==> match r {
                Ok(Some(m)) => m.marker == ext && m.marker_pos == pos,
                Ok(None) => false,
                Err(_) => true,
            }
            &&& marked && (forall|j: int|
                0 <= j < mod_attrs.len() ==> !account_laws::just(
                    (#[trigger] mod_attrs[j]).path,
                    ext,
                )) ==> (r matches Ok(None))
            &&& (forall|v: ValueView|
                !#[trigger] reading_laws::declares(manifest, "extension_attr"@, v))
                ==> (r matches Ok(None))
        }),
{
    reading_laws::undeclared_sections_are_empty(manifest, ext, dir);
    if is_first_marker(mod_attrs, pos, ext) {
        marker_is_first(mod_attrs, pos, ext, 0);
        above_is_first(mod_attrs, pos);
    }
    if forall|j: int|
        0 <= j < mod_attrs.len() ==> !account_laws::just((#[trigger] mod_attrs[j]).path, ext) {
        marker_is_missing(mod_attrs, ext, 0);
    }
}

} // verus!
