//! Where embedded state lies: slots, their carriers and their windows.
use crate::account_laws;
use crate::expansion_laws;
use crate::extension::marker::{BoundValueView, EmbedDeclView, OffsetSpecView};
use crate::extension::slots;
use crate::extension::{EmbedView, ExtensionDiscoveriesView};
use crate::nodes;
use crate::slot_laws;
use crate::slot_offsets;
use crate::syntax::{FieldView, ItemView};
use crate::text;
use vstd::prelude::*;

verus! {

// ── Carriers ─────────────────────────────────────────────────────────────

/// Whether `slot` is the slot attribute of a role: the role with `_slot` in place of
/// `_config`, or behind a role that has no `_config`.
pub open spec fn is_slot_of_role(slot: Seq<char>, role: Seq<char>) -> bool {
    ||| exists|base: Seq<char>|
        role == #[trigger] (base + "_config"@) && slot == base + "_slot"@
    ||| slot == role + "_slot"@ && forall|base: Seq<char>| role != #[trigger] (base + "_config"@)
}

/// Whether a field carries the attribute `slot`.
pub open spec fn is_marked(field: FieldView, slot: Seq<char>) -> bool {
    exists|a: int|
        0 <= a < field.attrs.len() && account_laws::just((#[trigger] field.attrs[a]).path, slot)
}

/// Whether an item is a struct called `name` with a field that carries `slot`.
pub open spec fn is_carrier(item: ItemView, slot: Seq<char>, name: Seq<char>) -> bool {
    item matches ItemView::Struct(s) && s.name == name && (s.fields matches Some(fields)
        && exists|i: int| 0 <= i < fields.len() && is_marked(#[trigger] fields[i], slot))
}

/// Whether item `at` is the struct called `name` that carries a role's slot, and no
/// other item carries it.
pub open spec fn is_only_carrier(
    items: Seq<ItemView>,
    at: int,
    slot: Seq<char>,
    name: Seq<char>,
) -> bool {
    &&& 0 <= at < items.len()
    &&& is_carrier(items[at], slot, name)
    &&& forall|j: int, other: Seq<char>|
        0 <= j < items.len() && j != at ==> !#[trigger] is_carrier(items[j], slot, other)
}

/// Whether no item carries a slot.
pub open spec fn is_uncarried(items: Seq<ItemView>, slot: Seq<char>) -> bool {
    forall|j: int, other: Seq<char>|
        #![trigger is_carrier(items[j], slot, other)]
        0 <= j < items.len() ==> !is_carrier(items[j], slot, other)
}

proof fn suffix_is_cut(s: Seq<char>, suffix: Seq<char>, base: Seq<char>)
    ensures
        s == base + suffix <==> text::has_suffix(s, suffix) && text::minus_suffix(s, suffix)
            == base,
{
    if s == base + suffix {
        assert(s.skip(s.len() - suffix.len()) =~= suffix);
        assert(s.take(s.len() - suffix.len()) =~= base);
    }
    if text::has_suffix(s, suffix) {
        assert(s =~= s.take(s.len() - suffix.len()) + s.skip(s.len() - suffix.len()));
    }
}

/// A role has one slot attribute.
pub proof fn a_role_has_one_slot(slot: Seq<char>, role: Seq<char>)
    ensures
        is_slot_of_role(slot, role) <==> slot == slots::slot_attr(role),
{
    let own = text::minus_suffix(role, "_config"@);
    suffix_is_cut(role, "_config"@, own);
    if text::has_suffix(role, "_config"@) {
        assert(role == own + "_config"@);
        if is_slot_of_role(slot, role) {
            let base = choose|base: Seq<char>|
                role == #[trigger] (base + "_config"@) && slot == base + "_slot"@;
            suffix_is_cut(role, "_config"@, base);
        }
    } else {
        assert forall|base: Seq<char>| role != #[trigger] (base + "_config"@) by {
            suffix_is_cut(role, "_config"@, base);
        }
    }
}

proof fn carrying_is_marked(item: ItemView, slot: Seq<char>, name: Seq<char>)
    ensures
        is_carrier(item, slot, name) <==> slots::slot_struct(item, slot) == Some(name),
{
    if let ItemView::Struct(s) = item {
        if let Some(fields) = s.fields {
            assert forall|i: int, a: int|
                #![trigger fields[i].attrs[a]]
                fields[i].attrs[a].path.is(slot) == account_laws::just(
                    fields[i].attrs[a].path,
                    slot,
                ) by {
                account_laws::paths_are_just(fields[i].attrs[a].path, slot);
            }
            if is_carrier(item, slot, name) {
                let i = choose|i: int|
                    0 <= i < fields.len() && is_marked(#[trigger] fields[i], slot);
                let a = choose|a: int|
                    0 <= a < fields[i].attrs.len() && account_laws::just(
                        (#[trigger] fields[i].attrs[a]).path,
                        slot,
                    );
                assert(fields[i].attrs[a].path.is(slot));
                assert(slots::has_slot(fields, slot));
            }
            if slots::has_slot(fields, slot) {
                let i = choose|i: int|
                    0 <= i < fields.len() && crate::attrs::named(
                        (#[trigger] fields[i]).attrs,
                        slot,
                    );
                let a = choose|a: int|
                    0 <= a < fields[i].attrs.len() && (#[trigger] fields[i].attrs[a]).path.is(slot);
                assert(account_laws::just(fields[i].attrs[a].path, slot));
                assert(is_marked(fields[i], slot));
            }
        }
    }
}

proof fn carriers_are_carried(items: Seq<ItemView>, slot: Seq<char>)
    ensures
        forall|j: int, name: Seq<char>|
            #![trigger is_carrier(items[j], slot, name)]
            is_carrier(items[j], slot, name) <==> slots::slot_struct(items[j], slot) == Some(name),
{
    assert forall|j: int, name: Seq<char>|
        #![trigger is_carrier(items[j], slot, name)]
        is_carrier(items[j], slot, name) <==> slots::slot_struct(items[j], slot) == Some(name) by {
        carrying_is_marked(items[j], slot, name);
    }
}

/// A role's carrier is the struct that carries its slot; two of them are refused, and
/// without one there is none.
pub proof fn a_carrier_is_the_struct_that_carries_the_slot(
    items: Seq<ItemView>,
    role: Seq<char>,
    slot: Seq<char>,
)
    requires
        is_slot_of_role(slot, role),
    ensures
        is_uncarried(items, slot) ==> slots::carrier(items, role) matches Ok(None),
        forall|at: int, name: Seq<char>| #[trigger]
            is_only_carrier(items, at, slot, name) ==> (slots::carrier(items, role) matches Ok(
                Some(c),
            ) && c.struct_name == name && c.attr_name == slot && c.const_name == text::uppercase(
                slot,
            ) + "_OFFSET"@),
        slots::carrier(items, role) is Err ==> exists|i: int, j: int, a: Seq<char>, b: Seq<char>|
            0 <= i < j < items.len() && #[trigger] is_carrier(items[i], slot, a) && #[trigger]
            is_carrier(items[j], slot, b),
        slots::carrier(items, role) matches Ok(Some(c)) ==> exists|at: int| #[trigger]
            is_only_carrier(items, at, slot, c.struct_name),
{
    a_role_has_one_slot(slot, role);
    slot_laws::a_slot_has_one_carrier(items, role);
    carriers_are_carried(items, slot);
    let found = slots::carrier(items, role);
    assert forall|j: int| 0 <= j < items.len() && slot_laws::carries(
        #[trigger] items[j],
        slot,
    ) implies is_carrier(items[j], slot, slots::slot_struct(items[j], slot)->Some_0) by {
        carrying_is_marked(items[j], slot, slots::slot_struct(items[j], slot)->Some_0);
    }
    if let Err(_) = found {
        let (i, j) = choose|i: int, j: int|
            0 <= i < j < items.len() && slot_laws::carries(#[trigger] items[i], slot)
                && slot_laws::carries(#[trigger] items[j], slot);
        assert(is_carrier(items[i], slot, slots::slot_struct(items[i], slot)->Some_0));
        assert(is_carrier(items[j], slot, slots::slot_struct(items[j], slot)->Some_0));
    }
    if let Ok(Some(c)) = found {
        let i = choose|i: int|
            0 <= i < items.len() && slots::slot_struct(#[trigger] items[i], slot) == Some(
                c.struct_name,
            );
        assert(slot_laws::carries(items[i], slot));
        assert(is_carrier(items[i], slot, c.struct_name));
        assert forall|j: int, other: Seq<char>|
            0 <= j < items.len() && j != i implies !#[trigger] is_carrier(items[j], slot, other) by {
            if is_carrier(items[j], slot, other) {
                assert(slot_laws::carries(items[j], slot));
            }
        }
        assert(is_only_carrier(items, i, slot, c.struct_name));
    }
    assert forall|at: int, name: Seq<char>| #[trigger] is_only_carrier(
        items,
        at,
        slot,
        name,
    ) implies (found matches Ok(Some(c)) && c.struct_name == name && c.attr_name == slot
        && c.const_name == text::uppercase(slot) + "_OFFSET"@) by {
        assert(slot_laws::carries(items[at], slot));
        if let Ok(Some(c)) = found {
            let i = choose|i: int|
                0 <= i < items.len() && slots::slot_struct(#[trigger] items[i], slot) == Some(
                    c.struct_name,
                );
            assert(is_carrier(items[i], slot, c.struct_name));
        }
        if let Err(_) = found {
            let (i, j) = choose|i: int, j: int|
                0 <= i < j < items.len() && slot_laws::carries(#[trigger] items[i], slot)
                    && slot_laws::carries(#[trigger] items[j], slot);
            assert(is_carrier(items[i], slot, slots::slot_struct(items[i], slot)->Some_0));
            assert(is_carrier(items[j], slot, slots::slot_struct(items[j], slot)->Some_0));
        }
    }
}

// ── Derived offsets ──────────────────────────────────────────────────────

/// Whether `path` names the offset constant of a role: that of the one struct that
/// carries its slot.
pub open spec fn is_offset_of_role(path: Seq<char>, role: Seq<char>, items: Seq<ItemView>) -> bool {
    exists|slot: Seq<char>, at: int, name: Seq<char>|
        is_slot_of_role(slot, role) && #[trigger] is_only_carrier(items, at, slot, name) && path
            == name + "::"@ + text::uppercase(slot) + "_OFFSET"@
}

/// Whether no struct carries the slot of a role.
pub open spec fn lacks_carrier(role: Seq<char>, items: Seq<ItemView>) -> bool {
    exists|slot: Seq<char>| #[trigger] is_slot_of_role(slot, role) && is_uncarried(items, slot)
}

/// Whether an embed is what another comes to: the same but for its carrier, with a
/// derived offset replaced by the constant of its role.
pub open spec fn embed_comes_to(now: EmbedView, e: EmbedView, items: Seq<ItemView>) -> bool {
    &&& now.source == e.source
    &&& now.state_type == e.state_type
    &&& now.decl.role == e.decl.role
    &&& now.decl.account == e.decl.account
    &&& now.decl.initializer == e.decl.initializer
    &&& match e.decl.offset {
        OffsetSpecView::Derived => now.decl.offset matches OffsetSpecView::Path(p)
            && is_offset_of_role(p, e.decl.role, items),
        _ => now.decl.offset == e.decl.offset,
    }
}

/// Whether a bound value is what another comes to: a derived one becomes the constant
/// of its role, any other stays.
pub open spec fn value_comes_to(
    now: BoundValueView,
    v: BoundValueView,
    items: Seq<ItemView>,
) -> bool {
    match v {
        BoundValueView::Derived { role } => now matches BoundValueView::Path(p)
            && is_offset_of_role(p, role, items),
        _ => now == v,
    }
}

/// Whether the values of a call are what those of another come to.
pub open spec fn values_come_to(
    now: Seq<BoundValueView>,
    values: Seq<BoundValueView>,
    items: Seq<ItemView>,
) -> bool {
    now.len() == values.len() && forall|i: int|
        0 <= i < values.len() ==> value_comes_to(#[trigger] now[i], values[i], items)
}

proof fn required_is_only(
    items: Seq<ItemView>,
    role: Seq<char>,
    initializer: Option<Seq<char>>,
)
    ensures
        slots::required_carrier(items, role, initializer) matches Ok(c) ==> is_offset_of_role(
            slots::offset_path(c),
            role,
            items,
        ),
        lacks_carrier(role, items) ==> slots::required_carrier(items, role, initializer) is Err,
{
    let slot = slots::slot_attr(role);
    a_role_has_one_slot(slot, role);
    a_carrier_is_the_struct_that_carries_the_slot(items, role, slot);
    if let Ok(c) = slots::required_carrier(items, role, initializer) {
        let at = choose|at: int| #[trigger] is_only_carrier(items, at, slot, c.struct_name);
        assert(is_only_carrier(items, at, slot, c.struct_name));
        assert(slots::offset_path(c) =~= c.struct_name + "::"@ + text::uppercase(slot)
            + "_OFFSET"@);
    }
    if lacks_carrier(role, items) {
        let other = choose|other: Seq<char>| #[trigger]
            is_slot_of_role(other, role) && is_uncarried(items, other);
        a_role_has_one_slot(other, role);
    }
}

proof fn embeds_come(
    embeds: Seq<EmbedView>,
    items: Seq<ItemView>,
    from: int,
    out: Seq<EmbedView>,
)
    requires
        0 <= from <= embeds.len(),
        out.len() == from,
        forall|i: int| 0 <= i < from ==> embed_comes_to(#[trigger] out[i], embeds[i], items),
    ensures
        slots::bound_embeds_from(embeds, items, from, out) matches Ok(now) ==> now.len()
            == embeds.len() && forall|i: int|
            0 <= i < embeds.len() ==> embed_comes_to(#[trigger] now[i], embeds[i], items),
        forall|i: int|
            from <= i < embeds.len() && (#[trigger] embeds[i]).decl.offset is Derived
                && lacks_carrier(embeds[i].decl.role, items) ==> slots::bound_embeds_from(
                embeds,
                items,
                from,
                out,
            ) is Err,
    decreases embeds.len() - from,
{
    if from < embeds.len() {
        required_is_only(items, embeds[from].decl.role, embeds[from].decl.initializer);
        if let Ok(e) = slots::bound_embed(embeds[from], items) {
            assert(embed_comes_to(e, embeds[from], items));
            embeds_come(embeds, items, from + 1, out.push(e));
        }
    }
}

proof fn values_come(
    values: Seq<BoundValueView>,
    embeds: Seq<EmbedView>,
    items: Seq<ItemView>,
    from: int,
    out: Seq<BoundValueView>,
)
    requires
        0 <= from <= values.len(),
        out.len() == from,
        forall|i: int| 0 <= i < from ==> value_comes_to(#[trigger] out[i], values[i], items),
    ensures
        slots::resolved_values_from(values, embeds, items, from, out) matches Ok(now)
            ==> values_come_to(now, values, items),
    decreases values.len() - from,
{
    if from < values.len() {
        if let BoundValueView::Derived { role } = values[from] {
            required_is_only(items, role, slots::role_initializer(embeds, role, 0));
        }
        if let Ok(v) = slots::resolved_value(values[from], embeds, items) {
            values_come(values, embeds, items, from + 1, out.push(v));
        }
    }
}

proof fn calls_come(
    calls: Seq<(Seq<char>, Seq<BoundValueView>)>,
    embeds: Seq<EmbedView>,
    items: Seq<ItemView>,
    from: int,
    out: Seq<(Seq<char>, Seq<BoundValueView>)>,
)
    requires
        0 <= from <= calls.len(),
        out.len() == from,
        forall|i: int|
            0 <= i < from ==> (#[trigger] out[i]).0 == calls[i].0 && values_come_to(
                out[i].1,
                calls[i].1,
                items,
            ),
    ensures
        slots::resolved_calls_from(calls, embeds, items, from, out) matches Ok(now) ==> now.len()
            == calls.len() && forall|i: int|
            0 <= i < calls.len() ==> (#[trigger] now[i]).0 == calls[i].0 && values_come_to(
                now[i].1,
                calls[i].1,
                items,
            ),
    decreases calls.len() - from,
{
    if from < calls.len() {
        values_come(calls[from].1, embeds, items, 0, Seq::empty());
        if let Ok(v) = slots::resolved_values_from(calls[from].1, embeds, items, 0, Seq::empty()) {
            calls_come(calls, embeds, items, from + 1, out.push((calls[from].0, v)));
        }
    }
}

/// A derived offset comes to the constant of the one struct that carries the slot of
/// its role, in an embed and in a bound value alike; all else stays as it is. An embed
/// whose offset is derived and whose slot no struct carries is refused.
pub proof fn derived_offsets_come_from_the_carrier(
    ext: ExtensionDiscoveriesView,
    items: Seq<ItemView>,
)
    ensures
        slots::resolved_offsets(ext, items) matches Ok(now) ==> {
            &&& now.embeds.len() == ext.embeds.len()
            &&& forall|i: int|
                0 <= i < ext.embeds.len() ==> embed_comes_to(
                    #[trigger] now.embeds[i],
                    ext.embeds[i],
                    items,
                )
            &&& now.bound_calls.len() == ext.bound_calls.len()
            &&& forall|i: int|
                0 <= i < ext.bound_calls.len() ==> (#[trigger] now.bound_calls[i]).0
                    == ext.bound_calls[i].0 && values_come_to(
                    now.bound_calls[i].1,
                    ext.bound_calls[i].1,
                    items,
                )
            &&& now.instructions == ext.instructions
            &&& now.inject_specs == ext.inject_specs
            &&& now.wraps == ext.wraps
            &&& now.matched_markers == ext.matched_markers
        },
        forall|i: int|
            0 <= i < ext.embeds.len() && (#[trigger] ext.embeds[i]).decl.offset is Derived
                && lacks_carrier(ext.embeds[i].decl.role, items) ==> slots::resolved_offsets(
                ext,
                items,
            ) is Err,
{
    embeds_come(ext.embeds, items, 0, Seq::empty());
    if let Ok(embeds) = slots::bound_embeds_from(ext.embeds, items, 0, Seq::empty()) {
        calls_come(ext.bound_calls, embeds, items, 0, Seq::empty());
    }
}

// ── Windows ──────────────────────────────────────────────────────────────

/// Whether an offset is written as `shown`: a number in digits, a path as it renders.
pub open spec fn is_written_as(offset: OffsetSpecView, shown: Seq<char>) -> bool {
    match offset {
        OffsetSpecView::Literal(n) => shown == text::decimal(n as nat),
        OffsetSpecView::Path(p) => nodes::rendered_expr(p) == Ok::<Seq<char>, Seq<char>>(shown),
        OffsetSpecView::Derived => false,
    }
}

/// Whether `ty` is the state type of an extension: the first that is listed for it.
pub open spec fn is_state_type(
    types: Seq<(Seq<char>, Seq<char>)>,
    source: Seq<char>,
    ty: Seq<char>,
) -> bool {
    exists|k: int|
        0 <= k < types.len() && (#[trigger] types[k]).0 == source && nodes::rendered_path(
            types[k].1,
        ) == Ok::<Seq<char>, Seq<char>>(ty) && forall|l: int|
            0 <= l < k ==> (#[trigger] types[l]).0 != source
}

/// The assertion that the window of type `ty_a` at `off_a` and that of type `ty_b` at
/// `off_b` lie apart, up to its message.
pub open spec fn apart(
    ty_a: Seq<char>,
    off_a: Seq<char>,
    ty_b: Seq<char>,
    off_b: Seq<char>,
) -> Seq<char> {
    "const _: () = assert!("@ + off_a + " + "@ + "<"@ + ty_a
        + " as ::spel_framework::FixedBorshSize>::SIZE"@ + " <= "@ + off_b + " || "@ + off_b
        + " + "@ + "<"@ + ty_b + " as ::spel_framework::FixedBorshSize>::SIZE"@ + " <= "@ + off_a
        + ", "@
}

/// Whether a text holds the assertion that two embeds lie apart.
pub open spec fn holds_apart(
    whole: Seq<char>,
    a: (Seq<char>, EmbedDeclView),
    b: (Seq<char>, EmbedDeclView),
    types: Seq<(Seq<char>, Seq<char>)>,
) -> bool {
    exists|ty_a: Seq<char>, off_a: Seq<char>, ty_b: Seq<char>, off_b: Seq<char>|
        is_state_type(types, a.0, ty_a) && is_written_as(a.1.offset, off_a) && is_state_type(
            types,
            b.0,
            ty_b,
        ) && is_written_as(b.1.offset, off_b) && expansion_laws::stands_in(
            #[trigger] apart(ty_a, off_a, ty_b, off_b),
            whole,
        )
}

proof fn state_type_is_first(
    types: Seq<(Seq<char>, Seq<char>)>,
    source: Seq<char>,
    from: int,
)
    requires
        0 <= from <= types.len(),
        forall|l: int| 0 <= l < from ==> (#[trigger] types[l]).0 != source,
    ensures
        slot_offsets::state_type_of(types, source, from) matches Some(raw) ==> exists|k: int|
            0 <= k < types.len() && (#[trigger] types[k]).0 == source && types[k].1 == raw
                && forall|l: int| 0 <= l < k ==> (#[trigger] types[l]).0 != source,
    decreases types.len() - from,
{
    if from < types.len() && types[from].0 != source {
        state_type_is_first(types, source, from + 1);
    }
}

proof fn state_type_is_listed(types: Seq<(Seq<char>, Seq<char>)>, source: Seq<char>)
    ensures
        slot_offsets::state_type(types, source) matches Ok(ty) ==> is_state_type(
            types,
            source,
            ty,
        ),
{
    state_type_is_first(types, source, 0);
}

proof fn stays(part: Seq<char>, a: Seq<char>, b: Seq<char>)
    requires
        expansion_laws::stands_in(part, a),
    ensures
        expansion_laws::stands_in(part, a + b),
{
    let (before, after) = choose|before: Seq<char>, after: Seq<char>|
        a == #[trigger] (before + part + after);
    assert(a + b =~= before + part + (after + b));
}

proof fn apart_stays(
    whole: Seq<char>,
    more: Seq<char>,
    a: (Seq<char>, EmbedDeclView),
    b: (Seq<char>, EmbedDeclView),
    types: Seq<(Seq<char>, Seq<char>)>,
)
    requires
        holds_apart(whole, a, b, types),
    ensures
        holds_apart(whole + more, a, b, types),
{
    let (ty_a, off_a, ty_b, off_b) = choose|
        ty_a: Seq<char>,
        off_a: Seq<char>,
        ty_b: Seq<char>,
        off_b: Seq<char>,
    |
        is_state_type(types, a.0, ty_a) && is_written_as(a.1.offset, off_a) && is_state_type(
            types,
            b.0,
            ty_b,
        ) && is_written_as(b.1.offset, off_b) && expansion_laws::stands_in(
            #[trigger] apart(ty_a, off_a, ty_b, off_b),
            whole,
        );
    stays(apart(ty_a, off_a, ty_b, off_b), whole, more);
}

proof fn pair_is_apart(
    out: Seq<char>,
    a: (Seq<char>, EmbedDeclView),
    b: (Seq<char>, EmbedDeclView),
    types: Seq<(Seq<char>, Seq<char>)>,
)
    requires
        a.1.account == b.1.account,
    ensures
        slot_offsets::pair_assert(a, b, types) matches Ok(t) ==> holds_apart(out + t, a, b, types),
{
    state_type_is_listed(types, a.0);
    state_type_is_listed(types, b.0);
    if let Ok(t) = slot_offsets::pair_assert(a, b, types) {
        let ty_a = slot_offsets::state_type(types, a.0)->Ok_0;
        let ty_b = slot_offsets::state_type(types, b.0)->Ok_0;
        let off_a = slot_offsets::offset_text(a.1)->Ok_0;
        let off_b = slot_offsets::offset_text(b.1)->Ok_0;
        let part = apart(ty_a, off_a, ty_b, off_b);
        let rest = text::quoted(
            "embedded windows of `"@ + a.0 + "` (offset "@ + off_a + ") and `"@ + b.0
                + "` (offset "@ + off_b + ") overlap in account `"@ + a.1.account + "`"@,
        ) + ");\n"@;
        assert(t =~= part + rest);
        assert(out + t =~= out + part + rest);
        assert(is_written_as(a.1.offset, off_a));
        assert(is_written_as(b.1.offset, off_b));
        assert(expansion_laws::stands_in(part, out + t));
    }
}

/// Whether the pair `(a, b)` comes before `(i, j)`.
spec fn is_earlier(a: int, b: int, i: int, j: int) -> bool {
    a < i || (a == i && b < j)
}

proof fn pairs_are_apart(
    embeds: Seq<(Seq<char>, EmbedDeclView)>,
    types: Seq<(Seq<char>, Seq<char>)>,
    i: int,
    j: int,
    out: Seq<char>,
    a: int,
    b: int,
)
    requires
        0 <= i < j,
        j <= embeds.len() || i >= embeds.len() - 1,
        0 <= a < b < embeds.len(),
        embeds[a].1.account == embeds[b].1.account,
        is_earlier(a, b, i, j) ==> holds_apart(out, embeds[a], embeds[b], types),
    ensures
        slot_offsets::pair_asserts(embeds, types, i, j, out) matches Ok(t) ==> holds_apart(
            t,
            embeds[a],
            embeds[b],
            types,
        ),
    decreases embeds.len() - i, embeds.len() - j,
{
    if i >= embeds.len() {
    } else if j >= embeds.len() {
        pairs_are_apart(embeds, types, i + 1, i + 2, out, a, b);
    } else {
        if let Ok(t) = slot_offsets::pair_assert(embeds[i], embeds[j], types) {
            if is_earlier(a, b, i, j) {
                apart_stays(out, t, embeds[a], embeds[b], types);
            }
            if a == i && b == j {
                pair_is_apart(out, embeds[a], embeds[b], types);
            }
            pairs_are_apart(embeds, types, i, j + 1, out + t, a, b);
        }
    }
}

/// Every two embeds in one account are asserted to lie apart: the window of either,
/// from its offset over the size of its extension's state, ends before the other
/// begins.
pub proof fn windows_of_an_account_are_held_apart(
    embeds: Seq<(Seq<char>, EmbedDeclView)>,
    types: Seq<(Seq<char>, Seq<char>)>,
    a: int,
    b: int,
)
    requires
        0 <= a < b < embeds.len(),
        embeds[a].1.account == embeds[b].1.account,
    ensures
        slot_offsets::pair_asserts(embeds, types, 0, 1, Seq::empty()) matches Ok(t) ==> holds_apart(
            t,
            embeds[a],
            embeds[b],
            types,
        ),
{
    pairs_are_apart(embeds, types, 0, 1, Seq::empty(), a, b);
}

// ── Agreement ────────────────────────────────────────────────────────────

/// The assertion that the offset constant of `slot` in the struct called `name` is
/// `n`, up to its message.
pub open spec fn agrees(name: Seq<char>, slot: Seq<char>, n: usize) -> Seq<char> {
    "const _: () = assert!("@ + name + "::"@ + text::uppercase(slot) + "_OFFSET"@ + " == "@
        + text::decimal(n as nat) + "usize, "@
}

proof fn agreement_is_kept(
    items: Seq<ItemView>,
    embeds: Seq<(Seq<char>, EmbedDeclView)>,
    from: int,
    out: Seq<char>,
    part: Seq<char>,
)
    requires
        expansion_laws::stands_in(part, out),
    ensures
        slot_offsets::agreements(items, embeds, from, out) matches Ok(t)
            ==> expansion_laws::stands_in(part, t),
    decreases embeds.len() - from,
{
    if 0 <= from < embeds.len() {
        if let Ok(t) = slot_offsets::embed_agreement(items, embeds[from].1) {
            stays(part, out, t);
            agreement_is_kept(items, embeds, from + 1, out + t, part);
        }
    }
}

proof fn agreement_is_made(
    items: Seq<ItemView>,
    embeds: Seq<(Seq<char>, EmbedDeclView)>,
    from: int,
    out: Seq<char>,
    k: int,
    n: usize,
    slot: Seq<char>,
    at: int,
    name: Seq<char>,
)
    requires
        0 <= from <= k < embeds.len(),
        embeds[k].1.offset == OffsetSpecView::Literal(n),
        is_slot_of_role(slot, embeds[k].1.role),
        is_only_carrier(items, at, slot, name),
    ensures
        slot_offsets::agreements(items, embeds, from, out) matches Ok(t)
            ==> expansion_laws::stands_in(agrees(name, slot, n), t),
    decreases k - from,
{
    if let Ok(t) = slot_offsets::embed_agreement(items, embeds[from].1) {
        if from < k {
            agreement_is_made(items, embeds, from + 1, out + t, k, n, slot, at, name);
        } else {
            let role = embeds[k].1.role;
            a_carrier_is_the_struct_that_carries_the_slot(items, role, slot);
            let c = slots::carrier(items, role)->Ok_0->Some_0;
            let part = agrees(name, slot, n);
            let rest = text::quoted(
                "the marker offset "@ + text::decimal(n as nat) + " disagrees with "@
                    + c.struct_name + "::"@ + c.const_name + "; a field before the #["@
                    + c.attr_name + "] field changed without the marker following"@,
            ) + ");\n"@;
            assert(t =~= part + rest);
            assert(out + t =~= out + part + rest);
            assert(expansion_laws::stands_in(part, out + t));
            agreement_is_kept(items, embeds, from + 1, out + t, part);
        }
    }
}

/// A declared offset is held to the layout: where a struct carries the slot of its
/// role, the declared number is asserted to be that struct's constant.
pub proof fn declared_offsets_are_held_to_the_carrier(
    items: Seq<ItemView>,
    embeds: Seq<(Seq<char>, EmbedDeclView)>,
    k: int,
    n: usize,
    slot: Seq<char>,
    at: int,
    name: Seq<char>,
)
    requires
        0 <= k < embeds.len(),
        embeds[k].1.offset == OffsetSpecView::Literal(n),
        is_slot_of_role(slot, embeds[k].1.role),
        is_only_carrier(items, at, slot, name),
    ensures
        slot_offsets::agreements(items, embeds, 0, Seq::empty()) matches Ok(t)
            ==> expansion_laws::stands_in(agrees(name, slot, n), t),
{
    agreement_is_made(items, embeds, 0, Seq::empty(), k, n, slot, at, name);
}

} // verus!
