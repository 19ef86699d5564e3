//! What holds of embedded slots on every input.
use crate::extension::marker::EmbedDeclView;
use crate::extension::slots;
use crate::slot_offsets;
use crate::slot_offsets::{FieldTextView, SlotFieldView};
use crate::syntax::ItemView;
use vstd::prelude::*;

verus! {

// ── Carriers ─────────────────────────────────────────────────────────────

/// Whether an item carries the slot `attr`.
pub open spec fn carries(item: ItemView, attr: Seq<char>) -> bool {
    slots::slot_struct(item, attr) is Some
}

proof fn carrier_step(items: Seq<ItemView>, attr: Seq<char>, from: int, found: Option<Seq<char>>)
    requires
        0 <= from,
    ensures
        slots::carrier_from(items, attr, from, found) is Ok <==> {
            &&& found is Some ==> forall|i: int|
                from <= i < items.len() ==> !carries(#[trigger] items[i], attr)
            &&& forall|i: int, j: int|
                from <= i < j < items.len() ==> !(carries(#[trigger] items[i], attr) && carries(
                    #[trigger] items[j],
                    attr,
                ))
        },
        slots::carrier_from(items, attr, from, found) matches Ok(None) ==> found is None && forall|
            i: int,
        |
            from <= i < items.len() ==> !carries(#[trigger] items[i], attr),
        slots::carrier_from(items, attr, from, found) matches Ok(Some(name)) ==> found == Some(name)
            || exists|i: int|
            from <= i < items.len() && slots::slot_struct(#[trigger] items[i], attr) == Some(name),
    decreases items.len() - from,
{
    if from < items.len() {
        match slots::slot_struct(items[from], attr) {
            None => {
                carrier_step(items, attr, from + 1, found);
                assert forall|i: int, j: int| from <= i < j < items.len() && carries(
                    items[i],
                    attr,
                ) && carries(items[j], attr) implies from + 1 <= i by {
                    assert(i != from);
                }
            },
            Some(name) => {
                assert(carries(items[from], attr));
                if found is None {
                    carrier_step(items, attr, from + 1, Some(name));
                    if slots::carrier_from(items, attr, from, found) is Ok {
                        assert forall|i: int, j: int| from <= i < j < items.len() implies !(carries(
                            #[trigger] items[i],
                            attr,
                        ) && carries(#[trigger] items[j], attr)) by {}
                    } else {
                        if forall|i: int, j: int|
                            from <= i < j < items.len() ==> !(carries(#[trigger] items[i], attr)
                                && carries(#[trigger] items[j], attr)) {
                            assert forall|i: int| from + 1 <= i < items.len() implies !carries(
                                #[trigger] items[i],
                                attr,
                            ) by {
                                assert(!(carries(items[from], attr) && carries(items[i], attr)));
                            }
                        }
                    }
                }
            },
        }
    }
}

/// A slot has at most one home: looking for its carrier is refused exactly when
/// two items carry it, finds none exactly when no item does, and otherwise names
/// one that does, with the constant the slot attribute derives.
pub proof fn a_slot_has_one_carrier(items: Seq<ItemView>, role: Seq<char>)
    ensures
        ({
            let attr = slots::slot_attr(role);
            &&& slots::carrier(items, role) is Err <==> exists|i: int, j: int|
                0 <= i < j < items.len() && carries(#[trigger] items[i], attr) && carries(
                    #[trigger] items[j],
                    attr,
                )
            &&& slots::carrier(items, role) matches Ok(None) ==> forall|i: int|
                0 <= i < items.len() ==> !carries(#[trigger] items[i], attr)
            &&& slots::carrier(items, role) matches Ok(Some(c)) ==> {
                &&& c.attr_name == attr
                &&& c.const_name == slots::slot_const(attr)
                &&& exists|i: int|
                    0 <= i < items.len() && slots::slot_struct(#[trigger] items[i], attr) == Some(
                        c.struct_name,
                    )
            }
        }),
{
    carrier_step(items, slots::slot_attr(role), 0, None);
}

// ── Expansion ────────────────────────────────────────────────────────────

proof fn unmarked_has_no_slot(list: Seq<Seq<char>>)
    ensures
        forall|i: int|
            0 <= i < slot_offsets::unmarked(list).len() ==> slot_offsets::slot_name(
                #[trigger] slot_offsets::unmarked(list)[i],
            ) is None,
        slot_offsets::slot_mark(list) is None ==> slot_offsets::unmarked(list) == list,
    decreases list.len(),
{
    if list.len() > 0 {
        unmarked_has_no_slot(list.drop_last());
        if slot_offsets::slot_mark(list) is None {
            assert(list =~= list.drop_last().push(list.last()));
        }
    }
}

/// Expansion takes the slot attributes off the fields and nothing else: none is
/// left, and a field without one stays as it was.
pub proof fn expansion_strips_the_slot_attributes(fields: Seq<FieldTextView>)
    ensures
        slot_offsets::stripped_fields(fields).len() == fields.len(),
        forall|i: int|
            0 <= i < fields.len() ==> {
                let f = #[trigger] slot_offsets::stripped_fields(fields)[i];
                &&& f.name == fields[i].name
                &&& f.ty == fields[i].ty
                &&& f.vis == fields[i].vis
                &&& slot_offsets::slot_mark(fields[i].attrs) is None ==> f == fields[i]
                &&& forall|j: int|
                    0 <= j < f.attrs.len() ==> slot_offsets::slot_name(
                        #[trigger] f.attrs[j],
                    ) is None
            },
{
    assert forall|i: int| 0 <= i < fields.len() implies {
        let f = #[trigger] slot_offsets::stripped_fields(fields)[i];
        &&& f.name == fields[i].name
        &&& f.ty == fields[i].ty
        &&& f.vis == fields[i].vis
        &&& slot_offsets::slot_mark(fields[i].attrs) is None ==> f == fields[i]
        &&& forall|j: int|
            0 <= j < f.attrs.len() ==> slot_offsets::slot_name(#[trigger] f.attrs[j]) is None
    } by {
        unmarked_has_no_slot(fields[i].attrs);
    }
}

/// Whether a slot is that of the field at its position.
pub open spec fn is_slot_of(slot: SlotFieldView, fields: Seq<FieldTextView>) -> bool {
    &&& slot.index < fields.len()
    &&& slot_offsets::slot_mark(fields[slot.index as int].attrs) == Some(slot.attr_name)
    &&& slot.name == fields[slot.index as int].name
    &&& slot.ty == fields[slot.index as int].ty
}

/// Each marked field becomes one slot that knows its position, and nothing else
/// becomes one.
pub proof fn slots_are_the_marked_fields(fields: Seq<FieldTextView>)
    requires
        fields.len() <= usize::MAX,
    ensures
        forall|k: int|
            0 <= k < slot_offsets::slot_fields(fields).len() ==> is_slot_of(
                #[trigger] slot_offsets::slot_fields(fields)[k],
                fields,
            ),
        forall|i: int|
            0 <= i < fields.len() && slot_offsets::slot_mark((#[trigger] fields[i]).attrs) is Some
                ==> exists|k: int|
                0 <= k < slot_offsets::slot_fields(fields).len() && (
                #[trigger] slot_offsets::slot_fields(fields)[k]).index == i,
    decreases fields.len(),
{
    if fields.len() > 0 {
        let init = fields.drop_last();
        slots_are_the_marked_fields(init);
        let before = slot_offsets::slot_fields(init);
        let all = slot_offsets::slot_fields(fields);
        assert forall|k: int| 0 <= k < all.len() implies is_slot_of(
            #[trigger] all[k],
            fields,
        ) by {
            if k < before.len() {
                assert(all[k] == before[k]);
                assert(is_slot_of(before[k], init));
                assert(init[before[k].index as int] == fields[before[k].index as int]);
            }
        }
        assert forall|i: int|
            0 <= i < fields.len() && slot_offsets::slot_mark((
            #[trigger] fields[i]).attrs) is Some implies exists|k: int|
            0 <= k < all.len() && (#[trigger] all[k]).index == i by {
            if i < init.len() {
                assert(init[i] == fields[i]);
                let k = choose|k: int| 0 <= k < before.len() && (#[trigger] before[k]).index == i;
                assert(all[k] == before[k]);
            } else {
                assert(all[before.len() as int].index == i);
            }
        }
    }
}

/// An item without slot attributes passes through expansion unchanged.
pub proof fn unmarked_items_pass_through(item: Seq<char>)
    requires
        slot_offsets::struct_text(item) matches Some(s) ==> s.fields.len() <= usize::MAX && forall|
            i: int,
        |
            0 <= i < s.fields.len() ==> slot_offsets::slot_mark((
            #[trigger] s.fields[i]).attrs) is None,
    ensures
        slot_offsets::expanded(item) == item,
{
    if let Some(s) = slot_offsets::struct_text(item) {
        slots_are_the_marked_fields(s.fields);
        let list = slot_offsets::slot_fields(s.fields);
        if list.len() > 0 {
            assert(is_slot_of(list[0], s.fields));
        }
    }
}

// ── Windows ──────────────────────────────────────────────────────────────

proof fn no_pair(
    embeds: Seq<(Seq<char>, EmbedDeclView)>,
    types: Seq<(Seq<char>, Seq<char>)>,
    i: int,
    j: int,
    out: Seq<char>,
)
    requires
        0 <= i < j,
        forall|a: int, b: int|
            0 <= a < b < embeds.len() ==> (#[trigger] embeds[a]).1.account != (
            #[trigger] embeds[b]).1.account,
    ensures
        slot_offsets::pair_asserts(embeds, types, i, j, out) == Ok::<Seq<char>, Seq<char>>(out),
    decreases embeds.len() - i, embeds.len() - j,
{
    if i < embeds.len() {
        if j >= embeds.len() {
            no_pair(embeds, types, i + 1, i + 2, out);
        } else {
            assert(embeds[i].1.account != embeds[j].1.account);
            assert(out + Seq::<char>::empty() =~= out);
            no_pair(embeds, types, i, j + 1, out);
        }
    }
}

/// Windows of separate accounts cannot collide: embeds whose accounts are
/// pairwise distinct are asserted nothing, whatever types they declare.
pub proof fn separate_accounts_need_no_assert(
    embeds: Seq<(Seq<char>, EmbedDeclView)>,
    types: Seq<(Seq<char>, Seq<char>)>,
)
    requires
        forall|a: int, b: int|
            0 <= a < b < embeds.len() ==> (#[trigger] embeds[a]).1.account != (
            #[trigger] embeds[b]).1.account,
    ensures
        slot_offsets::pair_asserts(embeds, types, 0, 1, Seq::empty()) == Ok::<
            Seq<char>,
            Seq<char>,
        >(Seq::empty()),
{
    no_pair(embeds, types, 0, 1, Seq::empty());
}

} // verus!
