//! What the expansion of a struct with slots says, as text.
use crate::slot_laws;
use crate::slot_offsets;
use crate::slot_offsets::{FieldTextView, SlotFieldView, StructTextView};
use crate::source;
use crate::syntax::PathView;
use crate::text;
use vstd::prelude::*;

verus! {

/// Whether `part` stands somewhere in `whole`.
pub open spec fn stands_in(part: Seq<char>, whole: Seq<char>) -> bool {
    exists|before: Seq<char>, after: Seq<char>| whole == #[trigger] (before + part + after)
}

/// The sizes of `types`, added up in order: `0` and one term for each.
pub open spec fn sum_of_sizes(types: Seq<Seq<char>>) -> Seq<char>
    decreases types.len(),
{
    if types.len() == 0 {
        "0"@
    } else {
        sum_of_sizes(types.drop_last()) + " + "@ + "<"@ + types.last()
            + " as ::spel_framework::FixedBorshSize>::SIZE"@
    }
}

/// The types of the first `n` fields.
pub open spec fn types_before(fields: Seq<FieldTextView>, n: int) -> Seq<Seq<char>> {
    Seq::new(n as nat, |i: int| fields[i].ty)
}

/// Whether the attribute text `attr` is just `name`, a name that ends in `_slot`.
pub open spec fn is_slot_attr(attr: Seq<char>, name: Seq<char>) -> bool {
    &&& source::attr_of(attr).path == (PathView { leading_colon: false, segments: seq![name] })
    &&& exists|role: Seq<char>| name == #[trigger] (role + "_slot"@)
}

/// Whether a field is the slot `name`: the last of its slot attributes is that.
pub open spec fn is_slot(field: FieldTextView, name: Seq<char>) -> bool {
    exists|i: int|
        0 <= i < field.attrs.len() && is_slot_attr(#[trigger] field.attrs[i], name) && forall|
            j: int,
            other: Seq<char>,
        |
            i < j < field.attrs.len() ==> !is_slot_attr(field.attrs[j], other)
}

proof fn stands_left(part: Seq<char>, a: Seq<char>, b: Seq<char>)
    requires
        stands_in(part, a),
    ensures
        stands_in(part, a + b),
{
    let (before, after) = choose|before: Seq<char>, after: Seq<char>|
        a == #[trigger] (before + part + after);
    assert(a + b =~= before + part + (after + b));
}

proof fn stands_right(part: Seq<char>, a: Seq<char>, b: Seq<char>)
    requires
        stands_in(part, b),
    ensures
        stands_in(part, a + b),
{
    let (before, after) = choose|before: Seq<char>, after: Seq<char>|
        b == #[trigger] (before + part + after);
    assert(a + b =~= (a + before) + part + after);
}

proof fn stands_itself(part: Seq<char>)
    ensures
        stands_in(part, part),
{
    assert(part =~= Seq::<char>::empty() + part + Seq::<char>::empty());
}

proof fn terms_add_up(fields: Seq<FieldTextView>, from: int, upto: int)
    requires
        0 <= from <= upto <= fields.len(),
    ensures
        sum_of_sizes(types_before(fields, upto)) == sum_of_sizes(types_before(fields, from))
            + slot_offsets::size_terms(fields, from, upto),
    decreases upto - from,
{
    if from < upto {
        terms_add_up(fields, from + 1, upto);
        let next = types_before(fields, from + 1);
        assert(next.drop_last() =~= types_before(fields, from));
        assert(next.last() == fields[from].ty);
        let rest = slot_offsets::size_terms(fields, from + 1, upto);
        let done = sum_of_sizes(types_before(fields, from));
        assert(sum_of_sizes(next) + rest =~= done + (" + "@ + ("<"@ + fields[from].ty
            + " as ::spel_framework::FixedBorshSize>::SIZE"@) + rest));
    } else {
        assert(sum_of_sizes(types_before(fields, upto)) =~= sum_of_sizes(
            types_before(fields, from),
        ) + Seq::<char>::empty());
    }
}

proof fn slot_named(attr: Seq<char>, name: Seq<char>)
    ensures
        slot_offsets::slot_name(attr) == Some(name) <==> is_slot_attr(attr, name),
{
    let path = source::attr_of(attr).path;
    if is_slot_attr(attr, name) {
        let role = choose|role: Seq<char>| name == #[trigger] (role + "_slot"@);
        assert(name.skip(name.len() - "_slot"@.len()) =~= "_slot"@);
        assert(path.segments[0] == name);
    }
    if slot_offsets::slot_name(attr) == Some(name) {
        assert(path.segments =~= seq![name]);
        let role = name.take(name.len() - "_slot"@.len());
        assert(name =~= role + name.skip(name.len() - "_slot"@.len()));
    }
}

proof fn last_mark_counts(list: Seq<Seq<char>>, name: Seq<char>, i: int)
    requires
        0 <= i < list.len(),
        is_slot_attr(list[i], name),
        forall|j: int, other: Seq<char>| i < j < list.len() ==> !is_slot_attr(list[j], other),
    ensures
        slot_offsets::slot_mark(list) == Some(name),
    decreases list.len(),
{
    if i == list.len() - 1 {
        slot_named(list[i], name);
    } else {
        if let Some(other) = slot_offsets::slot_name(list.last()) {
            slot_named(list.last(), other);
            assert(is_slot_attr(list[list.len() - 1], other));
        }
        let init = list.drop_last();
        assert forall|j: int, other: Seq<char>| i < j < init.len() implies !is_slot_attr(
            init[j],
            other,
        ) by {
            assert(!is_slot_attr(list[j], other));
        }
        last_mark_counts(init, name, i);
    }
}

proof fn const_listed(
    struct_name: Seq<char>,
    list: Seq<SlotFieldView>,
    fields: Seq<FieldTextView>,
    from: int,
    at: int,
)
    requires
        0 <= from <= at < list.len(),
    ensures
        stands_in(
            slot_offsets::const_text(struct_name, list[at], fields),
            slot_offsets::consts_text(struct_name, list, fields, from),
        ),
    decreases at - from,
{
    let own = slot_offsets::const_text(struct_name, list[at], fields);
    let first = slot_offsets::const_text(struct_name, list[from], fields);
    let rest = slot_offsets::consts_text(struct_name, list, fields, from + 1);
    if from == at {
        stands_itself(own);
        stands_left(own, own, rest);
    } else {
        const_listed(struct_name, list, fields, from + 1, at);
        stands_right(own, first, rest);
    }
}

/// Where the constants stand in an expanded struct.
proof fn consts_stand(s: StructTextView, part: Seq<char>)
    requires
        stands_in(
            part,
            slot_offsets::consts_text(s.name, slot_offsets::slot_fields(s.fields), s.fields, 0),
        ),
    ensures
        stands_in(part, slot_offsets::expanded_struct(s)),
{
    let list = slot_offsets::slot_fields(s.fields);
    let item = slot_offsets::item_text(
        StructTextView { fields: slot_offsets::stripped_fields(s.fields), ..s },
    );
    let consts = slot_offsets::consts_text(s.name, list, s.fields, 0);
    let rest = "#[cfg(test)]\nmod __slot_layout_checks_"@ + text::lowercase(s.name)
        + " {\n    use super::*;\n"@ + slot_offsets::tests_text(s.name, list, 0) + "}\n"@;
    stands_right(part, item, consts);
    stands_left(part, item + consts, rest);
    assert(slot_offsets::expanded_struct(s) =~= item + consts + rest);
}

/// The offset of a slot is the size of all that stands before it: where the field
/// at position `k` is the slot `name`, the expansion declares its constant as `0`
/// and one size for each of the `k` fields before it, in their order.
pub proof fn an_offset_adds_up_the_fields_before(
    item: Seq<char>,
    s: StructTextView,
    k: int,
    name: Seq<char>,
)
    requires
        slot_offsets::struct_text(item) == Some(s),
        s.fields.len() <= usize::MAX,
        0 <= k < s.fields.len(),
        is_slot(s.fields[k], name),
    ensures
        stands_in(
            "impl "@ + s.name + " { pub const "@ + text::uppercase(name) + "_OFFSET"@
                + ": usize = "@ + sum_of_sizes(types_before(s.fields, k)) + "; }\n"@,
            slot_offsets::expanded(item),
        ),
{
    let i = choose|i: int|
        0 <= i < s.fields[k].attrs.len() && is_slot_attr(#[trigger] s.fields[k].attrs[i], name)
            && forall|j: int, other: Seq<char>|
            i < j < s.fields[k].attrs.len() ==> !is_slot_attr(s.fields[k].attrs[j], other);
    last_mark_counts(s.fields[k].attrs, name, i);
    slot_laws::slots_are_the_marked_fields(s.fields);
    let list = slot_offsets::slot_fields(s.fields);
    let at = choose|at: int| 0 <= at < list.len() && (#[trigger] list[at]).index == k;
    assert(slot_laws::is_slot_of(list[at], s.fields));
    const_listed(s.name, list, s.fields, 0, at);
    terms_add_up(s.fields, 0, k);
    assert(types_before(s.fields, 0) =~= Seq::empty());
    reveal_strlit(": usize = 0");
    reveal_strlit(": usize = ");
    reveal_strlit("0");
    assert(": usize = 0"@ =~= ": usize = "@ + "0"@);
    let own = slot_offsets::const_text(s.name, list[at], s.fields);
    assert(own =~= "impl "@ + s.name + " { pub const "@ + text::uppercase(name) + "_OFFSET"@
        + ": usize = "@ + sum_of_sizes(types_before(s.fields, k)) + "; }\n"@);
    consts_stand(s, own);
}

// ── The struct itself ────────────────────────────────────────────────────

proof fn field_listed(fields: Seq<FieldTextView>, from: int, at: int)
    requires
        0 <= from <= at < fields.len(),
    ensures
        stands_in(
            fields[at].vis + " "@ + fields[at].name + ": "@ + fields[at].ty + ", "@,
            slot_offsets::fields_text(fields, from),
        ),
    decreases at - from,
{
    let f = fields[from];
    let front = slot_offsets::attrs_text(f.attrs, 0);
    let own = f.vis + " "@ + f.name + ": "@ + f.ty + ", "@;
    let rest = slot_offsets::fields_text(fields, from + 1);
    assert(slot_offsets::fields_text(fields, from) =~= front + own + rest);
    if from < at {
        field_listed(fields, from + 1, at);
        stands_right(
            fields[at].vis + " "@ + fields[at].name + ": "@ + fields[at].ty + ", "@,
            front + own,
            rest,
        );
    }
}

proof fn test_listed(struct_name: Seq<char>, list: Seq<SlotFieldView>, from: int, at: int)
    requires
        0 <= from <= at < list.len(),
    ensures
        stands_in(
            slot_offsets::test_text(struct_name, list[at]),
            slot_offsets::tests_text(struct_name, list, from),
        ),
    decreases at - from,
{
    let own = slot_offsets::test_text(struct_name, list[at]);
    let first = slot_offsets::test_text(struct_name, list[from]);
    let rest = slot_offsets::tests_text(struct_name, list, from + 1);
    if from == at {
        stands_itself(own);
        stands_left(own, own, rest);
    } else {
        test_listed(struct_name, list, from + 1, at);
        stands_right(own, first, rest);
    }
}

/// The expansion of a struct with a slot keeps its fields as they are declared: each
/// stands in it under its name, with its visibility and its type.
pub proof fn an_expansion_keeps_every_field(item: Seq<char>, s: StructTextView, k: int)
    requires
        slot_offsets::struct_text(item) == Some(s),
        0 <= k < s.fields.len(),
        slot_offsets::slot_fields(s.fields).len() > 0,
    ensures
        stands_in(
            s.fields[k].vis + " "@ + s.fields[k].name + ": "@ + s.fields[k].ty + ", "@,
            slot_offsets::expanded(item),
        ),
{
    let fields = slot_offsets::stripped_fields(s.fields);
    let part = s.fields[k].vis + " "@ + s.fields[k].name + ": "@ + s.fields[k].ty + ", "@;
    let bare = StructTextView { fields, ..s };
    field_listed(fields, 0, k);
    let front = slot_offsets::attrs_text(s.attrs, 0) + s.vis + " struct "@ + s.name + s.generics
        + " "@ + s.bounds + " { "@;
    let body = slot_offsets::fields_text(fields, 0);
    assert(slot_offsets::item_text(bare) =~= front + body + "}\n"@);
    stands_right(part, front, body);
    stands_left(part, front + body, "}\n"@);
    let list = slot_offsets::slot_fields(s.fields);
    let rest = slot_offsets::consts_text(s.name, list, s.fields, 0)
        + "#[cfg(test)]\nmod __slot_layout_checks_"@ + text::lowercase(s.name)
        + " {\n    use super::*;\n"@ + slot_offsets::tests_text(s.name, list, 0) + "}\n"@;
    stands_left(part, slot_offsets::item_text(bare), rest);
    assert(slot_offsets::expanded_struct(s) =~= slot_offsets::item_text(bare) + rest);
}

/// The head of a layout test: it puts a probe of type `ty` into the field `field` of a
/// default value.
pub open spec fn test_head(
    struct_name: Seq<char>,
    slot: Seq<char>,
    field: Seq<char>,
    ty: Seq<char>,
) -> Seq<char> {
    "#[test]\nfn __"@ + slot + "_offset_matches_layout() {\n    let mut v = <"@ + struct_name
        + " as ::core::default::Default>::default();\n    v."@ + field + " = <"@ + ty
}

/// The test of a layout: the bytes at the slot's constant are those of the probe.
pub open spec fn test_place(struct_name: Seq<char>, slot: Seq<char>, field: Seq<char>) -> Seq<char> {
    struct_name + "::"@ + text::uppercase(slot) + "_OFFSET"@
        + ";\n    assert_eq!(&bytes[at..at + probe.len()], &probe[..], concat!(\"the `\", stringify!("@
        + field
}

proof fn stands_inside(part: Seq<char>, mid: Seq<char>, whole: Seq<char>)
    requires
        stands_in(part, mid),
        stands_in(mid, whole),
    ensures
        stands_in(part, whole),
{
    let (a, b) = choose|a: Seq<char>, b: Seq<char>| mid == #[trigger] (a + part + b);
    let (c, d) = choose|c: Seq<char>, d: Seq<char>| whole == #[trigger] (c + mid + d);
    assert(whole =~= (c + a) + part + (b + d));
}

proof fn test_says(struct_name: Seq<char>, slot: SlotFieldView)
    ensures
        stands_in(
            test_head(struct_name, slot.attr_name, slot.name, slot.ty),
            slot_offsets::test_text(struct_name, slot),
        ),
        stands_in(
            test_place(struct_name, slot.attr_name, slot.name),
            slot_offsets::test_text(struct_name, slot),
        ),
{
    let own = slot_offsets::test_text(struct_name, slot);
    let head = test_head(struct_name, slot.attr_name, slot.name, slot.ty);
    let place = test_place(struct_name, slot.attr_name, slot.name);
    let mid = " as ::spel_framework::SlotLayoutProbe>::probe();\n    let bytes = borsh::to_vec(&v).expect(\"serialize the struct\");\n    let probe = borsh::to_vec(&v."@
        + slot.name + ").expect(\"serialize the probe\");\n    let at = "@;
    let end = "), \"` field does not sit at the derived offset; a preceding field changed without the layout following\"));\n}\n"@;
    assert(own =~= head + mid + place + end);
    assert(own =~= Seq::<char>::empty() + head + (mid + place + end));
    assert(own =~= (head + mid) + place + end);
}

/// Every slot comes with a test of its layout: one that puts a probe into its field and
/// looks for it at the slot's constant.
pub proof fn every_slot_has_a_layout_test(
    item: Seq<char>,
    s: StructTextView,
    k: int,
    name: Seq<char>,
)
    requires
        slot_offsets::struct_text(item) == Some(s),
        s.fields.len() <= usize::MAX,
        0 <= k < s.fields.len(),
        is_slot(s.fields[k], name),
    ensures
        stands_in(
            test_head(s.name, name, s.fields[k].name, s.fields[k].ty),
            slot_offsets::expanded(item),
        ),
        stands_in(test_place(s.name, name, s.fields[k].name), slot_offsets::expanded(item)),
{
    let i = choose|i: int|
        0 <= i < s.fields[k].attrs.len() && is_slot_attr(#[trigger] s.fields[k].attrs[i], name)
            && forall|j: int, other: Seq<char>|
            i < j < s.fields[k].attrs.len() ==> !is_slot_attr(s.fields[k].attrs[j], other);
    last_mark_counts(s.fields[k].attrs, name, i);
    slot_laws::slots_are_the_marked_fields(s.fields);
    let list = slot_offsets::slot_fields(s.fields);
    let at = choose|at: int| 0 <= at < list.len() && (#[trigger] list[at]).index == k;
    assert(slot_laws::is_slot_of(list[at], s.fields));
    let own = slot_offsets::test_text(s.name, list[at]);
    test_listed(s.name, list, 0, at);
    let tests = slot_offsets::tests_text(s.name, list, 0);
    let front = slot_offsets::item_text(
        StructTextView { fields: slot_offsets::stripped_fields(s.fields), ..s },
    ) + slot_offsets::consts_text(s.name, list, s.fields, 0)
        + "#[cfg(test)]\nmod __slot_layout_checks_"@ + text::lowercase(s.name)
        + " {\n    use super::*;\n"@;
    let whole = slot_offsets::expanded(item);
    assert(whole == front + tests + "}\n"@);
    stands_right(own, front, tests);
    stands_left(own, front + tests, "}\n"@);
    test_says(s.name, list[at]);
    stands_inside(test_head(s.name, name, s.fields[k].name, s.fields[k].ty), own, whole);
    stands_inside(test_place(s.name, name, s.fields[k].name), own, whole);
}

} // verus!
