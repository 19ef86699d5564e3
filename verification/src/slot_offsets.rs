//! Embedded-slot support behind `#[account_type]` and `#[lez_program]`.
//! A field carrying a `*_slot` attribute (e.g. `#[admin_slot]`) makes
//! the struct gain a derived `<NAME>_OFFSET` const, computed as a sum
//! of `FixedBorshSize::SIZE` terms that rustc evaluates, plus a layout
//! test emitted into the consumer crate that serializes a probe value
//! in the slot field and asserts it lands at the derived offset.
//!
//! The const serves two masters. A marker that declares an explicit
//! offset gets an agreement assert, declared equals derived, so marker
//! drift is a compile error. A marker that omits the offset derives it:
//! `extension::slots` resolves the role to the carrier's const path and
//! this module lowers the resolved values back to source text for the
//! dispatcher, the stamped gates, and the window-collision asserts,
//! with rustc evaluating what discovery-time code cannot. Structs
//! without slot attributes pass through unchanged.
use crate::dep_walk;
use crate::dep_walk::path_dep_dirs;
use crate::disk;
use crate::disk::{Disk, DiskView, Query, QueryView};
use crate::extension::marker;
use crate::extension::marker::{
    BoundValue, BoundValueView, EmbedDecl, EmbedDeclView, OffsetSpec, OffsetSpecView,
};
use crate::extension::slots;
use crate::extension::slots::{
    carrier_path, find_slot_carrier, slot_offset_const_name, SlotCarrier, SlotCarrierView,
};
use crate::model;
use crate::model::{none, put, put_all, Dup};
use crate::nodes;
use crate::nodes::{field_node, render_type_path, struct_node};
use crate::path;
use crate::path::{DirPath, DirPathView};
use crate::scan;
use crate::scan::{collect_file_items_following_mods, collect_items_from_crate_dirs};
use crate::source;
use crate::source::read_attr;
use crate::syntax::{Item, ItemView};
use crate::text;
use vstd::prelude::*;

verus! {

/// A named field as text.
#[derive(Debug, PartialEq, Eq)]
pub struct FieldText {
    /// What stands inside each `#[...]`.
    pub attrs: Vec<String>,
    pub vis: String,
    pub name: String,
    pub ty: String,
}

/// What a [`FieldText`] holds.
#[verifier::ext_equal]
pub struct FieldTextView {
    pub attrs: Seq<Seq<char>>,
    pub vis: Seq<char>,
    pub name: Seq<char>,
    pub ty: Seq<char>,
}

impl DeepView for FieldText {
    type V = FieldTextView;

    open spec fn deep_view(&self) -> FieldTextView {
        FieldTextView {
            attrs: self.attrs.deep_view(),
            vis: self.vis@,
            name: self.name@,
            ty: self.ty@,
        }
    }
}

impl Dup for FieldText {
    fn dup(&self) -> (r: Self) {
        FieldText {
            attrs: self.attrs.dup(),
            vis: self.vis.clone(),
            name: self.name.clone(),
            ty: self.ty.clone(),
        }
    }
}

/// A struct with named fields as text.
#[derive(Debug, PartialEq, Eq)]
pub struct StructText {
    /// What stands inside each `#[...]`.
    pub attrs: Vec<String>,
    pub vis: String,
    pub name: String,
    /// The generic parameters, empty where there are none.
    pub generics: String,
    /// The `where` clause, empty where there is none.
    pub bounds: String,
    pub fields: Vec<FieldText>,
}

/// What a [`StructText`] holds.
#[verifier::ext_equal]
pub struct StructTextView {
    pub attrs: Seq<Seq<char>>,
    pub vis: Seq<char>,
    pub name: Seq<char>,
    pub generics: Seq<char>,
    pub bounds: Seq<char>,
    pub fields: Seq<FieldTextView>,
}

impl DeepView for StructText {
    type V = StructTextView;

    open spec fn deep_view(&self) -> StructTextView {
        StructTextView {
            attrs: self.attrs.deep_view(),
            vis: self.vis@,
            name: self.name@,
            generics: self.generics@,
            bounds: self.bounds@,
            fields: self.fields.deep_view(),
        }
    }
}

impl Dup for StructText {
    fn dup(&self) -> (r: Self) {
        StructText {
            attrs: self.attrs.dup(),
            vis: self.vis.clone(),
            name: self.name.clone(),
            generics: self.generics.clone(),
            bounds: self.bounds.clone(),
            fields: self.fields.dup(),
        }
    }
}

/// A field marked as an embedded slot, after its attribute was
/// stripped: what the emissions need to know and nothing else.
#[derive(Debug, PartialEq, Eq)]
pub struct SlotField {
    pub index: usize,
    pub attr_name: String,
    pub name: String,
    pub ty: String,
}

/// What a [`SlotField`] holds.
#[verifier::ext_equal]
pub struct SlotFieldView {
    pub index: usize,
    pub attr_name: Seq<char>,
    pub name: Seq<char>,
    pub ty: Seq<char>,
}

impl DeepView for SlotField {
    type V = SlotFieldView;

    open spec fn deep_view(&self) -> SlotFieldView {
        SlotFieldView {
            index: self.index,
            attr_name: self.attr_name@,
            name: self.name@,
            ty: self.ty@,
        }
    }
}

impl Dup for SlotField {
    fn dup(&self) -> (r: Self) {
        SlotField {
            index: self.index,
            attr_name: self.attr_name.clone(),
            name: self.name.clone(),
            ty: self.ty.clone(),
        }
    }
}

// ── Structs as text ──────────────────────────────────────────────────────

/// A field the parser gave as text.
pub open spec fn field_text(text: Seq<char>) -> Option<FieldTextView> {
    match nodes::parsed_field(text) {
        Some((attrs, vis, name, ty)) => Some(FieldTextView { attrs, vis, name, ty }),
        None => None,
    }
}

/// The fields from `from` on, behind those read before.
pub open spec fn field_texts(texts: Seq<Seq<char>>, from: int, out: Seq<FieldTextView>) -> Option<
    Seq<FieldTextView>,
>
    decreases texts.len() - from,
{
    if from < 0 || from >= texts.len() {
        Some(out)
    } else {
        match field_text(texts[from]) {
            Some(f) => field_texts(texts, from + 1, out.push(f)),
            None => None,
        }
    }
}

/// A struct with named fields; none for any other text.
pub open spec fn struct_text(text: Seq<char>) -> Option<StructTextView> {
    match nodes::parsed_struct(text) {
        Some(n) => match n.fields {
            Some(texts) => match field_texts(texts, 0, Seq::empty()) {
                Some(fields) => Some(
                    StructTextView {
                        attrs: n.attrs,
                        vis: n.vis,
                        name: n.name,
                        generics: n.generics,
                        bounds: n.bounds,
                        fields,
                    },
                ),
                None => None,
            },
            None => None,
        },
        None => None,
    }
}

/// Attributes from `from` on, as they stand above an item.
pub open spec fn attrs_text(attrs: Seq<Seq<char>>, from: int) -> Seq<char>
    decreases attrs.len() - from,
{
    if from < 0 || from >= attrs.len() {
        Seq::empty()
    } else {
        "#["@ + attrs[from] + "] "@ + attrs_text(attrs, from + 1)
    }
}

/// Fields from `from` on, as they stand in a struct.
pub open spec fn fields_text(fields: Seq<FieldTextView>, from: int) -> Seq<char>
    decreases fields.len() - from,
{
    if from < 0 || from >= fields.len() {
        Seq::empty()
    } else {
        attrs_text(fields[from].attrs, 0) + fields[from].vis + " "@ + fields[from].name + ": "@
            + fields[from].ty + ", "@ + fields_text(fields, from + 1)
    }
}

/// A struct as it stands in a source.
pub open spec fn item_text(s: StructTextView) -> Seq<char> {
    attrs_text(s.attrs, 0) + s.vis + " struct "@ + s.name + s.generics + " "@ + s.bounds + " { "@
        + fields_text(s.fields, 0) + "}\n"@
}

fn read_field_text(text: &str) -> (r: Option<FieldText>)
    ensures
        r.deep_view() == field_text(text@),
{
    match field_node(text) {
        Some((attrs, vis, name, ty)) => Some(FieldText { attrs, vis, name, ty }),
        None => None,
    }
}

fn read_field_texts(texts: &Vec<String>) -> (r: Option<Vec<FieldText>>)
    ensures
        r.deep_view() == field_texts(texts.deep_view(), 0, Seq::empty()),
{
    let ghost all = texts.deep_view();
    let mut out: Vec<FieldText> = none();
    let mut i: usize = 0;
    while i < texts.len()
        invariant
            i <= texts.len(),
            all == texts.deep_view(),
            field_texts(all, 0, Seq::empty()) == field_texts(all, i as int, out.deep_view()),
        decreases texts.len() - i,
    {
        assert(all[i as int] == texts@[i as int]@);
        match read_field_text(texts[i].as_str()) {
            Some(f) => {
                put(&mut out, f);
            },
            None => {
                return None;
            },
        }
        i += 1;
    }
    Some(out)
}

fn read_struct_text(text: &str) -> (r: Option<StructText>)
    ensures
        r.deep_view() == struct_text(text@),
{
    let n = match struct_node(text) {
        Some(n) => n,
        None => {
            return None;
        },
    };
    match n.fields {
        Some(texts) => match read_field_texts(&texts) {
            Some(fields) => Some(
                StructText {
                    attrs: n.attrs,
                    vis: n.vis,
                    name: n.name,
                    generics: n.generics,
                    bounds: n.bounds,
                    fields,
                },
            ),
            None => None,
        },
        None => None,
    }
}

fn render_attrs(attrs: &Vec<String>) -> (r: String)
    ensures
        r@ == attrs_text(attrs.deep_view(), 0),
{
    let ghost all = attrs.deep_view();
    let mut out = String::new();
    let mut i: usize = 0;
    assert(out@ + attrs_text(all, 0) =~= attrs_text(all, 0));
    while i < attrs.len()
        invariant
            i <= attrs.len(),
            all == attrs.deep_view(),
            attrs_text(all, 0) == out@ + attrs_text(all, i as int),
        decreases attrs.len() - i,
    {
        assert(all[i as int] == attrs@[i as int]@);
        let ghost before = out@;
        out.append("#[");
        out.append(attrs[i].as_str());
        out.append("] ");
        assert(out@ + attrs_text(all, i + 1) =~= before + ("#["@ + all[i as int] + "] "@
            + attrs_text(all, i + 1)));
        i += 1;
    }
    assert(out@ + Seq::<char>::empty() =~= out@);
    out
}

fn render_fields(fields: &Vec<FieldText>) -> (r: String)
    ensures
        r@ == fields_text(fields.deep_view(), 0),
{
    let ghost all = fields.deep_view();
    let mut out = String::new();
    let mut i: usize = 0;
    assert(out@ + fields_text(all, 0) =~= fields_text(all, 0));
    while i < fields.len()
        invariant
            i <= fields.len(),
            all == fields.deep_view(),
            fields_text(all, 0) == out@ + fields_text(all, i as int),
        decreases fields.len() - i,
    {
        assert(all[i as int] == fields@[i as int].deep_view());
        let ghost before = out@;
        let f = &fields[i];
        out.append(render_attrs(&f.attrs).as_str());
        out.append(f.vis.as_str());
        out.append(" ");
        out.append(f.name.as_str());
        out.append(": ");
        out.append(f.ty.as_str());
        out.append(", ");
        assert(out@ + fields_text(all, i + 1) =~= before + fields_text(all, i as int));
        i += 1;
    }
    assert(out@ + Seq::<char>::empty() =~= out@);
    out
}

fn render_struct(s: &StructText) -> (r: String)
    ensures
        r@ == item_text(s.deep_view()),
{
    render_attrs(&s.attrs).concat(s.vis.as_str()).concat(" struct ").concat(
        s.name.as_str(),
    ).concat(s.generics.as_str()).concat(" ").concat(s.bounds.as_str()).concat(" { ").concat(
        render_fields(&s.fields).as_str(),
    ).concat("}\n")
}

// ── account_type side: derive the offset ─────────────────────────────────

/// The name of a slot attribute; none for any other attribute.
pub open spec fn slot_name(attr: Seq<char>) -> Option<Seq<char>> {
    match source::attr_of(attr).path.ident() {
        Some(n) => if text::has_suffix(n, "_slot"@) {
            Some(n)
        } else {
            None
        },
        None => None,
    }
}

/// The attributes that mark no slot.
pub open spec fn unmarked(attrs: Seq<Seq<char>>) -> Seq<Seq<char>>
    decreases attrs.len(),
{
    if attrs.len() == 0 {
        Seq::empty()
    } else if slot_name(attrs.last()) is Some {
        unmarked(attrs.drop_last())
    } else {
        unmarked(attrs.drop_last()).push(attrs.last())
    }
}

/// The name of the last slot attribute.
pub open spec fn slot_mark(attrs: Seq<Seq<char>>) -> Option<Seq<char>>
    decreases attrs.len(),
{
    if attrs.len() == 0 {
        None
    } else if slot_name(attrs.last()) is Some {
        slot_name(attrs.last())
    } else {
        slot_mark(attrs.drop_last())
    }
}

/// Fields without their slot attributes.
pub open spec fn stripped_fields(fields: Seq<FieldTextView>) -> Seq<FieldTextView> {
    fields.map_values(|f: FieldTextView| FieldTextView { attrs: unmarked(f.attrs), ..f })
}

/// The slot fields among `fields`.
pub open spec fn slot_fields(fields: Seq<FieldTextView>) -> Seq<SlotFieldView>
    decreases fields.len(),
{
    if fields.len() == 0 {
        Seq::empty()
    } else {
        let before = slot_fields(fields.drop_last());
        let f = fields.last();
        match slot_mark(f.attrs) {
            Some(attr_name) => before.push(
                SlotFieldView {
                    index: (fields.len() - 1) as usize,
                    attr_name,
                    name: f.name,
                    ty: f.ty,
                },
            ),
            None => before,
        }
    }
}

fn strip_attrs(attrs: &Vec<String>) -> (r: (Vec<String>, Option<String>))
    ensures
        r.0.deep_view() == unmarked(attrs.deep_view()),
        r.1.deep_view() == slot_mark(attrs.deep_view()),
{
    let ghost all = attrs.deep_view();
    let mut kept: Vec<String> = none();
    let mut found: Option<String> = None;
    let mut i: usize = 0;
    assert(all.take(0) =~= Seq::empty());
    while i < attrs.len()
        invariant
            i <= attrs.len(),
            all == attrs.deep_view(),
            kept.deep_view() == unmarked(all.take(i as int)),
            found.deep_view() == slot_mark(all.take(i as int)),
        decreases attrs.len() - i,
    {
        assert(all.take(i + 1).drop_last() =~= all.take(i as int));
        assert(all.take(i + 1).last() == attrs@[i as int]@);
        let name = match read_attr(attrs[i].as_str()).path.ident() {
            Some(n) => if text::ends_with(n.as_str(), "_slot") {
                Some(n)
            } else {
                None
            },
            None => None,
        };
        assert(name.deep_view() == slot_name(attrs@[i as int]@));
        match name {
            Some(n) => {
                found = Some(n);
            },
            None => {
                put(&mut kept, attrs[i].clone());
            },
        }
        i += 1;
    }
    assert(all.take(i as int) =~= all);
    (kept, found)
}

/// Find fields carrying a `*_slot` attr and strip the attr so rustc
/// never sees it.
fn strip_slot_fields(fields: &Vec<FieldText>) -> (r: (Vec<FieldText>, Vec<SlotField>))
    ensures
        r.0.deep_view() == stripped_fields(fields.deep_view()),
        r.1.deep_view() == slot_fields(fields.deep_view()),
{
    let ghost all = fields.deep_view();
    let mut out: Vec<FieldText> = Vec::new();
    let mut slots: Vec<SlotField> = none();
    let mut i: usize = 0;
    assert(all.take(0) =~= Seq::empty());
    while i < fields.len()
        invariant
            i <= fields.len(),
            all == fields.deep_view(),
            out.len() == i,
            forall|j: int|
                0 <= j < i ==> (#[trigger] out@[j]).deep_view() == (FieldTextView {
                    attrs: unmarked(all[j].attrs),
                    ..all[j]
                }),
            slots.deep_view() == slot_fields(all.take(i as int)),
        decreases fields.len() - i,
    {
        assert(all.take(i + 1).drop_last() =~= all.take(i as int));
        assert(all.take(i + 1).last() == fields@[i as int].deep_view());
        assert(all[i as int] == fields@[i as int].deep_view());
        let f = &fields[i];
        let (attrs, mark) = strip_attrs(&f.attrs);
        if let Some(attr_name) = mark {
            put(
                &mut slots,
                SlotField { index: i, attr_name, name: f.name.clone(), ty: f.ty.clone() },
            );
        }
        out.push(
            FieldText { attrs, vis: f.vis.clone(), name: f.name.clone(), ty: f.ty.clone() },
        );
        i += 1;
    }
    assert(all.take(i as int) =~= all);
    assert(out.deep_view() =~= stripped_fields(all));
    (out, slots)
}

/// The serialized size of a type, as an expression.
pub open spec fn size_of(ty: Seq<char>) -> Seq<char> {
    "<"@ + ty + " as ::spel_framework::FixedBorshSize>::SIZE"@
}

/// Terms for the sizes of the fields from `from` up to `upto`.
pub open spec fn size_terms(fields: Seq<FieldTextView>, from: int, upto: int) -> Seq<char>
    decreases upto - from,
{
    if from < 0 || from >= upto || from >= fields.len() {
        Seq::empty()
    } else {
        " + "@ + size_of(fields[from].ty) + size_terms(fields, from + 1, upto)
    }
}

/// What [`offset_const`] emits.
pub open spec fn const_text(
    struct_name: Seq<char>,
    slot: SlotFieldView,
    fields: Seq<FieldTextView>,
) -> Seq<char> {
    "impl "@ + struct_name + " { pub const "@ + slots::slot_const(slot.attr_name)
        + ": usize = 0"@ + size_terms(fields, 0, slot.index as int) + "; }\n"@
}

/// What [`layout_test`] emits.
pub open spec fn test_text(struct_name: Seq<char>, slot: SlotFieldView) -> Seq<char> {
    "#[test]\nfn __"@ + slot.attr_name + "_offset_matches_layout() {\n    let mut v = <"@
        + struct_name + " as ::core::default::Default>::default();\n    v."@ + slot.name + " = <"@
        + slot.ty
        + " as ::spel_framework::SlotLayoutProbe>::probe();\n    let bytes = borsh::to_vec(&v).expect(\"serialize the struct\");\n    let probe = borsh::to_vec(&v."@
        + slot.name + ").expect(\"serialize the probe\");\n    let at = "@ + struct_name + "::"@
        + slots::slot_const(slot.attr_name)
        + ";\n    assert_eq!(&bytes[at..at + probe.len()], &probe[..], concat!(\"the `\", stringify!("@
        + slot.name
        + "), \"` field does not sit at the derived offset; a preceding field changed without the layout following\"));\n}\n"@
}

/// The offset constants of the slots from `from` on.
pub open spec fn consts_text(
    struct_name: Seq<char>,
    list: Seq<SlotFieldView>,
    fields: Seq<FieldTextView>,
    from: int,
) -> Seq<char>
    decreases list.len() - from,
{
    if from < 0 || from >= list.len() {
        Seq::empty()
    } else {
        const_text(struct_name, list[from], fields) + consts_text(
            struct_name,
            list,
            fields,
            from + 1,
        )
    }
}

/// The layout tests of the slots from `from` on.
pub open spec fn tests_text(struct_name: Seq<char>, list: Seq<SlotFieldView>, from: int) -> Seq<
    char,
>
    decreases list.len() - from,
{
    if from < 0 || from >= list.len() {
        Seq::empty()
    } else {
        test_text(struct_name, list[from]) + tests_text(struct_name, list, from + 1)
    }
}

/// A struct with slots, expanded: without the slot attributes, with an offset
/// constant and a layout test for each slot.
pub open spec fn expanded_struct(s: StructTextView) -> Seq<char> {
    let list = slot_fields(s.fields);
    item_text(StructTextView { fields: stripped_fields(s.fields), ..s }) + consts_text(
        s.name,
        list,
        s.fields,
        0,
    ) + "#[cfg(test)]\nmod __slot_layout_checks_"@ + text::lowercase(s.name)
        + " {\n    use super::*;\n"@ + tests_text(s.name, list, 0) + "}\n"@
}

/// What [`expand`] emits.
pub open spec fn expanded(item: Seq<char>) -> Seq<char> {
    match struct_text(item) {
        Some(s) => if slot_fields(s.fields).len() == 0 {
            item
        } else {
            expanded_struct(s)
        },
        None => item,
    }
}

fn render_size(ty: &str) -> (r: String)
    ensures
        r@ == size_of(ty@),
{
    "<".to_owned().concat(ty).concat(" as ::spel_framework::FixedBorshSize>::SIZE")
}

fn render_size_terms(fields: &Vec<FieldText>, upto: usize) -> (r: String)
    ensures
        r@ == size_terms(fields.deep_view(), 0, upto as int),
{
    let ghost all = fields.deep_view();
    let mut out = String::new();
    let mut i: usize = 0;
    assert(out@ + size_terms(all, 0, upto as int) =~= size_terms(all, 0, upto as int));
    while i < upto && i < fields.len()
        invariant
            i <= fields.len(),
            all == fields.deep_view(),
            size_terms(all, 0, upto as int) == out@ + size_terms(all, i as int, upto as int),
        decreases fields.len() - i,
    {
        assert(all[i as int] == fields@[i as int].deep_view());
        let ghost before = out@;
        out.append(" + ");
        out.append(render_size(fields[i].ty.as_str()).as_str());
        assert(out@ + size_terms(all, i + 1, upto as int) =~= before + size_terms(
            all,
            i as int,
            upto as int,
        ));
        i += 1;
    }
    assert(out@ + Seq::<char>::empty() =~= out@);
    out
}

/// The derived offset: a sum of `FixedBorshSize::SIZE` terms rustc
/// evaluates, so aliases resolve and unsupported types fail to compile.
fn offset_const(struct_name: &str, slot: &SlotField, fields: &Vec<FieldText>) -> (r: String)
    ensures
        r@ == const_text(struct_name@, slot.deep_view(), fields.deep_view()),
{
    "impl ".to_owned().concat(struct_name).concat(" { pub const ").concat(
        slot_offset_const_name(slot.attr_name.as_str()).as_str(),
    ).concat(": usize = 0").concat(render_size_terms(fields, slot.index).as_str()).concat("; }\n")
}

/// The emitted layout test: a probe value serialized in the slot field
/// must land at the derived offset, pinning the size arithmetic to real
/// serialization.
fn layout_test(struct_name: &str, slot: &SlotField) -> (r: String)
    ensures
        r@ == test_text(struct_name@, slot.deep_view()),
{
    "#[test]\nfn __".to_owned().concat(slot.attr_name.as_str()).concat(
        "_offset_matches_layout() {\n    let mut v = <",
    ).concat(struct_name).concat(" as ::core::default::Default>::default();\n    v.").concat(
        slot.name.as_str(),
    ).concat(" = <").concat(slot.ty.as_str()).concat(
        " as ::spel_framework::SlotLayoutProbe>::probe();\n    let bytes = borsh::to_vec(&v).expect(\"serialize the struct\");\n    let probe = borsh::to_vec(&v.",
    ).concat(slot.name.as_str()).concat(
        ").expect(\"serialize the probe\");\n    let at = ",
    ).concat(struct_name).concat("::").concat(
        slot_offset_const_name(slot.attr_name.as_str()).as_str(),
    ).concat(
        ";\n    assert_eq!(&bytes[at..at + probe.len()], &probe[..], concat!(\"the `\", stringify!(",
    ).concat(slot.name.as_str()).concat(
        "), \"` field does not sit at the derived offset; a preceding field changed without the layout following\"));\n}\n",
    )
}

fn offset_consts(struct_name: &str, list: &Vec<SlotField>, fields: &Vec<FieldText>) -> (r: String)
    ensures
        r@ == consts_text(struct_name@, list.deep_view(), fields.deep_view(), 0),
{
    let ghost all = list.deep_view();
    let ghost fs = fields.deep_view();
    let mut out = String::new();
    let mut i: usize = 0;
    assert(out@ + consts_text(struct_name@, all, fs, 0) =~= consts_text(struct_name@, all, fs, 0));
    while i < list.len()
        invariant
            i <= list.len(),
            all == list.deep_view(),
            fs == fields.deep_view(),
            consts_text(struct_name@, all, fs, 0) == out@ + consts_text(
                struct_name@,
                all,
                fs,
                i as int,
            ),
        decreases list.len() - i,
    {
        assert(all[i as int] == list@[i as int].deep_view());
        let ghost before = out@;
        out.append(offset_const(struct_name, &list[i], fields).as_str());
        assert(out@ + consts_text(struct_name@, all, fs, i + 1) =~= before + consts_text(
            struct_name@,
            all,
            fs,
            i as int,
        ));
        i += 1;
    }
    assert(out@ + Seq::<char>::empty() =~= out@);
    out
}

fn layout_tests(struct_name: &str, list: &Vec<SlotField>) -> (r: String)
    ensures
        r@ == tests_text(struct_name@, list.deep_view(), 0),
{
    let ghost all = list.deep_view();
    let mut out = String::new();
    let mut i: usize = 0;
    assert(out@ + tests_text(struct_name@, all, 0) =~= tests_text(struct_name@, all, 0));
    while i < list.len()
        invariant
            i <= list.len(),
            all == list.deep_view(),
            tests_text(struct_name@, all, 0) == out@ + tests_text(struct_name@, all, i as int),
        decreases list.len() - i,
    {
        assert(all[i as int] == list@[i as int].deep_view());
        let ghost before = out@;
        out.append(layout_test(struct_name, &list[i]).as_str());
        assert(out@ + tests_text(struct_name@, all, i + 1) =~= before + tests_text(
            struct_name@,
            all,
            i as int,
        ));
        i += 1;
    }
    assert(out@ + Seq::<char>::empty() =~= out@);
    out
}

/// Expand a struct the caller already read.
pub fn expand_struct(s: &StructText, item: &str) -> (r: String)
    ensures
        slot_fields(s.deep_view().fields).len() == 0 ==> r@ == item@,
        slot_fields(s.deep_view().fields).len() > 0 ==> r@ == expanded_struct(s.deep_view()),
{
    let (fields, list) = strip_slot_fields(&s.fields);
    if list.len() == 0 {
        return item.to_owned();
    }
    let bare = StructText {
        attrs: s.attrs.dup(),
        vis: s.vis.clone(),
        name: s.name.clone(),
        generics: s.generics.clone(),
        bounds: s.bounds.clone(),
        fields,
    };
    render_struct(&bare).concat(
        offset_consts(s.name.as_str(), &list, &s.fields).as_str(),
    ).concat("#[cfg(test)]\nmod __slot_layout_checks_").concat(
        text::to_lower(s.name.as_str()).as_str(),
    ).concat(" {\n    use super::*;\n").concat(
        layout_tests(s.name.as_str(), &list).as_str(),
    ).concat("}\n")
}

/// Expand `#[account_type]` on an item: a struct whose fields mark slots gains
/// its offset constants and layout tests. Enums and anything else pass through.
pub fn expand(item: &str) -> (r: String)
    ensures
        r@ == expanded(item@),
{
    match read_struct_text(item) {
        Some(s) => expand_struct(&s, item),
        None => item.to_owned(),
    }
}

// ── Window collisions ────────────────────────────────────────────────────

/// The type declared for an extension's window.
pub open spec fn state_type_of(types: Seq<(Seq<char>, Seq<char>)>, source: Seq<char>, from: int) -> Option<
    Seq<char>,
>
    decreases types.len() - from,
{
    if from < 0 || from >= types.len() {
        None
    } else if types[from].0 == source {
        Some(types[from].1)
    } else {
        state_type_of(types, source, from + 1)
    }
}

/// A declared type as a path, from what the parser makes of it.
pub open spec fn parsed_state_type(
    source: Seq<char>,
    raw: Seq<char>,
    parsed: Result<Seq<char>, Seq<char>>,
) -> Result<Seq<char>, Seq<char>> {
    match parsed {
        Ok(t) => Ok(t),
        Err(e) => Err(
            "extension '"@ + source + "': embedded.state_type "@ + text::quoted(raw)
                + " is not a valid type path: "@ + e,
        ),
    }
}

/// What [`state_type_path`] gives.
pub open spec fn state_type(types: Seq<(Seq<char>, Seq<char>)>, source: Seq<char>) -> Result<
    Seq<char>,
    Seq<char>,
> {
    match state_type_of(types, source, 0) {
        None => Err(
            "extension '"@ + source
                + "' declares no embedded.state_type; discovery must have rejected this"@,
        ),
        Some(raw) => parsed_state_type(source, raw, nodes::rendered_path(raw)),
    }
}

/// What [`offset_tokens`] gives.
pub open spec fn offset_text(e: EmbedDeclView) -> Result<Seq<char>, Seq<char>> {
    match marker::offset_expr(e.offset, e.role) {
        Ok(x) => Ok(x.text),
        Err(m) => Err(m),
    }
}

/// The assert that two windows of one account do not overlap.
pub open spec fn window_assert(
    a: (Seq<char>, EmbedDeclView),
    b: (Seq<char>, EmbedDeclView),
    ty_a: Seq<char>,
    ty_b: Seq<char>,
    off_a: Seq<char>,
    off_b: Seq<char>,
) -> Seq<char> {
    "const _: () = assert!("@ + off_a + " + "@ + size_of(ty_a) + " <= "@ + off_b + " || "@ + off_b
        + " + "@ + size_of(ty_b) + " <= "@ + off_a + ", "@ + text::quoted(
        "embedded windows of `"@ + a.0 + "` (offset "@ + off_a + ") and `"@ + b.0 + "` (offset "@
            + off_b + ") overlap in account `"@ + a.1.account + "`"@,
    ) + ");\n"@
}

/// The assert for a pair of embeds; nothing for embeds of separate accounts.
pub open spec fn pair_assert(
    a: (Seq<char>, EmbedDeclView),
    b: (Seq<char>, EmbedDeclView),
    types: Seq<(Seq<char>, Seq<char>)>,
) -> Result<Seq<char>, Seq<char>> {
    if a.1.account != b.1.account {
        Ok(Seq::empty())
    } else {
        match (
            state_type(types, a.0),
            state_type(types, b.0),
            offset_text(a.1),
            offset_text(b.1),
        ) {
            (Err(e), _, _, _) => Err(e),
            (_, Err(e), _, _) => Err(e),
            (_, _, Err(e), _) => Err(e),
            (_, _, _, Err(e)) => Err(e),
            (Ok(ty_a), Ok(ty_b), Ok(off_a), Ok(off_b)) => Ok(
                window_assert(a, b, ty_a, ty_b, off_a, off_b),
            ),
        }
    }
}

/// The asserts of the pairs from `(i, j)` on, in order, behind `out`.
pub open spec fn pair_asserts(
    embeds: Seq<(Seq<char>, EmbedDeclView)>,
    types: Seq<(Seq<char>, Seq<char>)>,
    i: int,
    j: int,
    out: Seq<char>,
) -> Result<Seq<char>, Seq<char>>
    decreases embeds.len() - i, embeds.len() - j,
{
    if i < 0 || j < 0 || i >= embeds.len() {
        Ok(out)
    } else if j >= embeds.len() {
        pair_asserts(embeds, types, i + 1, i + 2, out)
    } else {
        match pair_assert(embeds[i], embeds[j], types) {
            Ok(t) => pair_asserts(embeds, types, i, j + 1, out + t),
            Err(e) => Err(e),
        }
    }
}

fn find_state_type(types: &Vec<(String, String)>, source: &str) -> (r: Option<String>)
    ensures
        r.deep_view() == state_type_of(types.deep_view(), source@, 0),
{
    let ghost all = types.deep_view();
    let mut i: usize = 0;
    while i < types.len()
        invariant
            i <= types.len(),
            all == types.deep_view(),
            state_type_of(all, source@, 0) == state_type_of(all, source@, i as int),
        decreases types.len() - i,
    {
        assert(all[i as int] == types@[i as int].deep_view());
        if text::same(types[i].0.as_str(), source) {
            return Some(types[i].1.clone());
        }
        i += 1;
    }
    None
}

/// A declared state type from what the parser makes of it.
pub fn check_state_type(source: &str, raw: &str, parsed: Result<String, String>) -> (r: Result<
    String,
    String,
>)
    ensures
        model::outcome(r) == parsed_state_type(source@, raw@, model::outcome(parsed)),
{
    match parsed {
        Ok(t) => Ok(t),
        Err(e) => Err(
            "extension '".to_owned().concat(source).concat("': embedded.state_type ").concat(
                text::quote(raw).as_str(),
            ).concat(" is not a valid type path: ").concat(e.as_str()),
        ),
    }
}

/// The declared state type of an embedded window, parsed to a path.
fn state_type_path(types: &Vec<(String, String)>, source: &str) -> (r: Result<String, String>)
    ensures
        model::outcome(r) == state_type(types.deep_view(), source@),
{
    match find_state_type(types, source) {
        None => Err(
            "extension '".to_owned().concat(source).concat(
                "' declares no embedded.state_type; discovery must have rejected this",
            ),
        ),
        Some(raw) => check_state_type(source, raw.as_str(), render_type_path(raw.as_str())),
    }
}

/// One embed's offset as assert tokens, through the shared lowering.
/// A `Derived` offset here means the resolution pass never ran, which
/// is a framework bug rather than a consumer mistake, so the error
/// names the missing step.
pub fn offset_tokens(embed: &EmbedDecl) -> (r: Result<String, String>)
    ensures
        model::outcome(r) == offset_text(embed.deep_view()),
{
    match embed.offset.to_expr(embed.role.as_str()) {
        Ok(x) => Ok(x.text),
        Err(m) => Err(m),
    }
}

fn emit_window_assert(
    a: &(String, EmbedDecl),
    b: &(String, EmbedDecl),
    ty_a: &str,
    ty_b: &str,
    off_a: &str,
    off_b: &str,
) -> (r: String)
    ensures
        r@ == window_assert(a.deep_view(), b.deep_view(), ty_a@, ty_b@, off_a@, off_b@),
{
    let message = "embedded windows of `".to_owned().concat(a.0.as_str()).concat(
        "` (offset ",
    ).concat(off_a).concat(") and `").concat(b.0.as_str()).concat("` (offset ").concat(
        off_b,
    ).concat(") overlap in account `").concat(a.1.account.as_str()).concat("`");
    "const _: () = assert!(".to_owned().concat(off_a).concat(" + ").concat(
        render_size(ty_a).as_str(),
    ).concat(" <= ").concat(off_b).concat(" || ").concat(off_b).concat(" + ").concat(
        render_size(ty_b).as_str(),
    ).concat(" <= ").concat(off_a).concat(", ").concat(
        text::quote(message.as_str()).as_str(),
    ).concat(");\n")
}

fn emit_pair_assert(
    a: &(String, EmbedDecl),
    b: &(String, EmbedDecl),
    types: &Vec<(String, String)>,
) -> (r: Result<String, String>)
    ensures
        model::outcome(r) == pair_assert(a.deep_view(), b.deep_view(), types.deep_view()),
{
    if !text::same(a.1.account.as_str(), b.1.account.as_str()) {
        let r = String::new();
        assert(r@ =~= Seq::empty());
        return Ok(r);
    }
    let ty_a = match state_type_path(types, a.0.as_str()) {
        Ok(t) => t,
        Err(e) => {
            return Err(e);
        },
    };
    let ty_b = match state_type_path(types, b.0.as_str()) {
        Ok(t) => t,
        Err(e) => {
            return Err(e);
        },
    };
    let off_a = match offset_tokens(&a.1) {
        Ok(t) => t,
        Err(e) => {
            return Err(e);
        },
    };
    let off_b = match offset_tokens(&b.1) {
        Ok(t) => t,
        Err(e) => {
            return Err(e);
        },
    };
    Ok(emit_window_assert(a, b, ty_a.as_str(), ty_b.as_str(), off_a.as_str(), off_b.as_str()))
}

/// Const asserts refusing overlapping embedded windows in one account.
///
/// Discovery rejects identical literal offsets, but only rustc knows
/// window lengths and derived offsets, so range overlap is checked
/// here: one assert per embed pair sharing an account, each window's
/// length read from the extension's declared state type through
/// `FixedBorshSize::SIZE`, each offset lowered as its literal or its
/// carrier const path. Touching windows are legal.
#[verifier::loop_isolation(false)]
pub fn embed_window_collision_asserts(
    embeds: &Vec<(String, EmbedDecl)>,
    state_types: &Vec<(String, String)>,
) -> (r: Result<String, String>)
    ensures
        model::outcome(r) == pair_asserts(
            embeds.deep_view(),
            state_types.deep_view(),
            0,
            1,
            Seq::empty(),
        ),
{
    let ghost all = embeds.deep_view();
    let ghost types = state_types.deep_view();
    let ghost done = pair_asserts(all, types, 0, 1, Seq::empty());
    let mut out = String::new();
    let mut i: usize = 0;
    assert(out@ =~= Seq::empty());
    while i < embeds.len()
        invariant
            i <= embeds.len(),
            done == pair_asserts(all, types, i as int, i + 1, out@),
        decreases embeds.len() - i,
    {
        let mut j: usize = i + 1;
        while j < embeds.len()
            invariant
                i < j <= embeds.len(),
                done == pair_asserts(all, types, i as int, j as int, out@),
            decreases embeds.len() - j,
        {
            assert(all[i as int] == embeds@[i as int].deep_view());
            assert(all[j as int] == embeds@[j as int].deep_view());
            match emit_pair_assert(&embeds[i], &embeds[j], state_types) {
                Ok(t) => {
                    out.append(t.as_str());
                },
                Err(e) => {
                    return Err(e);
                },
            }
            j += 1;
        }
        i += 1;
    }
    Ok(out)
}

// ── lez_program side: marker agreement and derived offsets ──────────────

/// What [`agreement_assert`] emits.
pub open spec fn agreement_text(c: SlotCarrierView, offset: usize) -> Seq<char> {
    "const _: () = assert!("@ + slots::offset_path(c) + " == "@ + text::decimal(offset as nat)
        + "usize, "@ + text::quoted(
        "the marker offset "@ + text::decimal(offset as nat) + " disagrees with "@ + c.struct_name
            + "::"@ + c.const_name + "; a field before the #["@ + c.attr_name
            + "] field changed without the marker following"@,
    ) + ");\n"@
}

/// The agreement assert of one embed; nothing for an offset that is no literal
/// or a role without a carrier.
pub open spec fn embed_agreement(items: Seq<ItemView>, e: EmbedDeclView) -> Result<
    Seq<char>,
    Seq<char>,
> {
    match e.offset {
        OffsetSpecView::Literal(off) => match slots::carrier(items, e.role) {
            Err(m) => Err(m),
            Ok(Some(c)) => Ok(agreement_text(c, off)),
            Ok(None) => Ok(Seq::empty()),
        },
        _ => Ok(Seq::empty()),
    }
}

/// The agreement asserts of the embeds from `from` on, behind `out`.
pub open spec fn agreements(
    items: Seq<ItemView>,
    embeds: Seq<(Seq<char>, EmbedDeclView)>,
    from: int,
    out: Seq<char>,
) -> Result<Seq<char>, Seq<char>>
    decreases embeds.len() - from,
{
    if from < 0 || from >= embeds.len() {
        Ok(out)
    } else {
        match embed_agreement(items, embeds[from].1) {
            Ok(t) => agreements(items, embeds, from + 1, out + t),
            Err(e) => Err(e),
        }
    }
}

/// Emit the compile-time agreement check for an explicit offset.
pub fn agreement_assert(c: &SlotCarrier, offset: usize) -> (r: String)
    ensures
        r@ == agreement_text(c.deep_view(), offset),
{
    let message = "the marker offset ".to_owned().concat(text::number(offset).as_str()).concat(
        " disagrees with ",
    ).concat(c.struct_name.as_str()).concat("::").concat(c.const_name.as_str()).concat(
        "; a field before the #[",
    ).concat(c.attr_name.as_str()).concat("] field changed without the marker following");
    "const _: () = assert!(".to_owned().concat(carrier_path(c).as_str()).concat(" == ").concat(
        text::number(offset).as_str(),
    ).concat("usize, ").concat(text::quote(message.as_str()).as_str()).concat(");\n")
}

fn emit_agreement(items: &Vec<Item>, e: &EmbedDecl) -> (r: Result<String, String>)
    ensures
        model::outcome(r) == embed_agreement(items.deep_view(), e.deep_view()),
{
    let nothing = String::new();
    assert(nothing@ =~= Seq::empty());
    match e.offset {
        OffsetSpec::Literal(off) => match find_slot_carrier(items, e.role.as_str()) {
            Ok(Some(c)) => Ok(agreement_assert(&c, off)),
            Ok(None) => Ok(nothing),
            Err(m) => Err(m),
        },
        _ => Ok(nothing),
    }
}

/// Emit every embedded marker's agreement assert: declared literal
/// offset equals the carrier's derived const. Derived offsets need no
/// agreement assert, the carrier const is their single source of
/// truth. Window collisions are a separate emission,
/// [`embed_window_collision_asserts`].
///
/// Takes the binding scan set the offset resolution pass already built
/// ([`consumer_scan_items`]): one scan of the consumer and its path
/// deps per expansion, and one set of items both passes bind against.
pub fn emit_agreement_asserts(scan_items: &Vec<Item>, embeds: &Vec<(String, EmbedDecl)>) -> (r:
    Result<String, String>)
    ensures
        model::outcome(r) == agreements(
            scan_items.deep_view(),
            embeds.deep_view(),
            0,
            Seq::empty(),
        ),
{
    let ghost items = scan_items.deep_view();
    let ghost all = embeds.deep_view();
    let mut out = String::new();
    let mut i: usize = 0;
    assert(out@ =~= Seq::empty());
    while i < embeds.len()
        invariant
            i <= embeds.len(),
            items == scan_items.deep_view(),
            all == embeds.deep_view(),
            agreements(items, all, 0, Seq::empty()) == agreements(items, all, i as int, out@),
        decreases embeds.len() - i,
    {
        assert(all[i as int] == embeds@[i as int].deep_view());
        match emit_agreement(scan_items, &embeds[i].1) {
            Ok(t) => {
                out.append(t.as_str());
            },
            Err(e) => {
                return Err(e);
            },
        }
        i += 1;
    }
    Ok(out)
}

/// What [`consumer_scan_items`] gathers.
pub open spec fn consumer_items(
    disk: DiskView,
    guest_path: DirPathView,
    manifest_dir: Option<DirPathView>,
) -> Seq<ItemView> {
    let own = scan::scan_file(disk, guest_path, scan::no_scan(), scan::entry_depth(disk)).items;
    match manifest_dir {
        Some(md) => own + scan::scan_crates(
            disk,
            dep_walk::path_walk(disk, path::joined(md, "Cargo.toml"@)).dirs,
            0,
            scan::no_scan(),
        ).items,
        None => own,
    }
}

/// The first open question of [`consumer_scan_items`].
pub open spec fn consumer_question(
    disk: DiskView,
    guest_path: DirPathView,
    manifest_dir: Option<DirPathView>,
) -> Option<QueryView> {
    disk::first_open(
        scan::entry_question(disk, guest_path),
        match manifest_dir {
            Some(md) => {
                let manifest = path::joined(md, "Cargo.toml"@);
                disk::first_open(
                    dep_walk::path_walk_question(disk, manifest),
                    scan::crates_question(
                        disk,
                        dep_walk::path_walk(disk, manifest).dirs,
                        0,
                        scan::no_scan(),
                    ),
                )
            },
            None => None,
        },
    )
}

/// The consumer's binding scan set: the entry file with its inline and
/// file-backed modules, plus local path-dependency crates for the
/// shared-core layout. Git and registry dependencies never participate,
/// a foreign crate must not satisfy or steal the consumer's slot
/// binding. `manifest_dir` is the directory of the consumer's manifest, where
/// it is known.
pub fn consumer_scan_items(disk: &Disk, guest_path: &DirPath, manifest_dir: Option<&DirPath>) -> (r:
    Result<Vec<Item>, Query>)
    ensures
        disk::asks(
            r,
            consumer_question(
                disk.deep_view(),
                guest_path.deep_view(),
                manifest_dir.deep_view(),
            ),
        ),
        match r {
            Ok(items) => items.deep_view() == consumer_items(
                disk.deep_view(),
                guest_path.deep_view(),
                manifest_dir.deep_view(),
            ),
            Err(q) => disk.deep_view().lacks(q.deep_view()),
        },
{
    let mut items = match collect_file_items_following_mods(disk, guest_path) {
        Ok(items) => items,
        Err(q) => {
            return Err(q);
        },
    };
    match manifest_dir {
        Some(md) => {
            let dirs = match path_dep_dirs(disk, &md.join("Cargo.toml")) {
                Ok(dirs) => dirs,
                Err(q) => {
                    return Err(q);
                },
            };
            match collect_items_from_crate_dirs(disk, &dirs) {
                Ok((more, _)) => {
                    put_all(&mut items, more);
                    Ok(items)
                },
                Err(q) => Err(q),
            }
        },
        None => Ok(items),
    }
}

// ── token lowering: resolved offsets back into consumer code ─────────────

/// What [`bound_value_tokens`] gives.
pub open spec fn bound_text(v: BoundValueView) -> Result<Seq<char>, Seq<char>> {
    match marker::bound_expr(v) {
        Ok(x) => Ok(x.text),
        Err(m) => Err(m),
    }
}

/// One resolved bound value as a dispatch call argument, through the
/// same lowering the asserts and the stamped gate kwargs take. An
/// unresolved `Derived` here means the resolution pass never ran; the
/// message says so, and the caller fails the consumer's build with it.
pub fn bound_value_tokens(v: &BoundValue) -> (r: Result<String, String>)
    ensures
        model::outcome(r) == bound_text(v.deep_view()),
{
    match v.to_expr() {
        Ok(x) => Ok(x.text),
        Err(m) => Err(m),
    }
}

} // verus!
