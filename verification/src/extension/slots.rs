//! Slot-carrier resolution: binds an embedded role to the consumer
//! struct carrying its `*_slot` field, and lowers derived offsets to
//! the carrier's const path.
//!
//! The dispatcher expansion runs this; the IDL producers do not. An
//! offset reaches consumer code only through a gate attr, which the
//! IDL producers discard, so they run a gate pass under
//! `GateLocations::Omit` and never need a carrier. Keeping the scan on
//! one side keeps one binding scan set: a carrier living in a local
//! path dependency resolves for the party that reads it, and no second
//! producer can disagree about which items were in scope.
use crate::attrs;
use crate::attrs::has_attr;
use crate::extension::marker::{BoundValue, BoundValueView, EmbedDeclView, OffsetSpec, OffsetSpecView};
use crate::extension::{Embed, EmbedView, ExtensionDiscoveries, ExtensionDiscoveriesView};
use crate::model;
use crate::model::{none, put, Dup};
use crate::syntax::{Field, FieldView, Item, ItemView};
use crate::text;
use vstd::prelude::*;

verus! {

/// A role's slot carrier: the consumer struct holding the `*_slot`
/// field and the offset const `#[account_type]` derived for it.
#[derive(Debug, PartialEq, Eq)]
pub struct SlotCarrier {
    pub struct_name: String,
    pub const_name: String,
    pub attr_name: String,
}

/// What a [`SlotCarrier`] holds.
#[verifier::ext_equal]
pub struct SlotCarrierView {
    pub struct_name: Seq<char>,
    pub const_name: Seq<char>,
    pub attr_name: Seq<char>,
}

impl DeepView for SlotCarrier {
    type V = SlotCarrierView;

    open spec fn deep_view(&self) -> SlotCarrierView {
        SlotCarrierView {
            struct_name: self.struct_name@,
            const_name: self.const_name@,
            attr_name: self.attr_name@,
        }
    }
}

impl Dup for SlotCarrier {
    fn dup(&self) -> (r: Self) {
        SlotCarrier {
            struct_name: self.struct_name.clone(),
            const_name: self.const_name.clone(),
            attr_name: self.attr_name.clone(),
        }
    }
}

/// The field-marker attribute a role binds.
pub open spec fn slot_attr(role: Seq<char>) -> Seq<char> {
    text::minus_suffix(role, "_config"@) + "_slot"@
}

/// The offset const a slot attribute derives.
pub open spec fn slot_const(attr: Seq<char>) -> Seq<char> {
    text::uppercase(attr) + "_OFFSET"@
}

/// The field-marker attribute a role binds: `my_config` binds
/// `#[my_slot]`.
pub fn slot_attr_name(role: &str) -> (r: String)
    ensures
        r@ == slot_attr(role@),
{
    text::strip_suffix(role, "_config").concat("_slot")
}

/// The offset const a slot attribute derives: `#[my_slot]` carries
/// `MY_SLOT_OFFSET`. The macro emits the const under this name and the
/// resolver builds the path that reads it, so the convention has one
/// definition rather than one per side. On a snake-case ASCII attribute name
/// each letter is upper-cased on its own.
pub fn slot_offset_const_name(attr_name: &str) -> (r: String)
    ensures
        r@ == slot_const(attr_name@),
        text::is_snake(attr_name@) ==> r@ == attr_name@.map_values(
            |c: char| text::snake_upper(c),
        ) + "_OFFSET"@,
{
    text::to_upper(attr_name).concat("_OFFSET")
}

/// Whether one of the fields carries the bare attribute `attr`.
pub open spec fn has_slot(fields: Seq<FieldView>, attr: Seq<char>) -> bool {
    exists|i: int| 0 <= i < fields.len() && attrs::named((#[trigger] fields[i]).attrs, attr)
}

/// The name of an item that carries the slot: a struct with a named field so
/// marked.
pub open spec fn slot_struct(item: ItemView, attr: Seq<char>) -> Option<Seq<char>> {
    match item {
        ItemView::Struct(s) => match s.fields {
            Some(fields) => if has_slot(fields, attr) {
                Some(s.name)
            } else {
                None
            },
            None => None,
        },
        _ => None,
    }
}

/// The struct that carries the slot among the items from `from` on; `found`
/// was met before. A second one is an error.
pub open spec fn carrier_from(
    items: Seq<ItemView>,
    attr: Seq<char>,
    from: int,
    found: Option<Seq<char>>,
) -> Result<Option<Seq<char>>, Seq<char>>
    decreases items.len() - from,
{
    if from < 0 || from >= items.len() {
        Ok(found)
    } else {
        match slot_struct(items[from], attr) {
            None => carrier_from(items, attr, from + 1, found),
            Some(name) => match found {
                Some(first) => Err(
                    "both `"@ + first + "` and `"@ + name + "` carry a #["@ + attr
                        + "] field; only one struct may embed this slot"@,
                ),
                None => carrier_from(items, attr, from + 1, Some(name)),
            },
        }
    }
}

/// The carrier of a role's slot among `items`.
pub open spec fn carrier(items: Seq<ItemView>, role: Seq<char>) -> Result<
    Option<SlotCarrierView>,
    Seq<char>,
> {
    match carrier_from(items, slot_attr(role), 0, None) {
        Err(e) => Err(e),
        Ok(None) => Ok(None),
        Ok(Some(struct_name)) => Ok(
            Some(
                SlotCarrierView {
                    struct_name,
                    const_name: slot_const(slot_attr(role)),
                    attr_name: slot_attr(role),
                },
            ),
        ),
    }
}

fn find_slot(item: &Item, attr_name: &str) -> (r: Option<String>)
    ensures
        r.deep_view() == slot_struct(item.deep_view(), attr_name@),
{
    let st = match item {
        Item::Struct(s) => s,
        _ => {
            return None;
        },
    };
    let fields = match &st.fields {
        Some(f) => f,
        None => {
            return None;
        },
    };
    if fields_have_slot(fields, attr_name) {
        Some(st.name.clone())
    } else {
        None
    }
}

fn fields_have_slot(fields: &Vec<Field>, attr_name: &str) -> (r: bool)
    ensures
        r == has_slot(fields.deep_view(), attr_name@),
{
    let ghost all = fields.deep_view();
    let mut i: usize = 0;
    while i < fields.len()
        invariant
            i <= fields.len(),
            all == fields.deep_view(),
            forall|j: int| 0 <= j < i ==> !attrs::named((#[trigger] all[j]).attrs, attr_name@),
        decreases fields.len() - i,
    {
        assert(all[i as int] == fields@[i as int].deep_view());
        if has_attr(&fields[i].attrs, attr_name) {
            return true;
        }
        i += 1;
    }
    false
}

/// Binds a role to the one consumer struct carrying its slot
/// attribute. Dependency items never participate, a dep crate must not
/// satisfy or steal the consumer's binding. Two carriers is an error,
/// none means the derive is not adopted.
///
/// # Errors
///
/// `Err` when two structs carry the role's slot attribute, naming
/// both. Callers surface it as a compile error.
#[verifier::loop_isolation(false)]
pub fn find_slot_carrier(items: &Vec<Item>, role: &str) -> (r: Result<Option<SlotCarrier>, String>)
    ensures
        model::outcome(r) == carrier(items.deep_view(), role@),
{
    let attr_name = slot_attr_name(role);
    let ghost its = items.deep_view();
    let mut found: Option<String> = None;
    let mut i: usize = 0;
    while i < items.len()
        invariant
            i <= items.len(),
            carrier_from(its, attr_name@, 0, None) == carrier_from(
                its,
                attr_name@,
                i as int,
                found.deep_view(),
            ),
        decreases items.len() - i,
    {
        assert(its[i as int] == items@[i as int].deep_view());
        if let Some(name) = find_slot(&items[i], attr_name.as_str()) {
            match &found {
                Some(first) => {
                    return Err(
                        "both `".to_owned().concat(first.as_str()).concat("` and `").concat(
                            name.as_str(),
                        ).concat("` carry a #[").concat(attr_name.as_str()).concat(
                            "] field; only one struct may embed this slot",
                        ),
                    );
                },
                None => {
                    found = Some(name);
                },
            }
        }
        i += 1;
    }
    match found {
        None => Ok(None),
        Some(struct_name) => {
            let const_name = slot_offset_const_name(attr_name.as_str());
            Ok(Some(SlotCarrier { struct_name, const_name, attr_name }))
        },
    }
}

/// The const path of a carrier's offset.
pub open spec fn offset_path(c: SlotCarrierView) -> Seq<char> {
    c.struct_name + "::"@ + c.const_name
}

/// The const path a derived offset resolves to.
pub fn carrier_path(c: &SlotCarrier) -> (r: String)
    ensures
        r@ == offset_path(c.deep_view()),
{
    c.struct_name.clone().concat("::").concat(c.const_name.as_str())
}

/// The message for a derivation without a carrier. The fix differs for an
/// anchored extension, which has no offset kwarg to fall back to.
pub open spec fn missing_carrier(role: Seq<char>, initializer: Option<Seq<char>>) -> Seq<char> {
    let slot = slot_attr(role);
    match initializer {
        Some(anchor) => "`"@ + role + "` derives its offset but no struct carries a #["@ + slot
            + "] field; the fn carrying #["@ + anchor
            + "] puts this extension in embedded mode, so mark the embedding field with #["@ + slot
            + "], or remove #["@ + anchor + "] for dedicated mode"@,
        None => "`"@ + role + "` derives its offset but no struct carries a #["@ + slot
            + "] field; mark the embedded field or declare `offset = <bytes>` on the marker"@,
    }
}

/// The carrier of a role that must have one.
pub open spec fn required_carrier(
    items: Seq<ItemView>,
    role: Seq<char>,
    initializer: Option<Seq<char>>,
) -> Result<SlotCarrierView, Seq<char>> {
    match carrier(items, role) {
        Err(e) => Err(e),
        Ok(Some(c)) => Ok(c),
        Ok(None) => Err(missing_carrier(role, initializer)),
    }
}

/// The carrier for a role that must have one. `initializer` is the
/// anchor attr when the embed was inferred: the fix differs, because an
/// anchored extension has no offset kwarg to fall back to.
fn require_carrier(items: &Vec<Item>, role: &str, initializer: &Option<String>) -> (r: Result<
    SlotCarrier,
    String,
>)
    ensures
        model::outcome(r) == required_carrier(items.deep_view(), role@, initializer.deep_view()),
{
    match find_slot_carrier(items, role) {
        Err(e) => Err(e),
        Ok(Some(c)) => Ok(c),
        Ok(None) => {
            let slot = slot_attr_name(role);
            let msg = match initializer {
                Some(anchor) => "`".to_owned().concat(role).concat(
                    "` derives its offset but no struct carries a #[",
                ).concat(slot.as_str()).concat("] field; the fn carrying #[").concat(
                    anchor.as_str(),
                ).concat(
                    "] puts this extension in embedded mode, so mark the embedding field with #[",
                ).concat(slot.as_str()).concat("], or remove #[").concat(anchor.as_str()).concat(
                    "] for dedicated mode",
                ),
                None => "`".to_owned().concat(role).concat(
                    "` derives its offset but no struct carries a #[",
                ).concat(slot.as_str()).concat(
                    "] field; mark the embedded field or declare `offset = <bytes>` on the marker",
                ),
            };
            Err(msg)
        },
    }
}

// ── Resolution ───────────────────────────────────────────────────────────

/// An embed with its carrier bound. A derivation must have one and becomes its
/// const path; any other offset stays.
pub open spec fn bound_embed(e: EmbedView, items: Seq<ItemView>) -> Result<EmbedView, Seq<char>> {
    if e.decl.offset is Derived {
        match required_carrier(items, e.decl.role, e.decl.initializer) {
            Err(msg) => Err(msg),
            Ok(c) => Ok(
                EmbedView {
                    carrier: Some(c),
                    decl: EmbedDeclView { offset: OffsetSpecView::Path(offset_path(c)), ..e.decl },
                    ..e
                },
            ),
        }
    } else {
        match carrier(items, e.decl.role) {
            Err(msg) => Err(msg),
            Ok(c) => Ok(EmbedView { carrier: c, ..e }),
        }
    }
}

/// The embeds from `from` on with their carriers bound, behind `out`.
pub open spec fn bound_embeds_from(
    embeds: Seq<EmbedView>,
    items: Seq<ItemView>,
    from: int,
    out: Seq<EmbedView>,
) -> Result<Seq<EmbedView>, Seq<char>>
    decreases embeds.len() - from,
{
    if from < 0 || from >= embeds.len() {
        Ok(out)
    } else {
        match bound_embed(embeds[from], items) {
            Ok(e) => bound_embeds_from(embeds, items, from + 1, out.push(e)),
            Err(msg) => Err(msg),
        }
    }
}

/// The initializer of the first embed from `from` on that declares the role.
pub open spec fn role_initializer(embeds: Seq<EmbedView>, role: Seq<char>, from: int) -> Option<
    Seq<char>,
>
    decreases embeds.len() - from,
{
    if from < 0 || from >= embeds.len() {
        None
    } else if embeds[from].decl.role == role {
        embeds[from].decl.initializer
    } else {
        role_initializer(embeds, role, from + 1)
    }
}

/// A bound value with its derivation resolved; any other stays.
pub open spec fn resolved_value(
    v: BoundValueView,
    embeds: Seq<EmbedView>,
    items: Seq<ItemView>,
) -> Result<BoundValueView, Seq<char>> {
    match v {
        BoundValueView::Derived { role } => match required_carrier(
            items,
            role,
            role_initializer(embeds, role, 0),
        ) {
            Ok(c) => Ok(BoundValueView::Path(offset_path(c))),
            Err(msg) => Err(msg),
        },
        _ => Ok(v),
    }
}

/// The values from `from` on, resolved, behind `out`.
pub open spec fn resolved_values_from(
    values: Seq<BoundValueView>,
    embeds: Seq<EmbedView>,
    items: Seq<ItemView>,
    from: int,
    out: Seq<BoundValueView>,
) -> Result<Seq<BoundValueView>, Seq<char>>
    decreases values.len() - from,
{
    if from < 0 || from >= values.len() {
        Ok(out)
    } else {
        match resolved_value(values[from], embeds, items) {
            Ok(v) => resolved_values_from(values, embeds, items, from + 1, out.push(v)),
            Err(msg) => Err(msg),
        }
    }
}

/// The bound calls from `from` on, resolved, behind `out`.
pub open spec fn resolved_calls_from(
    calls: Seq<(Seq<char>, Seq<BoundValueView>)>,
    embeds: Seq<EmbedView>,
    items: Seq<ItemView>,
    from: int,
    out: Seq<(Seq<char>, Seq<BoundValueView>)>,
) -> Result<Seq<(Seq<char>, Seq<BoundValueView>)>, Seq<char>>
    decreases calls.len() - from,
{
    if from < 0 || from >= calls.len() {
        Ok(out)
    } else {
        match resolved_values_from(calls[from].1, embeds, items, 0, Seq::empty()) {
            Ok(values) => resolved_calls_from(
                calls,
                embeds,
                items,
                from + 1,
                out.push((calls[from].0, values)),
            ),
            Err(msg) => Err(msg),
        }
    }
}

/// The discoveries with every derivation resolved against `items`.
pub open spec fn resolved_offsets(ext: ExtensionDiscoveriesView, items: Seq<ItemView>) -> Result<
    ExtensionDiscoveriesView,
    Seq<char>,
> {
    match bound_embeds_from(ext.embeds, items, 0, Seq::empty()) {
        Err(msg) => Err(msg),
        Ok(embeds) => match resolved_calls_from(ext.bound_calls, embeds, items, 0, Seq::empty()) {
            Err(msg) => Err(msg),
            Ok(bound_calls) => Ok(ExtensionDiscoveriesView { embeds, bound_calls, ..ext }),
        },
    }
}

fn bind_embed(e: &Embed, items: &Vec<Item>) -> (r: Result<Embed, String>)
    ensures
        model::outcome(r) == bound_embed(e.deep_view(), items.deep_view()),
{
    // Every embed binds its carrier here, whatever its offset came
    // from, so one pass owns the binding and the emission side reads
    // it. A derivation must have one, since it has no other source
    // for the offset. A literal takes one when the consumer marked
    // the field, and the agreement assert compares the two; with no
    // marked field there is nothing to compare and nothing to emit.
    let mut out = e.dup();
    if e.decl.offset.is_derived() {
        match require_carrier(items, e.decl.role.as_str(), &e.decl.initializer) {
            Ok(c) => {
                out.decl.offset = OffsetSpec::Path(carrier_path(&c));
                out.carrier = Some(c);
                Ok(out)
            },
            Err(msg) => Err(msg),
        }
    } else {
        match find_slot_carrier(items, e.decl.role.as_str()) {
            Ok(c) => {
                out.carrier = c;
                Ok(out)
            },
            Err(msg) => Err(msg),
        }
    }
}

fn bind_embeds(embeds: &Vec<Embed>, items: &Vec<Item>) -> (r: Result<Vec<Embed>, String>)
    ensures
        model::outcome(r) == bound_embeds_from(
            embeds.deep_view(),
            items.deep_view(),
            0,
            Seq::empty(),
        ),
{
    let ghost all = embeds.deep_view();
    let ghost its = items.deep_view();
    let mut out: Vec<Embed> = none();
    let mut i: usize = 0;
    while i < embeds.len()
        invariant
            i <= embeds.len(),
            all == embeds.deep_view(),
            its == items.deep_view(),
            bound_embeds_from(all, its, 0, Seq::empty()) == bound_embeds_from(
                all,
                its,
                i as int,
                out.deep_view(),
            ),
        decreases embeds.len() - i,
    {
        assert(all[i as int] == embeds@[i as int].deep_view());
        match bind_embed(&embeds[i], items) {
            Ok(e) => {
                put(&mut out, e);
            },
            Err(msg) => {
                return Err(msg);
            },
        }
        i += 1;
    }
    Ok(out)
}

fn find_initializer(embeds: &Vec<Embed>, role: &str) -> (r: Option<String>)
    ensures
        r.deep_view() == role_initializer(embeds.deep_view(), role@, 0),
{
    let ghost all = embeds.deep_view();
    let mut i: usize = 0;
    while i < embeds.len()
        invariant
            i <= embeds.len(),
            all == embeds.deep_view(),
            role_initializer(all, role@, 0) == role_initializer(all, role@, i as int),
        decreases embeds.len() - i,
    {
        assert(all[i as int] == embeds@[i as int].deep_view());
        if text::same(embeds[i].decl.role.as_str(), role) {
            return embeds[i].decl.initializer.dup();
        }
        i += 1;
    }
    None
}

fn resolve_values(values: &Vec<BoundValue>, embeds: &Vec<Embed>, items: &Vec<Item>) -> (r: Result<
    Vec<BoundValue>,
    String,
>)
    ensures
        model::outcome(r) == resolved_values_from(
            values.deep_view(),
            embeds.deep_view(),
            items.deep_view(),
            0,
            Seq::empty(),
        ),
{
    let ghost all = values.deep_view();
    let ghost embs = embeds.deep_view();
    let ghost its = items.deep_view();
    let mut out: Vec<BoundValue> = none();
    let mut i: usize = 0;
    while i < values.len()
        invariant
            i <= values.len(),
            all == values.deep_view(),
            embs == embeds.deep_view(),
            its == items.deep_view(),
            resolved_values_from(all, embs, its, 0, Seq::empty()) == resolved_values_from(
                all,
                embs,
                its,
                i as int,
                out.deep_view(),
            ),
        decreases values.len() - i,
    {
        assert(all[i as int] == values@[i as int].deep_view());
        match &values[i] {
            BoundValue::Derived { role } => {
                let initializer = find_initializer(embeds, role.as_str());
                match require_carrier(items, role.as_str(), &initializer) {
                    Ok(c) => {
                        put(&mut out, BoundValue::Path(carrier_path(&c)));
                    },
                    Err(msg) => {
                        return Err(msg);
                    },
                }
            },
            other => {
                put(&mut out, other.dup());
            },
        }
        i += 1;
    }
    Ok(out)
}

fn resolve_calls(
    calls: &Vec<(String, Vec<BoundValue>)>,
    embeds: &Vec<Embed>,
    items: &Vec<Item>,
) -> (r: Result<Vec<(String, Vec<BoundValue>)>, String>)
    ensures
        model::outcome(r) == resolved_calls_from(
            calls.deep_view(),
            embeds.deep_view(),
            items.deep_view(),
            0,
            Seq::empty(),
        ),
{
    let ghost all = calls.deep_view();
    let ghost embs = embeds.deep_view();
    let ghost its = items.deep_view();
    let mut out: Vec<(String, Vec<BoundValue>)> = none();
    let mut i: usize = 0;
    while i < calls.len()
        invariant
            i <= calls.len(),
            all == calls.deep_view(),
            embs == embeds.deep_view(),
            its == items.deep_view(),
            resolved_calls_from(all, embs, its, 0, Seq::empty()) == resolved_calls_from(
                all,
                embs,
                its,
                i as int,
                out.deep_view(),
            ),
        decreases calls.len() - i,
    {
        assert(all[i as int] == calls@[i as int].deep_view());
        match resolve_values(&calls[i].1, embeds, items) {
            Ok(values) => {
                put(&mut out, (calls[i].0.clone(), values));
            },
            Err(msg) => {
                return Err(msg);
            },
        }
        i += 1;
    }
    Ok(out)
}

/// Lower every `Derived` offset in the discoveries to the carrier's
/// const path. Runs once, immediately after discovery, in every
/// producer. After this pass a surviving `Derived` is a framework bug.
///
/// # Errors
///
/// `Err` when a derivation has no carrier, spelling out the fix, or
/// when the carrier binding is ambiguous. Callers surface it as a
/// compile error.
pub fn resolve_derived_offsets(ext: &mut ExtensionDiscoveries, items: &Vec<Item>) -> (r: Result<
    (),
    String,
>)
    ensures
        match resolved_offsets(old(ext).deep_view(), items.deep_view()) {
            Ok(done) => r is Ok && final(ext).deep_view() == done,
            Err(msg) => r is Err && r->Err_0@ == msg,
        },
{
    match bind_embeds(&ext.embeds, items) {
        Ok(embeds) => {
            ext.embeds = embeds;
        },
        Err(msg) => {
            return Err(msg);
        },
    }
    match resolve_calls(&ext.bound_calls, &ext.embeds, items) {
        Ok(calls) => {
            ext.bound_calls = calls;
            Ok(())
        },
        Err(msg) => Err(msg),
    }
}

} // verus!
