//! Which of a program's direct dependencies are extensions it uses, and what
//! they contribute.
use crate::attrs;
use crate::attrs::find_attr;
use crate::disk;
use crate::disk::{Disk, DiskView, QueryView};
use crate::extension;
use crate::extension::inject;
use crate::extension::marker;
use crate::extension::marker::{
    infer_anchor_embed, parse_marker_args, BoundValue, BoundValueView, EmbedDecl, EmbedDeclView,
    MarkerArgs, MarkerArgsView, OffsetSpec, OffsetSpecView,
};
use crate::extension::metadata;
use crate::extension::metadata::{
    read_manifest_value, read_package_ident, read_spel_bound_args, read_spel_embedded,
    read_spel_extension_attr, read_spel_inject_specs, read_spel_wrap_instructions, BoundArg,
    BoundArgView, EmbeddedMeta, EmbeddedMetaView,
};
use crate::extension::{
    Embed, EmbedView, ExtensionDiscoveries, ExtensionDiscoveriesView, InjectSpec, InjectSpecView,
    Stop, WrapInstructions, WrapInstructionsView,
};
use crate::idl_gen::has_instruction_attr;
use crate::model;
use crate::model::{none, put, put_all, single, Dup};
use crate::path;
use crate::path::{DirPath, DirPathView};
use crate::scan;
use crate::scan::collect_items_from_crate_dirs;
use crate::syntax::{
    Attribute, AttributeView, FnArg, FnArgView, Item, ItemFn, ItemFnView, ItemView, Path, PathView,
};
use crate::text;
use crate::text::{holds, same, split_colons};
use crate::value::{Value, ValueView};
use vstd::prelude::*;

verus! {

/// What one matched extension contributes.
#[derive(Debug, PartialEq, Eq)]
pub struct MatchedExtension {
    /// Position of the extension's marker on the program module.
    pub marker_pos: usize,
    pub instructions: Vec<(ItemFn, Path)>,
    pub inject_specs: Vec<InjectSpec>,
    pub wraps: Vec<(String, WrapInstructions)>,
    pub embeds: Vec<Embed>,
    pub bound_calls: Vec<(String, Vec<BoundValue>)>,
    /// The marker's name.
    pub marker: String,
}

/// What a [`MatchedExtension`] holds.
#[verifier::ext_equal]
pub struct MatchedExtensionView {
    pub marker_pos: usize,
    pub instructions: Seq<(ItemFnView, PathView)>,
    pub inject_specs: Seq<InjectSpecView>,
    pub wraps: Seq<(Seq<char>, WrapInstructionsView)>,
    pub embeds: Seq<EmbedView>,
    pub bound_calls: Seq<(Seq<char>, Seq<BoundValueView>)>,
    pub marker: Seq<char>,
}

impl DeepView for MatchedExtension {
    type V = MatchedExtensionView;

    open spec fn deep_view(&self) -> MatchedExtensionView {
        MatchedExtensionView {
            marker_pos: self.marker_pos,
            instructions: self.instructions.deep_view(),
            inject_specs: self.inject_specs.deep_view(),
            wraps: self.wraps.deep_view(),
            embeds: self.embeds.deep_view(),
            bound_calls: self.bound_calls.deep_view(),
            marker: self.marker@,
        }
    }
}

impl Dup for MatchedExtension {
    fn dup(&self) -> (r: Self) {
        MatchedExtension {
            marker_pos: self.marker_pos,
            instructions: self.instructions.dup(),
            inject_specs: self.inject_specs.dup(),
            wraps: self.wraps.dup(),
            embeds: self.embeds.dup(),
            bound_calls: self.bound_calls.dup(),
            marker: self.marker.clone(),
        }
    }
}

// ── Instruction fns ──────────────────────────────────────────────────────

/// The `#[instruction]` fns among `items`, in order.
pub open spec fn instruction_fns(items: Seq<ItemView>) -> Seq<ItemFnView>
    decreases items.len(),
{
    if items.len() == 0 {
        Seq::empty()
    } else {
        let before = instruction_fns(items.drop_last());
        match items.last() {
            ItemView::Fn(f) => if attrs::named(f.attrs, "instruction"@) {
                before.push(f)
            } else {
                before
            },
            _ => before,
        }
    }
}

/// Filter `#[instruction]`-annotated fns from a flat item list.
///
/// Used by framework codegen to pull instruction definitions out of
/// extension libraries (e.g. admin-authority) that ship pre-defined
/// instructions to be merged into a consuming program's IDL + dispatcher.
pub fn collect_instruction_fns(items: &Vec<Item>) -> (r: Vec<ItemFn>)
    ensures
        r.deep_view() == instruction_fns(items.deep_view()),
{
    let ghost all = items.deep_view();
    let mut out: Vec<ItemFn> = none();
    let mut i: usize = 0;
    assert(all.take(0) =~= Seq::empty());
    while i < items.len()
        invariant
            i <= items.len(),
            all == items.deep_view(),
            out.deep_view() == instruction_fns(all.take(i as int)),
        decreases items.len() - i,
    {
        assert(all.take(i + 1).drop_last() =~= all.take(i as int));
        assert(all.take(i + 1).last() == items@[i as int].deep_view());
        if let Item::Fn(f) = &items[i] {
            if has_instruction_attr(&f.attrs) {
                put(&mut out, f.dup());
            }
        }
        i += 1;
    }
    assert(all.take(i as int) =~= all);
    out
}

// ── Marker arguments and embeds ──────────────────────────────────────────

/// The arguments of the first marker called `ext` on the module.
pub open spec fn first_args(mod_attrs: Seq<AttributeView>, ext: Seq<char>) -> Result<
    Option<MarkerArgsView>,
    Seq<char>,
> {
    match attrs::first_named(mod_attrs, ext, 0) {
        Some(i) => marker::marker_args(mod_attrs[i], ext),
        None => Ok(None),
    }
}

fn read_first_args(mod_attrs: &Vec<Attribute>, ext: &str) -> (r: Result<
    Option<MarkerArgs>,
    String,
>)
    ensures
        model::outcome(r) == first_args(mod_attrs.deep_view(), ext@),
{
    match find_attr(mod_attrs, ext) {
        Some(i) => {
            assert(mod_attrs.deep_view()[i as int] == mod_attrs@[i as int].deep_view());
            parse_marker_args(&mod_attrs[i], ext)
        },
        None => Ok(None),
    }
}

/// What [`resolve_embed_decl`] decides.
pub open spec fn embed_decl(
    marker_embed: Option<EmbedDeclView>,
    embedded: EmbeddedMetaView,
    mod_items: Seq<ItemView>,
    crate_name: Seq<char>,
    ext_attr: Seq<char>,
) -> Result<Option<EmbedDeclView>, Seq<char>> {
    match (marker_embed, embedded.anchor) {
        (Some(_), Some(_)) => Err(
            "extension `"@ + crate_name
                + "` declares an embed anchor (embedded.anchor_attr); the marker's role kwarg is retired for it, the anchor fn names the embedding account. Drop the kwarg from #["@
                + ext_attr + "]"@,
        ),
        (None, Some(a)) => marker::inferred_embed(mod_items, a.attr, a.role, crate_name),
        (embed, None) => Ok(embed),
    }
}

/// Decide an extension's embedded declaration: the marker's role kwarg
/// for anchorless extensions, anchor inference for anchored ones, and
/// a hard error when both speak.
pub fn resolve_embed_decl(
    marker_embed: Option<EmbedDecl>,
    embedded: &EmbeddedMeta,
    mod_items: &Vec<Item>,
    crate_name: &str,
    ext_attr: &str,
) -> (r: Result<Option<EmbedDecl>, String>)
    ensures
        model::outcome(r) == embed_decl(
            marker_embed.deep_view(),
            embedded.deep_view(),
            mod_items.deep_view(),
            crate_name@,
            ext_attr@,
        ),
{
    match &embedded.anchor {
        Some(a) => match marker_embed {
            Some(_) => Err(
                "extension `".to_owned().concat(crate_name).concat(
                    "` declares an embed anchor (embedded.anchor_attr); the marker's role kwarg is retired for it, the anchor fn names the embedding account. Drop the kwarg from #[",
                ).concat(ext_attr).concat("]"),
            ),
            None => infer_anchor_embed(mod_items, a.attr.as_str(), a.role.as_str(), crate_name),
        },
        None => Ok(marker_embed),
    }
}

/// The embeds of an extension: none, or the one declared, whose window must
/// have a type.
pub open spec fn typed_embeds(
    decl: Option<EmbedDeclView>,
    state_type: Option<Seq<char>>,
    crate_name: Seq<char>,
) -> Result<Seq<EmbedView>, Seq<char>> {
    match decl {
        None => Ok(Seq::empty()),
        Some(d) => match state_type {
            Some(t) => Ok(
                seq![EmbedView { source: crate_name, decl: d, state_type: t, carrier: None }],
            ),
            None => Err(
                "extension '"@ + crate_name
                    + "' is used in embedded mode but its metadata declares no `embedded.state_type`; name the type occupying the embedded window (e.g. state_type = \""@
                    + crate_name + "::MyConfig\") so window collision asserts can be emitted"@,
            ),
        },
    }
}

fn type_embeds(decl: Option<EmbedDecl>, state_type: Option<String>, crate_name: &str) -> (r: Result<
    Vec<Embed>,
    String,
>)
    ensures
        model::outcome(r) == typed_embeds(
            decl.deep_view(),
            state_type.deep_view(),
            crate_name@,
        ),
{
    match decl {
        None => Ok(none()),
        Some(d) => match state_type {
            Some(t) => Ok(
                single(
                    Embed {
                        source: crate_name.to_owned(),
                        decl: d,
                        state_type: t,
                        carrier: None,
                    },
                ),
            ),
            None => Err(
                "extension '".to_owned().concat(crate_name).concat(
                    "' is used in embedded mode but its metadata declares no `embedded.state_type`; name the type occupying the embedded window (e.g. state_type = \"",
                ).concat(crate_name).concat(
                    "::MyConfig\") so window collision asserts can be emitted",
                ),
            ),
        },
    }
}

// ── Bound arguments ──────────────────────────────────────────────────────

/// The marker kwarg a bound arg reads.
pub open spec fn bound_kwarg(from: Seq<char>) -> Seq<char> {
    match text::split_first(from) {
        Some((_, kwarg)) => kwarg,
        None => from,
    }
}

/// Whether the bound args from `at` on read a kwarg the framework knows.
pub open spec fn known_kwargs(bounds: Seq<BoundArgView>, crate_name: Seq<char>, at: int) -> Result<
    (),
    Seq<char>,
>
    decreases bounds.len() - at,
{
    if at < 0 || at >= bounds.len() {
        Ok(())
    } else if bound_kwarg(bounds[at].from) != "offset"@ {
        Err(
            "extension '"@ + crate_name + "': bound_args.from = \""@ + bounds[at].from
                + "\" names kwarg \""@ + bound_kwarg(bounds[at].from)
                + "\", which is not a marker kwarg the framework knows; only \"offset\" carries a value"@,
        )
    } else {
        known_kwargs(bounds, crate_name, at + 1)
    }
}

fn check_known_kwargs(bounds: &Vec<BoundArg>, crate_name: &str) -> (r: Result<(), String>)
    ensures
        model::verdict(r) == known_kwargs(bounds.deep_view(), crate_name@, 0),
{
    let ghost all = bounds.deep_view();
    let mut i: usize = 0;
    while i < bounds.len()
        invariant
            i <= bounds.len(),
            all == bounds.deep_view(),
            known_kwargs(all, crate_name@, 0) == known_kwargs(all, crate_name@, i as int),
        decreases bounds.len() - i,
    {
        assert(all[i as int] == bounds@[i as int].deep_view());
        let from = &bounds[i].from;
        let kwarg = match split_colons(from.as_str()) {
            Some((_, k)) => k,
            None => from.clone(),
        };
        if !same(kwarg.as_str(), "offset") {
            return Err(
                "extension '".to_owned().concat(crate_name).concat(
                    "': bound_args.from = \"",
                ).concat(from.as_str()).concat("\" names kwarg \"").concat(kwarg.as_str()).concat(
                    "\", which is not a marker kwarg the framework knows; only \"offset\" carries a value",
                ),
            );
        }
        i += 1;
    }
    Ok(())
}

/// The value an embed gives a bound arg.
pub open spec fn embed_value(e: EmbedDeclView) -> BoundValueView {
    match e.offset {
        OffsetSpecView::Literal(n) => BoundValueView::Literal(n),
        OffsetSpecView::Path(p) => BoundValueView::Path(p),
        OffsetSpecView::Derived => BoundValueView::Derived { role: e.role },
    }
}

/// What [`resolve_bound_value`] gives.
pub open spec fn bound_value(
    bound: BoundArgView,
    self_embed: Option<EmbedDeclView>,
    mod_attrs: Seq<AttributeView>,
    crate_name: Seq<char>,
) -> Result<BoundValueView, Seq<char>> {
    match text::split_first(bound.from) {
        None => embed_or_default(bound, self_embed, crate_name),
        Some((marker, _)) => match first_args(mod_attrs, marker) {
            Err(e) => Err(e),
            Ok(Some(args)) => embed_or_default(bound, args.embed, crate_name),
            Ok(None) => match bound.default {
                Some(n) => Ok(BoundValueView::Literal(n)),
                None => Err(
                    "extension '"@ + crate_name + "': bound_arg '"@ + bound.arg
                        + "' requires marker '#["@ + marker
                        + "]', which is not declared on this module, and declares no default"@,
                ),
            },
        },
    }
}

/// The value of an embed, or the default where there is none.
pub open spec fn embed_or_default(
    bound: BoundArgView,
    embed: Option<EmbedDeclView>,
    crate_name: Seq<char>,
) -> Result<BoundValueView, Seq<char>> {
    match (embed, bound.default) {
        (Some(e), _) => Ok(embed_value(e)),
        (None, Some(n)) => Ok(BoundValueView::Literal(n)),
        (None, None) => Err(
            "extension `"@ + crate_name + "`: bound_arg `"@ + bound.arg + "` read `"@ + bound.from
                + "` but the marker declares no embed and the bound_arg declares no default"@,
        ),
    }
}

fn value_or_default(bound: &BoundArg, embed: Option<EmbedDecl>, crate_name: &str) -> (r: Result<
    BoundValue,
    String,
>)
    ensures
        model::outcome(r) == embed_or_default(
            bound.deep_view(),
            embed.deep_view(),
            crate_name@,
        ),
{
    match embed {
        Some(e) => Ok(
            match e.offset {
                OffsetSpec::Literal(n) => BoundValue::Literal(n),
                OffsetSpec::Path(p) => BoundValue::Path(p),
                OffsetSpec::Derived => BoundValue::Derived { role: e.role },
            },
        ),
        None => match bound.default {
            Some(n) => Ok(BoundValue::Literal(n)),
            None => Err(
                "extension `".to_owned().concat(crate_name).concat("`: bound_arg `").concat(
                    bound.arg.as_str(),
                ).concat("` read `").concat(bound.from.as_str()).concat(
                    "` but the marker declares no embed and the bound_arg declares no default",
                ),
            ),
        },
    }
}

/// Resolve one bound arg to its dispatch-time value.
///
/// Self shape (`from = "offset"`) reads the extension's own marker's
/// embed declaration. Cross shape (`from = "<marker>::offset"`) reads
/// the named peer marker's, so an extension can depend on where a peer
/// embedded its state (freeze ADR-0012: freeze binding `admin_offset`
/// from `admin_authority::offset`).
///
/// An explicit offset resolves to its number, a marker without one
/// stays a derivation for `resolve_derived_offsets` to lower, and the
/// `default` applies only when there is no embed at all. Deriving is a
/// resolution, not an absence: the default must never swallow it. A
/// missing marker or missing embed without a default is a hard error
/// at the consumer's build.
pub fn resolve_bound_value(
    bound: &BoundArg,
    self_embed: Option<EmbedDecl>,
    mod_attrs: &Vec<Attribute>,
    crate_name: &str,
) -> (r: Result<BoundValue, String>)
    ensures
        model::outcome(r) == bound_value(
            bound.deep_view(),
            self_embed.deep_view(),
            mod_attrs.deep_view(),
            crate_name@,
        ),
{
    match split_colons(bound.from.as_str()) {
        None => value_or_default(bound, self_embed, crate_name),
        Some((marker, _)) => match read_first_args(mod_attrs, marker.as_str()) {
            Err(e) => Err(e),
            Ok(Some(args)) => value_or_default(bound, args.embed, crate_name),
            Ok(None) => match bound.default {
                Some(n) => Ok(BoundValue::Literal(n)),
                None => Err(
                    "extension '".to_owned().concat(crate_name).concat("': bound_arg '").concat(
                        bound.arg.as_str(),
                    ).concat("' requires marker '#[").concat(marker.as_str()).concat(
                        "]', which is not declared on this module, and declares no default",
                    ),
                ),
            },
        },
    }
}

/// The first input from `from` on that is a parameter called `name`.
pub open spec fn param_at(inputs: Seq<FnArgView>, name: Seq<char>, from: int) -> Option<int>
    decreases inputs.len() - from,
{
    if from < 0 || from >= inputs.len() {
        None
    } else if inject::is_param(inputs[from], name) {
        Some(from)
    } else {
        param_at(inputs, name, from + 1)
    }
}

fn find_param(inputs: &Vec<FnArg>, name: &str) -> (r: Option<usize>)
    ensures
        match r {
            Some(i) => param_at(inputs.deep_view(), name@, 0) == Some(i as int) && i < inputs.len(),
            None => param_at(inputs.deep_view(), name@, 0) is None,
        },
{
    let ghost all = inputs.deep_view();
    let mut i: usize = 0;
    while i < inputs.len()
        invariant
            i <= inputs.len(),
            all == inputs.deep_view(),
            param_at(all, name@, 0) == param_at(all, name@, i as int),
        decreases inputs.len() - i,
    {
        assert(all[i as int] == inputs@[i as int].deep_view());
        if let FnArg::Typed(p) = &inputs[i] {
            if let Some(n) = &p.name {
                if same(n.as_str(), name) {
                    return Some(i);
                }
            }
        }
        i += 1;
    }
    None
}

/// Where a fn declares the bound args from `at` on, and their values.
pub open spec fn bound_in(
    inputs: Seq<FnArgView>,
    bounds: Seq<BoundArgView>,
    self_embed: Option<EmbedDeclView>,
    mod_attrs: Seq<AttributeView>,
    crate_name: Seq<char>,
    at: int,
    found: Seq<int>,
    values: Seq<BoundValueView>,
) -> Result<(Seq<int>, Seq<BoundValueView>), Seq<char>>
    decreases bounds.len() - at,
{
    if at < 0 || at >= bounds.len() {
        Ok((found, values))
    } else {
        match param_at(inputs, bounds[at].arg, 0) {
            None => bound_in(
                inputs,
                bounds,
                self_embed,
                mod_attrs,
                crate_name,
                at + 1,
                found,
                values,
            ),
            Some(pos) => match bound_value(bounds[at], self_embed, mod_attrs, crate_name) {
                Err(e) => Err(e),
                Ok(v) => bound_in(
                    inputs,
                    bounds,
                    self_embed,
                    mod_attrs,
                    crate_name,
                    at + 1,
                    found.push(pos),
                    values.push(v),
                ),
            },
        }
    }
}

/// Whether positions are the trailing ones of `n`, in order.
pub open spec fn trailing(found: Seq<int>, n: int) -> bool {
    forall|i: int| 0 <= i < found.len() ==> #[trigger] found[i] == n - found.len() + i
}

/// A fn without the params that are bound, and their values. They must be its
/// trailing params.
pub open spec fn stripped(
    f: ItemFnView,
    bounds: Seq<BoundArgView>,
    self_embed: Option<EmbedDeclView>,
    mod_attrs: Seq<AttributeView>,
    crate_name: Seq<char>,
) -> Result<(ItemFnView, Seq<BoundValueView>), Seq<char>> {
    match bound_in(
        f.inputs,
        bounds,
        self_embed,
        mod_attrs,
        crate_name,
        0,
        Seq::empty(),
        Seq::empty(),
    ) {
        Err(e) => Err(e),
        Ok((found, values)) => if trailing(found, f.inputs.len() as int) {
            Ok(
                (
                    ItemFnView { inputs: f.inputs.take(f.inputs.len() - found.len()), ..f },
                    values,
                ),
            )
        } else {
            Err(
                "extension '"@ + crate_name + "': bound_args params of `"@ + f.name
                    + "` must be the trailing params, in bound_args block order; the dispatcher appends their values after the transaction args"@,
            )
        },
    }
}

/// Values by name, with those of one name set.
pub open spec fn with_call(
    calls: Seq<(Seq<char>, Seq<BoundValueView>)>,
    name: Seq<char>,
    values: Seq<BoundValueView>,
) -> Seq<(Seq<char>, Seq<BoundValueView>)>
    decreases calls.len(),
{
    if calls.len() == 0 {
        seq![(name, values)]
    } else if calls[0].0 == name {
        seq![(name, values)] + calls.skip(1)
    } else {
        seq![calls[0]] + with_call(calls.skip(1), name, values)
    }
}

/// The fns from `from` on without their bound params, behind those done, and
/// the values by fn name.
pub open spec fn stripped_from(
    fns: Seq<ItemFnView>,
    bounds: Seq<BoundArgView>,
    self_embed: Option<EmbedDeclView>,
    mod_attrs: Seq<AttributeView>,
    crate_name: Seq<char>,
    from: int,
    done: Seq<ItemFnView>,
    calls: Seq<(Seq<char>, Seq<BoundValueView>)>,
) -> Result<(Seq<ItemFnView>, Seq<(Seq<char>, Seq<BoundValueView>)>), Seq<char>>
    decreases fns.len() - from,
{
    if from < 0 || from >= fns.len() {
        Ok((done, calls))
    } else {
        match stripped(fns[from], bounds, self_embed, mod_attrs, crate_name) {
            Err(e) => Err(e),
            Ok((f, values)) => stripped_from(
                fns,
                bounds,
                self_embed,
                mod_attrs,
                crate_name,
                from + 1,
                done.push(f),
                if values.len() == 0 {
                    calls
                } else {
                    with_call(calls, f.name, values)
                },
            ),
        }
    }
}

fn find_bound(
    f: &ItemFn,
    bounds: &Vec<BoundArg>,
    self_embed: &Option<EmbedDecl>,
    mod_attrs: &Vec<Attribute>,
    crate_name: &str,
) -> (r: Result<(Vec<usize>, Vec<BoundValue>), String>)
    ensures
        match r {
            Ok((found, values)) => {
                &&& forall|i: int| 0 <= i < found.len() ==> #[trigger] found@[i] < f.inputs.len()
                &&& bound_in(
                    f.deep_view().inputs,
                    bounds.deep_view(),
                    self_embed.deep_view(),
                    mod_attrs.deep_view(),
                    crate_name@,
                    0,
                    Seq::empty(),
                    Seq::empty(),
                ) == Ok::<(Seq<int>, Seq<BoundValueView>), Seq<char>>(
                    (found@.map_values(|i: usize| i as int), values.deep_view()),
                )
            },
            Err(e) => bound_in(
                f.deep_view().inputs,
                bounds.deep_view(),
                self_embed.deep_view(),
                mod_attrs.deep_view(),
                crate_name@,
                0,
                Seq::empty(),
                Seq::empty(),
            ) == Err::<(Seq<int>, Seq<BoundValueView>), Seq<char>>(e@),
        },
{
    let ghost ins = f.deep_view().inputs;
    let ghost bs = bounds.deep_view();
    let ghost se = self_embed.deep_view();
    let ghost ma = mod_attrs.deep_view();
    let mut found: Vec<usize> = Vec::new();
    let mut values: Vec<BoundValue> = none();
    let mut i: usize = 0;
    assert(found@.map_values(|i: usize| i as int) =~= Seq::empty());
    while i < bounds.len()
        invariant
            i <= bounds.len(),
            ins == f.deep_view().inputs,
            bs == bounds.deep_view(),
            se == self_embed.deep_view(),
            ma == mod_attrs.deep_view(),
            forall|k: int| 0 <= k < found.len() ==> #[trigger] found@[k] < f.inputs.len(),
            bound_in(ins, bs, se, ma, crate_name@, 0, Seq::empty(), Seq::empty()) == bound_in(
                ins,
                bs,
                se,
                ma,
                crate_name@,
                i as int,
                found@.map_values(|i: usize| i as int),
                values.deep_view(),
            ),
        decreases bounds.len() - i,
    {
        assert(bs[i as int] == bounds@[i as int].deep_view());
        if let Some(pos) = find_param(&f.inputs, bounds[i].arg.as_str()) {
            match resolve_bound_value(&bounds[i], self_embed.dup(), mod_attrs, crate_name) {
                Ok(v) => {
                    let ghost before = found@;
                    found.push(pos);
                    assert(found@.map_values(|i: usize| i as int) =~= before.map_values(
                        |i: usize| i as int,
                    ).push(pos as int));
                    put(&mut values, v);
                },
                Err(e) => {
                    return Err(e);
                },
            }
        }
        i += 1;
    }
    Ok((found, values))
}

fn are_trailing(found: &Vec<usize>, n: usize) -> (r: bool)
    requires
        forall|i: int| 0 <= i < found.len() ==> #[trigger] found@[i] < n,
    ensures
        r == trailing(found@.map_values(|i: usize| i as int), n as int),
{
    let ghost all = found@.map_values(|i: usize| i as int);
    let k: usize = found.len();
    if k > n {
        assert(all[0] != n - all.len());
        return false;
    }
    let mut i: usize = 0;
    while i < k
        invariant
            i <= k,
            k == found.len(),
            k <= n,
            all == found@.map_values(|i: usize| i as int),
            forall|j: int| 0 <= j < i ==> #[trigger] all[j] == n - all.len() + j,
        decreases k - i,
    {
        if found[i] != n - k + i {
            assert(all[i as int] != n - all.len() + i);
            return false;
        }
        i += 1;
    }
    true
}

/// A fn without its bound params, and their values.
pub fn strip_bound_params(
    f: ItemFn,
    bounds: &Vec<BoundArg>,
    self_embed: &Option<EmbedDecl>,
    mod_attrs: &Vec<Attribute>,
    crate_name: &str,
) -> (r: Result<(ItemFn, Vec<BoundValue>), String>)
    ensures
        model::outcome(r) == stripped(
            f.deep_view(),
            bounds.deep_view(),
            self_embed.deep_view(),
            mod_attrs.deep_view(),
            crate_name@,
        ),
{
    let (found, values) = match find_bound(&f, bounds, self_embed, mod_attrs, crate_name) {
        Ok(x) => x,
        Err(e) => {
            return Err(e);
        },
    };
    let n: usize = f.inputs.len();
    if !are_trailing(&found, n) {
        return Err(
            "extension '".to_owned().concat(crate_name).concat(
                "': bound_args params of `",
            ).concat(f.name.as_str()).concat(
                "` must be the trailing params, in bound_args block order; the dispatcher appends their values after the transaction args",
            ),
        );
    }
    let k: usize = found.len();
    proof {
        let all = found@.map_values(|i: usize| i as int);
        if k > 0 {
            assert(all[0] == found@[0] as int);
            assert(all[0] == n - all.len());
        }
    }
    let ghost before = f.deep_view();
    let mut inputs = f.inputs;
    let ghost ins = inputs.deep_view();
    inputs.truncate(n - k);
    assert(inputs.deep_view() =~= ins.take(n - k));
    let out = ItemFn { attrs: f.attrs, name: f.name, inputs };
    Ok((out, values))
}

#[verifier::loop_isolation(false)]
fn set_call(calls: &mut Vec<(String, Vec<BoundValue>)>, name: String, values: Vec<BoundValue>)
    ensures
        final(calls).deep_view() == with_call(
            old(calls).deep_view(),
            name@,
            values.deep_view(),
        ),
{
    let ghost start = calls.deep_view();
    let ghost done = with_call(start, name@, values.deep_view());
    let mut i: usize = 0;
    assert(start.skip(0) =~= start);
    assert(start.take(0) + done =~= done);
    while i < calls.len()
        invariant
            i <= calls.len(),
            start == calls.deep_view(),
            done == start.take(i as int) + with_call(
                start.skip(i as int),
                name@,
                values.deep_view(),
            ),
        decreases calls.len() - i,
    {
        assert(start[i as int] == calls@[i as int].deep_view());
        assert(start.skip(i as int)[0] == start[i as int]);
        assert(start.skip(i as int).skip(1) =~= start.skip(i + 1));
        if same(calls[i].0.as_str(), name.as_str()) {
            calls.set(i, (name, values));
            assert(calls.deep_view() =~= done);
            return ;
        }
        proof {
            let rest = with_call(start.skip(i + 1), name@, values.deep_view());
            assert(start.take(i as int) + (seq![start[i as int]] + rest) =~= start.take(i + 1)
                + rest);
        }
        i += 1;
    }
    proof {
        assert(start.skip(i as int) =~= Seq::empty());
        assert(start.take(i as int) =~= start);
        assert(done =~= start.push((name@, values.deep_view())));
    }
    put(calls, (name, values));
}

fn strip_all(
    fns: Vec<ItemFn>,
    bounds: &Vec<BoundArg>,
    self_embed: &Option<EmbedDecl>,
    mod_attrs: &Vec<Attribute>,
    crate_name: &str,
) -> (r: Result<(Vec<ItemFn>, Vec<(String, Vec<BoundValue>)>), String>)
    ensures
        model::outcome(r) == stripped_from(
            fns.deep_view(),
            bounds.deep_view(),
            self_embed.deep_view(),
            mod_attrs.deep_view(),
            crate_name@,
            0,
            Seq::empty(),
            Seq::empty(),
        ),
{
    let ghost all = fns.deep_view();
    let ghost bs = bounds.deep_view();
    let ghost se = self_embed.deep_view();
    let ghost ma = mod_attrs.deep_view();
    let mut done: Vec<ItemFn> = none();
    let mut calls: Vec<(String, Vec<BoundValue>)> = none();
    let mut i: usize = 0;
    while i < fns.len()
        invariant
            i <= fns.len(),
            all == fns.deep_view(),
            bs == bounds.deep_view(),
            se == self_embed.deep_view(),
            ma == mod_attrs.deep_view(),
            stripped_from(all, bs, se, ma, crate_name@, 0, Seq::empty(), Seq::empty())
                == stripped_from(
                all,
                bs,
                se,
                ma,
                crate_name@,
                i as int,
                done.deep_view(),
                calls.deep_view(),
            ),
        decreases fns.len() - i,
    {
        assert(all[i as int] == fns@[i as int].deep_view());
        match strip_bound_params(fns[i].dup(), bounds, self_embed, mod_attrs, crate_name) {
            Ok((f, values)) => {
                if values.len() > 0 {
                    set_call(&mut calls, f.name.clone(), values);
                }
                put(&mut done, f);
            },
            Err(e) => {
                return Err(e);
            },
        }
        i += 1;
    }
    Ok((done, calls))
}

// ── One dependency ───────────────────────────────────────────────────────

/// Inject specs that say which extension declared them.
pub open spec fn sourced(specs: Seq<InjectSpecView>, crate_name: Seq<char>) -> Seq<InjectSpecView> {
    specs.map_values(|s: InjectSpecView| InjectSpecView { source: crate_name, ..s })
}

fn set_sources(specs: Vec<InjectSpec>, crate_name: &str) -> (r: Vec<InjectSpec>)
    ensures
        r.deep_view() == sourced(specs.deep_view(), crate_name@),
{
    let mut out: Vec<InjectSpec> = Vec::new();
    let mut i: usize = 0;
    while i < specs.len()
        invariant
            i <= specs.len(),
            out.len() == i,
            forall|j: int|
                0 <= j < i ==> (#[trigger] out@[j]).deep_view() == (InjectSpecView {
                    source: crate_name@,
                    ..specs@[j].deep_view()
                }),
        decreases specs.len() - i,
    {
        let s = specs[i].dup();
        out.push(
            InjectSpec {
                wrapper: s.wrapper,
                accounts: s.accounts,
                source: crate_name.to_owned(),
                embedded_offset: s.embedded_offset,
            },
        );
        i += 1;
    }
    assert(out.deep_view() =~= sourced(specs.deep_view(), crate_name@));
    out
}

/// The fns whose names are not in `skip`.
pub open spec fn not_skipped(fns: Seq<ItemFnView>, skip: Seq<Seq<char>>) -> Seq<ItemFnView>
    decreases fns.len(),
{
    if fns.len() == 0 {
        Seq::empty()
    } else if skip.contains(fns.last().name) {
        not_skipped(fns.drop_last(), skip)
    } else {
        not_skipped(fns.drop_last(), skip).push(fns.last())
    }
}

fn drop_skipped(fns: Vec<ItemFn>, skip: &Vec<String>) -> (r: Vec<ItemFn>)
    ensures
        r.deep_view() == not_skipped(fns.deep_view(), skip.deep_view()),
{
    let ghost all = fns.deep_view();
    let mut out: Vec<ItemFn> = none();
    let mut i: usize = 0;
    assert(all.take(0) =~= Seq::empty());
    while i < fns.len()
        invariant
            i <= fns.len(),
            all == fns.deep_view(),
            out.deep_view() == not_skipped(all.take(i as int), skip.deep_view()),
        decreases fns.len() - i,
    {
        assert(all.take(i + 1).drop_last() =~= all.take(i as int));
        assert(all.take(i + 1).last() == fns@[i as int].deep_view());
        if !holds(skip, fns[i].name.as_str()) {
            put(&mut out, fns[i].dup());
        }
        i += 1;
    }
    assert(all.take(i as int) =~= all);
    out
}

/// The absolute path of a crate.
pub open spec fn crate_path_of(crate_name: Seq<char>) -> PathView {
    PathView { leading_colon: true, segments: seq![crate_name] }
}

/// Fns with the path of the crate that declares them.
pub open spec fn with_path(fns: Seq<ItemFnView>, crate_name: Seq<char>) -> Seq<
    (ItemFnView, PathView),
> {
    fns.map_values(|f: ItemFnView| (f, crate_path_of(crate_name)))
}

fn pair_with_path(fns: Vec<ItemFn>, crate_name: &str) -> (r: Vec<(ItemFn, Path)>)
    ensures
        r.deep_view() == with_path(fns.deep_view(), crate_name@),
{
    let mut out: Vec<(ItemFn, Path)> = Vec::new();
    let mut i: usize = 0;
    while i < fns.len()
        invariant
            i <= fns.len(),
            out.len() == i,
            forall|j: int|
                0 <= j < i ==> (#[trigger] out@[j]).deep_view() == (
                    fns@[j].deep_view(),
                    crate_path_of(crate_name@),
                ),
        decreases fns.len() - i,
    {
        let path = Path { leading_colon: true, segments: single(crate_name.to_owned()) };
        out.push((fns[i].dup(), path));
        i += 1;
    }
    assert(out.deep_view() =~= with_path(fns.deep_view(), crate_name@));
    out
}

/// Whether a marker at `pos` stands above `#[lez_program]`.
pub open spec fn above_program(mod_attrs: Seq<AttributeView>, pos: int) -> bool {
    attrs::first_named(mod_attrs, "lez_program"@, 0) matches Some(lez) && pos < lez
}

/// What a matched extension of that name contributes, and the warnings:
/// everything but its identity is read here.
pub open spec fn contribution(
    disk: DiskView,
    dir: DirPathView,
    manifest: ValueView,
    ext: Seq<char>,
    pos: int,
    crate_name: Seq<char>,
    mod_attrs: Seq<AttributeView>,
    mod_items: Seq<ItemView>,
) -> (Result<MatchedExtensionView, Seq<char>>, Seq<Seq<char>>) {
    match (
        metadata::inject_specs(manifest, dir),
        metadata::wrap_instructions(manifest, dir),
        metadata::embedded_meta(manifest, dir),
        first_args(mod_attrs, ext),
    ) {
        (Err(e), _, _, _) => (Err(e), Seq::empty()),
        (_, Err(e), _, _) => (Err(e), Seq::empty()),
        (_, _, Err(e), _) => (Err(e), Seq::empty()),
        (_, _, _, Err(e)) => (Err(e), Seq::empty()),
        (Ok(injects), Ok(wrap), Ok(embedded), Ok(found)) => {
            let args = match found {
                Some(a) => a,
                None => marker::bare_marker(),
            };
            match embed_decl(args.embed, embedded, mod_items, crate_name, ext) {
                Err(e) => (Err(e), Seq::empty()),
                Ok(decl) => match typed_embeds(decl, embedded.state_type, crate_name) {
                    Err(e) => (Err(e), Seq::empty()),
                    Ok(embeds) => {
                        let all = instruction_fns(
                            scan::scan_crates(disk, seq![dir], 0, scan::no_scan()).items,
                        );
                        let fns = if decl is Some {
                            not_skipped(all, embedded.skip)
                        } else {
                            all
                        };
                        match bound_contribution(
                            manifest,
                            dir,
                            fns,
                            decl,
                            mod_attrs,
                            crate_name,
                        ) {
                            Err(e) => (Err(e), Seq::empty()),
                            Ok((kept, calls)) => (
                                Ok(
                                    MatchedExtensionView {
                                        marker_pos: pos as usize,
                                        instructions: with_path(kept, crate_name),
                                        inject_specs: sourced(injects, crate_name),
                                        wraps: match wrap {
                                            Some(w) => seq![
                                                (
                                                    match args.word {
                                                        Some(word) => word,
                                                        None => Seq::empty(),
                                                    },
                                                    w,
                                                ),
                                            ],
                                            None => Seq::empty(),
                                        },
                                        embeds,
                                        bound_calls: calls,
                                        marker: ext,
                                    },
                                ),
                                if kept.len() == 0 && injects.len() == 0 && wrap is None {
                                    seq![
                                        "extension '"@ + crate_name + "' matched #["@ + ext
                                            + "] but contributes no #[instruction] fns, no inject specs, and no wrap config"@,
                                    ]
                                } else {
                                    Seq::empty()
                                },
                            ),
                        }
                    },
                },
            }
        },
    }
}

/// An extension's fns without their bound params, and the bound values by fn
/// name.
pub open spec fn bound_contribution(
    manifest: ValueView,
    dir: DirPathView,
    fns: Seq<ItemFnView>,
    self_embed: Option<EmbedDeclView>,
    mod_attrs: Seq<AttributeView>,
    crate_name: Seq<char>,
) -> Result<(Seq<ItemFnView>, Seq<(Seq<char>, Seq<BoundValueView>)>), Seq<char>> {
    match metadata::bound_args(manifest, dir) {
        Err(e) => Err(e),
        Ok(bounds) => match known_kwargs(bounds, crate_name, 0) {
            Err(e) => Err(e),
            Ok(_) => stripped_from(
                fns,
                bounds,
                self_embed,
                mod_attrs,
                crate_name,
                0,
                Seq::empty(),
                Seq::empty(),
            ),
        },
    }
}

/// What the crate at `dir` contributes, if it is an extension whose marker is
/// on the module, and the warnings.
pub open spec fn matched_in(
    disk: DiskView,
    dir: DirPathView,
    mod_attrs: Seq<AttributeView>,
    mod_items: Seq<ItemView>,
) -> (Result<Option<MatchedExtensionView>, Seq<char>>, Seq<Seq<char>>) {
    match metadata::manifest_value(disk, dir) {
        None => (Ok(None), Seq::empty()),
        Some(manifest) => match metadata::extension_attr(manifest, dir) {
            Err(e) => (Err(e), Seq::empty()),
            Ok(None) => (Ok(None), Seq::empty()),
            Ok(Some(ext)) => match attrs::first_named(mod_attrs, ext, 0) {
                None => (Ok(None), Seq::empty()),
                Some(pos) => if above_program(mod_attrs, pos) {
                    (
                        Err(
                            "extension marker #["@ + ext
                                + "] is above #[lez_program]: attributes above expand first and are invisible to the compiled program, so the extension would appear in the IDL but not in the dispatcher. Move #["@
                                + ext + "] below #[lez_program]."@,
                        ),
                        Seq::empty(),
                    )
                } else {
                    match metadata::package_ident(manifest) {
                        None => (
                            Ok(None),
                            seq![
                                "extension at '"@ + path::shown(dir)
                                    + "' matched module attribute but has no [package].name, skipped"@,
                            ],
                        ),
                        Some(name) => {
                            let (r, ws) = contribution(
                                disk,
                                dir,
                                manifest,
                                ext,
                                pos,
                                name,
                                mod_attrs,
                                mod_items,
                            );
                            match r {
                                Ok(m) => (Ok(Some(m)), ws),
                                Err(e) => (Err(e), ws),
                            }
                        },
                    }
                },
            },
        },
    }
}

fn read_bound_contribution(
    manifest: &Value,
    dir: &DirPath,
    fns: Vec<ItemFn>,
    self_embed: &Option<EmbedDecl>,
    mod_attrs: &Vec<Attribute>,
    crate_name: &str,
) -> (r: Result<(Vec<ItemFn>, Vec<(String, Vec<BoundValue>)>), String>)
    ensures
        model::outcome(r) == bound_contribution(
            manifest.deep_view(),
            dir.deep_view(),
            fns.deep_view(),
            self_embed.deep_view(),
            mod_attrs.deep_view(),
            crate_name@,
        ),
{
    let bounds = match read_spel_bound_args(manifest, dir) {
        Ok(b) => b,
        Err(e) => {
            return Err(e);
        },
    };
    match check_known_kwargs(&bounds, crate_name) {
        Ok(_) => strip_all(fns, &bounds, self_embed, mod_attrs, crate_name),
        Err(e) => Err(e),
    }
}

fn read_contribution(
    disk: &Disk,
    dir: &DirPath,
    manifest: &Value,
    ext_attr: &str,
    marker_pos: usize,
    crate_name: &str,
    mod_attrs: &Vec<Attribute>,
    mod_items: &Vec<Item>,
    warnings: &mut Vec<String>,
) -> (r: Result<MatchedExtension, Stop>)
    ensures
        ({
            let (expected, ws) = contribution(
                disk.deep_view(),
                dir.deep_view(),
                manifest.deep_view(),
                ext_attr@,
                marker_pos as int,
                crate_name@,
                mod_attrs.deep_view(),
                mod_items.deep_view(),
            );
            extension::settled(
                r,
                disk.deep_view(),
                contribution_question(
                    disk.deep_view(),
                    dir.deep_view(),
                    manifest.deep_view(),
                    ext_attr@,
                    crate_name@,
                    mod_attrs.deep_view(),
                    mod_items.deep_view(),
                ),
                expected,
            ) && (extension::heard(r) ==> final(warnings).deep_view()
                == old(warnings).deep_view() + ws)
        }),
{
    let ghost before = warnings.deep_view();
    assert(before + Seq::<Seq<char>>::empty() =~= before);
    let injects = match read_spel_inject_specs(manifest, dir) {
        Ok(x) => x,
        Err(e) => {
            return Err(Stop::Refused(e));
        },
    };
    let wrap = match read_spel_wrap_instructions(manifest, dir) {
        Ok(x) => x,
        Err(e) => {
            return Err(Stop::Refused(e));
        },
    };
    let embedded = match read_spel_embedded(manifest, dir) {
        Ok(x) => x,
        Err(e) => {
            return Err(Stop::Refused(e));
        },
    };
    let marker_args = match read_first_args(mod_attrs, ext_attr) {
        Ok(Some(a)) => a,
        Ok(None) => MarkerArgs { word: None, embed: None },
        Err(e) => {
            return Err(Stop::Refused(e));
        },
    };
    let has_wrap = wrap.is_some();
    let has_injects = injects.len() > 0;
    let wraps = match wrap {
        Some(w) => {
            let word = match marker_args.word {
                Some(word) => word,
                None => String::new(),
            };
            assert(marker_args.word is None ==> word@ =~= Seq::empty());
            single((word, w))
        },
        None => none(),
    };
    let decl = match resolve_embed_decl(
        marker_args.embed,
        &embedded,
        mod_items,
        crate_name,
        ext_attr,
    ) {
        Ok(d) => d,
        Err(e) => {
            return Err(Stop::Refused(e));
        },
    };
    let embeds = match type_embeds(decl.dup(), embedded.state_type, crate_name) {
        Ok(e) => e,
        Err(e) => {
            return Err(Stop::Refused(e));
        },
    };
    let (items, _) = match collect_items_from_crate_dirs(disk, &single(dir.dup())) {
        Ok(x) => x,
        Err(q) => {
            return Err(Stop::Need(q));
        },
    };
    let all = collect_instruction_fns(&items);
    let fns = if decl.is_some() {
        drop_skipped(all, &embedded.skip)
    } else {
        all
    };
    let (kept, bound_calls) = match read_bound_contribution(
        manifest,
        dir,
        fns,
        &decl,
        mod_attrs,
        crate_name,
    ) {
        Ok(x) => x,
        Err(e) => {
            return Err(Stop::Refused(e));
        },
    };
    if kept.len() == 0 && !has_injects && !has_wrap {
        let w = "extension '".to_owned().concat(crate_name).concat("' matched #[").concat(
            ext_attr,
        ).concat(
            "] but contributes no #[instruction] fns, no inject specs, and no wrap config",
        );
        let ghost wv = w@;
        put(warnings, w);
        assert(warnings.deep_view() =~= before + seq![wv]);
    }
    Ok(
        MatchedExtension {
            marker_pos,
            instructions: pair_with_path(kept, crate_name),
            inject_specs: set_sources(injects, crate_name),
            wraps,
            embeds,
            bound_calls,
            marker: ext_attr.to_owned(),
        },
    )
}

fn match_extension(
    disk: &Disk,
    dir: &DirPath,
    mod_attrs: &Vec<Attribute>,
    mod_items: &Vec<Item>,
    warnings: &mut Vec<String>,
) -> (r: Result<Option<MatchedExtension>, Stop>)
    ensures
        ({
            let (expected, ws) = matched_in(
                disk.deep_view(),
                dir.deep_view(),
                mod_attrs.deep_view(),
                mod_items.deep_view(),
            );
            extension::settled(
                r,
                disk.deep_view(),
                matched_question(
                    disk.deep_view(),
                    dir.deep_view(),
                    mod_attrs.deep_view(),
                    mod_items.deep_view(),
                ),
                expected,
            ) && (extension::heard(r) ==> final(warnings).deep_view()
                == old(warnings).deep_view() + ws)
        }),
{
    let ghost before = warnings.deep_view();
    assert(before + Seq::<Seq<char>>::empty() =~= before);
    let manifest = match read_manifest_value(disk, dir) {
        Ok(Some(v)) => v,
        Ok(None) => {
            return Ok(None);
        },
        Err(q) => {
            return Err(Stop::Need(q));
        },
    };
    let ext_attr = match read_spel_extension_attr(&manifest, dir) {
        Ok(Some(e)) => e,
        Ok(None) => {
            return Ok(None);
        },
        Err(e) => {
            return Err(Stop::Refused(e));
        },
    };
    let marker_pos: usize = match find_attr(mod_attrs, ext_attr.as_str()) {
        Some(i) => i,
        None => {
            return Ok(None);
        },
    };
    if let Some(lez) = find_attr(mod_attrs, "lez_program") {
        if marker_pos < lez {
            return Err(
                Stop::Refused(
                    "extension marker #[".to_owned().concat(ext_attr.as_str()).concat(
                        "] is above #[lez_program]: attributes above expand first and are invisible to the compiled program, so the extension would appear in the IDL but not in the dispatcher. Move #[",
                    ).concat(ext_attr.as_str()).concat("] below #[lez_program]."),
                ),
            );
        }
    }
    let crate_name = match read_package_ident(&manifest) {
        Some(n) => n,
        None => {
            let w = "extension at '".to_owned().concat(dir.display().as_str()).concat(
                "' matched module attribute but has no [package].name, skipped",
            );
            let ghost wv = w@;
            put(warnings, w);
            assert(warnings.deep_view() =~= before + seq![wv]);
            return Ok(None);
        },
    };
    match read_contribution(
        disk,
        dir,
        &manifest,
        ext_attr.as_str(),
        marker_pos,
        crate_name.as_str(),
        mod_attrs,
        mod_items,
        warnings,
    ) {
        Ok(m) => Ok(Some(m)),
        Err(s) => Err(s),
    }
}

// ── All dependencies ─────────────────────────────────────────────────────

/// A list in marker order with one more extension: behind those whose markers
/// do not come later.
pub open spec fn placed(list: Seq<MatchedExtensionView>, m: MatchedExtensionView) -> Seq<
    MatchedExtensionView,
>
    decreases list.len(),
{
    if list.len() == 0 || list.last().marker_pos <= m.marker_pos {
        list.push(m)
    } else {
        placed(list.drop_last(), m).push(list.last())
    }
}

/// Values by name, with those of the later list set from `from` on.
pub open spec fn with_calls(
    calls: Seq<(Seq<char>, Seq<BoundValueView>)>,
    more: Seq<(Seq<char>, Seq<BoundValueView>)>,
    from: int,
) -> Seq<(Seq<char>, Seq<BoundValueView>)>
    decreases more.len() - from,
{
    if from < 0 || from >= more.len() {
        calls
    } else {
        with_calls(with_call(calls, more[from].0, more[from].1), more, from + 1)
    }
}

/// No contribution.
pub open spec fn nothing_discovered() -> ExtensionDiscoveriesView {
    ExtensionDiscoveriesView {
        instructions: Seq::empty(),
        inject_specs: Seq::empty(),
        wraps: Seq::empty(),
        embeds: Seq::empty(),
        bound_calls: Seq::empty(),
        matched_markers: Seq::empty(),
    }
}

/// The contributions of matched extensions, one behind the other.
pub open spec fn flattened(matched: Seq<MatchedExtensionView>) -> ExtensionDiscoveriesView
    decreases matched.len(),
{
    if matched.len() == 0 {
        nothing_discovered()
    } else {
        let before = flattened(matched.drop_last());
        let m = matched.last();
        ExtensionDiscoveriesView {
            instructions: before.instructions + m.instructions,
            inject_specs: before.inject_specs + m.inject_specs,
            wraps: before.wraps + m.wraps,
            embeds: before.embeds + m.embeds,
            bound_calls: with_calls(before.bound_calls, m.bound_calls, 0),
            matched_markers: before.matched_markers.push(m.marker),
        }
    }
}

/// The extensions matched among the crates from `from` on, joined in marker
/// order to those matched before, and the warnings.
pub open spec fn matched_from(
    disk: DiskView,
    dirs: Seq<DirPathView>,
    mod_attrs: Seq<AttributeView>,
    mod_items: Seq<ItemView>,
    from: int,
    matched: Seq<MatchedExtensionView>,
    warnings: Seq<Seq<char>>,
) -> (Result<Seq<MatchedExtensionView>, Seq<char>>, Seq<Seq<char>>)
    decreases dirs.len() - from,
{
    if from < 0 || from >= dirs.len() {
        (Ok(matched), warnings)
    } else {
        let (r, ws) = matched_in(disk, dirs[from], mod_attrs, mod_items);
        match r {
            Err(e) => (Err(e), warnings + ws),
            Ok(None) => matched_from(
                disk,
                dirs,
                mod_attrs,
                mod_items,
                from + 1,
                matched,
                warnings + ws,
            ),
            Ok(Some(m)) => matched_from(
                disk,
                dirs,
                mod_attrs,
                mod_items,
                from + 1,
                placed(matched, m),
                warnings + ws,
            ),
        }
    }
}

/// What the crates at `dirs` contribute, and the warnings.
pub open spec fn discovered(
    disk: DiskView,
    dirs: Seq<DirPathView>,
    mod_attrs: Seq<AttributeView>,
    mod_items: Seq<ItemView>,
) -> (Result<ExtensionDiscoveriesView, Seq<char>>, Seq<Seq<char>>) {
    let (r, ws) = matched_from(
        disk,
        dirs,
        mod_attrs,
        mod_items,
        0,
        Seq::empty(),
        Seq::empty(),
    );
    match r {
        Ok(matched) => (Ok(flattened(matched)), ws),
        Err(e) => (Err(e), ws),
    }
}

fn place(list: &mut Vec<MatchedExtension>, m: MatchedExtension)
    ensures
        final(list).deep_view() == placed(old(list).deep_view(), m.deep_view()),
{
    let ghost start = list.deep_view();
    let ghost mv = m.deep_view();
    let mut i: usize = list.len();
    assert(start.take(i as int) =~= start);
    assert(start.skip(i as int) =~= Seq::empty());
    assert(placed(start, mv) + start.skip(i as int) =~= placed(start, mv));
    while i > 0 && list[i - 1].marker_pos > m.marker_pos
        invariant
            i <= list.len(),
            start == list.deep_view(),
            mv == m.deep_view(),
            placed(start, mv) == placed(start.take(i as int), mv) + start.skip(i as int),
        decreases i,
    {
        proof {
            let t = start.take(i as int);
            assert(t.last() == list@[i - 1].deep_view());
            assert(t.drop_last() =~= start.take(i - 1));
            assert(placed(start.take(i - 1), mv).push(t.last()) + start.skip(i as int) =~= placed(
                start.take(i - 1),
                mv,
            ) + start.skip(i - 1));
        }
        i -= 1;
    }
    proof {
        let t = start.take(i as int);
        if i > 0 {
            assert(t.last() == list@[i - 1].deep_view());
        }
        assert(placed(t, mv) == t.push(mv));
        assert(placed(start, mv) =~= start.insert(i as int, mv));
    }
    list.insert(i, m);
    assert(list.deep_view() =~= start.insert(i as int, mv));
}

fn set_calls(calls: &mut Vec<(String, Vec<BoundValue>)>, more: &Vec<(String, Vec<BoundValue>)>)
    ensures
        final(calls).deep_view() == with_calls(old(calls).deep_view(), more.deep_view(), 0),
{
    let ghost all = more.deep_view();
    let ghost done = with_calls(calls.deep_view(), all, 0);
    let mut i: usize = 0;
    while i < more.len()
        invariant
            i <= more.len(),
            all == more.deep_view(),
            done == with_calls(calls.deep_view(), all, i as int),
        decreases more.len() - i,
    {
        assert(all[i as int] == more@[i as int].deep_view());
        set_call(calls, more[i].0.clone(), more[i].1.dup());
        i += 1;
    }
}

/// Flatten matched extensions in marker order. The first marker on the
/// module contributes first, everywhere downstream: dispatcher, IDL,
/// and injected params. Marker order is the cross-extension ABI order.
fn flatten(matched: Vec<MatchedExtension>) -> (r: ExtensionDiscoveries)
    ensures
        r.deep_view() == flattened(matched.deep_view()),
{
    let ghost all = matched.deep_view();
    let mut out = ExtensionDiscoveries {
        instructions: none(),
        inject_specs: none(),
        wraps: none(),
        embeds: none(),
        bound_calls: none(),
        matched_markers: none(),
    };
    let mut i: usize = 0;
    assert(all.take(0) =~= Seq::empty());
    while i < matched.len()
        invariant
            i <= matched.len(),
            all == matched.deep_view(),
            out.deep_view() == flattened(all.take(i as int)),
        decreases matched.len() - i,
    {
        assert(all.take(i + 1).drop_last() =~= all.take(i as int));
        assert(all.take(i + 1).last() == matched@[i as int].deep_view());
        let m = matched[i].dup();
        put_all(&mut out.instructions, m.instructions);
        put_all(&mut out.inject_specs, m.inject_specs);
        put_all(&mut out.wraps, m.wraps);
        put_all(&mut out.embeds, m.embeds);
        set_calls(&mut out.bound_calls, &m.bound_calls);
        put(&mut out.matched_markers, m.marker);
        i += 1;
    }
    assert(all.take(i as int) =~= all);
    out
}

/// Scan `dep_dirs` (the consumer's direct dependencies) for SPEL
/// extension libraries whose `extension_attr` metadata matches an
/// attribute on the consuming program's mod.
///
/// Contributions are ordered by the marker attrs' positions on the
/// module, first marker first. That order is the cross-extension ABI:
/// it decides instruction order in the dispatcher and IDL, and the
/// account order of injected params.
///
/// `mod_items` are the program module's top-level items, the only
/// place a dispatched fn (and so an embed anchor) can live. File-backed
/// modules and path deps never participate, unlike the carrier scan
/// for derived offsets.
///
/// # Errors
///
/// Refused on malformed spel metadata (callers surface it as a compile
/// error). Environmental skips are reported as warnings.
pub fn discover_extensions(
    disk: &Disk,
    dep_dirs: &Vec<DirPath>,
    mod_attrs: &Vec<Attribute>,
    mod_items: &Vec<Item>,
    warnings: &mut Vec<String>,
) -> (r: Result<ExtensionDiscoveries, Stop>)
    ensures
        ({
            let (expected, ws) = discovered(
                disk.deep_view(),
                dep_dirs.deep_view(),
                mod_attrs.deep_view(),
                mod_items.deep_view(),
            );
            extension::settled(
                r,
                disk.deep_view(),
                discovery_question(
                    disk.deep_view(),
                    dep_dirs.deep_view(),
                    mod_attrs.deep_view(),
                    mod_items.deep_view(),
                    0,
                ),
                expected,
            ) && (extension::heard(r) ==> final(warnings).deep_view()
                == old(warnings).deep_view() + ws)
        }),
{
    let ghost d = disk.deep_view();
    let ghost all = dep_dirs.deep_view();
    let ghost ma = mod_attrs.deep_view();
    let ghost mi = mod_items.deep_view();
    let ghost before = warnings.deep_view();
    let ghost mut ws = Seq::<Seq<char>>::empty();
    let mut matched: Vec<MatchedExtension> = none();
    let mut i: usize = 0;
    assert(before + ws =~= before);
    while i < dep_dirs.len()
        invariant
            i <= dep_dirs.len(),
            d == disk.deep_view(),
            all == dep_dirs.deep_view(),
            ma == mod_attrs.deep_view(),
            mi == mod_items.deep_view(),
            warnings.deep_view() == before + ws,
            matched_from(d, all, ma, mi, 0, Seq::empty(), Seq::empty()) == matched_from(
                d,
                all,
                ma,
                mi,
                i as int,
                matched.deep_view(),
                ws,
            ),
            discovery_question(d, all, ma, mi, 0) == discovery_question(d, all, ma, mi, i as int),
            old(warnings).deep_view() == before,
        decreases dep_dirs.len() - i,
    {
        assert(all[i as int] == dep_dirs@[i as int].deep_view());
        let ghost step = matched_in(d, all[i as int], ma, mi).1;
        let r = match_extension(disk, &dep_dirs[i], mod_attrs, mod_items, warnings);
        assert((before + ws) + step =~= before + (ws + step));
        match r {
            Ok(Some(m)) => {
                place(&mut matched, m);
            },
            Ok(None) => {},
            Err(s) => {
                return Err(s);
            },
        }
        proof {
            ws = ws + step;
        }
        i += 1;
    }
    Ok(flatten(matched))
}

// ── Questions ────────────────────────────────────────────────────────────

/// The first open question about what a matched extension contributes: its
/// sources are read where all its declarations are in order.
pub open spec fn contribution_question(
    disk: DiskView,
    dir: DirPathView,
    manifest: ValueView,
    ext: Seq<char>,
    crate_name: Seq<char>,
    mod_attrs: Seq<AttributeView>,
    mod_items: Seq<ItemView>,
) -> Option<QueryView> {
    match (
        metadata::inject_specs(manifest, dir),
        metadata::wrap_instructions(manifest, dir),
        metadata::embedded_meta(manifest, dir),
        first_args(mod_attrs, ext),
    ) {
        (Ok(_), Ok(_), Ok(embedded), Ok(found)) => {
            let args = match found {
                Some(a) => a,
                None => marker::bare_marker(),
            };
            match embed_decl(args.embed, embedded, mod_items, crate_name, ext) {
                Err(_) => None,
                Ok(decl) => match typed_embeds(decl, embedded.state_type, crate_name) {
                    Err(_) => None,
                    Ok(_) => scan::crates_question(disk, seq![dir], 0, scan::no_scan()),
                },
            }
        },
        _ => None,
    }
}

/// The first open question about whether the crate at `dir` is an extension of
/// the module, and what it contributes.
pub open spec fn matched_question(
    disk: DiskView,
    dir: DirPathView,
    mod_attrs: Seq<AttributeView>,
    mod_items: Seq<ItemView>,
) -> Option<QueryView> {
    disk::first_open(
        metadata::value_question(disk, dir),
        match metadata::manifest_value(disk, dir) {
            None => None,
            Some(manifest) => match metadata::extension_attr(manifest, dir) {
                Ok(Some(ext)) => match attrs::first_named(mod_attrs, ext, 0) {
                    None => None,
                    Some(pos) => match metadata::package_ident(manifest) {
                        None => None,
                        Some(name) => if above_program(mod_attrs, pos) {
                            None
                        } else {
                            contribution_question(
                                disk,
                                dir,
                                manifest,
                                ext,
                                name,
                                mod_attrs,
                                mod_items,
                            )
                        },
                    },
                },
                _ => None,
            },
        },
    )
}

/// The first open question about the crates from `from` on. Discovery ends with
/// the first crate that is refused.
pub open spec fn discovery_question(
    disk: DiskView,
    dirs: Seq<DirPathView>,
    mod_attrs: Seq<AttributeView>,
    mod_items: Seq<ItemView>,
    from: int,
) -> Option<QueryView>
    decreases dirs.len() - from,
{
    if from < 0 || from >= dirs.len() {
        None
    } else {
        disk::first_open(
            matched_question(disk, dirs[from], mod_attrs, mod_items),
            if matched_in(disk, dirs[from], mod_attrs, mod_items).0 is Err {
                None
            } else {
                discovery_question(disk, dirs, mod_attrs, mod_items, from + 1)
            },
        )
    }
}

} // verus!
