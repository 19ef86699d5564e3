//! Extension discovery for SPEL programs.
//!
//! Scans the consuming program's **direct** dependencies (path, git, or
//! registry, resolved by [`crate::dep_walk`]) for crates that declare
//! `[package.metadata.spel]` in their `Cargo.toml`. Each qualifying
//! crate contributes through one entry point:
//!
//! - [`discover_extensions`] returns an [`ExtensionDiscoveries`]: the
//!   cross-crate `#[instruction]` fns to be merged into the consumer's
//!   dispatcher and IDL, a gate param inject specs applied by
//!   [`apply_wrap_and_inject`], the wrap configs, and any embedded-mode
//!   declarations from the module markers. Producers apply
//!   [`rewrite_embedded_roles`] before the wrap and inject passes so an
//!   embedded role resolves to the consumer's own account; discovered
//!   fns get their role params substituted and their `bound_args`
//!   trailing params stripped, with the dispatcher filling the values
//!   as literals invisible to the IDL. Gate and
//!   marker attrs stay on emitted handler fns and expand there as
//!   ordinary proc-macros: a gate rewrites the handler body, a marker
//!   expands to nothing. Nothing is stripped.
//! - [`check_duplicate_instruction_names`] rejects name collisions
//!   between user fns and discovered extensions (or two extensions)
//!   before they become colliding enum variants, match arms, or IDL
//!   discriminators. All producers run it after assembly.
//!
//! # Trust model
//!
//! Activating an extension takes two explicit consumer actions: the
//! dependency listed in the consumer's own `Cargo.toml` and the marker
//! attr on the `#[lez_program]` module. Discovery is deliberately not
//! transitive, so a dependency of a dependency can never contribute
//! instructions by claiming a matching `extension_attr`. Generated
//! cross-crate call paths use the dependency's `[package].name`, never
//! its directory name.
//!
//! # Failure tiers
//!
//! Malformed `[package.metadata.spel]` (a key with the wrong shape) is a
//! hard refusal: callers surface it as a compile error, a broken extension
//! declaration must never degrade to a program silently missing its
//! extension surface. Environmental issues (unreadable manifest, path
//! dep pointing at a missing directory, a matched extension contributing
//! nothing) are reported as warnings, with one exception. A candidate
//! marker that matched no discovered extension makes
//! [`resolve_program_deps`] hard-error regardless of why: a typo or a
//! transitive-only dependency under healthy resolution, or a git or
//! registry extension that cannot be located once dependency resolution
//! loses the cargo metadata layer. Compiling a program that may be
//! silently missing its extension surface is the one failure this
//! mechanism cannot afford. When every candidate marker matched a path
//! dependency, resolution degradation stays a warning and the build
//! proceeds.
use crate::dep_walk;
use crate::dep_walk::{resolve_dep_graph, DepGraph, DepGraphView};
use crate::disk;
use crate::disk::{Disk, DiskView, Query, QueryView};
use crate::model;
use crate::model::{none, put, Dup};
use crate::path;
use crate::path::{DirPath, DirPathView};
use crate::syntax::{
    Attribute, AttributeView, Item, ItemFn, ItemFnView, ItemView, Path, PathView,
};
use crate::text;
use vstd::prelude::*;

pub mod agreement_laws;
pub mod contribution_laws;
pub mod discovery;
pub mod discovery_laws;
pub mod gate_laws;
pub mod inject;
pub mod injection_laws;
pub mod marker;
pub mod marking_laws;
pub mod metadata;
pub mod reading_laws;
pub mod remap_laws;
pub mod retarget_laws;
pub mod role_laws;
pub mod slots;
pub mod wrap_laws;

pub use crate::extension::discovery::{collect_instruction_fns, discover_extensions};
pub use crate::extension::inject::{
    active_wraps, apply_wrap_and_inject, rewrite_embedded_roles, ActiveWrap, ActiveWrapView,
    GateLocations,
};
pub use crate::extension::marker::{
    candidate_marker_names, has_extension_marker_candidates, parse_marker_args, BoundValue,
    BoundValueView, EmbedDecl, EmbedDeclView, MarkerArgs, OffsetSpec, OffsetSpecView,
};
pub use crate::extension::slots::{
    find_slot_carrier, resolve_derived_offsets, slot_offset_const_name, SlotCarrier,
    SlotCarrierView,
};

use crate::extension::metadata::{read_manifest_value, read_spel_inject_specs};

verus! {

/// Why dependency work stopped.
#[derive(Debug, PartialEq, Eq)]
pub enum Stop {
    /// A question about the disk is open; the work is to be repeated with its
    /// answer.
    Need(Query),
    /// The program or an extension is declared in a way that is refused. The
    /// message says why.
    Refused(String),
}

/// Whether a result hands back the question that is open, and is what is expected
/// of the disk where none is.
pub open spec fn settled<T: DeepView>(
    r: Result<T, Stop>,
    disk: DiskView,
    open: Option<QueryView>,
    expected: Result<T::V, Seq<char>>,
) -> bool {
    match r {
        Ok(x) => open is None && expected == Ok::<T::V, Seq<char>>(x.deep_view()),
        Err(Stop::Refused(e)) => open is None && expected == Err::<T::V, Seq<char>>(e@),
        Err(Stop::Need(q)) => open == Some(q.deep_view()) && disk.lacks(q.deep_view()),
    }
}

/// Whether work ran to its end, so that its warnings are complete.
pub open spec fn heard<T>(r: Result<T, Stop>) -> bool {
    !(r matches Err(Stop::Need(_)))
}

/// What the consumer's direct dependencies contribute to its program:
/// cross-crate instruction fns, gate param inject specs, and
/// library-owned gate attribute names, collected in one pass per
/// dependency.
#[derive(Debug, PartialEq, Eq)]
pub struct ExtensionDiscoveries {
    /// One entry per discovered `#[instruction]` fn, with the absolute
    /// crate path to call it from the consumer (e.g. `::admin_authority`),
    /// derived from the dependency's `[package].name`.
    pub instructions: Vec<(ItemFn, Path)>,
    /// Gate param injection specs the libraries declare. Instructions
    /// carrying a spec's bare wrapper attr get missing params
    /// synthesized by [`apply_wrap_and_inject`].
    pub inject_specs: Vec<InjectSpec>,
    /// Active wrap configs, paired with the consumer marker attr's arg
    /// (`""` for a bare marker) so callers can honor `skip`.
    pub wraps: Vec<(String, WrapInstructions)>,
    /// Embedded-mode declarations from the module markers, each naming
    /// the declaring extension so a role only ever rewrites its own
    /// extensions' inject entries.
    pub embeds: Vec<Embed>,
    /// Dispatch-only trailing args per discovered fn, resolved from
    /// `bound_args` metadata and the marker's kwargs, by fn name. The
    /// dispatcher appends each value at the call site as a literal or, for a
    /// derived offset, as the carrier's const path; the params were
    /// stripped at discovery so no IDL or validation path sees them.
    pub bound_calls: Vec<(String, Vec<BoundValue>)>,
    /// Marker names that matched a discovered extension, in marker
    /// order. Lets producers tell an unmatched candidate attr from a
    /// matched one when dependency resolution degrades.
    pub matched_markers: Vec<String>,
}

/// What a [`ExtensionDiscoveries`] holds.
#[verifier::ext_equal]
pub struct ExtensionDiscoveriesView {
    pub instructions: Seq<(ItemFnView, PathView)>,
    pub inject_specs: Seq<InjectSpecView>,
    pub wraps: Seq<(Seq<char>, WrapInstructionsView)>,
    pub embeds: Seq<EmbedView>,
    pub bound_calls: Seq<(Seq<char>, Seq<BoundValueView>)>,
    pub matched_markers: Seq<Seq<char>>,
}

impl DeepView for ExtensionDiscoveries {
    type V = ExtensionDiscoveriesView;

    open spec fn deep_view(&self) -> ExtensionDiscoveriesView {
        ExtensionDiscoveriesView {
            instructions: self.instructions.deep_view(),
            inject_specs: self.inject_specs.deep_view(),
            wraps: self.wraps.deep_view(),
            embeds: self.embeds.deep_view(),
            bound_calls: self.bound_calls.deep_view(),
            matched_markers: self.matched_markers.deep_view(),
        }
    }
}

impl Dup for ExtensionDiscoveries {
    fn dup(&self) -> (r: Self) {
        ExtensionDiscoveries {
            instructions: self.instructions.dup(),
            inject_specs: self.inject_specs.dup(),
            wraps: self.wraps.dup(),
            embeds: self.embeds.dup(),
            bound_calls: self.bound_calls.dup(),
            matched_markers: self.matched_markers.dup(),
        }
    }
}

/// One component of an injected account's PDA seed.
#[derive(Debug, PartialEq, Eq)]
pub enum InjectSeed {
    /// Literal string seed, emitted as `pda = literal("...")`.
    Const(String),
    /// Seed derived from another account's `AccountId`, emitted as
    /// `pda = account("...")`. The string names a param of the same
    /// gated instructions,
    Account(String),
}

/// What a [`InjectSeed`] holds.
#[verifier::ext_equal]
pub enum InjectSeedView {
    Const(Seq<char>),
    Account(Seq<char>),
}

impl DeepView for InjectSeed {
    type V = InjectSeedView;

    open spec fn deep_view(&self) -> InjectSeedView {
        match self {
            InjectSeed::Const(a) => InjectSeedView::Const(a@),
            InjectSeed::Account(a) => InjectSeedView::Account(a@),
        }
    }
}

impl Dup for InjectSeed {
    fn dup(&self) -> (r: Self) {
        match self {
            InjectSeed::Const(a) => InjectSeed::Const(a.clone()),
            InjectSeed::Account(a) => InjectSeed::Account(a.clone()),
        }
    }
}

/// One account a gate wrapper needs injected.
#[derive(Debug, PartialEq, Eq)]
pub struct InjectAccount {
    /// Param name a gate matches by.
    pub name: String,
    /// Inject-spec role name, the wrapper kwarg key. Equal to `name`
    /// unless an embedded rewrite retargeted the param.
    pub role: String,
    /// Ordered PDA seed components. Empty = plain account (no PDA),
    /// one = single-seed PDA, multiple = compound PDA.
    pub seeds: Vec<InjectSeed>,
    /// Whether the param carries `#[account(signer)]`.
    pub signer: bool,
    /// Set by the embedded rewrite: this entry was retargeted to the
    /// consumer's embedding account. Substitution keys on this, never
    /// on a name/role comparison, so an embedding account may share
    /// the role's name.
    pub embedded: bool,
}

/// What a [`InjectAccount`] holds.
#[verifier::ext_equal]
pub struct InjectAccountView {
    pub name: Seq<char>,
    pub role: Seq<char>,
    pub seeds: Seq<InjectSeedView>,
    pub signer: bool,
    pub embedded: bool,
}

impl DeepView for InjectAccount {
    type V = InjectAccountView;

    open spec fn deep_view(&self) -> InjectAccountView {
        InjectAccountView {
            name: self.name@,
            role: self.role@,
            seeds: self.seeds.deep_view(),
            signer: self.signer,
            embedded: self.embedded,
        }
    }
}

impl Dup for InjectAccount {
    fn dup(&self) -> (r: Self) {
        InjectAccount {
            name: self.name.clone(),
            role: self.role.clone(),
            seeds: self.seeds.dup(),
            signer: self.signer,
            embedded: self.embedded,
        }
    }
}

/// One `[[package.metadata.spel.inject]]` block: which wrapper attr it
/// serves and the accounts to inject when a gated fn omits them.
#[derive(Debug, PartialEq, Eq)]
pub struct InjectSpec {
    /// Wrapper attr name (e.g. `require_admin`) that activates this spec.
    pub wrapper: String,
    /// Accounts to synthesize, in declaration order.
    pub accounts: Vec<InjectAccount>,
    /// Crate name of the extension that declared this spec. Names the
    /// offender when two extensions inject conflicting params.
    pub source: String,
    /// Where the declaring extension's state sits inside the consumer's
    /// account, set by [`rewrite_embedded_roles`]. `Some` exactly when
    /// this extension is in embedded mode, which is what makes the
    /// framework the only writer of a gate's location kwargs.
    pub embedded_offset: Option<OffsetSpec>,
}

/// What a [`InjectSpec`] holds.
#[verifier::ext_equal]
pub struct InjectSpecView {
    pub wrapper: Seq<char>,
    pub accounts: Seq<InjectAccountView>,
    pub source: Seq<char>,
    pub embedded_offset: Option<OffsetSpecView>,
}

impl DeepView for InjectSpec {
    type V = InjectSpecView;

    open spec fn deep_view(&self) -> InjectSpecView {
        InjectSpecView {
            wrapper: self.wrapper@,
            accounts: self.accounts.deep_view(),
            source: self.source@,
            embedded_offset: self.embedded_offset.deep_view(),
        }
    }
}

impl Dup for InjectSpec {
    fn dup(&self) -> (r: Self) {
        InjectSpec {
            wrapper: self.wrapper.clone(),
            accounts: self.accounts.dup(),
            source: self.source.clone(),
            embedded_offset: self.embedded_offset.dup(),
        }
    }
}

/// Parsed `[package.metadata.spel.wrap_instructions]` for an extension
/// lib. Declares the per-instruction wrap the extension wants applied
/// to every instruction the consumer's dispatcher ships, the
/// consumer's own and discovered ones alike. Consumer fns opt out per
/// fn via `self_exempt_marker`; discovered fns have no source site to
/// annotate, so cross-crate carve-outs go in `exempt` by qualified
/// name.
#[derive(Debug, PartialEq, Eq)]
pub struct WrapInstructions {
    /// Proc-macro attribute the framework prepends to each non-exempt fn.
    pub wrapper: String,
    /// Marker attr arg that disables wrap (e.g. `"manual"`). `None` when
    /// the extension offers no opt-out word: wrap is then always active
    /// for consumers that carry the marker.
    pub skip: Option<String>,
    /// Per-fn opt-out attribute name (e.g. `"freeze_exempt"`).
    pub self_exempt_marker: String,
    /// Fully-qualified instructions from other crates to skip
    /// unconditionally.
    pub exempt: Vec<String>,
}

/// What a [`WrapInstructions`] holds.
#[verifier::ext_equal]
pub struct WrapInstructionsView {
    pub wrapper: Seq<char>,
    pub skip: Option<Seq<char>>,
    pub self_exempt_marker: Seq<char>,
    pub exempt: Seq<Seq<char>>,
}

impl DeepView for WrapInstructions {
    type V = WrapInstructionsView;

    open spec fn deep_view(&self) -> WrapInstructionsView {
        WrapInstructionsView {
            wrapper: self.wrapper@,
            skip: self.skip.deep_view(),
            self_exempt_marker: self.self_exempt_marker@,
            exempt: self.exempt.deep_view(),
        }
    }
}

impl Dup for WrapInstructions {
    fn dup(&self) -> (r: Self) {
        WrapInstructions {
            wrapper: self.wrapper.clone(),
            skip: self.skip.dup(),
            self_exempt_marker: self.self_exempt_marker.clone(),
            exempt: self.exempt.dup(),
        }
    }
}

/// One extension's embedded-mode declaration: which extension declared
/// it, where its window sits, and the type occupying that window.
///
/// The three travel together because embedded mode requires all three:
/// discovery refuses an embed whose extension declares no
/// `embedded.state_type`, so a window always knows its own length and
/// the collision asserts can be emitted from the embed alone.
#[derive(Debug, PartialEq, Eq)]
pub struct Embed {
    /// Crate name of the declaring extension.
    pub source: String,
    /// Role, embedding account, and offset from the module marker.
    pub decl: EmbedDecl,
    /// Type occupying the window, from `embedded.state_type` metadata.
    /// Window collision asserts read its `FixedBorshSize::SIZE`.
    pub state_type: String,
    /// The consumer struct carrying this role's `*_slot` field, bound by
    /// [`resolve_derived_offsets`]. `None` under [`Carriers::Skip`], and
    /// for a literal offset whose role no struct marks.
    pub carrier: Option<SlotCarrier>,
}

/// What a [`Embed`] holds.
#[verifier::ext_equal]
pub struct EmbedView {
    pub source: Seq<char>,
    pub decl: EmbedDeclView,
    pub state_type: Seq<char>,
    pub carrier: Option<SlotCarrierView>,
}

impl DeepView for Embed {
    type V = EmbedView;

    open spec fn deep_view(&self) -> EmbedView {
        EmbedView {
            source: self.source@,
            decl: self.decl.deep_view(),
            state_type: self.state_type@,
            carrier: self.carrier.deep_view(),
        }
    }
}

impl Dup for Embed {
    fn dup(&self) -> (r: Self) {
        Embed {
            source: self.source.clone(),
            decl: self.decl.dup(),
            state_type: self.state_type.clone(),
            carrier: self.carrier.dup(),
        }
    }
}

/// Everything a producer needs from the dependency side, resolved in
/// one call by [`resolve_program_deps`].
#[derive(Debug, PartialEq, Eq)]
pub struct ProgramDeps {
    /// The dependency graph, one `cargo metadata` invocation at most.
    pub graph: DepGraph,
    /// What matched extensions contribute to the program.
    pub extensions: ExtensionDiscoveries,
}

/// What a [`ProgramDeps`] holds.
#[verifier::ext_equal]
pub struct ProgramDepsView {
    pub graph: DepGraphView,
    pub extensions: ExtensionDiscoveriesView,
}

impl DeepView for ProgramDeps {
    type V = ProgramDepsView;

    open spec fn deep_view(&self) -> ProgramDepsView {
        ProgramDepsView {
            graph: self.graph.deep_view(),
            extensions: self.extensions.deep_view(),
        }
    }
}

impl Dup for ProgramDeps {
    fn dup(&self) -> (r: Self) {
        ProgramDeps {
            graph: self.graph.dup(),
            extensions: self.extensions.dup(),
        }
    }
}

/// Whether a producer resolves derived offsets, and against what.
///
/// The two halves of that question always had one answer and were
/// asked separately: a producer that resolves carriers is the one that
/// writes location kwargs, and a producer that does not resolve must
/// not write them. Passing this to [`ProgramDeps::prepare`] settles
/// both at once.
pub enum Carriers<'a> {
    /// Resolve every derivation against these items, then write
    /// locations onto gate attrs. The dispatcher's answer.
    Resolve(&'a Vec<Item>),
    /// Leave derivations unresolved and write no locations. The IDL
    /// producers' answer: the IDL has no offset field, so a resolved
    /// one could not reach their output.
    Skip,
}

/// What a [`Carriers`] holds.
#[verifier::ext_equal]
pub enum CarriersView {
    Resolve(Seq<ItemView>),
    Skip,
}

impl<'a> DeepView for Carriers<'a> {
    type V = CarriersView;

    open spec fn deep_view(&self) -> CarriersView {
        match self {
            Carriers::Resolve(items) => CarriersView::Resolve(items.deep_view()),
            Carriers::Skip => CarriersView::Skip,
        }
    }
}

/// An extension-provided instruction fn, ready for a gate pass.
#[derive(Debug, PartialEq, Eq)]
pub struct PreparedInstruction {
    pub func: ItemFn,
    /// Absolute path to the declaring crate, e.g. `::admin_authority`.
    pub crate_path: Path,
    /// `crate::fn_name`, the form a wrap's `exempt` list matches.
    pub qualified: String,
}

/// What a [`PreparedInstruction`] holds.
#[verifier::ext_equal]
pub struct PreparedInstructionView {
    pub func: ItemFnView,
    pub crate_path: PathView,
    pub qualified: Seq<char>,
}

impl DeepView for PreparedInstruction {
    type V = PreparedInstructionView;

    open spec fn deep_view(&self) -> PreparedInstructionView {
        PreparedInstructionView {
            func: self.func.deep_view(),
            crate_path: self.crate_path.deep_view(),
            qualified: self.qualified@,
        }
    }
}

impl Dup for PreparedInstruction {
    fn dup(&self) -> (r: Self) {
        PreparedInstruction {
            func: self.func.dup(),
            crate_path: self.crate_path.dup(),
            qualified: self.qualified.clone(),
        }
    }
}

/// The dependency side of a program, in the state a gate pass wants.
/// 
/// [`ProgramDeps::prepare`] builds one, so the passes
/// that must precede a gate pass cannot be run out of order, skipped,
/// or applied with mismatched arguments: [`PreparedProgram::gate`]
/// supplies the specs, embeds, wraps, and location mode together.
#[derive(Debug, PartialEq, Eq)]
pub struct PreparedProgram {
    /// The dependency graph, for callers that scan dependency sources.
    pub graph: DepGraph,
    /// Gate param inject specs, embedded roles already rewritten.
    pub inject_specs: Vec<InjectSpec>,
    /// Embedded-mode declarations, offsets resolved under
    /// [`Carriers::Resolve`].
    pub embeds: Vec<Embed>,
    /// Wrap configs the consumer's marker args did not skip.
    pub active_wraps: Vec<ActiveWrap>,
    /// Dispatch-only trailing args per discovered fn.
    pub bound_calls: Vec<(String, Vec<BoundValue>)>,
    /// Instruction fns the extensions contribute.
    pub instructions: Vec<PreparedInstruction>,
    /// Whether a gate pass writes location kwargs, decided with the
    /// carriers rather than separately at each call site.
    pub locations: GateLocations,
}

/// What a [`PreparedProgram`] holds.
#[verifier::ext_equal]
pub struct PreparedProgramView {
    pub graph: DepGraphView,
    pub inject_specs: Seq<InjectSpecView>,
    pub embeds: Seq<EmbedView>,
    pub active_wraps: Seq<ActiveWrapView>,
    pub bound_calls: Seq<(Seq<char>, Seq<BoundValueView>)>,
    pub instructions: Seq<PreparedInstructionView>,
    pub locations: GateLocations,
}

impl DeepView for PreparedProgram {
    type V = PreparedProgramView;

    open spec fn deep_view(&self) -> PreparedProgramView {
        PreparedProgramView {
            graph: self.graph.deep_view(),
            inject_specs: self.inject_specs.deep_view(),
            embeds: self.embeds.deep_view(),
            active_wraps: self.active_wraps.deep_view(),
            bound_calls: self.bound_calls.deep_view(),
            instructions: self.instructions.deep_view(),
            locations: self.locations,
        }
    }
}

impl Dup for PreparedProgram {
    fn dup(&self) -> (r: Self) {
        PreparedProgram {
            graph: self.graph.dup(),
            inject_specs: self.inject_specs.dup(),
            embeds: self.embeds.dup(),
            active_wraps: self.active_wraps.dup(),
            bound_calls: self.bound_calls.dup(),
            instructions: self.instructions.dup(),
            locations: self.locations,
        }
    }
}

// ── Preparing a program ──────────────────────────────────────────────────

/// The `crate::fn_name` form of an instruction.
pub open spec fn qualified_name(crate_path: PathView, fn_name: Seq<char>) -> Seq<char> {
    (if crate_path.segments.len() > 0 {
        crate_path.segments[0]
    } else {
        Seq::empty()
    }) + "::"@ + fn_name
}

/// The `crate::fn_name` form a wrap's `exempt` list matches, built from
/// the declaring crate's path and the fn's own name.
pub fn qualified_instruction_name(crate_path: &Path, fn_name: &str) -> (r: String)
    ensures
        r@ == qualified_name(crate_path.deep_view(), fn_name@),
{
    if crate_path.segments.len() > 0 {
        crate_path.segments[0].clone().concat("::").concat(fn_name)
    } else {
        let r = "::".to_owned().concat(fn_name);
        assert(Seq::<char>::empty() + "::"@ =~= "::"@);
        r
    }
}

/// Discovered instructions with their qualified names.
pub open spec fn prepared_instructions(list: Seq<(ItemFnView, PathView)>) -> Seq<
    PreparedInstructionView,
> {
    list.map_values(
        |x: (ItemFnView, PathView)|
            PreparedInstructionView {
                func: x.0,
                crate_path: x.1,
                qualified: qualified_name(x.1, x.0.name),
            },
    )
}

fn prepare_instructions(list: &Vec<(ItemFn, Path)>) -> (r: Vec<PreparedInstruction>)
    ensures
        r.deep_view() == prepared_instructions(list.deep_view()),
{
    let mut out: Vec<PreparedInstruction> = Vec::new();
    let mut i: usize = 0;
    while i < list.len()
        invariant
            i <= list.len(),
            out.len() == i,
            forall|j: int|
                0 <= j < i ==> (#[trigger] out@[j]).deep_view() == (PreparedInstructionView {
                    func: list@[j].0.deep_view(),
                    crate_path: list@[j].1.deep_view(),
                    qualified: qualified_name(
                        list@[j].1.deep_view(),
                        list@[j].0.deep_view().name,
                    ),
                }),
        decreases list.len() - i,
    {
        let func = list[i].0.dup();
        let crate_path = list[i].1.dup();
        let qualified = qualified_instruction_name(&crate_path, func.name.as_str());
        out.push(PreparedInstruction { func, crate_path, qualified });
        i += 1;
    }
    assert(out.deep_view() =~= prepared_instructions(list.deep_view()));
    out
}

/// What [`ProgramDeps::prepare`] makes of the dependency side.
pub open spec fn prepared(
    deps: ProgramDepsView,
    mod_items: Seq<ItemView>,
    carriers: CarriersView,
) -> Result<PreparedProgramView, Seq<char>> {
    let resolved = match carriers {
        CarriersView::Resolve(items) => slots::resolved_offsets(deps.extensions, items),
        CarriersView::Skip => Ok(deps.extensions),
    };
    match resolved {
        Err(e) => Err(e),
        Ok(ext) => match inject::all_rewritten(
            ext.inject_specs,
            ext.embeds,
            discovery::instruction_fns(mod_items),
        ) {
            Err(e) => Err(e),
            Ok(specs) => match inject::active_from(ext.wraps, 0, Seq::empty()) {
                Err(e) => Err(e),
                Ok(active_wraps) => Ok(
                    PreparedProgramView {
                        graph: deps.graph,
                        inject_specs: specs,
                        embeds: ext.embeds,
                        active_wraps,
                        bound_calls: ext.bound_calls,
                        instructions: prepared_instructions(ext.instructions),
                        locations: match carriers {
                            CarriersView::Resolve(_) => GateLocations::Emit,
                            CarriersView::Skip => GateLocations::Omit,
                        },
                    },
                ),
            },
        },
    }
}

impl PreparedProgramView {
    /// What a gate pass makes of one instruction fn, and the names of the
    /// params it injects.
    pub open spec fn gated(self, func: ItemFnView, qualified: Option<Seq<char>>) -> Result<
        (ItemFnView, Seq<Seq<char>>),
        Seq<char>,
    > {
        inject::gated(
            func,
            self.active_wraps,
            self.inject_specs,
            self.embeds,
            self.locations,
            qualified,
        )
    }
}

impl PreparedProgram {
    /// Run a gate pass over one instruction fn.
    ///
    /// `qualified = None` for a consumer-authored fn, `Some` for an
    /// extension-provided one (see [`apply_wrap_and_inject`]).
    ///
    /// # Errors
    ///
    /// Propagates [`apply_wrap_and_inject`].
    pub fn gate(&self, func: &mut ItemFn, qualified: Option<&str>) -> (r: Result<
        Vec<String>,
        String,
    >)
        ensures
            match self.deep_view().gated(old(func).deep_view(), qualified.deep_view()) {
                Ok((f, names)) => {
                    &&& r is Ok
                    &&& r->Ok_0.deep_view() == names
                    &&& final(func).deep_view() == f
                },
                Err(e) => r is Err && r->Err_0@ == e,
            },
    {
        apply_wrap_and_inject(
            func,
            &self.active_wraps,
            &self.inject_specs,
            &self.embeds,
            self.locations,
            qualified,
        )
    }
}

impl ProgramDeps {
    /// Run every pass a gate pass depends on, in the one order that
    /// works: resolve derivations, rewrite embedded roles against the
    /// consumer's own instructions, then filter the wraps the marker
    /// skipped.
    ///
    /// # Errors
    ///
    /// `Err` when a derivation has no slot carrier, when an embedded
    /// role matches no inject account, when the embedding account has
    /// no canonical declaration, or when two embeds collide. Callers
    /// surface it as a compile error.
    pub fn prepare(self, mod_items: &Vec<Item>, carriers: Carriers) -> (r: Result<
        PreparedProgram,
        String,
    >)
        ensures
            model::outcome(r) == prepared(
                self.deep_view(),
                mod_items.deep_view(),
                carriers.deep_view(),
            ),
    {
        let mut ext = self.extensions;
        let locations = match carriers {
            Carriers::Resolve(items) => {
                if let Err(e) = resolve_derived_offsets(&mut ext, items) {
                    return Err(e);
                }
                GateLocations::Emit
            },
            Carriers::Skip => GateLocations::Omit,
        };
        let consumer_fns = collect_instruction_fns(mod_items);
        let mut specs = ext.inject_specs;
        if let Err(e) = rewrite_embedded_roles(&mut specs, &ext.embeds, &consumer_fns) {
            return Err(e);
        }
        let instructions = prepare_instructions(&ext.instructions);
        match active_wraps(&ext.wraps) {
            Ok(wraps) => Ok(
                PreparedProgram {
                    graph: self.graph,
                    inject_specs: specs,
                    embeds: ext.embeds,
                    active_wraps: wraps,
                    bound_calls: ext.bound_calls,
                    instructions,
                    locations,
                },
            ),
            Err(e) => Err(e),
        }
    }
}

// ── Resolving a program's dependencies ───────────────────────────────────

/// Whether a module carries an attribute that could be an extension marker.
pub open spec fn has_candidates(mod_attrs: Seq<AttributeView>) -> bool {
    exists|i: int| 0 <= i < mod_attrs.len() && marker::may_mark(#[trigger] mod_attrs[i])
}

/// The candidate markers that no extension matched.
pub open spec fn unmatched(candidates: Seq<Seq<char>>, matched: Seq<Seq<char>>) -> Seq<Seq<char>>
    decreases candidates.len(),
{
    if candidates.len() == 0 {
        Seq::empty()
    } else if matched.contains(candidates.last()) {
        unmatched(candidates.drop_last(), matched)
    } else {
        unmatched(candidates.drop_last(), matched).push(candidates.last())
    }
}

/// Names as they are quoted in messages.
pub open spec fn quoted_names(names: Seq<Seq<char>>) -> Seq<char> {
    "["@ + text::listed(text::all_quoted(names), 0) + "]"@
}

/// Whether all markers are accounted for, and the warning where resolution
/// degraded without a loss.
pub open spec fn all_matched(missing: Seq<Seq<char>>, failure: Option<Seq<char>>) -> (
    Result<(), Seq<char>>,
    Seq<Seq<char>>,
) {
    match failure {
        Some(reason) => if missing.len() > 0 {
            (
                Err(
                    "marker(s) "@ + quoted_names(missing)
                        + " matched no discoverable extension and dependency resolution failed: "@
                        + reason
                        + ". A git or registry extension cannot be located in this state, refusing to compile a program that could be silently missing its extension surface."@,
                ),
                Seq::empty(),
            )
        } else {
            (
                Ok(()),
                seq![
                    "dependency resolution degraded ("@ + reason
                        + "); every marker matched a path dependency, continuing"@,
                ],
            )
        },
        None => if missing.len() > 0 {
            (
                Err(
                    "marker(s) "@ + quoted_names(missing)
                        + " matched no extension in the program's direct dependencies. A marker matches a direct dependency that declares extension_attr = \"<marker>\" in its spel metadata; check the marker for typos, and note that transitive dependencies aAre never discovered."@,
                ),
                Seq::empty(),
            )
        } else {
            (Ok(()), Seq::empty())
        },
    }
}

/// What [`resolve_program_deps_with_graph`] gives, and the warnings.
pub open spec fn program_deps(
    disk: DiskView,
    graph: DepGraphView,
    mod_attrs: Seq<AttributeView>,
    mod_items: Seq<ItemView>,
) -> (Result<ProgramDepsView, Seq<char>>, Seq<Seq<char>>) {
    if !has_candidates(mod_attrs) {
        (
            Ok(ProgramDepsView { graph, extensions: discovery::nothing_discovered() }),
            Seq::empty(),
        )
    } else {
        let (r, ws) = discovery::discovered(disk, graph.direct_dirs, mod_attrs, mod_items);
        match r {
            Err(e) => (Err(e), ws),
            Ok(extensions) => {
                let (v, more) = all_matched(
                    unmatched(marker::candidates(mod_attrs), extensions.matched_markers),
                    graph.metadata_failure,
                );
                match v {
                    Ok(_) => (Ok(ProgramDepsView { graph, extensions }), ws + more),
                    Err(e) => (Err(e), ws + more),
                }
            },
        }
    }
}

/// What [`resolve_program_deps`] gives, and the warnings.
pub open spec fn resolved_deps(
    disk: DiskView,
    start: DirPathView,
    mod_attrs: Seq<AttributeView>,
    mod_items: Seq<ItemView>,
) -> (Result<ProgramDepsView, Seq<char>>, Seq<Seq<char>>) {
    let (graph, ws) = dep_walk::dep_graph(disk, start, has_candidates(mod_attrs));
    let (r, more) = program_deps(disk, graph, mod_attrs, mod_items);
    (r, ws + more)
}

/// The first open question on the way to the extensions of a program, over a graph.
pub open spec fn deps_question(
    disk: DiskView,
    graph: DepGraphView,
    mod_attrs: Seq<AttributeView>,
    mod_items: Seq<ItemView>,
) -> Option<QueryView> {
    if has_candidates(mod_attrs) {
        discovery::discovery_question(disk, graph.direct_dirs, mod_attrs, mod_items, 0)
    } else {
        None
    }
}

/// The first open question on the way to the dependency side of a program.
pub open spec fn resolved_question(
    disk: DiskView,
    start: DirPathView,
    mod_attrs: Seq<AttributeView>,
    mod_items: Seq<ItemView>,
) -> Option<QueryView> {
    let graph = dep_walk::dep_graph(disk, start, has_candidates(mod_attrs)).0;
    disk::first_open(
        dep_walk::dep_graph_question(disk, start, has_candidates(mod_attrs)),
        deps_question(disk, graph, mod_attrs, mod_items),
    )
}

fn find_unmatched(candidates: &Vec<String>, matched: &Vec<String>) -> (r: Vec<String>)
    ensures
        r.deep_view() == unmatched(candidates.deep_view(), matched.deep_view()),
{
    let ghost all = candidates.deep_view();
    let mut out: Vec<String> = none();
    let mut i: usize = 0;
    assert(all.take(0) =~= Seq::empty());
    while i < candidates.len()
        invariant
            i <= candidates.len(),
            all == candidates.deep_view(),
            out.deep_view() == unmatched(all.take(i as int), matched.deep_view()),
        decreases candidates.len() - i,
    {
        assert(all.take(i + 1).drop_last() =~= all.take(i as int));
        assert(all.take(i + 1).last() == candidates@[i as int]@);
        if !text::holds(matched, candidates[i].as_str()) {
            put(&mut out, candidates[i].clone());
        }
        i += 1;
    }
    assert(all.take(i as int) =~= all);
    out
}

fn check_all_matched(
    missing: &Vec<String>,
    failure: &Option<String>,
    warnings: &mut Vec<String>,
) -> (r: Result<(), String>)
    ensures
        ({
            let (expected, ws) = all_matched(missing.deep_view(), failure.deep_view());
            model::verdict(r) == expected && final(warnings).deep_view() == old(
                warnings,
            ).deep_view() + ws
        }),
{
    let ghost before = warnings.deep_view();
    assert(before + Seq::<Seq<char>>::empty() =~= before);
    match failure {
        Some(reason) => {
            if missing.len() > 0 {
                return Err(
                    "marker(s) ".to_owned().concat(text::quote_list(missing).as_str()).concat(
                        " matched no discoverable extension and dependency resolution failed: ",
                    ).concat(reason.as_str()).concat(
                        ". A git or registry extension cannot be located in this state, refusing to compile a program that could be silently missing its extension surface.",
                    ),
                );
            }
            let w = "dependency resolution degraded (".to_owned().concat(reason.as_str()).concat(
                "); every marker matched a path dependency, continuing",
            );
            let ghost wv = w@;
            put(warnings, w);
            assert(warnings.deep_view() =~= before + seq![wv]);
            Ok(())
        },
        None => {
            if missing.len() > 0 {
                return Err(
                    "marker(s) ".to_owned().concat(text::quote_list(missing).as_str()).concat(
                        " matched no extension in the program's direct dependencies. A marker matches a direct dependency that declares extension_attr = \"<marker>\" in its spel metadata; check the marker for typos, and note that transitive dependencies aAre never discovered.",
                    ),
                );
            }
            Ok(())
        },
    }
}

/// Producer entry point: marker pre-check, graph resolution, and
/// extension discovery in one call. Modules without candidate markers
/// skip the cargo metadata walk and discovery entirely.
///
/// # Errors
///
/// Refused on malformed spel metadata, a marker placed above
/// `#[lez_program]`, or a candidate marker matching no discovered
/// extension, whatever the reason it did not match; callers surface it
/// as a compile error.
pub fn resolve_program_deps(
    disk: &Disk,
    start: &DirPath,
    mod_attrs: &Vec<Attribute>,
    mod_items: &Vec<Item>,
    warnings: &mut Vec<String>,
) -> (r: Result<ProgramDeps, Stop>)
    ensures
        ({
            let (expected, ws) = resolved_deps(
                disk.deep_view(),
                start.deep_view(),
                mod_attrs.deep_view(),
                mod_items.deep_view(),
            );
            settled(
                r,
                disk.deep_view(),
                resolved_question(
                    disk.deep_view(),
                    start.deep_view(),
                    mod_attrs.deep_view(),
                    mod_items.deep_view(),
                ),
                expected,
            ) && (heard(r) ==> final(warnings).deep_view()
                == old(warnings).deep_view() + ws)
        }),
{
    let ghost before = warnings.deep_view();
    let with_metadata = has_extension_marker_candidates(mod_attrs);
    assert(with_metadata == has_candidates(mod_attrs.deep_view()));
    let graph = match resolve_dep_graph(disk, start, with_metadata, warnings) {
        Ok(g) => g,
        Err(q) => {
            return Err(Stop::Need(q));
        },
    };
    proof {
        let (g, ws) = dep_walk::dep_graph(disk.deep_view(), start.deep_view(), with_metadata);
        let more = program_deps(
            disk.deep_view(),
            g,
            mod_attrs.deep_view(),
            mod_items.deep_view(),
        ).1;
        assert((before + ws) + more =~= before + (ws + more));
    }
    resolve_program_deps_with_graph(disk, graph, mod_attrs, mod_items, warnings)
}

/// [`resolve_program_deps`] over a graph the caller already resolved.
///
/// A producer that needs the graph for its own work hands it over
/// rather than paying for a second `cargo metadata` of the same
/// manifest. Discovery reads `direct_dirs`, so a graph resolved with
/// metadata enabled satisfies every marker a self-resolved one would.
///
/// # Errors
///
/// The same as [`resolve_program_deps`].
pub fn resolve_program_deps_with_graph(
    disk: &Disk,
    graph: DepGraph,
    mod_attrs: &Vec<Attribute>,
    mod_items: &Vec<Item>,
    warnings: &mut Vec<String>,
) -> (r: Result<ProgramDeps, Stop>)
    ensures
        ({
            let (expected, ws) = program_deps(
                disk.deep_view(),
                graph.deep_view(),
                mod_attrs.deep_view(),
                mod_items.deep_view(),
            );
            settled(
                r,
                disk.deep_view(),
                deps_question(
                    disk.deep_view(),
                    graph.deep_view(),
                    mod_attrs.deep_view(),
                    mod_items.deep_view(),
                ),
                expected,
            ) && (heard(r) ==> final(warnings).deep_view()
                == old(warnings).deep_view() + ws)
        }),
{
    let ghost before = warnings.deep_view();
    assert(before + Seq::<Seq<char>>::empty() =~= before);
    let with_metadata = has_extension_marker_candidates(mod_attrs);
    assert(with_metadata == has_candidates(mod_attrs.deep_view()));
    if !with_metadata {
        return Ok(
            ProgramDeps {
                graph,
                extensions: ExtensionDiscoveries {
                    instructions: none(),
                    inject_specs: none(),
                    wraps: none(),
                    embeds: none(),
                    bound_calls: none(),
                    matched_markers: none(),
                },
            },
        );
    }
    let extensions = match discover_extensions(
        disk,
        &graph.direct_dirs,
        mod_attrs,
        mod_items,
        warnings,
    ) {
        Ok(e) => e,
        Err(s) => {
            return Err(s);
        },
    };
    let missing = find_unmatched(&candidate_marker_names(mod_attrs), &extensions.matched_markers);
    proof {
        let ws = discovery::discovered(
            disk.deep_view(),
            graph.direct_dirs.deep_view(),
            mod_attrs.deep_view(),
            mod_items.deep_view(),
        ).1;
        let more = all_matched(missing.deep_view(), graph.metadata_failure.deep_view()).1;
        assert((before + ws) + more =~= before + (ws + more));
    }
    match check_all_matched(&missing, &graph.metadata_failure, warnings) {
        Ok(_) => Ok(ProgramDeps { graph, extensions }),
        Err(e) => Err(Stop::Refused(e)),
    }
}

/// What [`read_inject_specs`] reads.
pub open spec fn declared_specs(disk: DiskView, dir: DirPathView) -> Result<
    Seq<InjectSpecView>,
    Seq<char>,
> {
    match metadata::manifest_value(disk, dir) {
        Some(v) => metadata::inject_specs(v, dir),
        None => Err("unreadable Cargo.toml under "@ + path::shown(dir)),
    }
}

/// Read a crate's `[[package.metadata.spel.inject]]` blocks from its
/// manifest on disk. Public for the extension author's alignment
/// self-test (freeze ADR-0010): a unit test inside the extension crate
/// reads its own declared inject-account names and asserts they match
/// the kwarg set its wrapper macro accepts, so metadata and macro
/// cannot drift apart silently.
///
/// # Errors
///
/// Refused on an unreadable manifest or malformed inject metadata.
pub fn read_inject_specs(disk: &Disk, crate_dir: &DirPath) -> (r: Result<Vec<InjectSpec>, Stop>)
    ensures
        settled(
            r,
            disk.deep_view(),
            metadata::value_question(disk.deep_view(), crate_dir.deep_view()),
            declared_specs(disk.deep_view(), crate_dir.deep_view()),
        ),
{
    match read_manifest_value(disk, crate_dir) {
        Ok(Some(v)) => match read_spel_inject_specs(&v, crate_dir) {
            Ok(specs) => Ok(specs),
            Err(e) => Err(Stop::Refused(e)),
        },
        Ok(None) => Err(
            Stop::Refused(
                "unreadable Cargo.toml under ".to_owned().concat(crate_dir.display().as_str()),
            ),
        ),
        Err(q) => Err(Stop::Need(q)),
    }
}

// ── Duplicate instructions ───────────────────────────────────────────────

/// Where a name is first seen.
pub open spec fn first_seen(
    instructions: Seq<(Seq<char>, Seq<char>)>,
    name: Seq<char>,
    from: int,
) -> int
    decreases instructions.len() - from,
{
    if from < 0 || from >= instructions.len() || instructions[from].0 == name {
        from
    } else {
        first_seen(instructions, name, from + 1)
    }
}

/// Whether no instruction from `from` on has the name of one before it; the
/// message names the sources of both.
pub open spec fn unique_from(instructions: Seq<(Seq<char>, Seq<char>)>, from: int) -> Result<
    (),
    Seq<char>,
>
    decreases instructions.len() - from,
{
    if from < 0 || from >= instructions.len() {
        Ok(())
    } else {
        let (name, source) = instructions[from];
        let first = first_seen(instructions, name, 0);
        if first < from {
            Err(
                "duplicate instruction name '"@ + name + "': defined in "@ + instructions[first].1
                    + " and in "@ + source,
            )
        } else {
            unique_from(instructions, from + 1)
        }
    }
}

fn find_first_seen(instructions: &Vec<(String, String)>, name: &str) -> (r: usize)
    ensures
        r == first_seen(instructions.deep_view(), name@, 0),
{
    let ghost all = instructions.deep_view();
    let mut i: usize = 0;
    while i < instructions.len()
        invariant
            i <= instructions.len(),
            all == instructions.deep_view(),
            first_seen(all, name@, 0) == first_seen(all, name@, i as int),
        decreases instructions.len() - i,
    {
        assert(all[i as int] == instructions@[i as int].deep_view());
        if text::same(instructions[i].0.as_str(), name) {
            return i;
        }
        i += 1;
    }
    i
}

/// Reject duplicate instruction names across user fns and discovered
/// extensions. Duplicates would produce colliding enum variants, match
/// arms, and IDL discriminators, or silently shadow one another.
/// `instructions` lists `(fn name, source_label)`; first seen wins.
///
/// # Errors
///
/// `Err` on the second sighting of a name, naming both sources.
pub fn check_duplicate_instruction_names(instructions: &Vec<(String, String)>) -> (r: Result<
    (),
    String,
>)
    ensures
        model::verdict(r) == unique_from(instructions.deep_view(), 0),
{
    let ghost all = instructions.deep_view();
    let mut i: usize = 0;
    while i < instructions.len()
        invariant
            i <= instructions.len(),
            all == instructions.deep_view(),
            unique_from(all, 0) == unique_from(all, i as int),
        decreases instructions.len() - i,
    {
        assert(all[i as int] == instructions@[i as int].deep_view());
        let first: usize = find_first_seen(instructions, instructions[i].0.as_str());
        if first < i {
            assert(all[first as int] == instructions@[first as int].deep_view());
            return Err(
                "duplicate instruction name '".to_owned().concat(
                    instructions[i].0.as_str(),
                ).concat("': defined in ").concat(instructions[first].1.as_str()).concat(
                    " and in ",
                ).concat(instructions[i].1.as_str()),
            );
        }
        i += 1;
    }
    Ok(())
}

/// Which side owns a fn, for a duplicate-name report.
pub open spec fn source_label(external_call_path: Option<PathView>) -> Seq<char> {
    match external_call_path {
        Some(p) => if p.segments.len() > 0 {
            "extension "@ + p.segments[0]
        } else {
            "an extension"@
        },
        None => "this module"@,
    }
}

/// Human label for a duplicate-name report: which side owns the fn.
pub fn instruction_source_label(external_call_path: Option<&Path>) -> (r: String)
    ensures
        r@ == source_label(external_call_path.deep_view()),
{
    match external_call_path {
        Some(p) => if p.segments.len() > 0 {
            "extension ".to_owned().concat(p.segments[0].as_str())
        } else {
            "an extension".to_owned()
        },
        None => "this module".to_owned(),
    }
}

} // verus!
