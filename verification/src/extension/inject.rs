//! Wrap application and gate-param injection: the shared pass that
//! prepends wrapper attrs and synthesizes missing gate accounts, used
//! identically by the dispatcher expansion and both IDL paths.
use crate::attrs;
use crate::attrs::{
    attr_is, entries_carry, entries_keyed, has_attr, param_has_flag, param_has_init, typed_params,
};
use crate::extension::marker;
use crate::extension::marker::{EmbedDecl, EmbedDeclView, OffsetSpec, OffsetSpecView};
use crate::extension::{
    Embed, EmbedView, InjectAccount, InjectAccountView, InjectSeed, InjectSeedView, InjectSpec,
    InjectSpecView, WrapInstructions, WrapInstructionsView,
};
use crate::idl_gen;
use crate::idl_gen::is_context_type;
use crate::model;
use crate::model::{none, put, put_all, single, Dup};
use crate::nodes;
use crate::nodes::path_node;
use crate::syntax::{
    AttrForm, AttrFormView, Attribute, AttributeView, Call, CallView, Entry, EntryView, Expr,
    ExprKind, ExprKindView, ExprView, FnArg, FnArgView, ItemFn, ItemFnView, List, ListView, Meta,
    MetaForm, MetaFormView, MetaView, Param, ParamView, Path, PathView, Type, TypeView,
};
use crate::text;
use crate::text::same;
use vstd::prelude::*;

verus! {

/// A wrap the consumer's marker kept, with its attribute path parsed.
///
/// The path is the same for every instruction the wrap gates, so it is
/// parsed once per program and a gate pass reads it. A declared path
/// that is not a Rust attribute path is the extension author's mistake
/// and is reported against the program, not against each fn.
#[derive(Debug, PartialEq, Eq)]
pub struct ActiveWrap {
    /// What the extension declared: wrapper name, skip word, exemptions.
    pub config: WrapInstructions,
    /// The wrapper as an attribute path, ready to prepend.
    pub path: Path,
    /// Last segment of that path, the name inject specs match by. The
    /// framework prepends fully qualified attrs, so matching on the last
    /// segment is what lets those activate a spec.
    pub last: String,
}

/// What a [`ActiveWrap`] holds.
#[verifier::ext_equal]
pub struct ActiveWrapView {
    pub config: WrapInstructionsView,
    pub path: PathView,
    pub last: Seq<char>,
}

impl DeepView for ActiveWrap {
    type V = ActiveWrapView;

    open spec fn deep_view(&self) -> ActiveWrapView {
        ActiveWrapView {
            config: self.config.deep_view(),
            path: self.path.deep_view(),
            last: self.last@,
        }
    }
}

impl Dup for ActiveWrap {
    fn dup(&self) -> (r: Self) {
        ActiveWrap {
            config: self.config.dup(),
            path: self.path.dup(),
            last: self.last.clone(),
        }
    }
}

/// Whether a producer writes the framework's location kwargs onto the
/// gate attrs it prepends.
///
/// The dispatcher writes them: a gate attr expands in the consumer's
/// crate and reads `offset` to find its state. The IDL producers do
/// not: they read the fn signature and discard the attrs, so a written
/// offset would be dead tokens, and demanding one would make them
/// resolve a slot carrier no output of theirs can observe. Injection is
/// unaffected either way, the prepended attr activates specs in both
/// its bare and its kwarg-carrying form.
#[derive(Debug, Clone, Copy, PartialEq, Eq, Structural)]
pub enum GateLocations {
    /// Write `offset = ...`. An unresolved derivation reaching this
    /// producer is a framework bug and fails closed.
    Emit,
    /// Leave it off. Offsets may arrive unresolved; nothing reads them.
    /// The default: writing a location is the choice that needs making.
    Omit,
}

impl Default for GateLocations {
    fn default() -> (r: Self)
        ensures
            r == GateLocations::Omit,
    {
        GateLocations::Omit
    }
}

// ── Active wraps ─────────────────────────────────────────────────────────

/// Whether a wrap stays active for a marker that carries the word `arg` (empty
/// for a bare marker): it does unless `arg` is its skip word.
pub open spec fn is_kept(arg: Seq<char>, wrap: WrapInstructionsView) -> bool {
    wrap.skip != Some(arg)
}

/// A wrap with its attribute path, given what the parser makes of that path.
pub open spec fn with_path(
    config: WrapInstructionsView,
    parsed: Result<(bool, Seq<Seq<char>>), Seq<char>>,
) -> Result<ActiveWrapView, Seq<char>> {
    match parsed {
        Ok((leading_colon, segments)) => Ok(
            ActiveWrapView {
                config,
                path: PathView { leading_colon, segments },
                last: if segments.len() == 0 {
                    Seq::empty()
                } else {
                    segments.last()
                },
            },
        ),
        Err(e) => Err("invalid wrapper path "@ + text::quoted(config.wrapper) + ": "@ + e),
    }
}

/// The kept wraps from `from` on, behind `out`.
pub open spec fn active_from(
    wraps: Seq<(Seq<char>, WrapInstructionsView)>,
    from: int,
    out: Seq<ActiveWrapView>,
) -> Result<Seq<ActiveWrapView>, Seq<char>>
    decreases wraps.len() - from,
{
    if from < 0 || from >= wraps.len() {
        Ok(out)
    } else if !is_kept(wraps[from].0, wraps[from].1) {
        active_from(wraps, from + 1, out)
    } else {
        match with_path(wraps[from].1, nodes::parsed_path(wraps[from].1.wrapper)) {
            Ok(w) => active_from(wraps, from + 1, out.push(w)),
            Err(e) => Err(e),
        }
    }
}

impl ActiveWrap {
    /// A wrap with its attribute path, given what the parser makes of it.
    pub fn from_parsed(
        config: WrapInstructions,
        parsed: Result<(bool, Vec<String>), String>,
    ) -> (r: Result<ActiveWrap, String>)
        ensures
            model::outcome(r) == with_path(config.deep_view(), model::outcome(parsed)),
    {
        match parsed {
            Ok((leading_colon, segments)) => {
                let last: String = if segments.len() == 0 {
                    String::new()
                } else {
                    segments[segments.len() - 1].clone()
                };
                Ok(ActiveWrap { config, path: Path { leading_colon, segments }, last })
            },
            Err(e) => Err(
                "invalid wrapper path ".to_owned().concat(
                    text::quote(config.wrapper.as_str()).as_str(),
                ).concat(": ").concat(e.as_str()),
            ),
        }
    }

    /// # Errors
    ///
    /// `Err` when the declared wrapper is not a valid attribute path.
    pub fn new(config: WrapInstructions) -> (r: Result<ActiveWrap, String>)
        ensures
            model::outcome(r) == with_path(
                config.deep_view(),
                nodes::parsed_path(config.deep_view().wrapper),
            ),
    {
        let parsed = path_node(config.wrapper.as_str());
        ActiveWrap::from_parsed(config, parsed)
    }
}

/// Filter `deps.extensions.wraps` down to the wraps whose extension
/// marker carries no skip-word arg matching `WrapInstructions::skip`.
///
/// A wrap with `skip = Some("manual")` is dropped for a marker written
/// `#[freeze_authority(manual)]`, kept for `#[freeze_authority]`. A wrap
/// with `skip = None` is always kept. Each survivor carries its
/// attribute path parsed, see [`ActiveWrap`].
///
/// # Errors
///
/// `Err` when a kept wrap declares a wrapper that is not a valid Rust
/// attribute path. Callers surface it as a compile error.
pub fn active_wraps(wraps: &Vec<(String, WrapInstructions)>) -> (r: Result<
    Vec<ActiveWrap>,
    String,
>)
    ensures
        model::outcome(r) == active_from(wraps.deep_view(), 0, Seq::empty()),
{
    let ghost all = wraps.deep_view();
    let mut out: Vec<ActiveWrap> = none();
    let mut i: usize = 0;
    while i < wraps.len()
        invariant
            i <= wraps.len(),
            all == wraps.deep_view(),
            active_from(all, 0, Seq::empty()) == active_from(all, i as int, out.deep_view()),
        decreases wraps.len() - i,
    {
        assert(all[i as int] == wraps@[i as int].deep_view());
        let kept = match &wraps[i].1.skip {
            Some(s) => wraps[i].0 != *s,
            None => true,
        };
        if kept {
            match ActiveWrap::new(wraps[i].1.dup()) {
                Ok(w) => {
                    put(&mut out, w);
                },
                Err(e) => {
                    return Err(e);
                },
            }
        }
        i += 1;
    }
    Ok(out)
}

// ── Framework-written attributes ─────────────────────────────────────────

/// A bare entry.
pub open spec fn flag_entry(name: Seq<char>) -> EntryView {
    EntryView {
        path: PathView { leading_colon: false, segments: seq![name] },
        assigned: false,
        lead: None,
        value: None,
        error: "expected `=`"@,
    }
}

/// A `key = value` entry.
pub open spec fn value_entry(key: Seq<char>, value: ExprView) -> EntryView {
    EntryView {
        path: PathView { leading_colon: false, segments: seq![key] },
        assigned: true,
        lead: match value.kind {
            ExprKindView::Str(s) => Some(s),
            _ => None,
        },
        value: Some(value),
        error: Seq::empty(),
    }
}

/// An entry as a nested attribute.
pub open spec fn entry_meta(e: EntryView) -> MetaView {
    MetaView {
        path: e.path,
        form: match e.value {
            Some(v) => MetaFormView::Value(v),
            None => MetaFormView::Bare,
        },
    }
}

/// The attribute `#[path(entries)]`.
pub open spec fn list_attr(path: PathView, entries: Seq<EntryView>) -> AttributeView {
    AttributeView {
        path,
        form: AttrFormView::List(
            ListView {
                entries,
                stop: None,
                metas: entries.map_values(|e: EntryView| entry_meta(e)),
                malformed: None,
                tokens: Seq::empty(),
            },
        ),
    }
}

/// The attribute `#[account(entries)]`.
pub open spec fn account_attr(entries: Seq<EntryView>) -> AttributeView {
    list_attr(PathView { leading_colon: false, segments: seq!["account"@] }, entries)
}

fn make_flag(name: &str) -> (r: Entry)
    ensures
        r.deep_view() == flag_entry(name@),
{
    Entry {
        path: Path::single(name),
        assigned: false,
        lead: None,
        value: None,
        error: "expected `=`".to_owned(),
    }
}

fn make_value(key: &str, value: Expr) -> (r: Entry)
    ensures
        r.deep_view() == value_entry(key@, value.deep_view()),
{
    let lead: Option<String> = match &value.kind {
        ExprKind::Str(s) => Some(s.clone()),
        _ => None,
    };
    Entry { path: Path::single(key), assigned: true, lead, value: Some(value), error: String::new() }
}

fn make_list_attr(path: Path, entries: Vec<Entry>) -> (r: Attribute)
    ensures
        r.deep_view() == list_attr(path.deep_view(), entries.deep_view()),
{
    let mut metas: Vec<Meta> = Vec::new();
    let mut i: usize = 0;
    while i < entries.len()
        invariant
            i <= entries.len(),
            metas.len() == i,
            forall|j: int|
                0 <= j < i ==> (#[trigger] metas@[j]).deep_view() == entry_meta(
                    entries@[j].deep_view(),
                ),
        decreases entries.len() - i,
    {
        let form = match &entries[i].value {
            Some(v) => MetaForm::Value(v.dup()),
            None => MetaForm::Bare,
        };
        metas.push(Meta { path: entries[i].path.dup(), form });
        i += 1;
    }
    assert(metas.deep_view() =~= entries.deep_view().map_values(|e: EntryView| entry_meta(e)));
    Attribute {
        path,
        form: AttrForm::List(
            List { entries, stop: None, metas, malformed: None, tokens: none() },
        ),
    }
}

fn make_account_attr(entries: Vec<Entry>) -> (r: Attribute)
    ensures
        r.deep_view() == account_attr(entries.deep_view()),
{
    make_list_attr(Path::single("account"), entries)
}

// ── Seeds ────────────────────────────────────────────────────────────────

/// The call that writes one seed: `literal("x")` or `account("y")`.
pub open spec fn seed_call(seed: InjectSeedView) -> CallView {
    match seed {
        InjectSeedView::Const(v) => CallView { func: Some("literal"@), args: seq![Some(v)] },
        InjectSeedView::Account(v) => CallView { func: Some("account"@), args: seq![Some(v)] },
    }
}

/// The tokens of that call.
pub open spec fn seed_text(seed: InjectSeedView) -> Seq<char> {
    match seed {
        InjectSeedView::Const(v) => "literal ("@ + nodes::literal_text(v) + ")"@,
        InjectSeedView::Account(v) => "account ("@ + nodes::literal_text(v) + ")"@,
    }
}

/// Structured seeds as a `pda = ...` expression: a bare call for one seed, an
/// array for a compound, nothing for none.
pub open spec fn seeds_expr(seeds: Seq<InjectSeedView>) -> Option<ExprView> {
    if seeds.len() == 0 {
        None
    } else if seeds.len() == 1 {
        Some(
            ExprView { text: seed_text(seeds[0]), kind: ExprKindView::Call(seed_call(seeds[0])) },
        )
    } else {
        Some(
            ExprView {
                text: "["@ + text::separated(
                    seeds.map_values(|s: InjectSeedView| seed_text(s)),
                    " , "@,
                    0,
                ) + "]"@,
                kind: ExprKindView::Array(
                    seeds.map_values(|s: InjectSeedView| Some(seed_call(s))),
                ),
            },
        )
    }
}

/// One `literal("x")` / `account("y")` call as a structured seed.
pub open spec fn call_seed(call: CallView) -> Option<InjectSeedView> {
    if call.args.len() == 0 {
        None
    } else {
        match call.args[0] {
            Some(v) => if call.func == Some("literal"@) {
                Some(InjectSeedView::Const(v))
            } else if call.func == Some("account"@) {
                Some(InjectSeedView::Account(v))
            } else {
                None
            },
            None => None,
        }
    }
}

/// The seeds of an array from element `from` on, behind `out`.
pub open spec fn array_seeds_from(
    elems: Seq<Option<CallView>>,
    from: int,
    out: Seq<InjectSeedView>,
) -> Option<Seq<InjectSeedView>>
    decreases elems.len() - from,
{
    if from < 0 || from >= elems.len() {
        Some(out)
    } else {
        match elems[from] {
            Some(call) => match call_seed(call) {
                Some(s) => array_seeds_from(elems, from + 1, out.push(s)),
                None => None,
            },
            None => None,
        }
    }
}

/// A declared `pda` expression as structured seeds; none for any shape but
/// `literal()`/`account()` calls, alone or in an array.
pub open spec fn expr_seeds(expr: ExprView) -> Option<Seq<InjectSeedView>> {
    match expr.kind {
        ExprKindView::Array(elems) => array_seeds_from(elems, 0, Seq::empty()),
        ExprKindView::Call(call) => match call_seed(call) {
            Some(s) => Some(seq![s]),
            None => None,
        },
        _ => None,
    }
}

/// The declared pda seeds of a parameter whose attributes from `from` on are
/// read: those of the first `#[account]` attribute that has a `pda`.
pub open spec fn pda_seeds_from(attrs: Seq<AttributeView>, from: int) -> Option<
    Seq<InjectSeedView>,
>
    decreases attrs.len() - from,
{
    if from < 0 || from >= attrs.len() {
        None
    } else if attrs[from].path.is("account"@) {
        match attrs::keyed(attrs[from].entries(), "pda"@, 0, None) {
            Some(expr) => expr_seeds(expr),
            None => pda_seeds_from(attrs, from + 1),
        }
    } else {
        pda_seeds_from(attrs, from + 1)
    }
}

fn make_seed_call(seed: &InjectSeed) -> (r: Call)
    ensures
        r.deep_view() == seed_call(seed.deep_view()),
{
    match seed {
        InjectSeed::Const(v) => {
            let args = single(Some(v.clone()));
            Call { func: Some("literal".to_owned()), args }
        },
        InjectSeed::Account(v) => {
            let args = single(Some(v.clone()));
            Call { func: Some("account".to_owned()), args }
        },
    }
}

fn make_seed_text(seed: &InjectSeed) -> (r: String)
    ensures
        r@ == seed_text(seed.deep_view()),
{
    match seed {
        InjectSeed::Const(v) => "literal (".to_owned().concat(
            nodes::write_literal(v.as_str()).as_str(),
        ).concat(")"),
        InjectSeed::Account(v) => "account (".to_owned().concat(
            nodes::write_literal(v.as_str()).as_str(),
        ).concat(")"),
    }
}

/// Render structured seeds back into a `pda = ...` expression:
/// a bare call for one seed, an array for a compound.
pub fn seeds_to_pda_expr(seeds: &Vec<InjectSeed>) -> (r: Option<Expr>)
    ensures
        r.deep_view() == seeds_expr(seeds.deep_view()),
{
    let ghost all = seeds.deep_view();
    if seeds.len() == 0 {
        return None;
    }
    if seeds.len() == 1 {
        assert(all[0] == seeds@[0].deep_view());
        return Some(
            Expr {
                text: make_seed_text(&seeds[0]),
                kind: ExprKind::Call(make_seed_call(&seeds[0])),
            },
        );
    }
    let mut texts: Vec<String> = Vec::new();
    let mut calls: Vec<Option<Call>> = Vec::new();
    let mut i: usize = 0;
    while i < seeds.len()
        invariant
            i <= seeds.len(),
            texts.len() == i,
            calls.len() == i,
            forall|j: int|
                0 <= j < i ==> (#[trigger] texts@[j])@ == seed_text(seeds@[j].deep_view()),
            forall|j: int|
                0 <= j < i ==> (#[trigger] calls@[j]).deep_view() == Some(
                    seed_call(seeds@[j].deep_view()),
                ),
        decreases seeds.len() - i,
    {
        texts.push(make_seed_text(&seeds[i]));
        calls.push(Some(make_seed_call(&seeds[i])));
        i += 1;
    }
    assert(texts.deep_view() =~= all.map_values(|s: InjectSeedView| seed_text(s)));
    assert(calls.deep_view() =~= all.map_values(|s: InjectSeedView| Some(seed_call(s))));
    Some(
        Expr {
            text: "[".to_owned().concat(text::separate(&texts, " , ").as_str()).concat("]"),
            kind: ExprKind::Array(calls),
        },
    )
}

fn seed_call_to_seed(call: &Call) -> (r: Option<InjectSeed>)
    ensures
        r.deep_view() == call_seed(call.deep_view()),
{
    if call.args.len() == 0 {
        return None;
    }
    assert(call.deep_view().args[0] == call.args@[0].deep_view());
    let value = match &call.args[0] {
        Some(v) => v.clone(),
        None => {
            return None;
        },
    };
    match &call.func {
        Some(f) => if same(f.as_str(), "literal") {
            Some(InjectSeed::Const(value))
        } else if same(f.as_str(), "account") {
            Some(InjectSeed::Account(value))
        } else {
            None
        },
        None => None,
    }
}

/// Parse a consumer-declared `pda` expression back into structured
/// seeds. `literal("x")` and `account("y")` calls, alone or in an
/// array. `None` for any other shape.
#[verifier::loop_isolation(false)]
pub fn expr_to_seeds(expr: &Expr) -> (r: Option<Vec<InjectSeed>>)
    ensures
        r.deep_view() == expr_seeds(expr.deep_view()),
{
    match &expr.kind {
        ExprKind::Array(elems) => {
            let ghost all = elems.deep_view();
            let mut out: Vec<InjectSeed> = none();
            let mut i: usize = 0;
            while i < elems.len()
                invariant
                    i <= elems.len(),
                    array_seeds_from(all, 0, Seq::empty()) == array_seeds_from(
                        all,
                        i as int,
                        out.deep_view(),
                    ),
                decreases elems.len() - i,
            {
                assert(all[i as int] == elems@[i as int].deep_view());
                match &elems[i] {
                    Some(call) => match seed_call_to_seed(call) {
                        Some(s) => {
                            put(&mut out, s);
                        },
                        None => {
                            return None;
                        },
                    },
                    None => {
                        return None;
                    },
                }
                i += 1;
            }
            Some(out)
        },
        ExprKind::Call(call) => match seed_call_to_seed(call) {
            Some(s) => Some(single(s)),
            None => None,
        },
        _ => None,
    }
}

/// The declared pda seeds of a param, when its `#[account]` attr
/// carries a pda constraint in the literal()/account() grammar.
fn param_pda_seeds(p: &Param) -> (r: Option<Vec<InjectSeed>>)
    ensures
        r.deep_view() == pda_seeds_from(p.deep_view().attrs, 0),
{
    let ghost all = p.deep_view().attrs;
    let mut i: usize = 0;
    while i < p.attrs.len()
        invariant
            i <= p.attrs.len(),
            all == p.attrs.deep_view(),
            pda_seeds_from(all, 0) == pda_seeds_from(all, i as int),
        decreases p.attrs.len() - i,
    {
        let a = &p.attrs[i];
        assert(all[i as int] == a.deep_view());
        if a.path.is("account") {
            if let AttrForm::List(l) = &a.form {
                if let Some(expr) = entries_keyed(&l.entries, "pda") {
                    return expr_to_seeds(&expr);
                }
            }
        }
        i += 1;
    }
    None
}

/// Whether two seeds are the same.
fn same_seed(a: &InjectSeed, b: &InjectSeed) -> (r: bool)
    ensures
        r == (a.deep_view() == b.deep_view()),
{
    match (a, b) {
        (InjectSeed::Const(x), InjectSeed::Const(y)) => *x == *y,
        (InjectSeed::Account(x), InjectSeed::Account(y)) => *x == *y,
        _ => false,
    }
}

/// Whether two lists of seeds are the same.
#[verifier::loop_isolation(false)]
fn same_seeds(a: &Vec<InjectSeed>, b: &Vec<InjectSeed>) -> (r: bool)
    ensures
        r == (a.deep_view() == b.deep_view()),
{
    if a.len() != b.len() {
        assert(a.deep_view().len() != b.deep_view().len());
        return false;
    }
    let mut i: usize = 0;
    while i < a.len()
        invariant
            i <= a.len(),
            forall|j: int| 0 <= j < i ==> (#[trigger] a.deep_view()[j]) == b.deep_view()[j],
        decreases a.len() - i,
    {
        if !same_seed(&a[i], &b[i]) {
            assert(a.deep_view()[i as int] != b.deep_view()[i as int]);
            return false;
        }
        i += 1;
    }
    assert(a.deep_view() =~= b.deep_view());
    true
}

/// Whether two inject accounts carry the same constraints.
pub open spec fn agree(a: InjectAccountView, b: InjectAccountView) -> bool {
    a.seeds == b.seeds && a.signer == b.signer
}

/// Whether two inject accounts carry the same constraints. Roles do not count:
/// two embedded roles may share one consumer account.
fn same_constraints(a: &InjectAccount, b: &InjectAccount) -> (r: bool)
    ensures
        r == agree(a.deep_view(), b.deep_view()),
{
    same_seeds(&a.seeds, &b.seeds) && a.signer == b.signer
}

// ── Role remap ───────────────────────────────────────────────────────────

/// What `key` is mapped to; the latest pair counts.
pub open spec fn mapped(pairs: Seq<(Seq<char>, Seq<char>)>, key: Seq<char>) -> Option<Seq<char>>
    decreases pairs.len(),
{
    if pairs.len() == 0 {
        None
    } else if pairs.last().0 == key {
        Some(pairs.last().1)
    } else {
        mapped(pairs.drop_last(), key)
    }
}

/// The name a parameter goes by in the gated fn.
pub open spec fn resolved(pairs: Seq<(Seq<char>, Seq<char>)>, name: Seq<char>) -> Seq<char> {
    match mapped(pairs, name) {
        Some(n) => n,
        None => name,
    }
}

/// Account seeds under the consumer's param names; const seeds are
/// names of nothing and pass through.
pub open spec fn seeds_resolved(
    seeds: Seq<InjectSeedView>,
    pairs: Seq<(Seq<char>, Seq<char>)>,
) -> Seq<InjectSeedView> {
    seeds.map_values(
        |s: InjectSeedView|
            match s {
                InjectSeedView::Const(v) => InjectSeedView::Const(v),
                InjectSeedView::Account(v) => InjectSeedView::Account(resolved(pairs, v)),
            },
    )
}

/// The name a parameter goes by in the gated fn.
pub fn resolve_name(pairs: &Vec<(String, String)>, name: &str) -> (r: String)
    ensures
        r@ == resolved(pairs.deep_view(), name@),
{
    let ghost all = pairs.deep_view();
    let mut i: usize = pairs.len();
    assert(all.take(i as int) =~= all);
    while i > 0
        invariant
            i <= pairs.len(),
            all == pairs.deep_view(),
            mapped(all, name@) == mapped(all.take(i as int), name@),
        decreases i,
    {
        i -= 1;
        assert(all.take(i + 1).drop_last() =~= all.take(i as int));
        assert(all.take(i + 1).last() == pairs@[i as int].deep_view());
        if same(pairs[i].0.as_str(), name) {
            return pairs[i].1.clone();
        }
    }
    name.to_owned()
}

/// Account seeds under the consumer's param names; const seeds are
/// names of nothing and pass through.
pub fn remap_seeds(seeds: &Vec<InjectSeed>, remap: &Vec<(String, String)>) -> (r: Vec<InjectSeed>)
    ensures
        r.deep_view() == seeds_resolved(seeds.deep_view(), remap.deep_view()),
{
    let ghost pairs = remap.deep_view();
    let mut out: Vec<InjectSeed> = Vec::new();
    let mut i: usize = 0;
    while i < seeds.len()
        invariant
            i <= seeds.len(),
            pairs == remap.deep_view(),
            out.len() == i,
            forall|j: int|
                0 <= j < i ==> (#[trigger] out@[j]).deep_view() == seeds_resolved(
                    seeds.deep_view(),
                    pairs,
                )[j],
        decreases seeds.len() - i,
    {
        let s = match &seeds[i] {
            InjectSeed::Const(v) => InjectSeed::Const(v.clone()),
            InjectSeed::Account(v) => InjectSeed::Account(resolve_name(remap, v.as_str())),
        };
        out.push(s);
        i += 1;
    }
    assert(out.deep_view() =~= seeds_resolved(seeds.deep_view(), pairs));
    out
}

/// Every account of every spec, in declaration order.
pub open spec fn all_accounts(specs: Seq<InjectSpecView>) -> Seq<InjectAccountView>
    decreases specs.len(),
{
    if specs.len() == 0 {
        Seq::empty()
    } else {
        all_accounts(specs.drop_last()) + specs.last().accounts
    }
}

/// The names of the parameters that sign.
pub open spec fn signers(params: Seq<(Seq<char>, ParamView)>) -> Seq<Seq<char>>
    decreases params.len(),
{
    if params.len() == 0 {
        Seq::empty()
    } else {
        let before = signers(params.drop_last());
        if params.last().1.has_flag("signer"@) {
            before.push(params.last().0)
        } else {
            before
        }
    }
}

/// The one parameter that signs; none if there is no such or more than one.
pub open spec fn sole_signer(params: Seq<(Seq<char>, ParamView)>) -> Option<Seq<char>> {
    let s = signers(params);
    if s.len() == 1 {
        Some(s[0])
    } else {
        None
    }
}

/// The first parameter from `from` on that declares exactly these seeds.
pub open spec fn declares_seeds(
    params: Seq<(Seq<char>, ParamView)>,
    seeds: Seq<InjectSeedView>,
    from: int,
) -> Option<Seq<char>>
    decreases params.len() - from,
{
    if from < 0 || from >= params.len() {
        None
    } else if pda_seeds_from(params[from].1.attrs, 0) == Some(seeds) {
        Some(params[from].0)
    } else {
        declares_seeds(params, seeds, from + 1)
    }
}

/// `pairs` with `name` mapped to the parameter that already plays its part,
/// unless that is called the same.
pub open spec fn remapped(
    pairs: Seq<(Seq<char>, Seq<char>)>,
    name: Seq<char>,
    existing: Option<Seq<char>>,
) -> Seq<(Seq<char>, Seq<char>)> {
    match existing {
        Some(e) => if e != name {
            pairs.push((name, e))
        } else {
            pairs
        },
        None => pairs,
    }
}

/// The remap with the accounts from `from` on: a signer role goes to the one
/// parameter that signs, a single-constant role to the first parameter that
/// declares that constant.
pub open spec fn simple_remap_from(
    accounts: Seq<InjectAccountView>,
    params: Seq<(Seq<char>, ParamView)>,
    from: int,
    pairs: Seq<(Seq<char>, Seq<char>)>,
) -> Seq<(Seq<char>, Seq<char>)>
    decreases accounts.len() - from,
{
    if from < 0 || from >= accounts.len() {
        pairs
    } else {
        let acc = accounts[from];
        let existing = if acc.signer {
            sole_signer(params)
        } else if acc.seeds.len() == 1 && acc.seeds[0] is Const {
            declares_seeds(params, acc.seeds, 0)
        } else {
            None
        };
        simple_remap_from(accounts, params, from + 1, remapped(pairs, acc.name, existing))
    }
}

/// The remap with the compound accounts from `from` on: one goes to the first
/// parameter that declares its seeds, under the names mapped before.
pub open spec fn compound_remap_from(
    accounts: Seq<InjectAccountView>,
    params: Seq<(Seq<char>, ParamView)>,
    from: int,
    pairs: Seq<(Seq<char>, Seq<char>)>,
) -> Seq<(Seq<char>, Seq<char>)>
    decreases accounts.len() - from,
{
    if from < 0 || from >= accounts.len() {
        pairs
    } else {
        let acc = accounts[from];
        let existing = if acc.seeds.len() >= 2 {
            declares_seeds(params, seeds_resolved(acc.seeds, pairs), 0)
        } else {
            None
        };
        compound_remap_from(accounts, params, from + 1, remapped(pairs, acc.name, existing))
    }
}

/// Which of the specs' accounts a fn already declares, under which names.
pub open spec fn remap_of(specs: Seq<InjectSpecView>, func: ItemFnView) -> Seq<
    (Seq<char>, Seq<char>),
> {
    let accounts = all_accounts(specs);
    let params = attrs::named_params(func.inputs);
    compound_remap_from(
        accounts,
        params,
        0,
        simple_remap_from(accounts, params, 0, Seq::empty()),
    )
}

fn list_accounts(specs: &Vec<InjectSpec>) -> (r: Vec<InjectAccount>)
    ensures
        r.deep_view() == all_accounts(specs.deep_view()),
{
    let ghost all = specs.deep_view();
    let mut out: Vec<InjectAccount> = none();
    let mut i: usize = 0;
    assert(all.take(0) =~= Seq::empty());
    while i < specs.len()
        invariant
            i <= specs.len(),
            all == specs.deep_view(),
            out.deep_view() == all_accounts(all.take(i as int)),
        decreases specs.len() - i,
    {
        assert(all.take(i + 1).drop_last() =~= all.take(i as int));
        assert(all.take(i + 1).last() == specs@[i as int].deep_view());
        put_all(&mut out, specs[i].accounts.dup());
        i += 1;
    }
    assert(all.take(i as int) =~= all);
    out
}

fn find_signer_param(params: &Vec<(String, Param)>) -> (r: Option<String>)
    ensures
        r.deep_view() == sole_signer(params.deep_view()),
{
    let ghost ps = params.deep_view();
    let mut found: Vec<String> = none();
    let mut i: usize = 0;
    assert(ps.take(0) =~= Seq::empty());
    while i < params.len()
        invariant
            i <= params.len(),
            ps == params.deep_view(),
            found.deep_view() == signers(ps.take(i as int)),
        decreases params.len() - i,
    {
        assert(ps.take(i + 1).drop_last() =~= ps.take(i as int));
        assert(ps.take(i + 1).last() == params@[i as int].deep_view());
        if param_has_flag(&params[i].1, "signer") {
            put(&mut found, params[i].0.clone());
        }
        i += 1;
    }
    assert(ps.take(i as int) =~= ps);
    if found.len() == 1 {
        assert(found.deep_view()[0] == found@[0]@);
        Some(found[0].clone())
    } else {
        None
    }
}

fn find_pda_param(params: &Vec<(String, Param)>, seeds: &Vec<InjectSeed>) -> (r: Option<String>)
    ensures
        r.deep_view() == declares_seeds(params.deep_view(), seeds.deep_view(), 0),
{
    let ghost ps = params.deep_view();
    let ghost target = seeds.deep_view();
    let mut i: usize = 0;
    while i < params.len()
        invariant
            i <= params.len(),
            ps == params.deep_view(),
            target == seeds.deep_view(),
            declares_seeds(ps, target, 0) == declares_seeds(ps, target, i as int),
        decreases params.len() - i,
    {
        assert(ps[i as int] == params@[i as int].deep_view());
        if let Some(s) = param_pda_seeds(&params[i].1) {
            if same_seeds(&s, seeds) {
                return Some(params[i].0.clone());
            }
        }
        i += 1;
    }
    None
}

fn add_remap(pairs: &mut Vec<(String, String)>, name: &str, existing: Option<String>)
    ensures
        final(pairs).deep_view() == remapped(
            old(pairs).deep_view(),
            name@,
            existing.deep_view(),
        ),
{
    if let Some(e) = existing {
        if !same(e.as_str(), name) {
            put(pairs, (name.to_owned(), e));
        }
    }
}

/// Which of the specs' accounts a fn already declares, under which names.
pub fn build_remap(specs: &Vec<InjectSpec>, func: &ItemFn) -> (r: Vec<(String, String)>)
    ensures
        r.deep_view() == remap_of(specs.deep_view(), func.deep_view()),
{
    let accounts = list_accounts(specs);
    let params = typed_params(func);
    let signer = find_signer_param(&params);
    let ghost accs = accounts.deep_view();
    let ghost ps = params.deep_view();
    let mut pairs: Vec<(String, String)> = none();
    let mut i: usize = 0;
    while i < accounts.len()
        invariant
            i <= accounts.len(),
            accs == accounts.deep_view(),
            ps == params.deep_view(),
            signer.deep_view() == sole_signer(ps),
            simple_remap_from(accs, ps, 0, Seq::empty()) == simple_remap_from(
                accs,
                ps,
                i as int,
                pairs.deep_view(),
            ),
        decreases accounts.len() - i,
    {
        let acc = &accounts[i];
        assert(accs[i as int] == acc.deep_view());
        let existing: Option<String> = if acc.signer {
            signer.dup()
        } else if acc.seeds.len() == 1 {
            assert(acc.deep_view().seeds[0] == acc.seeds@[0].deep_view());
            match &acc.seeds[0] {
                InjectSeed::Const(_) => find_pda_param(&params, &acc.seeds),
                InjectSeed::Account(_) => None,
            }
        } else {
            None
        };
        add_remap(&mut pairs, acc.name.as_str(), existing);
        i += 1;
    }
    let ghost simple = pairs.deep_view();
    let mut j: usize = 0;
    while j < accounts.len()
        invariant
            j <= accounts.len(),
            accs == accounts.deep_view(),
            ps == params.deep_view(),
            compound_remap_from(accs, ps, 0, simple) == compound_remap_from(
                accs,
                ps,
                j as int,
                pairs.deep_view(),
            ),
        decreases accounts.len() - j,
    {
        let acc = &accounts[j];
        assert(accs[j as int] == acc.deep_view());
        let existing: Option<String> = if acc.seeds.len() >= 2 {
            let target = remap_seeds(&acc.seeds, &pairs);
            find_pda_param(&params, &target)
        } else {
            None
        };
        add_remap(&mut pairs, acc.name.as_str(), existing);
        j += 1;
    }
    pairs
}

// ── Injection ────────────────────────────────────────────────────────────

/// Whether a fn carries the wrapper attribute of a spec, bare or with arguments.
pub open spec fn activates(spec: InjectSpecView, attrs: Seq<AttributeView>) -> bool {
    exists|i: int|
        0 <= i < attrs.len() && (#[trigger] attrs[i]).path.ends(spec.wrapper) && !(
        attrs[i].form is Value)
}

/// Whether one of the inputs is called `name`.
pub open spec fn has_param(inputs: Seq<FnArgView>, name: Seq<char>) -> bool {
    exists|i: int| 0 <= i < inputs.len() && is_param(#[trigger] inputs[i], name)
}

/// Whether an input is a typed parameter called `name`.
pub open spec fn is_param(input: FnArgView, name: Seq<char>) -> bool {
    input matches FnArgView::Typed(p) && p.name == Some(name)
}

/// Injected params go after a leading ProgramContext, else at the front.
pub open spec fn insert_at(inputs: Seq<FnArgView>) -> int {
    if inputs.len() > 0 && (inputs[0] matches FnArgView::Typed(p) && idl_gen::context_type(p.ty)) {
        1
    } else {
        0
    }
}

/// An injected account as a typed parameter with its `#[account(...)]`
/// constraint.
pub open spec fn injected_param(
    acc: InjectAccountView,
    pairs: Seq<(Seq<char>, Seq<char>)>,
) -> FnArgView {
    FnArgView::Typed(
        ParamView {
            attrs: match seeds_expr(seeds_resolved(acc.seeds, pairs)) {
                Some(pda) => seq![account_attr(seq![value_entry("pda"@, pda)])],
                None => if acc.signer {
                    seq![account_attr(seq![flag_entry("signer"@)])]
                } else {
                    Seq::empty()
                },
            },
            name: Some(acc.name),
            ty: TypeView::Named { ident: "AccountWithMetadata"@, arg: None },
        },
    )
}

/// The state of the injection pass.
#[verifier::ext_equal]
pub struct Injection {
    /// The inputs of the fn so far.
    pub inputs: Seq<FnArgView>,
    /// Where the next parameter goes.
    pub at: int,
    /// The names injected so far.
    pub injected: Seq<Seq<char>>,
    /// What each injected parameter was injected for: its name in the fn, the
    /// account and the extension.
    pub by: Seq<(Seq<char>, InjectAccountView, Seq<char>)>,
}

/// The first parameter called `name` among the injected, from `from` on.
pub open spec fn injected_for(
    by: Seq<(Seq<char>, InjectAccountView, Seq<char>)>,
    name: Seq<char>,
    from: int,
) -> Option<(InjectAccountView, Seq<char>)>
    decreases by.len() - from,
{
    if from < 0 || from >= by.len() {
        None
    } else if by[from].0 == name {
        Some((by[from].1, by[from].2))
    } else {
        injected_for(by, name, from + 1)
    }
}

/// One account's turn. Where an extension injected a parameter of that name
/// before, identical constraints share it and conflicting ones are an error. A
/// parameter the fn declares is never touched. Otherwise the account becomes a
/// parameter.
pub open spec fn inject_one(
    s: Injection,
    acc: InjectAccountView,
    source: Seq<char>,
    pairs: Seq<(Seq<char>, Seq<char>)>,
) -> Result<Injection, Seq<char>> {
    let effective = resolved(pairs, acc.name);
    match injected_for(s.by, effective, 0) {
        Some((existing, first)) => if agree(existing, acc) {
            Ok(s)
        } else {
            Err(
                "extension '"@ + first + "' and '"@ + source + "' both inject param '"@ + effective
                    + "' with conflicting constraints"@,
            )
        },
        None => if has_param(s.inputs, effective) {
            Ok(s)
        } else {
            Ok(
                Injection {
                    inputs: s.inputs.insert(s.at, injected_param(acc, pairs)),
                    at: s.at + 1,
                    injected: s.injected.push(acc.name),
                    by: s.by.push((effective, acc, source)),
                },
            )
        },
    }
}

/// The accounts a fn's gate attributes call for, each with the extension that
/// declared it, in order.
pub open spec fn called_for(specs: Seq<InjectSpecView>, attrs: Seq<AttributeView>) -> Seq<
    (InjectAccountView, Seq<char>),
>
    decreases specs.len(),
{
    if specs.len() == 0 {
        Seq::empty()
    } else {
        let before = called_for(specs.drop_last(), attrs);
        let last = specs.last();
        if activates(last, attrs) {
            before + last.accounts.map_values(|a: InjectAccountView| (a, last.source))
        } else {
            before
        }
    }
}

/// The state after the accounts from `from` on.
pub open spec fn inject_from(
    accounts: Seq<(InjectAccountView, Seq<char>)>,
    pairs: Seq<(Seq<char>, Seq<char>)>,
    from: int,
    s: Injection,
) -> Result<Injection, Seq<char>>
    decreases accounts.len() - from,
{
    if from < 0 || from >= accounts.len() {
        Ok(s)
    } else {
        match inject_one(s, accounts[from].0, accounts[from].1, pairs) {
            Ok(s2) => inject_from(accounts, pairs, from + 1, s2),
            Err(e) => Err(e),
        }
    }
}

/// The state before injection.
pub open spec fn before_injection(inputs: Seq<FnArgView>) -> Injection {
    Injection { inputs, at: insert_at(inputs), injected: Seq::empty(), by: Seq::empty() }
}

/// A fn with its missing gate parameters, and the names of those.
pub open spec fn injected(
    func: ItemFnView,
    specs: Seq<InjectSpecView>,
    pairs: Seq<(Seq<char>, Seq<char>)>,
) -> Result<(ItemFnView, Seq<Seq<char>>), Seq<char>> {
    match inject_from(
        called_for(specs, func.attrs),
        pairs,
        0,
        before_injection(func.inputs),
    ) {
        Ok(s) => Ok((ItemFnView { inputs: s.inputs, ..func }, s.injected)),
        Err(e) => Err(e),
    }
}

fn spec_activates(spec: &InjectSpec, attrs: &Vec<Attribute>) -> (r: bool)
    ensures
        r == activates(spec.deep_view(), attrs.deep_view()),
{
    let ghost all = attrs.deep_view();
    let mut i: usize = 0;
    while i < attrs.len()
        invariant
            i <= attrs.len(),
            all == attrs.deep_view(),
            forall|j: int|
                0 <= j < i ==> !((#[trigger] all[j]).path.ends(spec.wrapper@) && !(
                all[j].form is Value)),
        decreases attrs.len() - i,
    {
        assert(all[i as int] == attrs@[i as int].deep_view());
        let gate = match &attrs[i].form {
            AttrForm::Value(_) => false,
            _ => true,
        };
        if gate && attr_is(&attrs[i], spec.wrapper.as_str()) {
            return true;
        }
        i += 1;
    }
    false
}

fn has_param_named(inputs: &Vec<FnArg>, name: &str) -> (r: bool)
    ensures
        r == has_param(inputs.deep_view(), name@),
{
    let ghost all = inputs.deep_view();
    let mut i: usize = 0;
    while i < inputs.len()
        invariant
            i <= inputs.len(),
            all == inputs.deep_view(),
            forall|j: int| 0 <= j < i ==> !is_param(#[trigger] all[j], name@),
        decreases inputs.len() - i,
    {
        assert(all[i as int] == inputs@[i as int].deep_view());
        if let FnArg::Typed(p) = &inputs[i] {
            if let Some(n) = &p.name {
                if same(n.as_str(), name) {
                    return true;
                }
            }
        }
        i += 1;
    }
    false
}

fn insert_position(inputs: &Vec<FnArg>) -> (r: usize)
    ensures
        r == insert_at(inputs.deep_view()),
        r <= inputs.len(),
{
    if inputs.len() > 0 {
        assert(inputs.deep_view()[0] == inputs@[0].deep_view());
        if let FnArg::Typed(p) = &inputs[0] {
            if is_context_type(&p.ty) {
                return 1;
            }
        }
    }
    0
}

fn build_inject_param(acc: &InjectAccount, remap: &Vec<(String, String)>) -> (r: FnArg)
    ensures
        r.deep_view() == injected_param(acc.deep_view(), remap.deep_view()),
{
    let attrs: Vec<Attribute> = match seeds_to_pda_expr(&remap_seeds(&acc.seeds, remap)) {
        Some(pda) => single(make_account_attr(single(make_value("pda", pda)))),
        None => if acc.signer {
            single(make_account_attr(single(make_flag("signer"))))
        } else {
            none()
        },
    };
    FnArg::Typed(
        Param {
            attrs,
            name: Some(acc.name.clone()),
            ty: Type::Named { ident: "AccountWithMetadata".to_owned(), arg: None },
        },
    )
}

fn list_called_for(specs: &Vec<InjectSpec>, attrs: &Vec<Attribute>) -> (r: Vec<
    (InjectAccount, String),
>)
    ensures
        r.deep_view() == called_for(specs.deep_view(), attrs.deep_view()),
{
    let ghost all = specs.deep_view();
    let ghost ats = attrs.deep_view();
    let mut out: Vec<(InjectAccount, String)> = none();
    let mut i: usize = 0;
    assert(all.take(0) =~= Seq::empty());
    while i < specs.len()
        invariant
            i <= specs.len(),
            all == specs.deep_view(),
            ats == attrs.deep_view(),
            out.deep_view() == called_for(all.take(i as int), ats),
        decreases specs.len() - i,
    {
        let spec = &specs[i];
        assert(all.take(i + 1).drop_last() =~= all.take(i as int));
        assert(all.take(i + 1).last() == spec.deep_view());
        if spec_activates(spec, attrs) {
            let ghost before = out.deep_view();
            let ghost sv = spec.deep_view();
            let mut j: usize = 0;
            assert(before =~= before + sv.accounts.take(0).map_values(
                |a: InjectAccountView| (a, sv.source),
            ));
            while j < spec.accounts.len()
                invariant
                    j <= spec.accounts.len(),
                    sv == spec.deep_view(),
                    out.deep_view() == before + sv.accounts.take(j as int).map_values(
                        |a: InjectAccountView| (a, sv.source),
                    ),
                decreases spec.accounts.len() - j,
            {
                put(&mut out, (spec.accounts[j].dup(), spec.source.clone()));
                j += 1;
                assert(out.deep_view() =~= before + sv.accounts.take(j as int).map_values(
                    |a: InjectAccountView| (a, sv.source),
                ));
            }
            assert(sv.accounts.take(j as int) =~= sv.accounts);
            assert(out.deep_view() =~= called_for(all.take(i + 1), ats));
        }
        i += 1;
    }
    assert(all.take(i as int) =~= all);
    out
}

fn find_injected(by: &Vec<(String, InjectAccount, String)>, name: &str) -> (r: Option<usize>)
    ensures
        match r {
            Some(i) => i < by.len() && injected_for(by.deep_view(), name@, 0) == Some(
                (by@[i as int].1.deep_view(), by@[i as int].2@),
            ),
            None => injected_for(by.deep_view(), name@, 0) is None,
        },
{
    let ghost all = by.deep_view();
    let mut i: usize = 0;
    while i < by.len()
        invariant
            i <= by.len(),
            all == by.deep_view(),
            injected_for(all, name@, 0) == injected_for(all, name@, i as int),
        decreases by.len() - i,
    {
        assert(all[i as int] == by@[i as int].deep_view());
        if same(by[i].0.as_str(), name) {
            return Some(i);
        }
        i += 1;
    }
    None
}

/// Inject a wrapper's missing gate params into an instruction fn.
///
/// Skip-if-declared: a param that exists is never touched, and the
/// role remap reuses consumer params (signer, literal PDA, compound
/// PDA) under their declared names. Bare and args forms of a gate
/// attr both activate injection: kwargs rename a gate's targets but
/// never disable synthesis of params the fn lacks.
/// The wrapper is matched by the attr path's last segment, so the
/// fully qualified attrs prepended by auto-wrap activate specs too.
/// Returns the names actually injected. `remap` is the one built by
/// [`build_remap`].
///
/// When two specs want the same param name: identical constraints share
/// one account at the first injector's position, the cheap shared-signer
/// ABI. Conflicting constraints are a hard error naming both extensions.
///
/// # Errors
///
/// `Err` when two extensions inject the same param name with different
/// constraints; callers surface it as a compile error.
#[verifier::loop_isolation(false)]
pub fn inject_gate_params(
    func: &mut ItemFn,
    specs: &Vec<InjectSpec>,
    remap: &Vec<(String, String)>,
) -> (r: Result<Vec<String>, String>)
    ensures
        match injected(old(func).deep_view(), specs.deep_view(), remap.deep_view()) {
            Ok((f, names)) => r is Ok && r->Ok_0.deep_view() == names && final(func).deep_view()
                == f,
            Err(e) => r is Err && r->Err_0@ == e,
        },
{
    let accounts = list_called_for(specs, &func.attrs);
    let ghost accs = accounts.deep_view();
    let ghost pairs = remap.deep_view();
    let ghost start = before_injection(func.inputs.deep_view());
    let mut names: Vec<String> = none();
    let mut by: Vec<(String, InjectAccount, String)> = none();
    let mut at: usize = insert_position(&func.inputs);
    let mut inputs: Vec<FnArg> = func.inputs.dup();
    let mut i: usize = 0;
    while i < accounts.len()
        invariant
            i <= accounts.len(),
            at <= inputs.len(),
            inject_from(accs, pairs, 0, start) == inject_from(
                accs,
                pairs,
                i as int,
                Injection {
                    inputs: inputs.deep_view(),
                    at: at as int,
                    injected: names.deep_view(),
                    by: by.deep_view(),
                },
            ),
        decreases accounts.len() - i,
    {
        assert(accs[i as int] == accounts@[i as int].deep_view());
        let acc = &accounts[i].0;
        let source = &accounts[i].1;
        let effective = resolve_name(remap, acc.name.as_str());
        match find_injected(&by, effective.as_str()) {
            Some(k) => {
                if !same_constraints(&by[k].1, acc) {
                    return Err(
                        "extension '".to_owned().concat(by[k].2.as_str()).concat("' and '").concat(
                            source.as_str(),
                        ).concat("' both inject param '").concat(effective.as_str()).concat(
                            "' with conflicting constraints",
                        ),
                    );
                }
            },
            None => {
                if !has_param_named(&inputs, effective.as_str()) {
                    let param = build_inject_param(acc, remap);
                    let ghost before = inputs.deep_view();
                    let ghost pv = param.deep_view();
                    inputs.insert(at, param);
                    assert(inputs.deep_view() =~= before.insert(at as int, pv));
                    let n: usize = inputs.len();
                    assert(at < n);
                    at += 1;
                    put(&mut names, acc.name.clone());
                    put(&mut by, (effective, acc.dup(), source.clone()));
                }
            },
        }
        i += 1;
    }
    func.inputs = inputs;
    Ok(names)
}

// ── Gate arguments ───────────────────────────────────────────────────────

/// The offset of the embed an extension declared; the latest counts. Membership
/// answers whether the extension is embedded at all.
pub open spec fn embed_offset(embeds: Seq<EmbedView>, source: Seq<char>) -> Option<OffsetSpecView>
    decreases embeds.len(),
{
    if embeds.len() == 0 {
        None
    } else if embeds.last().source == source {
        Some(embeds.last().decl.offset)
    } else {
        embed_offset(embeds.drop_last(), source)
    }
}

/// A name as an expression.
pub open spec fn name_expr(name: Seq<char>) -> ExprView {
    ExprView { text: name, kind: ExprKindView::Name(Some(name)) }
}

/// The kwargs a gate attr carries for a spec: `role = resolved_name` per
/// account, plus the extension's embedded offset when one is given.
pub open spec fn gate_args(
    spec: InjectSpecView,
    pairs: Seq<(Seq<char>, Seq<char>)>,
    offset: Option<OffsetSpecView>,
) -> Result<Seq<EntryView>, Seq<char>> {
    let roles = spec.accounts.map_values(
        |a: InjectAccountView| value_entry(a.role, name_expr(resolved(pairs, a.name))),
    );
    match offset {
        None => Ok(roles),
        Some(off) => match marker::offset_expr(off, spec.source) {
            Ok(value) => Ok(roles.push(value_entry("offset"@, value))),
            Err(e) => Err(e),
        },
    }
}

fn find_embed_offset(embeds: &Vec<Embed>, source: &str) -> (r: Option<OffsetSpec>)
    ensures
        r.deep_view() == embed_offset(embeds.deep_view(), source@),
{
    let ghost all = embeds.deep_view();
    let mut i: usize = embeds.len();
    assert(all.take(i as int) =~= all);
    while i > 0
        invariant
            i <= embeds.len(),
            all == embeds.deep_view(),
            embed_offset(all, source@) == embed_offset(all.take(i as int), source@),
        decreases i,
    {
        i -= 1;
        assert(all.take(i + 1).drop_last() =~= all.take(i as int));
        assert(all.take(i + 1).last() == embeds@[i as int].deep_view());
        if same(embeds[i].source.as_str(), source) {
            return Some(embeds[i].decl.offset.dup());
        }
    }
    None
}

/// Kwargs a gate attr carries for `spec`: `role = resolved_name` per
/// account, plus the extension's embedded offset when one is declared.
///
/// # Errors
///
/// Propagates the shared offset lowering's error: an unresolved
/// derivation or an unparsable carrier path.
pub fn spec_gate_args(
    spec: &InjectSpec,
    remap: &Vec<(String, String)>,
    offset: Option<OffsetSpec>,
) -> (r: Result<Vec<Entry>, String>)
    ensures
        model::outcome(r) == gate_args(spec.deep_view(), remap.deep_view(), offset.deep_view()),
{
    let ghost sv = spec.deep_view();
    let ghost pairs = remap.deep_view();
    let mut args: Vec<Entry> = Vec::new();
    let mut i: usize = 0;
    while i < spec.accounts.len()
        invariant
            i <= spec.accounts.len(),
            sv == spec.deep_view(),
            pairs == remap.deep_view(),
            args.len() == i,
            forall|j: int|
                0 <= j < i ==> (#[trigger] args@[j]).deep_view() == value_entry(
                    sv.accounts[j].role,
                    name_expr(resolved(pairs, sv.accounts[j].name)),
                ),
        decreases spec.accounts.len() - i,
    {
        let acc = &spec.accounts[i];
        assert(sv.accounts[i as int] == acc.deep_view());
        let name = resolve_name(remap, acc.name.as_str());
        let value = Expr { text: name.clone(), kind: ExprKind::Name(Some(name)) };
        args.push(make_value(acc.role.as_str(), value));
        i += 1;
    }
    assert(args.deep_view() =~= sv.accounts.map_values(
        |a: InjectAccountView| value_entry(a.role, name_expr(resolved(pairs, a.name))),
    ));
    if let Some(off) = offset {
        match off.to_expr(spec.source.as_str()) {
            Ok(value) => {
                put(&mut args, make_value("offset", value));
            },
            Err(e) => {
                return Err(e);
            },
        }
    }
    Ok(args)
}

// ── Wrapping ─────────────────────────────────────────────────────────────

/// Whether a parameter called `name` is one the fn creates.
pub open spec fn creates(params: Seq<(Seq<char>, ParamView)>, name: Seq<char>) -> bool {
    exists|i: int|
        0 <= i < params.len() && (#[trigger] params[i]).0 == name && params[i].1.has_flag("init"@)
}

/// Whether a fn creates an embedded account that a gate ending in `last` would
/// decode.
pub open spec fn creates_gated(
    specs: Seq<InjectSpecView>,
    params: Seq<(Seq<char>, ParamView)>,
    last: Seq<char>,
) -> bool {
    exists|i: int, j: int|
        #![trigger specs[i].accounts[j]]
        0 <= i < specs.len() && 0 <= j < specs[i].accounts.len() && specs[i].wrapper == last
            && specs[i].accounts[j].embedded && creates(params, specs[i].accounts[j].name)
}

/// Whether a wrap leaves a fn alone: the fn opts out, the wrap exempts it by
/// its qualified name, or the fn creates the account a gate would decode.
pub open spec fn is_exempt(
    wrap: ActiveWrapView,
    attrs: Seq<AttributeView>,
    params: Seq<(Seq<char>, ParamView)>,
    specs: Seq<InjectSpecView>,
    qualified: Option<Seq<char>>,
) -> bool {
    ||| attrs::named(attrs, wrap.config.self_exempt_marker)
    ||| qualified matches Some(q) && wrap.config.exempt.contains(q)
    ||| creates_gated(specs, params, wrap.last)
}

/// The offset a producer writes for a spec: none where it omits locations.
pub open spec fn written_offset(
    embeds: Seq<EmbedView>,
    locations: GateLocations,
    source: Seq<char>,
) -> Option<OffsetSpecView> {
    match locations {
        GateLocations::Emit => embed_offset(embeds, source),
        GateLocations::Omit => None,
    }
}

/// The kwargs of a prepended gate attr: those of the specs from `from` on that
/// its wrapper serves, behind `out`.
pub open spec fn wrap_args_from(
    specs: Seq<InjectSpecView>,
    last: Seq<char>,
    pairs: Seq<(Seq<char>, Seq<char>)>,
    embeds: Seq<EmbedView>,
    locations: GateLocations,
    from: int,
    out: Seq<EntryView>,
) -> Result<Seq<EntryView>, Seq<char>>
    decreases specs.len() - from,
{
    if from < 0 || from >= specs.len() {
        Ok(out)
    } else if specs[from].wrapper != last {
        wrap_args_from(specs, last, pairs, embeds, locations, from + 1, out)
    } else {
        match gate_args(
            specs[from],
            pairs,
            written_offset(embeds, locations, specs[from].source),
        ) {
            Ok(args) => wrap_args_from(
                specs,
                last,
                pairs,
                embeds,
                locations,
                from + 1,
                out + args,
            ),
            Err(e) => Err(e),
        }
    }
}

/// The attribute a wrap prepends.
pub open spec fn wrap_attr(path: PathView, args: Seq<EntryView>) -> AttributeView {
    if args.len() == 0 {
        AttributeView { path, form: AttrFormView::Bare }
    } else {
        list_attr(path, args)
    }
}

/// The attributes of a fn after the wraps from `from` on: each that does not
/// exempt the fn goes in front of those before.
pub open spec fn wrapped_from(
    wraps: Seq<ActiveWrapView>,
    specs: Seq<InjectSpecView>,
    embeds: Seq<EmbedView>,
    locations: GateLocations,
    qualified: Option<Seq<char>>,
    params: Seq<(Seq<char>, ParamView)>,
    pairs: Seq<(Seq<char>, Seq<char>)>,
    from: int,
    attrs: Seq<AttributeView>,
) -> Result<Seq<AttributeView>, Seq<char>>
    decreases wraps.len() - from,
{
    if from < 0 || from >= wraps.len() {
        Ok(attrs)
    } else if is_exempt(wraps[from], attrs, params, specs, qualified) {
        wrapped_from(
            wraps,
            specs,
            embeds,
            locations,
            qualified,
            params,
            pairs,
            from + 1,
            attrs,
        )
    } else {
        match wrap_args_from(
            specs,
            wraps[from].last,
            pairs,
            embeds,
            locations,
            0,
            Seq::empty(),
        ) {
            Err(e) => Err(e),
            Ok(args) => wrapped_from(
                wraps,
                specs,
                embeds,
                locations,
                qualified,
                params,
                pairs,
                from + 1,
                seq![wrap_attr(wraps[from].path, args)] + attrs,
            ),
        }
    }
}

fn param_created(params: &Vec<(String, Param)>, name: &str) -> (r: bool)
    ensures
        r == creates(params.deep_view(), name@),
{
    let ghost ps = params.deep_view();
    let mut i: usize = 0;
    while i < params.len()
        invariant
            i <= params.len(),
            ps == params.deep_view(),
            forall|j: int|
                0 <= j < i ==> !((#[trigger] ps[j]).0 == name@ && ps[j].1.has_flag("init"@)),
        decreases params.len() - i,
    {
        assert(ps[i as int] == params@[i as int].deep_view());
        if same(params[i].0.as_str(), name) && param_has_init(&params[i].1) {
            return true;
        }
        i += 1;
    }
    false
}

/// True when the fn creates an embedded account this wrap's gate would
/// decode. The account being created is fresh and its slot is born
/// vacant, so there is no state for a gate to enforce: gating the
/// creator only makes initialization impossible. Dedicated mode never
/// matches, no consumer fn declares the extension's own PDA with
/// `#[account(init)]`.
fn creates_gated_embedded_account(
    params: &Vec<(String, Param)>,
    inject_specs: &Vec<InjectSpec>,
    wrapper_last: &str,
) -> (r: bool)
    ensures
        r == creates_gated(inject_specs.deep_view(), params.deep_view(), wrapper_last@),
{
    let ghost specs = inject_specs.deep_view();
    let ghost ps = params.deep_view();
    let mut i: usize = 0;
    while i < inject_specs.len()
        invariant
            i <= inject_specs.len(),
            specs == inject_specs.deep_view(),
            ps == params.deep_view(),
            forall|a: int, b: int|
                #![trigger specs[a].accounts[b]]
                0 <= a < i && 0 <= b < specs[a].accounts.len() ==> !(specs[a].wrapper
                    == wrapper_last@ && specs[a].accounts[b].embedded && creates(
                    ps,
                    specs[a].accounts[b].name,
                )),
        decreases inject_specs.len() - i,
    {
        let spec = &inject_specs[i];
        assert(specs[i as int] == spec.deep_view());
        if same(spec.wrapper.as_str(), wrapper_last) {
            let mut j: usize = 0;
            while j < spec.accounts.len()
                invariant
                    j <= spec.accounts.len(),
                    i < inject_specs.len(),
                    specs == inject_specs.deep_view(),
                    ps == params.deep_view(),
                    specs[i as int] == spec.deep_view(),
                    spec.wrapper@ == wrapper_last@,
                    forall|b: int|
                        0 <= b < j ==> !((#[trigger] specs[i as int].accounts[b]).embedded
                            && creates(ps, specs[i as int].accounts[b].name)),
                decreases spec.accounts.len() - j,
            {
                let acc = &spec.accounts[j];
                assert(specs[i as int].accounts[j as int] == acc.deep_view());
                if acc.embedded && param_created(params, acc.name.as_str()) {
                    return true;
                }
                j += 1;
            }
        }
        i += 1;
    }
    false
}

fn wrap_exempts(
    wrap: &ActiveWrap,
    attrs: &Vec<Attribute>,
    params: &Vec<(String, Param)>,
    inject_specs: &Vec<InjectSpec>,
    qualified: Option<&str>,
) -> (r: bool)
    ensures
        r == is_exempt(
            wrap.deep_view(),
            attrs.deep_view(),
            params.deep_view(),
            inject_specs.deep_view(),
            qualified.deep_view(),
        ),
{
    if has_attr(attrs, wrap.config.self_exempt_marker.as_str()) {
        return true;
    }
    if let Some(q) = qualified {
        if text::holds(&wrap.config.exempt, q) {
            return true;
        }
    }
    creates_gated_embedded_account(params, inject_specs, wrap.last.as_str())
}

fn collect_wrap_args(
    inject_specs: &Vec<InjectSpec>,
    last: &str,
    remap: &Vec<(String, String)>,
    embeds: &Vec<Embed>,
    locations: GateLocations,
) -> (r: Result<Vec<Entry>, String>)
    ensures
        model::outcome(r) == wrap_args_from(
            inject_specs.deep_view(),
            last@,
            remap.deep_view(),
            embeds.deep_view(),
            locations,
            0,
            Seq::empty(),
        ),
{
    let ghost specs = inject_specs.deep_view();
    let ghost pairs = remap.deep_view();
    let ghost embs = embeds.deep_view();
    let mut out: Vec<Entry> = none();
    let mut i: usize = 0;
    while i < inject_specs.len()
        invariant
            i <= inject_specs.len(),
            specs == inject_specs.deep_view(),
            pairs == remap.deep_view(),
            embs == embeds.deep_view(),
            wrap_args_from(specs, last@, pairs, embs, locations, 0, Seq::empty())
                == wrap_args_from(
                specs,
                last@,
                pairs,
                embs,
                locations,
                i as int,
                out.deep_view(),
            ),
        decreases inject_specs.len() - i,
    {
        let spec = &inject_specs[i];
        assert(specs[i as int] == spec.deep_view());
        if same(spec.wrapper.as_str(), last) {
            let offset: Option<OffsetSpec> = match locations {
                GateLocations::Emit => find_embed_offset(embeds, spec.source.as_str()),
                GateLocations::Omit => None,
            };
            match spec_gate_args(spec, remap, offset) {
                Ok(args) => {
                    put_all(&mut out, args);
                },
                Err(e) => {
                    return Err(e);
                },
            }
        }
        i += 1;
    }
    Ok(out)
}

#[verifier::loop_isolation(false)]
fn prepend_wraps(
    func: &ItemFn,
    active_wraps: &Vec<ActiveWrap>,
    inject_specs: &Vec<InjectSpec>,
    embeds: &Vec<Embed>,
    locations: GateLocations,
    qualified: Option<&str>,
    remap: &Vec<(String, String)>,
) -> (r: Result<Vec<Attribute>, String>)
    ensures
        model::outcome(r) == wrapped_from(
            active_wraps.deep_view(),
            inject_specs.deep_view(),
            embeds.deep_view(),
            locations,
            qualified.deep_view(),
            attrs::named_params(func.deep_view().inputs),
            remap.deep_view(),
            0,
            func.deep_view().attrs,
        ),
{
    let ghost wraps = active_wraps.deep_view();
    let ghost specs = inject_specs.deep_view();
    let ghost pairs = remap.deep_view();
    let ghost embs = embeds.deep_view();
    let params = typed_params(func);
    let ghost ps = params.deep_view();
    let ghost q = qualified.deep_view();
    let mut attrs: Vec<Attribute> = func.attrs.dup();
    let mut i: usize = 0;
    while i < active_wraps.len()
        invariant
            i <= active_wraps.len(),
            wrapped_from(
                wraps,
                specs,
                embs,
                locations,
                q,
                ps,
                pairs,
                0,
                func.deep_view().attrs,
            ) == wrapped_from(
                wraps,
                specs,
                embs,
                locations,
                q,
                ps,
                pairs,
                i as int,
                attrs.deep_view(),
            ),
        decreases active_wraps.len() - i,
    {
        let wrap = &active_wraps[i];
        assert(wraps[i as int] == wrap.deep_view());
        if !wrap_exempts(wrap, &attrs, &params, inject_specs, qualified) {
            let args = match collect_wrap_args(
                inject_specs,
                wrap.last.as_str(),
                remap,
                embeds,
                locations,
            ) {
                Ok(a) => a,
                Err(e) => {
                    return Err(e);
                },
            };
            let ghost av = args.deep_view();
            let attr = if args.len() == 0 {
                Attribute { path: wrap.path.dup(), form: AttrForm::Bare }
            } else {
                make_list_attr(wrap.path.dup(), args)
            };
            assert(attr.deep_view() == wrap_attr(wrap.deep_view().path, av));
            let ghost before = attrs.deep_view();
            let ghost nv = attr.deep_view();
            let mut next: Vec<Attribute> = single(attr);
            put_all(&mut next, attrs);
            attrs = next;
            assert(attrs.deep_view() == seq![nv] + before);
        }
        i += 1;
    }
    Ok(attrs)
}

// ── Stamping ─────────────────────────────────────────────────────────────

/// A bare gate attr with the location kwargs of the specs from `from` on: each
/// spec of an embedded extension whose wrapper it is writes its own.
pub open spec fn stamped_from(
    a: AttributeView,
    specs: Seq<InjectSpecView>,
    pairs: Seq<(Seq<char>, Seq<char>)>,
    embeds: Seq<EmbedView>,
    from: int,
) -> Result<AttributeView, Seq<char>>
    decreases specs.len() - from,
{
    if from < 0 || from >= specs.len() {
        Ok(a)
    } else if a.path.ends(specs[from].wrapper) && embed_offset(
        embeds,
        specs[from].source,
    ) is Some {
        match gate_args(specs[from], pairs, embed_offset(embeds, specs[from].source)) {
            Ok(args) => stamped_from(list_attr(a.path, args), specs, pairs, embeds, from + 1),
            Err(e) => Err(e),
        }
    } else {
        stamped_from(a, specs, pairs, embeds, from + 1)
    }
}

/// The attributes of a fn from `from` on, bare gates stamped, behind `out`.
pub open spec fn stamp_from(
    attrs: Seq<AttributeView>,
    specs: Seq<InjectSpecView>,
    pairs: Seq<(Seq<char>, Seq<char>)>,
    embeds: Seq<EmbedView>,
    from: int,
    out: Seq<AttributeView>,
) -> Result<Seq<AttributeView>, Seq<char>>
    decreases attrs.len() - from,
{
    if from < 0 || from >= attrs.len() {
        Ok(out)
    } else if !(attrs[from].form is Bare) {
        stamp_from(attrs, specs, pairs, embeds, from + 1, out.push(attrs[from]))
    } else {
        match stamped_from(attrs[from], specs, pairs, embeds, 0) {
            Ok(a) => stamp_from(attrs, specs, pairs, embeds, from + 1, out.push(a)),
            Err(e) => Err(e),
        }
    }
}

fn stamp_gate(
    attr: &Attribute,
    inject_specs: &Vec<InjectSpec>,
    remap: &Vec<(String, String)>,
    embeds: &Vec<Embed>,
) -> (r: Result<Attribute, String>)
    ensures
        model::outcome(r) == stamped_from(
            attr.deep_view(),
            inject_specs.deep_view(),
            remap.deep_view(),
            embeds.deep_view(),
            0,
        ),
{
    let ghost specs = inject_specs.deep_view();
    let ghost pairs = remap.deep_view();
    let ghost embs = embeds.deep_view();
    let ghost start = attr.deep_view();
    let mut a = attr.dup();
    let mut i: usize = 0;
    while i < inject_specs.len()
        invariant
            i <= inject_specs.len(),
            specs == inject_specs.deep_view(),
            pairs == remap.deep_view(),
            embs == embeds.deep_view(),
            start == attr.deep_view(),
            stamped_from(start, specs, pairs, embs, 0) == stamped_from(
                a.deep_view(),
                specs,
                pairs,
                embs,
                i as int,
            ),
        decreases inject_specs.len() - i,
    {
        let spec = &inject_specs[i];
        assert(specs[i as int] == spec.deep_view());
        if attr_is(&a, spec.wrapper.as_str()) {
            let offset = find_embed_offset(embeds, spec.source.as_str());
            if offset.is_some() {
                match spec_gate_args(spec, remap, offset) {
                    Ok(args) => {
                        a = make_list_attr(a.path.dup(), args);
                    },
                    Err(e) => {
                        return Err(e);
                    },
                }
            }
        }
        i += 1;
    }
    Ok(a)
}

/// Rewrite consumer-authored bare gate attrs to carry the framework's
/// location kwargs. Embedded mode is the only writer of those kwargs
/// and stamps every gate. Runs after the injection pass so the
/// bare-attr-activates-injection rule saw the authored form.
fn stamp_authored_gates(
    attrs: &Vec<Attribute>,
    inject_specs: &Vec<InjectSpec>,
    remap: &Vec<(String, String)>,
    embeds: &Vec<Embed>,
) -> (r: Result<Vec<Attribute>, String>)
    ensures
        model::outcome(r) == stamp_from(
            attrs.deep_view(),
            inject_specs.deep_view(),
            remap.deep_view(),
            embeds.deep_view(),
            0,
            Seq::empty(),
        ),
{
    let ghost all = attrs.deep_view();
    let ghost specs = inject_specs.deep_view();
    let ghost pairs = remap.deep_view();
    let ghost embs = embeds.deep_view();
    let mut out: Vec<Attribute> = none();
    let mut i: usize = 0;
    while i < attrs.len()
        invariant
            i <= attrs.len(),
            all == attrs.deep_view(),
            specs == inject_specs.deep_view(),
            pairs == remap.deep_view(),
            embs == embeds.deep_view(),
            stamp_from(all, specs, pairs, embs, 0, Seq::empty()) == stamp_from(
                all,
                specs,
                pairs,
                embs,
                i as int,
                out.deep_view(),
            ),
        decreases attrs.len() - i,
    {
        assert(all[i as int] == attrs@[i as int].deep_view());
        let bare = match &attrs[i].form {
            AttrForm::Bare => true,
            _ => false,
        };
        if !bare {
            put(&mut out, attrs[i].dup());
        } else {
            match stamp_gate(&attrs[i], inject_specs, remap, embeds) {
                Ok(a) => {
                    put(&mut out, a);
                },
                Err(e) => {
                    return Err(e);
                },
            }
        }
        i += 1;
    }
    Ok(out)
}

// ── Substitution on discovered fns ───────────────────────────────────────

/// An attribute of a retargeted parameter: `#[account]` takes the consumer's
/// constraint and keeps its `mut`, others stay.
pub open spec fn retargeted_attr(a: AttributeView, pda: ExprView) -> AttributeView {
    if !a.path.is("account"@) {
        a
    } else if attrs::carries(a.entries(), "mut"@) {
        account_attr(seq![flag_entry("mut"@), value_entry("pda"@, pda)])
    } else {
        account_attr(seq![value_entry("pda"@, pda)])
    }
}

/// An input with one embedded role retargeted: a parameter named after the role
/// takes the consumer account's name and constraint.
pub open spec fn retargeted(input: FnArgView, acc: InjectAccountView) -> FnArgView {
    match (input, seeds_expr(acc.seeds)) {
        (FnArgView::Typed(p), Some(pda)) => if acc.embedded && p.name == Some(acc.role) {
            FnArgView::Typed(
                ParamView {
                    attrs: p.attrs.map_values(|a: AttributeView| retargeted_attr(a, pda)),
                    name: Some(acc.name),
                    ty: p.ty,
                },
            )
        } else {
            input
        },
        _ => input,
    }
}

/// The inputs of a fn with the embedded roles among `accounts`, from `from` on,
/// retargeted in turn.
pub open spec fn substituted_from(
    inputs: Seq<FnArgView>,
    accounts: Seq<InjectAccountView>,
    from: int,
) -> Seq<FnArgView>
    decreases accounts.len() - from,
{
    if from < 0 || from >= accounts.len() {
        inputs
    } else {
        substituted_from(
            inputs.map_values(|i: FnArgView| retargeted(i, accounts[from])),
            accounts,
            from + 1,
        )
    }
}

fn retarget_attr(a: &Attribute, pda: &Expr) -> (r: Attribute)
    ensures
        r.deep_view() == retargeted_attr(a.deep_view(), pda.deep_view()),
{
    if !a.path.is("account") {
        return a.dup();
    }
    let is_mut = match &a.form {
        AttrForm::List(l) => entries_carry(&l.entries, "mut"),
        _ => false,
    };
    if is_mut {
        let mut entries: Vec<Entry> = single(make_flag("mut"));
        put(&mut entries, make_value("pda", pda.dup()));
        assert(entries.deep_view() =~= seq![
            flag_entry("mut"@),
            value_entry("pda"@, pda.deep_view()),
        ]);
        make_account_attr(entries)
    } else {
        make_account_attr(single(make_value("pda", pda.dup())))
    }
}

fn retarget_input(input: &FnArg, acc: &InjectAccount) -> (r: FnArg)
    ensures
        r.deep_view() == retargeted(input.deep_view(), acc.deep_view()),
{
    if !acc.embedded {
        return input.dup();
    }
    let pda = match seeds_to_pda_expr(&acc.seeds) {
        Some(e) => e,
        None => {
            return input.dup();
        },
    };
    let p = match input {
        FnArg::Typed(p) => p,
        FnArg::Receiver => {
            return input.dup();
        },
    };
    let named_after = match &p.name {
        Some(n) => *n == acc.role,
        None => false,
    };
    if !named_after {
        return input.dup();
    }
    let mut attrs: Vec<Attribute> = Vec::new();
    let mut i: usize = 0;
    while i < p.attrs.len()
        invariant
            i <= p.attrs.len(),
            attrs.len() == i,
            forall|j: int|
                0 <= j < i ==> (#[trigger] attrs@[j]).deep_view() == retargeted_attr(
                    p.attrs@[j].deep_view(),
                    pda.deep_view(),
                ),
        decreases p.attrs.len() - i,
    {
        attrs.push(retarget_attr(&p.attrs[i], &pda));
        i += 1;
    }
    assert(attrs.deep_view() =~= p.attrs.deep_view().map_values(
        |a: AttributeView| retargeted_attr(a, pda.deep_view()),
    ));
    FnArg::Typed(Param { attrs, name: Some(acc.name.clone()), ty: p.ty.dup() })
}

/// Retarget a discovered fn's embedded role params: a param named
/// after a rewritten role takes the consumer account's name and canonical
/// constraint. `mut` on the account attr is preserved; other flags
/// are not carried, the embedded role grammar is `mut` + `pda`.
fn substitute_embedded_params(inputs: &Vec<FnArg>, inject_specs: &Vec<InjectSpec>) -> (r: Vec<
    FnArg,
>)
    ensures
        r.deep_view() == substituted_from(
            inputs.deep_view(),
            all_accounts(inject_specs.deep_view()),
            0,
        ),
{
    let accounts = list_accounts(inject_specs);
    let ghost accs = accounts.deep_view();
    let ghost start = inputs.deep_view();
    let mut current: Vec<FnArg> = inputs.dup();
    let mut i: usize = 0;
    while i < accounts.len()
        invariant
            i <= accounts.len(),
            accs == accounts.deep_view(),
            substituted_from(start, accs, 0) == substituted_from(
                current.deep_view(),
                accs,
                i as int,
            ),
        decreases accounts.len() - i,
    {
        let acc = &accounts[i];
        assert(accs[i as int] == acc.deep_view());
        let mut next: Vec<FnArg> = Vec::new();
        let mut j: usize = 0;
        while j < current.len()
            invariant
                j <= current.len(),
                next.len() == j,
                forall|k: int|
                    0 <= k < j ==> (#[trigger] next@[k]).deep_view() == retargeted(
                        current@[k].deep_view(),
                        acc.deep_view(),
                    ),
            decreases current.len() - j,
        {
            next.push(retarget_input(&current[j], acc));
            j += 1;
        }
        assert(next.deep_view() =~= current.deep_view().map_values(
            |x: FnArgView| retargeted(x, accs[i as int]),
        ));
        current = next;
        i += 1;
    }
    current
}

// ── Authored location kwargs ─────────────────────────────────────────────

/// The last of `accounts`, up to `upto`, that does not sign and whose role is
/// the path of an entry.
pub open spec fn location_role(
    accounts: Seq<InjectAccountView>,
    upto: int,
    path: PathView,
) -> Option<Seq<char>>
    decreases upto,
{
    if upto <= 0 || upto > accounts.len() {
        None
    } else if !accounts[upto - 1].signer && path.is(accounts[upto - 1].role) {
        Some(accounts[upto - 1].role)
    } else {
        location_role(accounts, upto - 1, path)
    }
}

/// The last location kwarg among the entries from `from` on; `found` where
/// there is none. An `= value` that does not parse ends the reading.
pub open spec fn location_kwarg(
    entries: Seq<EntryView>,
    accounts: Seq<InjectAccountView>,
    from: int,
    found: Option<Seq<char>>,
) -> Option<Seq<char>>
    decreases entries.len() - from,
{
    if from < 0 || from >= entries.len() {
        found
    } else {
        let e = entries[from];
        let here = if e.path.is("offset"@) {
            Some("offset"@)
        } else {
            match location_role(accounts, accounts.len() as int, e.path) {
                Some(role) => Some(role),
                None => found,
            }
        };
        if e.assigned && e.value is None {
            here
        } else {
            location_kwarg(entries, accounts, from + 1, here)
        }
    }
}

/// The complaint about a location kwarg on one gate attr for the specs from
/// `from` on.
pub open spec fn authored_on(
    a: AttributeView,
    func: Seq<char>,
    specs: Seq<InjectSpecView>,
    embeds: Seq<EmbedView>,
    from: int,
) -> Result<(), Seq<char>>
    decreases specs.len() - from,
{
    if from < 0 || from >= specs.len() {
        Ok(())
    } else if a.path.ends(specs[from].wrapper) && embed_offset(
        embeds,
        specs[from].source,
    ) is Some {
        match location_kwarg(a.entries(), specs[from].accounts, 0, None) {
            Some(key) => Err(
                "`"@ + specs[from].wrapper + "` on `"@ + func + "`: the `"@ + key
                    + "` kwarg is framework-written in embedded mode, remove it; the module marker declares the slot location"@,
            ),
            None => authored_on(a, func, specs, embeds, from + 1),
        }
    } else {
        authored_on(a, func, specs, embeds, from + 1)
    }
}

/// The complaint about the first location kwarg on a fn's gate attrs from
/// `from` on.
pub open spec fn authored_from(
    attrs: Seq<AttributeView>,
    func: Seq<char>,
    specs: Seq<InjectSpecView>,
    embeds: Seq<EmbedView>,
    from: int,
) -> Result<(), Seq<char>>
    decreases attrs.len() - from,
{
    if from < 0 || from >= attrs.len() {
        Ok(())
    } else if !(attrs[from].form is List) {
        authored_from(attrs, func, specs, embeds, from + 1)
    } else {
        match authored_on(attrs[from], func, specs, embeds, 0) {
            Ok(_) => authored_from(attrs, func, specs, embeds, from + 1),
            Err(e) => Err(e),
        }
    }
}

fn find_location_role(accounts: &Vec<InjectAccount>, path: &Path) -> (r: Option<String>)
    ensures
        r.deep_view() == location_role(
            accounts.deep_view(),
            accounts.len() as int,
            path.deep_view(),
        ),
{
    let ghost accs = accounts.deep_view();
    let ghost p = path.deep_view();
    let mut i: usize = accounts.len();
    while i > 0
        invariant
            i <= accounts.len(),
            accs == accounts.deep_view(),
            p == path.deep_view(),
            location_role(accs, accounts.len() as int, p) == location_role(accs, i as int, p),
        decreases i,
    {
        i -= 1;
        assert(accs[i as int] == accounts@[i as int].deep_view());
        if !accounts[i].signer && path.is(accounts[i].role.as_str()) {
            return Some(accounts[i].role.clone());
        }
    }
    None
}

fn find_location_kwarg(entries: &Vec<Entry>, accounts: &Vec<InjectAccount>) -> (r: Option<String>)
    ensures
        r.deep_view() == location_kwarg(entries.deep_view(), accounts.deep_view(), 0, None),
{
    let ghost es = entries.deep_view();
    let ghost accs = accounts.deep_view();
    let mut found: Option<String> = None;
    let mut i: usize = 0;
    while i < entries.len()
        invariant
            i <= entries.len(),
            es == entries.deep_view(),
            accs == accounts.deep_view(),
            location_kwarg(es, accs, 0, None) == location_kwarg(
                es,
                accs,
                i as int,
                found.deep_view(),
            ),
        decreases entries.len() - i,
    {
        let e = &entries[i];
        assert(es[i as int] == e.deep_view());
        if e.path.is("offset") {
            found = Some("offset".to_owned());
        } else if let Some(role) = find_location_role(accounts, &e.path) {
            found = Some(role);
        }
        if e.assigned && e.value.is_none() {
            return found;
        }
        i += 1;
    }
    found
}

fn check_authored_gate(
    a: &Attribute,
    entries: &Vec<Entry>,
    func: &str,
    inject_specs: &Vec<InjectSpec>,
    embeds: &Vec<Embed>,
) -> (r: Result<(), String>)
    requires
        entries.deep_view() == a.deep_view().entries(),
    ensures
        model::verdict(r) == authored_on(
            a.deep_view(),
            func@,
            inject_specs.deep_view(),
            embeds.deep_view(),
            0,
        ),
{
    let ghost av = a.deep_view();
    let ghost specs = inject_specs.deep_view();
    let ghost embs = embeds.deep_view();
    let mut i: usize = 0;
    while i < inject_specs.len()
        invariant
            i <= inject_specs.len(),
            av == a.deep_view(),
            entries.deep_view() == av.entries(),
            specs == inject_specs.deep_view(),
            embs == embeds.deep_view(),
            authored_on(av, func@, specs, embs, 0) == authored_on(
                av,
                func@,
                specs,
                embs,
                i as int,
            ),
        decreases inject_specs.len() - i,
    {
        let spec = &inject_specs[i];
        assert(specs[i as int] == spec.deep_view());
        if attr_is(a, spec.wrapper.as_str()) && find_embed_offset(
            embeds,
            spec.source.as_str(),
        ).is_some() {
            if let Some(key) = find_location_kwarg(entries, &spec.accounts) {
                return Err(
                    "`".to_owned().concat(spec.wrapper.as_str()).concat("` on `").concat(
                        func,
                    ).concat("`: the `").concat(key.as_str()).concat(
                        "` kwarg is framework-written in embedded mode, remove it; the module marker declares the slot location",
                    ),
                );
            }
        }
        i += 1;
    }
    Ok(())
}

/// Embedded mode: the framework is the only writer of location
/// kwargs. A consumer-authored gate attr naming the embedded role or
/// `offset` could only contradict the program-wide marker
/// declaration, so it is rejected. Signer-role kwargs stay allowed,
/// and dedicated-mode manual kwargs are untouched.
fn check_authored_location_kwargs(
    func: &ItemFn,
    inject_specs: &Vec<InjectSpec>,
    embeds: &Vec<Embed>,
) -> (r: Result<(), String>)
    ensures
        model::verdict(r) == authored_from(
            func.deep_view().attrs,
            func.deep_view().name,
            inject_specs.deep_view(),
            embeds.deep_view(),
            0,
        ),
{
    let ghost all = func.deep_view().attrs;
    let ghost name = func.deep_view().name;
    let ghost specs = inject_specs.deep_view();
    let ghost embs = embeds.deep_view();
    let mut i: usize = 0;
    while i < func.attrs.len()
        invariant
            i <= func.attrs.len(),
            all == func.attrs.deep_view(),
            name == func.name@,
            specs == inject_specs.deep_view(),
            embs == embeds.deep_view(),
            authored_from(all, name, specs, embs, 0) == authored_from(
                all,
                name,
                specs,
                embs,
                i as int,
            ),
        decreases func.attrs.len() - i,
    {
        let a = &func.attrs[i];
        assert(all[i as int] == a.deep_view());
        if let AttrForm::List(l) = &a.form {
            match check_authored_gate(a, &l.entries, func.name.as_str(), inject_specs, embeds) {
                Ok(_) => {},
                Err(e) => {
                    return Err(e);
                },
            }
        }
        i += 1;
    }
    Ok(())
}

// ── Gating ─────────────────────────────────────────────────────────────

/// The first embed from `from` on whose offset is not resolved.
pub open spec fn first_derived(embeds: Seq<EmbedView>, from: int) -> Option<EmbedView>
    decreases embeds.len() - from,
{
    if from < 0 || from >= embeds.len() {
        None
    } else if embeds[from].decl.offset is Derived {
        Some(embeds[from])
    } else {
        first_derived(embeds, from + 1)
    }
}

/// The complaint of a producer that writes locations about an offset that is
/// not resolved.
pub open spec fn locations_ready(embeds: Seq<EmbedView>, locations: GateLocations) -> Result<
    (),
    Seq<char>,
> {
    match (locations, first_derived(embeds, 0)) {
        (GateLocations::Emit, Some(e)) => Err(
            "extension `"@ + e.source
                + "` reached the "@ + "gate pass with an unresolved derived offset; `resolve_derived_offsets` must run after discovery"@,
        ),
        _ => Ok(()),
    }
}

/// A fn as a gate pass starts on it: embedded roles are retargeted on
/// discovered fns alone.
pub open spec fn gate_start(
    func: ItemFnView,
    specs: Seq<InjectSpecView>,
    qualified: Option<Seq<char>>,
) -> ItemFnView {
    if qualified is Some {
        ItemFnView { inputs: substituted_from(func.inputs, all_accounts(specs), 0), ..func }
    } else {
        func
    }
}

/// What a gate pass makes of a fn, and the names of the parameters it
/// synthesizes: roles are retargeted, wraps prepended, missing parameters
/// injected and, where locations are written, authored gates stamped.
pub open spec fn gated(
    func: ItemFnView,
    wraps: Seq<ActiveWrapView>,
    specs: Seq<InjectSpecView>,
    embeds: Seq<EmbedView>,
    locations: GateLocations,
    qualified: Option<Seq<char>>,
) -> Result<(ItemFnView, Seq<Seq<char>>), Seq<char>> {
    match locations_ready(embeds, locations) {
        Err(e) => Err(e),
        Ok(_) => {
            let start = gate_start(func, specs, qualified);
            let pairs = remap_of(specs, start);
            match authored_from(start.attrs, start.name, specs, embeds, 0) {
                Err(e) => Err(e),
                Ok(_) => match wrapped_from(
                    wraps,
                    specs,
                    embeds,
                    locations,
                    qualified,
                    attrs::named_params(start.inputs),
                    pairs,
                    0,
                    start.attrs,
                ) {
                    Err(e) => Err(e),
                    Ok(wrapped) => match injected(
                        ItemFnView { attrs: wrapped, ..start },
                        specs,
                        pairs,
                    ) {
                        Err(e) => Err(e),
                        Ok((f, names)) => if locations == GateLocations::Emit {
                            match stamp_from(f.attrs, specs, pairs, embeds, 0, Seq::empty()) {
                                Ok(stamped) => Ok((ItemFnView { attrs: stamped, ..f }, names)),
                                Err(e) => Err(e),
                            }
                        } else {
                            Ok((f, names))
                        },
                    },
                },
            }
        },
    }
}

fn check_locations_ready(embeds: &Vec<Embed>, locations: GateLocations) -> (r: Result<(), String>)
    ensures
        model::verdict(r) == locations_ready(embeds.deep_view(), locations),
{
    let ghost embs = embeds.deep_view();
    let mut i: usize = 0;
    while i < embeds.len()
        invariant
            i <= embeds.len(),
            embs == embeds.deep_view(),
            first_derived(embs, 0) == first_derived(embs, i as int),
        decreases embeds.len() - i,
    {
        assert(embs[i as int] == embeds@[i as int].deep_view());
        if embeds[i].decl.offset.is_derived() {
            return match locations {
                GateLocations::Emit => Err(
                    "extension `".to_owned().concat(embeds[i].source.as_str()).concat(
                        "` reached the ",
                    ).concat(
                        "gate pass with an unresolved derived offset; `resolve_derived_offsets` must run after discovery",
                    ),
                ),
                GateLocations::Omit => Ok(()),
            };
        }
        i += 1;
    }
    Ok(())
}

/// The shared gate pass, four phases in order: substitute embedded
/// role params on discovered fns, prepend each active wrap's
/// attribute, inject missing gate params, then stamp authored bare
/// gates with the framework's location kwargs. Shared between the
/// program-macro dispatcher and both IDL paths so all three see the
/// same accounts. Bare and args forms of an authored gate attr both
/// activate injection, which runs before stamping.
///
/// `qualified = None` for consumer-authored fns: only the per-fn
/// `self_exempt_marker` opts out. `Some("crate::fn_name")` for
/// extension-provided fns: the `exempt` qualified-name list is also
/// consulted so a wrap can carve out an extension it depends on, and
/// embedded role substitution applies only on this path. On both paths
/// a fn that creates a gate's embedded account is skipped by that gate:
/// the state a gate would decode cannot exist before the fn runs.
///
/// Returns the names of the params `inject_gate_params` synthesized.
///
/// `locations` says whether this producer writes the offset kwarg; see
/// [`GateLocations`]. The accounts it injects are identical either way,
/// which is what keeps the IDL's account list and the dispatcher's in
/// agreement without the IDL producers resolving a carrier.
///
/// # Errors
///
/// Propagates `inject_gate_params` errors and fails when a
/// consumer-authored gate attr carries a location kwarg in embedded
/// mode, and, under [`GateLocations::Emit`], when an offset reaches the
/// pass unresolved.
pub fn apply_wrap_and_inject(
    func: &mut ItemFn,
    active_wraps: &Vec<ActiveWrap>,
    inject_specs: &Vec<InjectSpec>,
    embeds: &Vec<Embed>,
    locations: GateLocations,
    qualified: Option<&str>,
) -> (r: Result<Vec<String>, String>)
    ensures
        match gated(
            old(func).deep_view(),
            active_wraps.deep_view(),
            inject_specs.deep_view(),
            embeds.deep_view(),
            locations,
            qualified.deep_view(),
        ) {
            Ok((f, names)) => r is Ok && r->Ok_0.deep_view() == names && final(func).deep_view()
                == f,
            Err(e) => r is Err && r->Err_0@ == e,
        },
{
    if let Err(e) = check_locations_ready(embeds, locations) {
        return Err(e);
    }
    if qualified.is_some() {
        func.inputs = substitute_embedded_params(&func.inputs, inject_specs);
    }
    let remap = build_remap(inject_specs, func);
    if let Err(e) = check_authored_location_kwargs(func, inject_specs, embeds) {
        return Err(e);
    }
    match prepend_wraps(
        func,
        active_wraps,
        inject_specs,
        embeds,
        locations,
        qualified,
        &remap,
    ) {
        Ok(attrs) => {
            func.attrs = attrs;
        },
        Err(e) => {
            return Err(e);
        },
    }
    let names = match inject_gate_params(func, inject_specs, &remap) {
        Ok(n) => n,
        Err(e) => {
            return Err(e);
        },
    };
    // Stamping only ever writes location kwargs, so a producer that
    // omits them has nothing to stamp. It runs after injection either
    // way, so the bare-attr-activates-injection rule already fired.
    if locations == GateLocations::Emit {
        match stamp_authored_gates(&func.attrs, inject_specs, &remap, embeds) {
            Ok(attrs) => {
                func.attrs = attrs;
            },
            Err(e) => {
                return Err(e);
            },
        }
    }
    Ok(names)
}

// ── Canonical constraints ────────────────────────────────────────────────

/// One declaration of an account with a `pda` constraint.
pub struct PdaDecl {
    /// The fn that declares it.
    pub fn_name: String,
    /// Whether the fn creates the account.
    pub has_init: bool,
    pub pda: Expr,
}

/// What a [`PdaDecl`] holds.
#[verifier::ext_equal]
pub struct PdaDeclView {
    pub fn_name: Seq<char>,
    pub has_init: bool,
    pub pda: ExprView,
}

impl DeepView for PdaDecl {
    type V = PdaDeclView;

    open spec fn deep_view(&self) -> PdaDeclView {
        PdaDeclView {
            fn_name: self.fn_name@,
            has_init: self.has_init,
            pda: self.pda.deep_view(),
        }
    }
}

/// The declarations in a parameter's attributes.
pub open spec fn attr_decls(func: Seq<char>, attrs: Seq<AttributeView>) -> Seq<PdaDeclView>
    decreases attrs.len(),
{
    if attrs.len() == 0 {
        Seq::empty()
    } else {
        let before = attr_decls(func, attrs.drop_last());
        let a = attrs.last();
        if !a.path.is("account"@) {
            before
        } else {
            match attrs::keyed(a.entries(), "pda"@, 0, None) {
                Some(pda) => before.push(
                    PdaDeclView {
                        fn_name: func,
                        has_init: attrs::carries(a.entries(), "init"@),
                        pda,
                    },
                ),
                None => before,
            }
        }
    }
}

/// The declarations of `account` among a fn's parameters.
pub open spec fn param_decls(
    func: Seq<char>,
    params: Seq<(Seq<char>, ParamView)>,
    account: Seq<char>,
) -> Seq<PdaDeclView>
    decreases params.len(),
{
    if params.len() == 0 {
        Seq::empty()
    } else {
        let before = param_decls(func, params.drop_last(), account);
        if params.last().0 == account {
            before + attr_decls(func, params.last().1.attrs)
        } else {
            before
        }
    }
}

/// The declarations of `account` among the fns.
pub open spec fn fn_decls(fns: Seq<ItemFnView>, account: Seq<char>) -> Seq<PdaDeclView>
    decreases fns.len(),
{
    if fns.len() == 0 {
        Seq::empty()
    } else {
        fn_decls(fns.drop_last(), account) + param_decls(
            fns.last().name,
            attrs::named_params(fns.last().inputs),
            account,
        )
    }
}

/// The first declaration from `from` on that creates the account.
pub open spec fn creating_decl(decls: Seq<PdaDeclView>, from: int) -> Option<PdaDeclView>
    decreases decls.len() - from,
{
    if from < 0 || from >= decls.len() {
        None
    } else if decls[from].has_init {
        Some(decls[from])
    } else {
        creating_decl(decls, from + 1)
    }
}

/// The first declaration from `from` on whose constraint is not `pda`.
pub open spec fn conflicting_decl(decls: Seq<PdaDeclView>, pda: Seq<char>, from: int) -> Option<
    PdaDeclView,
>
    decreases decls.len() - from,
{
    if from < 0 || from >= decls.len() {
        None
    } else if decls[from].pda.text != pda {
        Some(decls[from])
    } else {
        conflicting_decl(decls, pda, from + 1)
    }
}

/// The canonical PDA constraint of an embedded-mode account: that of the first
/// declaration that creates it, which every other must agree with.
pub open spec fn canonical_constraint(fns: Seq<ItemFnView>, account: Seq<char>) -> Result<
    ExprView,
    Seq<char>,
> {
    let decls = fn_decls(fns, account);
    match creating_decl(decls, 0) {
        None => Err(
            "embedded account `"@ + account
                + "` has no canonical declaration: the account-creating instruction must declare it with `#[account(init, pda = ...)]`"@,
        ),
        Some(canonical) => match conflicting_decl(decls, canonical.pda.text, 0) {
            Some(d) => Err(
                "embedded account `"@ + account
                    + "` is declared with conflicting pda constraints: in `"@ + canonical.fn_name
                    + "` and in `"@ + d.fn_name + "`"@,
            ),
            None => Ok(canonical.pda),
        },
    }
}

fn collect_attr_decls(func: &str, attrs: &Vec<Attribute>) -> (r: Vec<PdaDecl>)
    ensures
        r.deep_view() == attr_decls(func@, attrs.deep_view()),
{
    let ghost all = attrs.deep_view();
    let mut out: Vec<PdaDecl> = none();
    let mut i: usize = 0;
    assert(all.take(0) =~= Seq::empty());
    while i < attrs.len()
        invariant
            i <= attrs.len(),
            all == attrs.deep_view(),
            out.deep_view() == attr_decls(func@, all.take(i as int)),
        decreases attrs.len() - i,
    {
        let a = &attrs[i];
        assert(all.take(i + 1).drop_last() =~= all.take(i as int));
        assert(all.take(i + 1).last() == a.deep_view());
        if a.path.is("account") {
            if let AttrForm::List(l) = &a.form {
                if let Some(pda) = entries_keyed(&l.entries, "pda") {
                    let has_init = entries_carry(&l.entries, "init");
                    put(&mut out, PdaDecl { fn_name: func.to_owned(), has_init, pda });
                }
            }
        }
        i += 1;
    }
    assert(all.take(i as int) =~= all);
    out
}

fn collect_param_decls(func: &ItemFn, account: &str) -> (r: Vec<PdaDecl>)
    ensures
        r.deep_view() == param_decls(
            func.deep_view().name,
            attrs::named_params(func.deep_view().inputs),
            account@,
        ),
{
    let params = typed_params(func);
    let ghost ps = params.deep_view();
    let mut out: Vec<PdaDecl> = none();
    let mut i: usize = 0;
    assert(ps.take(0) =~= Seq::empty());
    while i < params.len()
        invariant
            i <= params.len(),
            ps == params.deep_view(),
            out.deep_view() == param_decls(func.name@, ps.take(i as int), account@),
        decreases params.len() - i,
    {
        assert(ps.take(i + 1).drop_last() =~= ps.take(i as int));
        assert(ps.take(i + 1).last() == params@[i as int].deep_view());
        if same(params[i].0.as_str(), account) {
            put_all(&mut out, collect_attr_decls(func.name.as_str(), &params[i].1.attrs));
        }
        i += 1;
    }
    assert(ps.take(i as int) =~= ps);
    out
}

fn collect_decls(fns: &Vec<ItemFn>, account: &str) -> (r: Vec<PdaDecl>)
    ensures
        r.deep_view() == fn_decls(fns.deep_view(), account@),
{
    let ghost all = fns.deep_view();
    let mut out: Vec<PdaDecl> = none();
    let mut i: usize = 0;
    assert(all.take(0) =~= Seq::empty());
    while i < fns.len()
        invariant
            i <= fns.len(),
            all == fns.deep_view(),
            out.deep_view() == fn_decls(all.take(i as int), account@),
        decreases fns.len() - i,
    {
        assert(all.take(i + 1).drop_last() =~= all.take(i as int));
        assert(all.take(i + 1).last() == fns@[i as int].deep_view());
        put_all(&mut out, collect_param_decls(&fns[i], account));
        i += 1;
    }
    assert(all.take(i as int) =~= all);
    out
}

fn find_creating(decls: &Vec<PdaDecl>) -> (r: Option<usize>)
    ensures
        match r {
            Some(i) => i < decls.len() && creating_decl(decls.deep_view(), 0) == Some(
                decls@[i as int].deep_view(),
            ),
            None => creating_decl(decls.deep_view(), 0) is None,
        },
{
    let ghost all = decls.deep_view();
    let mut i: usize = 0;
    while i < decls.len()
        invariant
            i <= decls.len(),
            all == decls.deep_view(),
            creating_decl(all, 0) == creating_decl(all, i as int),
        decreases decls.len() - i,
    {
        assert(all[i as int] == decls@[i as int].deep_view());
        if decls[i].has_init {
            return Some(i);
        }
        i += 1;
    }
    None
}

/// Resolve the canonical PDA constraint for an embedded-mode account.
///
/// The canonical declaration is the consumer's account-creating one,
/// `#[account(init, pda = ...)]` on a param named account. Every
/// other declaration of that name carrying a `pda` constraint must
/// agree with it structurally.
///
/// # Errors
///
/// `Err` when no declaration carries `init` plus a `pda` constraint,
/// or when two declarations disagree, naming both fns. Callers
/// surface it as a compile error.
#[verifier::loop_isolation(false)]
pub fn resolve_canonical_constraint(fns: &Vec<ItemFn>, account: &str) -> (r: Result<Expr, String>)
    ensures
        model::outcome(r) == canonical_constraint(fns.deep_view(), account@),
{
    let decls = collect_decls(fns, account);
    let ghost all = decls.deep_view();
    let c = match find_creating(&decls) {
        Some(i) => i,
        None => {
            return Err(
                "embedded account `".to_owned().concat(account).concat(
                    "` has no canonical declaration: the account-creating instruction must declare it with `#[account(init, pda = ...)]`",
                ),
            );
        },
    };
    let canonical = &decls[c];
    let ghost pda = canonical.pda.text@;
    let mut i: usize = 0;
    while i < decls.len()
        invariant
            i <= decls.len(),
            conflicting_decl(all, pda, 0) == conflicting_decl(all, pda, i as int),
        decreases decls.len() - i,
    {
        assert(all[i as int] == decls@[i as int].deep_view());
        if decls[i].pda.text != canonical.pda.text {
            return Err(
                "embedded account `".to_owned().concat(account).concat(
                    "` is declared with conflicting pda constraints: in `",
                ).concat(canonical.fn_name.as_str()).concat("` and in `").concat(
                    decls[i].fn_name.as_str(),
                ).concat("`"),
            );
        }
        i += 1;
    }
    Ok(canonical.pda.dup())
}

// ── Embedded roles ───────────────────────────────────────────────────────

/// Whether a fn carries an extension's initializer: its anchor attribute or the
/// shorthand for it.
pub open spec fn carries_initializer(attrs: Seq<AttributeView>, anchor: Seq<char>) -> bool {
    attrs::ending(attrs, anchor) || attrs::ending(attrs, "initialize"@)
}

/// The complaint about the first fn from `from` on that creates the embedding
/// account without the initializer, or carries the initializer without
/// creating the account.
pub open spec fn coverage_from(
    fns: Seq<ItemFnView>,
    account: Seq<char>,
    anchor: Seq<char>,
    from: int,
) -> Result<(), Seq<char>>
    decreases fns.len() - from,
{
    if from < 0 || from >= fns.len() {
        Ok(())
    } else {
        let makes = creates(attrs::named_params(fns[from].inputs), account);
        let annotated = carries_initializer(fns[from].attrs, anchor);
        if makes && !annotated {
            Err(
                "`"@ + fns[from].name + "` creates the embedding account `"@ + account
                    + "` and must carry #["@ + anchor
                    + "]; without it the program ships born renounced"@,
            )
        } else if annotated && !makes {
            Err(
                "`"@ + fns[from].name + "` carries #["@ + anchor + "] but does not declare `"@
                    + account
                    + "` with #[account(init, ...)]; the bootstrap must only ever run on a freshly created account"@,
            )
        } else {
            coverage_from(fns, account, anchor, from + 1)
        }
    }
}

/// Whether the fns cover an embed's initializer; an embed without one asks for
/// nothing.
pub open spec fn coverage(embed: EmbedDeclView, fns: Seq<ItemFnView>) -> Result<(), Seq<char>> {
    match embed.initializer {
        None => Ok(()),
        Some(anchor) => coverage_from(fns, embed.account, anchor, 0),
    }
}

fn has_ending(attrs: &Vec<Attribute>, name: &str) -> (r: bool)
    ensures
        r == attrs::ending(attrs.deep_view(), name@),
{
    let ghost all = attrs.deep_view();
    let mut i: usize = 0;
    while i < attrs.len()
        invariant
            i <= attrs.len(),
            all == attrs.deep_view(),
            forall|j: int| 0 <= j < i ==> !(#[trigger] all[j]).path.ends(name@),
        decreases attrs.len() - i,
    {
        assert(all[i as int] == attrs@[i as int].deep_view());
        if attr_is(&attrs[i], name) {
            return true;
        }
        i += 1;
    }
    false
}

/// An extension that declares an initializer, the embed anchor from
/// `embedded.anchor_attr`, makes it mandatory: every instruction that
/// creates the embedding account must carry it, or the program ships
/// born renounced. Extensions without one (freeze is born vacant by
/// design) are untouched; a wrapper whose name merely matches the
/// `<role>_initialize` shape implies nothing.
#[verifier::loop_isolation(false)]
pub fn check_initializer_coverage(embed: &EmbedDecl, consumer_fns: &Vec<ItemFn>) -> (r: Result<
    (),
    String,
>)
    ensures
        model::verdict(r) == coverage(embed.deep_view(), consumer_fns.deep_view()),
{
    let anchor = match &embed.initializer {
        Some(a) => a.clone(),
        None => {
            return Ok(());
        },
    };
    let ghost fns = consumer_fns.deep_view();
    let ghost account = embed.account@;
    let mut i: usize = 0;
    while i < consumer_fns.len()
        invariant
            i <= consumer_fns.len(),
            coverage_from(fns, account, anchor@, 0) == coverage_from(
                fns,
                account,
                anchor@,
                i as int,
            ),
        decreases consumer_fns.len() - i,
    {
        let func = &consumer_fns[i];
        assert(fns[i as int] == func.deep_view());
        let params = typed_params(func);
        let makes = param_created(&params, embed.account.as_str());
        let annotated = has_ending(&func.attrs, anchor.as_str()) || has_ending(
            &func.attrs,
            "initialize",
        );
        if makes && !annotated {
            return Err(
                "`".to_owned().concat(func.name.as_str()).concat(
                    "` creates the embedding account `",
                ).concat(embed.account.as_str()).concat("` and must carry #[").concat(
                    anchor.as_str(),
                ).concat("]; without it the program ships born renounced"),
            );
        }
        if annotated && !makes {
            return Err(
                "`".to_owned().concat(func.name.as_str()).concat("` carries #[").concat(
                    anchor.as_str(),
                ).concat("] but does not declare `").concat(embed.account.as_str()).concat(
                    "` with #[account(init, ...)]; the bootstrap must only ever run on a freshly created account",
                ),
            );
        }
        i += 1;
    }
    Ok(())
}

/// The account of an inject entry after an embed: the role's entry takes the
/// consumer account's name and canonical seeds.
pub open spec fn embedded_account(
    acc: InjectAccountView,
    embed: EmbedDeclView,
    seeds: Seq<InjectSeedView>,
) -> InjectAccountView {
    if acc.role == embed.role {
        InjectAccountView { name: embed.account, seeds, embedded: true, ..acc }
    } else {
        acc
    }
}

/// A spec after an embed: the specs of the declaring extension have the role
/// retargeted and the offset noted, others stay.
pub open spec fn embedded_spec(
    spec: InjectSpecView,
    embed: EmbedView,
    seeds: Seq<InjectSeedView>,
) -> InjectSpecView {
    if spec.source == embed.source {
        InjectSpecView {
            accounts: spec.accounts.map_values(
                |a: InjectAccountView| embedded_account(a, embed.decl, seeds),
            ),
            embedded_offset: Some(embed.decl.offset),
            ..spec
        }
    } else {
        spec
    }
}

/// Whether one of the extension's specs declares the role.
pub open spec fn declares_role(
    specs: Seq<InjectSpecView>,
    source: Seq<char>,
    role: Seq<char>,
) -> bool {
    exists|i: int, j: int|
        #![trigger specs[i].accounts[j]]
        0 <= i < specs.len() && 0 <= j < specs[i].accounts.len() && specs[i].source == source
            && specs[i].accounts[j].role == role
}

/// The specs after one embed.
pub open spec fn rewritten(
    specs: Seq<InjectSpecView>,
    embed: EmbedView,
    fns: Seq<ItemFnView>,
) -> Result<Seq<InjectSpecView>, Seq<char>> {
    match canonical_constraint(fns, embed.decl.account) {
        Err(e) => Err(e),
        Ok(canonical) => match expr_seeds(canonical) {
            None => Err(
                "embedded account `"@ + embed.decl.account
                    + "`: canonical constraint is not a literal()/account() seed expression"@,
            ),
            Some(seeds) => match coverage(embed.decl, fns) {
                Err(e) => Err(e),
                Ok(_) => if !declares_role(specs, embed.source, embed.decl.role) {
                    Err(
                        "extension `"@ + embed.source + "` declares no inject account named `"@
                            + embed.decl.role
                            + "`; the marker kwarg must name one of the extension's inject roles"@,
                    )
                } else {
                    Ok(specs.map_values(|s: InjectSpecView| embedded_spec(s, embed, seeds)))
                },
            },
        },
    }
}

/// The specs after the embeds from `from` on.
pub open spec fn rewritten_from(
    specs: Seq<InjectSpecView>,
    embeds: Seq<EmbedView>,
    fns: Seq<ItemFnView>,
    from: int,
) -> Result<Seq<InjectSpecView>, Seq<char>>
    decreases embeds.len() - from,
{
    if from < 0 || from >= embeds.len() {
        Ok(specs)
    } else {
        match rewritten(specs, embeds[from], fns) {
            Ok(next) => rewritten_from(next, embeds, fns, from + 1),
            Err(e) => Err(e),
        }
    }
}

/// Whether two embeds claim the same literal offset of one account.
pub open spec fn collides(a: EmbedDeclView, b: EmbedDeclView) -> bool {
    a.account == b.account && a.offset is Literal && a.offset == b.offset
}

/// The first embed from `from` on that collides with `a`.
pub open spec fn collision_with(
    a: EmbedView,
    embeds: Seq<EmbedView>,
    from: int,
) -> Option<EmbedView>
    decreases embeds.len() - from,
{
    if from < 0 || from >= embeds.len() {
        None
    } else if collides(a.decl, embeds[from].decl) {
        Some(embeds[from])
    } else {
        collision_with(a, embeds, from + 1)
    }
}

/// The complaint about the first two embeds from `from` on that collide.
pub open spec fn collisions_from(embeds: Seq<EmbedView>, from: int) -> Result<(), Seq<char>>
    decreases embeds.len() - from,
{
    if from < 0 || from >= embeds.len() {
        Ok(())
    } else {
        let a = embeds[from];
        match collision_with(a, embeds, from + 1) {
            Some(b) => Err(
                "extensions `"@ + a.source + "` and `"@ + b.source + "` both embed into account `"@
                    + a.decl.account + "` at offset "@ + text::decimal(
                    a.decl.offset->Literal_0 as nat,
                ) + "; identical offsets cannot both hold state, declare distinct offsets"@,
            ),
            None => collisions_from(embeds, from + 1),
        }
    }
}

/// The specs after all embeds, which must not collide.
pub open spec fn all_rewritten(
    specs: Seq<InjectSpecView>,
    embeds: Seq<EmbedView>,
    fns: Seq<ItemFnView>,
) -> Result<Seq<InjectSpecView>, Seq<char>> {
    match rewritten_from(specs, embeds, fns, 0) {
        Err(e) => Err(e),
        Ok(done) => match collisions_from(embeds, 0) {
            Ok(_) => Ok(done),
            Err(e) => Err(e),
        },
    }
}

fn embed_account(acc: &InjectAccount, embed: &EmbedDecl, seeds: &Vec<InjectSeed>) -> (r:
    InjectAccount)
    ensures
        r.deep_view() == embedded_account(acc.deep_view(), embed.deep_view(), seeds.deep_view()),
{
    let mut out = acc.dup();
    if acc.role == embed.role {
        out.name = embed.account.clone();
        out.seeds = seeds.dup();
        out.embedded = true;
    }
    out
}

fn embed_spec(spec: &InjectSpec, embed: &Embed, seeds: &Vec<InjectSeed>) -> (r: InjectSpec)
    ensures
        r.deep_view() == embedded_spec(spec.deep_view(), embed.deep_view(), seeds.deep_view()),
{
    let mut out = spec.dup();
    if spec.source == embed.source {
        let mut accounts: Vec<InjectAccount> = Vec::new();
        let mut i: usize = 0;
        while i < spec.accounts.len()
            invariant
                i <= spec.accounts.len(),
                accounts.len() == i,
                forall|j: int|
                    0 <= j < i ==> (#[trigger] accounts@[j]).deep_view() == embedded_account(
                        spec.accounts@[j].deep_view(),
                        embed.decl.deep_view(),
                        seeds.deep_view(),
                    ),
            decreases spec.accounts.len() - i,
        {
            accounts.push(embed_account(&spec.accounts[i], &embed.decl, seeds));
            i += 1;
        }
        assert(accounts.deep_view() =~= spec.accounts.deep_view().map_values(
            |a: InjectAccountView|
                embedded_account(a, embed.decl.deep_view(), seeds.deep_view()),
        ));
        out.accounts = accounts;
        out.embedded_offset = Some(embed.decl.offset.dup());
    }
    out
}

fn has_role(specs: &Vec<InjectSpec>, source: &str, role: &str) -> (r: bool)
    ensures
        r == declares_role(specs.deep_view(), source@, role@),
{
    let ghost all = specs.deep_view();
    let mut i: usize = 0;
    while i < specs.len()
        invariant
            i <= specs.len(),
            all == specs.deep_view(),
            forall|a: int, b: int|
                #![trigger all[a].accounts[b]]
                0 <= a < i && 0 <= b < all[a].accounts.len() ==> !(all[a].source == source@
                    && all[a].accounts[b].role == role@),
        decreases specs.len() - i,
    {
        let spec = &specs[i];
        assert(all[i as int] == spec.deep_view());
        if same(spec.source.as_str(), source) {
            let mut j: usize = 0;
            while j < spec.accounts.len()
                invariant
                    j <= spec.accounts.len(),
                    i < specs.len(),
                    all == specs.deep_view(),
                    all[i as int] == spec.deep_view(),
                    spec.source@ == source@,
                    forall|b: int|
                        0 <= b < j ==> (#[trigger] all[i as int].accounts[b]).role != role@,
                decreases spec.accounts.len() - j,
            {
                assert(all[i as int].accounts[j as int] == spec.accounts@[j as int].deep_view());
                if same(spec.accounts[j].role.as_str(), role) {
                    return true;
                }
                j += 1;
            }
        }
        i += 1;
    }
    false
}

fn rewrite_one(specs: &Vec<InjectSpec>, embed: &Embed, consumer_fns: &Vec<ItemFn>) -> (r: Result<
    Vec<InjectSpec>,
    String,
>)
    ensures
        model::outcome(r) == rewritten(
            specs.deep_view(),
            embed.deep_view(),
            consumer_fns.deep_view(),
        ),
{
    let canonical = match resolve_canonical_constraint(consumer_fns, embed.decl.account.as_str()) {
        Ok(c) => c,
        Err(e) => {
            return Err(e);
        },
    };
    let seeds = match expr_to_seeds(&canonical) {
        Some(s) => s,
        None => {
            return Err(
                "embedded account `".to_owned().concat(embed.decl.account.as_str()).concat(
                    "`: canonical constraint is not a literal()/account() seed expression",
                ),
            );
        },
    };
    if let Err(e) = check_initializer_coverage(&embed.decl, consumer_fns) {
        return Err(e);
    }
    if !has_role(specs, embed.source.as_str(), embed.decl.role.as_str()) {
        return Err(
            "extension `".to_owned().concat(embed.source.as_str()).concat(
                "` declares no inject account named `",
            ).concat(embed.decl.role.as_str()).concat(
                "`; the marker kwarg must name one of the extension's inject roles",
            ),
        );
    }
    let mut out: Vec<InjectSpec> = Vec::new();
    let mut i: usize = 0;
    while i < specs.len()
        invariant
            i <= specs.len(),
            out.len() == i,
            forall|j: int|
                0 <= j < i ==> (#[trigger] out@[j]).deep_view() == embedded_spec(
                    specs@[j].deep_view(),
                    embed.deep_view(),
                    seeds.deep_view(),
                ),
        decreases specs.len() - i,
    {
        out.push(embed_spec(&specs[i], embed, &seeds));
        i += 1;
    }
    assert(out.deep_view() =~= specs.deep_view().map_values(
        |s: InjectSpecView| embedded_spec(s, embed.deep_view(), seeds.deep_view()),
    ));
    Ok(out)
}

fn find_collision(a: &Embed, embeds: &Vec<Embed>, start: usize) -> (r: Option<usize>)
    requires
        start <= embeds.len(),
    ensures
        match r {
            Some(j) => j < embeds.len() && collision_with(
                a.deep_view(),
                embeds.deep_view(),
                start as int,
            ) == Some(embeds@[j as int].deep_view()) && a.deep_view().decl.offset is Literal,
            None => collision_with(a.deep_view(), embeds.deep_view(), start as int) is None,
        },
{
    let ghost all = embeds.deep_view();
    let ghost av = a.deep_view();
    let mut j: usize = start;
    while j < embeds.len()
        invariant
            start <= j <= embeds.len(),
            all == embeds.deep_view(),
            av == a.deep_view(),
            collision_with(av, all, start as int) == collision_with(av, all, j as int),
        decreases embeds.len() - j,
    {
        let b = &embeds[j];
        assert(all[j as int] == b.deep_view());
        if a.decl.account == b.decl.account {
            if let (OffsetSpec::Literal(x), OffsetSpec::Literal(y)) = (
                &a.decl.offset,
                &b.decl.offset,
            ) {
                if *x == *y {
                    return Some(j);
                }
            }
        }
        j += 1;
    }
    None
}

/// Reject two embeds sharing an account at the same offset: identical
/// windows cannot both hold state. Distinct offsets on one account are
/// the intended shared-account layout.
///
/// Only literal pairs are decided here. A derived offset is not a
/// number at this point, so pairs involving one are checked by the
/// const assert `slot_offsets` emits over the carriers' offset consts,
/// which rustc evaluates once the layout is known.
pub fn check_embed_window_collisions(embeds: &Vec<Embed>) -> (r: Result<(), String>)
    ensures
        model::verdict(r) == collisions_from(embeds.deep_view(), 0),
{
    let ghost all = embeds.deep_view();
    let mut i: usize = 0;
    while i < embeds.len()
        invariant
            i <= embeds.len(),
            all == embeds.deep_view(),
            collisions_from(all, 0) == collisions_from(all, i as int),
        decreases embeds.len() - i,
    {
        let a = &embeds[i];
        assert(all[i as int] == a.deep_view());
        if let Some(j) = find_collision(a, embeds, i + 1) {
            let offset: usize = match &a.decl.offset {
                OffsetSpec::Literal(n) => *n,
                _ => 0,
            };
            return Err(
                "extensions `".to_owned().concat(a.source.as_str()).concat("` and `").concat(
                    embeds[j].source.as_str(),
                ).concat("` both embed into account `").concat(a.decl.account.as_str()).concat(
                    "` at offset ",
                ).concat(text::number(offset).as_str()).concat(
                    "; identical offsets cannot both hold state, declare distinct offsets",
                ),
            );
        }
        i += 1;
    }
    Ok(())
}

/// Rewrite each embedded role's inject entry: the role's account is
/// replaced by the consumer's embedding account, name and canonical
/// constraint. Runs before any wrap or inject pass so all three
/// producers see the rewritten specs.
///
/// # Errors
///
/// `Err` when a declared role matches no inject account of the
/// declaring extension, when the canonical constraint is missing or
/// conflicting ([`resolve_canonical_constraint`]), or when the
/// constraint is not `literal()`/`account()` seed shaped. Callers
/// surface it as a compile error.
#[verifier::loop_isolation(false)]
pub fn rewrite_embedded_roles(
    specs: &mut Vec<InjectSpec>,
    embeds: &Vec<Embed>,
    consumer_fns: &Vec<ItemFn>,
) -> (r: Result<(), String>)
    ensures
        match all_rewritten(
            old(specs).deep_view(),
            embeds.deep_view(),
            consumer_fns.deep_view(),
        ) {
            Ok(done) => r is Ok && final(specs).deep_view() == done,
            Err(e) => r is Err && r->Err_0@ == e,
        },
{
    let ghost start = specs.deep_view();
    let ghost embs = embeds.deep_view();
    let ghost fns = consumer_fns.deep_view();
    let mut i: usize = 0;
    while i < embeds.len()
        invariant
            i <= embeds.len(),
            rewritten_from(start, embs, fns, 0) == rewritten_from(
                specs.deep_view(),
                embs,
                fns,
                i as int,
            ),
        decreases embeds.len() - i,
    {
        assert(embs[i as int] == embeds@[i as int].deep_view());
        match rewrite_one(specs, &embeds[i], consumer_fns) {
            Ok(next) => {
                *specs = next;
            },
            Err(e) => {
                return Err(e);
            },
        }
        i += 1;
    }
    check_embed_window_collisions(embeds)
}

} // verus!
