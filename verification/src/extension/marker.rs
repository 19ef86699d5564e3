//! Module-marker attribute handling: the pre-check that gates the
//! metadata walk and the marker argument grammar.
use crate::attrs;
use crate::attrs::{attr_is, find_ending, param_has_init, render_path, typed_params};
use crate::model;
use crate::model::{none, put, Dup};
use crate::nodes;
use crate::nodes::render_expr;
use crate::source;
use crate::source::read_expr;
use crate::syntax::{
    AttrForm, AttrFormView, Attribute, AttributeView, Expr, ExprKind, ExprKindView, ExprView, Item,
    ItemFn, ItemFnView, ItemView, Meta, MetaForm, MetaFormView, MetaView, ParamView,
};
use crate::text;
use crate::text::same;
use vstd::prelude::*;

verus! {

/// Where an embedded window starts.
#[derive(Debug, PartialEq, Eq)]
pub enum OffsetSpec {
    /// Explicit `offset = N` on the marker.
    Literal(usize),
    /// No offset kwarg: derived from the role's `*_slot` field marker.
    Derived,
    /// A resolved derivation: the carrier struct's offset const as a
    /// path, e.g. `ProgConfig::MY_SLOT_OFFSET`. Written only by
    /// `resolve_derived_offsets`, parsed back to tokens at emission.
    Path(String),
}

/// What a [`OffsetSpec`] holds.
#[verifier::ext_equal]
pub enum OffsetSpecView {
    Literal(usize),
    Derived,
    Path(Seq<char>),
}

impl DeepView for OffsetSpec {
    type V = OffsetSpecView;

    open spec fn deep_view(&self) -> OffsetSpecView {
        match self {
            OffsetSpec::Literal(a) => OffsetSpecView::Literal(*a),
            OffsetSpec::Derived => OffsetSpecView::Derived,
            OffsetSpec::Path(a) => OffsetSpecView::Path(a@),
        }
    }
}

impl Dup for OffsetSpec {
    fn dup(&self) -> (r: Self) {
        match self {
            OffsetSpec::Literal(a) => OffsetSpec::Literal(*a),
            OffsetSpec::Derived => OffsetSpec::Derived,
            OffsetSpec::Path(a) => OffsetSpec::Path(a.clone()),
        }
    }
}

/// A bound-arg value resolved at discovery time: either a concrete
/// number from an explicit offset kwarg or the declared default, or a
/// derivation the dispatcher lowers to the carrier struct's
/// `<ROLE>_SLOT_OFFSET` const path at emission.
#[derive(Debug, PartialEq, Eq)]
pub enum BoundValue {
    /// A number.
    Literal(usize),
    /// The offset of the role's slot, not resolved yet.
    Derived { role: String },
    /// A resolved derivation.
    Path(String),
}

/// What a [`BoundValue`] holds.
#[verifier::ext_equal]
pub enum BoundValueView {
    Literal(usize),
    Derived { role: Seq<char> },
    Path(Seq<char>),
}

impl DeepView for BoundValue {
    type V = BoundValueView;

    open spec fn deep_view(&self) -> BoundValueView {
        match self {
            BoundValue::Literal(a) => BoundValueView::Literal(*a),
            BoundValue::Derived { role } => BoundValueView::Derived { role: role@ },
            BoundValue::Path(a) => BoundValueView::Path(a@),
        }
    }
}

impl Dup for BoundValue {
    fn dup(&self) -> (r: Self) {
        match self {
            BoundValue::Literal(a) => BoundValue::Literal(*a),
            BoundValue::Derived { role } => BoundValue::Derived { role: role.clone() },
            BoundValue::Path(a) => BoundValue::Path(a.clone()),
        }
    }
}

/// Embedded-mode declaration parsed from a module marker's kwargs,
/// `#[admin_authority(admin_config = prog_config, offset = 32)]`:
/// the inject role `admin_config` lives inside the consumer account
/// `prog_config` at byte offset 32. The offset is `Derived` when the
/// marker omits the kwarg, resolved later from the account struct's
/// `*_slot` field marker.
#[derive(Debug, PartialEq, Eq)]
pub struct EmbedDecl {
    /// Inject-spec account name being relocated (the role).
    pub role: String,
    /// Consumer account the role's slot lives in.
    pub account: String,
    pub offset: OffsetSpec,
    /// The extension's declared initializer attr, `embedded.anchor_attr`.
    /// `Some` only for anchored extensions; the declaration is what
    /// makes the initializer coverage gate mandatory. `None` on the
    /// marker-kwarg path: an anchorless extension declares no
    /// initializer and gets no gate.
    pub initializer: Option<String>,
}

/// What a [`EmbedDecl`] holds.
#[verifier::ext_equal]
pub struct EmbedDeclView {
    pub role: Seq<char>,
    pub account: Seq<char>,
    pub offset: OffsetSpecView,
    pub initializer: Option<Seq<char>>,
}

impl DeepView for EmbedDecl {
    type V = EmbedDeclView;

    open spec fn deep_view(&self) -> EmbedDeclView {
        EmbedDeclView {
            role: self.role@,
            account: self.account@,
            offset: self.offset.deep_view(),
            initializer: self.initializer.deep_view(),
        }
    }
}

impl Dup for EmbedDecl {
    fn dup(&self) -> (r: Self) {
        EmbedDecl {
            role: self.role.clone(),
            account: self.account.clone(),
            offset: self.offset.dup(),
            initializer: self.initializer.dup(),
        }
    }
}

/// Everything a module marker's argument list can carry: an optional
/// bare mode word (`manual`) and an optional embedded declaration.
#[derive(Debug, PartialEq, Eq)]
pub struct MarkerArgs {
    /// Bare ident arg, the wrap-skip word. `None` when absent.
    pub word: Option<String>,
    /// Embedded-mode declaration. `None` in dedicated mode.
    pub embed: Option<EmbedDecl>,
}

/// What a [`MarkerArgs`] holds.
#[verifier::ext_equal]
pub struct MarkerArgsView {
    pub word: Option<Seq<char>>,
    pub embed: Option<EmbedDeclView>,
}

impl DeepView for MarkerArgs {
    type V = MarkerArgsView;

    open spec fn deep_view(&self) -> MarkerArgsView {
        MarkerArgsView {
            word: self.word.deep_view(),
            embed: self.embed.deep_view(),
        }
    }
}

impl Dup for MarkerArgs {
    fn dup(&self) -> (r: Self) {
        MarkerArgs {
            word: self.word.dup(),
            embed: self.embed.dup(),
        }
    }
}

/// The consumer-facing shorthand for every activated extension's
/// anchor attribute. Inference and the coverage gate accept it, the
/// dispatcher swaps it for the extensions' real attrs.
pub const INITIALIZE_SHORTHAND: &'static str = "initialize";

// ── Offsets as expressions ───────────────────────────────────────────────

/// A byte count as an expression.
pub open spec fn literal_expr(n: usize) -> ExprView {
    ExprView { text: text::decimal(n as nat), kind: ExprKindView::Int(n) }
}

/// A byte count as an unsuffixed integer expression.
fn literal_offset_expr(n: usize) -> (r: Expr)
    ensures
        r.deep_view() == literal_expr(n),
{
    Expr { text: text::number(n), kind: ExprKind::Int(n) }
}

/// A resolved carrier path that parsed as `parsed`, as an expression.
pub open spec fn path_lowered(path: Seq<char>, parsed: Result<ExprView, Seq<char>>) -> Result<
    ExprView,
    Seq<char>,
> {
    match parsed {
        Ok(e) => Ok(e),
        Err(e) => Err(
            "resolved carrier path "@ + text::quoted(path) + " is not an expression: "@ + e,
        ),
    }
}

/// A resolved carrier path as an expression.
pub open spec fn path_expr(path: Seq<char>) -> Result<ExprView, Seq<char>> {
    path_lowered(
        path,
        match nodes::rendered_expr(path) {
            Ok(t) => Ok(source::expr_of(t)),
            Err(e) => Err(e),
        },
    )
}

/// A resolved carrier path that parsed as `parsed`, as an expression.
pub fn lower_path(path: &str, parsed: Result<Expr, String>) -> (r: Result<Expr, String>)
    ensures
        model::outcome(r) == path_lowered(path@, model::outcome(parsed)),
{
    match parsed {
        Ok(e) => Ok(e),
        Err(e) => Err(
            "resolved carrier path ".to_owned().concat(text::quote(path).as_str()).concat(
                " is not an expression: ",
            ).concat(e.as_str()),
        ),
    }
}

/// A resolved carrier path (`Cfg::MY_SLOT_OFFSET`) as an expression.
fn const_path_expr(path: &str) -> (r: Result<Expr, String>)
    ensures
        model::outcome(r) == path_expr(path@),
{
    let parsed = match render_expr(path) {
        Ok(t) => Ok(read_expr(t.as_str())),
        Err(e) => Err(e),
    };
    lower_path(path, parsed)
}

/// The message for an offset that reached emission without being resolved.
pub open spec fn unresolved(subject: Seq<char>) -> Seq<char> {
    "`"@ + subject
        + "` reached emission with an unresolved derived offset; `resolve_derived_offsets` must run after discovery"@
}

/// The message for an offset that reached emission without being resolved.
pub fn unresolved_offset(subject: &str) -> (r: String)
    ensures
        r@ == unresolved(subject@),
{
    "`".to_owned().concat(subject).concat(
        "` reached emission with an unresolved derived offset; `resolve_derived_offsets` must run after discovery",
    )
}

/// What [`OffsetSpec::to_expr`] gives.
pub open spec fn offset_expr(offset: OffsetSpecView, subject: Seq<char>) -> Result<
    ExprView,
    Seq<char>,
> {
    match offset {
        OffsetSpecView::Literal(n) => Ok(literal_expr(n)),
        OffsetSpecView::Path(p) => path_expr(p),
        OffsetSpecView::Derived => Err(unresolved(subject)),
    }
}

/// What [`BoundValue::to_expr`] gives: the same lowering embedded offsets take.
pub open spec fn bound_expr(value: BoundValueView) -> Result<ExprView, Seq<char>> {
    match value {
        BoundValueView::Literal(n) => offset_expr(OffsetSpecView::Literal(n), Seq::empty()),
        BoundValueView::Path(p) => offset_expr(OffsetSpecView::Path(p), Seq::empty()),
        BoundValueView::Derived { role } => offset_expr(OffsetSpecView::Derived, role),
    }
}

impl OffsetSpec {
    /// The offset as an expression: the declared literal, or the
    /// carrier's const path once a derivation is resolved. `subject`
    /// names the role or extension for the unresolved-offset message.
    ///
    /// # Errors
    ///
    /// `Err` when the spec is still `Derived`, which means the
    /// resolution pass never ran, or when a resolved path does not
    /// parse as an expression.
    pub fn to_expr(&self, subject: &str) -> (r: Result<Expr, String>)
        ensures
            model::outcome(r) == offset_expr(self.deep_view(), subject@),
    {
        match self {
            OffsetSpec::Literal(n) => Ok(literal_offset_expr(*n)),
            OffsetSpec::Path(p) => const_path_expr(p.as_str()),
            OffsetSpec::Derived => Err(unresolved_offset(subject)),
        }
    }

    /// Whether the offset still has to be derived.
    pub fn is_derived(&self) -> (r: bool)
        ensures
            r == (self.deep_view() is Derived),
    {
        match self {
            OffsetSpec::Derived => true,
            _ => false,
        }
    }
}

impl BoundValue {
    /// The bound value as an expression, by the same lowering embedded
    /// offsets take: the dispatcher's call argument and the marker's
    /// gate kwarg can never render one derivation two ways.
    ///
    /// # Errors
    ///
    /// `Err` when the value is still `Derived`, which means the
    /// resolution pass never ran, or when a resolved path does not
    /// parse as an expression.
    pub fn to_expr(&self) -> (r: Result<Expr, String>)
        ensures
            model::outcome(r) == bound_expr(self.deep_view()),
    {
        match self {
            BoundValue::Literal(n) => Ok(literal_offset_expr(*n)),
            BoundValue::Path(p) => const_path_expr(p.as_str()),
            BoundValue::Derived { role } => Err(unresolved_offset(role.as_str())),
        }
    }
}

// ── Marker arguments ─────────────────────────────────────────────────────

/// A marker without arguments.
pub open spec fn bare_marker() -> MarkerArgsView {
    MarkerArgsView { word: None, embed: None }
}

/// A complaint about the marker `#[ext]`.
pub open spec fn marker_error(ext: Seq<char>, what: Seq<char>) -> Seq<char> {
    "`#["@ + ext + "]`: "@ + what
}

fn marker_message(ext: &str, what: &str) -> (r: String)
    ensures
        r@ == marker_error(ext@, what@),
{
    "`#[".to_owned().concat(ext).concat("]`: ").concat(what)
}

/// What was read of a marker's argument list so far.
pub struct MarkerReading {
    pub word: Option<String>,
    pub role: Option<(String, String)>,
    pub offset: Option<usize>,
}

/// What a [`MarkerReading`] holds.
#[verifier::ext_equal]
pub struct MarkerReadingView {
    pub word: Option<Seq<char>>,
    pub role: Option<(Seq<char>, Seq<char>)>,
    pub offset: Option<usize>,
}

impl DeepView for MarkerReading {
    type V = MarkerReadingView;

    open spec fn deep_view(&self) -> MarkerReadingView {
        MarkerReadingView {
            word: self.word.deep_view(),
            role: self.role.deep_view(),
            offset: self.offset,
        }
    }
}

/// Nothing read yet.
pub open spec fn nothing_read() -> MarkerReadingView {
    MarkerReadingView { word: None, role: None, offset: None }
}

/// What was read with one more argument: a bare mode word, `offset = <int>`, or
/// one `role = account` pair, each at most once.
pub open spec fn marker_arg(r: MarkerReadingView, m: MetaView, ext: Seq<char>) -> Result<
    MarkerReadingView,
    Seq<char>,
> {
    match m.form {
        MetaFormView::Bare => match m.path.ident() {
            None => Err(marker_error(ext, "expected a bare word"@)),
            Some(word) => if r.word is Some {
                Err(marker_error(ext, "more than one bare mode word"@))
            } else {
                Ok(MarkerReadingView { word: Some(word), ..r })
            },
        },
        MetaFormView::Value(value) => match m.path.ident() {
            None => Err(marker_error(ext, "expected `key = value`"@)),
            Some(key) => if key == "offset"@ {
                match value.kind {
                    ExprKindView::Int(n) => if r.offset is Some {
                        Err(marker_error(ext, "more than one `offset`"@))
                    } else {
                        Ok(MarkerReadingView { offset: Some(n), ..r })
                    },
                    ExprKindView::BadInt(e) => Err(marker_error(ext, "bad offset: "@ + e)),
                    _ => Err(marker_error(ext, "`offset` must be an integer literal"@)),
                }
            } else {
                match value.kind {
                    ExprKindView::Name(Some(account)) => if r.role is Some {
                        Err(marker_error(ext, "more than one embedded role declared"@))
                    } else {
                        Ok(MarkerReadingView { role: Some((key, account)), ..r })
                    },
                    _ => Err(
                        marker_error(ext, "`"@ + key + "` must name a consumer account param"@),
                    ),
                }
            },
        },
        MetaFormView::List => Err(
            marker_error(
                ext,
                "unexpected `"@ + (match m.path.ident() {
                    Some(i) => i,
                    None => Seq::empty(),
                }) + "(...)` argument"@,
            ),
        ),
    }
}

/// What was read with the arguments from `from` on.
pub open spec fn marker_args_from(
    metas: Seq<MetaView>,
    from: int,
    r: MarkerReadingView,
    ext: Seq<char>,
) -> Result<MarkerReadingView, Seq<char>>
    decreases metas.len() - from,
{
    if from < 0 || from >= metas.len() {
        Ok(r)
    } else {
        match marker_arg(r, metas[from], ext) {
            Ok(r2) => marker_args_from(metas, from + 1, r2, ext),
            Err(e) => Err(e),
        }
    }
}

/// What the arguments declare. A role without an offset derives it; an offset
/// without a role is an error.
pub open spec fn marker_decl(r: MarkerReadingView, ext: Seq<char>) -> Result<
    MarkerArgsView,
    Seq<char>,
> {
    match (r.role, r.offset) {
        (Some((role, account)), offset) => Ok(
            MarkerArgsView {
                word: r.word,
                embed: Some(
                    EmbedDeclView {
                        role,
                        account,
                        offset: match offset {
                            Some(n) => OffsetSpecView::Literal(n),
                            None => OffsetSpecView::Derived,
                        },
                        initializer: None,
                    },
                ),
            },
        ),
        (None, Some(_)) => Err(
            marker_error(ext, "`offset` requires a `<role> = <account>` kwarg"@),
        ),
        (None, None) => Ok(MarkerArgsView { word: r.word, embed: None }),
    }
}

/// The list of nested attributes in an attribute's arguments, or why there is
/// none.
pub open spec fn nested_metas(a: AttributeView) -> Result<Seq<MetaView>, Seq<char>> {
    match a.form {
        AttrFormView::List(l) => match l.malformed {
            Some(e) => Err(e),
            None => Ok(l.metas),
        },
        AttrFormView::Value(_) => Err(
            "expected parentheses: #["@ + attrs::path_text(a.path) + "(...)]"@,
        ),
        AttrFormView::Bare => Err(
            "expected attribute arguments in parentheses: #["@ + attrs::path_text(a.path)
                + "(...)]"@,
        ),
    }
}

/// What [`parse_marker_args`] reads.
pub open spec fn marker_args(a: AttributeView, ext: Seq<char>) -> Result<
    Option<MarkerArgsView>,
    Seq<char>,
> {
    if !a.path.is(ext) {
        Ok(None)
    } else if a.form is Bare {
        Ok(Some(bare_marker()))
    } else {
        match nested_metas(a) {
            Err(e) => Err("malformed `#["@ + ext + "(...)]` arguments: "@ + e),
            Ok(metas) => match marker_args_from(metas, 0, nothing_read(), ext) {
                Err(e) => Err(e),
                Ok(r) => match marker_decl(r, ext) {
                    Ok(args) => Ok(Some(args)),
                    Err(e) => Err(e),
                },
            },
        }
    }
}

fn get_metas<'a>(a: &'a Attribute) -> (r: Result<&'a Vec<Meta>, String>)
    ensures
        model::outcome(r) == nested_metas(a.deep_view()),
{
    match &a.form {
        AttrForm::List(l) => match &l.malformed {
            Some(e) => Err(e.clone()),
            None => Ok(&l.metas),
        },
        AttrForm::Value(_) => Err(
            "expected parentheses: #[".to_owned().concat(render_path(&a.path).as_str()).concat(
                "(...)]",
            ),
        ),
        AttrForm::Bare => Err(
            "expected attribute arguments in parentheses: #[".to_owned().concat(
                render_path(&a.path).as_str(),
            ).concat("(...)]"),
        ),
    }
}

fn parse_marker_arg(r: MarkerReading, m: &Meta, ext: &str) -> (out: Result<MarkerReading, String>)
    ensures
        model::outcome(out) == marker_arg(r.deep_view(), m.deep_view(), ext@),
{
    match &m.form {
        MetaForm::Bare => match m.path.ident() {
            None => Err(marker_message(ext, "expected a bare word")),
            Some(word) => if r.word.is_some() {
                Err(marker_message(ext, "more than one bare mode word"))
            } else {
                Ok(MarkerReading { word: Some(word), role: r.role, offset: r.offset })
            },
        },
        MetaForm::Value(value) => match m.path.ident() {
            None => Err(marker_message(ext, "expected `key = value`")),
            Some(key) => if same(key.as_str(), "offset") {
                match &value.kind {
                    ExprKind::Int(n) => if r.offset.is_some() {
                        Err(marker_message(ext, "more than one `offset`"))
                    } else {
                        Ok(MarkerReading { word: r.word, role: r.role, offset: Some(*n) })
                    },
                    ExprKind::BadInt(e) => Err(
                        marker_message(ext, "bad offset: ".to_owned().concat(e.as_str()).as_str()),
                    ),
                    _ => Err(marker_message(ext, "`offset` must be an integer literal")),
                }
            } else {
                match &value.kind {
                    ExprKind::Name(Some(account)) => if r.role.is_some() {
                        Err(marker_message(ext, "more than one embedded role declared"))
                    } else {
                        Ok(
                            MarkerReading {
                                word: r.word,
                                role: Some((key, account.clone())),
                                offset: r.offset,
                            },
                        )
                    },
                    _ => Err(
                        marker_message(
                            ext,
                            "`".to_owned().concat(key.as_str()).concat(
                                "` must name a consumer account param",
                            ).as_str(),
                        ),
                    ),
                }
            },
        },
        MetaForm::List => {
            let name: String = match m.path.ident() {
                Some(i) => i,
                None => String::new(),
            };
            Err(
                marker_message(
                    ext,
                    "unexpected `".to_owned().concat(name.as_str()).concat(
                        "(...)` argument",
                    ).as_str(),
                ),
            )
        },
    }
}

fn read_marker_args(metas: &Vec<Meta>, ext: &str) -> (out: Result<MarkerReading, String>)
    ensures
        model::outcome(out) == marker_args_from(metas.deep_view(), 0, nothing_read(), ext@),
{
    let ghost ms = metas.deep_view();
    let mut acc = MarkerReading { word: None, role: None, offset: None };
    let mut i: usize = 0;
    while i < metas.len()
        invariant
            i <= metas.len(),
            ms == metas.deep_view(),
            marker_args_from(ms, 0, nothing_read(), ext@) == marker_args_from(
                ms,
                i as int,
                acc.deep_view(),
                ext@,
            ),
        decreases metas.len() - i,
    {
        assert(ms[i as int] == metas@[i as int].deep_view());
        match parse_marker_arg(acc, &metas[i], ext) {
            Ok(r2) => {
                acc = r2;
            },
            Err(e) => {
                return Err(e);
            },
        }
        i += 1;
    }
    Ok(acc)
}

/// Parse a module marker attr's arguments. Returns `Ok(None)` when the
/// attr is not the extension's marker. `Ok(Some(...))` otherwise.
///
/// Grammar: zero or more comma-separated items, each either a bare
/// ident (mode word) or `key = value`. `offset = <int>` is reserved;
/// exactly one other `role = account` pair may accompany it. A role
/// without `offset` derives the offset from the account struct's
/// `*_slot` field marker. An `offset` without a role, a second role
/// pair, or a non-ident account value are hard errors.
///
/// # Errors
///
/// `Err` on malformed arguments: two mode words, an offset without a
/// role, duplicate kwargs, a non-ident account value, or a
/// non-integer offset. Callers surface it as a compile error.
pub fn parse_marker_args(attr: &Attribute, ext_attr: &str) -> (r: Result<
    Option<MarkerArgs>,
    String,
>)
    ensures
        model::outcome(r) == marker_args(attr.deep_view(), ext_attr@),
{
    if !attr.path.is(ext_attr) {
        return Ok(None);
    }
    if let AttrForm::Bare = &attr.form {
        return Ok(Some(MarkerArgs { word: None, embed: None }));
    }
    let metas = match get_metas(attr) {
        Ok(m) => m,
        Err(e) => {
            return Err(
                "malformed `#[".to_owned().concat(ext_attr).concat("(...)]` arguments: ").concat(
                    e.as_str(),
                ),
            );
        },
    };
    let reading = match read_marker_args(metas, ext_attr) {
        Ok(r) => r,
        Err(e) => {
            return Err(e);
        },
    };
    match (reading.role, reading.offset) {
        (Some((role, account)), offset) => {
            let offset = match offset {
                Some(n) => OffsetSpec::Literal(n),
                None => OffsetSpec::Derived,
            };
            Ok(
                Some(
                    MarkerArgs {
                        word: reading.word,
                        embed: Some(EmbedDecl { role, account, offset, initializer: None }),
                    },
                ),
            )
        },
        (None, Some(_)) => Err(
            marker_message(ext_attr, "`offset` requires a `<role> = <account>` kwarg"),
        ),
        (None, None) => Ok(Some(MarkerArgs { word: reading.word, embed: None })),
    }
}

// ── Candidates ───────────────────────────────────────────────────────────

/// Whether a module attribute of this name could be an extension marker: it is
/// none of the built-in and framework ones.
pub open spec fn could_mark(name: Seq<char>) -> bool {
    &&& name != "lez_program"@
    &&& name != "doc"@
    &&& name != "cfg"@
    &&& name != "cfg_attr"@
    &&& name != "allow"@
    &&& name != "deny"@
    &&& name != "warn"@
    &&& name != "expect"@
    &&& name != "forbid"@
    &&& name != "deprecated"@
}

/// Whether a module attribute of this name could be an extension marker.
pub fn is_marker_candidate(ident: &str) -> (r: bool)
    ensures
        r == could_mark(ident@),
{
    !(same(ident, "lez_program") || same(ident, "doc") || same(ident, "cfg") || same(
        ident,
        "cfg_attr",
    ) || same(ident, "allow") || same(ident, "deny") || same(ident, "warn") || same(
        ident,
        "expect",
    ) || same(ident, "forbid") || same(ident, "deprecated"))
}

/// Whether an attribute could be an extension marker. A qualified one always
/// could.
pub open spec fn may_mark(a: AttributeView) -> bool {
    match a.path.ident() {
        Some(name) => could_mark(name),
        None => true,
    }
}

/// True when the module carries at least one attribute that could be an
/// extension marker. Built-in and framework attrs are excluded. Unknown
/// or path-qualified attrs count as candidates: the guard may only skip
/// work when skipping is provably free.
pub fn has_extension_marker_candidates(mod_attrs: &Vec<Attribute>) -> (r: bool)
    ensures
        r == exists|i: int|
            0 <= i < mod_attrs.len() && may_mark(#[trigger] mod_attrs.deep_view()[i]),
{
    let mut i: usize = 0;
    while i < mod_attrs.len()
        invariant
            i <= mod_attrs.len(),
            forall|j: int| 0 <= j < i ==> !may_mark(#[trigger] mod_attrs.deep_view()[j]),
        decreases mod_attrs.len() - i,
    {
        let candidate = match mod_attrs[i].path.ident() {
            Some(name) => is_marker_candidate(name.as_str()),
            None => true,
        };
        if candidate {
            assert(may_mark(mod_attrs.deep_view()[i as int]));
            return true;
        }
        i += 1;
    }
    false
}

/// The names on a module that could be extension markers, in order.
pub open spec fn candidates(attrs: Seq<AttributeView>) -> Seq<Seq<char>>
    decreases attrs.len(),
{
    if attrs.len() == 0 {
        Seq::empty()
    } else {
        let before = candidates(attrs.drop_last());
        match attrs.last().path.ident() {
            Some(name) => if could_mark(name) {
                before.push(name)
            } else {
                before
            },
            None => before,
        }
    }
}

/// Idents on the module that could be extension markers, by the same
/// filter the pre-check uses.
pub fn candidate_marker_names(mod_attrs: &Vec<Attribute>) -> (r: Vec<String>)
    ensures
        r.deep_view() == candidates(mod_attrs.deep_view()),
{
    let ghost all = mod_attrs.deep_view();
    let mut out: Vec<String> = none();
    let mut i: usize = 0;
    assert(all.take(0) =~= Seq::empty());
    while i < mod_attrs.len()
        invariant
            i <= mod_attrs.len(),
            all == mod_attrs.deep_view(),
            out.deep_view() == candidates(all.take(i as int)),
        decreases mod_attrs.len() - i,
    {
        assert(all.take(i + 1).drop_last() =~= all.take(i as int));
        assert(all.take(i + 1).last() == mod_attrs@[i as int].deep_view());
        if let Some(name) = mod_attrs[i].path.ident() {
            if is_marker_candidate(name.as_str()) {
                put(&mut out, name);
            }
        }
        i += 1;
    }
    assert(all.take(i as int) =~= all);
    out
}

// ── Anchors ──────────────────────────────────────────────────────────────

/// A complaint about the extension crate `name`.
pub open spec fn extension_error(name: Seq<char>, what: Seq<char>) -> Seq<char> {
    "extension `"@ + name + "`: "@ + what
}

fn extension_message(name: &str, what: &str) -> (r: String)
    ensures
        r@ == extension_error(name@, what@),
{
    "extension `".to_owned().concat(name).concat("`: ").concat(what)
}

/// The attribute by which a fn anchors an embed: the anchor attribute or the
/// shorthand, but not both.
pub open spec fn anchor_on(f: ItemFnView, anchor: Seq<char>, name: Seq<char>) -> Result<
    Option<AttributeView>,
    Seq<char>,
> {
    match (
        attrs::first_ending(f.attrs, anchor, 0),
        attrs::first_ending(f.attrs, "initialize"@, 0),
    ) {
        (Some(_), Some(_)) => Err(
            extension_error(
                name,
                "fn `"@ + f.name + "` carries both #["@ + anchor
                    + "] and #[initialize]; one spelling per fn"@,
            ),
        ),
        (Some(i), None) => Ok(Some(f.attrs[i])),
        (None, Some(i)) => Ok(Some(f.attrs[i])),
        (None, None) => Ok(None),
    }
}

/// The anchoring fns of a module from item `from` on, behind `out`.
pub open spec fn anchors_from(
    items: Seq<ItemView>,
    anchor: Seq<char>,
    name: Seq<char>,
    from: int,
    out: Seq<(ItemFnView, AttributeView)>,
) -> Result<Seq<(ItemFnView, AttributeView)>, Seq<char>>
    decreases items.len() - from,
{
    if from < 0 || from >= items.len() {
        Ok(out)
    } else {
        match items[from] {
            ItemView::Fn(f) => match anchor_on(f, anchor, name) {
                Err(e) => Err(e),
                Ok(Some(a)) => anchors_from(items, anchor, name, from + 1, out.push((f, a))),
                Ok(None) => anchors_from(items, anchor, name, from + 1, out),
            },
            _ => anchors_from(items, anchor, name, from + 1, out),
        }
    }
}

/// The value of the first `role = <param>` argument from `from` on.
pub open spec fn anchor_kwarg_from(
    metas: Seq<MetaView>,
    anchor: Seq<char>,
    role: Seq<char>,
    from: int,
) -> Result<Option<Seq<char>>, Seq<char>>
    decreases metas.len() - from,
{
    if from < 0 || from >= metas.len() {
        Ok(None)
    } else {
        match metas[from].form {
            MetaFormView::Value(value) => if metas[from].path.is(role) {
                match value.kind {
                    ExprKindView::Name(Some(param)) => Ok(Some(param)),
                    _ => Err(
                        "#["@ + anchor + "("@ + role
                            + " = ...)]: the value must be a plain param name"@,
                    ),
                }
            } else {
                anchor_kwarg_from(metas, anchor, role, from + 1)
            },
            _ => anchor_kwarg_from(metas, anchor, role, from + 1),
        }
    }
}

/// What [`anchor_kwarg`] reads.
pub open spec fn anchor_param(a: AttributeView, anchor: Seq<char>, role: Seq<char>) -> Result<
    Option<Seq<char>>,
    Seq<char>,
> {
    if a.form is Bare {
        Ok(None)
    } else {
        match nested_metas(a) {
            Err(e) => Err("`#["@ + anchor + "]`: unparsable arguments: "@ + e),
            Ok(metas) => anchor_kwarg_from(metas, anchor, role, 0),
        }
    }
}

/// The names of the parameters a fn creates: those with `#[account(init)]`.
pub open spec fn created(params: Seq<(Seq<char>, ParamView)>) -> Seq<Seq<char>>
    decreases params.len(),
{
    if params.len() == 0 {
        Seq::empty()
    } else {
        let before = created(params.drop_last());
        if params.last().1.has_flag("init"@) {
            before.push(params.last().0)
        } else {
            before
        }
    }
}

/// The account an anchoring fn embeds into: the one its kwarg names, which it
/// must create, or the only one it creates.
pub open spec fn anchor_account(
    kwarg: Option<Seq<char>>,
    inits: Seq<Seq<char>>,
    anchor: Seq<char>,
    role: Seq<char>,
    func: Seq<char>,
    name: Seq<char>,
) -> Result<Seq<char>, Seq<char>> {
    match kwarg {
        Some(param) => if inits.contains(param) {
            Ok(param)
        } else {
            Err(
                extension_error(
                    name,
                    "#["@ + anchor + "("@ + role + " = "@ + param + ")] on fn `"@ + func
                        + "` names no #[account(init)] param; the embedding account must be created by this fn"@,
                ),
            )
        },
        None => if inits.len() == 1 {
            Ok(inits[0])
        } else if inits.len() == 0 {
            Err(
                extension_error(
                    name,
                    "#["@ + anchor + "] on fn `"@ + func
                        + "` has no #[account(init)] param; the anchor fn creates the embedding account"@,
                ),
            )
        } else {
            Err(
                extension_error(
                    name,
                    "#["@ + anchor + "] on fn `"@ + func + "` has several #[account(init)] params ("@
                        + text::listed(inits, 0) + "); name the embedding account with #["@ + anchor
                        + "("@ + role + " = <param>)]"@,
                ),
            )
        },
    }
}

/// The embed one anchoring fn declares.
pub open spec fn anchored_embed(
    f: ItemFnView,
    a: AttributeView,
    anchor: Seq<char>,
    role: Seq<char>,
    name: Seq<char>,
) -> Result<Option<EmbedDeclView>, Seq<char>> {
    let shorthand = a.path.ends("initialize"@);
    if shorthand && !(a.form is Bare) {
        Err(
            extension_error(
                name,
                "#[initialize] takes no arguments; to name the embedding account use #["@ + anchor
                    + "("@ + role + " = <param>)]"@,
            ),
        )
    } else {
        match if shorthand {
            Ok(None)
        } else {
            anchor_param(a, anchor, role)
        } {
            Err(e) => Err(e),
            Ok(kwarg) => match anchor_account(
                kwarg,
                created(attrs::named_params(f.inputs)),
                anchor,
                role,
                f.name,
                name,
            ) {
                Err(e) => Err(e),
                Ok(account) => Ok(
                    Some(
                        EmbedDeclView {
                            role,
                            account,
                            offset: OffsetSpecView::Derived,
                            initializer: Some(anchor),
                        },
                    ),
                ),
            },
        }
    }
}

/// The names of the anchoring fns.
pub open spec fn anchor_names(anchors: Seq<(ItemFnView, AttributeView)>) -> Seq<Seq<char>> {
    anchors.map_values(|x: (ItemFnView, AttributeView)| x.0.name)
}

/// What [`infer_anchor_embed`] infers: no embed without an anchoring fn, and an
/// error with more than one.
pub open spec fn inferred_embed(
    items: Seq<ItemView>,
    anchor: Seq<char>,
    role: Seq<char>,
    name: Seq<char>,
) -> Result<Option<EmbedDeclView>, Seq<char>> {
    match anchors_from(items, anchor, name, 0, Seq::empty()) {
        Err(e) => Err(e),
        Ok(found) => if found.len() == 0 {
            Ok(None)
        } else if found.len() == 1 {
            anchored_embed(found[0].0, found[0].1, anchor, role, name)
        } else {
            Err(
                extension_error(
                    name,
                    "#["@ + anchor + "] appears on "@ + text::decimal(found.len()) + " fns ("@
                        + text::listed(anchor_names(found), 0)
                        + "); exactly one fn may anchor the embed"@,
                ),
            )
        },
    }
}

fn find_anchor(f: &ItemFn, anchor_attr: &str, crate_name: &str) -> (r: Result<
    Option<Attribute>,
    String,
>)
    ensures
        model::outcome(r) == anchor_on(f.deep_view(), anchor_attr@, crate_name@),
{
    let explicit = find_ending(&f.attrs, anchor_attr);
    let shorthand = find_ending(&f.attrs, "initialize");
    match (explicit, shorthand) {
        (Some(_), Some(_)) => Err(
            extension_message(
                crate_name,
                "fn `".to_owned().concat(f.name.as_str()).concat("` carries both #[").concat(
                    anchor_attr,
                ).concat("] and #[initialize]; one spelling per fn").as_str(),
            ),
        ),
        (Some(i), None) => Ok(Some(f.attrs[i].dup())),
        (None, Some(i)) => Ok(Some(f.attrs[i].dup())),
        (None, None) => Ok(None),
    }
}

fn find_anchors(mod_items: &Vec<Item>, anchor_attr: &str, crate_name: &str) -> (r: Result<
    Vec<(ItemFn, Attribute)>,
    String,
>)
    ensures
        model::outcome(r) == anchors_from(
            mod_items.deep_view(),
            anchor_attr@,
            crate_name@,
            0,
            Seq::empty(),
        ),
{
    let ghost its = mod_items.deep_view();
    let mut out: Vec<(ItemFn, Attribute)> = none();
    let mut i: usize = 0;
    while i < mod_items.len()
        invariant
            i <= mod_items.len(),
            its == mod_items.deep_view(),
            anchors_from(its, anchor_attr@, crate_name@, 0, Seq::empty()) == anchors_from(
                its,
                anchor_attr@,
                crate_name@,
                i as int,
                out.deep_view(),
            ),
        decreases mod_items.len() - i,
    {
        assert(its[i as int] == mod_items@[i as int].deep_view());
        if let Item::Fn(f) = &mod_items[i] {
            match find_anchor(f, anchor_attr, crate_name) {
                Err(e) => {
                    return Err(e);
                },
                Ok(Some(a)) => {
                    put(&mut out, (f.dup(), a));
                },
                Ok(None) => {},
            }
        }
        i += 1;
    }
    Ok(out)
}

/// The located anchor attr's optional `<role> = <param>` kwarg. Other
/// kwargs pass through untouched, a gate machinery owns them.
fn anchor_kwarg(attr: &Attribute, anchor_attr: &str, role: &str) -> (r: Result<
    Option<String>,
    String,
>)
    ensures
        model::outcome(r) == anchor_param(attr.deep_view(), anchor_attr@, role@),
{
    if let AttrForm::Bare = &attr.form {
        return Ok(None);
    }
    let metas = match get_metas(attr) {
        Ok(m) => m,
        Err(e) => {
            return Err(
                "`#[".to_owned().concat(anchor_attr).concat("]`: unparsable arguments: ").concat(
                    e.as_str(),
                ),
            );
        },
    };
    find_anchor_kwarg(metas, anchor_attr, role)
}

fn find_anchor_kwarg(metas: &Vec<Meta>, anchor_attr: &str, role: &str) -> (r: Result<
    Option<String>,
    String,
>)
    ensures
        model::outcome(r) == anchor_kwarg_from(metas.deep_view(), anchor_attr@, role@, 0),
{
    let ghost ms = metas.deep_view();
    let mut i: usize = 0;
    while i < metas.len()
        invariant
            i <= metas.len(),
            ms == metas.deep_view(),
            anchor_kwarg_from(ms, anchor_attr@, role@, 0) == anchor_kwarg_from(
                ms,
                anchor_attr@,
                role@,
                i as int,
            ),
        decreases metas.len() - i,
    {
        assert(ms[i as int] == metas@[i as int].deep_view());
        if let MetaForm::Value(value) = &metas[i].form {
            if metas[i].path.is(role) {
                return match &value.kind {
                    ExprKind::Name(Some(param)) => Ok(Some(param.clone())),
                    _ => Err(
                        "#[".to_owned().concat(anchor_attr).concat("(").concat(role).concat(
                            " = ...)]: the value must be a plain param name",
                        ),
                    ),
                };
            }
        }
        i += 1;
    }
    Ok(None)
}

/// The names of the parameters a fn creates.
pub fn init_params(func: &ItemFn) -> (r: Vec<String>)
    ensures
        r.deep_view() == created(attrs::named_params(func.deep_view().inputs)),
{
    let params = typed_params(func);
    let ghost ps = params.deep_view();
    let mut out: Vec<String> = none();
    let mut i: usize = 0;
    assert(ps.take(0) =~= Seq::empty());
    while i < params.len()
        invariant
            i <= params.len(),
            ps == params.deep_view(),
            out.deep_view() == created(ps.take(i as int)),
        decreases params.len() - i,
    {
        assert(ps.take(i + 1).drop_last() =~= ps.take(i as int));
        assert(ps.take(i + 1).last() == params@[i as int].deep_view());
        if param_has_init(&params[i].1) {
            put(&mut out, params[i].0.clone());
        }
        i += 1;
    }
    assert(ps.take(i as int) =~= ps);
    out
}

fn choose_account(
    kwarg: Option<String>,
    inits: &Vec<String>,
    anchor_attr: &str,
    role: &str,
    func: &str,
    crate_name: &str,
) -> (r: Result<String, String>)
    ensures
        model::outcome(r) == anchor_account(
            kwarg.deep_view(),
            inits.deep_view(),
            anchor_attr@,
            role@,
            func@,
            crate_name@,
        ),
{
    match kwarg {
        Some(param) => if text::holds(inits, param.as_str()) {
            Ok(param)
        } else {
            Err(
                extension_message(
                    crate_name,
                    "#[".to_owned().concat(anchor_attr).concat("(").concat(role).concat(
                        " = ",
                    ).concat(param.as_str()).concat(")] on fn `").concat(func).concat(
                        "` names no #[account(init)] param; the embedding account must be created by this fn",
                    ).as_str(),
                ),
            )
        },
        None => if inits.len() == 1 {
            Ok(inits[0].clone())
        } else if inits.len() == 0 {
            Err(
                extension_message(
                    crate_name,
                    "#[".to_owned().concat(anchor_attr).concat("] on fn `").concat(func).concat(
                        "` has no #[account(init)] param; the anchor fn creates the embedding account",
                    ).as_str(),
                ),
            )
        } else {
            Err(
                extension_message(
                    crate_name,
                    "#[".to_owned().concat(anchor_attr).concat("] on fn `").concat(func).concat(
                        "` has several #[account(init)] params (",
                    ).concat(text::comma_list(inits).as_str()).concat(
                        "); name the embedding account with #[",
                    ).concat(anchor_attr).concat("(").concat(role).concat(" = <param>)]").as_str(),
                ),
            )
        },
    }
}

/// Infer an anchored extension's embedded declaration from the module.
///
/// The anchor attr marks the consumer fn that creates the embedding
/// account. Its optional `<role> = <param>` kwarg names the account
/// among several `#[account(init)]` params; with exactly one init
/// param the kwarg may be omitted. No fn carrying the attr means
/// dedicated mode.
///
/// # Errors
///
/// `Err` when two fns carry the anchor, when the kwarg names anything
/// but an init param, or when several init params exist and no kwarg
/// picks one. Callers surface it as a compile error.
pub fn infer_anchor_embed(
    mod_items: &Vec<Item>,
    anchor_attr: &str,
    role: &str,
    crate_name: &str,
) -> (r: Result<Option<EmbedDecl>, String>)
    ensures
        model::outcome(r) == inferred_embed(
            mod_items.deep_view(),
            anchor_attr@,
            role@,
            crate_name@,
        ),
{
    let anchors = match find_anchors(mod_items, anchor_attr, crate_name) {
        Ok(a) => a,
        Err(e) => {
            return Err(e);
        },
    };
    if anchors.len() == 0 {
        return Ok(None);
    }
    if anchors.len() > 1 {
        let names = names_of(&anchors);
        return Err(
            extension_message(
                crate_name,
                "#[".to_owned().concat(anchor_attr).concat("] appears on ").concat(
                    text::number(anchors.len()).as_str(),
                ).concat(" fns (").concat(text::comma_list(&names).as_str()).concat(
                    "); exactly one fn may anchor the embed",
                ).as_str(),
            ),
        );
    }
    assert(anchors.deep_view()[0] == anchors@[0].deep_view());
    let func = &anchors[0].0;
    let attr = &anchors[0].1;
    let is_shorthand = attr_is(attr, "initialize");
    let bare = match &attr.form {
        AttrForm::Bare => true,
        _ => false,
    };
    if is_shorthand && !bare {
        return Err(
            extension_message(
                crate_name,
                "#[initialize] takes no arguments; to name the embedding account use #[".to_owned().concat(
                    anchor_attr,
                ).concat("(").concat(role).concat(" = <param>)]").as_str(),
            ),
        );
    }
    let kwarg: Option<String> = if is_shorthand {
        None
    } else {
        match anchor_kwarg(attr, anchor_attr, role) {
            Ok(k) => k,
            Err(e) => {
                return Err(e);
            },
        }
    };
    let inits = init_params(func);
    match choose_account(kwarg, &inits, anchor_attr, role, func.name.as_str(), crate_name) {
        Ok(account) => Ok(
            Some(
                EmbedDecl {
                    role: role.to_owned(),
                    account,
                    offset: OffsetSpec::Derived,
                    initializer: Some(anchor_attr.to_owned()),
                },
            ),
        ),
        Err(e) => Err(e),
    }
}

fn names_of(anchors: &Vec<(ItemFn, Attribute)>) -> (r: Vec<String>)
    ensures
        r.deep_view() == anchor_names(anchors.deep_view()),
{
    let mut out: Vec<String> = Vec::new();
    let mut i: usize = 0;
    while i < anchors.len()
        invariant
            i <= anchors.len(),
            out.len() == i,
            forall|j: int| 0 <= j < i ==> (#[trigger] out@[j])@ == anchors@[j].0.name@,
        decreases anchors.len() - i,
    {
        out.push(anchors[i].0.name.clone());
        i += 1;
    }
    assert(out.deep_view() =~= anchor_names(anchors.deep_view()));
    out
}

} // verus!
