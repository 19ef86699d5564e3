//! Readers for `[package.metadata.spel]` sections.
//!
//! Absent sections are `Ok(None)` / `Ok(empty)`: a normal crate. A
//! present but malformed section is a hard `Err`; a broken extension
//! declaration must never degrade to a program silently missing its
//! extension surface.
use crate::disk;
use crate::disk::{Contents, ContentsView, Disk, DiskView, Query, QueryView};
use crate::extension::{
    InjectAccount, InjectAccountView, InjectSeed, InjectSeedView, InjectSpec, InjectSpecView,
    WrapInstructions, WrapInstructionsView,
};
use crate::model;
use crate::model::{none, put, single, Dup};
use crate::path;
use crate::path::{DirPath, DirPathView};
use crate::text;
use crate::value;
use crate::value::{read_toml, Value, ValueView};
use vstd::prelude::*;

verus! {

/// One `[[package.metadata.spel.bound_args]]` entry: a trailing fn
/// param the framework fills at the dispatch call site from a module
/// marker kwarg, never from the transaction. Excluded from the IDL by
/// construction: discovery strips the param from the collected fn.
/// Trailing is enforced, in bound_args block order: the dispatcher
/// appends the values after the transaction args, so any other
/// position is a hard error at discovery.
#[derive(Debug, PartialEq, Eq)]
pub struct BoundArg {
    /// Trailing fn param name to strip and fill.
    pub arg: String,
    /// Module marker kwarg the value comes from. Two shapes:
    /// - `"offset"` reads the self-marker's own `offset` kwarg
    ///   (dedicated-mode fallback via `default`).
    /// - `"<marker>::<kwarg>"` reads another marker's kwarg from the
    ///   same module. Used when an extension depends on a peer
    ///   extension's compile-time value, such as freeze-authority
    ///   binding `admin_offset` from `admin_authority::offset`.
    pub from: String,
    /// Value when the referenced marker or kwarg is absent. `None`
    /// means unresolvable references are a hard error at the consumer's
    /// build. `Some(v)` supplies a fallback (typically `0` for the
    /// dedicated-mode offset).
    pub default: Option<usize>,
}

/// What a [`BoundArg`] holds.
#[verifier::ext_equal]
pub struct BoundArgView {
    pub arg: Seq<char>,
    pub from: Seq<char>,
    pub default: Option<usize>,
}

impl DeepView for BoundArg {
    type V = BoundArgView;

    open spec fn deep_view(&self) -> BoundArgView {
        BoundArgView {
            arg: self.arg@,
            from: self.from@,
            default: self.default.deep_view(),
        }
    }
}

impl Dup for BoundArg {
    fn dup(&self) -> (r: Self) {
        BoundArg {
            arg: self.arg.clone(),
            from: self.from.clone(),
            default: self.default,
        }
    }
}

/// An extension's embed anchor: `embedded.anchor_attr` names the
/// consumer-side attribute whose fn creates the embedding account,
/// `embedded.anchor_role` the inject role it binds. An anchored
/// extension also declares `state_type`, any consumer may put it in
/// embedded mode.
#[derive(Debug, PartialEq, Eq)]
pub struct EmbedAnchor {
    pub attr: String,
    pub role: String,
}

/// What a [`EmbedAnchor`] holds.
#[verifier::ext_equal]
pub struct EmbedAnchorView {
    pub attr: Seq<char>,
    pub role: Seq<char>,
}

impl DeepView for EmbedAnchor {
    type V = EmbedAnchorView;

    open spec fn deep_view(&self) -> EmbedAnchorView {
        EmbedAnchorView {
            attr: self.attr@,
            role: self.role@,
        }
    }
}

impl Dup for EmbedAnchor {
    fn dup(&self) -> (r: Self) {
        EmbedAnchor {
            attr: self.attr.clone(),
            role: self.role.clone(),
        }
    }
}

/// What `[package.metadata.spel.embedded]` declares: how the extension
/// behaves when a consumer embeds its slot.
#[derive(Debug, PartialEq, Eq)]
pub struct EmbeddedMeta {
    /// Discovered instructions the framework must not emit in embedded
    /// mode. The slot is born initialized by the consumer's own
    /// account-creating instruction, so the extension's initializer has
    /// no role to play there.
    pub skip: Vec<String>,
    /// Path of the state type occupying the embedded window, e.g.
    /// `admin_authority::AdminConfig`. The program macro emits window
    /// collision asserts through `<state_type as FixedBorshSize>::SIZE`,
    /// so the type must implement the trait. Required in embedded mode,
    /// unused in dedicated mode.
    pub state_type: Option<String>,
    /// The inferred-embed anchor, when the extension declares one. The
    /// half-declared forms are rejected at parse, so a populated anchor
    /// is always a complete one.
    pub anchor: Option<EmbedAnchor>,
}

/// What a [`EmbeddedMeta`] holds.
#[verifier::ext_equal]
pub struct EmbeddedMetaView {
    pub skip: Seq<Seq<char>>,
    pub state_type: Option<Seq<char>>,
    pub anchor: Option<EmbedAnchorView>,
}

impl DeepView for EmbeddedMeta {
    type V = EmbeddedMetaView;

    open spec fn deep_view(&self) -> EmbeddedMetaView {
        EmbeddedMetaView {
            skip: self.skip.deep_view(),
            state_type: self.state_type.deep_view(),
            anchor: self.anchor.deep_view(),
        }
    }
}

impl Dup for EmbeddedMeta {
    fn dup(&self) -> (r: Self) {
        EmbeddedMeta {
            skip: self.skip.dup(),
            state_type: self.state_type.dup(),
            anchor: self.anchor.dup(),
        }
    }
}

// ── Sections ─────────────────────────────────────────────────────────────

/// `[package.metadata.spel]` of a manifest.
pub open spec fn spel_section(manifest: ValueView) -> Option<ValueView> {
    match manifest.field("package"@) {
        Some(p) => match p.field("metadata"@) {
            Some(m) => m.field("spel"@),
            None => None,
        },
        None => None,
    }
}

/// The part of `[package.metadata.spel]` called `key`.
pub open spec fn spel_key(manifest: ValueView, key: Seq<char>) -> Option<ValueView> {
    match spel_section(manifest) {
        Some(s) => s.field(key),
        None => None,
    }
}

fn get_spel<'a>(manifest: &'a Value) -> (r: Option<&'a Value>)
    ensures
        r.deep_view() == spel_section(manifest.deep_view()),
{
    match manifest.get("package") {
        Some(p) => match p.get("metadata") {
            Some(m) => m.get("spel"),
            None => None,
        },
        None => None,
    }
}

fn get_spel_key<'a>(manifest: &'a Value, key: &str) -> (r: Option<&'a Value>)
    ensures
        r.deep_view() == spel_key(manifest.deep_view(), key@),
{
    match get_spel(manifest) {
        Some(s) => s.get(key),
        None => None,
    }
}

/// The message for malformed metadata of the crate at `dir`.
pub open spec fn malformed(dir: DirPathView, what: Seq<char>) -> Seq<char> {
    "malformed [package.metadata.spel] in "@ + path::shown(path::joined(dir, "Cargo.toml"@))
        + ": "@ + what
}

/// The uniform malformed-metadata message: every reader's errors share
/// one prefix so callers and tests can rely on its shape.
pub fn malformed_metadata(crate_dir: &DirPath, what: &str) -> (r: String)
    ensures
        r@ == malformed(crate_dir.deep_view(), what@),
{
    "malformed [package.metadata.spel] in ".to_owned().concat(
        crate_dir.join("Cargo.toml").display().as_str(),
    ).concat(": ").concat(what)
}

/// The texts of a list, from element `from` on, behind `out`; none if one of
/// them is no text.
pub open spec fn texts_from(arr: Seq<ValueView>, from: int, out: Seq<Seq<char>>) -> Option<
    Seq<Seq<char>>,
>
    decreases arr.len() - from,
{
    if from < 0 || from >= arr.len() {
        Some(out)
    } else {
        match arr[from].text() {
            Some(s) => texts_from(arr, from + 1, out.push(s)),
            None => None,
        }
    }
}

fn read_texts(arr: &Vec<Value>) -> (r: Option<Vec<String>>)
    ensures
        r.deep_view() == texts_from(arr.deep_view(), 0, Seq::empty()),
{
    let mut out: Vec<String> = none();
    let mut i: usize = 0;
    while i < arr.len()
        invariant
            i <= arr.len(),
            texts_from(arr.deep_view(), 0, Seq::empty()) == texts_from(
                arr.deep_view(),
                i as int,
                out.deep_view(),
            ),
        decreases arr.len() - i,
    {
        assert(arr.deep_view()[i as int] == arr@[i as int].deep_view());
        match arr[i].as_str() {
            Some(s) => put(&mut out, s),
            None => {
                return None;
            },
        }
        i += 1;
    }
    Some(out)
}

// ── Bound args ───────────────────────────────────────────────────────────

/// Whether every character of a name can stand in an identifier, at its place: a
/// digit cannot stand first.
pub open spec fn ident_chars(s: Seq<char>) -> bool {
    &&& forall|i: int|
        0 <= i < s.len() ==> (#[trigger] s[i] == '_' || 'a' <= s[i] <= 'z' || 'A' <= s[i] <= 'Z'
            || '0' <= s[i] <= '9')
    &&& s.len() > 0 ==> !('0' <= s[0] <= '9')
}

/// Why one of the segments from `from` on cannot stand in `bound_args.from`.
pub open spec fn segment_error(
    whole: Seq<char>,
    segments: Seq<Seq<char>>,
    from: int,
) -> Result<(), Seq<char>>
    decreases segments.len() - from,
{
    if from < 0 || from >= segments.len() {
        Ok(())
    } else if segments[from].len() == 0 {
        Err(
            "bound_args.from `"@ + whole
                + "` has an empty segment; expected `<kwarg>` or `<marker>::<kwarg>`"@,
        )
    } else if !ident_chars(segments[from]) {
        Err(
            "bound_args.from `"@ + whole + "` segment `"@ + segments[from]
                + "` is not a valid identifier"@,
        )
    } else {
        segment_error(whole, segments, from + 1)
    }
}

/// Whether a `from` string has one of its two shapes, or why not.
pub open spec fn from_shape(from: Seq<char>) -> Result<(), Seq<char>> {
    let segments = text::pieces(from);
    if segments.len() > 2 {
        Err(
            "bound_args.from `"@ + from
                + "` has more than one `::`; expected `<kwarg>` or `<marker>::<kwarg>`"@,
        )
    } else {
        segment_error(from, segments, 0)
    }
}

fn has_ident_chars(s: &str) -> (r: bool)
    ensures
        r == ident_chars(s@),
{
    let n: usize = s.unicode_len();
    if n > 0 {
        let first: char = s.get_char(0);
        if '0' <= first && first <= '9' {
            return false;
        }
    }
    let mut i: usize = 0;
    while i < n
        invariant
            i <= n,
            n == s@.len(),
            n > 0 ==> !('0' <= s@[0] <= '9'),
            forall|j: int|
                0 <= j < i ==> (#[trigger] s@[j] == '_' || 'a' <= s@[j] <= 'z' || 'A' <= s@[j]
                    <= 'Z' || '0' <= s@[j] <= '9'),
        decreases n - i,
    {
        let c: char = s.get_char(i);
        if !(c == '_' || ('a' <= c && c <= 'z') || ('A' <= c && c <= 'Z') || ('0' <= c && c
            <= '9')) {
            assert(s@[i as int] == c);
            return false;
        }
        i += 1;
    }
    true
}

/// Validate the `from` string is either a bare kwarg name (`"offset"`)
/// or a two-segment cross-marker reference (`"admin_authority::offset"`).
/// Rejects empty segments, more than one `::`, and non-identifier
/// characters that could not be a Rust ident.
#[verifier::loop_isolation(false)]
pub fn validate_bound_from_shape(from: &str) -> (r: Result<(), String>)
    ensures
        model::verdict(r) == from_shape(from@),
{
    let segments = text::split_all(from);
    if segments.len() > 2 {
        return Err(
            "bound_args.from `".to_owned().concat(from).concat(
                "` has more than one `::`; expected `<kwarg>` or `<marker>::<kwarg>`",
            ),
        );
    }
    let ghost segs = segments.deep_view();
    let mut i: usize = 0;
    while i < segments.len()
        invariant
            i <= segments.len(),
            segment_error(from@, segs, 0) == segment_error(from@, segs, i as int),
        decreases segments.len() - i,
    {
        let seg = segments[i].as_str();
        assert(segs[i as int] == seg@);
        if seg.is_empty() {
            return Err(
                "bound_args.from `".to_owned().concat(from).concat(
                    "` has an empty segment; expected `<kwarg>` or `<marker>::<kwarg>`",
                ),
            );
        }
        if !has_ident_chars(seg) {
            return Err(
                "bound_args.from `".to_owned().concat(from).concat("` segment `").concat(
                    seg,
                ).concat("` is not a valid identifier"),
            );
        }
        i += 1;
    }
    Ok(())
}

/// The default of a bound arg: absent, a number, or the reason it is refused.
pub open spec fn bound_default(b: ValueView, dir: DirPathView) -> Result<Option<usize>, Seq<char>> {
    match b.field("default"@) {
        None => Ok(None),
        Some(v) => match v {
            ValueView::Int(n) => if 0 <= n <= usize::MAX {
                Ok(Some(n as usize))
            } else {
                Err(malformed(dir, "bound_args.default must not be negative"@))
            },
            _ => Err(malformed(dir, "bound_args.default must be an integer"@)),
        },
    }
}

/// One bound arg block.
pub open spec fn bound_arg(b: ValueView, dir: DirPathView) -> Result<BoundArgView, Seq<char>> {
    match b.text_at("arg"@) {
        None => Err(malformed(dir, "bound_args.arg must be a string"@)),
        Some(arg) => match b.text_at("from"@) {
            None => Err(malformed(dir, "bound_args.from must be a string"@)),
            Some(from) => match from_shape(from) {
                Err(reason) => Err(malformed(dir, reason)),
                Ok(_) => match bound_default(b, dir) {
                    Err(e) => Err(e),
                    Ok(default) => Ok(BoundArgView { arg, from, default }),
                },
            },
        },
    }
}

/// The bound arg blocks from `from` on, behind `out`.
pub open spec fn bound_args_from(
    arr: Seq<ValueView>,
    dir: DirPathView,
    from: int,
    out: Seq<BoundArgView>,
) -> Result<Seq<BoundArgView>, Seq<char>>
    decreases arr.len() - from,
{
    if from < 0 || from >= arr.len() {
        Ok(out)
    } else {
        match bound_arg(arr[from], dir) {
            Ok(b) => bound_args_from(arr, dir, from + 1, out.push(b)),
            Err(e) => Err(e),
        }
    }
}

/// The `bound_args` of a manifest.
pub open spec fn bound_args(manifest: ValueView, dir: DirPathView) -> Result<
    Seq<BoundArgView>,
    Seq<char>,
> {
    match spel_key(manifest, "bound_args"@) {
        None => Ok(Seq::empty()),
        Some(b) => match b.elements() {
            None => Err(malformed(dir, "bound_args must be an array of tables"@)),
            Some(arr) => bound_args_from(arr, dir, 0, Seq::empty()),
        },
    }
}

fn read_bound_default(b: &Value, crate_dir: &DirPath) -> (r: Result<Option<usize>, String>)
    ensures
        model::outcome(r) == bound_default(b.deep_view(), crate_dir.deep_view()),
{
    match b.get("default") {
        None => Ok(None),
        Some(v) => match v {
            Value::Int(n) => {
                let n: i64 = *n;
                if n < 0 || n as u64 > usize::MAX as u64 {
                    Err(malformed_metadata(crate_dir, "bound_args.default must not be negative"))
                } else {
                    Ok(Some(n as usize))
                }
            },
            _ => Err(malformed_metadata(crate_dir, "bound_args.default must be an integer")),
        },
    }
}

fn read_bound_arg(b: &Value, crate_dir: &DirPath) -> (r: Result<BoundArg, String>)
    ensures
        model::outcome(r) == bound_arg(b.deep_view(), crate_dir.deep_view()),
{
    let arg = match b.get_str("arg") {
        Some(s) => s,
        None => {
            return Err(malformed_metadata(crate_dir, "bound_args.arg must be a string"));
        },
    };
    let from = match b.get_str("from") {
        Some(s) => s,
        None => {
            return Err(malformed_metadata(crate_dir, "bound_args.from must be a string"));
        },
    };
    if let Err(reason) = validate_bound_from_shape(from.as_str()) {
        return Err(malformed_metadata(crate_dir, reason.as_str()));
    }
    match read_bound_default(b, crate_dir) {
        Ok(default) => Ok(BoundArg { arg, from, default }),
        Err(e) => Err(e),
    }
}

/// Read `[[package.metadata.spel.bound_args]]` blocks from a parsed manifest.
pub fn read_spel_bound_args(value: &Value, crate_dir: &DirPath) -> (r: Result<
    Vec<BoundArg>,
    String,
>)
    ensures
        model::outcome(r) == bound_args(value.deep_view(), crate_dir.deep_view()),
{
    let bounds = match get_spel_key(value, "bound_args") {
        Some(b) => b,
        None => {
            return Ok(none());
        },
    };
    let arr = match bounds.as_array() {
        Some(a) => a,
        None => {
            return Err(malformed_metadata(crate_dir, "bound_args must be an array of tables"));
        },
    };
    read_bound_arg_blocks(arr, crate_dir)
}

fn read_bound_arg_blocks(arr: &Vec<Value>, crate_dir: &DirPath) -> (r: Result<
    Vec<BoundArg>,
    String,
>)
    ensures
        model::outcome(r) == bound_args_from(
            arr.deep_view(),
            crate_dir.deep_view(),
            0,
            Seq::empty(),
        ),
{
    let ghost all = arr.deep_view();
    let ghost dir = crate_dir.deep_view();
    let mut out: Vec<BoundArg> = none();
    let mut i: usize = 0;
    while i < arr.len()
        invariant
            i <= arr.len(),
            all == arr.deep_view(),
            dir == crate_dir.deep_view(),
            bound_args_from(all, dir, 0, Seq::empty()) == bound_args_from(
                all,
                dir,
                i as int,
                out.deep_view(),
            ),
        decreases arr.len() - i,
    {
        assert(all[i as int] == arr@[i as int].deep_view());
        match read_bound_arg(&arr[i], crate_dir) {
            Ok(b) => put(&mut out, b),
            Err(e) => {
                return Err(e);
            },
        }
        i += 1;
    }
    Ok(out)
}

// ── Manifest and extension attribute ─────────────────────────────────────

/// The parsed manifest of the crate at `dir`; none when it is unreadable or
/// does not parse.
pub open spec fn manifest_value(disk: DiskView, dir: DirPathView) -> Option<ValueView> {
    match disk.read(path::joined(dir, "Cargo.toml"@)) {
        ContentsView::Text(content) => match value::toml_value(content) {
            Ok(v) => Some(v),
            Err(_) => None,
        },
        ContentsView::Failed(_) => None,
    }
}

/// The open question about the manifest of the crate at `dir`.
pub open spec fn value_question(disk: DiskView, dir: DirPathView) -> Option<QueryView> {
    disk.question(QueryView::Read(path::joined(dir, "Cargo.toml"@)))
}

/// Parsed Cargo.toml of a dependency dir, or `None` when unreadable or
/// unparseable. Silent: cargo itself fails the build for those cases.
pub fn read_manifest_value(disk: &Disk, crate_dir: &DirPath) -> (r: Result<Option<Value>, Query>)
    ensures
        disk::asks(r, value_question(disk.deep_view(), crate_dir.deep_view())),
        match r {
            Ok(v) => v.deep_view() == manifest_value(disk.deep_view(), crate_dir.deep_view()),
            Err(q) => disk.deep_view().lacks(q.deep_view()),
        },
{
    match disk.read(&crate_dir.join("Cargo.toml")) {
        Ok(Contents::Text(content)) => match read_toml(content.as_str()) {
            Ok(v) => Ok(Some(v)),
            Err(_) => Ok(None),
        },
        Ok(Contents::Failed(_)) => Ok(None),
        Err(q) => Err(q),
    }
}

/// The extension attribute a manifest declares: none without spel metadata, an
/// error where it is no text.
pub open spec fn extension_attr(manifest: ValueView, dir: DirPathView) -> Result<
    Option<Seq<char>>,
    Seq<char>,
> {
    match spel_key(manifest, "extension_attr"@) {
        None => Ok(None),
        Some(v) => match v.text() {
            Some(s) => Ok(Some(s)),
            None => Err(malformed(dir, "extension_attr must be a string"@)),
        },
    }
}

/// Read `[package.metadata.spel.extension_attr]` from a crate's Cargo.toml.
///
/// Used by framework codegen to discover libraries that opt into providing
/// instructions to consuming programs. The lib declares the marker attr
/// name (e.g. `"admin_authority"`); when the consuming program puts that
/// attr on its `#[lez_program]` mod, the framework includes the lib's
/// `#[instruction]` fns in the dispatcher + IDL.
///
/// Ok(None): no spel metadata or no extension_attr_key (a normal crate).
/// Ok(Some(name)): declared extension.
/// Err(msg): metadata present but malformed. Callers must surface this as
/// a hard error, a broken declaration must never degrade to "no extension".
pub fn read_spel_extension_attr(value: &Value, crate_dir: &DirPath) -> (r: Result<
    Option<String>,
    String,
>)
    ensures
        model::outcome(r) == extension_attr(value.deep_view(), crate_dir.deep_view()),
{
    match get_spel_key(value, "extension_attr") {
        None => Ok(None),
        Some(v) => match v.as_str() {
            Some(s) => Ok(Some(s)),
            None => Err(malformed_metadata(crate_dir, "extension_attr must be a string")),
        },
    }
}

/// The crate identifier of a manifest: its package name, `-` mapped to `_`.
pub open spec fn package_ident(manifest: ValueView) -> Option<Seq<char>> {
    match manifest.field("package"@) {
        Some(p) => match p.text_at("name"@) {
            Some(name) => Some(text::underscored(name)),
            None => None,
        },
        None => None,
    }
}

/// [package].name from crate dir's manifest, `-` mapped to `_`, for use
/// as the crate ident in generated cross-crate call paths. The directory
/// name is not the crate's identity: renamed checkouts, vendoring, and
/// `package = ` aliases all diverge from it.
pub fn read_package_ident(value: &Value) -> (r: Option<String>)
    ensures
        r.deep_view() == package_ident(value.deep_view()),
{
    match value.get("package") {
        Some(p) => match p.get_str("name") {
            Some(name) => Some(text::replace_dashes(name.as_str())),
            None => None,
        },
        None => None,
    }
}

// ── Inject specs ─────────────────────────────────────────────────────────

/// One seed entry: `{ const = "..." }` or `{ account = "..." }`.
pub open spec fn seed_entry(v: ValueView) -> Option<InjectSeedView> {
    match v.text_at("const"@) {
        Some(s) => Some(InjectSeedView::Const(s)),
        None => match v.text_at("account"@) {
            Some(s) => Some(InjectSeedView::Account(s)),
            None => None,
        },
    }
}

/// Decode one TOML seed entry (`{ const = "..." }` or
/// `{ account "..." }`) into an [`InjectSeed`].
fn parse_seed_entry(value: &Value) -> (r: Option<InjectSeed>)
    ensures
        r.deep_view() == seed_entry(value.deep_view()),
{
    match value.get_str("const") {
        Some(s) => Some(InjectSeed::Const(s)),
        None => match value.get_str("account") {
            Some(s) => Some(InjectSeed::Account(s)),
            None => None,
        },
    }
}

/// The seed entries from `from` on, behind `out`; none if one is malformed.
pub open spec fn seed_entries_from(
    arr: Seq<ValueView>,
    from: int,
    out: Seq<InjectSeedView>,
) -> Option<Seq<InjectSeedView>>
    decreases arr.len() - from,
{
    if from < 0 || from >= arr.len() {
        Some(out)
    } else {
        match seed_entry(arr[from]) {
            Some(s) => seed_entries_from(arr, from + 1, out.push(s)),
            None => None,
        }
    }
}

/// The seeds of an inject account: none, one entry, or a list of entries.
pub open spec fn account_seeds(acc: ValueView, dir: DirPathView) -> Result<
    Seq<InjectSeedView>,
    Seq<char>,
> {
    match acc.field("seed"@) {
        None => Ok(Seq::empty()),
        Some(v) => match v {
            ValueView::Array(entries) => match seed_entries_from(entries, 0, Seq::empty()) {
                Some(seeds) => Ok(seeds),
                None => Err(
                    malformed(
                        dir,
                        "inject.account.seed entries must be { const = \"...\" } or { account = \"...\" }"@,
                    ),
                ),
            },
            _ => match seed_entry(v) {
                Some(s) => Ok(seq![s]),
                None => Err(
                    malformed(
                        dir,
                        "inject.account.seed must be { const = \"...\" }, { account = \"...\" }, or an array of those"@,
                    ),
                ),
            },
        },
    }
}

/// Whether an inject account signs.
pub open spec fn account_signer(acc: ValueView, dir: DirPathView) -> Result<bool, Seq<char>> {
    match acc.field("signer"@) {
        None => Ok(false),
        Some(v) => match v {
            ValueView::Bool(b) => Ok(b),
            _ => Err(malformed(dir, "inject.account.signer must be a boolean"@)),
        },
    }
}

/// One inject account: its role is its name until an embed retargets it.
pub open spec fn inject_account(acc: ValueView, dir: DirPathView) -> Result<
    InjectAccountView,
    Seq<char>,
> {
    match acc.text_at("name"@) {
        None => Err(malformed(dir, "inject.account.name must be a string"@)),
        Some(name) => match account_seeds(acc, dir) {
            Err(e) => Err(e),
            Ok(seeds) => match account_signer(acc, dir) {
                Err(e) => Err(e),
                Ok(signer) => Ok(
                    InjectAccountView { name, role: name, seeds, signer, embedded: false },
                ),
            },
        },
    }
}

/// The inject accounts from `from` on, behind `out`.
pub open spec fn inject_accounts_from(
    arr: Seq<ValueView>,
    dir: DirPathView,
    from: int,
    out: Seq<InjectAccountView>,
) -> Result<Seq<InjectAccountView>, Seq<char>>
    decreases arr.len() - from,
{
    if from < 0 || from >= arr.len() {
        Ok(out)
    } else {
        match inject_account(arr[from], dir) {
            Ok(a) => inject_accounts_from(arr, dir, from + 1, out.push(a)),
            Err(e) => Err(e),
        }
    }
}

/// One inject block.
pub open spec fn inject_spec(inject: ValueView, dir: DirPathView) -> Result<
    InjectSpecView,
    Seq<char>,
> {
    match inject.text_at("wrapper"@) {
        None => Err(malformed(dir, "inject.wrapper must be a string"@)),
        Some(wrapper) => match inject.elements_at("account"@) {
            None => Err(malformed(dir, "inject.account must be an array of tables"@)),
            Some(accs) => match inject_accounts_from(accs, dir, 0, Seq::empty()) {
                Err(e) => Err(e),
                Ok(accounts) => Ok(
                    InjectSpecView {
                        wrapper,
                        accounts,
                        source: Seq::empty(),
                        embedded_offset: None,
                    },
                ),
            },
        },
    }
}

/// The inject blocks from `from` on, behind `out`.
pub open spec fn inject_specs_from(
    arr: Seq<ValueView>,
    dir: DirPathView,
    from: int,
    out: Seq<InjectSpecView>,
) -> Result<Seq<InjectSpecView>, Seq<char>>
    decreases arr.len() - from,
{
    if from < 0 || from >= arr.len() {
        Ok(out)
    } else {
        match inject_spec(arr[from], dir) {
            Ok(s) => inject_specs_from(arr, dir, from + 1, out.push(s)),
            Err(e) => Err(e),
        }
    }
}

/// The inject blocks of a manifest.
pub open spec fn inject_specs(manifest: ValueView, dir: DirPathView) -> Result<
    Seq<InjectSpecView>,
    Seq<char>,
> {
    match spel_key(manifest, "inject"@) {
        None => Ok(Seq::empty()),
        Some(v) => match v.elements() {
            None => Err(malformed(dir, "inject must be an array of tables"@)),
            Some(arr) => inject_specs_from(arr, dir, 0, Seq::empty()),
        },
    }
}

fn read_seed_entries(arr: &Vec<Value>) -> (r: Option<Vec<InjectSeed>>)
    ensures
        r.deep_view() == seed_entries_from(arr.deep_view(), 0, Seq::empty()),
{
    let mut out: Vec<InjectSeed> = none();
    let mut i: usize = 0;
    while i < arr.len()
        invariant
            i <= arr.len(),
            seed_entries_from(arr.deep_view(), 0, Seq::empty()) == seed_entries_from(
                arr.deep_view(),
                i as int,
                out.deep_view(),
            ),
        decreases arr.len() - i,
    {
        assert(arr.deep_view()[i as int] == arr@[i as int].deep_view());
        match parse_seed_entry(&arr[i]) {
            Some(s) => put(&mut out, s),
            None => {
                return None;
            },
        }
        i += 1;
    }
    Some(out)
}

fn read_account_seeds(acc: &Value, crate_dir: &DirPath) -> (r: Result<Vec<InjectSeed>, String>)
    ensures
        model::outcome(r) == account_seeds(acc.deep_view(), crate_dir.deep_view()),
{
    match acc.get("seed") {
        None => Ok(none()),
        Some(v) => match v.as_array() {
            Some(entries) => match read_seed_entries(entries) {
                Some(seeds) => Ok(seeds),
                None => Err(
                    malformed_metadata(
                        crate_dir,
                        "inject.account.seed entries must be { const = \"...\" } or { account = \"...\" }",
                    ),
                ),
            },
            None => match parse_seed_entry(v) {
                Some(s) => Ok(single(s)),
                None => Err(
                    malformed_metadata(
                        crate_dir,
                        "inject.account.seed must be { const = \"...\" }, { account = \"...\" }, or an array of those",
                    ),
                ),
            },
        },
    }
}

fn read_account_signer(acc: &Value, crate_dir: &DirPath) -> (r: Result<bool, String>)
    ensures
        model::outcome(r) == account_signer(acc.deep_view(), crate_dir.deep_view()),
{
    match acc.get("signer") {
        None => Ok(false),
        Some(v) => match v {
            Value::Bool(b) => Ok(*b),
            _ => Err(malformed_metadata(crate_dir, "inject.account.signer must be a boolean")),
        },
    }
}

fn read_inject_account(acc: &Value, crate_dir: &DirPath) -> (r: Result<InjectAccount, String>)
    ensures
        model::outcome(r) == inject_account(acc.deep_view(), crate_dir.deep_view()),
{
    let name = match acc.get_str("name") {
        Some(n) => n,
        None => {
            return Err(malformed_metadata(crate_dir, "inject.account.name must be a string"));
        },
    };
    let seeds = match read_account_seeds(acc, crate_dir) {
        Ok(s) => s,
        Err(e) => {
            return Err(e);
        },
    };
    match read_account_signer(acc, crate_dir) {
        Ok(signer) => Ok(
            InjectAccount { name: name.clone(), role: name, seeds, signer, embedded: false },
        ),
        Err(e) => Err(e),
    }
}

fn read_inject_accounts(arr: &Vec<Value>, crate_dir: &DirPath) -> (r: Result<
    Vec<InjectAccount>,
    String,
>)
    ensures
        model::outcome(r) == inject_accounts_from(
            arr.deep_view(),
            crate_dir.deep_view(),
            0,
            Seq::empty(),
        ),
{
    let ghost all = arr.deep_view();
    let ghost dir = crate_dir.deep_view();
    let mut out: Vec<InjectAccount> = none();
    let mut i: usize = 0;
    while i < arr.len()
        invariant
            i <= arr.len(),
            all == arr.deep_view(),
            dir == crate_dir.deep_view(),
            inject_accounts_from(all, dir, 0, Seq::empty()) == inject_accounts_from(
                all,
                dir,
                i as int,
                out.deep_view(),
            ),
        decreases arr.len() - i,
    {
        assert(all[i as int] == arr@[i as int].deep_view());
        match read_inject_account(&arr[i], crate_dir) {
            Ok(a) => put(&mut out, a),
            Err(e) => {
                return Err(e);
            },
        }
        i += 1;
    }
    Ok(out)
}

fn read_inject_spec(inject: &Value, crate_dir: &DirPath) -> (r: Result<InjectSpec, String>)
    ensures
        model::outcome(r) == inject_spec(inject.deep_view(), crate_dir.deep_view()),
{
    let wrapper = match inject.get_str("wrapper") {
        Some(w) => w,
        None => {
            return Err(malformed_metadata(crate_dir, "inject.wrapper must be a string"));
        },
    };
    let accs = match inject.get_array("account") {
        Some(a) => a,
        None => {
            return Err(malformed_metadata(crate_dir, "inject.account must be an array of tables"));
        },
    };
    match read_inject_accounts(accs, crate_dir) {
        Ok(accounts) => Ok(
            InjectSpec { wrapper, accounts, source: String::new(), embedded_offset: None },
        ),
        Err(e) => Err(e),
    }
}

fn read_inject_blocks(arr: &Vec<Value>, crate_dir: &DirPath) -> (r: Result<
    Vec<InjectSpec>,
    String,
>)
    ensures
        model::outcome(r) == inject_specs_from(
            arr.deep_view(),
            crate_dir.deep_view(),
            0,
            Seq::empty(),
        ),
{
    let ghost all = arr.deep_view();
    let ghost dir = crate_dir.deep_view();
    let mut out: Vec<InjectSpec> = none();
    let mut i: usize = 0;
    while i < arr.len()
        invariant
            i <= arr.len(),
            all == arr.deep_view(),
            dir == crate_dir.deep_view(),
            inject_specs_from(all, dir, 0, Seq::empty()) == inject_specs_from(
                all,
                dir,
                i as int,
                out.deep_view(),
            ),
        decreases arr.len() - i,
    {
        assert(all[i as int] == arr@[i as int].deep_view());
        match read_inject_spec(&arr[i], crate_dir) {
            Ok(s) => put(&mut out, s),
            Err(e) => {
                return Err(e);
            },
        }
        i += 1;
    }
    Ok(out)
}

/// Read `[[package.metadata.spel.inject]]` blocks from a parsed manifest.
///
/// Absent inject key is `Ok(empty)`, a normal extension without param
/// injection. Malformed blocks are a hard `Err`: a broken inject
/// declaration must never degrade to a gate silently missing its
/// account constraints.
pub fn read_spel_inject_specs(value: &Value, crate_dir: &DirPath) -> (r: Result<
    Vec<InjectSpec>,
    String,
>)
    ensures
        model::outcome(r) == inject_specs(value.deep_view(), crate_dir.deep_view()),
{
    let injects = match get_spel_key(value, "inject") {
        Some(v) => v,
        None => {
            return Ok(none());
        },
    };
    match injects.as_array() {
        Some(arr) => read_inject_blocks(arr, crate_dir),
        None => Err(malformed_metadata(crate_dir, "inject must be an array of tables")),
    }
}

// ── Wrap instructions ────────────────────────────────────────────────────

/// The skip word of a wrap section: absent, or a text that is not empty.
pub open spec fn wrap_skip(wrap: ValueView, dir: DirPathView) -> Result<
    Option<Seq<char>>,
    Seq<char>,
> {
    match wrap.field("skip"@) {
        None => Ok(None),
        Some(v) => match v.text() {
            None => Err(malformed(dir, "wrap_instructions.skip must be a string"@)),
            Some(s) => if s.len() == 0 {
                Err(
                    malformed(
                        dir,
                        "wrap_instructions.skip must not be empty: an empty skip word matches the bare marker and turns wrap off for every consumer"@,
                    ),
                )
            } else {
                Ok(Some(s))
            },
        },
    }
}

/// The exemptions of a wrap section.
pub open spec fn wrap_exempt(wrap: ValueView, dir: DirPathView) -> Result<
    Seq<Seq<char>>,
    Seq<char>,
> {
    match wrap.field("exempt"@) {
        None => Ok(Seq::empty()),
        Some(v) => match v.elements() {
            None => Err(malformed(dir, "wrap_instructions.exempt must be an array of string"@)),
            Some(arr) => match texts_from(arr, 0, Seq::empty()) {
                Some(texts) => Ok(texts),
                None => Err(
                    malformed(dir, "wrap_instructions.exempt must be and array of strings"@),
                ),
            },
        },
    }
}

/// The wrap section of a manifest.
pub open spec fn wrap_instructions(manifest: ValueView, dir: DirPathView) -> Result<
    Option<WrapInstructionsView>,
    Seq<char>,
> {
    match spel_key(manifest, "wrap_instructions"@) {
        None => Ok(None),
        Some(wrap) => match wrap.text_at("wrapper"@) {
            None => Err(malformed(dir, "wrap_instructions.wrapper must be a string"@)),
            Some(wrapper) => match wrap.text_at("self_exempt_marker"@) {
                None => Err(
                    malformed(dir, "wrap_instructions.self_exempt_marker must be a string"@),
                ),
                Some(self_exempt_marker) => match wrap_skip(wrap, dir) {
                    Err(e) => Err(e),
                    Ok(skip) => match wrap_exempt(wrap, dir) {
                        Err(e) => Err(e),
                        Ok(exempt) => Ok(
                            Some(
                                WrapInstructionsView { wrapper, skip, self_exempt_marker, exempt },
                            ),
                        ),
                    },
                },
            },
        },
    }
}

fn read_wrap_skip(wrap: &Value, crate_dir: &DirPath) -> (r: Result<Option<String>, String>)
    ensures
        model::outcome(r) == wrap_skip(wrap.deep_view(), crate_dir.deep_view()),
{
    match wrap.get("skip") {
        None => Ok(None),
        Some(v) => match v.as_str() {
            None => Err(malformed_metadata(crate_dir, "wrap_instructions.skip must be a string")),
            Some(s) => if s.as_str().is_empty() {
                Err(
                    malformed_metadata(
                        crate_dir,
                        "wrap_instructions.skip must not be empty: an empty skip word matches the bare marker and turns wrap off for every consumer",
                    ),
                )
            } else {
                Ok(Some(s))
            },
        },
    }
}

fn read_wrap_exempt(wrap: &Value, crate_dir: &DirPath) -> (r: Result<Vec<String>, String>)
    ensures
        model::outcome(r) == wrap_exempt(wrap.deep_view(), crate_dir.deep_view()),
{
    match wrap.get("exempt") {
        None => Ok(none()),
        Some(v) => match v.as_array() {
            None => Err(
                malformed_metadata(
                    crate_dir,
                    "wrap_instructions.exempt must be an array of string",
                ),
            ),
            Some(arr) => match read_texts(arr) {
                Some(texts) => Ok(texts),
                None => Err(
                    malformed_metadata(
                        crate_dir,
                        "wrap_instructions.exempt must be and array of strings",
                    ),
                ),
            },
        },
    }
}

/// Read `[package.metadata.spel.wrap_instructions` from parsed
/// manifest.
///
/// Absent section in `Ok(None)`, the extension does not wrap. A present
/// but malformed section is a hard `Err`: a broken wrap declaration
/// must never degrade to a program silently shipping unwrapped
/// instructions.
pub fn read_spel_wrap_instructions(value: &Value, crate_dir: &DirPath) -> (r: Result<
    Option<WrapInstructions>,
    String,
>)
    ensures
        model::outcome(r) == wrap_instructions(value.deep_view(), crate_dir.deep_view()),
{
    let wrap = match get_spel_key(value, "wrap_instructions") {
        Some(w) => w,
        None => {
            return Ok(None);
        },
    };
    let wrapper = match wrap.get_str("wrapper") {
        Some(w) => w,
        None => {
            return Err(malformed_metadata(crate_dir, "wrap_instructions.wrapper must be a string"));
        },
    };
    let self_exempt_marker = match wrap.get_str("self_exempt_marker") {
        Some(w) => w,
        None => {
            return Err(
                malformed_metadata(
                    crate_dir,
                    "wrap_instructions.self_exempt_marker must be a string",
                ),
            );
        },
    };
    let skip = match read_wrap_skip(wrap, crate_dir) {
        Ok(s) => s,
        Err(e) => {
            return Err(e);
        },
    };
    match read_wrap_exempt(wrap, crate_dir) {
        Ok(exempt) => Ok(Some(WrapInstructions { wrapper, skip, self_exempt_marker, exempt })),
        Err(e) => Err(e),
    }
}

// ── Embedded mode ────────────────────────────────────────────────────────

/// No embedded section at all.
pub open spec fn no_embedded() -> EmbeddedMetaView {
    EmbeddedMetaView { skip: Seq::empty(), state_type: None, anchor: None }
}

/// The instructions an embedded section drops.
pub open spec fn embedded_skip(embedded: ValueView, dir: DirPathView) -> Result<
    Seq<Seq<char>>,
    Seq<char>,
> {
    match embedded.field("skip"@) {
        None => Ok(Seq::empty()),
        Some(v) => match v.elements() {
            None => Err(malformed(dir, "embedded.skip must be an array of strings"@)),
            Some(arr) => match texts_from(arr, 0, Seq::empty()) {
                Some(texts) => Ok(texts),
                None => Err(malformed(dir, "embedded.skip must be an array of strings"@)),
            },
        },
    }
}

/// An optional text of an embedded section.
pub open spec fn embedded_text(embedded: ValueView, key: Seq<char>, dir: DirPathView) -> Result<
    Option<Seq<char>>,
    Seq<char>,
> {
    match embedded.field(key) {
        None => Ok(None),
        Some(v) => match v.text() {
            Some(s) => Ok(Some(s)),
            None => Err(malformed(dir, "embedded."@ + key + " must be a string"@)),
        },
    }
}

/// The anchor two optional texts declare: both or neither.
pub open spec fn anchor_of(
    attr: Option<Seq<char>>,
    role: Option<Seq<char>>,
    dir: DirPathView,
) -> Result<Option<EmbedAnchorView>, Seq<char>> {
    match (attr, role) {
        (Some(attr), Some(role)) => Ok(Some(EmbedAnchorView { attr, role })),
        (None, None) => Ok(None),
        _ => Err(
            malformed(
                dir,
                "embedded.anchor_attr and embedded.anchor_role must be declared together"@,
            ),
        ),
    }
}

/// The embedded section of a manifest.
pub open spec fn embedded_meta(manifest: ValueView, dir: DirPathView) -> Result<
    EmbeddedMetaView,
    Seq<char>,
> {
    match spel_key(manifest, "embedded"@) {
        None => Ok(no_embedded()),
        Some(embedded) => match embedded_skip(embedded, dir) {
            Err(e) => Err(e),
            Ok(skip) => match embedded_text(embedded, "state_type"@, dir) {
                Err(e) => Err(e),
                Ok(state_type) => match embedded_text(embedded, "anchor_attr"@, dir) {
                    Err(e) => Err(e),
                    Ok(attr) => match embedded_text(embedded, "anchor_role"@, dir) {
                        Err(e) => Err(e),
                        Ok(role) => match anchor_of(attr, role, dir) {
                            Err(e) => Err(e),
                            Ok(anchor) => if anchor is Some && state_type is None {
                                Err(
                                    malformed(
                                        dir,
                                        "an anchored extension must declare embedded.state_type; any consumer may put it in embedded mode, and the window collision asserts read the window size through it"@,
                                    ),
                                )
                            } else {
                                Ok(EmbeddedMetaView { skip, state_type, anchor })
                            },
                        },
                    },
                },
            },
        },
    }
}

fn read_embedded_skip(embedded: &Value, crate_dir: &DirPath) -> (r: Result<Vec<String>, String>)
    ensures
        model::outcome(r) == embedded_skip(embedded.deep_view(), crate_dir.deep_view()),
{
    match embedded.get("skip") {
        None => Ok(none()),
        Some(v) => match v.as_array() {
            None => Err(malformed_metadata(crate_dir, "embedded.skip must be an array of strings")),
            Some(arr) => match read_texts(arr) {
                Some(texts) => Ok(texts),
                None => Err(
                    malformed_metadata(crate_dir, "embedded.skip must be an array of strings"),
                ),
            },
        },
    }
}

fn read_embedded_text(embedded: &Value, key: &str, crate_dir: &DirPath) -> (r: Result<
    Option<String>,
    String,
>)
    ensures
        model::outcome(r) == embedded_text(embedded.deep_view(), key@, crate_dir.deep_view()),
{
    match embedded.get(key) {
        None => Ok(None),
        Some(v) => match v.as_str() {
            Some(s) => Ok(Some(s)),
            None => Err(
                malformed_metadata(
                    crate_dir,
                    "embedded.".to_owned().concat(key).concat(" must be a string").as_str(),
                ),
            ),
        },
    }
}

/// Read `[package.metadata.spel.embedded]` from a parsed manifest.
///
/// An absent section is an all-default [`EmbeddedMeta`].
///
/// # Errors
///
/// `Err` when `skip` is present but not an array of strings, when
/// `state_type` or an anchor key is present but not a string, when only one
/// of the anchor keys is declared, or when an anchored extension declares no
/// `state_type`. Callers surface it as a compile error.
pub fn read_spel_embedded(value: &Value, crate_dir: &DirPath) -> (r: Result<EmbeddedMeta, String>)
    ensures
        model::outcome(r) == embedded_meta(value.deep_view(), crate_dir.deep_view()),
{
    let embedded = match get_spel_key(value, "embedded") {
        Some(e) => e,
        None => {
            return Ok(EmbeddedMeta { skip: none(), state_type: None, anchor: None });
        },
    };
    let skip = match read_embedded_skip(embedded, crate_dir) {
        Ok(s) => s,
        Err(e) => {
            return Err(e);
        },
    };
    let state_type = match read_embedded_text(embedded, "state_type", crate_dir) {
        Ok(s) => s,
        Err(e) => {
            return Err(e);
        },
    };
    let attr = match read_embedded_text(embedded, "anchor_attr", crate_dir) {
        Ok(s) => s,
        Err(e) => {
            return Err(e);
        },
    };
    let role = match read_embedded_text(embedded, "anchor_role", crate_dir) {
        Ok(s) => s,
        Err(e) => {
            return Err(e);
        },
    };
    let anchor = match (attr, role) {
        (Some(attr), Some(role)) => Some(EmbedAnchor { attr, role }),
        (None, None) => None,
        _ => {
            return Err(
                malformed_metadata(
                    crate_dir,
                    "embedded.anchor_attr and embedded.anchor_role must be declared together",
                ),
            );
        },
    };
    if anchor.is_some() && state_type.is_none() {
        return Err(
            malformed_metadata(
                crate_dir,
                "an anchored extension must declare embedded.state_type; any consumer may put it in embedded mode, and the window collision asserts read the window size through it",
            ),
        );
    }
    Ok(EmbeddedMeta { skip, state_type, anchor })
}

} // verus!
