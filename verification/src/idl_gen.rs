//! Runtime IDL generation from SPEL program source files.
//!
//! [`generate_idl_from_file`] reads the `#[lez_program]` module of a source
//! file, merges what the program's extensions contribute, and describes
//! instructions, arguments, accounts, address seeds and account layouts.
use crate::account_types;
use crate::account_types::{collect_account_types, syn_type_to_idl_type};
use crate::attrs;
use crate::attrs::{find_attr, has_attr};
use crate::dep_walk;
use crate::dep_walk::{own_path_dep_dirs, DepGraph, DepGraphView};
use crate::disk;
use crate::disk::{Contents, ContentsView, Disk, DiskView, Query, QueryView};
use crate::extension;
use crate::extension::discovery;
use crate::extension::{
    check_duplicate_instruction_names, collect_instruction_fns, instruction_source_label,
    resolve_program_deps, resolve_program_deps_with_graph, Carriers, CarriersView,
    PreparedInstructionView, PreparedProgram, PreparedProgramView, ProgramDeps, ProgramDepsView,
    Stop,
};
use crate::idl::{
    IdlAccountItem, IdlAccountItemView, IdlArg, IdlArgView, IdlExecution, IdlInstruction,
    IdlInstructionView, IdlPda, IdlPdaView, IdlSeed, IdlSeedView, SpelIdl, SpelIdlView,
};
use crate::layouts;
use crate::layouts::{check_layout_owners, collect_crates, join_items, join_program};
use crate::model;
use crate::model::{none, put, put_all, single, Dup};
use crate::path;
use crate::path::{DirPath, DirPathView};
use crate::scan;
pub use crate::scan::{collect_file_items_following_mods, collect_items_from_crate_dirs};
use crate::sha256;
use crate::sha256::sha256;
use crate::source;
use crate::source::parse_source;
use crate::syntax;
use crate::syntax::{
    AttrForm, AttrFormView, Attribute, AttributeView, Call, CallView, Entry, EntryView, Expr,
    ExprKind, ExprKindView, ExprView, FnArg, FnArgView, Item, ItemFn, ItemFnView, ItemMod,
    ItemModView, ItemView, List, Path, PathView, Type, TypeView,
};
use crate::text;
use crate::text::same;
use vstd::prelude::*;

verus! {

/// One seed of a declared address.
#[derive(Debug, PartialEq, Eq)]
pub enum PdaSeedDef {
    /// A constant text.
    Const(String),
    /// The id of another account.
    Account(String),
    /// The value of an argument.
    Arg(String),
}

/// What a [`PdaSeedDef`] holds.
#[verifier::ext_equal]
pub enum PdaSeedDefView {
    Const(Seq<char>),
    Account(Seq<char>),
    Arg(Seq<char>),
}

impl DeepView for PdaSeedDef {
    type V = PdaSeedDefView;

    open spec fn deep_view(&self) -> PdaSeedDefView {
        match self {
            PdaSeedDef::Const(a) => PdaSeedDefView::Const(a@),
            PdaSeedDef::Account(a) => PdaSeedDefView::Account(a@),
            PdaSeedDef::Arg(a) => PdaSeedDefView::Arg(a@),
        }
    }
}

impl Dup for PdaSeedDef {
    fn dup(&self) -> (r: Self) {
        match self {
            PdaSeedDef::Const(a) => PdaSeedDef::Const(a.clone()),
            PdaSeedDef::Account(a) => PdaSeedDef::Account(a.clone()),
            PdaSeedDef::Arg(a) => PdaSeedDef::Arg(a.clone()),
        }
    }
}

/// What a parameter's `#[account(...)]` attribute declares.
#[derive(Debug, PartialEq, Eq)]
pub struct AccountConstraints {
    pub mutable: bool,
    pub init: bool,
    pub signer: bool,
    pub pda_seeds: Vec<PdaSeedDef>,
}

/// What a [`AccountConstraints`] holds.
#[verifier::ext_equal]
pub struct AccountConstraintsView {
    pub mutable: bool,
    pub init: bool,
    pub signer: bool,
    pub pda_seeds: Seq<PdaSeedDefView>,
}

impl DeepView for AccountConstraints {
    type V = AccountConstraintsView;

    open spec fn deep_view(&self) -> AccountConstraintsView {
        AccountConstraintsView {
            mutable: self.mutable,
            init: self.init,
            signer: self.signer,
            pda_seeds: self.pda_seeds.deep_view(),
        }
    }
}

impl Dup for AccountConstraints {
    fn dup(&self) -> (r: Self) {
        AccountConstraints {
            mutable: self.mutable,
            init: self.init,
            signer: self.signer,
            pda_seeds: self.pda_seeds.dup(),
        }
    }
}

/// An account parameter of an instruction.
#[derive(Debug, PartialEq, Eq)]
pub struct AccountParam {
    pub name: String,
    pub constraints: AccountConstraints,
    /// Whether the parameter takes the variable-length rest of the accounts.
    pub is_rest: bool,
}

/// What a [`AccountParam`] holds.
#[verifier::ext_equal]
pub struct AccountParamView {
    pub name: Seq<char>,
    pub constraints: AccountConstraintsView,
    pub is_rest: bool,
}

impl DeepView for AccountParam {
    type V = AccountParamView;

    open spec fn deep_view(&self) -> AccountParamView {
        AccountParamView {
            name: self.name@,
            constraints: self.constraints.deep_view(),
            is_rest: self.is_rest,
        }
    }
}

impl Dup for AccountParam {
    fn dup(&self) -> (r: Self) {
        AccountParam {
            name: self.name.clone(),
            constraints: self.constraints.dup(),
            is_rest: self.is_rest,
        }
    }
}

/// A data parameter of an instruction.
#[derive(Debug, PartialEq, Eq)]
pub struct ArgParam {
    pub name: String,
    pub ty: Type,
}

/// What a [`ArgParam`] holds.
#[verifier::ext_equal]
pub struct ArgParamView {
    pub name: Seq<char>,
    pub ty: TypeView,
}

impl DeepView for ArgParam {
    type V = ArgParamView;

    open spec fn deep_view(&self) -> ArgParamView {
        ArgParamView {
            name: self.name@,
            ty: self.ty.deep_view(),
        }
    }
}

impl Dup for ArgParam {
    fn dup(&self) -> (r: Self) {
        ArgParam {
            name: self.name.clone(),
            ty: self.ty.dup(),
        }
    }
}

/// What the IDL needs to know of an instruction fn.
#[derive(Debug, PartialEq, Eq)]
pub struct InstructionInfo {
    pub fn_name: String,
    pub accounts: Vec<AccountParam>,
    pub args: Vec<ArgParam>,
    /// The path to call the fn by, where another crate declares it.
    pub external_call_path: Option<Path>,
}

/// What a [`InstructionInfo`] holds.
#[verifier::ext_equal]
pub struct InstructionInfoView {
    pub fn_name: Seq<char>,
    pub accounts: Seq<AccountParamView>,
    pub args: Seq<ArgParamView>,
    pub external_call_path: Option<PathView>,
}

impl DeepView for InstructionInfo {
    type V = InstructionInfoView;

    open spec fn deep_view(&self) -> InstructionInfoView {
        InstructionInfoView {
            fn_name: self.fn_name@,
            accounts: self.accounts.deep_view(),
            args: self.args.deep_view(),
            external_call_path: self.external_call_path.deep_view(),
        }
    }
}

impl Dup for InstructionInfo {
    fn dup(&self) -> (r: Self) {
        InstructionInfo {
            fn_name: self.fn_name.clone(),
            accounts: self.accounts.dup(),
            args: self.args.dup(),
            external_call_path: self.external_call_path.dup(),
        }
    }
}

/// Error type returned by [`generate_idl_from_file`].
#[derive(Debug, PartialEq, Eq)]
pub enum IdlGenError {
    /// A file could not be read.
    Io(String),
    /// A source does not parse, or an instruction is malformed.
    Parse(String),
    /// No program module in the named source.
    NoProgram(String),
    /// No instruction in the named source.
    NoInstructions(String),
    /// An extension is declared or used in a way the framework refuses.
    MalformedExtensionMetadata(String),
    /// Two instructions share a name.
    DuplicateInstruction(String),
    /// Two crates declare account layouts of one name.
    DuplicateAccountType(String),
}

/// What a [`IdlGenError`] holds.
#[verifier::ext_equal]
pub enum IdlGenErrorView {
    Io(Seq<char>),
    Parse(Seq<char>),
    NoProgram(Seq<char>),
    NoInstructions(Seq<char>),
    MalformedExtensionMetadata(Seq<char>),
    DuplicateInstruction(Seq<char>),
    DuplicateAccountType(Seq<char>),
}

impl DeepView for IdlGenError {
    type V = IdlGenErrorView;

    open spec fn deep_view(&self) -> IdlGenErrorView {
        match self {
            IdlGenError::Io(a) => IdlGenErrorView::Io(a@),
            IdlGenError::Parse(a) => IdlGenErrorView::Parse(a@),
            IdlGenError::NoProgram(a) => IdlGenErrorView::NoProgram(a@),
            IdlGenError::NoInstructions(a) => IdlGenErrorView::NoInstructions(a@),
            IdlGenError::MalformedExtensionMetadata(a) => IdlGenErrorView::MalformedExtensionMetadata(a@),
            IdlGenError::DuplicateInstruction(a) => IdlGenErrorView::DuplicateInstruction(a@),
            IdlGenError::DuplicateAccountType(a) => IdlGenErrorView::DuplicateAccountType(a@),
        }
    }
}

// ── Parameter types ──────────────────────────────────────────────────────

/// Whether a type is a path that ends in `name`.
pub open spec fn type_ends(ty: TypeView, name: Seq<char>) -> bool {
    ty matches TypeView::Named { ident, .. } && ident == name
}

/// Whether a type is the program context.
pub open spec fn context_type(ty: TypeView) -> bool {
    type_ends(ty, "ProgramContext"@)
}

/// Whether a type is an account.
pub open spec fn account_type(ty: TypeView) -> bool {
    type_ends(ty, "AccountWithMetadata"@)
}

/// Whether a type is a list of accounts.
pub open spec fn vec_account_type(ty: TypeView) -> bool {
    type_ends(ty, "Vec"@) && (ty matches TypeView::Named { arg: Some(inner), .. } && account_type(
        *inner,
    ))
}

fn named_type(ty: &Type, name: &str) -> (r: bool)
    ensures
        r == type_ends(ty.deep_view(), name@),
{
    match ty {
        Type::Named { ident, .. } => same(ident.as_str(), name),
        _ => false,
    }
}

/// Whether a parameter is the program context.
pub fn is_context_type(ty: &Type) -> (r: bool)
    ensures
        r == context_type(ty.deep_view()),
{
    named_type(ty, "ProgramContext")
}

/// Whether a parameter is an account.
pub fn is_account_type(ty: &Type) -> (r: bool)
    ensures
        r == account_type(ty.deep_view()),
{
    named_type(ty, "AccountWithMetadata")
}

/// Whether a parameter is a list of accounts.
pub fn is_vec_account_type(ty: &Type) -> (r: bool)
    ensures
        r == vec_account_type(ty.deep_view()),
{
    match ty {
        Type::Named { ident, arg: Some(inner) } => {
            same(ident.as_str(), "Vec") && is_account_type(inner)
        },
        _ => false,
    }
}


// ── Address seeds ────────────────────────────────────────────────────────

/// What [`parse_single_pda_seed`] reads.
pub open spec fn seed_of(call: CallView) -> Result<PdaSeedDefView, Seq<char>> {
    let func = match call.func {
        Some(f) => f,
        None => Seq::empty(),
    };
    if call.args.len() != 1 {
        Err("PDA seed function takes exactly one string argument"@)
    } else {
        match call.args[0] {
            None => Err("Expected string literal"@),
            Some(value) => if func == "const"@ || func == "r#const"@ || func == "seed_const"@
                || func == "literal"@ {
                Ok(PdaSeedDefView::Const(value))
            } else if func == "account"@ {
                Ok(PdaSeedDefView::Account(value))
            } else if func == "arg"@ {
                Ok(PdaSeedDefView::Arg(value))
            } else {
                Err(
                    "Unknown PDA seed type '"@ + func
                        + "'. Use const(\"...\"), account(\"...\"), or arg(\"...\")"@,
                )
            },
        }
    }
}

/// Reads one seed: `literal("...")`, `account("...")` or `arg("...")`.
fn parse_single_pda_seed(call: &Call) -> (r: Result<PdaSeedDef, String>)
    ensures
        model::outcome(r) == seed_of(call.deep_view()),
{
    let func: String = match &call.func {
        Some(f) => f.clone(),
        None => String::new(),
    };
    if call.args.len() != 1 {
        return Err("PDA seed function takes exactly one string argument".to_owned());
    }
    assert(call.deep_view().args[0] == call.args@[0].deep_view());
    let value = match &call.args[0] {
        Some(v) => v.clone(),
        None => {
            return Err("Expected string literal".to_owned());
        },
    };
    let name = func.as_str();
    if same(name, "const") || same(name, "r#const") || same(name, "seed_const") || same(
        name,
        "literal",
    ) {
        Ok(PdaSeedDef::Const(value))
    } else if same(name, "account") {
        Ok(PdaSeedDef::Account(value))
    } else if same(name, "arg") {
        Ok(PdaSeedDef::Arg(value))
    } else {
        Err(
            "Unknown PDA seed type '".to_owned().concat(name).concat(
                "'. Use const(\"...\"), account(\"...\"), or arg(\"...\")",
            ),
        )
    }
}

/// The seeds of an array, from element `from` on, behind those in `seeds`; the
/// message for the first element that is none.
pub open spec fn seeds_from(
    elems: Seq<Option<CallView>>,
    from: int,
    seeds: Seq<PdaSeedDefView>,
) -> Result<Seq<PdaSeedDefView>, Seq<char>>
    decreases elems.len() - from,
{
    if from < 0 || from >= elems.len() {
        Ok(seeds)
    } else {
        match elems[from] {
            None => Err("PDA seed must be const(\"...\"), account(\"...\"), or arg(\"...\")"@),
            Some(call) => match seed_of(call) {
                Ok(seed) => seeds_from(elems, from + 1, seeds.push(seed)),
                Err(e) => Err(e),
            },
        }
    }
}

/// What [`parse_pda_expr`] reads.
pub open spec fn seeds_of(expr: ExprView) -> Result<Seq<PdaSeedDefView>, Seq<char>> {
    match expr.kind {
        ExprKindView::Call(call) => match seed_of(call) {
            Ok(seed) => Ok(seq![seed]),
            Err(e) => Err(e),
        },
        ExprKindView::Array(elems) => seeds_from(elems, 0, Seq::empty()),
        _ => Err(
            "PDA seed must be const(\"...\"), account(\"...\"), arg(\"...\"), or [seed, ...]"@,
        ),
    }
}

/// Reads the seeds of a `pda = ...` constraint: one seed, or an array of them.
#[verifier::loop_isolation(false)]
fn parse_pda_expr(expr: &Expr) -> (r: Result<Vec<PdaSeedDef>, String>)
    ensures
        model::outcome(r) == seeds_of(expr.deep_view()),
{
    match &expr.kind {
        ExprKind::Call(call) => match parse_single_pda_seed(call) {
            Ok(seed) => Ok(single(seed)),
            Err(e) => Err(e),
        },
        ExprKind::Array(elems) => {
            let ghost all = elems.deep_view();
            let mut seeds: Vec<PdaSeedDef> = none();
            let mut i: usize = 0;
            while i < elems.len()
                invariant
                    i <= elems.len(),
                    all == elems.deep_view(),
                    seeds_from(all, 0, Seq::empty()) == seeds_from(
                        all,
                        i as int,
                        seeds.deep_view(),
                    ),
                decreases elems.len() - i,
            {
                assert(all[i as int] == elems@[i as int].deep_view());
                match &elems[i] {
                    Some(call) => match parse_single_pda_seed(call) {
                        Ok(seed) => {
                            put(&mut seeds, seed);
                        },
                        Err(e) => {
                            return Err(e);
                        },
                    },
                    None => {
                        return Err(
                            "PDA seed must be const(\"...\"), account(\"...\"), or arg(\"...\")".to_owned(),
                        );
                    },
                }
                i += 1;
            }
            Ok(seeds)
        },
        _ => Err(
            "PDA seed must be const(\"...\"), account(\"...\"), arg(\"...\"), or [seed, ...]".to_owned(),
        ),
    }
}

// ── Account constraints ──────────────────────────────────────────────────

/// No constraint at all.
pub open spec fn unconstrained() -> AccountConstraintsView {
    AccountConstraintsView { mutable: false, init: false, signer: false, pda_seeds: Seq::empty() }
}

/// The constraints `c` with what one `#[account]` entry adds, or why the entry
/// is refused. `init` implies `mut`.
pub open spec fn constrain(c: AccountConstraintsView, e: EntryView) -> Result<
    AccountConstraintsView,
    Seq<char>,
> {
    if e.path.is("mut"@) || e.path.is("init"@) || e.path.is("signer"@) {
        if e.assigned {
            Err("expected `,`"@)
        } else if e.path.is("mut"@) {
            Ok(AccountConstraintsView { mutable: true, ..c })
        } else if e.path.is("init"@) {
            Ok(AccountConstraintsView { init: true, mutable: true, ..c })
        } else {
            Ok(AccountConstraintsView { signer: true, ..c })
        }
    } else if e.path.is("owner"@) {
        match e.value {
            Some(_) => Ok(c),
            None => Err(e.error),
        }
    } else if e.path.is("pda"@) {
        match e.value {
            Some(v) => match seeds_of(v) {
                Ok(seeds) => Ok(AccountConstraintsView { pda_seeds: seeds, ..c }),
                Err(msg) => Err(msg),
            },
            None => Err(e.error),
        }
    } else {
        Err("unknown account constraint"@)
    }
}

/// The constraints `c` with what the entries from `from` on add. `stop` is the
/// message the list ends with where it does not parse to its end.
pub open spec fn constrain_from(
    entries: Seq<EntryView>,
    stop: Option<Seq<char>>,
    from: int,
    c: AccountConstraintsView,
) -> Result<AccountConstraintsView, Seq<char>>
    decreases entries.len() - from,
{
    if from < 0 || from >= entries.len() {
        match stop {
            Some(msg) => Err(msg),
            None => Ok(c),
        }
    } else {
        match constrain(c, entries[from]) {
            Ok(c2) => constrain_from(entries, stop, from + 1, c2),
            Err(e) => Err(e),
        }
    }
}

/// The constraints `c` with what one attribute adds: `#[account(...)]` adds its
/// entries, `#[account]` without a list is refused, others add nothing.
pub open spec fn constrain_by(c: AccountConstraintsView, a: AttributeView) -> Result<
    AccountConstraintsView,
    Seq<char>,
> {
    if !a.path.is("account"@) {
        Ok(c)
    } else {
        match a.form {
            AttrFormView::List(l) => constrain_from(l.entries, l.stop, 0, c),
            AttrFormView::Bare => Err(
                "expected attribute arguments in parentheses: #[account(...)]"@,
            ),
            AttrFormView::Value(_) => Err("expected parentheses: #[account(...)]"@),
        }
    }
}

/// The constraints `c` with what the attributes from `from` on add.
pub open spec fn constraints_from(
    attrs: Seq<AttributeView>,
    from: int,
    c: AccountConstraintsView,
) -> Result<AccountConstraintsView, Seq<char>>
    decreases attrs.len() - from,
{
    if from < 0 || from >= attrs.len() {
        Ok(c)
    } else {
        match constrain_by(c, attrs[from]) {
            Ok(c2) => constraints_from(attrs, from + 1, c2),
            Err(e) => Err(e),
        }
    }
}

fn parse_constraint(c: AccountConstraints, e: &Entry) -> (r: Result<AccountConstraints, String>)
    ensures
        model::outcome(r) == constrain(c.deep_view(), e.deep_view()),
{
    let mut c2 = c;
    if e.path.is("mut") || e.path.is("init") || e.path.is("signer") {
        if e.assigned {
            return Err("expected `,`".to_owned());
        }
        if e.path.is("mut") {
            c2.mutable = true;
        } else if e.path.is("init") {
            c2.init = true;
            c2.mutable = true;
        } else {
            c2.signer = true;
        }
        Ok(c2)
    } else if e.path.is("owner") {
        match &e.value {
            Some(_) => Ok(c2),
            None => Err(e.error.clone()),
        }
    } else if e.path.is("pda") {
        match &e.value {
            Some(v) => match parse_pda_expr(v) {
                Ok(seeds) => {
                    c2.pda_seeds = seeds;
                    Ok(c2)
                },
                Err(msg) => Err(msg),
            },
            None => Err(e.error.clone()),
        }
    } else {
        Err("unknown account constraint".to_owned())
    }
}

#[verifier::loop_isolation(false)]
fn parse_constraint_list(c: AccountConstraints, l: &List) -> (r: Result<AccountConstraints, String>)
    ensures
        model::outcome(r) == constrain_from(
            l.deep_view().entries,
            l.deep_view().stop,
            0,
            c.deep_view(),
        ),
{
    let ghost entries = l.deep_view().entries;
    let ghost stop = l.deep_view().stop;
    let ghost start = c.deep_view();
    let mut acc = c;
    let mut i: usize = 0;
    while i < l.entries.len()
        invariant
            i <= l.entries.len(),
            entries == l.entries.deep_view(),
            constrain_from(entries, stop, 0, start) == constrain_from(
                entries,
                stop,
                i as int,
                acc.deep_view(),
            ),
        decreases l.entries.len() - i,
    {
        assert(entries[i as int] == l.entries@[i as int].deep_view());
        match parse_constraint(acc, &l.entries[i]) {
            Ok(c2) => {
                acc = c2;
            },
            Err(e) => {
                return Err(e);
            },
        }
        i += 1;
    }
    match &l.stop {
        Some(msg) => Err(msg.clone()),
        None => Ok(acc),
    }
}

/// Reads the `#[account(...)]` attributes of a parameter.
fn parse_account_constraints(attrs: &Vec<Attribute>) -> (r: Result<AccountConstraints, String>)
    ensures
        model::outcome(r) == constraints_from(attrs.deep_view(), 0, unconstrained()),
{
    let ghost all = attrs.deep_view();
    let mut acc = AccountConstraints {
        mutable: false,
        init: false,
        signer: false,
        pda_seeds: none(),
    };
    let mut i: usize = 0;
    while i < attrs.len()
        invariant
            i <= attrs.len(),
            all == attrs.deep_view(),
            constraints_from(all, 0, unconstrained()) == constraints_from(
                all,
                i as int,
                acc.deep_view(),
            ),
        decreases attrs.len() - i,
    {
        let a = &attrs[i];
        assert(all[i as int] == a.deep_view());
        if a.path.is("account") {
            match &a.form {
                AttrForm::List(l) => match parse_constraint_list(acc, l) {
                    Ok(c2) => {
                        acc = c2;
                    },
                    Err(e) => {
                        return Err(e);
                    },
                },
                AttrForm::Bare => {
                    return Err(
                        "expected attribute arguments in parentheses: #[account(...)]".to_owned(),
                    );
                },
                AttrForm::Value(_) => {
                    return Err("expected parentheses: #[account(...)]".to_owned());
                },
            }
        }
        i += 1;
    }
    Ok(acc)
}

// ── Instructions ─────────────────────────────────────────────────────────

/// Whether a fn carries `#[instruction]`.
pub fn has_instruction_attr(attrs: &Vec<Attribute>) -> (r: bool)
    ensures
        r == attrs::named(attrs.deep_view(), "instruction"@),
{
    has_attr(attrs, "instruction")
}

/// `accounts` with one more. Two parameters of one name are one account of the
/// transaction: it stands where the first does, with the union of their `mut`,
/// `init` and `signer` constraints.
pub open spec fn with_account(
    accounts: Seq<AccountParamView>,
    account: AccountParamView,
    from: int,
) -> Seq<AccountParamView>
    decreases accounts.len() - from,
{
    if from < 0 || from >= accounts.len() {
        accounts.push(account)
    } else if accounts[from].name == account.name {
        let c = accounts[from].constraints;
        accounts.update(
            from,
            AccountParamView {
                constraints: AccountConstraintsView {
                    mutable: c.mutable || account.constraints.mutable,
                    init: c.init || account.constraints.init,
                    signer: c.signer || account.constraints.signer,
                    ..c
                },
                ..accounts[from]
            },
        )
    } else {
        with_account(accounts, account, from + 1)
    }
}

#[verifier::loop_isolation(false)]
fn add_account(accounts: &mut Vec<AccountParam>, account: AccountParam)
    ensures
        final(accounts).deep_view() == with_account(
            old(accounts).deep_view(),
            account.deep_view(),
            0,
        ),
{
    let ghost before = accounts.deep_view();
    let mut i: usize = 0;
    while i < accounts.len()
        invariant
            i <= accounts.len(),
            before == accounts.deep_view(),
            with_account(before, account.deep_view(), 0) == with_account(
                before,
                account.deep_view(),
                i as int,
            ),
        decreases accounts.len() - i,
    {
        assert(before[i as int] == accounts@[i as int].deep_view());
        if accounts[i].name == account.name {
            let mut merged = accounts[i].dup();
            merged.constraints.mutable = merged.constraints.mutable || account.constraints.mutable;
            merged.constraints.init = merged.constraints.init || account.constraints.init;
            merged.constraints.signer = merged.constraints.signer || account.constraints.signer;
            let ghost m = merged.deep_view();
            accounts.set(i, merged);
            assert(accounts.deep_view() =~= before.update(i as int, m));
            return ;
        }
        i += 1;
    }
    put(accounts, account);
}

/// What an instruction takes, from input `from` on, behind what was read
/// before: accounts and data arguments. The program context is neither: the
/// dispatcher supplies it.
pub open spec fn params_from(
    inputs: Seq<FnArgView>,
    from: int,
    accounts: Seq<AccountParamView>,
    args: Seq<ArgParamView>,
) -> Result<(Seq<AccountParamView>, Seq<ArgParamView>), Seq<char>>
    decreases inputs.len() - from,
{
    if from < 0 || from >= inputs.len() {
        Ok((accounts, args))
    } else {
        match inputs[from] {
            FnArgView::Receiver => Err("instruction functions cannot have self parameter"@),
            FnArgView::Typed(p) => match p.name {
                None => Err("expected simple identifier pattern"@),
                Some(name) => if account_type(p.ty) || vec_account_type(p.ty) {
                    match constraints_from(p.attrs, 0, unconstrained()) {
                        Err(e) => Err(e),
                        Ok(constraints) => params_from(
                            inputs,
                            from + 1,
                            with_account(
                                accounts,
                                AccountParamView {
                                    name,
                                    constraints,
                                    is_rest: !account_type(p.ty),
                                },
                                0,
                            ),
                            args,
                        ),
                    }
                } else if context_type(p.ty) {
                    params_from(inputs, from + 1, accounts, args)
                } else {
                    params_from(
                        inputs,
                        from + 1,
                        accounts,
                        args.push(ArgParamView { name, ty: p.ty }),
                    )
                },
            },
        }
    }
}

/// What [`parse_instruction`] reads.
pub open spec fn instruction_of(func: ItemFnView) -> Result<InstructionInfoView, Seq<char>> {
    match params_from(func.inputs, 0, Seq::empty(), Seq::empty()) {
        Ok((accounts, args)) => Ok(
            InstructionInfoView { fn_name: func.name, accounts, args, external_call_path: None },
        ),
        Err(e) => Err(e),
    }
}

/// Reads an instruction fn.
pub fn parse_instruction(func: &ItemFn) -> (r: Result<InstructionInfo, String>)
    ensures
        model::outcome(r) == instruction_of(func.deep_view()),
{
    let ghost inputs = func.deep_view().inputs;
    let mut accounts: Vec<AccountParam> = none();
    let mut args: Vec<ArgParam> = none();
    let mut i: usize = 0;
    while i < func.inputs.len()
        invariant
            i <= func.inputs.len(),
            inputs == func.inputs.deep_view(),
            params_from(inputs, 0, Seq::empty(), Seq::empty()) == params_from(
                inputs,
                i as int,
                accounts.deep_view(),
                args.deep_view(),
            ),
        decreases func.inputs.len() - i,
    {
        assert(inputs[i as int] == func.inputs@[i as int].deep_view());
        match &func.inputs[i] {
            FnArg::Typed(p) => {
                let name = match &p.name {
                    Some(n) => n.clone(),
                    None => {
                        return Err("expected simple identifier pattern".to_owned());
                    },
                };
                if is_account_type(&p.ty) || is_vec_account_type(&p.ty) {
                    match parse_account_constraints(&p.attrs) {
                        Ok(constraints) => {
                            add_account(
                                &mut accounts,
                                AccountParam { name, constraints, is_rest: !is_account_type(&p.ty) },
                            );
                        },
                        Err(e) => {
                            return Err(e);
                        },
                    }
                } else if is_context_type(&p.ty) {
                    // ProgramContext is injected by the dispatcher and never part of the IDL/ABI.
                } else {
                    put(&mut args, ArgParam { name, ty: p.ty.dup() });
                }
            },
            FnArg::Receiver => {
                return Err("instruction functions cannot have self parameter".to_owned());
            },
        }
        i += 1;
    }
    Ok(InstructionInfo { fn_name: func.name.clone(), accounts, args, external_call_path: None })
}

// ── Program module ───────────────────────────────────────────────────────

/// The first `#[lez_program]` module among `items`, from `from` on.
pub open spec fn program_from(items: Seq<ItemView>, from: int) -> Option<ItemModView>
    decreases items.len() - from,
{
    if from < 0 || from >= items.len() {
        None
    } else {
        match items[from] {
            ItemView::Mod(m) => if attrs::named(m.attrs, "lez_program"@) {
                Some(m)
            } else {
                program_from(items, from + 1)
            },
            _ => program_from(items, from + 1),
        }
    }
}

/// A source's program module and that module's items.
pub open spec fn opened(items: Seq<ItemView>, label: Seq<char>) -> Result<
    (ItemModView, Seq<ItemView>),
    IdlGenErrorView,
> {
    match program_from(items, 0) {
        None => Err(IdlGenErrorView::NoProgram(label)),
        Some(m) => match m.content {
            None => Err(IdlGenErrorView::NoProgram(label)),
            Some(inner) => Ok((m, inner)),
        },
    }
}

/// The fns from `from` on as instructions, behind those read before.
pub open spec fn instructions_from(
    fns: Seq<ItemFnView>,
    from: int,
    out: Seq<InstructionInfoView>,
) -> Result<Seq<InstructionInfoView>, Seq<char>>
    decreases fns.len() - from,
{
    if from < 0 || from >= fns.len() {
        Ok(out)
    } else {
        match instruction_of(fns[from]) {
            Ok(info) => instructions_from(fns, from + 1, out.push(info)),
            Err(e) => Err(e),
        }
    }
}

/// The instructions a program module declares: at least one.
pub open spec fn own_instructions(inner: Seq<ItemView>, label: Seq<char>) -> Result<
    Seq<InstructionInfoView>,
    IdlGenErrorView,
> {
    match instructions_from(discovery::instruction_fns(inner), 0, Seq::empty()) {
        Err(e) => Err(IdlGenErrorView::Parse(e)),
        Ok(infos) => if infos.len() == 0 {
            Err(IdlGenErrorView::NoInstructions(label))
        } else {
            Ok(infos)
        },
    }
}

fn find_program<'a>(items: &'a Vec<Item>) -> (r: Option<&'a ItemMod>)
    ensures
        r.deep_view() == program_from(items.deep_view(), 0),
{
    let ghost all = items.deep_view();
    let mut i: usize = 0;
    while i < items.len()
        invariant
            i <= items.len(),
            all == items.deep_view(),
            program_from(all, 0) == program_from(all, i as int),
        decreases items.len() - i,
    {
        assert(all[i as int] == items@[i as int].deep_view());
        if let Item::Mod(m) = &items[i] {
            if has_attr(&m.attrs, "lez_program") {
                return Some(m);
            }
        }
        i += 1;
    }
    None
}

fn parse_instructions(fns: &Vec<ItemFn>) -> (r: Result<Vec<InstructionInfo>, String>)
    ensures
        model::outcome(r) == instructions_from(fns.deep_view(), 0, Seq::empty()),
{
    let ghost all = fns.deep_view();
    let mut out: Vec<InstructionInfo> = none();
    let mut i: usize = 0;
    while i < fns.len()
        invariant
            i <= fns.len(),
            all == fns.deep_view(),
            instructions_from(all, 0, Seq::empty()) == instructions_from(
                all,
                i as int,
                out.deep_view(),
            ),
        decreases fns.len() - i,
    {
        assert(all[i as int] == fns@[i as int].deep_view());
        match parse_instruction(&fns[i]) {
            Ok(info) => {
                put(&mut out, info);
            },
            Err(e) => {
                return Err(e);
            },
        }
        i += 1;
    }
    Ok(out)
}

fn parse_own(inner: &Vec<Item>, label: &str) -> (r: Result<Vec<InstructionInfo>, IdlGenError>)
    ensures
        model::outcome(r) == own_instructions(inner.deep_view(), label@),
{
    match parse_instructions(&collect_instruction_fns(inner)) {
        Err(e) => Err(IdlGenError::Parse(e)),
        Ok(infos) => if infos.len() == 0 {
            Err(IdlGenError::NoInstructions(label.to_owned()))
        } else {
            Ok(infos)
        },
    }
}

// ── Instructions behind a gate pass ────────────────────────────────────

/// The consumer's fns from `from` on, gated and read.
pub open spec fn gated_from(
    p: PreparedProgramView,
    fns: Seq<ItemFnView>,
    from: int,
    out: Seq<InstructionInfoView>,
) -> Result<Seq<InstructionInfoView>, IdlGenErrorView>
    decreases fns.len() - from,
{
    if from < 0 || from >= fns.len() {
        Ok(out)
    } else {
        match p.gated(fns[from], None) {
            Err(e) => Err(IdlGenErrorView::MalformedExtensionMetadata(e)),
            Ok((f, _)) => match instruction_of(f) {
                Err(e) => Err(IdlGenErrorView::Parse(e)),
                Ok(info) => gated_from(p, fns, from + 1, out.push(info)),
            },
        }
    }
}

/// The path by which the dispatcher calls a discovered fn.
pub open spec fn call_path(crate_path: PathView, name: Seq<char>) -> PathView {
    PathView { leading_colon: crate_path.leading_colon, segments: crate_path.segments.push(name) }
}

/// The extensions' fns from `from` on, gated and read, behind those before.
pub open spec fn external_from(
    p: PreparedProgramView,
    list: Seq<PreparedInstructionView>,
    from: int,
    out: Seq<InstructionInfoView>,
) -> Result<Seq<InstructionInfoView>, IdlGenErrorView>
    decreases list.len() - from,
{
    if from < 0 || from >= list.len() {
        Ok(out)
    } else {
        match p.gated(list[from].func, Some(list[from].qualified)) {
            Err(e) => Err(IdlGenErrorView::MalformedExtensionMetadata(e)),
            Ok((f, _)) => match instruction_of(f) {
                Err(e) => Err(IdlGenErrorView::Parse(e)),
                Ok(info) => external_from(
                    p,
                    list,
                    from + 1,
                    out.push(
                        InstructionInfoView {
                            external_call_path: Some(
                                call_path(list[from].crate_path, info.fn_name),
                            ),
                            ..info
                        },
                    ),
                ),
            },
        }
    }
}

/// Instructions by name and by the side that owns them.
pub open spec fn labelled(infos: Seq<InstructionInfoView>) -> Seq<(Seq<char>, Seq<char>)> {
    infos.map_values(
        |i: InstructionInfoView| (i.fn_name, extension::source_label(i.external_call_path)),
    )
}

/// All instructions of a program whose dependency side is known: its own, then
/// the extensions', each behind a gate pass, no name twice.
pub open spec fn all_instructions(deps: ProgramDepsView, inner: Seq<ItemView>) -> Result<
    Seq<InstructionInfoView>,
    IdlGenErrorView,
> {
    match extension::prepared(deps, inner, CarriersView::Skip) {
        Err(e) => Err(IdlGenErrorView::MalformedExtensionMetadata(e)),
        Ok(p) => match gated_from(p, discovery::instruction_fns(inner), 0, Seq::empty()) {
            Err(e) => Err(e),
            Ok(own) => match external_from(p, p.instructions, 0, own) {
                Err(e) => Err(e),
                Ok(infos) => match extension::unique_from(labelled(infos), 0) {
                    Err(e) => Err(IdlGenErrorView::DuplicateInstruction(e)),
                    Ok(_) => Ok(infos),
                },
            },
        },
    }
}

fn gate_own(p: &PreparedProgram, fns: &Vec<ItemFn>) -> (r: Result<
    Vec<InstructionInfo>,
    IdlGenError,
>)
    ensures
        model::outcome(r) == gated_from(p.deep_view(), fns.deep_view(), 0, Seq::empty()),
{
    let ghost pv = p.deep_view();
    let ghost all = fns.deep_view();
    let mut out: Vec<InstructionInfo> = none();
    let mut i: usize = 0;
    while i < fns.len()
        invariant
            i <= fns.len(),
            pv == p.deep_view(),
            all == fns.deep_view(),
            gated_from(pv, all, 0, Seq::empty()) == gated_from(
                pv,
                all,
                i as int,
                out.deep_view(),
            ),
        decreases fns.len() - i,
    {
        assert(all[i as int] == fns@[i as int].deep_view());
        let mut f = fns[i].dup();
        if let Err(e) = p.gate(&mut f, None) {
            return Err(IdlGenError::MalformedExtensionMetadata(e));
        }
        match parse_instruction(&f) {
            Ok(info) => {
                put(&mut out, info);
            },
            Err(e) => {
                return Err(IdlGenError::Parse(e));
            },
        }
        i += 1;
    }
    Ok(out)
}

#[verifier::loop_isolation(false)]
fn gate_external(p: &PreparedProgram, own: Vec<InstructionInfo>) -> (r: Result<
    Vec<InstructionInfo>,
    IdlGenError,
>)
    ensures
        model::outcome(r) == external_from(
            p.deep_view(),
            p.deep_view().instructions,
            0,
            own.deep_view(),
        ),
{
    let ghost pv = p.deep_view();
    let ghost all = p.instructions.deep_view();
    let ghost start = own.deep_view();
    let mut out = own;
    let mut i: usize = 0;
    while i < p.instructions.len()
        invariant
            i <= p.instructions.len(),
            pv == p.deep_view(),
            all == p.instructions.deep_view(),
            external_from(pv, all, 0, start) == external_from(
                pv,
                all,
                i as int,
                out.deep_view(),
            ),
        decreases p.instructions.len() - i,
    {
        let x = &p.instructions[i];
        assert(all[i as int] == x.deep_view());
        let mut f = x.func.dup();
        if let Err(e) = p.gate(&mut f, Some(x.qualified.as_str())) {
            return Err(IdlGenError::MalformedExtensionMetadata(e));
        }
        match parse_instruction(&f) {
            Ok(info) => {
                let mut path = x.crate_path.dup();
                put(&mut path.segments, info.fn_name.clone());
                put(
                    &mut out,
                    InstructionInfo {
                        fn_name: info.fn_name,
                        accounts: info.accounts,
                        args: info.args,
                        external_call_path: Some(path),
                    },
                );
            },
            Err(e) => {
                return Err(IdlGenError::Parse(e));
            },
        }
        i += 1;
    }
    Ok(out)
}

fn label_instructions(infos: &Vec<InstructionInfo>) -> (r: Vec<(String, String)>)
    ensures
        r.deep_view() == labelled(infos.deep_view()),
{
    let mut out: Vec<(String, String)> = Vec::new();
    let mut i: usize = 0;
    while i < infos.len()
        invariant
            i <= infos.len(),
            out.len() == i,
            forall|j: int|
                0 <= j < i ==> (#[trigger] out@[j]).deep_view() == (
                    infos@[j].fn_name@,
                    extension::source_label(infos@[j].external_call_path.deep_view()),
                ),
        decreases infos.len() - i,
    {
        let label = instruction_source_label(infos[i].external_call_path.as_ref());
        out.push((infos[i].fn_name.clone(), label));
        i += 1;
    }
    assert(out.deep_view() =~= labelled(infos.deep_view()));
    out
}

/// All instructions of a program whose dependency side is known: the module's
/// own and those its extensions contribute, each behind a gate pass. Two of one
/// name are an error.
pub fn assemble_instructions(deps: ProgramDeps, inner: &Vec<Item>) -> (r: Result<
    Vec<InstructionInfo>,
    IdlGenError,
>)
    ensures
        model::outcome(r) == all_instructions(deps.deep_view(), inner.deep_view()),
{
    let p = match deps.prepare(inner, Carriers::Skip) {
        Ok(p) => p,
        Err(e) => {
            return Err(IdlGenError::MalformedExtensionMetadata(e));
        },
    };
    let own = match gate_own(&p, &collect_instruction_fns(inner)) {
        Ok(own) => own,
        Err(e) => {
            return Err(e);
        },
    };
    match gate_external(&p, own) {
        Ok(infos) => match check_duplicate_instruction_names(&label_instructions(&infos)) {
            Ok(_) => Ok(infos),
            Err(e) => Err(IdlGenError::DuplicateInstruction(e)),
        },
        Err(e) => Err(e),
    }
}

// ── Assembling the description ───────────────────────────────────────────

/// The text `instruction = "..."` gives among the entries from `from` on; the
/// last one counts. A value that does not parse ends the reading, and so does an
/// `instruction` that is given no text.
pub open spec fn instruction_text(
    entries: Seq<EntryView>,
    from: int,
    found: Option<Seq<char>>,
) -> Option<Seq<char>>
    decreases entries.len() - from,
{
    if from < 0 || from >= entries.len() {
        found
    } else {
        let e = entries[from];
        if e.path.is("instruction"@) {
            let next = if e.lead is Some {
                e.lead
            } else {
                found
            };
            if !e.assigned || (e.value matches Some(v) && v.kind is Str) {
                instruction_text(entries, from + 1, next)
            } else {
                next
            }
        } else if e.assigned && e.value is None {
            found
        } else {
            instruction_text(entries, from + 1, found)
        }
    }
}

/// The instruction enum a program brings along: `#[lez_program(instruction = "...")]`.
pub open spec fn external_instruction(mod_attrs: Seq<AttributeView>) -> Option<Seq<char>> {
    match attrs::first_named(mod_attrs, "lez_program"@, 0) {
        Some(i) => instruction_text(mod_attrs[i].entries(), 0, None),
        None => None,
    }
}

/// How the IDL writes a seed.
pub open spec fn idl_seed(s: PdaSeedDefView) -> IdlSeedView {
    match s {
        PdaSeedDefView::Const(v) => IdlSeedView::Const { value: v },
        PdaSeedDefView::Account(p) => IdlSeedView::Account { path: p },
        PdaSeedDefView::Arg(p) => IdlSeedView::Arg { path: p },
    }
}

/// How the IDL describes an account an instruction takes.
pub open spec fn idl_account(acc: AccountParamView) -> IdlAccountItemView {
    IdlAccountItemView {
        name: text::without_underscores(acc.name),
        writable: acc.constraints.mutable,
        signer: acc.constraints.signer,
        init: acc.constraints.init,
        owner: None,
        pda: if acc.constraints.pda_seeds.len() == 0 {
            None
        } else {
            Some(
                IdlPdaView {
                    seeds: acc.constraints.pda_seeds.map_values(|s: PdaSeedDefView| idl_seed(s)),
                    private: false,
                },
            )
        },
        rest: acc.is_rest,
        visibility: seq!["public"@],
    }
}

/// How the IDL describes a data argument.
pub open spec fn idl_arg(arg: ArgParamView) -> IdlArgView {
    IdlArgView {
        name: text::without_underscores(arg.name),
        type_: account_types::idl_type(arg.ty),
    }
}

/// The discriminator of an instruction: the first eight bytes of the SHA-256
/// hash of `global:` and its name.
pub open spec fn discriminator(name: Seq<char>) -> Seq<u8> {
    sha256::hash(vstd::utf8::encode_utf8("global:"@ + name)).take(8)
}

/// How an instruction is executed where nothing else is asked for.
pub open spec fn public_execution() -> IdlExecution {
    IdlExecution { public: true, private_owned: false }
}

/// How the IDL describes an instruction.
pub open spec fn idl_instruction(ix: InstructionInfoView) -> IdlInstructionView {
    IdlInstructionView {
        name: ix.fn_name,
        accounts: ix.accounts.map_values(|a: AccountParamView| idl_account(a)),
        args: ix.args.map_values(|a: ArgParamView| idl_arg(a)),
        discriminator: Some(discriminator(ix.fn_name)),
        execution: Some(public_execution()),
        variant: Some(text::pascal(ix.fn_name)),
    }
}

/// A description without its helper types, and the items those are found in.
#[verifier::ext_equal]
pub struct IdlDraft {
    pub idl: SpelIdlView,
    pub items: Seq<ItemView>,
}

/// The description of a program: its module, its instructions, and the layouts
/// annotated in its source, the module and `extra`.
pub open spec fn draft(
    items: Seq<ItemView>,
    m: ItemModView,
    inner: Seq<ItemView>,
    infos: Seq<InstructionInfoView>,
    extra: Seq<ItemView>,
) -> IdlDraft {
    let all = items + inner + extra;
    IdlDraft {
        idl: SpelIdlView {
            version: "0.1.0"@,
            name: m.name,
            instructions: infos.map_values(|ix: InstructionInfoView| idl_instruction(ix)),
            accounts: account_types::annotated(all),
            types: Seq::empty(),
            errors: Seq::empty(),
            spec: None,
            metadata: None,
            instruction_type: external_instruction(m.attrs),
        },
        items: all,
    }
}

/// Whether a description is a draft with the helper types of its items.
pub open spec fn completes(idl: SpelIdlView, d: IdlDraft) -> bool {
    idl == (SpelIdlView { types: idl.types, ..d.idl }) && account_types::are_helpers(
        d.items,
        idl.types,
    )
}

#[verifier::loop_isolation(false)]
fn find_external_instruction(mod_attrs: &Vec<Attribute>) -> (r: Option<String>)
    ensures
        r.deep_view() == external_instruction(mod_attrs.deep_view()),
{
    let at: usize = match find_attr(mod_attrs, "lez_program") {
        Some(i) => i,
        None => {
            return None;
        },
    };
    assert(mod_attrs.deep_view()[at as int] == mod_attrs@[at as int].deep_view());
    let l = match &mod_attrs[at].form {
        AttrForm::List(l) => l,
        _ => {
            return None;
        },
    };
    let ghost all = l.entries.deep_view();
    let mut found: Option<String> = None;
    let mut i: usize = 0;
    while i < l.entries.len()
        invariant
            i <= l.entries.len(),
            instruction_text(all, 0, None) == instruction_text(all, i as int, found.deep_view()),
        decreases l.entries.len() - i,
    {
        let e = &l.entries[i];
        assert(all[i as int] == e.deep_view());
        if e.path.is("instruction") {
            if e.lead.is_some() {
                found = e.lead.dup();
            }
            let whole = match &e.value {
                Some(v) => match &v.kind {
                    ExprKind::Str(_) => true,
                    _ => false,
                },
                None => false,
            };
            if e.assigned && !whole {
                return found;
            }
        } else if e.assigned && e.value.is_none() {
            return found;
        }
        i += 1;
    }
    found
}

fn build_seeds(seeds: &Vec<PdaSeedDef>) -> (r: Vec<IdlSeed>)
    ensures
        r.deep_view() == seeds.deep_view().map_values(|s: PdaSeedDefView| idl_seed(s)),
{
    let mut out: Vec<IdlSeed> = Vec::new();
    let mut i: usize = 0;
    while i < seeds.len()
        invariant
            i <= seeds.len(),
            out.len() == i,
            forall|j: int|
                0 <= j < i ==> (#[trigger] out@[j]).deep_view() == idl_seed(
                    seeds@[j].deep_view(),
                ),
        decreases seeds.len() - i,
    {
        out.push(
            match &seeds[i] {
                PdaSeedDef::Const(v) => IdlSeed::Const { value: v.clone() },
                PdaSeedDef::Account(p) => IdlSeed::Account { path: p.clone() },
                PdaSeedDef::Arg(p) => IdlSeed::Arg { path: p.clone() },
            },
        );
        i += 1;
    }
    assert(out.deep_view() =~= seeds.deep_view().map_values(|s: PdaSeedDefView| idl_seed(s)));
    out
}

fn build_account(acc: &AccountParam) -> (r: IdlAccountItem)
    ensures
        r.deep_view() == idl_account(acc.deep_view()),
{
    let pda = if acc.constraints.pda_seeds.len() == 0 {
        None
    } else {
        Some(IdlPda { seeds: build_seeds(&acc.constraints.pda_seeds), private: false })
    };
    IdlAccountItem {
        name: text::trim_underscores(acc.name.as_str()),
        writable: acc.constraints.mutable,
        signer: acc.constraints.signer,
        init: acc.constraints.init,
        owner: None,
        pda,
        rest: acc.is_rest,
        visibility: single("public".to_owned()),
    }
}

fn build_accounts(accounts: &Vec<AccountParam>) -> (r: Vec<IdlAccountItem>)
    ensures
        r.deep_view() == accounts.deep_view().map_values(|a: AccountParamView| idl_account(a)),
{
    let mut out: Vec<IdlAccountItem> = Vec::new();
    let mut i: usize = 0;
    while i < accounts.len()
        invariant
            i <= accounts.len(),
            out.len() == i,
            forall|j: int|
                0 <= j < i ==> (#[trigger] out@[j]).deep_view() == idl_account(
                    accounts@[j].deep_view(),
                ),
        decreases accounts.len() - i,
    {
        out.push(build_account(&accounts[i]));
        i += 1;
    }
    assert(out.deep_view() =~= accounts.deep_view().map_values(
        |a: AccountParamView| idl_account(a),
    ));
    out
}

fn build_args(args: &Vec<ArgParam>) -> (r: Vec<IdlArg>)
    ensures
        r.deep_view() == args.deep_view().map_values(|a: ArgParamView| idl_arg(a)),
{
    let mut out: Vec<IdlArg> = Vec::new();
    let mut i: usize = 0;
    while i < args.len()
        invariant
            i <= args.len(),
            out.len() == i,
            forall|j: int|
                0 <= j < i ==> (#[trigger] out@[j]).deep_view() == idl_arg(args@[j].deep_view()),
        decreases args.len() - i,
    {
        out.push(
            IdlArg {
                name: text::trim_underscores(args[i].name.as_str()),
                type_: syn_type_to_idl_type(&args[i].ty),
            },
        );
        i += 1;
    }
    assert(out.deep_view() =~= args.deep_view().map_values(|a: ArgParamView| idl_arg(a)));
    out
}

/// The discriminator of an instruction: the first eight bytes of the SHA-256
/// hash of `global:` and its name.
pub fn compute_discriminator(name: &str) -> (r: Vec<u8>)
    ensures
        r@ == discriminator(name@),
{
    let message = "global:".to_owned().concat(name);
    let mut r = sha256(message.as_str().as_bytes());
    r.truncate(8);
    r
}

fn build_instructions(infos: &Vec<InstructionInfo>) -> (r: Vec<IdlInstruction>)
    ensures
        r.deep_view() == infos.deep_view().map_values(
            |ix: InstructionInfoView| idl_instruction(ix),
        ),
{
    let mut out: Vec<IdlInstruction> = Vec::new();
    let mut i: usize = 0;
    while i < infos.len()
        invariant
            i <= infos.len(),
            out.len() == i,
            forall|j: int|
                0 <= j < i ==> (#[trigger] out@[j]).deep_view() == idl_instruction(
                    infos@[j].deep_view(),
                ),
        decreases infos.len() - i,
    {
        out.push(
            IdlInstruction {
                name: infos[i].fn_name.clone(),
                accounts: build_accounts(&infos[i].accounts),
                args: build_args(&infos[i].args),
                discriminator: Some(compute_discriminator(infos[i].fn_name.as_str())),
                execution: Some(IdlExecution { public: true, private_owned: false }),
                variant: Some(text::to_pascal(infos[i].fn_name.as_str())),
            },
        );
        i += 1;
    }
    assert(out.deep_view() =~= infos.deep_view().map_values(
        |ix: InstructionInfoView| idl_instruction(ix),
    ));
    out
}

fn build_idl(
    items: &Vec<Item>,
    m: &ItemMod,
    inner: &Vec<Item>,
    infos: &Vec<InstructionInfo>,
    extra: Vec<Item>,
) -> (r: SpelIdl)
    ensures
        completes(
            r.deep_view(),
            draft(
                items.deep_view(),
                m.deep_view(),
                inner.deep_view(),
                infos.deep_view(),
                extra.deep_view(),
            ),
        ),
{
    let mut all_items = items.dup();
    put_all(&mut all_items, inner.dup());
    put_all(&mut all_items, extra);
    let (accounts, types) = collect_account_types(&all_items);
    SpelIdl {
        version: "0.1.0".to_owned(),
        name: m.name.clone(),
        instructions: build_instructions(infos),
        accounts,
        types,
        errors: none(),
        spec: None,
        metadata: None,
        instruction_type: find_external_instruction(&m.attrs),
    }
}

// ── Entry points ─────────────────────────────────────────────────────────

/// What the IDL of a program with the items `items` describes, without its
/// dependencies.
pub open spec fn items_draft(items: Seq<ItemView>, label: Seq<char>) -> Result<
    IdlDraft,
    IdlGenErrorView,
> {
    match opened(items, label) {
        Err(e) => Err(e),
        Ok((m, inner)) => match own_instructions(inner, label) {
            Err(e) => Err(e),
            Ok(infos) => Ok(draft(items, m, inner, infos, Seq::empty())),
        },
    }
}

/// What [`generate_idl_from_str`] describes.
pub open spec fn str_draft(content: Seq<char>, label: Seq<char>) -> Result<
    IdlDraft,
    IdlGenErrorView,
> {
    match source::source_items(content) {
        Err(e) => Err(IdlGenErrorView::Parse(e)),
        Ok(items) => items_draft(items, label),
    }
}

/// The IDL of a program with the items `items`, without its dependencies.
///
/// `source_label` is used only in error messages.
pub fn generate_idl_from_items(items: &Vec<Item>, source_label: &str) -> (r: Result<
    SpelIdl,
    IdlGenError,
>)
    ensures
        match r {
            Ok(idl) => items_draft(items.deep_view(), source_label@) matches Ok(d) && completes(
                idl.deep_view(),
                d,
            ),
            Err(e) => items_draft(items.deep_view(), source_label@) == Err::<
                IdlDraft,
                IdlGenErrorView,
            >(e.deep_view()),
        },
{
    let m = match find_program(items) {
        Some(m) => m,
        None => {
            return Err(IdlGenError::NoProgram(source_label.to_owned()));
        },
    };
    proof {
        syntax::content_view(*m);
    }
    let inner = match &m.content {
        Some(inner) => inner,
        None => {
            return Err(IdlGenError::NoProgram(source_label.to_owned()));
        },
    };
    match parse_own(inner, source_label) {
        Ok(infos) => Ok(build_idl(items, m, inner, &infos, none())),
        Err(e) => Err(e),
    }
}

/// Parse a SPEL program from source text and return its [`SpelIdl`], without
/// its dependencies.
///
/// `source_label` is used only in error messages.
pub fn generate_idl_from_str(content: &str, source_label: &str) -> (r: Result<SpelIdl, IdlGenError>)
    ensures
        match r {
            Ok(idl) => str_draft(content@, source_label@) matches Ok(d) && completes(
                idl.deep_view(),
                d,
            ),
            Err(e) => str_draft(content@, source_label@) == Err::<IdlDraft, IdlGenErrorView>(
                e.deep_view(),
            ),
        },
{
    match parse_source(content) {
        Ok(items) => generate_idl_from_items(&items, source_label),
        Err(e) => Err(IdlGenError::Parse(e)),
    }
}

/// Why IDL generation over the disk stopped.
#[derive(Debug, PartialEq, Eq)]
pub enum IdlStop {
    /// A question about the disk is open; generation is to be repeated with its
    /// answer.
    Need(Query),
    /// Generation failed.
    Failed(IdlGenError),
}

/// The dependency side of a program, over the graph given or one resolved from
/// `source_path`, and the warnings.
pub open spec fn side(
    disk: DiskView,
    source_path: DirPathView,
    graph: Option<DepGraphView>,
    mod_attrs: Seq<AttributeView>,
    inner: Seq<ItemView>,
) -> (Result<ProgramDepsView, Seq<char>>, Seq<Seq<char>>) {
    match graph {
        Some(g) => extension::program_deps(disk, g, mod_attrs, inner),
        None => extension::resolved_deps(disk, source_path, mod_attrs, inner),
    }
}

/// The crates at `dirs`, each with the layouts it may declare in the IDL of the
/// program at `source_path`.
pub open spec fn dep_crates(
    disk: DiskView,
    source_path: DirPathView,
    dirs: Seq<DirPathView>,
    deps: ProgramDepsView,
) -> Seq<layouts::CrateItemsView> {
    layouts::crates_from(
        disk,
        dirs,
        deps,
        dep_walk::owned_path_dirs(disk, source_path),
        0,
        scan::no_scan(),
        Seq::empty(),
    )
}

/// What the IDL of the program with the items `items` describes, with the
/// layouts of the crates at `dirs`, and the warnings.
pub open spec fn program_draft(
    disk: DiskView,
    source_path: DirPathView,
    items: Seq<ItemView>,
    dirs: Seq<DirPathView>,
    graph: Option<DepGraphView>,
) -> (Result<IdlDraft, IdlGenErrorView>, Seq<Seq<char>>) {
    match opened(items, path::shown(source_path)) {
        Err(e) => (Err(e), Seq::empty()),
        Ok((m, inner)) => match own_instructions(inner, path::shown(source_path)) {
            Err(e) => (Err(e), Seq::empty()),
            Ok(_) => {
                let (r, ws) = side(disk, source_path, graph, m.attrs, inner);
                match r {
                    Err(e) => (Err(IdlGenErrorView::MalformedExtensionMetadata(e)), ws),
                    Ok(deps) => match all_instructions(deps, inner) {
                        Err(e) => (Err(e), ws),
                        Ok(infos) => {
                            let more = dep_crates(disk, source_path, dirs, deps);
                            match layouts::owned_from(
                                layouts::with_program(items + inner, more),
                                0,
                            ) {
                                Err(e) => (Err(IdlGenErrorView::DuplicateAccountType(e)), ws),
                                Ok(_) => (
                                    Ok(draft(items, m, inner, infos, layouts::items_of(more))),
                                    ws,
                                ),
                            }
                        },
                    },
                }
            },
        },
    }
}

/// What the IDL of the program at `source_path` describes, with the layouts of
/// the crates at `dirs`, and the warnings.
pub open spec fn file_draft(
    disk: DiskView,
    source_path: DirPathView,
    dirs: Seq<DirPathView>,
    graph: Option<DepGraphView>,
) -> (Result<IdlDraft, IdlGenErrorView>, Seq<Seq<char>>) {
    match disk.read(source_path) {
        ContentsView::Failed(e) => (Err(IdlGenErrorView::Io(e)), Seq::empty()),
        ContentsView::Text(content) => match source::source_items(content) {
            Err(e) => (Err(IdlGenErrorView::Parse(e)), Seq::empty()),
            Ok(items) => program_draft(disk, source_path, items, dirs, graph),
        },
    }
}

/// The first open question on the way to the dependency side of a program.
pub open spec fn side_question(
    disk: DiskView,
    source_path: DirPathView,
    graph: Option<DepGraphView>,
    mod_attrs: Seq<AttributeView>,
    inner: Seq<ItemView>,
) -> Option<QueryView> {
    match graph {
        Some(g) => extension::deps_question(disk, g, mod_attrs, inner),
        None => extension::resolved_question(disk, source_path, mod_attrs, inner),
    }
}

/// The first open question about the IDL of the program with the items `items`.
pub open spec fn program_question(
    disk: DiskView,
    source_path: DirPathView,
    items: Seq<ItemView>,
    dirs: Seq<DirPathView>,
    graph: Option<DepGraphView>,
) -> Option<QueryView> {
    match opened(items, path::shown(source_path)) {
        Err(_) => None,
        Ok((m, inner)) => match own_instructions(inner, path::shown(source_path)) {
            Err(_) => None,
            Ok(_) => disk::first_open(
                side_question(disk, source_path, graph, m.attrs, inner),
                match side(disk, source_path, graph, m.attrs, inner).0 {
                    Err(_) => None,
                    Ok(deps) => disk::first_open(
                        dep_walk::owned_paths_question(disk, source_path),
                        layouts::crates_question(
                            disk,
                            dirs,
                            deps,
                            dep_walk::owned_path_dirs(disk, source_path),
                            0,
                            scan::no_scan(),
                        ),
                    ),
                },
            ),
        },
    }
}

/// The first open question about the IDL of the program at `source_path`.
pub open spec fn file_question(
    disk: DiskView,
    source_path: DirPathView,
    dirs: Seq<DirPathView>,
    graph: Option<DepGraphView>,
) -> Option<QueryView> {
    disk::first_open(
        disk.question(QueryView::Read(source_path)),
        match disk.read(source_path) {
            ContentsView::Failed(_) => None,
            ContentsView::Text(content) => match source::source_items(content) {
                Err(_) => None,
                Ok(items) => program_question(disk, source_path, items, dirs, graph),
            },
        },
    )
}

/// Whether a result over the disk hands back the question that is open, and is
/// what is expected where none is.
pub open spec fn generated(
    r: Result<SpelIdl, IdlStop>,
    disk: DiskView,
    open: Option<QueryView>,
    expected: Result<IdlDraft, IdlGenErrorView>,
) -> bool {
    match r {
        Ok(idl) => open is None && (expected matches Ok(d) && completes(idl.deep_view(), d)),
        Err(IdlStop::Failed(e)) => open is None && expected == Err::<IdlDraft, IdlGenErrorView>(
            e.deep_view(),
        ),
        Err(IdlStop::Need(q)) => open == Some(q.deep_view()) && disk.lacks(q.deep_view()),
    }
}

/// Whether generation ran to its end, so that its warnings are complete.
pub open spec fn ended(r: Result<SpelIdl, IdlStop>) -> bool {
    !(r matches Err(IdlStop::Need(_)))
}

/// The IDL of the program with the items `items`, read from `source_path`, over
/// the disk.
pub fn generate_idl_from_items_with_deps(
    disk: &Disk,
    source_path: &DirPath,
    items: &Vec<Item>,
    dep_source_dirs: &Vec<DirPath>,
    graph: Option<DepGraph>,
    warnings: &mut Vec<String>,
) -> (r: Result<SpelIdl, IdlStop>)
    ensures
        ({
            let (expected, ws) = program_draft(
                disk.deep_view(),
                source_path.deep_view(),
                items.deep_view(),
                dep_source_dirs.deep_view(),
                graph.deep_view(),
            );
            generated(
                r,
                disk.deep_view(),
                program_question(
                    disk.deep_view(),
                    source_path.deep_view(),
                    items.deep_view(),
                    dep_source_dirs.deep_view(),
                    graph.deep_view(),
                ),
                expected,
            ) && (ended(r) ==> final(warnings).deep_view()
                == old(warnings).deep_view() + ws)
        }),
{
    let ghost before = warnings.deep_view();
    assert(before + Seq::<Seq<char>>::empty() =~= before);
    let label = source_path.display();
    // Find the #[lez_program] module
    let m = match find_program(items) {
        Some(m) => m,
        None => {
            return Err(IdlStop::Failed(IdlGenError::NoProgram(label)));
        },
    };
    proof {
        syntax::content_view(*m);
    }
    let inner = match &m.content {
        Some(inner) => inner,
        None => {
            return Err(IdlStop::Failed(IdlGenError::NoProgram(label)));
        },
    };
    if let Err(e) = parse_own(inner, label.as_str()) {
        return Err(IdlStop::Failed(e));
    }
    let resolved = match graph {
        Some(g) => resolve_program_deps_with_graph(disk, g, &m.attrs, inner, warnings),
        None => resolve_program_deps(disk, source_path, &m.attrs, inner, warnings),
    };
    let deps = match resolved {
        Ok(deps) => deps,
        Err(Stop::Refused(e)) => {
            return Err(IdlStop::Failed(IdlGenError::MalformedExtensionMetadata(e)));
        },
        Err(Stop::Need(q)) => {
            return Err(IdlStop::Need(q));
        },
    };
    let own_dirs = match own_path_dep_dirs(disk, source_path) {
        Ok(own_dirs) => own_dirs,
        Err(q) => {
            return Err(IdlStop::Need(q));
        },
    };
    let more = match collect_crates(disk, dep_source_dirs, &deps, &own_dirs) {
        Ok(more) => more,
        Err(q) => {
            return Err(IdlStop::Need(q));
        },
    };
    let infos = match assemble_instructions(deps, inner) {
        Ok(infos) => infos,
        Err(e) => {
            return Err(IdlStop::Failed(e));
        },
    };
    let extra = join_items(&more);
    let mut own = items.dup();
    put_all(&mut own, inner.dup());
    match check_layout_owners(&join_program(own, more)) {
        Ok(_) => Ok(build_idl(items, m, inner, &infos, extra)),
        Err(e) => Err(IdlStop::Failed(IdlGenError::DuplicateAccountType(e))),
    }
}

/// Core IDL generation logic over the disk.
fn generate_idl_inner(
    disk: &Disk,
    source_path: &DirPath,
    dep_source_dirs: &Vec<DirPath>,
    graph: Option<DepGraph>,
    warnings: &mut Vec<String>,
) -> (r: Result<SpelIdl, IdlStop>)
    ensures
        ({
            let (expected, ws) = file_draft(
                disk.deep_view(),
                source_path.deep_view(),
                dep_source_dirs.deep_view(),
                graph.deep_view(),
            );
            generated(
                r,
                disk.deep_view(),
                file_question(
                    disk.deep_view(),
                    source_path.deep_view(),
                    dep_source_dirs.deep_view(),
                    graph.deep_view(),
                ),
                expected,
            ) && (ended(r) ==> final(warnings).deep_view()
                == old(warnings).deep_view() + ws)
        }),
{
    let ghost before = warnings.deep_view();
    assert(before + Seq::<Seq<char>>::empty() =~= before);
    let content = match disk.read(source_path) {
        Ok(Contents::Text(content)) => content,
        Ok(Contents::Failed(e)) => {
            return Err(IdlStop::Failed(IdlGenError::Io(e)));
        },
        Err(q) => {
            return Err(IdlStop::Need(q));
        },
    };
    match parse_source(content.as_str()) {
        Ok(items) => generate_idl_from_items_with_deps(
            disk,
            source_path,
            &items,
            dep_source_dirs,
            graph,
            warnings,
        ),
        Err(e) => Err(IdlStop::Failed(IdlGenError::Parse(e))),
    }
}

/// Parse a SPEL program source file and return its [`SpelIdl`].
///
/// The path is resolved relative to the current working directory,
/// which is the natural behavior for a CLI tool.
pub fn generate_idl_from_file(disk: &Disk, source_path: &DirPath, warnings: &mut Vec<String>) -> (r:
    Result<SpelIdl, IdlStop>)
    ensures
        ({
            let (expected, ws) = file_draft(
                disk.deep_view(),
                source_path.deep_view(),
                Seq::empty(),
                None,
            );
            generated(
                r,
                disk.deep_view(),
                file_question(
                    disk.deep_view(),
                    source_path.deep_view(),
                    Seq::empty(),
                    None,
                ),
                expected,
            ) && (ended(r) ==> final(warnings).deep_view()
                == old(warnings).deep_view() + ws)
        }),
{
    generate_idl_from_file_with_deps(disk, source_path, &none(), warnings)
}

/// Parse a SPEL program source file and return its [`SpelIdl`], also scanning
/// the library source of each crate directory in `dep_source_dirs` for
/// `#[account_type]`-annotated types.
///
/// Each entry in `dep_source_dirs` should be a Rust crate root (the directory
/// that contains `src/lib.rs`).  Only local path-dependencies should be passed
/// here — third-party registry or git crates are intentionally excluded to
/// avoid pulling in unrelated type definitions.
pub fn generate_idl_from_file_with_deps(
    disk: &Disk,
    source_path: &DirPath,
    dep_source_dirs: &Vec<DirPath>,
    warnings: &mut Vec<String>,
) -> (r: Result<SpelIdl, IdlStop>)
    ensures
        ({
            let (expected, ws) = file_draft(
                disk.deep_view(),
                source_path.deep_view(),
                dep_source_dirs.deep_view(),
                None,
            );
            generated(
                r,
                disk.deep_view(),
                file_question(
                    disk.deep_view(),
                    source_path.deep_view(),
                    dep_source_dirs.deep_view(),
                    None,
                ),
                expected,
            ) && (ended(r) ==> final(warnings).deep_view()
                == old(warnings).deep_view() + ws)
        }),
{
    generate_idl_inner(disk, source_path, dep_source_dirs, None, warnings)
}

/// [`generate_idl_from_file_with_deps`] over a graph the caller already
/// resolved, scanning its transitive dependencies. A producer holding a graph
/// hands it over instead of paying for a second resolution of one manifest.
pub fn generate_idl_from_file_with_graph(
    disk: &Disk,
    source_path: &DirPath,
    graph: DepGraph,
    warnings: &mut Vec<String>,
) -> (r: Result<SpelIdl, IdlStop>)
    ensures
        ({
            let (expected, ws) = file_draft(
                disk.deep_view(),
                source_path.deep_view(),
                graph.deep_view().transitive_dirs,
                Some(graph.deep_view()),
            );
            generated(
                r,
                disk.deep_view(),
                file_question(
                    disk.deep_view(),
                    source_path.deep_view(),
                    graph.deep_view().transitive_dirs,
                    Some(graph.deep_view()),
                ),
                expected,
            ) && (ended(r) ==> final(warnings).deep_view()
                == old(warnings).deep_view() + ws)
        }),
{
    let dirs = graph.transitive_dirs.dup();
    generate_idl_inner(disk, source_path, &dirs, Some(graph), warnings)
}

/// The message of an error.
pub open spec fn error_message(e: IdlGenErrorView) -> Seq<char> {
    match e {
        IdlGenErrorView::Io(e) => "IO error: "@ + e,
        IdlGenErrorView::Parse(e) => "Parse error: "@ + e,
        IdlGenErrorView::NoProgram(p) => "No #[lez_program] module found in '"@ + p + "'"@,
        IdlGenErrorView::NoInstructions(p) => "No #[instruction] functions found in '"@ + p + "'"@,
        IdlGenErrorView::MalformedExtensionMetadata(e) => "Malformed extension metadata: '"@ + e
            + "'"@,
        IdlGenErrorView::DuplicateInstruction(e) => "Duplicate instruction: '"@ + e + "'"@,
        IdlGenErrorView::DuplicateAccountType(e) => "Duplicate account type: '"@ + e + "'"@,
    }
}

impl IdlGenError {
    /// The error as a sentence.
    pub fn message(&self) -> (r: String)
        ensures
            r@ == error_message(self.deep_view()),
    {
        match self {
            IdlGenError::Io(e) => "IO error: ".to_owned().concat(e.as_str()),
            IdlGenError::Parse(e) => "Parse error: ".to_owned().concat(e.as_str()),
            IdlGenError::NoProgram(p) => "No #[lez_program] module found in '".to_owned().concat(
                p.as_str(),
            ).concat("'"),
            IdlGenError::NoInstructions(
                p,
            ) => "No #[instruction] functions found in '".to_owned().concat(p.as_str()).concat("'"),
            IdlGenError::MalformedExtensionMetadata(
                e,
            ) => "Malformed extension metadata: '".to_owned().concat(e.as_str()).concat("'"),
            IdlGenError::DuplicateInstruction(e) => "Duplicate instruction: '".to_owned().concat(
                e.as_str(),
            ).concat("'"),
            IdlGenError::DuplicateAccountType(e) => "Duplicate account type: '".to_owned().concat(
                e.as_str(),
            ).concat("'"),
        }
    }
}

} // verus!
