//! The interface description of a program.
use vstd::prelude::*;

verus! {

/// A type as the interface description writes it.
#[derive(Debug, PartialEq, Eq)]
pub enum IdlType {
    /// A built-in type, by name.
    Primitive(String),
    /// A list.
    Vec { vec: Box<IdlType> },
    /// A value that may be missing.
    Option { option: Box<IdlType> },
    /// A type described elsewhere, by name.
    Defined { defined: String },
    /// A fixed number of values.
    Array { array: (Box<IdlType>, usize) },
}

/// What an [`IdlType`] holds.
#[verifier::ext_equal]
pub enum IdlTypeView {
    Primitive(Seq<char>),
    Vec { vec: Box<IdlTypeView> },
    Option { option: Box<IdlTypeView> },
    Defined { defined: Seq<char> },
    Array { elem: Box<IdlTypeView>, len: usize },
}

/// The view of an interface type.
pub open spec fn idl_type_view(t: IdlType) -> IdlTypeView
    decreases t,
{
    match t {
        IdlType::Primitive(n) => IdlTypeView::Primitive(n@),
        IdlType::Vec { vec } => IdlTypeView::Vec { vec: Box::new(idl_type_view(*vec)) },
        IdlType::Option { option } => IdlTypeView::Option {
            option: Box::new(idl_type_view(*option)),
        },
        IdlType::Defined { defined } => IdlTypeView::Defined { defined: defined@ },
        IdlType::Array { array } => IdlTypeView::Array {
            elem: Box::new(idl_type_view(*array.0)),
            len: array.1,
        },
    }
}

impl DeepView for IdlType {
    type V = IdlTypeView;

    open spec fn deep_view(&self) -> IdlTypeView {
        idl_type_view(*self)
    }
}

/// A named field.
#[derive(Debug, PartialEq, Eq)]
pub struct IdlField {
    pub name: String,
    pub type_: IdlType,
}

/// What a [`IdlField`] holds.
#[verifier::ext_equal]
pub struct IdlFieldView {
    pub name: Seq<char>,
    pub type_: IdlTypeView,
}

impl DeepView for IdlField {
    type V = IdlFieldView;

    open spec fn deep_view(&self) -> IdlFieldView {
        IdlFieldView {
            name: self.name@,
            type_: self.type_.deep_view(),
        }
    }
}

/// A variant of an enum and its named fields.
#[derive(Debug, PartialEq, Eq)]
pub struct IdlEnumVariant {
    pub name: String,
    pub fields: Vec<IdlField>,
}

/// What a [`IdlEnumVariant`] holds.
#[verifier::ext_equal]
pub struct IdlEnumVariantView {
    pub name: Seq<char>,
    pub fields: Seq<IdlFieldView>,
}

impl DeepView for IdlEnumVariant {
    type V = IdlEnumVariantView;

    open spec fn deep_view(&self) -> IdlEnumVariantView {
        IdlEnumVariantView {
            name: self.name@,
            fields: self.fields.deep_view(),
        }
    }
}

/// The layout of a struct or enum.
#[derive(Debug, PartialEq, Eq)]
pub struct IdlTypeDef {
    pub name: String,
    /// `struct` or `enum`.
    pub kind: String,
    pub fields: Vec<IdlField>,
    pub variants: Vec<IdlEnumVariant>,
}

/// What a [`IdlTypeDef`] holds.
#[verifier::ext_equal]
pub struct IdlTypeDefView {
    pub name: Seq<char>,
    pub kind: Seq<char>,
    pub fields: Seq<IdlFieldView>,
    pub variants: Seq<IdlEnumVariantView>,
}

impl DeepView for IdlTypeDef {
    type V = IdlTypeDefView;

    open spec fn deep_view(&self) -> IdlTypeDefView {
        IdlTypeDefView {
            name: self.name@,
            kind: self.kind@,
            fields: self.fields.deep_view(),
            variants: self.variants.deep_view(),
        }
    }
}

/// The layout of an account.
#[derive(Debug, PartialEq, Eq)]
pub struct IdlAccountType {
    pub name: String,
    pub type_: IdlTypeDef,
}

/// What a [`IdlAccountType`] holds.
#[verifier::ext_equal]
pub struct IdlAccountTypeView {
    pub name: Seq<char>,
    pub type_: IdlTypeDefView,
}

impl DeepView for IdlAccountType {
    type V = IdlAccountTypeView;

    open spec fn deep_view(&self) -> IdlAccountTypeView {
        IdlAccountTypeView {
            name: self.name@,
            type_: self.type_.deep_view(),
        }
    }
}

/// One seed of a derived address.
#[derive(Debug, PartialEq, Eq)]
pub enum IdlSeed {
    /// A constant text.
    Const { value: String },
    /// The id of another account.
    Account { path: String },
    /// The value of an argument.
    Arg { path: String },
}

/// What a [`IdlSeed`] holds.
#[verifier::ext_equal]
pub enum IdlSeedView {
    Const { value: Seq<char> },
    Account { path: Seq<char> },
    Arg { path: Seq<char> },
}

impl DeepView for IdlSeed {
    type V = IdlSeedView;

    open spec fn deep_view(&self) -> IdlSeedView {
        match self {
            IdlSeed::Const { value } => IdlSeedView::Const { value: value@ },
            IdlSeed::Account { path } => IdlSeedView::Account { path: path@ },
            IdlSeed::Arg { path } => IdlSeedView::Arg { path: path@ },
        }
    }
}

/// A derived address.
#[derive(Debug, PartialEq, Eq)]
pub struct IdlPda {
    pub seeds: Vec<IdlSeed>,
    pub private: bool,
}

/// What a [`IdlPda`] holds.
#[verifier::ext_equal]
pub struct IdlPdaView {
    pub seeds: Seq<IdlSeedView>,
    pub private: bool,
}

impl DeepView for IdlPda {
    type V = IdlPdaView;

    open spec fn deep_view(&self) -> IdlPdaView {
        IdlPdaView {
            seeds: self.seeds.deep_view(),
            private: self.private,
        }
    }
}

/// An account an instruction takes.
#[derive(Debug, PartialEq, Eq)]
pub struct IdlAccountItem {
    pub name: String,
    pub writable: bool,
    pub signer: bool,
    pub init: bool,
    pub owner: Option<String>,
    pub pda: Option<IdlPda>,
    /// Whether the account stands for the variable-length rest of the list.
    pub rest: bool,
    /// Who may see the account.
    pub visibility: Vec<String>,
}

/// What a [`IdlAccountItem`] holds.
#[verifier::ext_equal]
pub struct IdlAccountItemView {
    pub name: Seq<char>,
    pub writable: bool,
    pub signer: bool,
    pub init: bool,
    pub owner: Option<Seq<char>>,
    pub pda: Option<IdlPdaView>,
    pub rest: bool,
    pub visibility: Seq<Seq<char>>,
}

impl DeepView for IdlAccountItem {
    type V = IdlAccountItemView;

    open spec fn deep_view(&self) -> IdlAccountItemView {
        IdlAccountItemView {
            name: self.name@,
            writable: self.writable,
            signer: self.signer,
            init: self.init,
            owner: self.owner.deep_view(),
            pda: self.pda.deep_view(),
            rest: self.rest,
            visibility: self.visibility.deep_view(),
        }
    }
}

/// An argument an instruction takes.
#[derive(Debug, PartialEq, Eq)]
pub struct IdlArg {
    pub name: String,
    pub type_: IdlType,
}

/// What a [`IdlArg`] holds.
#[verifier::ext_equal]
pub struct IdlArgView {
    pub name: Seq<char>,
    pub type_: IdlTypeView,
}

impl DeepView for IdlArg {
    type V = IdlArgView;

    open spec fn deep_view(&self) -> IdlArgView {
        IdlArgView {
            name: self.name@,
            type_: self.type_.deep_view(),
        }
    }
}

/// How an instruction may be executed.
#[derive(Debug, Clone, Copy, PartialEq, Eq)]
pub struct IdlExecution {
    pub public: bool,
    pub private_owned: bool,
}

impl DeepView for IdlExecution {
    type V = IdlExecution;

    open spec fn deep_view(&self) -> IdlExecution {
        *self
    }
}

/// An instruction.
#[derive(Debug, PartialEq, Eq)]
pub struct IdlInstruction {
    pub name: String,
    pub accounts: Vec<IdlAccountItem>,
    pub args: Vec<IdlArg>,
    /// The first eight bytes of the hash of `global:` and the name.
    pub discriminator: Option<Vec<u8>>,
    pub execution: Option<IdlExecution>,
    /// The name in PascalCase.
    pub variant: Option<String>,
}

/// What a [`IdlInstruction`] holds.
#[verifier::ext_equal]
pub struct IdlInstructionView {
    pub name: Seq<char>,
    pub accounts: Seq<IdlAccountItemView>,
    pub args: Seq<IdlArgView>,
    pub discriminator: Option<Seq<u8>>,
    pub execution: Option<IdlExecution>,
    pub variant: Option<Seq<char>>,
}

impl DeepView for IdlInstruction {
    type V = IdlInstructionView;

    open spec fn deep_view(&self) -> IdlInstructionView {
        IdlInstructionView {
            name: self.name@,
            accounts: self.accounts.deep_view(),
            args: self.args.deep_view(),
            discriminator: self.discriminator.deep_view(),
            execution: self.execution.deep_view(),
            variant: self.variant.deep_view(),
        }
    }
}

/// The interface description of a program.
#[derive(Debug, PartialEq, Eq)]
pub struct SpelIdl {
    pub version: String,
    pub name: String,
    pub instructions: Vec<IdlInstruction>,
    pub accounts: Vec<IdlAccountType>,
    pub types: Vec<IdlTypeDef>,
    pub errors: Vec<String>,
    pub spec: Option<String>,
    pub metadata: Option<String>,
    /// The instruction enum the program brings along, by path.
    pub instruction_type: Option<String>,
}

/// What a [`SpelIdl`] holds.
#[verifier::ext_equal]
pub struct SpelIdlView {
    pub version: Seq<char>,
    pub name: Seq<char>,
    pub instructions: Seq<IdlInstructionView>,
    pub accounts: Seq<IdlAccountTypeView>,
    pub types: Seq<IdlTypeDefView>,
    pub errors: Seq<Seq<char>>,
    pub spec: Option<Seq<char>>,
    pub metadata: Option<Seq<char>>,
    pub instruction_type: Option<Seq<char>>,
}

impl DeepView for SpelIdl {
    type V = SpelIdlView;

    open spec fn deep_view(&self) -> SpelIdlView {
        SpelIdlView {
            version: self.version@,
            name: self.name@,
            instructions: self.instructions.deep_view(),
            accounts: self.accounts.deep_view(),
            types: self.types.deep_view(),
            errors: self.errors.deep_view(),
            spec: self.spec.deep_view(),
            metadata: self.metadata.deep_view(),
            instruction_type: self.instruction_type.deep_view(),
        }
    }
}

} // verus!
