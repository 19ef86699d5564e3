//! Rust source as plain values: what the framework reads of items, functions,
//! parameters, attributes and expressions, and nothing else.
use crate::model::Dup;
use vstd::prelude::*;

verus! {

/// A path without generic arguments, such as `::admin_authority::gate`.
#[derive(Debug, PartialEq, Eq)]
pub struct Path {
    /// Whether the path starts with `::`.
    pub leading_colon: bool,
    /// The names between the `::` separators.
    pub segments: Vec<String>,
}

/// What a [`Path`] holds.
#[verifier::ext_equal]
pub struct PathView {
    pub leading_colon: bool,
    pub segments: Seq<Seq<char>>,
}

impl DeepView for Path {
    type V = PathView;

    open spec fn deep_view(&self) -> PathView {
        PathView {
            leading_colon: self.leading_colon,
            segments: self.segments.deep_view(),
        }
    }
}

impl Dup for Path {
    fn dup(&self) -> (r: Self) {
        Path {
            leading_colon: self.leading_colon,
            segments: self.segments.dup(),
        }
    }
}

/// A call expression, such as `literal("state")`.
#[derive(Debug, PartialEq, Eq)]
pub struct Call {
    /// The called name, where the callee is a single name.
    pub func: Option<String>,
    /// The value of each argument that is a string literal; `None` for any other.
    pub args: Vec<Option<String>>,
}

/// What a [`Call`] holds.
#[verifier::ext_equal]
pub struct CallView {
    pub func: Option<Seq<char>>,
    pub args: Seq<Option<Seq<char>>>,
}

impl DeepView for Call {
    type V = CallView;

    open spec fn deep_view(&self) -> CallView {
        CallView {
            func: self.func.deep_view(),
            args: self.args.deep_view(),
        }
    }
}

impl Dup for Call {
    fn dup(&self) -> (r: Self) {
        Call {
            func: self.func.dup(),
            args: self.args.dup(),
        }
    }
}

/// The shape of an expression, as far as the framework tells shapes apart.
#[derive(Debug, PartialEq, Eq)]
pub enum ExprKind {
    /// A call.
    Call(Call),
    /// An array; `None` for an element that is not a call.
    Array(Vec<Option<Call>>),
    /// A string literal.
    Str(String),
    /// An integer literal that fits a `usize`.
    Int(usize),
    /// An integer literal that does not, with the reason.
    BadInt(String),
    /// A path; the name, where it is a single one.
    Name(Option<String>),
    /// Anything else.
    Other,
}

/// What a [`ExprKind`] holds.
#[verifier::ext_equal]
pub enum ExprKindView {
    Call(CallView),
    Array(Seq<Option<CallView>>),
    Str(Seq<char>),
    Int(usize),
    BadInt(Seq<char>),
    Name(Option<Seq<char>>),
    Other,
}

impl DeepView for ExprKind {
    type V = ExprKindView;

    open spec fn deep_view(&self) -> ExprKindView {
        match self {
            ExprKind::Call(a) => ExprKindView::Call(a.deep_view()),
            ExprKind::Array(a) => ExprKindView::Array(a.deep_view()),
            ExprKind::Str(a) => ExprKindView::Str(a@),
            ExprKind::Int(a) => ExprKindView::Int(*a),
            ExprKind::BadInt(a) => ExprKindView::BadInt(a@),
            ExprKind::Name(a) => ExprKindView::Name(a.deep_view()),
            ExprKind::Other => ExprKindView::Other,
        }
    }
}

impl Dup for ExprKind {
    fn dup(&self) -> (r: Self) {
        match self {
            ExprKind::Call(a) => ExprKind::Call(a.dup()),
            ExprKind::Array(a) => ExprKind::Array(a.dup()),
            ExprKind::Str(a) => ExprKind::Str(a.clone()),
            ExprKind::Int(a) => ExprKind::Int(*a),
            ExprKind::BadInt(a) => ExprKind::BadInt(a.clone()),
            ExprKind::Name(a) => ExprKind::Name(a.dup()),
            ExprKind::Other => ExprKind::Other,
        }
    }
}

/// An expression: its tokens and its shape.
#[derive(Debug, PartialEq, Eq)]
pub struct Expr {
    /// The tokens of the expression, rendered canonically.
    pub text: String,
    pub kind: ExprKind,
}

/// What a [`Expr`] holds.
#[verifier::ext_equal]
pub struct ExprView {
    pub text: Seq<char>,
    pub kind: ExprKindView,
}

impl DeepView for Expr {
    type V = ExprView;

    open spec fn deep_view(&self) -> ExprView {
        ExprView {
            text: self.text@,
            kind: self.kind.deep_view(),
        }
    }
}

impl Dup for Expr {
    fn dup(&self) -> (r: Self) {
        Expr {
            text: self.text.clone(),
            kind: self.kind.dup(),
        }
    }
}

/// One comma-separated entry of an attribute's argument list, read as a path
/// that an `= value` may follow.
#[derive(Debug, PartialEq, Eq)]
pub struct Entry {
    pub path: Path,
    /// Whether `=` follows the path.
    pub assigned: bool,
    /// The string literal right behind `=`.
    pub lead: Option<String>,
    /// The expression behind `=`.
    pub value: Option<Expr>,
    /// Why there is no value: the parser's words.
    pub error: String,
}

/// What a [`Entry`] holds.
#[verifier::ext_equal]
pub struct EntryView {
    pub path: PathView,
    pub assigned: bool,
    pub lead: Option<Seq<char>>,
    pub value: Option<ExprView>,
    pub error: Seq<char>,
}

impl DeepView for Entry {
    type V = EntryView;

    open spec fn deep_view(&self) -> EntryView {
        EntryView {
            path: self.path.deep_view(),
            assigned: self.assigned,
            lead: self.lead.deep_view(),
            value: self.value.deep_view(),
            error: self.error@,
        }
    }
}

impl Dup for Entry {
    fn dup(&self) -> (r: Self) {
        Entry {
            path: self.path.dup(),
            assigned: self.assigned,
            lead: self.lead.dup(),
            value: self.value.dup(),
            error: self.error.clone(),
        }
    }
}

/// What follows the path of a nested attribute argument.
#[derive(Debug, PartialEq, Eq)]
pub enum MetaForm {
    /// Nothing.
    Bare,
    /// A delimited list.
    List,
    /// `= value`.
    Value(Expr),
}

/// What a [`MetaForm`] holds.
#[verifier::ext_equal]
pub enum MetaFormView {
    Bare,
    List,
    Value(ExprView),
}

impl DeepView for MetaForm {
    type V = MetaFormView;

    open spec fn deep_view(&self) -> MetaFormView {
        match self {
            MetaForm::Bare => MetaFormView::Bare,
            MetaForm::List => MetaFormView::List,
            MetaForm::Value(a) => MetaFormView::Value(a.deep_view()),
        }
    }
}

impl Dup for MetaForm {
    fn dup(&self) -> (r: Self) {
        match self {
            MetaForm::Bare => MetaForm::Bare,
            MetaForm::List => MetaForm::List,
            MetaForm::Value(a) => MetaForm::Value(a.dup()),
        }
    }
}

/// One attribute argument read as an attribute of its own.
#[derive(Debug, PartialEq, Eq)]
pub struct Meta {
    pub path: Path,
    pub form: MetaForm,
}

/// What a [`Meta`] holds.
#[verifier::ext_equal]
pub struct MetaView {
    pub path: PathView,
    pub form: MetaFormView,
}

impl DeepView for Meta {
    type V = MetaView;

    open spec fn deep_view(&self) -> MetaView {
        MetaView {
            path: self.path.deep_view(),
            form: self.form.deep_view(),
        }
    }
}

impl Dup for Meta {
    fn dup(&self) -> (r: Self) {
        Meta {
            path: self.path.dup(),
            form: self.form.dup(),
        }
    }
}

/// A token of an attribute's argument list.
#[derive(Debug, PartialEq, Eq)]
pub enum Token {
    /// A name.
    Ident(String),
    /// A delimited group.
    Group(Vec<Token>),
    /// Punctuation or a literal.
    Other,
}

/// What a [`Token`] holds.
#[verifier::ext_equal]
pub enum TokenView {
    Ident(Seq<char>),
    Group(Seq<TokenView>),
    Other,
}

/// The view of a token.
pub open spec fn token_view(t: Token) -> TokenView
    decreases t,
{
    match t {
        Token::Ident(s) => TokenView::Ident(s@),
        Token::Group(g) => TokenView::Group(
            Seq::new(
                g@.len(),
                |i: int|
                    if 0 <= i < g@.len() {
                        token_view(g@[i])
                    } else {
                        arbitrary()
                    },
            ),
        ),
        Token::Other => TokenView::Other,
    }
}

impl DeepView for Token {
    type V = TokenView;

    open spec fn deep_view(&self) -> TokenView {
        token_view(*self)
    }
}

fn dup_token(t: &Token) -> (r: Token)
    ensures
        token_view(r) == token_view(*t),
    decreases t,
{
    match t {
        Token::Ident(s) => Token::Ident(s.clone()),
        Token::Group(g) => {
            let mut out: Vec<Token> = Vec::new();
            let mut i: usize = 0;
            while i < g.len()
                invariant
                    i <= g.len(),
                    out.len() == i,
                    t matches Token::Group(b) && *g == b,
                    forall|j: int| 0 <= j < i ==> token_view(#[trigger] out@[j]) == token_view(g@[j]),
                decreases g.len() - i,
            {
                out.push(dup_token(&g[i]));
                i += 1;
            }
            let r = Token::Group(out);
            assert(token_view(r)->Group_0 =~= token_view(*t)->Group_0);
            r
        },
        Token::Other => Token::Other,
    }
}

impl Dup for Token {
    fn dup(&self) -> (r: Self) {
        dup_token(self)
    }
}

/// The argument list of an attribute, in the readings the framework takes of it.
#[derive(Debug, PartialEq, Eq)]
pub struct List {
    /// The list as entries, up to the first that does not parse.
    pub entries: Vec<Entry>,
    /// Why reading entries stopped early.
    pub stop: Option<String>,
    /// The list as nested attributes; empty when `malformed` is set.
    pub metas: Vec<Meta>,
    /// Why the list is no list of nested attributes.
    pub malformed: Option<String>,
    /// The list as bare tokens; kept of `cfg` alone.
    pub tokens: Vec<Token>,
}

/// What a [`List`] holds.
#[verifier::ext_equal]
pub struct ListView {
    pub entries: Seq<EntryView>,
    pub stop: Option<Seq<char>>,
    pub metas: Seq<MetaView>,
    pub malformed: Option<Seq<char>>,
    pub tokens: Seq<TokenView>,
}

impl DeepView for List {
    type V = ListView;

    open spec fn deep_view(&self) -> ListView {
        ListView {
            entries: self.entries.deep_view(),
            stop: self.stop.deep_view(),
            metas: self.metas.deep_view(),
            malformed: self.malformed.deep_view(),
            tokens: self.tokens.deep_view(),
        }
    }
}

impl Dup for List {
    fn dup(&self) -> (r: Self) {
        List {
            entries: self.entries.dup(),
            stop: self.stop.dup(),
            metas: self.metas.dup(),
            malformed: self.malformed.dup(),
            tokens: self.tokens.dup(),
        }
    }
}

/// What follows the path of an attribute.
#[derive(Debug, PartialEq, Eq)]
pub enum AttrForm {
    /// Nothing: `#[path]`.
    Bare,
    /// Arguments: `#[path(...)]`.
    List(List),
    /// A value: `#[path = value]`.
    Value(Expr),
}

/// What a [`AttrForm`] holds.
#[verifier::ext_equal]
pub enum AttrFormView {
    Bare,
    List(ListView),
    Value(ExprView),
}

impl DeepView for AttrForm {
    type V = AttrFormView;

    open spec fn deep_view(&self) -> AttrFormView {
        match self {
            AttrForm::Bare => AttrFormView::Bare,
            AttrForm::List(a) => AttrFormView::List(a.deep_view()),
            AttrForm::Value(a) => AttrFormView::Value(a.deep_view()),
        }
    }
}

impl Dup for AttrForm {
    fn dup(&self) -> (r: Self) {
        match self {
            AttrForm::Bare => AttrForm::Bare,
            AttrForm::List(a) => AttrForm::List(a.dup()),
            AttrForm::Value(a) => AttrForm::Value(a.dup()),
        }
    }
}

/// An attribute.
#[derive(Debug, PartialEq, Eq)]
pub struct Attribute {
    pub path: Path,
    pub form: AttrForm,
}

/// What a [`Attribute`] holds.
#[verifier::ext_equal]
pub struct AttributeView {
    pub path: PathView,
    pub form: AttrFormView,
}

impl DeepView for Attribute {
    type V = AttributeView;

    open spec fn deep_view(&self) -> AttributeView {
        AttributeView {
            path: self.path.deep_view(),
            form: self.form.deep_view(),
        }
    }
}

impl Dup for Attribute {
    fn dup(&self) -> (r: Self) {
        Attribute {
            path: self.path.dup(),
            form: self.form.dup(),
        }
    }
}

/// A type, as far as the framework tells types apart.
#[derive(Debug, PartialEq, Eq)]
pub enum Type {
    /// A path; its last name and, where the last segment has generic arguments
    /// that start with a type, that type.
    Named { ident: String, arg: Option<Box<Type>> },
    /// An array; its length where that is an integer literal fitting a `usize`.
    Array { elem: Box<Type>, len: Option<usize> },
    /// Anything else: references, tuples, slices.
    Other,
}

/// What a [`Type`] holds.
#[verifier::ext_equal]
pub enum TypeView {
    Named { ident: Seq<char>, arg: Option<Box<TypeView>> },
    Array { elem: Box<TypeView>, len: Option<usize> },
    Other,
}

/// The view of a type.
pub open spec fn type_view(t: Type) -> TypeView
    decreases t,
{
    match t {
        Type::Named { ident, arg } => TypeView::Named {
            ident: ident@,
            arg: match arg {
                Some(a) => Some(Box::new(type_view(*a))),
                None => None,
            },
        },
        Type::Array { elem, len } => TypeView::Array { elem: Box::new(type_view(*elem)), len },
        Type::Other => TypeView::Other,
    }
}

impl DeepView for Type {
    type V = TypeView;

    open spec fn deep_view(&self) -> TypeView {
        type_view(*self)
    }
}

fn dup_type(t: &Type) -> (r: Type)
    ensures
        type_view(r) == type_view(*t),
    decreases t,
{
    match t {
        Type::Named { ident, arg } => Type::Named {
            ident: ident.clone(),
            arg: match arg {
                Some(a) => Some(Box::new(dup_type(a))),
                None => None,
            },
        },
        Type::Array { elem, len } => Type::Array { elem: Box::new(dup_type(elem)), len: *len },
        Type::Other => Type::Other,
    }
}

impl Dup for Type {
    fn dup(&self) -> (r: Self) {
        dup_type(self)
    }
}

/// A typed parameter.
#[derive(Debug, PartialEq, Eq)]
pub struct Param {
    pub attrs: Vec<Attribute>,
    /// The name, where the pattern is a plain one.
    pub name: Option<String>,
    pub ty: Type,
}

/// What a [`Param`] holds.
#[verifier::ext_equal]
pub struct ParamView {
    pub attrs: Seq<AttributeView>,
    pub name: Option<Seq<char>>,
    pub ty: TypeView,
}

impl DeepView for Param {
    type V = ParamView;

    open spec fn deep_view(&self) -> ParamView {
        ParamView {
            attrs: self.attrs.deep_view(),
            name: self.name.deep_view(),
            ty: self.ty.deep_view(),
        }
    }
}

impl Dup for Param {
    fn dup(&self) -> (r: Self) {
        Param {
            attrs: self.attrs.dup(),
            name: self.name.dup(),
            ty: self.ty.dup(),
        }
    }
}

/// One input of a function.
#[derive(Debug, PartialEq, Eq)]
pub enum FnArg {
    /// `self` in any form.
    Receiver,
    /// `name: Type`.
    Typed(Param),
}

/// What a [`FnArg`] holds.
#[verifier::ext_equal]
pub enum FnArgView {
    Receiver,
    Typed(ParamView),
}

impl DeepView for FnArg {
    type V = FnArgView;

    open spec fn deep_view(&self) -> FnArgView {
        match self {
            FnArg::Receiver => FnArgView::Receiver,
            FnArg::Typed(a) => FnArgView::Typed(a.deep_view()),
        }
    }
}

impl Dup for FnArg {
    fn dup(&self) -> (r: Self) {
        match self {
            FnArg::Receiver => FnArg::Receiver,
            FnArg::Typed(a) => FnArg::Typed(a.dup()),
        }
    }
}

/// A function: its attributes, name and inputs.
#[derive(Debug, PartialEq, Eq)]
pub struct ItemFn {
    pub attrs: Vec<Attribute>,
    pub name: String,
    pub inputs: Vec<FnArg>,
}

/// What a [`ItemFn`] holds.
#[verifier::ext_equal]
pub struct ItemFnView {
    pub attrs: Seq<AttributeView>,
    pub name: Seq<char>,
    pub inputs: Seq<FnArgView>,
}

impl DeepView for ItemFn {
    type V = ItemFnView;

    open spec fn deep_view(&self) -> ItemFnView {
        ItemFnView {
            attrs: self.attrs.deep_view(),
            name: self.name@,
            inputs: self.inputs.deep_view(),
        }
    }
}

impl Dup for ItemFn {
    fn dup(&self) -> (r: Self) {
        ItemFn {
            attrs: self.attrs.dup(),
            name: self.name.clone(),
            inputs: self.inputs.dup(),
        }
    }
}

/// A named field.
#[derive(Debug, PartialEq, Eq)]
pub struct Field {
    pub attrs: Vec<Attribute>,
    pub name: String,
    pub ty: Type,
}

/// What a [`Field`] holds.
#[verifier::ext_equal]
pub struct FieldView {
    pub attrs: Seq<AttributeView>,
    pub name: Seq<char>,
    pub ty: TypeView,
}

impl DeepView for Field {
    type V = FieldView;

    open spec fn deep_view(&self) -> FieldView {
        FieldView {
            attrs: self.attrs.deep_view(),
            name: self.name@,
            ty: self.ty.deep_view(),
        }
    }
}

impl Dup for Field {
    fn dup(&self) -> (r: Self) {
        Field {
            attrs: self.attrs.dup(),
            name: self.name.clone(),
            ty: self.ty.dup(),
        }
    }
}

/// A struct.
#[derive(Debug, PartialEq, Eq)]
pub struct ItemStruct {
    pub attrs: Vec<Attribute>,
    pub name: String,
    /// The named fields; `None` for a tuple or unit struct.
    pub fields: Option<Vec<Field>>,
}

/// What a [`ItemStruct`] holds.
#[verifier::ext_equal]
pub struct ItemStructView {
    pub attrs: Seq<AttributeView>,
    pub name: Seq<char>,
    pub fields: Option<Seq<FieldView>>,
}

impl DeepView for ItemStruct {
    type V = ItemStructView;

    open spec fn deep_view(&self) -> ItemStructView {
        ItemStructView {
            attrs: self.attrs.deep_view(),
            name: self.name@,
            fields: self.fields.deep_view(),
        }
    }
}

impl Dup for ItemStruct {
    fn dup(&self) -> (r: Self) {
        ItemStruct {
            attrs: self.attrs.dup(),
            name: self.name.clone(),
            fields: self.fields.dup(),
        }
    }
}

/// An enum variant.
#[derive(Debug, PartialEq, Eq)]
pub struct Variant {
    pub name: String,
    /// The named fields; `None` for a tuple or unit variant.
    pub fields: Option<Vec<Field>>,
}

/// What a [`Variant`] holds.
#[verifier::ext_equal]
pub struct VariantView {
    pub name: Seq<char>,
    pub fields: Option<Seq<FieldView>>,
}

impl DeepView for Variant {
    type V = VariantView;

    open spec fn deep_view(&self) -> VariantView {
        VariantView {
            name: self.name@,
            fields: self.fields.deep_view(),
        }
    }
}

impl Dup for Variant {
    fn dup(&self) -> (r: Self) {
        Variant {
            name: self.name.clone(),
            fields: self.fields.dup(),
        }
    }
}

/// An enum.
#[derive(Debug, PartialEq, Eq)]
pub struct ItemEnum {
    pub attrs: Vec<Attribute>,
    pub name: String,
    pub variants: Vec<Variant>,
}

/// What a [`ItemEnum`] holds.
#[verifier::ext_equal]
pub struct ItemEnumView {
    pub attrs: Seq<AttributeView>,
    pub name: Seq<char>,
    pub variants: Seq<VariantView>,
}

impl DeepView for ItemEnum {
    type V = ItemEnumView;

    open spec fn deep_view(&self) -> ItemEnumView {
        ItemEnumView {
            attrs: self.attrs.deep_view(),
            name: self.name@,
            variants: self.variants.deep_view(),
        }
    }
}

impl Dup for ItemEnum {
    fn dup(&self) -> (r: Self) {
        ItemEnum {
            attrs: self.attrs.dup(),
            name: self.name.clone(),
            variants: self.variants.dup(),
        }
    }
}

/// A type alias.
#[derive(Debug, PartialEq, Eq)]
pub struct ItemType {
    pub attrs: Vec<Attribute>,
    pub name: String,
    pub ty: Type,
}

/// What a [`ItemType`] holds.
#[verifier::ext_equal]
pub struct ItemTypeView {
    pub attrs: Seq<AttributeView>,
    pub name: Seq<char>,
    pub ty: TypeView,
}

impl DeepView for ItemType {
    type V = ItemTypeView;

    open spec fn deep_view(&self) -> ItemTypeView {
        ItemTypeView {
            attrs: self.attrs.deep_view(),
            name: self.name@,
            ty: self.ty.deep_view(),
        }
    }
}

impl Dup for ItemType {
    fn dup(&self) -> (r: Self) {
        ItemType {
            attrs: self.attrs.dup(),
            name: self.name.clone(),
            ty: self.ty.dup(),
        }
    }
}

/// A module.
#[derive(Debug, PartialEq, Eq)]
pub struct ItemMod {
    pub attrs: Vec<Attribute>,
    pub name: String,
    /// The items of an inline module; `None` for `mod name;`.
    pub content: Option<Vec<Item>>,
}

/// An item of a file or module.
#[derive(Debug, PartialEq, Eq)]
pub enum Item {
    Fn(ItemFn),
    Struct(ItemStruct),
    Enum(ItemEnum),
    Type(ItemType),
    Mod(ItemMod),
    /// Any other item, with its attributes where its kind is known.
    Other(Vec<Attribute>),
}

/// What an [`ItemMod`] holds.
#[verifier::ext_equal]
pub struct ItemModView {
    pub attrs: Seq<AttributeView>,
    pub name: Seq<char>,
    pub content: Option<Seq<ItemView>>,
}

/// What an [`Item`] holds.
#[verifier::ext_equal]
pub enum ItemView {
    Fn(ItemFnView),
    Struct(ItemStructView),
    Enum(ItemEnumView),
    Type(ItemTypeView),
    Mod(ItemModView),
    Other(Seq<AttributeView>),
}

/// The view of an item.
pub open spec fn item_view(t: Item) -> ItemView
    decreases t,
{
    match t {
        Item::Fn(x) => ItemView::Fn(x.deep_view()),
        Item::Struct(x) => ItemView::Struct(x.deep_view()),
        Item::Enum(x) => ItemView::Enum(x.deep_view()),
        Item::Type(x) => ItemView::Type(x.deep_view()),
        Item::Mod(x) => ItemView::Mod(
            ItemModView {
                attrs: x.attrs.deep_view(),
                name: x.name@,
                content: match x.content {
                    None => None,
                    Some(c) => Some(
                        Seq::new(
                            c@.len(),
                            |i: int|
                                if 0 <= i < c@.len() {
                                    item_view(c@[i])
                                } else {
                                    arbitrary()
                                },
                        ),
                    ),
                },
            },
        ),
        Item::Other(a) => ItemView::Other(a.deep_view()),
    }
}

impl DeepView for Item {
    type V = ItemView;

    open spec fn deep_view(&self) -> ItemView {
        item_view(*self)
    }
}

/// The view of a module.
pub open spec fn mod_view(m: ItemMod) -> ItemModView {
    item_view(Item::Mod(m))->Mod_0
}

impl DeepView for ItemMod {
    type V = ItemModView;

    open spec fn deep_view(&self) -> ItemModView {
        mod_view(*self)
    }
}

/// The items of a list of items, one by one.
pub proof fn content_view(m: ItemMod)
    ensures
        m.content is None ==> m.deep_view().content is None,
        m.content matches Some(c) ==> m.deep_view().content == Some(c.deep_view()),
        m.deep_view().attrs == m.attrs.deep_view(),
        m.deep_view().name == m.name@,
        item_view(Item::Mod(m)) == ItemView::Mod(m.deep_view()),
{
    if let Some(c) = m.content {
        assert(m.deep_view().content->Some_0 =~= c.deep_view());
    }
}

fn dup_item(t: &Item) -> (r: Item)
    ensures
        item_view(r) == item_view(*t),
    decreases t,
{
    match t {
        Item::Fn(x) => Item::Fn(x.dup()),
        Item::Struct(x) => Item::Struct(x.dup()),
        Item::Enum(x) => Item::Enum(x.dup()),
        Item::Type(x) => Item::Type(x.dup()),
        Item::Mod(x) => {
            match &x.content {
                None => {
                    Item::Mod(ItemMod { attrs: x.attrs.dup(), name: x.name.clone(), content: None })
                },
                Some(c) => {
                    let mut out: Vec<Item> = Vec::new();
                    let mut i: usize = 0;
                    while i < c.len()
                        invariant
                            i <= c.len(),
                            out.len() == i,
                            t matches Item::Mod(m) && *x == m,
                            x.content matches Some(b) && *c == b,
                            forall|j: int| 0 <= j < i ==> item_view(#[trigger] out@[j]) == item_view(c@[j]),
                        decreases c.len() - i,
                    {
                        out.push(dup_item(&c[i]));
                        i += 1;
                    }
                    let r = Item::Mod(
                        ItemMod { attrs: x.attrs.dup(), name: x.name.clone(), content: Some(out) },
                    );
                    assert(item_view(r)->Mod_0.content->Some_0 =~= item_view(*t)->Mod_0.content->Some_0);
                    r
                },
            }
        },
        Item::Other(a) => Item::Other(a.dup()),
    }
}

impl Dup for Item {
    fn dup(&self) -> (r: Self) {
        dup_item(self)
    }
}

} // verus!
