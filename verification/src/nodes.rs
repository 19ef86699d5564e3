//! The Rust parser, one node at a time.
//!
//! Each function here hands one text to `syn` (or `proc_macro2`) and gives the
//! node it finds back as plain values, with the tokens of the parts it does not
//! open rendered as text. What the parser makes of a text takes a grammar to
//! state, so the results have names.
//!
//! `proc_macro2` has a lexer and a printer of its own, and inside a procedural
//! macro it would hand both jobs to the compiler. Each function first calls
//! `proc_macro2::fallback::force`, after which the crate's own are used in every
//! process, so that a result depends on the text alone.
use proc_macro2::fallback::force;
use quote::ToTokens;
use syn::parse::Parser;
use syn::{token, Expr, GenericArgument, Lit, LitStr, PathArguments, Type};
use vstd::prelude::*;

verus! {

/// The texts of the items of a file, or why it does not parse.
pub uninterp spec fn parsed_file(text: Seq<char>) -> Result<Seq<Seq<char>>, Seq<char>>;

/// `syn::parse_file`: the items of a source file, each rendered as text, or the
/// parser's message.
#[verifier::external_body]
pub(crate) fn file_items(text: &str) -> (r: Result<Vec<String>, String>)
    ensures
        crate::model::outcome(r) == parsed_file(text@),
{
    force();
    match syn::parse_file(text) {
        Ok(f) => Ok(f.items.iter().map(|i| i.to_token_stream().to_string()).collect()),
        Err(e) => Err(e.to_string()),
    }
}

/// Attributes, name and inputs of a function item.
pub uninterp spec fn parsed_fn(text: Seq<char>) -> Option<(Seq<Seq<char>>, Seq<char>, Seq<Seq<char>>)>;

/// `syn::parse_str::<syn::ItemFn>`: the texts of the function's attributes, its
/// name and the texts of its inputs. `None` for any other text.
#[verifier::external_body]
pub(crate) fn fn_node(text: &str) -> (r: Option<(Vec<String>, String, Vec<String>)>)
    ensures
        r.deep_view() == parsed_fn(text@),
{
    force();
    let f = syn::parse_str::<syn::ItemFn>(text).ok()?;
    let attrs = f.attrs.iter().map(|a| a.meta.to_token_stream().to_string()).collect();
    let inputs = f.sig.inputs.iter().map(|i| i.to_token_stream().to_string()).collect();
    Some((attrs, f.sig.ident.to_string(), inputs))
}

/// Attributes, plain name and type of a typed input.
pub uninterp spec fn parsed_input(text: Seq<char>) -> Option<(Seq<Seq<char>>, Option<Seq<char>>, Seq<char>)>;

/// `syn::parse_str::<syn::FnArg>` on a typed input: the texts of its
/// attributes, its name where the pattern is a plain one, and the text of its
/// type. `None` for a receiver.
#[verifier::external_body]
pub(crate) fn input_node(text: &str) -> (r: Option<(Vec<String>, Option<String>, String)>)
    ensures
        r.deep_view() == parsed_input(text@),
{
    force();
    let Ok(syn::FnArg::Typed(p)) = syn::parse_str::<syn::FnArg>(text) else {
        return None;
    };
    let attrs = p.attrs.iter().map(|a| a.meta.to_token_stream().to_string()).collect();
    let name = match &*p.pat {
        syn::Pat::Ident(i) => Some(i.ident.to_string()),
        _ => None,
    };
    Some((attrs, name, p.ty.to_token_stream().to_string()))
}

/// A struct as the parser hands it out.
#[derive(Debug, PartialEq, Eq)]
pub struct StructNode {
    pub attrs: Vec<String>,
    pub vis: String,
    pub name: String,
    pub generics: String,
    pub bounds: String,
    pub fields: Option<Vec<String>>,
}

/// What a [`StructNode`] holds.
#[verifier::ext_equal]
pub struct StructNodeView {
    pub attrs: Seq<Seq<char>>,
    pub vis: Seq<char>,
    pub name: Seq<char>,
    pub generics: Seq<char>,
    pub bounds: Seq<char>,
    pub fields: Option<Seq<Seq<char>>>,
}

impl DeepView for StructNode {
    type V = StructNodeView;

    open spec fn deep_view(&self) -> StructNodeView {
        StructNodeView {
            attrs: self.attrs.deep_view(),
            vis: self.vis@,
            name: self.name@,
            generics: self.generics@,
            bounds: self.bounds@,
            fields: self.fields.deep_view(),
        }
    }
}

/// The parts of a struct item.
pub uninterp spec fn parsed_struct(text: Seq<char>) -> Option<StructNodeView>;

/// `syn::parse_str::<syn::ItemStruct>`: the texts of the struct's attributes, of
/// its visibility, its name, the texts of its generic parameters and of its
/// `where` clause, empty where it has none, and the texts of its fields where
/// they are named. `None` for any other text.
#[verifier::external_body]
pub(crate) fn struct_node(text: &str) -> (r: Option<StructNode>)
    ensures
        r.deep_view() == parsed_struct(text@),
{
    force();
    let s = syn::parse_str::<syn::ItemStruct>(text).ok()?;
    let text_of = |t: &dyn ToTokens| t.to_token_stream().to_string();
    let attrs = s.attrs.iter().map(|a| text_of(&a.meta)).collect();
    let (vis, name) = (text_of(&s.vis), s.ident.to_string());
    let (generics, bounds) = (text_of(&s.generics), text_of(&s.generics.where_clause));
    let fields = match &s.fields {
        syn::Fields::Named(n) => Some(n.named.iter().map(|f| text_of(f)).collect()),
        _ => None,
    };
    Some(StructNode { attrs, vis, name, generics, bounds, fields })
}

/// Attributes, name and variants of an enum item.
pub uninterp spec fn parsed_enum(text: Seq<char>) -> Option<(Seq<Seq<char>>, Seq<char>, Seq<Seq<char>>)>;

/// `syn::parse_str::<syn::ItemEnum>`: the texts of the enum's attributes, its
/// name and the texts of its variants. `None` for any other text.
#[verifier::external_body]
pub(crate) fn enum_node(text: &str) -> (r: Option<(Vec<String>, String, Vec<String>)>)
    ensures
        r.deep_view() == parsed_enum(text@),
{
    force();
    let e = syn::parse_str::<syn::ItemEnum>(text).ok()?;
    let attrs = e.attrs.iter().map(|a| a.meta.to_token_stream().to_string()).collect();
    let variants = e.variants.iter().map(|v| v.to_token_stream().to_string()).collect();
    Some((attrs, e.ident.to_string(), variants))
}

/// Name and named fields of an enum variant.
pub uninterp spec fn parsed_variant(text: Seq<char>) -> Option<(Seq<char>, Option<Seq<Seq<char>>>)>;

/// `syn::parse_str::<syn::Variant>`: the variant's name and the texts of its
/// fields where they are named. `None` for a text that is no variant.
#[verifier::external_body]
pub(crate) fn variant_node(text: &str) -> (r: Option<(String, Option<Vec<String>>)>)
    ensures
        r.deep_view() == parsed_variant(text@),
{
    force();
    let v = syn::parse_str::<syn::Variant>(text).ok()?;
    let fields = match &v.fields {
        syn::Fields::Named(n) => Some(n.named.iter().map(|f| f.to_token_stream().to_string()).collect()),
        _ => None,
    };
    Some((v.ident.to_string(), fields))
}

/// Attributes, visibility, name and type of a named field.
pub uninterp spec fn parsed_field(text: Seq<char>) -> Option<(Seq<Seq<char>>, Seq<char>, Seq<char>, Seq<char>)>;

/// `syn::Field::parse_named`: the texts of the field's attributes and of its
/// visibility, its name and the text of its type. `None` for a text that is no
/// named field.
#[verifier::external_body]
pub(crate) fn field_node(text: &str) -> (r: Option<(Vec<String>, String, String, String)>)
    ensures
        r.deep_view() == parsed_field(text@),
{
    force();
    let f = syn::Field::parse_named.parse_str(text).ok()?;
    let attrs = f.attrs.iter().map(|a| a.meta.to_token_stream().to_string()).collect();
    let vis = f.vis.to_token_stream().to_string();
    Some((attrs, vis, f.ident?.to_string(), f.ty.to_token_stream().to_string()))
}

/// The tokens of a type path, or why the text is none.
pub uninterp spec fn rendered_path(text: Seq<char>) -> Result<Seq<char>, Seq<char>>;

/// `syn::parse_str::<syn::Path>` and back: the path's tokens rendered as text,
/// or the parser's message.
#[verifier::external_body]
pub(crate) fn render_type_path(text: &str) -> (r: Result<String, String>)
    ensures
        crate::model::outcome(r) == rendered_path(text@),
{
    force();
    match syn::parse_str::<syn::Path>(text) {
        Ok(p) => Ok(p.to_token_stream().to_string()),
        Err(e) => Err(e.to_string()),
    }
}

/// Attributes, name and type of an alias item.
pub uninterp spec fn parsed_alias(text: Seq<char>) -> Option<(Seq<Seq<char>>, Seq<char>, Seq<char>)>;

/// `syn::parse_str::<syn::ItemType>`: the texts of the alias's attributes, its
/// name and the text of its target. `None` for any other text.
#[verifier::external_body]
pub(crate) fn alias_node(text: &str) -> (r: Option<(Vec<String>, String, String)>)
    ensures
        r.deep_view() == parsed_alias(text@),
{
    force();
    let t = syn::parse_str::<syn::ItemType>(text).ok()?;
    let attrs = t.attrs.iter().map(|a| a.meta.to_token_stream().to_string()).collect();
    Some((attrs, t.ident.to_string(), t.ty.to_token_stream().to_string()))
}

/// Attributes, name and inline items of a module item.
pub uninterp spec fn parsed_mod(text: Seq<char>) -> Option<(Seq<Seq<char>>, Seq<char>, Option<Seq<Seq<char>>>)>;

/// `syn::parse_str::<syn::ItemMod>`: the texts of the module's attributes, its
/// name and, where it is inline, the texts of its items. `None` for any other
/// text.
#[verifier::external_body]
pub(crate) fn mod_node(text: &str) -> (r: Option<(Vec<String>, String, Option<Vec<String>>)>)
    ensures
        r.deep_view() == parsed_mod(text@),
{
    force();
    let m = syn::parse_str::<syn::ItemMod>(text).ok()?;
    let attrs = m.attrs.iter().map(|a| a.meta.to_token_stream().to_string()).collect();
    let items = m.content.map(|(_, c)| c.iter().map(|i| i.to_token_stream().to_string()).collect());
    Some((attrs, m.ident.to_string(), items))
}

/// Attributes of an item of another kind.
pub uninterp spec fn parsed_other(text: Seq<char>) -> Seq<Seq<char>>;

/// `syn::parse_str::<syn::Item>` on a trait, impl, static, constant, crate
/// import or use item: the texts of its attributes. Empty for any other text.
#[verifier::external_body]
pub(crate) fn other_attrs(text: &str) -> (r: Vec<String>)
    ensures
        r.deep_view() == parsed_other(text@),
{
    force();
    let attrs = match syn::parse_str::<syn::Item>(text) {
        Ok(syn::Item::Trait(x)) => x.attrs,
        Ok(syn::Item::Impl(x)) => x.attrs,
        Ok(syn::Item::Static(x)) => x.attrs,
        Ok(syn::Item::Const(x)) => x.attrs,
        Ok(syn::Item::ExternCrate(x)) => x.attrs,
        Ok(syn::Item::Use(x)) => x.attrs,
        _ => Vec::new(),
    };
    attrs.iter().map(|a| a.meta.to_token_stream().to_string()).collect()
}

/// Path, argument list and value of an attribute.
pub uninterp spec fn parsed_attr(text: Seq<char>) -> (bool, Seq<Seq<char>>, Option<Seq<char>>, Option<Seq<char>>);

/// `syn::parse_str::<syn::Meta>` on what stands inside `#[...]`: whether the
/// path starts with `::`, its names, the tokens of its argument list where it
/// has one, and the tokens of its value where it has one. A text that is no
/// attribute has an empty path.
#[verifier::external_body]
pub(crate) fn attr_node(text: &str) -> (r: (bool, Vec<String>, Option<String>, Option<String>))
    ensures
        r.deep_view() == parsed_attr(text@),
{
    force();
    let Ok(m) = syn::parse_str::<syn::Meta>(text) else {
        return (false, Vec::new(), None, None);
    };
    let names = m.path().segments.iter().map(|s| s.ident.to_string()).collect();
    let leading = m.path().leading_colon.is_some();
    match m {
        syn::Meta::Path(_) => (leading, names, None, None),
        syn::Meta::List(l) => (leading, names, Some(l.tokens.to_string()), None),
        syn::Meta::NameValue(v) => (leading, names, None, Some(v.value.to_token_stream().to_string())),
    }
}

/// One entry of an argument list as the parser hands it out.
#[derive(Debug, PartialEq, Eq)]
pub struct EntryNode {
    pub leading: bool,
    pub names: Vec<String>,
    pub assigned: bool,
    pub value: Result<String, String>,
}

/// What an [`EntryNode`] holds.
#[verifier::ext_equal]
pub struct EntryNodeView {
    pub leading: bool,
    pub names: Seq<Seq<char>>,
    pub assigned: bool,
    pub value: Result<Seq<char>, Seq<char>>,
}

impl DeepView for EntryNode {
    type V = EntryNodeView;

    open spec fn deep_view(&self) -> EntryNodeView {
        EntryNodeView {
            leading: self.leading,
            names: self.names.deep_view(),
            assigned: self.assigned,
            value: crate::model::outcome(self.value),
        }
    }
}

/// The entries of an argument list, and why reading them stopped early.
pub uninterp spec fn parsed_entries(text: Seq<char>) -> (Seq<EntryNodeView>, Option<Seq<char>>);

/// `syn::meta::parser` over an argument list, with a callback that takes the
/// value of every entry that has one. Of each entry: its path, whether `=`
/// follows, and the tokens of the value or the parser's message for having
/// none. Behind the entries: the message reading ended with, if it did not
/// reach the end.
#[verifier::external_body]
pub(crate) fn list_entries(text: &str) -> (r: (Vec<EntryNode>, Option<String>))
    ensures
        r.deep_view() == parsed_entries(text@),
{
    force();
    let mut entries = Vec::new();
    let parser = syn::meta::parser(|m| {
        let (leading, assigned) = (m.path.leading_colon.is_some(), m.input.peek(token::Eq));
        let names = m.path.segments.iter().map(|s| s.ident.to_string()).collect();
        let value = m.value().and_then(|v| v.parse::<Expr>()).map_err(|e| e.to_string());
        let value = value.map(|e| e.to_token_stream().to_string());
        Ok(entries.push(EntryNode { leading, names, assigned, value }))
    });
    let stop = parser.parse_str(text).err().map(|e| e.to_string());
    (entries, stop)
}

/// The string literals right behind `=`, entry by entry.
pub uninterp spec fn parsed_leads(text: Seq<char>) -> Seq<Option<Seq<char>>>;

/// `syn::meta::parser` over an argument list, with the same callback as
/// [`list_entries`] but for what it notes: of each entry the value of the
/// string literal right behind `=`, if one is there, even where the value goes
/// on behind it.
#[verifier::external_body]
pub(crate) fn list_leads(text: &str) -> (r: Vec<Option<String>>)
    ensures
        r.deep_view() == parsed_leads(text@),
{
    force();
    let mut leads: Vec<Option<String>> = Vec::new();
    let parser = syn::meta::parser(|m| {
        let ahead = m.input.fork();
        let lead = ahead.parse::<token::Eq>().and_then(|_| ahead.parse::<LitStr>());
        leads.push(lead.ok().map(|s| s.value()));
        m.value().and_then(|v| v.parse::<Expr>()).map_or(Ok(()), |_| Ok(()))
    });
    let _ = parser.parse_str(text);
    leads
}

/// The nested attributes of an argument list, or why it is no list of those.
pub uninterp spec fn parsed_metas(text: Seq<char>) -> Result<Seq<Seq<char>>, Seq<char>>;

/// `Punctuated::<syn::Meta, Comma>::parse_terminated` over an argument list: the
/// texts of the nested attributes, or the parser's message.
#[verifier::external_body]
pub(crate) fn list_metas(text: &str) -> (r: Result<Vec<String>, String>)
    ensures
        crate::model::outcome(r) == parsed_metas(text@),
{
    force();
    let parser = syn::punctuated::Punctuated::<syn::Meta, token::Comma>::parse_terminated;
    match parser.parse_str(text) {
        Ok(p) => Ok(p.iter().map(|m| m.to_token_stream().to_string()).collect()),
        Err(e) => Err(e.to_string()),
    }
}

/// The tokens of a text: the name of each identifier and the inside of each group.
pub uninterp spec fn parsed_tokens(text: Seq<char>) -> Option<Seq<(Option<Seq<char>>, Option<Seq<char>>)>>;

/// `proc_macro2::TokenStream::from_str`: of each token, its name if it is an
/// identifier and the tokens inside if it is a group. `None` for a text that is
/// no token stream.
#[verifier::external_body]
pub(crate) fn list_tokens(text: &str) -> (r: Option<Vec<(Option<String>, Option<String>)>>)
    ensures
        r.deep_view() == parsed_tokens(text@),
{
    force();
    let stream: proc_macro2::TokenStream = text.parse().ok()?;
    let tokens = stream.into_iter().map(|t| match t {
        proc_macro2::TokenTree::Ident(i) => (Some(i.to_string()), None),
        proc_macro2::TokenTree::Group(g) => (None, Some(g.stream().to_string())),
        _ => (None, None),
    });
    Some(tokens.collect())
}

/// An expression as the parser hands it out.
#[derive(Debug, PartialEq, Eq)]
pub enum ExprNode {
    Call(String, Vec<String>),
    Array(Vec<String>),
    Lit(String),
    Name(Option<String>),
    Other,
}

/// What an [`ExprNode`] holds.
#[verifier::ext_equal]
pub enum ExprNodeView {
    Call(Seq<char>, Seq<Seq<char>>),
    Array(Seq<Seq<char>>),
    Lit(Seq<char>),
    Name(Option<Seq<char>>),
    Other,
}

impl DeepView for ExprNode {
    type V = ExprNodeView;

    open spec fn deep_view(&self) -> ExprNodeView {
        match self {
            ExprNode::Call(a, b) => ExprNodeView::Call(a@, b.deep_view()),
            ExprNode::Array(a) => ExprNodeView::Array(a.deep_view()),
            ExprNode::Lit(a) => ExprNodeView::Lit(a@),
            ExprNode::Name(a) => ExprNodeView::Name(a.deep_view()),
            ExprNode::Other => ExprNodeView::Other,
        }
    }
}

/// The tokens and the shape of an expression, or why the text is none.
pub uninterp spec fn expr_parse(text: Seq<char>) -> Result<(Seq<char>, ExprNodeView), Seq<char>>;

/// `syn::parse_str::<syn::Expr>`: the expression's tokens rendered as text, and
/// its shape: of a call the texts of callee and arguments, of an array the texts
/// of its elements, of a literal its text, of a path its name where it is a
/// single one. The parser's message for a text that is no expression.
#[verifier::external_body]
fn parse_expr(text: &str) -> (r: Result<(String, ExprNode), String>)
    ensures
        crate::model::outcome(r) == expr_parse(text@),
{
    force();
    let expr = syn::parse_str::<Expr>(text).map_err(|e| e.to_string())?;
    let text_of = |e: &Expr| e.to_token_stream().to_string();
    let node = match &expr {
        Expr::Call(c) => ExprNode::Call(text_of(&c.func), c.args.iter().map(text_of).collect()),
        Expr::Array(a) => ExprNode::Array(a.elems.iter().map(text_of).collect()),
        Expr::Path(p) => ExprNode::Name(p.path.get_ident().map(|i| i.to_string())),
        Expr::Lit(l) => ExprNode::Lit(l.lit.to_token_stream().to_string()),
        _ => ExprNode::Other,
    };
    Ok((text_of(&expr), node))
}

/// The shape of an expression; that of no particular one for any other text.
pub open spec fn parsed_expr(text: Seq<char>) -> ExprNodeView {
    match expr_parse(text) {
        Ok((_, node)) => node,
        Err(_) => ExprNodeView::Other,
    }
}

/// The tokens of an expression, or why the text is none.
pub open spec fn rendered_expr(text: Seq<char>) -> Result<Seq<char>, Seq<char>> {
    match expr_parse(text) {
        Ok((tokens, _)) => Ok(tokens),
        Err(e) => Err(e),
    }
}

/// The shape of an expression.
pub(crate) fn expr_node(text: &str) -> (r: ExprNode)
    ensures
        r.deep_view() == parsed_expr(text@),
{
    match parse_expr(text) {
        Ok((_, node)) => node,
        Err(_) => ExprNode::Other,
    }
}

/// The tokens of an expression, or why the text is none.
pub(crate) fn render_expr(text: &str) -> (r: Result<String, String>)
    ensures
        crate::model::outcome(r) == rendered_expr(text@),
{
    match parse_expr(text) {
        Ok((tokens, _)) => Ok(tokens),
        Err(e) => Err(e),
    }
}

/// A literal as the parser hands it out.
#[derive(Debug, PartialEq, Eq)]
pub enum LitNode {
    Str(String),
    Int(u64),
    BadInt(String),
    Other,
}

/// What a [`LitNode`] holds.
#[verifier::ext_equal]
pub enum LitNodeView {
    Str(Seq<char>),
    Int(u64),
    BadInt(Seq<char>),
    Other,
}

impl DeepView for LitNode {
    type V = LitNodeView;

    open spec fn deep_view(&self) -> LitNodeView {
        match self {
            LitNode::Str(a) => LitNodeView::Str(a@),
            LitNode::Int(a) => LitNodeView::Int(*a),
            LitNode::BadInt(a) => LitNodeView::BadInt(a@),
            LitNode::Other => LitNodeView::Other,
        }
    }
}

/// The value of a literal.
pub uninterp spec fn parsed_lit(text: Seq<char>) -> LitNodeView;

/// `syn::parse_str::<syn::Lit>`: of a string literal its value, of an integer
/// literal its value as a `u64` or the message for one that does not fit.
#[verifier::external_body]
pub(crate) fn lit_node(text: &str) -> (r: LitNode)
    ensures
        r.deep_view() == parsed_lit(text@),
{
    force();
    match syn::parse_str::<Lit>(text) {
        Ok(Lit::Str(s)) => LitNode::Str(s.value()),
        Ok(Lit::Int(n)) => n.base10_parse().map_or_else(|e| LitNode::BadInt(e.to_string()), LitNode::Int),
        _ => LitNode::Other,
    }
}

/// A type as the parser hands it out.
#[derive(Debug, PartialEq, Eq)]
pub enum TypeNode {
    Path(Vec<(String, Vec<Option<String>>)>),
    Array(String, String),
    Other,
}

/// What a [`TypeNode`] holds.
#[verifier::ext_equal]
pub enum TypeNodeView {
    Path(Seq<(Seq<char>, Seq<Option<Seq<char>>>)>),
    Array(Seq<char>, Seq<char>),
    Other,
}

impl DeepView for TypeNode {
    type V = TypeNodeView;

    open spec fn deep_view(&self) -> TypeNodeView {
        match self {
            TypeNode::Path(a) => TypeNodeView::Path(a.deep_view()),
            TypeNode::Array(a, b) => TypeNodeView::Array(a@, b@),
            TypeNode::Other => TypeNodeView::Other,
        }
    }
}

/// The shape of a type.
pub uninterp spec fn parsed_type(text: Seq<char>) -> TypeNodeView;

/// `syn::parse_str::<syn::Type>`: of a path each name with the generic arguments
/// in angle brackets behind it, each as text where it is a type, of an array the
/// texts of its element type and length.
#[verifier::external_body]
pub(crate) fn type_node(text: &str) -> (r: TypeNode)
    ensures
        r.deep_view() == parsed_type(text@),
{
    force();
    let arg = |g: &GenericArgument| match g {
        GenericArgument::Type(t) => Some(t.to_token_stream().to_string()),
        _ => None,
    };
    let args = |a: &PathArguments| match a {
        PathArguments::AngleBracketed(a) => a.args.iter().map(arg).collect(),
        _ => Vec::new(),
    };
    match syn::parse_str::<Type>(text) {
        Ok(Type::Path(p)) => TypeNode::Path(p.path.segments.iter().map(|s| (s.ident.to_string(), args(&s.arguments))).collect()),
        Ok(Type::Array(a)) => TypeNode::Array(a.elem.to_token_stream().to_string(), a.len.to_token_stream().to_string()),
        _ => TypeNode::Other,
    }
}

/// An attribute path, or why the text is none.
pub uninterp spec fn parsed_path(text: Seq<char>) -> Result<(bool, Seq<Seq<char>>), Seq<char>>;

/// `syn::Path::parse_mod_style`: whether the path starts with `::` and its
/// names, or the parser's message.
#[verifier::external_body]
pub(crate) fn path_node(text: &str) -> (r: Result<(bool, Vec<String>), String>)
    ensures
        crate::model::outcome(r) == parsed_path(text@),
{
    force();
    match syn::Path::parse_mod_style.parse_str(text) {
        Ok(p) => Ok((p.leading_colon.is_some(), p.segments.iter().map(|s| s.ident.to_string()).collect())),
        Err(e) => Err(e.to_string()),
    }
}

/// A text as a string literal.
pub uninterp spec fn literal_text(text: Seq<char>) -> Seq<char>;

/// `proc_macro2::Literal::string`, rendered: the literal whose value is the text.
#[verifier::external_body]
pub(crate) fn write_literal(text: &str) -> (r: String)
    ensures
        r@ == literal_text(text@),
{
    force();
    proc_macro2::Literal::string(text).to_string()
}

} // verus!
