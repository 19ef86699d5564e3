//! Reading source text into syntax values.
use crate::model;
use crate::model::Dup;
use crate::nodes;
use crate::nodes::{
    alias_node, attr_node, enum_node, expr_node, field_node, file_items, fn_node, input_node,
    list_entries, list_leads, list_metas, list_tokens, lit_node, mod_node, other_attrs, struct_node,
    type_node, variant_node, EntryNode, EntryNodeView, ExprNode, ExprNodeView, LitNode, LitNodeView,
    TypeNode, TypeNodeView,
};
use crate::syntax;
use crate::syntax::{
    AttrForm, AttrFormView, Attribute, AttributeView, Call, CallView, Entry, EntryView, Expr,
    ExprKind, ExprKindView, ExprView, Field, FieldView, FnArg, FnArgView, Item, ItemEnum,
    ItemEnumView, ItemFn, ItemFnView, ItemMod, ItemModView, ItemStruct, ItemStructView, ItemType,
    ItemTypeView, ItemView, List, ListView, Meta, MetaForm, MetaFormView, MetaView, Param,
    ParamView, Path, PathView, Token, TokenView, Type, TypeView, Variant, VariantView,
};
use crate::text::same;
use vstd::prelude::*;

verus! {

// ── Expressions ──────────────────────────────────────────────────────────

/// A literal's value. Integers are read as `usize`.
pub open spec fn lit_value(lit: LitNodeView) -> ExprKindView {
    match lit {
        LitNodeView::Str(s) => ExprKindView::Str(s),
        LitNodeView::Int(n) => if n <= usize::MAX {
            ExprKindView::Int(n as usize)
        } else {
            ExprKindView::BadInt("number too large to fit in target type"@)
        },
        LitNodeView::BadInt(e) => ExprKindView::BadInt(e),
        LitNodeView::Other => ExprKindView::Other,
    }
}

/// The value of a literal, where the text is one.
pub open spec fn kind_of_lit(text: Seq<char>) -> Option<ExprKindView> {
    match nodes::parsed_expr(text) {
        ExprNodeView::Lit(t) => Some(lit_value(nodes::parsed_lit(t))),
        _ => None,
    }
}

/// The value of a string literal.
pub open spec fn str_of(text: Seq<char>) -> Option<Seq<char>> {
    match kind_of_lit(text) {
        Some(ExprKindView::Str(s)) => Some(s),
        _ => None,
    }
}

/// The name of a single-name path.
pub open spec fn name_of(text: Seq<char>) -> Option<Seq<char>> {
    match nodes::parsed_expr(text) {
        ExprNodeView::Name(n) => n,
        _ => None,
    }
}

/// A call, where the text is one.
pub open spec fn call_of(text: Seq<char>) -> Option<CallView> {
    match nodes::parsed_expr(text) {
        ExprNodeView::Call(func, args) => Some(
            CallView {
                func: name_of(func),
                args: args.map_values(|a: Seq<char>| str_of(a)),
            },
        ),
        _ => None,
    }
}

/// The shape of an expression.
pub open spec fn kind_of(text: Seq<char>) -> ExprKindView {
    match nodes::parsed_expr(text) {
        ExprNodeView::Call(_, _) => ExprKindView::Call(
            call_of(text)->Some_0,
        ),
        ExprNodeView::Array(elems) => ExprKindView::Array(
            elems.map_values(|e: Seq<char>| call_of(e)),
        ),
        ExprNodeView::Lit(t) => lit_value(nodes::parsed_lit(t)),
        ExprNodeView::Name(n) => ExprKindView::Name(n),
        ExprNodeView::Other => ExprKindView::Other,
    }
}

/// An expression.
pub open spec fn expr_of(text: Seq<char>) -> ExprView {
    ExprView { text, kind: kind_of(text) }
}

/// A literal's value from what the parser makes of it.
pub fn read_lit_value(lit: LitNode) -> (r: ExprKind)
    ensures
        r.deep_view() == lit_value(lit.deep_view()),
{
    match lit {
        LitNode::Str(s) => ExprKind::Str(s),
        LitNode::Int(n) => if n <= usize::MAX as u64 {
            ExprKind::Int(n as usize)
        } else {
            ExprKind::BadInt("number too large to fit in target type".to_owned())
        },
        LitNode::BadInt(e) => ExprKind::BadInt(e),
        LitNode::Other => ExprKind::Other,
    }
}

fn read_str(text: &str) -> (r: Option<String>)
    ensures
        r.deep_view() == str_of(text@),
{
    match expr_node(text) {
        ExprNode::Lit(t) => match lit_node(t.as_str()) {
            LitNode::Str(s) => Some(s),
            _ => None,
        },
        _ => None,
    }
}

/// Reads a call from the texts of its callee and arguments.
pub fn read_call(func: &str, args: &Vec<String>) -> (r: Call)
    ensures
        r.deep_view() == (CallView {
            func: name_of(func@),
            args: args.deep_view().map_values(|a: Seq<char>| str_of(a)),
        }),
{
    let mut out: Vec<Option<String>> = Vec::new();
    let mut i: usize = 0;
    while i < args.len()
        invariant
            i <= args.len(),
            out.len() == i,
            forall|j: int| 0 <= j < i ==> (#[trigger] out@[j]).deep_view() == str_of(args@[j]@),
        decreases args.len() - i,
    {
        out.push(read_str(args[i].as_str()));
        i += 1;
    }
    assert(out.deep_view() =~= args.deep_view().map_values(|a: Seq<char>| str_of(a)));
    let name = match expr_node(func) {
        ExprNode::Name(n) => n,
        _ => None,
    };
    Call { func: name, args: out }
}

fn read_element(text: &str) -> (r: Option<Call>)
    ensures
        r.deep_view() == call_of(text@),
{
    match expr_node(text) {
        ExprNode::Call(func, args) => Some(read_call(func.as_str(), &args)),
        _ => None,
    }
}

/// Reads an expression.
pub fn read_expr(text: &str) -> (r: Expr)
    ensures
        r.deep_view() == expr_of(text@),
{
    let kind = match expr_node(text) {
        ExprNode::Call(func, args) => ExprKind::Call(read_call(func.as_str(), &args)),
        ExprNode::Array(elems) => {
            let mut out: Vec<Option<Call>> = Vec::new();
            let mut i: usize = 0;
            while i < elems.len()
                invariant
                    i <= elems.len(),
                    out.len() == i,
                    forall|j: int|
                        0 <= j < i ==> (#[trigger] out@[j]).deep_view() == call_of(elems@[j]@),
                decreases elems.len() - i,
            {
                out.push(read_element(elems[i].as_str()));
                i += 1;
            }
            assert(out.deep_view() =~= elems.deep_view().map_values(|e: Seq<char>| call_of(e)));
            ExprKind::Array(out)
        },
        ExprNode::Lit(t) => read_lit_value(lit_node(t.as_str())),
        ExprNode::Name(n) => ExprKind::Name(n),
        ExprNode::Other => ExprKind::Other,
    };
    Expr { text: text.to_owned(), kind }
}

// ── Attributes ───────────────────────────────────────────────────────────

/// The string literal right behind an entry's `=`.
pub open spec fn lead_at(leads: Seq<Option<Seq<char>>>, i: int) -> Option<Seq<char>> {
    if 0 <= i < leads.len() {
        leads[i]
    } else {
        None
    }
}

/// One entry of an argument list.
pub open spec fn entry_of(n: EntryNodeView, lead: Option<Seq<char>>) -> EntryView {
    EntryView {
        path: PathView { leading_colon: n.leading, segments: n.names },
        assigned: n.assigned,
        lead,
        value: match n.value {
            Ok(v) => Some(expr_of(v)),
            Err(_) => None,
        },
        error: match n.value {
            Ok(_) => Seq::empty(),
            Err(e) => e,
        },
    }
}

/// One nested attribute.
pub open spec fn meta_of(text: Seq<char>) -> MetaView {
    let (leading, names, list, value) = nodes::parsed_attr(text);
    MetaView {
        path: PathView { leading_colon: leading, segments: names },
        form: if list is Some {
            MetaFormView::List
        } else {
            match value {
                Some(v) => MetaFormView::Value(expr_of(v)),
                None => MetaFormView::Bare,
            }
        },
    }
}

/// The tokens of a text as they are handed out; none for a text that is no token
/// stream.
pub open spec fn token_nodes(text: Seq<char>) -> Seq<(Option<Seq<char>>, Option<Seq<char>>)> {
    match nodes::parsed_tokens(text) {
        Some(tokens) => tokens,
        None => Seq::empty(),
    }
}

/// One token; groups are opened to a depth of `fuel`.
pub open spec fn token_of(
    node: (Option<Seq<char>>, Option<Seq<char>>),
    fuel: nat,
) -> TokenView
    decreases fuel,
{
    match node.0 {
        Some(name) => TokenView::Ident(name),
        None => match node.1 {
            Some(inside) => if fuel == 0 {
                TokenView::Other
            } else {
                TokenView::Group(
                    token_nodes(inside).map_values(
                        |t: (Option<Seq<char>>, Option<Seq<char>>)| token_of(t, (fuel - 1) as nat),
                    ),
                )
            },
            None => TokenView::Other,
        },
    }
}

/// The tokens of a text. No text nests deeper than it is long.
pub open spec fn tokens_of(text: Seq<char>) -> Seq<TokenView> {
    token_nodes(text).map_values(
        |t: (Option<Seq<char>>, Option<Seq<char>>)| token_of(t, text.len()),
    )
}

/// Whether an attribute's path is just `cfg`.
pub open spec fn is_cfg(leading: bool, names: Seq<Seq<char>>) -> bool {
    !leading && names.len() == 1 && names[0] == "cfg"@
}

/// An argument list in its readings; as bare tokens only where `keep_tokens`.
pub open spec fn list_of(text: Seq<char>, keep_tokens: bool) -> ListView {
    let (entries, stop) = nodes::parsed_entries(text);
    ListView {
        entries: Seq::new(
            entries.len(),
            |i: int| entry_of(entries[i], lead_at(nodes::parsed_leads(text), i)),
        ),
        stop,
        metas: match nodes::parsed_metas(text) {
            Ok(metas) => metas.map_values(|m: Seq<char>| meta_of(m)),
            Err(_) => Seq::empty(),
        },
        malformed: match nodes::parsed_metas(text) {
            Ok(_) => None,
            Err(e) => Some(e),
        },
        tokens: if keep_tokens {
            tokens_of(text)
        } else {
            Seq::empty()
        },
    }
}

/// An attribute.
pub open spec fn attr_of(text: Seq<char>) -> AttributeView {
    let (leading, names, list, value) = nodes::parsed_attr(text);
    AttributeView {
        path: PathView { leading_colon: leading, segments: names },
        form: match list {
            Some(l) => AttrFormView::List(list_of(l, is_cfg(leading, names))),
            None => match value {
                Some(v) => AttrFormView::Value(expr_of(v)),
                None => AttrFormView::Bare,
            },
        },
    }
}

/// The attributes of an item.
pub open spec fn attrs_of(texts: Seq<Seq<char>>) -> Seq<AttributeView> {
    texts.map_values(|t: Seq<char>| attr_of(t))
}

/// Reads an entry of an argument list.
pub fn read_entry(n: &EntryNode, lead: Option<String>) -> (r: Entry)
    ensures
        r.deep_view() == entry_of(n.deep_view(), lead.deep_view()),
{
    let (value, error) = match &n.value {
        Ok(v) => (Some(read_expr(v.as_str())), String::new()),
        Err(e) => (None, e.clone()),
    };
    assert(n.value is Ok ==> error@ =~= Seq::empty());
    Entry {
        path: Path { leading_colon: n.leading, segments: n.names.dup() },
        assigned: n.assigned,
        lead,
        value,
        error,
    }
}

fn read_meta(text: &str) -> (r: Meta)
    ensures
        r.deep_view() == meta_of(text@),
{
    let (leading, names, list, value) = attr_node(text);
    let form = match list {
        Some(_) => MetaForm::List,
        None => match value {
            Some(v) => MetaForm::Value(read_expr(v.as_str())),
            None => MetaForm::Bare,
        },
    };
    Meta { path: Path { leading_colon: leading, segments: names }, form }
}

/// The tokens of a text as they are handed out.
fn get_token_nodes(text: &str) -> (r: Vec<(Option<String>, Option<String>)>)
    ensures
        r.deep_view() == token_nodes(text@),
{
    match list_tokens(text) {
        Some(tokens) => tokens,
        None => model::none(),
    }
}

/// Reads tokens from what the lexer makes of them, groups to a depth of `fuel`.
pub fn read_token_nodes(nodes: &Vec<(Option<String>, Option<String>)>, fuel: usize) -> (r: Vec<Token>)
    ensures
        r.deep_view() == nodes.deep_view().map_values(
            |t: (Option<Seq<char>>, Option<Seq<char>>)| token_of(t, fuel as nat),
        ),
    decreases fuel, nodes.len(),
{
    let mut out: Vec<Token> = Vec::new();
    let mut i: usize = 0;
    while i < nodes.len()
        invariant
            i <= nodes.len(),
            out.len() == i,
            forall|j: int|
                0 <= j < i ==> (#[trigger] out@[j]).deep_view() == token_of(
                    nodes.deep_view()[j],
                    fuel as nat,
                ),
        decreases nodes.len() - i,
    {
        let token = match &nodes[i].0 {
            Some(name) => Token::Ident(name.clone()),
            None => match &nodes[i].1 {
                Some(inside) => if fuel == 0 {
                    Token::Other
                } else {
                    let inner: Vec<Token> = read_token_nodes(
                        &get_token_nodes(inside.as_str()),
                        fuel - 1,
                    );
                    let g = Token::Group(inner);
                    assert(syntax::token_view(g)->Group_0 =~= inner.deep_view());
                    assert(inner.deep_view() =~= token_of(
                        nodes.deep_view()[i as int],
                        fuel as nat,
                    )->Group_0);
                    g
                },
                None => Token::Other,
            },
        };
        assert(token.deep_view() == token_of(nodes.deep_view()[i as int], fuel as nat));
        out.push(token);
        i += 1;
    }
    assert(out.deep_view() =~= nodes.deep_view().map_values(
        |t: (Option<Seq<char>>, Option<Seq<char>>)| token_of(t, fuel as nat),
    ));
    out
}

fn read_list(text: &str, keep_tokens: bool) -> (r: List)
    ensures
        r.deep_view() == list_of(text@, keep_tokens),
{
    let (nodes, stop) = list_entries(text);
    let leads = list_leads(text);
    let ghost ls = leads.deep_view();
    let mut entries: Vec<Entry> = Vec::new();
    let mut i: usize = 0;
    while i < nodes.len()
        invariant
            i <= nodes.len(),
            entries.len() == i,
            forall|j: int|
                0 <= j < i ==> (#[trigger] entries@[j]).deep_view() == entry_of(
                    nodes@[j].deep_view(),
                    lead_at(ls, j),
                ),
            ls == leads.deep_view(),
        decreases nodes.len() - i,
    {
        let lead = if i < leads.len() {
            leads[i].dup()
        } else {
            None
        };
        assert(lead.deep_view() == lead_at(ls, i as int));
        entries.push(read_entry(&nodes[i], lead));
        i += 1;
    }
    assert(entries.deep_view() =~= list_of(text@, keep_tokens).entries);
    let mut metas: Vec<Meta> = Vec::new();
    let mut malformed: Option<String> = None;
    match list_metas(text) {
        Ok(texts) => {
            let mut j: usize = 0;
            while j < texts.len()
                invariant
                    j <= texts.len(),
                    metas.len() == j,
                    forall|k: int|
                        0 <= k < j ==> (#[trigger] metas@[k]).deep_view() == meta_of(texts@[k]@),
                decreases texts.len() - j,
            {
                metas.push(read_meta(texts[j].as_str()));
                j += 1;
            }
            assert(metas.deep_view() =~= texts.deep_view().map_values(
                |m: Seq<char>| meta_of(m),
            ));
        },
        Err(e) => {
            malformed = Some(e);
            assert(metas.deep_view() =~= Seq::empty());
        },
    }
    let mut tokens: Vec<Token> = model::none();
    if keep_tokens {
        let fuel: usize = text.unicode_len();
        tokens = read_token_nodes(&get_token_nodes(text), fuel);
        assert(tokens.deep_view() =~= tokens_of(text@));
    }
    List { entries, stop, metas, malformed, tokens }
}

/// Reads an attribute from what stands inside `#[...]`.
pub fn read_attr(text: &str) -> (r: Attribute)
    ensures
        r.deep_view() == attr_of(text@),
{
    let (leading, names, list, value) = attr_node(text);
    let keep_tokens = !leading && names.len() == 1 && same(names[0].as_str(), "cfg");
    let form = match list {
        Some(l) => AttrForm::List(read_list(l.as_str(), keep_tokens)),
        None => match value {
            Some(v) => AttrForm::Value(read_expr(v.as_str())),
            None => AttrForm::Bare,
        },
    };
    Attribute { path: Path { leading_colon: leading, segments: names }, form }
}

fn read_attrs(texts: &Vec<String>) -> (r: Vec<Attribute>)
    ensures
        r.deep_view() == attrs_of(texts.deep_view()),
{
    let mut out: Vec<Attribute> = Vec::new();
    let mut i: usize = 0;
    while i < texts.len()
        invariant
            i <= texts.len(),
            out.len() == i,
            forall|j: int| 0 <= j < i ==> (#[trigger] out@[j]).deep_view() == attr_of(texts@[j]@),
        decreases texts.len() - i,
    {
        out.push(read_attr(texts[i].as_str()));
        i += 1;
    }
    assert(out.deep_view() =~= attrs_of(texts.deep_view()));
    out
}

// ── Types ────────────────────────────────────────────────────────────────

/// The value of an integer literal.
pub open spec fn int_of(text: Seq<char>) -> Option<usize> {
    match kind_of_lit(text) {
        Some(ExprKindView::Int(n)) => Some(n),
        _ => None,
    }
}

/// What a type path stands for: its last name, and the first generic argument
/// behind it where that is a type.
pub open spec fn last_segment(segments: Seq<(Seq<char>, Seq<Option<Seq<char>>>)>) -> Option<
    (Seq<char>, Option<Seq<char>>),
> {
    if segments.len() == 0 {
        None
    } else {
        let (name, args) = segments.last();
        Some(
            (
                name,
                if args.len() == 0 {
                    None
                } else {
                    args[0]
                },
            ),
        )
    }
}

/// What a type path stands for.
pub fn pick_segment(segments: &Vec<(String, Vec<Option<String>>)>) -> (r: Option<
    (String, Option<String>),
>)
    ensures
        r.deep_view() == last_segment(segments.deep_view()),
{
    if segments.len() == 0 {
        return None;
    }
    let last = &segments[segments.len() - 1];
    assert(segments.deep_view().last() == last.deep_view());
    let arg = if last.1.len() == 0 {
        None
    } else {
        assert(last.1.deep_view()[0] == last.1@[0].deep_view());
        last.1[0].dup()
    };
    Some((last.0.clone(), arg))
}

/// A type, opened to a depth of `fuel`.
pub open spec fn type_to(text: Seq<char>, fuel: nat) -> TypeView
    decreases fuel,
{
    if fuel == 0 {
        TypeView::Other
    } else {
        match nodes::parsed_type(text) {
            TypeNodeView::Path(segments) => match last_segment(segments) {
                Some((ident, arg)) => TypeView::Named {
                    ident,
                    arg: match arg {
                        Some(a) => Some(Box::new(type_to(a, (fuel - 1) as nat))),
                        None => None,
                    },
                },
                None => TypeView::Other,
            },
            TypeNodeView::Array(elem, len) => TypeView::Array {
                elem: Box::new(type_to(elem, (fuel - 1) as nat)),
                len: int_of(len),
            },
            TypeNodeView::Other => TypeView::Other,
        }
    }
}

/// A type. No text nests deeper than it is long.
pub open spec fn type_of(text: Seq<char>) -> TypeView {
    type_to(text, text.len())
}

fn read_type_to(text: &str, fuel: usize) -> (r: Type)
    ensures
        r.deep_view() == type_to(text@, fuel as nat),
    decreases fuel,
{
    if fuel == 0 {
        return Type::Other;
    }
    match type_node(text) {
        TypeNode::Path(segments) => match pick_segment(&segments) {
            Some((ident, arg)) => {
                let inner = match arg {
                    Some(a) => Some(Box::new(read_type_to(a.as_str(), fuel - 1))),
                    None => None,
                };
                Type::Named { ident, arg: inner }
            },
            None => Type::Other,
        },
        TypeNode::Array(elem, len) => {
            let size: Option<usize> = match expr_node(len.as_str()) {
                ExprNode::Lit(t) => match read_lit_value(lit_node(t.as_str())) {
                    ExprKind::Int(n) => Some(n),
                    _ => None,
                },
                _ => None,
            };
            Type::Array { elem: Box::new(read_type_to(elem.as_str(), fuel - 1)), len: size }
        },
        TypeNode::Other => Type::Other,
    }
}

/// Reads a type.
pub fn read_type(text: &str) -> (r: Type)
    ensures
        r.deep_view() == type_of(text@),
{
    let fuel: usize = text.unicode_len();
    read_type_to(text, fuel)
}

// ── Items ────────────────────────────────────────────────────────────────

/// One input of a function.
pub open spec fn input_of(text: Seq<char>) -> FnArgView {
    match nodes::parsed_input(text) {
        Some((attrs, name, ty)) => FnArgView::Typed(
            ParamView { attrs: attrs_of(attrs), name, ty: type_of(ty) },
        ),
        None => FnArgView::Receiver,
    }
}

/// One named field.
pub open spec fn field_of(text: Seq<char>) -> FieldView {
    match nodes::parsed_field(text) {
        Some((attrs, _, name, ty)) => FieldView {
            attrs: attrs_of(attrs),
            name,
            ty: type_of(ty),
        },
        None => FieldView {
            attrs: Seq::empty(),
            name: Seq::empty(),
            ty: TypeView::Other,
        },
    }
}

/// The named fields of a struct or variant.
pub open spec fn fields_of(texts: Option<Seq<Seq<char>>>) -> Option<Seq<FieldView>> {
    match texts {
        Some(t) => Some(t.map_values(|f: Seq<char>| field_of(f))),
        None => None,
    }
}

/// One enum variant.
pub open spec fn variant_of(text: Seq<char>) -> VariantView {
    match nodes::parsed_variant(text) {
        Some((name, fields)) => VariantView { name, fields: fields_of(fields) },
        None => VariantView { name: Seq::empty(), fields: None },
    }
}

/// An item, with modules opened to a depth of `fuel`.
pub open spec fn item_to(text: Seq<char>, fuel: nat) -> ItemView
    decreases fuel,
{
    if let Some((attrs, name, inputs)) = nodes::parsed_fn(text) {
        ItemView::Fn(
            ItemFnView {
                attrs: attrs_of(attrs),
                name,
                inputs: inputs.map_values(|t: Seq<char>| input_of(t)),
            },
        )
    } else if let Some(n) = nodes::parsed_struct(text) {
        ItemView::Struct(
            ItemStructView { attrs: attrs_of(n.attrs), name: n.name, fields: fields_of(n.fields) },
        )
    } else if let Some((attrs, name, variants)) = nodes::parsed_enum(text) {
        ItemView::Enum(
            ItemEnumView {
                attrs: attrs_of(attrs),
                name,
                variants: variants.map_values(|t: Seq<char>| variant_of(t)),
            },
        )
    } else if let Some((attrs, name, ty)) = nodes::parsed_alias(text) {
        ItemView::Type(
            ItemTypeView { attrs: attrs_of(attrs), name, ty: type_of(ty) },
        )
    } else if let Some((attrs, name, items)) = nodes::parsed_mod(text) {
        ItemView::Mod(
            ItemModView {
                attrs: attrs_of(attrs),
                name,
                content: match items {
                    Some(c) => if fuel == 0 {
                        None
                    } else {
                        Some(c.map_values(|t: Seq<char>| item_to(t, (fuel - 1) as nat)))
                    },
                    None => None,
                },
            },
        )
    } else {
        ItemView::Other(attrs_of(nodes::parsed_other(text)))
    }
}

/// The items of a list of texts, with modules opened to a depth of `fuel`.
pub open spec fn items_to(texts: Seq<Seq<char>>, fuel: nat) -> Seq<ItemView> {
    texts.map_values(|t: Seq<char>| item_to(t, fuel))
}

/// The items of a source file. No text nests deeper than it is long.
pub open spec fn source_items(text: Seq<char>) -> Result<Seq<ItemView>, Seq<char>> {
    match nodes::parsed_file(text) {
        Ok(items) => Ok(items_to(items, text.len())),
        Err(e) => Err(e),
    }
}

fn read_input(text: &str) -> (r: FnArg)
    ensures
        r.deep_view() == input_of(text@),
{
    match input_node(text) {
        Some((attrs, name, ty)) => FnArg::Typed(
            Param { attrs: read_attrs(&attrs), name, ty: read_type(ty.as_str()) },
        ),
        None => FnArg::Receiver,
    }
}

fn read_inputs(texts: &Vec<String>) -> (r: Vec<FnArg>)
    ensures
        r.deep_view() == texts.deep_view().map_values(|t: Seq<char>| input_of(t)),
{
    let mut out: Vec<FnArg> = Vec::new();
    let mut i: usize = 0;
    while i < texts.len()
        invariant
            i <= texts.len(),
            out.len() == i,
            forall|j: int| 0 <= j < i ==> (#[trigger] out@[j]).deep_view() == input_of(texts@[j]@),
        decreases texts.len() - i,
    {
        out.push(read_input(texts[i].as_str()));
        i += 1;
    }
    assert(out.deep_view() =~= texts.deep_view().map_values(|t: Seq<char>| input_of(t)));
    out
}

fn read_field(text: &str) -> (r: Field)
    ensures
        r.deep_view() == field_of(text@),
{
    match field_node(text) {
        Some((attrs, _, name, ty)) => {
            Field { attrs: read_attrs(&attrs), name, ty: read_type(ty.as_str()) }
        },
        None => {
            let attrs: Vec<Attribute> = Vec::new();
            assert(attrs.deep_view() =~= Seq::empty());
            Field { attrs, name: String::new(), ty: Type::Other }
        },
    }
}

fn read_fields(texts: Option<Vec<String>>) -> (r: Option<Vec<Field>>)
    ensures
        r.deep_view() == fields_of(texts.deep_view()),
{
    match texts {
        None => None,
        Some(t) => {
            let mut out: Vec<Field> = Vec::new();
            let mut i: usize = 0;
            while i < t.len()
                invariant
                    i <= t.len(),
                    out.len() == i,
                    forall|j: int|
                        0 <= j < i ==> (#[trigger] out@[j]).deep_view() == field_of(t@[j]@),
                decreases t.len() - i,
            {
                out.push(read_field(t[i].as_str()));
                i += 1;
            }
            assert(out.deep_view() =~= t.deep_view().map_values(|f: Seq<char>| field_of(f)));
            Some(out)
        },
    }
}

fn read_variant(text: &str) -> (r: Variant)
    ensures
        r.deep_view() == variant_of(text@),
{
    match variant_node(text) {
        Some((name, fields)) => Variant { name, fields: read_fields(fields) },
        None => Variant { name: String::new(), fields: None },
    }
}

fn read_variants(texts: &Vec<String>) -> (r: Vec<Variant>)
    ensures
        r.deep_view() == texts.deep_view().map_values(|t: Seq<char>| variant_of(t)),
{
    let mut out: Vec<Variant> = Vec::new();
    let mut i: usize = 0;
    while i < texts.len()
        invariant
            i <= texts.len(),
            out.len() == i,
            forall|j: int|
                0 <= j < i ==> (#[trigger] out@[j]).deep_view() == variant_of(texts@[j]@),
        decreases texts.len() - i,
    {
        out.push(read_variant(texts[i].as_str()));
        i += 1;
    }
    assert(out.deep_view() =~= texts.deep_view().map_values(|t: Seq<char>| variant_of(t)));
    out
}

fn read_item(text: &str, fuel: usize) -> (r: Item)
    ensures
        r.deep_view() == item_to(text@, fuel as nat),
    decreases fuel, 0int,
{
    if let Some((attrs, name, inputs)) = fn_node(text) {
        return Item::Fn(ItemFn { attrs: read_attrs(&attrs), name, inputs: read_inputs(&inputs) });
    }
    if let Some(n) = struct_node(text) {
        return Item::Struct(
            ItemStruct {
                attrs: read_attrs(&n.attrs),
                name: n.name,
                fields: read_fields(n.fields),
            },
        );
    }
    if let Some((attrs, name, variants)) = enum_node(text) {
        return Item::Enum(
            ItemEnum { attrs: read_attrs(&attrs), name, variants: read_variants(&variants) },
        );
    }
    if let Some((attrs, name, ty)) = alias_node(text) {
        return Item::Type(
            ItemType { attrs: read_attrs(&attrs), name, ty: read_type(ty.as_str()) },
        );
    }
    if let Some((attrs, name, items)) = mod_node(text) {
        let content: Option<Vec<Item>> = match &items {
            Some(c) => if fuel == 0 {
                None
            } else {
                Some(read_items(c, fuel - 1))
            },
            None => None,
        };
        let m = ItemMod { attrs: read_attrs(&attrs), name, content };
        proof {
            syntax::content_view(m);
            if let Some(c) = items {
                if fuel > 0 {
                    assert(m.deep_view().content->Some_0 =~= item_to(
                        text@,
                        fuel as nat,
                    )->Mod_0.content->Some_0);
                }
            }
        }
        return Item::Mod(m);
    }
    Item::Other(read_attrs(&other_attrs(text)))
}

fn read_items(texts: &Vec<String>, fuel: usize) -> (r: Vec<Item>)
    ensures
        r.deep_view() == items_to(texts.deep_view(), fuel as nat),
    decreases fuel, 1int,
{
    let mut out: Vec<Item> = Vec::new();
    let mut i: usize = 0;
    while i < texts.len()
        invariant
            i <= texts.len(),
            out.len() == i,
            forall|j: int|
                0 <= j < i ==> (#[trigger] out@[j]).deep_view() == item_to(
                    texts@[j]@,
                    fuel as nat,
                ),
        decreases texts.len() - i,
    {
        out.push(read_item(texts[i].as_str(), fuel));
        i += 1;
    }
    assert(out.deep_view() =~= items_to(texts.deep_view(), fuel as nat));
    out
}

/// Reads a source file into its items.
pub fn parse_source(text: &str) -> (r: Result<Vec<Item>, String>)
    ensures
        model::outcome(r) == source_items(text@),
{
    let fuel: usize = text.unicode_len();
    match file_items(text) {
        Ok(items) => Ok(read_items(&items, fuel)),
        Err(e) => Err(e),
    }
}

} // verus!
