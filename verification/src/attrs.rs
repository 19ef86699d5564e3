//! Questions the framework asks of paths and attributes.
use crate::model::{none, put, Dup};
use crate::syntax::{
    AttrForm, AttrFormView, Attribute, AttributeView, Entry, EntryView, Expr, ExprView, FnArg,
    FnArgView, ItemFn, Param, ParamView, Path, PathView,
};
use crate::text::same;
use vstd::prelude::*;

verus! {

// ── Paths ────────────────────────────────────────────────────────────────

impl PathView {
    /// The name of a path that is a single one.
    pub open spec fn ident(self) -> Option<Seq<char>> {
        if !self.leading_colon && self.segments.len() == 1 {
            Some(self.segments[0])
        } else {
            None
        }
    }

    /// Whether the path is just `name`.
    pub open spec fn is(self, name: Seq<char>) -> bool {
        self.ident() == Some(name)
    }

    /// Whether the last name of the path is `name`.
    pub open spec fn ends(self, name: Seq<char>) -> bool {
        self.segments.len() > 0 && self.segments.last() == name
    }
}

impl Path {
    /// The path made of one name.
    pub fn single(name: &str) -> (r: Path)
        ensures
            r.deep_view() == (PathView { leading_colon: false, segments: seq![name@] }),
    {
        Path { leading_colon: false, segments: crate::model::single(name.to_owned()) }
    }

    /// The name of a path that is a single one.
    pub fn ident(&self) -> (r: Option<String>)
        ensures
            r.deep_view() == self.deep_view().ident(),
    {
        if !self.leading_colon && self.segments.len() == 1 {
            Some(self.segments[0].clone())
        } else {
            None
        }
    }

    /// Whether the path is just `name`.
    pub fn is(&self, name: &str) -> (r: bool)
        ensures
            r == self.deep_view().is(name@),
    {
        !self.leading_colon && self.segments.len() == 1 && same(self.segments[0].as_str(), name)
    }

    /// Whether the last name of the path is `name`.
    pub fn ends(&self, name: &str) -> (r: bool)
        ensures
            r == self.deep_view().ends(name@),
    {
        self.segments.len() > 0 && same(self.segments[self.segments.len() - 1].as_str(), name)
    }
}

/// The names from `from` on, each behind `::` but for the first.
pub open spec fn colon_joined(names: Seq<Seq<char>>, from: int) -> Seq<char>
    decreases names.len() - from,
{
    if from < 0 || from >= names.len() {
        Seq::empty()
    } else if from == 0 {
        names[0] + colon_joined(names, 1)
    } else {
        "::"@ + names[from] + colon_joined(names, from + 1)
    }
}

/// A path as text.
pub open spec fn path_text(p: PathView) -> Seq<char> {
    if p.leading_colon {
        "::"@ + colon_joined(p.segments, 0)
    } else {
        colon_joined(p.segments, 0)
    }
}

/// Renders a path.
pub fn render_path(p: &Path) -> (r: String)
    ensures
        r@ == path_text(p.deep_view()),
{
    let ghost names = p.segments.deep_view();
    let mut out: String = String::new();
    if p.leading_colon {
        out.append("::");
    }
    assert(out@ + colon_joined(names, 0) =~= path_text(p.deep_view()));
    let mut i: usize = 0;
    while i < p.segments.len()
        invariant
            i <= p.segments.len(),
            names == p.segments.deep_view(),
            path_text(p.deep_view()) == out@ + colon_joined(names, i as int),
        decreases p.segments.len() - i,
    {
        let ghost before = out@;
        if i > 0 {
            out.append("::");
        }
        out.append(p.segments[i].as_str());
        proof {
            let step = if i == 0 { names[0] } else { "::"@ + names[i as int] };
            assert(colon_joined(names, i as int) =~= step + colon_joined(names, i + 1));
            assert(out@ =~= before + step);
            assert(before + (step + colon_joined(names, i + 1)) =~= (before + step) + colon_joined(
                names,
                i + 1,
            ));
        }
        i += 1;
    }
    assert(out@ + Seq::<char>::empty() =~= out@);
    out
}

// ── Attributes ───────────────────────────────────────────────────────────

/// The attr's last path segment equals `name`, matching the bare
/// re-export form and qualified `admin_authority::admin_initialize`.
pub fn attr_is(attr: &Attribute, name: &str) -> (r: bool)
    ensures
        r == attr.deep_view().path.ends(name@),
{
    attr.path.ends(name)
}

/// Whether one of `attrs` is just `name`.
pub open spec fn named(attrs: Seq<AttributeView>, name: Seq<char>) -> bool {
    exists|i: int| 0 <= i < attrs.len() && (#[trigger] attrs[i]).path.is(name)
}

/// Whether one of `attrs` ends in `name`.
pub open spec fn ending(attrs: Seq<AttributeView>, name: Seq<char>) -> bool {
    exists|i: int| 0 <= i < attrs.len() && (#[trigger] attrs[i]).path.ends(name)
}

/// Whether one of the attributes is just `name`.
pub fn has_attr(attrs: &Vec<Attribute>, name: &str) -> (r: bool)
    ensures
        r == named(attrs.deep_view(), name@),
{
    let mut i: usize = 0;
    while i < attrs.len()
        invariant
            i <= attrs.len(),
            forall|j: int| 0 <= j < i ==> !(#[trigger] attrs.deep_view()[j]).path.is(name@),
        decreases attrs.len() - i,
    {
        if attrs[i].path.is(name) {
            assert(attrs.deep_view()[i as int].path.is(name@));
            return true;
        }
        i += 1;
    }
    false
}

/// The position of the first attribute from `from` on whose path is just `name`.
pub open spec fn first_named(attrs: Seq<AttributeView>, name: Seq<char>, from: int) -> Option<int>
    decreases attrs.len() - from,
{
    if from < 0 || from >= attrs.len() {
        None
    } else if attrs[from].path.is(name) {
        Some(from)
    } else {
        first_named(attrs, name, from + 1)
    }
}

/// The position of the first attribute that is just `name`.
pub fn find_attr(attrs: &Vec<Attribute>, name: &str) -> (r: Option<usize>)
    ensures
        match r {
            Some(i) => first_named(attrs.deep_view(), name@, 0) == Some(i as int) && i < attrs.len(),
            None => first_named(attrs.deep_view(), name@, 0) is None,
        },
{
    let mut i: usize = 0;
    while i < attrs.len()
        invariant
            i <= attrs.len(),
            first_named(attrs.deep_view(), name@, 0) == first_named(
                attrs.deep_view(),
                name@,
                i as int,
            ),
        decreases attrs.len() - i,
    {
        if attrs[i].path.is(name) {
            return Some(i);
        }
        i += 1;
    }
    None
}

/// The position of the first attribute from `from` on whose path ends in `name`.
pub open spec fn first_ending(attrs: Seq<AttributeView>, name: Seq<char>, from: int) -> Option<int>
    decreases attrs.len() - from,
{
    if from < 0 || from >= attrs.len() {
        None
    } else if attrs[from].path.ends(name) {
        Some(from)
    } else {
        first_ending(attrs, name, from + 1)
    }
}

/// The position of the first attribute whose path ends in `name`.
pub fn find_ending(attrs: &Vec<Attribute>, name: &str) -> (r: Option<usize>)
    ensures
        match r {
            Some(i) => first_ending(attrs.deep_view(), name@, 0) == Some(i as int) && i
                < attrs.len(),
            None => first_ending(attrs.deep_view(), name@, 0) is None,
        },
{
    let mut i: usize = 0;
    while i < attrs.len()
        invariant
            i <= attrs.len(),
            first_ending(attrs.deep_view(), name@, 0) == first_ending(
                attrs.deep_view(),
                name@,
                i as int,
            ),
        decreases attrs.len() - i,
    {
        if attr_is(&attrs[i], name) {
            return Some(i);
        }
        i += 1;
    }
    None
}

// ── Argument lists ───────────────────────────────────────────────────────

impl AttributeView {
    /// The entries of the argument list; none without one.
    pub open spec fn entries(self) -> Seq<EntryView> {
        match self.form {
            AttrFormView::List(l) => l.entries,
            _ => Seq::empty(),
        }
    }
}

/// Whether a reader of the entries comes to entry `i`: only a value that does not
/// parse ends the reading.
pub open spec fn reached(entries: Seq<EntryView>, i: int) -> bool {
    forall|j: int| 0 <= j < i ==> ((#[trigger] entries[j]).assigned ==> entries[j].value is Some)
}

/// Whether one of the entries a reader comes to is `flag`, wherever it stands.
pub open spec fn carries(entries: Seq<EntryView>, flag: Seq<char>) -> bool {
    exists|i: int|
        0 <= i < entries.len() && (#[trigger] entries[i]).path.is(flag) && reached(entries, i)
}

/// The last value of a `key` entry from `from` on that a reader comes to; `found`
/// where there is none. A `key` without a value ends the reading too.
pub open spec fn keyed(
    entries: Seq<EntryView>,
    key: Seq<char>,
    from: int,
    found: Option<ExprView>,
) -> Option<ExprView>
    decreases entries.len() - from,
{
    if from < 0 || from >= entries.len() {
        found
    } else if entries[from].path.is(key) {
        match entries[from].value {
            Some(v) => keyed(entries, key, from + 1, Some(v)),
            None => found,
        }
    } else if entries[from].assigned && entries[from].value is None {
        found
    } else {
        keyed(entries, key, from + 1, found)
    }
}

/// Whether one of the entries is `flag`. Entries with a value are stepped over.
pub fn entries_carry(entries: &Vec<Entry>, flag: &str) -> (r: bool)
    ensures
        r == carries(entries.deep_view(), flag@),
{
    let ghost es = entries.deep_view();
    let mut i: usize = 0;
    while i < entries.len()
        invariant
            i <= entries.len(),
            es == entries.deep_view(),
            reached(es, i as int),
            forall|j: int| 0 <= j < i ==> !(#[trigger] es[j]).path.is(flag@),
        decreases entries.len() - i,
    {
        assert(es[i as int] == entries@[i as int].deep_view());
        if entries[i].path.is(flag) {
            return true;
        }
        if entries[i].assigned && entries[i].value.is_none() {
            assert forall|k: int| 0 <= k < es.len() && (#[trigger] es[k]).path.is(flag@) implies !reached(
                es,
                k,
            ) by {
                assert(es[i as int].assigned && es[i as int].value is None);
            }
            return false;
        }
        i += 1;
    }
    false
}

/// The last value of a `key` entry the reader comes by.
pub fn entries_keyed(entries: &Vec<Entry>, key: &str) -> (r: Option<Expr>)
    ensures
        r.deep_view() == keyed(entries.deep_view(), key@, 0, None),
{
    let mut found: Option<Expr> = None;
    let mut i: usize = 0;
    while i < entries.len()
        invariant
            i <= entries.len(),
            keyed(entries.deep_view(), key@, 0, None) == keyed(
                entries.deep_view(),
                key@,
                i as int,
                found.deep_view(),
            ),
        decreases entries.len() - i,
    {
        if entries[i].path.is(key) {
            match &entries[i].value {
                Some(v) => {
                    found = Some(v.dup());
                },
                None => {
                    return found;
                },
            }
        } else if entries[i].assigned && entries[i].value.is_none() {
            return found;
        }
        i += 1;
    }
    found
}

// ── Parameters ───────────────────────────────────────────────────────────

/// The typed parameters of a function that have a plain name, in order: the
/// only shape gate machinery reads.
pub open spec fn named_params(inputs: Seq<FnArgView>) -> Seq<(Seq<char>, ParamView)>
    decreases inputs.len(),
{
    if inputs.len() == 0 {
        Seq::empty()
    } else {
        let before = named_params(inputs.drop_last());
        match inputs.last() {
            FnArgView::Typed(p) => match p.name {
                Some(n) => before.push((n, p)),
                None => before,
            },
            FnArgView::Receiver => before,
        }
    }
}

/// The named, typed parameters of a function.
pub fn typed_params(func: &ItemFn) -> (r: Vec<(String, Param)>)
    ensures
        r.deep_view() == named_params(func.deep_view().inputs),
{
    let ghost inputs = func.deep_view().inputs;
    let mut out: Vec<(String, Param)> = none();
    let mut i: usize = 0;
    assert(inputs.take(0) =~= Seq::empty());
    while i < func.inputs.len()
        invariant
            i <= func.inputs.len(),
            inputs == func.deep_view().inputs,
            inputs.len() == func.inputs.len(),
            out.deep_view() == named_params(inputs.take(i as int)),
        decreases func.inputs.len() - i,
    {
        assert(inputs.take(i + 1).drop_last() =~= inputs.take(i as int));
        assert(inputs.take(i + 1).last() == func.inputs@[i as int].deep_view());
        match &func.inputs[i] {
            FnArg::Typed(p) => match &p.name {
                Some(n) => {
                    put(&mut out, (n.clone(), p.dup()));
                },
                None => {},
            },
            FnArg::Receiver => {},
        }
        i += 1;
    }
    assert(inputs.take(i as int) =~= inputs);
    out
}

impl ParamView {
    /// Whether one of the parameter's `#[account]` attributes carries a bare `flag`.
    pub open spec fn has_flag(self, flag: Seq<char>) -> bool {
        exists|i: int|
            0 <= i < self.attrs.len() && (#[trigger] self.attrs[i]).path.is("account"@) && carries(self.attrs[i].entries(), flag)
    }
}

/// Whether the parameter's `#[account]` attribute carries a bare `flag`.
pub fn param_has_flag(p: &Param, flag: &str) -> (r: bool)
    ensures
        r == p.deep_view().has_flag(flag@),
{
    let ghost attrs = p.deep_view().attrs;
    let mut i: usize = 0;
    while i < p.attrs.len()
        invariant
            i <= p.attrs.len(),
            attrs == p.deep_view().attrs,
            attrs == p.attrs.deep_view(),
            forall|j: int|
                0 <= j < i ==> !((#[trigger] attrs[j]).path.is("account"@) && carries(
                    attrs[j].entries(),
                    flag@,
                )),
        decreases p.attrs.len() - i,
    {
        let a = &p.attrs[i];
        assert(attrs[i as int] == a.deep_view());
        if a.path.is("account") {
            if let AttrForm::List(l) = &a.form {
                if entries_carry(&l.entries, flag) {
                    return true;
                }
            }
        }
        i += 1;
    }
    false
}

/// Whether the parameter's `#[account]` attribute carries `init`.
pub fn param_has_init(p: &Param) -> (r: bool)
    ensures
        r == p.deep_view().has_flag("init"@),
{
    param_has_flag(p, "init")
}

} // verus!
