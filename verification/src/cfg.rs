//! Which items a default build leaves out: the reading of `#[cfg(...)]`.
use crate::syntax::{
    AttrForm, AttrFormView, Attribute, AttributeView, Token, TokenView,
};
use crate::text::same;
use vstd::prelude::*;

verus! {

/// Whether a name stands for a condition a default build does not meet.
pub open spec fn is_trigger(name: Seq<char>) -> bool {
    name == "test"@ || name == "feature"@
}

/// Whether a group holds an alternative at all: a name or a group.
pub open spec fn has_alternative(group: Seq<TokenView>) -> bool {
    exists|i: int| 0 <= i < group.len() && !(#[trigger] group[i] is Other)
}

/// The group right behind the token at `at`.
pub open spec fn group_behind(tokens: Seq<TokenView>, at: int) -> Option<Seq<TokenView>> {
    if at + 1 < tokens.len() {
        match tokens[at + 1] {
            TokenView::Group(g) => Some(g),
            _ => None,
        }
    } else {
        None
    }
}

/// Whether the tokens of a cfg expression, from token `from` on, exclude an
/// item from a default build.
///
/// Outside of `any(...)` one trigger is enough, and what stands inside
/// `not(...)` is skipped. Inside of it (`in_any`) the tokens are alternatives:
/// `count` were met before and `all` of them excluded, and the expression
/// excludes only if there are any and every one does.
pub open spec fn excludes(
    tokens: Seq<TokenView>,
    from: int,
    in_any: bool,
    count: nat,
    all: bool,
) -> bool
    decreases tokens, 0int, tokens.len() - from,
{
    if from < 0 || from >= tokens.len() {
        in_any && count > 0 && all
    } else {
        match tokens[from] {
            TokenView::Ident(name) => {
                let inside = group_behind(tokens, from);
                let behind = if inside is Some {
                    from + 2
                } else {
                    from + 1
                };
                if in_any {
                    let verdict = match inside {
                        Some(group) => if name == "not"@ {
                            false
                        } else if name == "any"@ {
                            !has_alternative(group) || excludes(group, 0, true, 0, true)
                        } else if name == "all"@ {
                            excludes(group, 0, false, 0, true)
                        } else {
                            is_trigger(name)
                        },
                        None => is_trigger(name),
                    };
                    excludes(tokens, behind, in_any, count + 1, all && verdict)
                } else if name == "not"@ {
                    excludes(tokens, behind, in_any, count, all)
                } else if name == "any"@ && inside is Some {
                    let group = inside->Some_0;
                    !has_alternative(group) || excludes(group, 0, true, 0, true) || excludes(
                        tokens,
                        behind,
                        in_any,
                        count,
                        all,
                    )
                } else {
                    is_trigger(name) || excludes(tokens, from + 1, in_any, count, all)
                }
            },
            TokenView::Group(inner) => {
                let inside = excludes(inner, 0, in_any, 0, true);
                if in_any {
                    excludes(tokens, from + 1, in_any, count + 1, all && inside)
                } else {
                    inside || excludes(tokens, from + 1, in_any, count, all)
                }
            },
            TokenView::Other => excludes(tokens, from + 1, in_any, count, all),
        }
    }
}

/// Whether an attribute is a `cfg` that excludes its item from a default build.
pub open spec fn cfg_excludes(a: AttributeView) -> bool {
    a.path.is("cfg"@) && (a.form matches AttrFormView::List(l) && excludes(
        l.tokens,
        0,
        false,
        0,
        true,
    ))
}

/// Whether one of an item's attributes excludes it from a default build.
pub open spec fn cfg_excluded(attrs: Seq<AttributeView>) -> bool {
    exists|i: int| 0 <= i < attrs.len() && cfg_excludes(#[trigger] attrs[i])
}

proof fn group_view(t: Token)
    ensures
        t matches Token::Group(g) ==> t.deep_view() == TokenView::Group(g.deep_view()),
{
    if let Token::Group(g) = t {
        assert(t.deep_view()->Group_0 =~= g.deep_view());
    }
}

/// Whether a group holds an alternative at all.
fn holds_alternative(group: &Vec<Token>) -> (r: bool)
    ensures
        r == has_alternative(group.deep_view()),
{
    let mut i: usize = 0;
    while i < group.len()
        invariant
            i <= group.len(),
            forall|j: int| 0 <= j < i ==> (#[trigger] group.deep_view()[j]) is Other,
        decreases group.len() - i,
    {
        assert(group.deep_view()[i as int] == group@[i as int].deep_view());
        match &group[i] {
            Token::Other => {},
            _ => {
                return true;
            },
        }
        i += 1;
    }
    false
}

/// Recursively scan a token stream for `test` or `feature` identifiers.
/// Skips tokens inside `not(...)` groups so `#[cfg(not(test))]` is not excluded.
///
/// When called from an `any(...)` context (in_any = true), returns true only if
/// ALL alternatives contain exclusion triggers.  This prevents false exclusions
/// like `#[cfg(any(not(test), feature = "x"))]` which should be included in
/// default builds because the `not(test)` alternative satisfies it. A nested
/// `any(...)`, `all(...)` or `not(...)` is one alternative.
#[verifier::loop_isolation(false)]
pub fn cfg_tokens_have_exclusion(tokens: &Vec<Token>, in_any: bool) -> (r: bool)
    ensures
        r == excludes(tokens.deep_view(), 0, in_any, 0, true),
    decreases tokens.deep_view(),
{
    let ghost ts = tokens.deep_view();
    let mut met: bool = false;
    let mut every: bool = true;
    let ghost mut count: nat = 0;
    let mut i: usize = 0;
    while i < tokens.len()
        invariant
            i <= tokens.len(),
            met == (count > 0),
            excludes(ts, 0, in_any, 0, true) == excludes(ts, i as int, in_any, count, every),
        decreases tokens.len() - i,
    {
        proof {
            group_view(tokens@[i as int]);
            assert(ts[i as int] == tokens@[i as int].deep_view());
            if i + 1 < tokens.len() {
                group_view(tokens@[i + 1]);
                assert(ts[i + 1] == tokens@[i + 1].deep_view());
            }
        }
        let inside: Option<&Vec<Token>> = if i + 1 < tokens.len() {
            match &tokens[i + 1] {
                Token::Group(group) => Some(group),
                _ => None,
            }
        } else {
            None
        };
        match &tokens[i] {
            Token::Ident(name) => {
                let negated = same(name.as_str(), "not");
                let any = same(name.as_str(), "any");
                let trigger = same(name.as_str(), "test") || same(name.as_str(), "feature");
                if in_any {
                    let verdict = match inside {
                        Some(group) => if negated {
                            false
                        } else if any {
                            !holds_alternative(group) || cfg_tokens_have_exclusion(group, true)
                        } else if same(name.as_str(), "all") {
                            cfg_tokens_have_exclusion(group, false)
                        } else {
                            trigger
                        },
                        None => trigger,
                    };
                    met = true;
                    every = every && verdict;
                    proof {
                        count = count + 1;
                    }
                    if inside.is_some() {
                        i += 1;
                    }
                } else if negated {
                    if inside.is_some() {
                        i += 1;
                    }
                } else if any && inside.is_some() {
                    if let Some(group) = inside {
                        if !holds_alternative(group) || cfg_tokens_have_exclusion(group, true) {
                            return true;
                        }
                    }
                    i += 1;
                } else if trigger {
                    return true;
                }
            },
            Token::Group(group) => {
                let found = cfg_tokens_have_exclusion(group, in_any);
                if in_any {
                    met = true;
                    every = every && found;
                    proof {
                        count = count + 1;
                    }
                } else if found {
                    return true;
                }
            },
            Token::Other => {},
        }
        i += 1;
    }
    in_any && met && every
}

/// Return `true` if the item's attributes contain a `#[cfg(...)]` that would
/// exclude it from a default (non-test, no-extra-features) build.
///
/// Handles:
/// - `#[cfg(test)]` — always excluded (test-only).
/// - `#[cfg(feature = "...")]` — excluded (unknown which features are enabled).
/// - `#[cfg(any(test, ...))]` / `#[cfg(any(feature = "...", ...))]` — excluded
///   if all alternatives reference `test` or `feature`, however deep they nest.
///
/// Target-triple cfgs (`target_os`, `windows`, etc.) are unresolvable without
/// knowing the build target and never exclude.
///
/// `#[cfg(not(test))]` does not exclude: the scan skips the contents of
/// `not(...)` groups, so production-only items are included.
///
/// `#[cfg_attr(test, ...)]` is not treated as exclusion because it only
/// conditionally applies attributes — it does not remove the item from
/// compilation (e.g. `cfg_attr(test, derive(Debug))` is common and valid).
pub fn is_cfg_excluded(attrs: &Vec<Attribute>) -> (r: bool)
    ensures
        r == cfg_excluded(attrs.deep_view()),
{
    let mut i: usize = 0;
    while i < attrs.len()
        invariant
            i <= attrs.len(),
            forall|j: int| 0 <= j < i ==> !cfg_excludes(#[trigger] attrs.deep_view()[j]),
        decreases attrs.len() - i,
    {
        let a = &attrs[i];
        assert(attrs.deep_view()[i as int] == a.deep_view());
        if a.path.is("cfg") {
            if let AttrForm::List(l) = &a.form {
                if cfg_tokens_have_exclusion(&l.tokens, false) {
                    return true;
                }
            }
        }
        i += 1;
    }
    false
}

} // verus!
