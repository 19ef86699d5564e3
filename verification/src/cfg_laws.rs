//! How the conditions of a `#[cfg(...)]` combine.
use crate::cfg;
use crate::syntax::TokenView;
use vstd::prelude::*;

verus! {

/// Whether a condition leaves its item out of a default build.
pub open spec fn leaves_out(tokens: Seq<TokenView>) -> bool {
    cfg::excludes(tokens, 0, false, 0, true)
}

/// A call such as `not(...)` in a condition.
pub open spec fn call(name: Seq<char>, args: Seq<TokenView>) -> Seq<TokenView> {
    seq![TokenView::Ident(name), TokenView::Group(args)]
}

/// Two conditions side by side, such as `a, b`.
pub open spec fn beside(a: Seq<TokenView>, b: Seq<TokenView>) -> Seq<TokenView> {
    a + seq![TokenView::Other] + b
}

/// Whether a condition names anything.
pub open spec fn names_something(tokens: Seq<TokenView>) -> bool {
    exists|i: int| 0 <= i < tokens.len() && #[trigger] tokens[i] != TokenView::Other
}

proof fn shifted(
    x: Seq<TokenView>,
    b: Seq<TokenView>,
    i: int,
    in_any: bool,
    count: nat,
    all: bool,
)
    requires
        0 <= i <= b.len(),
    ensures
        cfg::excludes(x + b, x.len() + i, in_any, count, all) == cfg::excludes(
            b,
            i,
            in_any,
            count,
            all,
        ),
    decreases b.len() - i,
{
    let t = x + b;
    let at = x.len() + i;
    if i < b.len() {
        assert(t[at] == b[i]);
        if i + 1 < b.len() {
            assert(t[at + 1] == b[i + 1]);
        }
        assert(cfg::group_behind(t, at) == cfg::group_behind(b, i));
        match b[i] {
            TokenView::Ident(name) => {
                let inside = cfg::group_behind(b, i);
                let behind: int = if inside is Some {
                    i + 2
                } else {
                    i + 1
                };
                if in_any {
                    let verdict = match inside {
                        Some(group) => if name == "not"@ {
                            false
                        } else if name == "any"@ {
                            !cfg::has_alternative(group) || cfg::excludes(group, 0, true, 0, true)
                        } else if name == "all"@ {
                            cfg::excludes(group, 0, false, 0, true)
                        } else {
                            cfg::is_trigger(name)
                        },
                        None => cfg::is_trigger(name),
                    };
                    shifted(x, b, behind, in_any, count + 1, all && verdict);
                } else {
                    shifted(x, b, behind, in_any, count, all);
                    shifted(x, b, i + 1, in_any, count, all);
                }
            },
            TokenView::Group(inner) => {
                let inside = cfg::excludes(inner, 0, in_any, 0, true);
                shifted(x, b, i + 1, in_any, count + 1, all && inside);
                shifted(x, b, i + 1, in_any, count, all);
            },
            TokenView::Other => shifted(x, b, i + 1, in_any, count, all),
        }
    }
}

proof fn joined(a: Seq<TokenView>, b: Seq<TokenView>, i: int)
    requires
        0 <= i <= a.len(),
    ensures
        cfg::excludes(beside(a, b), i, false, 0, true) == (cfg::excludes(a, i, false, 0, true)
            || cfg::excludes(b, 0, false, 0, true)),
    decreases a.len() - i,
{
    let t = beside(a, b);
    if i == a.len() {
        assert(t[i] == TokenView::Other);
        assert(t =~= (a + seq![TokenView::Other]) + b);
        shifted(a + seq![TokenView::Other], b, 0, false, 0, true);
    } else {
        assert(t[i] == a[i]);
        if i + 1 < a.len() {
            assert(t[i + 1] == a[i + 1]);
        } else {
            assert(t[i + 1] == TokenView::Other);
        }
        assert(cfg::group_behind(t, i) == cfg::group_behind(a, i));
        joined(a, b, i + 1);
        if cfg::group_behind(a, i) is Some {
            joined(a, b, i + 2);
        }
    }
}

/// The counter of alternatives matters only for whether there are any.
proof fn weighed(t: Seq<TokenView>, i: int, count: nat, all: bool)
    requires
        0 <= i <= t.len(),
        count > 0,
    ensures
        cfg::excludes(t, i, true, count, all) == (all && cfg::excludes(t, i, true, 1, true)),
    decreases t.len() - i,
{
    if i < t.len() {
        match t[i] {
            TokenView::Ident(name) => {
                let inside = cfg::group_behind(t, i);
                let behind: int = if inside is Some {
                    i + 2
                } else {
                    i + 1
                };
                let verdict = match inside {
                    Some(group) => if name == "not"@ {
                        false
                    } else if name == "any"@ {
                        !cfg::has_alternative(group) || cfg::excludes(group, 0, true, 0, true)
                    } else if name == "all"@ {
                        cfg::excludes(group, 0, false, 0, true)
                    } else {
                        cfg::is_trigger(name)
                    },
                    None => cfg::is_trigger(name),
                };
                weighed(t, behind, count + 1, all && verdict);
                weighed(t, behind, 2, verdict);
            },
            TokenView::Group(inner) => {
                let inside = cfg::excludes(inner, 0, true, 0, true);
                weighed(t, i + 1, count + 1, all && inside);
                weighed(t, i + 1, 2, inside);
            },
            TokenView::Other => weighed(t, i + 1, count, all),
        }
    }
}

proof fn started(t: Seq<TokenView>, i: int)
    requires
        0 <= i <= t.len(),
        exists|k: int| i <= k < t.len() && #[trigger] t[k] != TokenView::Other,
    ensures
        cfg::excludes(t, i, true, 0, true) == cfg::excludes(t, i, true, 1, true),
    decreases t.len() - i,
{
    match t[i] {
        TokenView::Ident(name) => {
            let inside = cfg::group_behind(t, i);
            let behind: int = if inside is Some {
                i + 2
            } else {
                i + 1
            };
            let verdict = match inside {
                Some(group) => if name == "not"@ {
                    false
                } else if name == "any"@ {
                    !cfg::has_alternative(group) || cfg::excludes(group, 0, true, 0, true)
                } else if name == "all"@ {
                    cfg::excludes(group, 0, false, 0, true)
                } else {
                    cfg::is_trigger(name)
                },
                None => cfg::is_trigger(name),
            };
            weighed(t, behind, 2, verdict);
            weighed(t, behind, 1, verdict);
        },
        TokenView::Group(inner) => {
            let inside = cfg::excludes(inner, 0, true, 0, true);
            weighed(t, i + 1, 2, inside);
            weighed(t, i + 1, 1, inside);
        },
        TokenView::Other => started(t, i + 1),
    }
}

proof fn joined_in_any(a: Seq<TokenView>, b: Seq<TokenView>, i: int)
    requires
        0 <= i <= a.len(),
    ensures
        cfg::excludes(beside(a, b), i, true, 1, true) == (cfg::excludes(a, i, true, 1, true)
            && cfg::excludes(b, 0, true, 1, true)),
    decreases a.len() - i,
{
    let t = beside(a, b);
    if i == a.len() {
        assert(t[i] == TokenView::Other);
        assert(t =~= (a + seq![TokenView::Other]) + b);
        shifted(a + seq![TokenView::Other], b, 0, true, 1, true);
    } else {
        assert(t[i] == a[i]);
        if i + 1 < a.len() {
            assert(t[i + 1] == a[i + 1]);
        } else {
            assert(t[i + 1] == TokenView::Other);
        }
        assert(cfg::group_behind(t, i) == cfg::group_behind(a, i));
        match a[i] {
            TokenView::Ident(name) => {
                let inside = cfg::group_behind(a, i);
                let behind: int = if inside is Some {
                    i + 2
                } else {
                    i + 1
                };
                let verdict = match inside {
                    Some(group) => if name == "not"@ {
                        false
                    } else if name == "any"@ {
                        !cfg::has_alternative(group) || cfg::excludes(group, 0, true, 0, true)
                    } else if name == "all"@ {
                        cfg::excludes(group, 0, false, 0, true)
                    } else {
                        cfg::is_trigger(name)
                    },
                    None => cfg::is_trigger(name),
                };
                weighed(t, behind, 2, verdict);
                weighed(a, behind, 2, verdict);
                joined_in_any(a, b, behind);
            },
            TokenView::Group(inner) => {
                let inside = cfg::excludes(inner, 0, true, 0, true);
                weighed(t, i + 1, 2, inside);
                weighed(a, i + 1, 2, inside);
                joined_in_any(a, b, i + 1);
            },
            TokenView::Other => joined_in_any(a, b, i + 1),
        }
    }
}

/// A single condition leaves its item out if it is `test` or `feature`, and `not(...)`
/// never does.
pub proof fn tests_and_features_are_left_out(name: Seq<char>, args: Seq<TokenView>)
    ensures
        leaves_out(seq![TokenView::Ident(name)]) <==> name == "test"@ || name == "feature"@,
        !leaves_out(call("not"@, args)),
{
    reveal_with_fuel(cfg::excludes, 4);
    reveal_strlit("not");
    reveal_strlit("any");
    reveal_strlit("test");
    reveal_strlit("feature");
    let one = seq![TokenView::Ident(name)];
    assert(one[0] == TokenView::Ident(name));
    assert("not"@[0] == 'n' && "any"@[0] == 'a' && "test"@[0] == 't' && "feature"@[0] == 'f');
    let two = call("not"@, args);
    assert(two[0] == TokenView::Ident("not"@) && two[1] == TokenView::Group(args));
}

/// Of conditions side by side, and of those inside `all(...)`, one is enough to leave
/// an item out.
pub proof fn one_unmet_condition_is_enough(a: Seq<TokenView>, b: Seq<TokenView>)
    ensures
        leaves_out(beside(a, b)) <==> leaves_out(a) || leaves_out(b),
        leaves_out(call("all"@, a)) <==> leaves_out(a),
{
    joined(a, b, 0);
    reveal_with_fuel(cfg::excludes, 3);
    reveal_strlit("not");
    reveal_strlit("any");
    reveal_strlit("all");
    reveal_strlit("test");
    reveal_strlit("feature");
    assert("not"@[0] == 'n' && "any"@[1] == 'n' && "all"@[1] == 'l' && "all"@[0] == 'a');
    assert("test"@[0] == 't' && "feature"@[0] == 'f');
    let two = call("all"@, a);
    assert(two[0] == TokenView::Ident("all"@) && two[1] == TokenView::Group(a));
}

/// An item with alternatives is left out only if every one of them leaves it out: an
/// alternative counts as it does alone, and two count together.
pub proof fn every_alternative_must_be_unmet(
    name: Seq<char>,
    args: Seq<TokenView>,
    a: Seq<TokenView>,
    b: Seq<TokenView>,
)
    ensures
        names_something(a) && names_something(b) ==> (leaves_out(call("any"@, beside(a, b)))
            <==> leaves_out(call("any"@, a)) && leaves_out(call("any"@, b))),
        leaves_out(call("any"@, seq![TokenView::Ident(name)])) <==> leaves_out(
            seq![TokenView::Ident(name)],
        ),
        leaves_out(call("any"@, call("not"@, args))) <==> leaves_out(call("not"@, args)),
        leaves_out(call("any"@, call("all"@, args))) <==> leaves_out(call("all"@, args)),
        leaves_out(call("any"@, call("any"@, args))) <==> leaves_out(call("any"@, args)),
{
    let whole = beside(a, b);
    any_weighs_all(a);
    any_weighs_all(b);
    any_weighs_all(whole);
    if names_something(a) && names_something(b) {
        let k = choose|k: int| 0 <= k < a.len() && #[trigger] a[k] != TokenView::Other;
        assert(whole[k] == a[k]);
        assert(names_something(whole));
        started(a, 0);
        started(b, 0);
        started(whole, 0);
        joined_in_any(a, b, 0);
    }
    let one = seq![TokenView::Ident(name)];
    any_weighs_all(one);
    any_weighs_all(call("not"@, args));
    any_weighs_all(call("all"@, args));
    any_weighs_all(call("any"@, args));
    any_weighs_all(args);
    tests_and_features_are_left_out(name, args);
    one_unmet_condition_is_enough(args, args);
    reveal_strlit("not");
    reveal_strlit("any");
    reveal_strlit("all");
    reveal_strlit("test");
    reveal_strlit("feature");
    assert("not"@[0] == 'n' && "any"@[1] == 'n' && "all"@[1] == 'l' && "all"@[0] == 'a');
    assert("any"@[0] == 'a' && "test"@[0] == 't' && "feature"@[0] == 'f');
    assert(one[0] == TokenView::Ident(name));
    assert(call("not"@, args)[0] == TokenView::Ident("not"@));
    assert(call("not"@, args)[1] == TokenView::Group(args));
    assert(call("all"@, args)[0] == TokenView::Ident("all"@));
    assert(call("all"@, args)[1] == TokenView::Group(args));
    assert(call("any"@, args)[0] == TokenView::Ident("any"@));
    assert(call("any"@, args)[1] == TokenView::Group(args));
    reveal_with_fuel(cfg::excludes, 3);
}

proof fn any_weighs_all(g: Seq<TokenView>)
    ensures
        leaves_out(call("any"@, g)) <==> (!names_something(g) || cfg::excludes(
            g,
            0,
            true,
            0,
            true,
        )),
{
    reveal_with_fuel(cfg::excludes, 3);
    reveal_strlit("not");
    reveal_strlit("any");
    assert("not"@[0] == 'n' && "any"@[0] == 'a');
    let two = call("any"@, g);
    assert(two[0] == TokenView::Ident("any"@) && two[1] == TokenView::Group(g));
    if names_something(g) {
        let i = choose|i: int| 0 <= i < g.len() && #[trigger] g[i] != TokenView::Other;
        assert(!(g[i] is Other));
    }
    if cfg::has_alternative(g) {
        let i = choose|i: int| 0 <= i < g.len() && !(#[trigger] g[i] is Other);
        assert(g[i] != TokenView::Other);
    }
}

} // verus!
