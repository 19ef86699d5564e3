//! What the texts that are built say.
use crate::text;
use vstd::prelude::*;

verus! {

// ── Numbers ──────────────────────────────────────────────────────────────

/// The number that a sequence of digits stands for.
pub open spec fn number_of(s: Seq<char>) -> int
    decreases s.len(),
{
    if s.len() == 0 {
        0
    } else {
        number_of(s.drop_last()) * 10 + (s.last() as int - '0' as int)
    }
}

proof fn digit_reads_back(d: nat)
    requires
        d < 10,
    ensures
        text::digit(d).len() == 1,
        text::digit(d)[0] as int == '0' as int + d,
{
    reveal_strlit("0");
    reveal_strlit("1");
    reveal_strlit("2");
    reveal_strlit("3");
    reveal_strlit("4");
    reveal_strlit("5");
    reveal_strlit("6");
    reveal_strlit("7");
    reveal_strlit("8");
    reveal_strlit("9");
}

/// A number is written in decimal digits that stand for it, without leading zeros.
pub proof fn numbers_read_back(n: nat)
    ensures
        number_of(text::decimal(n)) == n,
        text::decimal(n).len() > 0,
        forall|i: int|
            0 <= i < text::decimal(n).len() ==> '0' <= #[trigger] text::decimal(n)[i] <= '9',
        text::decimal(n)[0] == '0' <==> n == 0,
    decreases n,
{
    let s = text::decimal(n);
    if n < 10 {
        digit_reads_back(n);
        assert(s.drop_last().len() == 0);
        assert(number_of(s.drop_last()) == 0);
    } else {
        numbers_read_back(n / 10);
        digit_reads_back(n % 10);
        assert(s.drop_last() =~= text::decimal(n / 10));
        assert(s.last() == text::digit(n % 10)[0]);
        assert(s[0] == text::decimal(n / 10)[0]);
        assert forall|i: int| 0 <= i < s.len() implies '0' <= #[trigger] s[i] <= '9' by {
            if i < s.len() - 1 {
                assert(s[i] == text::decimal(n / 10)[i]);
            }
        }
    }
}

// ── Names ────────────────────────────────────────────────────────────────

proof fn pascal_joins(a: Seq<char>, b: Seq<char>, from: int, fresh: bool)
    requires
        0 <= from <= a.len(),
    ensures
        text::pascal_from(a + seq!['_'] + b, from, fresh) == text::pascal_from(a, from, fresh)
            + text::pascal(b),
    decreases a.len() - from,
{
    let s = a + seq!['_'] + b;
    if from == a.len() {
        assert(s[from] == '_');
        pascal_shifts(a + seq!['_'], b, 0, true);
        assert(text::pascal_from(a, from, fresh) =~= Seq::empty());
        assert(text::pascal_from(s, from, fresh) =~= text::pascal(b));
    } else {
        assert(s[from] == a[from]);
        pascal_joins(a, b, from + 1, a[from] == '_');
        assert(text::pascal_from(s, from, fresh) =~= text::pascal_from(a, from, fresh)
            + text::pascal(b));
    }
}

proof fn pascal_shifts(a: Seq<char>, b: Seq<char>, from: int, fresh: bool)
    requires
        0 <= from <= b.len(),
    ensures
        text::pascal_from(a + b, a.len() + from, fresh) == text::pascal_from(b, from, fresh),
    decreases b.len() - from,
{
    if from < b.len() {
        assert((a + b)[a.len() + from] == b[from]);
        pascal_shifts(a, b, from + 1, b[from] == '_');
    }
}

proof fn pascal_keeps(s: Seq<char>, from: int)
    requires
        0 <= from <= s.len(),
        !s.contains('_'),
    ensures
        text::pascal_from(s, from, false) == s.skip(from),
    decreases s.len() - from,
{
    if from < s.len() {
        assert(s.contains(s[from]));
        pascal_keeps(s, from + 1);
        assert(s.skip(from) =~= seq![s[from]] + s.skip(from + 1));
    } else {
        assert(s.skip(from) =~= Seq::empty());
    }
}

/// A name in pascal case is that of its words in order, and a word is itself with its
/// first letter in upper case.
pub proof fn pascal_case_capitalizes_each_word(
    a: Seq<char>,
    b: Seq<char>,
    first: char,
    rest: Seq<char>,
)
    requires
        first != '_',
        !rest.contains('_'),
    ensures
        text::pascal(a + seq!['_'] + b) == text::pascal(a) + text::pascal(b),
        text::pascal(seq![first] + rest) == text::uppercase(seq![first]) + rest,
        text::pascal(Seq::empty()) == Seq::<char>::empty(),
{
    pascal_joins(a, b, 0, true);
    let word = seq![first] + rest;
    assert(word[0] == first);
    pascal_shifts(seq![first], rest, 0, false);
    pascal_keeps(rest, 0);
    assert(rest.skip(0) =~= rest);
    assert(text::pascal_from(word, 1, false) == rest);
}

/// Dashes become underscores, and nothing else changes.
pub proof fn only_dashes_are_replaced(s: Seq<char>)
    ensures
        text::underscored(s).len() == s.len(),
        forall|i: int|
            0 <= i < s.len() ==> #[trigger] text::underscored(s)[i] == if s[i] == '-' {
                '_'
            } else {
                s[i]
            },
{
}

// ── Lists ────────────────────────────────────────────────────────────────

proof fn separated_grows(words: Seq<Seq<char>>, word: Seq<char>, sep: Seq<char>, from: int)
    requires
        0 <= from <= words.len(),
        words.len() > 0,
    ensures
        text::separated(words.push(word), sep, from) == text::separated(words, sep, from) + sep
            + word,
    decreases words.len() - from,
{
    let all = words.push(word);
    if from == words.len() {
        assert(text::separated(all, sep, from + 1) =~= Seq::empty());
        assert(text::separated(words, sep, from) =~= Seq::empty());
        assert(text::separated(all, sep, from) =~= text::separated(words, sep, from) + sep + word);
    } else {
        assert(all[from] == words[from]);
        separated_grows(words, word, sep, from + 1);
        assert(text::separated(all, sep, from) =~= text::separated(words, sep, from) + sep + word);
    }
}

/// A list is its words in order with the separator between them.
pub proof fn lists_hold_their_words_in_order(
    words: Seq<Seq<char>>,
    word: Seq<char>,
    sep: Seq<char>,
)
    ensures
        text::separated(seq![word], sep, 0) == word,
        words.len() > 0 ==> text::separated(words.push(word), sep, 0) == text::separated(
            words,
            sep,
            0,
        ) + sep + word,
{
    reveal_with_fuel(text::separated, 2);
    assert(text::separated(seq![word], sep, 0) =~= word);
    if words.len() > 0 {
        separated_grows(words, word, sep, 0);
    }
}

// ── Order ────────────────────────────────────────────────────────────────

/// Names are ordered as in a dictionary: one that begins another comes before it, and
/// otherwise the first letters that differ decide.
pub proof fn names_are_ordered_by_their_first_difference(
    head: Seq<char>,
    a: char,
    x: Seq<char>,
    b: char,
    y: Seq<char>,
)
    ensures
        text::lex_le(head, head + x),
        a != b ==> text::lex_le(head + seq![a] + x, head + seq![b] + y) == (a < b),
        x.len() > 0 ==> !text::lex_le(head + x, head),
    decreases head.len(),
{
    let p = head + seq![a] + x;
    let q = head + seq![b] + y;
    if head.len() == 0 {
        assert(p[0] == a && q[0] == b);
        assert(head + x =~= x);
    } else {
        let rest = head.skip(1);
        names_are_ordered_by_their_first_difference(rest, a, x, b, y);
        assert(p.skip(1) =~= rest + seq![a] + x);
        assert(q.skip(1) =~= rest + seq![b] + y);
        assert((head + x).skip(1) =~= rest + x);
        assert(p[0] == head[0] && q[0] == head[0] && (head + x)[0] == head[0]);
    }
}

} // verus!
