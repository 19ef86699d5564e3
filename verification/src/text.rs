//! Text helpers over `Seq<char>`: equality, splitting, trimming, decimal
//! rendering, the order names are sorted by, and the quoting used in messages.
use vstd::prelude::*;

verus! {

/// Whether two texts hold the same characters.
pub fn same(a: &str, b: &str) -> (r: bool)
    ensures
        r == (a@ == b@),
{
    a.to_owned() == b.to_owned()
}

/// Whether a list of texts holds `word`.
pub fn holds(list: &Vec<String>, word: &str) -> (r: bool)
    ensures
        r == list.deep_view().contains(word@),
{
    let mut i: usize = 0;
    while i < list.len()
        invariant
            i <= list.len(),
            forall|j: int| 0 <= j < i ==> list.deep_view()[j] != word@,
        decreases list.len() - i,
    {
        if same(list[i].as_str(), word) {
            assert(list.deep_view()[i as int] == word@);
            return true;
        }
        i += 1;
    }
    false
}

// ── Decimal rendering ────────────────────────────────────────────────────

/// The character of one decimal digit.
pub open spec fn digit(d: nat) -> Seq<char> {
    if d == 0 {
        "0"@
    } else if d == 1 {
        "1"@
    } else if d == 2 {
        "2"@
    } else if d == 3 {
        "3"@
    } else if d == 4 {
        "4"@
    } else if d == 5 {
        "5"@
    } else if d == 6 {
        "6"@
    } else if d == 7 {
        "7"@
    } else if d == 8 {
        "8"@
    } else {
        "9"@
    }
}

/// The decimal rendering of a number, without leading zeros.
pub open spec fn decimal(n: nat) -> Seq<char>
    decreases n,
{
    if n < 10 {
        digit(n)
    } else {
        decimal(n / 10) + digit(n % 10)
    }
}

fn digit_text(d: usize) -> (r: &'static str)
    requires
        d < 10,
    ensures
        r@ == digit(d as nat),
{
    if d == 0 {
        "0"
    } else if d == 1 {
        "1"
    } else if d == 2 {
        "2"
    } else if d == 3 {
        "3"
    } else if d == 4 {
        "4"
    } else if d == 5 {
        "5"
    } else if d == 6 {
        "6"
    } else if d == 7 {
        "7"
    } else if d == 8 {
        "8"
    } else {
        "9"
    }
}

/// Renders a number in decimal.
pub fn number(n: usize) -> (r: String)
    ensures
        r@ == decimal(n as nat),
    decreases n,
{
    if n < 10 {
        digit_text(n).to_owned()
    } else {
        number(n / 10).concat(digit_text(n % 10))
    }
}

// ── Trimming and suffixes ────────────────────────────────────────────────

/// `s` without its leading underscores.
pub open spec fn without_underscores(s: Seq<char>) -> Seq<char>
    decreases s.len(),
{
    if s.len() > 0 && s[0] == '_' {
        without_underscores(s.skip(1))
    } else {
        s
    }
}

/// Drops the leading underscores of a name.
pub fn trim_underscores(s: &str) -> (r: String)
    ensures
        r@ == without_underscores(s@),
{
    let n: usize = s.unicode_len();
    let mut i: usize = 0;
    assert(s@.skip(0) =~= s@);
    while i < n && s.get_char(i) == '_'
        invariant
            i <= n,
            n == s@.len(),
            without_underscores(s@) == without_underscores(s@.skip(i as int)),
        decreases n - i,
    {
        assert(s@.skip(i as int).skip(1) =~= s@.skip(i + 1));
        i += 1;
    }
    assert(s@.subrange(i as int, n as int) =~= s@.skip(i as int));
    s.substring_char(i, n).to_owned()
}

/// Whether `s` ends in `suffix`.
pub open spec fn has_suffix(s: Seq<char>, suffix: Seq<char>) -> bool {
    suffix.len() <= s.len() && s.skip(s.len() - suffix.len()) == suffix
}

/// Whether a text ends in `suffix`.
pub fn ends_with(s: &str, suffix: &str) -> (r: bool)
    ensures
        r == has_suffix(s@, suffix@),
{
    let n: usize = s.unicode_len();
    let k: usize = suffix.unicode_len();
    if k > n {
        return false;
    }
    assert(s@.subrange(n - k, n as int) =~= s@.skip(n - k));
    same(s.substring_char(n - k, n), suffix)
}

/// `s` without `suffix` where it ends in it, else `s`.
pub open spec fn minus_suffix(s: Seq<char>, suffix: Seq<char>) -> Seq<char> {
    if has_suffix(s, suffix) {
        s.take(s.len() - suffix.len())
    } else {
        s
    }
}

/// Drops `suffix` from the end of a text that has it.
pub fn strip_suffix(s: &str, suffix: &str) -> (r: String)
    ensures
        r@ == minus_suffix(s@, suffix@),
{
    if ends_with(s, suffix) {
        let n: usize = s.unicode_len();
        let k: usize = suffix.unicode_len();
        assert(s@.subrange(0, n - k) =~= s@.take(n - k));
        s.substring_char(0, n - k).to_owned()
    } else {
        s.to_owned()
    }
}

/// `s` with every `-` replaced by `_`.
pub open spec fn underscored(s: Seq<char>) -> Seq<char> {
    s.map_values(|c: char| if c == '-' { '_' } else { c })
}

/// Replaces every `-` by `_`.
pub fn replace_dashes(s: &str) -> (r: String)
    ensures
        r@ == underscored(s@),
{
    let n: usize = s.unicode_len();
    let mut out: String = String::new();
    let mut i: usize = 0;
    proof {
        reveal_strlit("_");
    }
    while i < n
        invariant
            i <= n,
            n == s@.len(),
            out@ == underscored(s@).take(i as int),
            "_"@.len() == 1,
            "_"@[0] == '_',
        decreases n - i,
    {
        if s.get_char(i) == '-' {
            out.append("_");
        } else {
            out.append(s.substring_char(i, i + 1));
        }
        i += 1;
        assert(out@ =~= underscored(s@).take(i as int));
    }
    assert(underscored(s@).take(n as int) =~= underscored(s@));
    out
}

/// The position of the first `c` at or after `from`, or the length.
pub open spec fn find_char(s: Seq<char>, c: char, from: int) -> int
    decreases s.len() - from,
{
    if from < 0 || from >= s.len() {
        s.len() as int
    } else if s[from] == c {
        from
    } else {
        find_char(s, c, from + 1)
    }
}

/// Finds the first `c` in a text; the length when there is none.
pub fn position_of(s: &str, c: char) -> (r: usize)
    ensures
        r == find_char(s@, c, 0),
        r <= s@.len(),
{
    let n: usize = s.unicode_len();
    let mut i: usize = 0;
    while i < n
        invariant
            i <= n,
            n == s@.len(),
            find_char(s@, c, 0) == find_char(s@, c, i as int),
        decreases n - i,
    {
        if s.get_char(i) == c {
            return i;
        }
        i += 1;
    }
    n
}

// ── Paths of the form `a::b` ─────────────────────────────────────────────

/// Whether `::` stands at position `i`.
pub open spec fn colons_at(s: Seq<char>, i: int) -> bool {
    0 <= i && i + 1 < s.len() && s[i] == ':' && s[i + 1] == ':'
}

/// The position of the first `::` at or after `from`, or the length.
pub open spec fn find_colons(s: Seq<char>, from: int) -> int
    decreases s.len() - from,
{
    if from < 0 || from >= s.len() {
        s.len() as int
    } else if colons_at(s, from) {
        from
    } else {
        find_colons(s, from + 1)
    }
}

/// What stands before and after the first `::`.
pub open spec fn split_first(s: Seq<char>) -> Option<(Seq<char>, Seq<char>)> {
    let k = find_colons(s, 0);
    if k < s.len() {
        Some((s.take(k), s.skip(k + 2)))
    } else {
        None
    }
}

/// Every piece between the `::` separators of `s`.
pub open spec fn pieces(s: Seq<char>) -> Seq<Seq<char>>
    decreases s.len(),
    via pieces_shrink
{
    match split_first(s) {
        None => seq![s],
        Some((a, b)) => seq![a] + pieces(b),
    }
}

#[via_fn]
proof fn pieces_shrink(s: Seq<char>) {
    find_colons_found(s, 0);
}

proof fn find_colons_found(s: Seq<char>, from: int)
    requires
        0 <= from,
    ensures
        from <= find_colons(s, from) < s.len() ==> colons_at(s, find_colons(s, from)),
        find_colons(s, from) < s.len() ==> from <= find_colons(s, from),
    decreases s.len() - from,
{
    if from < s.len() && !colons_at(s, from) {
        find_colons_found(s, from + 1);
    }
}

/// Splits a text at its first `::`.
pub fn split_colons(s: &str) -> (r: Option<(String, String)>)
    ensures
        r.deep_view() == split_first(s@),
{
    let n: usize = s.unicode_len();
    let mut i: usize = 0;
    while i < n
        invariant
            i <= n,
            n == s@.len(),
            find_colons(s@, 0) == find_colons(s@, i as int),
        decreases n - i,
    {
        if s.get_char(i) == ':' && i + 1 < n && s.get_char(i + 1) == ':' {
            assert(s@.subrange(0, i as int) =~= s@.take(i as int));
            assert(s@.subrange(i + 2, n as int) =~= s@.skip(i + 2));
            return Some((s.substring_char(0, i).to_owned(), s.substring_char(i + 2, n).to_owned()));
        }
        i += 1;
    }
    None
}

/// Splits a text at every `::`.
pub fn split_all(s: &str) -> (r: Vec<String>)
    ensures
        r.deep_view() == pieces(s@),
    decreases s@.len(),
{
    match split_colons(s) {
        None => {
            let mut out: Vec<String> = Vec::new();
            out.push(s.to_owned());
            assert(out.deep_view() =~= seq![s@]);
            out
        },
        Some((a, b)) => {
            proof {
                find_colons_found(s@, 0);
            }
            let mut out: Vec<String> = Vec::new();
            let ghost first = a@;
            out.push(a);
            let mut rest: Vec<String> = split_all(b.as_str());
            let ghost tail = rest.deep_view();
            out.append(&mut rest);
            assert(out.deep_view() =~= seq![first] + tail);
            out
        },
    }
}

// ── Order of names ───────────────────────────────────────────────────────

/// Whether `a` stands before `b` or equals it, character by character: the
/// order std gives texts.
pub open spec fn lex_le(a: Seq<char>, b: Seq<char>) -> bool
    decreases a.len(),
{
    if a.len() == 0 {
        true
    } else if b.len() == 0 {
        false
    } else if a[0] == b[0] {
        lex_le(a.skip(1), b.skip(1))
    } else {
        a[0] < b[0]
    }
}

/// Compares two names.
pub fn name_le(a: &str, b: &str) -> (r: bool)
    ensures
        r == lex_le(a@, b@),
{
    let n: usize = a.unicode_len();
    let m: usize = b.unicode_len();
    let mut i: usize = 0;
    assert(a@.skip(0) =~= a@);
    assert(b@.skip(0) =~= b@);
    while i < n && i < m
        invariant
            i <= n,
            i <= m,
            n == a@.len(),
            m == b@.len(),
            lex_le(a@, b@) == lex_le(a@.skip(i as int), b@.skip(i as int)),
        decreases n - i,
    {
        let x: char = a.get_char(i);
        let y: char = b.get_char(i);
        assert(a@.skip(i as int)[0] == x && b@.skip(i as int)[0] == y);
        if x != y {
            return x < y;
        }
        assert(a@.skip(i as int).skip(1) =~= a@.skip(i + 1));
        assert(b@.skip(i as int).skip(1) =~= b@.skip(i + 1));
        i += 1;
    }
    i == n
}

/// Any two names are ordered one way or the other.
pub proof fn lex_total(a: Seq<char>, b: Seq<char>)
    ensures
        lex_le(a, b) || lex_le(b, a),
    decreases a.len(),
{
    if a.len() > 0 && b.len() > 0 && a[0] == b[0] {
        lex_total(a.skip(1), b.skip(1));
    }
}

/// The order of names is transitive.
pub proof fn lex_transitive(a: Seq<char>, b: Seq<char>, c: Seq<char>)
    requires
        lex_le(a, b),
        lex_le(b, c),
    ensures
        lex_le(a, c),
    decreases a.len(),
{
    if a.len() > 0 && b.len() > 0 && c.len() > 0 && a[0] == b[0] && b[0] == c[0] {
        lex_transitive(a.skip(1), b.skip(1), c.skip(1));
    }
}

// ── Lists in messages ────────────────────────────────────────────────────

/// `words` from position `from` on, with `sep` between them.
pub open spec fn separated(words: Seq<Seq<char>>, sep: Seq<char>, from: int) -> Seq<char>
    decreases words.len() - from,
{
    if from < 0 || from >= words.len() {
        Seq::empty()
    } else if from == 0 {
        words[0] + separated(words, sep, 1)
    } else {
        sep + words[from] + separated(words, sep, from + 1)
    }
}

/// `words` from position `from` on, separated by `", "`.
pub open spec fn listed(words: Seq<Seq<char>>, from: int) -> Seq<char> {
    separated(words, ", "@, from)
}

/// Renders `words` with `sep` between them.
pub fn separate(words: &Vec<String>, sep: &str) -> (r: String)
    ensures
        r@ == separated(words.deep_view(), sep@, 0),
{
    let mut out: String = String::new();
    let mut i: usize = 0;
    while i < words.len()
        invariant
            i <= words.len(),
            separated(words.deep_view(), sep@, 0) == out@ + separated(
                words.deep_view(),
                sep@,
                i as int,
            ),
        decreases words.len() - i,
    {
        let ghost before = out@;
        if i > 0 {
            out.append(sep);
        }
        out.append(words[i].as_str());
        proof {
            let w = words.deep_view();
            let step = if i == 0 { w[0] } else { sep@ + w[i as int] };
            let rest = separated(w, sep@, i + 1);
            assert(separated(w, sep@, i as int) =~= step + rest);
            assert(out@ =~= before + step);
            assert(before + (step + rest) =~= (before + step) + rest);
        }
        i += 1;
    }
    assert(out@ + Seq::<char>::empty() =~= out@);
    out
}

/// Renders `words` separated by `", "`.
pub fn comma_list(words: &Vec<String>) -> (r: String)
    ensures
        r@ == listed(words.deep_view(), 0),
{
    separate(words, ", ")
}

/// What `{:?}` renders a text as.
pub uninterp spec fn quoted(s: Seq<char>) -> Seq<char>;

/// `format!("{:?}")` of std on a text: the quoted, escaped rendering. Which
/// characters it escapes is left to the name [`quoted`].
#[verifier::external_body]
pub(crate) fn quote(s: &str) -> (r: String)
    ensures
        r@ == quoted(s@),
{
    format!("{:?}", s)
}

/// Every word of a list, quoted.
pub open spec fn all_quoted(words: Seq<Seq<char>>) -> Seq<Seq<char>> {
    words.map_values(|w: Seq<char>| quoted(w))
}

/// Renders a list of texts as `{:?}` does: quoted, comma separated, in brackets.
pub fn quote_list(words: &Vec<String>) -> (r: String)
    ensures
        r@ == "["@ + listed(all_quoted(words.deep_view()), 0) + "]"@,
{
    let mut out: Vec<String> = Vec::new();
    let mut i: usize = 0;
    while i < words.len()
        invariant
            i <= words.len(),
            out.len() == i,
            forall|j: int| 0 <= j < i ==> (#[trigger] out@[j])@ == quoted(words@[j]@),
        decreases words.len() - i,
    {
        out.push(quote(words[i].as_str()));
        i += 1;
    }
    assert(out.deep_view() =~= all_quoted(words.deep_view()));
    "[".to_owned().concat(comma_list(&out).as_str()).concat("]")
}

// ── Letter case ──────────────────────────────────────────────────────────

/// The upper-case form of a text.
pub uninterp spec fn uppercase(s: Seq<char>) -> Seq<char>;

/// The lower-case form of a text.
pub uninterp spec fn lowercase(s: Seq<char>) -> Seq<char>;

/// Whether every character is a digit, an underscore or a lower-case ASCII letter.
pub open spec fn is_snake(s: Seq<char>) -> bool {
    forall|i: int|
        0 <= i < s.len() ==> ('a' <= #[trigger] s[i] <= 'z' || '0' <= s[i] <= '9' || s[i] == '_')
}

/// The upper-case form of one snake-case character.
pub open spec fn snake_upper(c: char) -> char {
    if 'a' <= c <= 'z' {
        ((c as u32 - 32) as u32) as char
    } else {
        c
    }
}

/// `str::to_uppercase` of std. Unicode casing is left to the name
/// [`uppercase`]; on a snake-case ASCII text each letter maps on its own.
#[verifier::external_body]
pub(crate) fn to_upper(s: &str) -> (r: String)
    ensures
        r@ == uppercase(s@),
        is_snake(s@) ==> r@ == s@.map_values(|c: char| snake_upper(c)),
{
    s.to_uppercase()
}

/// Whether every character is ASCII.
pub open spec fn all_ascii(s: Seq<char>) -> bool {
    forall|i: int| 0 <= i < s.len() ==> (#[trigger] s[i]) <= '\u{7f}'
}

/// The lower-case form of one ASCII character.
pub open spec fn ascii_lower(c: char) -> char {
    if 'A' <= c <= 'Z' {
        ((c as u32 + 32) as u32) as char
    } else {
        c
    }
}

/// `str::to_lowercase` of std. Unicode casing is left to the name
/// [`lowercase`]; on an ASCII text each letter maps on its own.
#[verifier::external_body]
pub(crate) fn to_lower(s: &str) -> (r: String)
    ensures
        r@ == lowercase(s@),
        all_ascii(s@) ==> r@ == s@.map_values(|c: char| ascii_lower(c)),
{
    s.to_lowercase()
}

// ── PascalCase ───────────────────────────────────────────────────────────

/// The part of a snake-case name from `from` on in PascalCase. `fresh` says
/// whether a word starts there.
pub open spec fn pascal_from(s: Seq<char>, from: int, fresh: bool) -> Seq<char>
    decreases s.len() - from,
{
    if !(0 <= from < s.len()) {
        Seq::empty()
    } else if s[from] == '_' {
        pascal_from(s, from + 1, true)
    } else if fresh {
        uppercase(seq![s[from]]) + pascal_from(s, from + 1, false)
    } else {
        seq![s[from]] + pascal_from(s, from + 1, false)
    }
}

/// A snake-case name in PascalCase: the underscores fall away, and the first
/// letter of each word is upper-case.
pub open spec fn pascal(s: Seq<char>) -> Seq<char> {
    pascal_from(s, 0, true)
}

/// A snake-case name in PascalCase.
pub fn to_pascal(s: &str) -> (r: String)
    ensures
        r@ == pascal(s@),
{
    let n: usize = s.unicode_len();
    let mut out: String = String::new();
    let mut fresh: bool = true;
    let mut i: usize = 0;
    assert(Seq::<char>::empty() + pascal(s@) =~= pascal(s@));
    while i < n
        invariant
            i <= n,
            n == s@.len(),
            pascal(s@) == out@ + pascal_from(s@, i as int, fresh),
        decreases n - i,
    {
        if s.get_char(i) == '_' {
            fresh = true;
        } else {
            let one = s.substring_char(i, i + 1);
            assert(one@ =~= seq![s@[i as int]]);
            let ghost before = out@;
            let ghost rest = pascal_from(s@, i + 1, false);
            if fresh {
                let upper = to_upper(one);
                out.append(upper.as_str());
                assert(before + (upper@ + rest) =~= out@ + rest);
            } else {
                out.append(one);
                assert(before + (one@ + rest) =~= out@ + rest);
            }
            fresh = false;
        }
        i += 1;
    }
    assert(out@ + Seq::<char>::empty() =~= out@);
    out
}

} // verus!
