//! Character classes and small string helpers shared by the parsers.
use vstd::prelude::*;

verus! {

/// Whether `c` is a quote character.
pub open spec fn is_quote(c: char) -> bool {
    c == '\'' || c == '"'
}

/// The characters that separate words on a command line: the Unicode
/// White_Space set, as Rust's `char::is_whitespace` has it.
pub open spec fn is_blank(c: char) -> bool {
    ('\u{9}' <= c && c <= '\u{D}') || c == ' ' || c == '\u{85}' || c == '\u{A0}' || c
        == '\u{1680}' || ('\u{2000}' <= c && c <= '\u{200A}') || c == '\u{2028}' || c
        == '\u{2029}' || c == '\u{202F}' || c == '\u{205F}' || c == '\u{3000}'
}

/// Executable test for `is_blank`.
pub fn is_blank_char(c: char) -> (r: bool)
    ensures
        r == is_blank(c),
{
    ('\u{9}' <= c && c <= '\u{D}') || c == ' ' || c == '\u{85}' || c == '\u{A0}' || c
        == '\u{1680}' || ('\u{2000}' <= c && c <= '\u{200A}') || c == '\u{2028}' || c
        == '\u{2029}' || c == '\u{202F}' || c == '\u{205F}' || c == '\u{3000}'
}

/// A view of a sequence of strings as a sequence of character sequences.
pub open spec fn strings_view(v: Seq<String>) -> Seq<Seq<char>> {
    v.map_values(|s: String| s@)
}

/// Appends the character at position `i` of `src` to `dst`.
pub fn push_char_at(dst: &mut String, src: &str, i: usize)
    requires
        i < src@.len() <= usize::MAX,
    ensures
        final(dst)@ == old(dst)@.push(src@[i as int]),
{
    let piece = src.substring_char(i, i + 1);
    dst.append(piece);
    assert(piece@ =~= seq![src@[i as int]]);
    assert(final(dst)@ =~= old(dst)@.push(src@[i as int]));
}

/// Appends a single space to `dst`.
pub fn push_space(dst: &mut String)
    ensures
        final(dst)@ == old(dst)@.push(' '),
{
    dst.append(" ");
    proof {
        reveal_strlit(" ");
    }
    assert(final(dst)@ =~= old(dst)@.push(' '));
}

/// Whether two strings hold the same characters.
pub fn str_eq(a: &str, b: &str) -> (r: bool)
    ensures
        r == (a@ == b@),
{
    let n = a.unicode_len();
    if n != b.unicode_len() {
        return false;
    }
    let mut i: usize = 0;
    while i < n
        invariant
            n == a@.len() == b@.len(),
            i <= n,
            a@.subrange(0, i as int) == b@.subrange(0, i as int),
        decreases n - i,
    {
        if a.get_char(i) != b.get_char(i) {
            return false;
        }
        assert(a@.subrange(0, i + 1) =~= a@.subrange(0, i as int).push(a@[i as int]));
        assert(b@.subrange(0, i + 1) =~= b@.subrange(0, i as int).push(b@[i as int]));
        i = i + 1;
    }
    assert(a@ =~= a@.subrange(0, n as int));
    assert(b@ =~= b@.subrange(0, n as int));
    true
}

/// Whether `p` is a prefix of `s`.
pub fn starts_with(s: &str, p: &str) -> (r: bool)
    ensures
        r == p@.is_prefix_of(s@),
{
    let n = p.unicode_len();
    if n > s.unicode_len() {
        return false;
    }
    let mut i: usize = 0;
    while i < n
        invariant
            n == p@.len() <= s@.len(),
            i <= n,
            p@.subrange(0, i as int) == s@.subrange(0, i as int),
        decreases n - i,
    {
        if p.get_char(i) != s.get_char(i) {
            return false;
        }
        assert(p@.subrange(0, i + 1) =~= p@.subrange(0, i as int).push(p@[i as int]));
        assert(s@.subrange(0, i + 1) =~= s@.subrange(0, i as int).push(s@[i as int]));
        i = i + 1;
    }
    assert(p@ =~= p@.subrange(0, n as int));
    true
}

/// Whether every character of `s` is blank.
pub open spec fn all_blank(s: Seq<char>) -> bool {
    forall|i: int| 0 <= i < s.len() ==> is_blank(#[trigger] s[i])
}

/// Executable test for `all_blank`.
pub fn is_all_blank(s: &str) -> (r: bool)
    ensures
        r == all_blank(s@),
{
    let n = s.unicode_len();
    let mut i: usize = 0;
    while i < n
        invariant
            n == s@.len(),
            i <= n,
            forall|k: int| 0 <= k < i ==> is_blank(#[trigger] s@[k]),
        decreases n - i,
    {
        if !is_blank_char(s.get_char(i)) {
            return false;
        }
        i = i + 1;
    }
    true
}

/// Whether some character of `s` is blank.
pub open spec fn has_blank(s: Seq<char>) -> bool {
    exists|i: int| 0 <= i < s.len() && is_blank(#[trigger] s[i])
}

/// Executable test for `has_blank`.
pub fn contains_blank(s: &str) -> (r: bool)
    ensures
        r == has_blank(s@),
{
    let n = s.unicode_len();
    let mut i: usize = 0;
    while i < n
        invariant
            n == s@.len(),
            i <= n,
            forall|k: int| 0 <= k < i ==> !is_blank(#[trigger] s@[k]),
        decreases n - i,
    {
        if is_blank_char(s.get_char(i)) {
            return true;
        }
        i = i + 1;
    }
    false
}

/// The words of `ws` joined with single spaces.
pub open spec fn join_words(ws: Seq<Seq<char>>) -> Seq<char>
    decreases ws.len(),
{
    if ws.len() == 0 {
        Seq::empty()
    } else if ws.len() == 1 {
        ws[0]
    } else {
        join_words(ws.drop_last()) + seq![' '] + ws.last()
    }
}

/// Joins `parts` with single spaces.
pub fn join_with_space(parts: &Vec<String>) -> (r: String)
    ensures
        r@ == join_words(strings_view(parts@)),
{
    let mut r = String::new();
    let mut k: usize = 0;
    while k < parts.len()
        invariant
            k <= parts@.len(),
            r@ == join_words(strings_view(parts@.subrange(0, k as int))),
        decreases parts@.len() - k,
    {
        let ghost before = r@;
        let ghost ws = strings_view(parts@.subrange(0, k + 1));
        assert(ws.drop_last() =~= strings_view(parts@.subrange(0, k as int)));
        if k > 0 {
            push_space(&mut r);
        }
        r.append(parts[k].as_str());
        if k == 0 {
            assert(r@ =~= ws[0]);
        } else {
            assert(r@ =~= before + seq![' '] + ws.last());
        }
        k = k + 1;
    }
    assert(parts@.subrange(0, parts@.len() as int) =~= parts@);
    r
}

/// `s` without its leading quote characters.
pub open spec fn trim_quotes_start(s: Seq<char>) -> Seq<char>
    decreases s.len(),
{
    if s.len() > 0 && is_quote(s[0]) {
        trim_quotes_start(s.drop_first())
    } else {
        s
    }
}

/// `s` without its trailing quote characters.
pub open spec fn trim_quotes_end(s: Seq<char>) -> Seq<char>
    decreases s.len(),
{
    if s.len() > 0 && is_quote(s.last()) {
        trim_quotes_end(s.drop_last())
    } else {
        s
    }
}

fn is_quote_char(c: char) -> (r: bool)
    ensures
        r == is_quote(c),
{
    c == '\'' || c == '"'
}

/// Removes every quote character, single or double, from both ends of an
/// argument.
pub fn remove_surrounding_quotes(argument: &str) -> (r: String)
    ensures
        r@ == trim_quotes_end(trim_quotes_start(argument@)),
{
    let ghost s = argument@;
    let n = argument.unicode_len();
    let mut i: usize = 0;
    assert(s.subrange(0, n as int) =~= s);
    while i < n && is_quote_char(argument.get_char(i))
        invariant
            s == argument@,
            n == s.len(),
            i <= n,
            trim_quotes_start(s.subrange(i as int, n as int)) == trim_quotes_start(s),
        decreases n - i,
    {
        assert(s.subrange(i as int, n as int).drop_first() =~= s.subrange(i + 1, n as int));
        i = i + 1;
    }
    assert(trim_quotes_start(s.subrange(i as int, n as int)) == s.subrange(i as int, n as int));
    let mut j: usize = n;
    while j > i && is_quote_char(argument.get_char(j - 1))
        invariant
            s == argument@,
            n == s.len(),
            i <= j <= n,
            trim_quotes_end(s.subrange(i as int, j as int)) == trim_quotes_end(
                trim_quotes_start(s),
            ),
        decreases j,
    {
        assert(s.subrange(i as int, j as int).drop_last() =~= s.subrange(i as int, j - 1));
        j = j - 1;
    }
    let mut r = String::new();
    r.append(argument.substring_char(i, j));
    r
}

/// Checks whether an argument starts and ends with the same quote character.
pub fn is_surrounded_by_quotes(argument: &str) -> (r: bool)
    ensures
        r == (argument@.len() > 0 && is_quote(argument@[0]) && argument@.last() == argument@[0]),
{
    let n = argument.unicode_len();
    if n == 0 {
        return false;
    }
    let first = argument.get_char(0);
    let last = argument.get_char(n - 1);
    (first == '\'' && last == '\'') || (first == '"' && last == '"')
}

} // verus!
