//! Splits a command line into arguments, honouring quotes and escapes.
use vstd::prelude::*;

use crate::text::{is_blank, is_blank_char, push_char_at, strings_view};

verus! {

/// Which kind of quoted run the scanner is inside.
#[derive(Clone, Copy, PartialEq, Eq, Structural, Debug)]
pub enum QuoteMode {
    Unquoted,
    Single,
    Double,
}

/// Characters that a backslash escapes inside double quotes.
pub open spec fn escapable_in_double(c: char) -> bool {
    c == '\\' || c == '$' || c == '"' || c == '\n'
}

/// The tokens of `s` from position `i` on, given the quote mode there, the
/// token being built and the tokens already finished.
pub open spec fn tokens_from(
    s: Seq<char>,
    i: int,
    mode: QuoteMode,
    cur: Seq<char>,
    done: Seq<Seq<char>>,
) -> Seq<Seq<char>>
    decreases s.len() - i,
{
    if i < 0 || i >= s.len() {
        if cur.len() > 0 {
            done.push(cur)
        } else {
            done
        }
    } else {
        let c = s[i];
        match mode {
            QuoteMode::Unquoted => {
                if is_blank(c) {
                    if cur.len() > 0 {
                        tokens_from(s, i + 1, QuoteMode::Unquoted, Seq::empty(), done.push(cur))
                    } else {
                        tokens_from(s, i + 1, QuoteMode::Unquoted, cur, done)
                    }
                } else if c == '\'' {
                    tokens_from(s, i + 1, QuoteMode::Single, cur, done)
                } else if c == '"' {
                    tokens_from(s, i + 1, QuoteMode::Double, cur, done)
                } else if c == '\\' && i + 1 < s.len() {
                    tokens_from(s, i + 2, QuoteMode::Unquoted, cur.push(s[i + 1]), done)
                } else {
                    tokens_from(s, i + 1, QuoteMode::Unquoted, cur.push(c), done)
                }
            },
            QuoteMode::Single => {
                if c == '\'' {
                    tokens_from(s, i + 1, QuoteMode::Unquoted, cur, done)
                } else {
                    tokens_from(s, i + 1, QuoteMode::Single, cur.push(c), done)
                }
            },
            QuoteMode::Double => {
                if c == '"' {
                    tokens_from(s, i + 1, QuoteMode::Unquoted, cur, done)
                } else if c == '\\' && i + 1 < s.len() && escapable_in_double(s[i + 1]) {
                    tokens_from(s, i + 2, QuoteMode::Double, cur.push(s[i + 1]), done)
                } else {
                    tokens_from(s, i + 1, QuoteMode::Double, cur.push(c), done)
                }
            },
        }
    }
}

/// The tokens of a whole line.
///
/// Outside quotes, blanks separate tokens, a quote opens a quoted run and a
/// backslash takes the next character literally. Inside single quotes every
/// character is literal. Inside double quotes a backslash escapes only
/// backslash, `$`, `"` and newline. Quoted and unquoted runs with no blank
/// between them form one token; an unterminated quote is closed at the end.
pub open spec fn tokens(s: Seq<char>) -> Seq<Seq<char>> {
    tokens_from(s, 0, QuoteMode::Unquoted, Seq::empty(), Seq::empty())
}

/// Splits `input` into its arguments as `tokens` describes.
pub fn parse_parameters(input: &str) -> (r: Vec<String>)
    ensures
        strings_view(r@) == tokens(input@),
{
    let n = input.unicode_len();
    let mut done: Vec<String> = Vec::new();
    let mut cur = String::new();
    let mut mode = QuoteMode::Unquoted;
    let mut i: usize = 0;
    assert(strings_view(done@) =~= Seq::<Seq<char>>::empty());
    while i < n
        invariant
            n == input@.len(),
            i <= n,
            tokens_from(input@, i as int, mode, cur@, strings_view(done@)) == tokens(input@),
        decreases n - i,
    {
        let c = input.get_char(i);
        match mode {
            QuoteMode::Unquoted => {
                if is_blank_char(c) {
                    if cur.unicode_len() > 0 {
                        let finished = cur;
                        cur = String::new();
                        proof {
                            assert(strings_view(done@.push(finished)) =~= strings_view(done@).push(finished@));
                        }
                        done.push(finished);
                    }
                    i = i + 1;
                } else if c == '\'' {
                    mode = QuoteMode::Single;
                    i = i + 1;
                } else if c == '"' {
                    mode = QuoteMode::Double;
                    i = i + 1;
                } else if c == '\\' && i + 1 < n {
                    push_char_at(&mut cur, input, i + 1);
                    i = i + 2;
                } else {
                    push_char_at(&mut cur, input, i);
                    i = i + 1;
                }
            },
            QuoteMode::Single => {
                if c == '\'' {
                    mode = QuoteMode::Unquoted;
                } else {
                    push_char_at(&mut cur, input, i);
                }
                i = i + 1;
            },
            QuoteMode::Double => {
                if c == '"' {
                    mode = QuoteMode::Unquoted;
                    i = i + 1;
                } else if c == '\\' && i + 1 < n && is_escapable_in_double(input.get_char(i + 1)) {
                    push_char_at(&mut cur, input, i + 1);
                    i = i + 2;
                } else {
                    push_char_at(&mut cur, input, i);
                    i = i + 1;
                }
            },
        }
    }
    if cur.unicode_len() > 0 {
        proof {
            assert(strings_view(done@.push(cur)) =~= strings_view(done@).push(cur@));
        }
        done.push(cur);
    }
    done
}

/// Executable test for `escapable_in_double`.
fn is_escapable_in_double(c: char) -> (r: bool)
    ensures
        r == escapable_in_double(c),
{
    c == '\\' || c == '$' || c == '"' || c == '\n'
}

} // verus!
