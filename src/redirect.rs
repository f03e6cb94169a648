//! Separates output-redirection operators from the rest of a command line.
use vstd::prelude::*;

use crate::text::{
    all_blank, is_all_blank, is_blank, is_blank_char, join_with_space, join_words, push_char_at,
    push_space, str_eq, strings_view,
};

verus! {

/// Where one output stream goes: a file, opened for appending or truncated.
#[derive(Clone, Debug, PartialEq, Eq)]
pub struct RedirectionTarget {
    pub path: String,
    pub append: bool,
}

/// The redirections of one command: at most one target per stream.
#[derive(Clone, Debug, PartialEq, Eq)]
pub struct RedirectionSpec {
    pub stdout: Option<RedirectionTarget>,
    pub stderr: Option<RedirectionTarget>,
}

/// A target as its path's characters and its append flag.
pub type TargetModel = Option<(Seq<char>, bool)>;

pub open spec fn target_model(t: Option<RedirectionTarget>) -> TargetModel {
    match t {
        Some(t) => Some((t.path@, t.append)),
        None => None,
    }
}

impl View for RedirectionSpec {
    type V = (TargetModel, TargetModel);

    open spec fn view(&self) -> (TargetModel, TargetModel) {
        (target_model(self.stdout), target_model(self.stderr))
    }
}

impl RedirectionSpec {
    /// A specification that redirects nothing.
    pub fn none() -> (r: RedirectionSpec)
        ensures
            r@ == (None::<(Seq<char>, bool)>, None::<(Seq<char>, bool)>),
    {
        RedirectionSpec { stdout: None, stderr: None }
    }

    /// Whether either stream is redirected.
    pub fn is_active(&self) -> (r: bool)
        ensures
            r == (self.stdout is Some || self.stderr is Some),
    {
        self.stdout.is_some() || self.stderr.is_some()
    }
}

/// The blank-separated words of `s` from position `i` on.
pub open spec fn words_from(s: Seq<char>, i: int, cur: Seq<char>, done: Seq<Seq<char>>) -> Seq<
    Seq<char>,
>
    decreases s.len() - i,
{
    if i < 0 || i >= s.len() {
        if cur.len() > 0 {
            done.push(cur)
        } else {
            done
        }
    } else if is_blank(s[i]) {
        if cur.len() > 0 {
            words_from(s, i + 1, Seq::empty(), done.push(cur))
        } else {
            words_from(s, i + 1, cur, done)
        }
    } else {
        words_from(s, i + 1, cur.push(s[i]), done)
    }
}

/// The maximal runs of non-blank characters of `s`, in order.
pub open spec fn words(s: Seq<char>) -> Seq<Seq<char>> {
    words_from(s, 0, Seq::empty(), Seq::empty())
}

/// Splits `input` into its blank-separated words.
pub fn split_words(input: &str) -> (r: Vec<String>)
    ensures
        strings_view(r@) == words(input@),
{
    let n = input.unicode_len();
    let mut done: Vec<String> = Vec::new();
    let mut cur = String::new();
    let mut i: usize = 0;
    assert(strings_view(done@) =~= Seq::<Seq<char>>::empty());
    while i < n
        invariant
            n == input@.len(),
            i <= n,
            words_from(input@, i as int, cur@, strings_view(done@)) == words(input@),
        decreases n - i,
    {
        if is_blank_char(input.get_char(i)) {
            if cur.unicode_len() > 0 {
                let finished = cur;
                cur = String::new();
                assert(strings_view(done@.push(finished)) =~= strings_view(done@).push(finished@));
                done.push(finished);
            }
        } else {
            push_char_at(&mut cur, input, i);
        }
        i = i + 1;
    }
    if cur.unicode_len() > 0 {
        assert(strings_view(done@.push(cur)) =~= strings_view(done@).push(cur@));
        done.push(cur);
    }
    done
}

/// The operator that a word spells, if any: whether it redirects standard
/// error (rather than standard output), and whether it appends.
pub open spec fn operator(w: Seq<char>) -> Option<(bool, bool)> {
    if w == "2>>"@ {
        Some((true, true))
    } else if w == "2>"@ {
        Some((true, false))
    } else if w == "1>>"@ || w == ">>"@ {
        Some((false, true))
    } else if w == "1>"@ || w == ">"@ {
        Some((false, false))
    } else {
        None
    }
}

fn operator_of(w: &str) -> (r: Option<(bool, bool)>)
    ensures
        r == operator(w@),
{
    if str_eq(w, "2>>") {
        Some((true, true))
    } else if str_eq(w, "2>") {
        Some((true, false))
    } else if str_eq(w, "1>>") || str_eq(w, ">>") {
        Some((false, true))
    } else if str_eq(w, "1>") || str_eq(w, ">") {
        Some((false, false))
    } else {
        None
    }
}

/// Scans the words from position `i` on: the command words kept, and the
/// stdout and stderr targets. An operator takes the word after it as its
/// path, a later operator for a stream replaces an earlier one, and an
/// operator with no word after it ends the scan.
pub open spec fn split_from(
    ws: Seq<Seq<char>>,
    i: int,
    cmd: Seq<Seq<char>>,
    out: TargetModel,
    err: TargetModel,
) -> (Seq<Seq<char>>, TargetModel, TargetModel)
    decreases ws.len() - i,
{
    if i < 0 || i >= ws.len() {
        (cmd, out, err)
    } else {
        match operator(ws[i]) {
            None => split_from(ws, i + 1, cmd.push(ws[i]), out, err),
            Some((to_err, append)) => {
                if i + 1 < ws.len() {
                    if to_err {
                        split_from(ws, i + 2, cmd, out, Some((ws[i + 1], append)))
                    } else {
                        split_from(ws, i + 2, cmd, Some((ws[i + 1], append)), err)
                    }
                } else {
                    (cmd, out, err)
                }
            },
        }
    }
}

/// The residual command and redirections of a line.
pub open spec fn split_line(s: Seq<char>) -> (Seq<char>, (TargetModel, TargetModel)) {
    let (cmd, out, err) = split_from(words(s), 0, Seq::empty(), None, None);
    (join_words(cmd), (out, err))
}

/// Splits a line into the command words, joined with single spaces, and its
/// redirections, as `split_line` describes.
pub fn parse_command_and_redirections(input: &str) -> (r: (String, RedirectionSpec))
    ensures
        (r.0@, r.1@) == split_line(input@),
{
    let ws = split_words(input);
    let mut redir = RedirectionSpec::none();
    let mut cmd: Vec<String> = Vec::new();
    let mut i: usize = 0;
    assert(strings_view(cmd@) =~= Seq::<Seq<char>>::empty());
    while i < ws.len()
        invariant
            i <= ws@.len(),
            split_from(strings_view(ws@), i as int, strings_view(cmd@), redir@.0, redir@.1)
                == split_from(strings_view(ws@), 0, Seq::empty(), None, None),
        decreases ws@.len() - i,
    {
        let ghost wv = strings_view(ws@);
        match operator_of(ws[i].as_str()) {
            None => {
                let w = ws[i].clone();
                assert(strings_view(cmd@.push(w)) =~= strings_view(cmd@).push(wv[i as int]));
                cmd.push(w);
                i = i + 1;
            },
            Some((to_err, append)) => {
                if i + 1 < ws.len() {
                    let target = RedirectionTarget { path: ws[i + 1].clone(), append };
                    if to_err {
                        redir.stderr = Some(target);
                    } else {
                        redir.stdout = Some(target);
                    }
                    i = i + 2;
                } else {
                    i = ws.len();
                }
            },
        }
    }
    assert(split_from(strings_view(ws@), i as int, strings_view(cmd@), redir@.0, redir@.1) == (
    strings_view(cmd@), redir@.0, redir@.1));
    let residual = join_with_space(&cmd);
    (residual, redir)
}

/// `s` with each no-break space turned into a plain space.
pub open spec fn normalize_spaces(s: Seq<char>) -> Seq<char> {
    s.map_values(|c: char| if c == '\u{A0}' { ' ' } else { c })
}

fn normalized(line: &str) -> (r: String)
    ensures
        r@ == normalize_spaces(line@),
{
    let n = line.unicode_len();
    let mut r = String::new();
    let mut i: usize = 0;
    while i < n
        invariant
            n == line@.len(),
            i <= n,
            r@ == normalize_spaces(line@.take(i as int)),
        decreases n - i,
    {
        if line.get_char(i) == '\u{A0}' {
            push_space(&mut r);
        } else {
            push_char_at(&mut r, line, i);
        }
        assert(r@ =~= normalize_spaces(line@.take(i + 1)));
        i = i + 1;
    }
    assert(line@.take(n as int) =~= line@);
    r
}

/// What a line of input runs: nothing for a blank line; else the line, its
/// no-break spaces made plain, split into command and redirections when it
/// holds a `>`, and taken whole otherwise.
pub open spec fn input_plan(s: Seq<char>) -> Option<(Seq<char>, (TargetModel, TargetModel))> {
    let t = normalize_spaces(s);
    if all_blank(t) {
        None
    } else if t.contains('>') {
        Some(split_line(t))
    } else {
        Some((t, (None, None)))
    }
}

fn contains_gt(s: &str) -> (r: bool)
    ensures
        r == s@.contains('>'),
{
    let n = s.unicode_len();
    let mut i: usize = 0;
    while i < n
        invariant
            n == s@.len(),
            i <= n,
            forall|k: int| 0 <= k < i ==> s@[k] != '>',
        decreases n - i,
    {
        if s.get_char(i) == '>' {
            return true;
        }
        i = i + 1;
    }
    false
}

/// Prepares a line of input for dispatch as `input_plan` describes.
pub fn parse_input_line(line: &str) -> (r: Option<(String, RedirectionSpec)>)
    ensures
        match r {
            Some((c, spec)) => Some((c@, spec@)),
            None => None,
        } == input_plan(line@),
{
    let t = normalized(line);
    if is_all_blank(t.as_str()) {
        None
    } else if contains_gt(t.as_str()) {
        Some(parse_command_and_redirections(t.as_str()))
    } else {
        Some((t, RedirectionSpec::none()))
    }
}

} // verus!
