//! Tab completion of the command word: candidates, their longest common
//! prefix, and the press-counting state machine.
use vstd::prelude::*;

use crate::builtins::is_builtin_name;
use crate::order::{insert_sorted, lemma_sorted_unique, strictly_sorted};
use crate::text::{contains_blank, has_blank, push_space, starts_with, str_eq, strings_view};

verus! {

/// `p` is a prefix of every string of `ss`.
pub open spec fn is_common_prefix(p: Seq<char>, ss: Seq<Seq<char>>) -> bool {
    forall|i: int| 0 <= i < ss.len() ==> p.is_prefix_of(#[trigger] ss[i])
}

/// `p` is a common prefix of `ss` and no common prefix is longer.
pub open spec fn is_longest_common_prefix(p: Seq<char>, ss: Seq<Seq<char>>) -> bool {
    &&& is_common_prefix(p, ss)
    &&& forall|q: Seq<char>| #[trigger] is_common_prefix(q, ss) ==> q.len() <= p.len()
}

/// The longest common prefix of `ss`; empty when `ss` is.
pub open spec fn lcp(ss: Seq<Seq<char>>) -> Seq<char> {
    if ss.len() == 0 {
        Seq::empty()
    } else {
        choose|p: Seq<char>| is_longest_common_prefix(p, ss)
    }
}

/// A non-empty list has only one longest common prefix.
pub proof fn lemma_lcp_unique(p: Seq<char>, q: Seq<char>, ss: Seq<Seq<char>>)
    requires
        ss.len() > 0,
        is_longest_common_prefix(p, ss),
        is_longest_common_prefix(q, ss),
    ensures
        p == q,
{
    assert(p.is_prefix_of(ss[0]));
    assert(q.is_prefix_of(ss[0]));
    assert(p.len() == q.len());
    assert(p =~= q);
}

/// The longest string that is a prefix of every element of `strings`, or the
/// empty string when there are none.
pub fn longest_common_prefix(strings: &[String]) -> (r: String)
    ensures
        r@ == lcp(strings_view(strings@)),
        strings@.len() > 0 ==> is_longest_common_prefix(r@, strings_view(strings@)),
{
    let ghost ss = strings_view(strings@);
    if strings.len() == 0 {
        return String::new();
    }
    let s0 = strings[0].as_str();
    let n0 = s0.unicode_len();
    let mut k: usize = n0;
    let mut i: usize = 1;
    proof {
        assert(s0@.subrange(0, n0 as int) =~= s0@);
        assert forall|q: Seq<char>| #[trigger] is_common_prefix(q, ss.take(1)) implies q.len()
            <= n0 by {
            assert(q.is_prefix_of(ss.take(1)[0]));
        }
    }
    while i < strings.len()
        invariant
            ss == strings_view(strings@),
            s0@ == ss[0],
            n0 == s0@.len(),
            1 <= i <= ss.len(),
            k <= n0,
            is_common_prefix(s0@.subrange(0, k as int), ss.take(i as int)),
            forall|q: Seq<char>| #[trigger] is_common_prefix(q, ss.take(i as int)) ==> q.len() <= k,
        decreases ss.len() - i,
    {
        let s = strings[i].as_str();
        let m = s.unicode_len();
        let mut j: usize = 0;
        while j < k && j < m && s0.get_char(j) == s.get_char(j)
            invariant
                s@ == ss[i as int],
                m == s@.len(),
                n0 == s0@.len(),
                k <= n0,
                j <= k,
                j <= m,
                forall|t: int| 0 <= t < j ==> s0@[t] == s@[t],
            decreases k - j,
        {
            j = j + 1;
        }
        proof {
            let p = s0@.subrange(0, j as int);
            let old_p = s0@.subrange(0, k as int);
            assert forall|a: int| 0 <= a < i + 1 implies p.is_prefix_of(
                #[trigger] ss.take(i + 1)[a],
            ) by {
                if a < i {
                    assert(old_p.is_prefix_of(ss.take(i as int)[a]));
                    assert(p =~= ss[a].subrange(0, j as int));
                } else {
                    assert(p =~= s@.subrange(0, j as int));
                }
            }
            assert forall|q: Seq<char>| #[trigger] is_common_prefix(q, ss.take(i + 1)) implies q.len()
                <= j by {
                assert forall|a: int| 0 <= a < i implies q.is_prefix_of(
                    #[trigger] ss.take(i as int)[a],
                ) by {
                    assert(q.is_prefix_of(ss.take(i + 1)[a]));
                }
                assert(is_common_prefix(q, ss.take(i as int)));
                assert(q.is_prefix_of(ss.take(i + 1)[0]));
                assert(q.is_prefix_of(ss.take(i + 1)[i as int]));
                if q.len() > j {
                    assert(q[j as int] == s0@[j as int]);
                    assert(q[j as int] == s@[j as int]);
                }
            }
        }
        k = j;
        i = i + 1;
    }
    let mut r = String::new();
    r.append(s0.substring_char(0, k));
    proof {
        assert(ss.take(ss.len() as int) =~= ss);
        lemma_lcp_unique(r@, lcp(ss), ss);
    }
    r
}

/// `w` is a completion of `line`: a builtin name that extends it, or one of
/// the executables found on the search path that starts with it.
pub open spec fn is_candidate(line: Seq<char>, executables: Seq<Seq<char>>, w: Seq<char>) -> bool {
    &&& line.is_prefix_of(w)
    &&& ((is_builtin_name(w) && w != line) || executables.contains(w))
}

/// The completions of `line`, sorted without repeats.
pub open spec fn candidate_list(line: Seq<char>, executables: Seq<Seq<char>>) -> Seq<Seq<char>> {
    choose|q: Seq<Seq<char>>|
        strictly_sorted(q) && forall|w: Seq<char>| q.contains(w) <==> is_candidate(
            line,
            executables,
            w,
        )
}

fn consider_builtin(v: &mut Vec<String>, line: &str, name: &str)
    requires
        strictly_sorted(strings_view(old(v)@)),
    ensures
        strictly_sorted(strings_view(final(v)@)),
        forall|w: Seq<char>|
            #[trigger] strings_view(final(v)@).contains(w) <==> (strings_view(old(v)@).contains(w)
                || (w == name@ && line@.is_prefix_of(w) && w != line@)),
{
    if starts_with(name, line) && !str_eq(name, line) {
        let mut s = String::new();
        s.append(name);
        insert_sorted(v, s);
    }
}

/// The sorted completions of `line` among the builtins and `executables`.
pub fn candidate_names(line: &str, executables: &Vec<String>) -> (r: Vec<String>)
    ensures
        strings_view(r@) == candidate_list(line@, strings_view(executables@)),
        strictly_sorted(strings_view(r@)),
        forall|w: Seq<char>|
            strings_view(r@).contains(w) <==> is_candidate(line@, strings_view(executables@), w),
{
    let ghost ex = strings_view(executables@);
    let mut v: Vec<String> = Vec::new();
    assert(strings_view(v@) =~= Seq::<Seq<char>>::empty());
    let ghost v0 = strings_view(v@);
    consider_builtin(&mut v, line, "echo");
    let ghost v1 = strings_view(v@);
    consider_builtin(&mut v, line, "cd");
    let ghost v2 = strings_view(v@);
    consider_builtin(&mut v, line, "pwd");
    let ghost v3 = strings_view(v@);
    consider_builtin(&mut v, line, "type");
    let ghost v4 = strings_view(v@);
    consider_builtin(&mut v, line, "exit");
    let ghost from_builtins = strings_view(v@);
    assert forall|w: Seq<char>| from_builtins.contains(w) <==> (line@.is_prefix_of(w) && w != line@
        && is_builtin_name(w)) by {
        assert(!v0.contains(w));
        assert(v1.contains(w) <==> (w == "echo"@ && line@.is_prefix_of(w) && w != line@));
        assert(v2.contains(w) <==> (v1.contains(w) || (w == "cd"@ && line@.is_prefix_of(w) && w
            != line@)));
        assert(v3.contains(w) <==> (v2.contains(w) || (w == "pwd"@ && line@.is_prefix_of(w) && w
            != line@)));
        assert(v4.contains(w) <==> (v3.contains(w) || (w == "type"@ && line@.is_prefix_of(w) && w
            != line@)));
        assert(from_builtins.contains(w) <==> (v4.contains(w) || (w == "exit"@
            && line@.is_prefix_of(w) && w != line@)));
    }
    let mut i: usize = 0;
    assert(ex.take(0) =~= Seq::<Seq<char>>::empty());
    while i < executables.len()
        invariant
            ex == strings_view(executables@),
            i <= ex.len(),
            strictly_sorted(strings_view(v@)),
            forall|w: Seq<char>|
                #[trigger] strings_view(v@).contains(w) <==> (from_builtins.contains(w) || (
                line@.is_prefix_of(w) && ex.take(i as int).contains(w))),
        decreases ex.len() - i,
    {
        let ghost before = strings_view(v@);
        assert(ex[i as int] == executables@[i as int]@);
        let add = starts_with(executables[i].as_str(), line);
        if add {
            insert_sorted(&mut v, executables[i].clone());
        }
        proof {
            let t1 = ex.take(i + 1);
            let t0 = ex.take(i as int);
            assert forall|w: Seq<char>| t1.contains(w) <==> (t0.contains(w) || w == ex[i as int]) by {
                if t1.contains(w) {
                    let k = choose|k: int| 0 <= k < t1.len() && #[trigger] t1[k] == w;
                    if k < i {
                        assert(t0[k] == w);
                    }
                }
                if t0.contains(w) {
                    let k = choose|k: int| 0 <= k < t0.len() && #[trigger] t0[k] == w;
                    assert(t1[k] == w);
                }
                if w == ex[i as int] {
                    assert(t1[i as int] == w);
                }
            }
            assert forall|w: Seq<char>|
                strings_view(v@).contains(w) <==> (from_builtins.contains(w) || (
                line@.is_prefix_of(w) && t1.contains(w))) by {
                assert(before.contains(w) <==> (from_builtins.contains(w) || (line@.is_prefix_of(w)
                    && t0.contains(w))));
                assert(add == line@.is_prefix_of(ex[i as int]));
                if add {
                    assert(strings_view(v@).contains(w) <==> (before.contains(w) || w
                        == ex[i as int]));
                } else {
                    assert(strings_view(v@).contains(w) <==> before.contains(w));
                }
            }
        }
        i = i + 1;
    }
    proof {
        let rv = strings_view(v@);
        assert(ex.take(ex.len() as int) =~= ex);
        assert forall|w: Seq<char>| rv.contains(w) <==> is_candidate(line@, ex, w) by {
            assert(rv.contains(w) <==> (from_builtins.contains(w) || (line@.is_prefix_of(w)
                && ex.contains(w))));
        }
        lemma_sorted_unique(rv, candidate_list(line@, ex));
    }
    v
}

/// What the completion engine remembers between requests: the line it last
/// saw and how many times in a row completion was asked for on it.
#[derive(Debug)]
pub struct CompletionState {
    pub last_line: Option<String>,
    pub press_count: usize,
}

/// The remembered line as characters, and the press count.
pub type StateModel = (Option<Seq<char>>, usize);

impl View for CompletionState {
    type V = StateModel;

    open spec fn view(&self) -> StateModel {
        (
            match self.last_line {
                Some(l) => Some(l@),
                None => None,
            },
            self.press_count,
        )
    }
}

impl CompletionState {
    /// A state that remembers no line.
    pub fn new() -> (r: CompletionState)
        ensures
            r@ == (None::<Seq<char>>, 0usize),
    {
        CompletionState { last_line: None, press_count: 0 }
    }
}

/// One proposed completion: its text, and whether it completes the word
/// (then it ends with a space) or only extends it.
#[derive(Clone, Debug, PartialEq, Eq)]
pub struct CompletionCandidate {
    pub text: String,
    pub complete: bool,
}

pub open spec fn candidates_view(v: Seq<CompletionCandidate>) -> Seq<(Seq<char>, bool)> {
    v.map_values(|c: CompletionCandidate| (c.text@, c.complete))
}

/// The press count after one more request on `line`: it starts again from
/// one when the line differs from the remembered one, and stops at the
/// largest `usize`.
pub open spec fn presses(st: StateModel, line: Seq<char>) -> usize {
    let base = if st.0 == Some(line) {
        st.1
    } else {
        0usize
    };
    if base < usize::MAX {
        (base + 1) as usize
    } else {
        base
    }
}

/// One completion request on `line`: the next state and the candidates.
///
/// A line with a blank is left alone. Otherwise: no candidate gives nothing;
/// a single one completes the word with a trailing space; several with a
/// common prefix longer than the line extend it to that prefix; else the
/// first press gives nothing and a later one lists all candidates and starts
/// the count again.
pub open spec fn completion_step(st: StateModel, line: Seq<char>, executables: Seq<Seq<char>>) -> (
    StateModel,
    Seq<(Seq<char>, bool)>,
) {
    if has_blank(line) {
        (st, Seq::empty())
    } else {
        let count = presses(st, line);
        let cands = candidate_list(line, executables);
        let next = (Some(line), count);
        if cands.len() == 0 {
            (next, Seq::empty())
        } else if cands.len() == 1 {
            (next, seq![(cands[0].push(' '), true)])
        } else if lcp(cands).len() > line.len() {
            (next, seq![(lcp(cands), false)])
        } else if count == 1 {
            (next, Seq::empty())
        } else {
            ((Some(line), 0usize), cands.map_values(|c: Seq<char>| (c, false)))
        }
    }
}

/// Answers a completion request on `line`, given the names of the
/// executables found on the search path, as `completion_step` describes.
pub fn complete(state: &mut CompletionState, line: &str, executables: &Vec<String>) -> (r: Vec<
    CompletionCandidate,
>)
    ensures
        (final(state)@, candidates_view(r@)) == completion_step(
            old(state)@,
            line@,
            strings_view(executables@),
        ),
{
    let ghost ex = strings_view(executables@);
    if contains_blank(line) {
        let r: Vec<CompletionCandidate> = Vec::new();
        assert(candidates_view(r@) =~= Seq::<(Seq<char>, bool)>::empty());
        return r;
    }
    let same = match &state.last_line {
        Some(l) => str_eq(l.as_str(), line),
        None => false,
    };
    if !same {
        let mut l = String::new();
        l.append(line);
        state.last_line = Some(l);
        state.press_count = 0;
    }
    if state.press_count < usize::MAX {
        state.press_count = state.press_count + 1;
    }
    let count = state.press_count;
    let cands = candidate_names(line, executables);
    let ghost cv = strings_view(cands@);
    let mut r: Vec<CompletionCandidate> = Vec::new();
    if cands.len() == 0 {
        assert(candidates_view(r@) =~= Seq::<(Seq<char>, bool)>::empty());
        return r;
    }
    if cands.len() == 1 {
        let mut t = cands[0].clone();
        push_space(&mut t);
        r.push(CompletionCandidate { text: t, complete: true });
        assert(candidates_view(r@) =~= seq![(cv[0].push(' '), true)]);
        return r;
    }
    let prefix = longest_common_prefix(cands.as_slice());
    if prefix.unicode_len() > line.unicode_len() {
        r.push(CompletionCandidate { text: prefix, complete: false });
        assert(candidates_view(r@) =~= seq![(lcp(cv), false)]);
        return r;
    }
    if count == 1 {
        assert(candidates_view(r@) =~= Seq::<(Seq<char>, bool)>::empty());
        return r;
    }
    let mut i: usize = 0;
    while i < cands.len()
        invariant
            cv == strings_view(cands@),
            i <= cv.len(),
            candidates_view(r@) == cv.take(i as int).map_values(|c: Seq<char>| (c, false)),
        decreases cv.len() - i,
    {
        let ghost before = r@;
        let c = CompletionCandidate { text: cands[i].clone(), complete: false };
        assert(c.text@ == cv[i as int]);
        r.push(c);
        assert(r@ == before.push(c));
        proof {
            let lhs = candidates_view(r@);
            let rhs = cv.take(i + 1).map_values(|c: Seq<char>| (c, false));
            assert(cv.len() == cands@.len());
            assert(candidates_view(before).len() == before.len());
            assert(cv.take(i as int).map_values(|c: Seq<char>| (c, false)).len() == i);
            assert(before.len() == i);
            assert(lhs.len() == rhs.len());
            assert forall|k: int| 0 <= k < lhs.len() implies lhs[k] == rhs[k] by {
                if k < i {
                    assert(candidates_view(before)[k] == cv.take(i as int).map_values(
                        |c: Seq<char>| (c, false),
                    )[k]);
                }
            }
            assert(lhs =~= rhs);
        }
        i = i + 1;
    }
    assert(cv.take(cv.len() as int) =~= cv);
    state.press_count = 0;
    r
}

/// On a line whose candidates are several and share no prefix longer than
/// the line, a first request shows nothing, and a second request in a row
/// on the same line lists every candidate and starts the count again.
pub proof fn lemma_second_press_lists(st: StateModel, line: Seq<char>, executables: Seq<Seq<char>>)
    requires
        !has_blank(line),
        st.0 != Some(line) || st.1 == 0,
        candidate_list(line, executables).len() >= 2,
        lcp(candidate_list(line, executables)).len() <= line.len(),
    ensures
        completion_step(st, line, executables).1.len() == 0,
        completion_step(completion_step(st, line, executables).0, line, executables) == (
            (Some(line), 0usize),
            candidate_list(line, executables).map_values(|c: Seq<char>| (c, false)),
        ),
{
}

} // verus!
