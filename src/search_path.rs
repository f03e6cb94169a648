//! Lookup of a command name along a colon-separated search path.
use vstd::prelude::*;

use crate::text::{push_char_at, strings_view};

verus! {

/// The colon-separated fields of `s` from position `i` on; every field is
/// kept, empty ones included.
pub open spec fn fields_from(s: Seq<char>, i: int, cur: Seq<char>, done: Seq<Seq<char>>) -> Seq<
    Seq<char>,
>
    decreases s.len() - i,
{
    if i < 0 || i >= s.len() {
        done.push(cur)
    } else if s[i] == ':' {
        fields_from(s, i + 1, Seq::empty(), done.push(cur))
    } else {
        fields_from(s, i + 1, cur.push(s[i]), done)
    }
}

/// The directories of a search path, in order.
pub open spec fn search_dirs(path_var: Seq<char>) -> Seq<Seq<char>> {
    fields_from(path_var, 0, Seq::empty(), Seq::empty())
}

/// The path of `name` inside `dir`.
pub open spec fn path_in(dir: Seq<char>, name: Seq<char>) -> Seq<char> {
    dir + seq!['/'] + name
}

/// The paths to test for `name`, in search order; none without a search path.
pub open spec fn candidate_paths(path_var: Option<Seq<char>>, name: Seq<char>) -> Seq<Seq<char>> {
    match path_var {
        Some(p) => search_dirs(p).map_values(|d: Seq<char>| path_in(d, name)),
        None => Seq::empty(),
    }
}

/// The first path of `cands` whose flag in `present` is set.
pub open spec fn first_present_path(cands: Seq<Seq<char>>, present: Seq<bool>) -> Option<Seq<char>>
    decreases cands.len(),
{
    if cands.len() == 0 || present.len() == 0 {
        None
    } else if present[0] {
        Some(cands[0])
    } else {
        first_present_path(cands.drop_first(), present.drop_first())
    }
}

/// The result of looking `name` up, given which candidate paths exist.
pub open spec fn lookup(path_var: Option<Seq<char>>, name: Seq<char>, present: Seq<bool>) -> Option<
    Seq<char>,
> {
    first_present_path(candidate_paths(path_var, name), present)
}

fn path_of(dir: &str, name: &str) -> (r: String)
    ensures
        r@ == path_in(dir@, name@),
{
    let mut r = String::new();
    r.append(dir);
    r.append("/");
    r.append(name);
    proof {
        reveal_strlit("/");
    }
    assert(r@ =~= path_in(dir@, name@));
    r
}

/// The directories of `path_var`, split at each colon.
pub fn split_search_path(path_var: &str) -> (r: Vec<String>)
    ensures
        strings_view(r@) == search_dirs(path_var@),
{
    let n = path_var.unicode_len();
    let mut done: Vec<String> = Vec::new();
    let mut cur = String::new();
    let mut i: usize = 0;
    assert(strings_view(done@) =~= Seq::<Seq<char>>::empty());
    while i < n
        invariant
            n == path_var@.len(),
            i <= n,
            fields_from(path_var@, i as int, cur@, strings_view(done@)) == search_dirs(path_var@),
        decreases n - i,
    {
        if path_var.get_char(i) == ':' {
            let finished = cur;
            cur = String::new();
            assert(strings_view(done@.push(finished)) =~= strings_view(done@).push(finished@));
            done.push(finished);
        } else {
            push_char_at(&mut cur, path_var, i);
        }
        i = i + 1;
    }
    assert(strings_view(done@.push(cur)) =~= strings_view(done@).push(cur@));
    done.push(cur);
    done
}

/// The paths at which `name` is looked for, in search order: one per
/// directory of `path_var`, and none when there is no search path.
pub fn search_candidates(path_var: Option<&str>, name: &str) -> (r: Vec<String>)
    ensures
        strings_view(r@) == candidate_paths(
            match path_var {
                Some(p) => Some(p@),
                None => None,
            },
            name@,
        ),
{
    let mut r: Vec<String> = Vec::new();
    match path_var {
        None => {
            assert(strings_view(r@) =~= Seq::<Seq<char>>::empty());
            r
        },
        Some(p) => {
            let dirs = split_search_path(p);
            let ghost dv = strings_view(dirs@);
            let mut i: usize = 0;
            while i < dirs.len()
                invariant
                    dv == strings_view(dirs@),
                    i <= dv.len(),
                    strings_view(r@) == dv.take(i as int).map_values(
                        |d: Seq<char>| path_in(d, name@),
                    ),
                decreases dv.len() - i,
            {
                let c = path_of(dirs[i].as_str(), name);
                let ghost before = strings_view(r@);
                r.push(c);
                proof {
                    let lhs = strings_view(r@);
                    let rhs = dv.take(i + 1).map_values(|d: Seq<char>| path_in(d, name@));
                    assert(before.len() == i);
                    assert(lhs.len() == rhs.len());
                    assert forall|k: int| 0 <= k < lhs.len() implies lhs[k] == rhs[k] by {
                        if k < i {
                            assert(before[k] == dv.take(i as int).map_values(
                                |d: Seq<char>| path_in(d, name@),
                            )[k]);
                        }
                    }
                    assert(lhs =~= rhs);
                }
                i = i + 1;
            }
            assert(dv.take(dv.len() as int) =~= dv);
            r
        },
    }
}

/// The first of `candidates` whose flag in `present` is set, where
/// `present[k]` tells whether `candidates[k]` names an executable file.
pub fn first_present(candidates: &Vec<String>, present: &Vec<bool>) -> (r: Option<String>)
    requires
        candidates@.len() == present@.len(),
    ensures
        match r {
            Some(s) => Some(s@),
            None => None,
        } == first_present_path(strings_view(candidates@), present@),
{
    let ghost cv = strings_view(candidates@);
    let mut i: usize = 0;
    assert(cv.skip(0) =~= cv);
    assert(present@.skip(0) =~= present@);
    while i < candidates.len()
        invariant
            cv == strings_view(candidates@),
            candidates@.len() == present@.len(),
            i <= cv.len(),
            first_present_path(cv.skip(i as int), present@.skip(i as int)) == first_present_path(
                cv,
                present@,
            ),
        decreases cv.len() - i,
    {
        assert(cv.skip(i as int).drop_first() =~= cv.skip(i + 1));
        assert(present@.skip(i as int).drop_first() =~= present@.skip(i + 1));
        if present[i] {
            return Some(candidates[i].clone());
        }
        i = i + 1;
    }
    None
}

/// Lookup follows the search path's order: without a search path nothing is
/// found, and when several directories hold the name the first of them wins.
pub proof fn lemma_lookup_first_match(
    path_var: Option<Seq<char>>,
    name: Seq<char>,
    present: Seq<bool>,
    i: int,
)
    requires
        present.len() == candidate_paths(path_var, name).len(),
        0 <= i < present.len(),
        present[i],
        forall|k: int| 0 <= k < i ==> !present[k],
    ensures
        lookup(None, name, present) is None,
        path_var is Some ==> lookup(path_var, name, present) == Some(
            path_in(search_dirs(path_var->0)[i], name),
        ),
{
    lemma_first_present_at(candidate_paths(path_var, name), present, i);
}

proof fn lemma_first_present_at(cands: Seq<Seq<char>>, present: Seq<bool>, i: int)
    requires
        present.len() == cands.len(),
        0 <= i < present.len(),
        present[i],
        forall|k: int| 0 <= k < i ==> !present[k],
    ensures
        first_present_path(cands, present) == Some(cands[i]),
    decreases i,
{
    if i > 0 {
        lemma_first_present_at(cands.drop_first(), present.drop_first(), i - 1);
    }
}

} // verus!
