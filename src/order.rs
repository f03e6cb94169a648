//! Lexicographic order on strings, and lists kept sorted without repeats.
use vstd::prelude::*;

use crate::text::{str_eq, strings_view};

verus! {

/// `a` comes strictly before `b` in code-point lexicographic order, the order
/// in which Rust compares strings.
pub open spec fn seq_lt(a: Seq<char>, b: Seq<char>) -> bool
    decreases a.len(),
{
    if a.len() == 0 {
        b.len() > 0
    } else if b.len() == 0 {
        false
    } else if a[0] == b[0] {
        seq_lt(a.drop_first(), b.drop_first())
    } else {
        (a[0] as int) < (b[0] as int)
    }
}

/// Every element comes strictly before each later one.
pub open spec fn strictly_sorted(q: Seq<Seq<char>>) -> bool {
    forall|i: int, j: int| 0 <= i < j < q.len() ==> seq_lt(#[trigger] q[i], #[trigger] q[j])
}

pub proof fn lemma_lt_irreflexive(a: Seq<char>)
    ensures
        !seq_lt(a, a),
    decreases a.len(),
{
    if a.len() > 0 {
        lemma_lt_irreflexive(a.drop_first());
    }
}

pub proof fn lemma_lt_transitive(a: Seq<char>, b: Seq<char>, c: Seq<char>)
    requires
        seq_lt(a, b),
        seq_lt(b, c),
    ensures
        seq_lt(a, c),
    decreases a.len(),
{
    if a.len() > 0 && b.len() > 0 && c.len() > 0 {
        if a[0] == b[0] && b[0] == c[0] {
            lemma_lt_transitive(a.drop_first(), b.drop_first(), c.drop_first());
        }
    }
}

pub proof fn lemma_lt_total(a: Seq<char>, b: Seq<char>)
    requires
        a != b,
    ensures
        seq_lt(a, b) || seq_lt(b, a),
    decreases a.len(),
{
    if a.len() == 0 {
        assert(b.len() > 0) by {
            if b.len() == 0 {
                assert(a =~= b);
            }
        }
    } else if b.len() > 0 && a[0] == b[0] {
        if a.drop_first() == b.drop_first() {
            assert(a =~= seq![a[0]] + a.drop_first());
            assert(b =~= seq![b[0]] + b.drop_first());
        }
        lemma_lt_total(a.drop_first(), b.drop_first());
    }
}

pub proof fn lemma_lt_asymmetric(a: Seq<char>, b: Seq<char>)
    requires
        seq_lt(a, b),
    ensures
        !seq_lt(b, a),
{
    if seq_lt(b, a) {
        lemma_lt_transitive(a, b, a);
        lemma_lt_irreflexive(a);
    }
}

/// Two sorted lists without repeats that hold the same elements are equal.
pub proof fn lemma_sorted_unique(p: Seq<Seq<char>>, q: Seq<Seq<char>>)
    requires
        strictly_sorted(p),
        strictly_sorted(q),
        forall|w: Seq<char>| p.contains(w) <==> q.contains(w),
    ensures
        p == q,
    decreases p.len(),
{
    if p.len() == 0 {
        if q.len() > 0 {
            assert(q.contains(q[0]));
        }
        assert(p =~= q);
    } else {
        assert(p.contains(p[0]));
        assert(q.len() > 0);
        assert(q.contains(q[0]));
        let i = choose|i: int| 0 <= i < p.len() && p[i] == q[0];
        let j = choose|j: int| 0 <= j < q.len() && q[j] == p[0];
        if j > 0 {
            assert(seq_lt(q[0], q[j]));
            if i > 0 {
                assert(seq_lt(p[0], p[i]));
                lemma_lt_asymmetric(p[0], p[i]);
            } else {
                lemma_lt_irreflexive(p[0]);
            }
        }
        let p1 = p.drop_first();
        let q1 = q.drop_first();
        assert forall|w: Seq<char>| p1.contains(w) <==> q1.contains(w) by {
            if p1.contains(w) {
                let k = choose|k: int| 0 <= k < p1.len() && p1[k] == w;
                assert(p[k + 1] == w);
                assert(seq_lt(p[0], p[k + 1]));
                lemma_lt_irreflexive(w);
                assert(q.contains(w));
                let m = choose|m: int| 0 <= m < q.len() && q[m] == w;
                assert(m != 0);
                assert(q1[m - 1] == w);
            }
            if q1.contains(w) {
                let k = choose|k: int| 0 <= k < q1.len() && q1[k] == w;
                assert(q[k + 1] == w);
                assert(seq_lt(q[0], q[k + 1]));
                lemma_lt_irreflexive(w);
                assert(p.contains(w));
                let m = choose|m: int| 0 <= m < p.len() && p[m] == w;
                assert(m != 0);
                assert(p1[m - 1] == w);
            }
        }
        assert forall|a: int, b: int| 0 <= a < b < p1.len() implies seq_lt(p1[a], p1[b]) by {
            assert(seq_lt(p[a + 1], p[b + 1]));
        }
        assert forall|a: int, b: int| 0 <= a < b < q1.len() implies seq_lt(q1[a], q1[b]) by {
            assert(seq_lt(q[a + 1], q[b + 1]));
        }
        lemma_sorted_unique(p1, q1);
        assert(p =~= seq![p[0]] + p1);
        assert(q =~= seq![q[0]] + q1);
    }
}

/// Whether `a` comes strictly before `b`.
pub fn str_lt(a: &str, b: &str) -> (r: bool)
    ensures
        r == seq_lt(a@, b@),
{
    let na = a.unicode_len();
    let nb = b.unicode_len();
    let mut j: usize = 0;
    assert(a@.subrange(0, na as int) =~= a@);
    assert(b@.subrange(0, nb as int) =~= b@);
    while j < na && j < nb
        invariant
            na == a@.len(),
            nb == b@.len(),
            j <= na,
            j <= nb,
            seq_lt(a@.subrange(j as int, na as int), b@.subrange(j as int, nb as int)) == seq_lt(
                a@,
                b@,
            ),
        decreases na - j,
    {
        let ca = a.get_char(j);
        let cb = b.get_char(j);
        let ghost sa = a@.subrange(j as int, na as int);
        let ghost sb = b@.subrange(j as int, nb as int);
        if ca != cb {
            return (ca as u32) < (cb as u32);
        }
        assert(sa.drop_first() =~= a@.subrange(j + 1, na as int));
        assert(sb.drop_first() =~= b@.subrange(j + 1, nb as int));
        j = j + 1;
    }
    j < nb
}

/// Inserts `s` into a sorted list without repeats, keeping it so.
pub fn insert_sorted(v: &mut Vec<String>, s: String)
    requires
        strictly_sorted(strings_view(old(v)@)),
    ensures
        strictly_sorted(strings_view(final(v)@)),
        forall|w: Seq<char>|
            #[trigger] strings_view(final(v)@).contains(w) <==> (strings_view(old(v)@).contains(w) || w
                == s@),
{
    let ghost q = strings_view(v@);
    let mut j: usize = 0;
    while j < v.len() && str_lt(v[j].as_str(), s.as_str())
        invariant
            j <= v@.len(),
            q == strings_view(v@),
            forall|k: int| 0 <= k < j ==> seq_lt(#[trigger] q[k], s@),
        decreases v@.len() - j,
    {
        j = j + 1;
    }
    if j < v.len() && str_eq(v[j].as_str(), s.as_str()) {
        assert(q[j as int] == s@);
        return;
    }
    proof {
        if j < q.len() {
            lemma_lt_total(q[j as int], s@);
        }
    }
    let ghost s_view = s@;
    v.insert(j, s);
    let ghost r = strings_view(v@);
    assert(r =~= q.insert(j as int, s_view));
    assert forall|a: int, b: int| 0 <= a < b < r.len() implies seq_lt(r[a], r[b]) by {
        if b < j {
        } else if a < j && b == j {
        } else if a < j {
            assert(seq_lt(q[a], s_view));
            assert(seq_lt(s_view, q[b - 1])) by {
                if b - 1 > j {
                    assert(seq_lt(q[j as int], q[b - 1]));
                    lemma_lt_transitive(s_view, q[j as int], q[b - 1]);
                }
            }
            lemma_lt_transitive(q[a], s_view, q[b - 1]);
        } else if a == j {
            if b - 1 > j {
                assert(seq_lt(q[j as int], q[b - 1]));
                lemma_lt_transitive(s_view, q[j as int], q[b - 1]);
            }
        } else {
            assert(seq_lt(q[a - 1], q[b - 1]));
        }
    }
    assert forall|w: Seq<char>| r.contains(w) <==> (q.contains(w) || w == s_view) by {
        if q.contains(w) {
            let k = choose|k: int| 0 <= k < q.len() && q[k] == w;
            if k < j {
                assert(r[k] == w);
            } else {
                assert(r[k + 1] == w);
            }
        }
        if w == s_view {
            assert(r[j as int] == w);
        }
        if r.contains(w) {
            let k = choose|k: int| 0 <= k < r.len() && r[k] == w;
            if k < j {
                assert(q[k] == w);
            } else if k > j {
                assert(q[k - 1] == w);
            }
        }
    }
}

} // verus!
