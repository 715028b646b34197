//! Strings in lexicographic order: the order of their characters, which for
//! UTF-8 text is also the order of their bytes, and the sorted list without
//! repeats that a set of strings determines.
use crate::strs::{str_views};
use crate::text::{chars_of, str_eq};
use vstd::prelude::*;

verus! {

/// `a` sorts before `b`.
pub open spec fn lex_lt(a: Seq<char>, b: Seq<char>) -> bool
    decreases a.len(),
{
    if a.len() == 0 {
        b.len() > 0
    } else if b.len() == 0 {
        false
    } else if a[0] != b[0] {
        a[0] < b[0]
    } else {
        lex_lt(a.drop_first(), b.drop_first())
    }
}

/// Every element sorts before every later one (so none repeats).
pub open spec fn strictly_sorted(s: Seq<Seq<char>>) -> bool {
    forall|i: int, j: int| 0 <= i < j < s.len() ==> lex_lt(#[trigger] s[i], #[trigger] s[j])
}

pub proof fn lemma_lex_irreflexive(a: Seq<char>)
    ensures
        !lex_lt(a, a),
    decreases a.len(),
{
    if a.len() > 0 {
        lemma_lex_irreflexive(a.drop_first());
    }
}

pub proof fn lemma_lex_transitive(a: Seq<char>, b: Seq<char>, c: Seq<char>)
    requires
        lex_lt(a, b),
        lex_lt(b, c),
    ensures
        lex_lt(a, c),
    decreases a.len(),
{
    if a.len() > 0 && b.len() > 0 && c.len() > 0 && a[0] == b[0] && b[0] == c[0] {
        lemma_lex_transitive(a.drop_first(), b.drop_first(), c.drop_first());
    }
}

pub proof fn lemma_lex_total(a: Seq<char>, b: Seq<char>)
    ensures
        a == b || lex_lt(a, b) || lex_lt(b, a),
    decreases a.len(),
{
    if a.len() > 0 && b.len() > 0 && a[0] == b[0] {
        lemma_lex_total(a.drop_first(), b.drop_first());
        if a.drop_first() == b.drop_first() {
            assert(a =~= seq![a[0]] + a.drop_first());
            assert(b =~= seq![b[0]] + b.drop_first());
        }
    } else if a.len() == 0 && b.len() == 0 {
        assert(a =~= b);
    }
}

pub proof fn lemma_lex_asymmetric(a: Seq<char>, b: Seq<char>)
    requires
        lex_lt(a, b),
    ensures
        !lex_lt(b, a),
{
    if lex_lt(b, a) {
        lemma_lex_transitive(a, b, a);
        lemma_lex_irreflexive(a);
    }
}

/// Two sorted lists without repeats that hold the same strings are equal.
pub proof fn lemma_sorted_unique(a: Seq<Seq<char>>, b: Seq<Seq<char>>)
    requires
        strictly_sorted(a),
        strictly_sorted(b),
        a.to_set() == b.to_set(),
    ensures
        a == b,
    decreases a.len(),
{
    if a.len() == 0 {
        if b.len() > 0 {
            assert(b.to_set().contains(b[0]));
        }
        assert(a =~= b);
    } else if b.len() == 0 {
        assert(a.to_set().contains(a[0]));
    } else {
        assert(b.to_set().contains(a[0]));
        assert(a.to_set().contains(b[0]));
        let k = choose|k: int| 0 <= k < b.len() && b[k] == a[0];
        let m = choose|m: int| 0 <= m < a.len() && a[m] == b[0];
        if a[0] != b[0] {
            assert(k > 0 && m > 0);
            assert(lex_lt(b[0], b[k]));
            assert(lex_lt(a[0], a[m]));
            lemma_lex_asymmetric(a[0], b[0]);
        }
        let a2 = a.drop_first();
        let b2 = b.drop_first();
        assert forall|x: Seq<char>| a2.to_set().contains(x) <==> b2.to_set().contains(x) by {
            if a2.to_set().contains(x) {
                let i = choose|i: int| 0 <= i < a2.len() && a2[i] == x;
                assert(a[i + 1] == x);
                assert(lex_lt(a[0], a[i + 1]));
                lemma_lex_irreflexive(x);
                assert(b.to_set().contains(x));
                let j = choose|j: int| 0 <= j < b.len() && b[j] == x;
                assert(j != 0);
                assert(b2[j - 1] == x);
            }
            if b2.to_set().contains(x) {
                let j = choose|j: int| 0 <= j < b2.len() && b2[j] == x;
                assert(b[j + 1] == x);
                assert(lex_lt(b[0], b[j + 1]));
                lemma_lex_irreflexive(x);
                assert(a.to_set().contains(x));
                let i = choose|i: int| 0 <= i < a.len() && a[i] == x;
                assert(i != 0);
                assert(a2[i - 1] == x);
            }
        }
        assert(a2.to_set() =~= b2.to_set());
        assert forall|i: int, j: int| 0 <= i < j < a2.len() implies lex_lt(
            #[trigger] a2[i],
            #[trigger] a2[j],
        ) by {
            assert(a2[i] == a[i + 1] && a2[j] == a[j + 1]);
        }
        assert forall|i: int, j: int| 0 <= i < j < b2.len() implies lex_lt(
            #[trigger] b2[i],
            #[trigger] b2[j],
        ) by {
            assert(b2[i] == b[i + 1] && b2[j] == b[j + 1]);
        }
        lemma_sorted_unique(a2, b2);
        assert(a =~= seq![a[0]] + a2);
        assert(b =~= seq![b[0]] + b2);
    }
}

pub proof fn lemma_push_to_set<A>(s: Seq<A>, x: A)
    ensures
        s.push(x).to_set() == s.to_set().insert(x),
{
    assert forall|y: A| s.push(x).to_set().contains(y) <==> s.to_set().insert(x).contains(y) by {
        if s.push(x).to_set().contains(y) {
            let k = choose|k: int| 0 <= k < s.push(x).len() && s.push(x)[k] == y;
            if k < s.len() {
                assert(s[k] == y);
            }
        }
        if s.to_set().contains(y) {
            let k = choose|k: int| 0 <= k < s.len() && s[k] == y;
            assert(s.push(x)[k] == y);
        }
        if y == x {
            assert(s.push(x)[s.len() as int] == y);
        }
    }
    assert(s.push(x).to_set() =~= s.to_set().insert(x));
}

/// The sorted list without repeats of a finite set of strings.
pub open spec fn sorted_of(s: Set<Seq<char>>) -> Seq<Seq<char>> {
    choose|r: Seq<Seq<char>>| strictly_sorted(r) && r.to_set() == s
}

/// A sorted list without repeats is the one its set determines.
pub proof fn lemma_sorted_of(r: Seq<Seq<char>>)
    requires
        strictly_sorted(r),
    ensures
        sorted_of(r.to_set()) == r,
{
    let c = sorted_of(r.to_set());
    assert(strictly_sorted(c) && c.to_set() == r.to_set());
    lemma_sorted_unique(c, r);
}

/// Whether `a` sorts before `b`.
pub fn lex_less(a: &str, b: &str) -> (r: bool)
    ensures
        r == lex_lt(a@, b@),
{
    let x = chars_of(a);
    let y = chars_of(b);
    let mut i: usize = 0;
    proof {
        assert(x@.skip(0) =~= x@);
        assert(y@.skip(0) =~= y@);
    }
    while i < x.len() && i < y.len() && x[i] == y[i]
        invariant
            0 <= i <= x@.len(),
            i <= y@.len(),
            lex_lt(x@, y@) == lex_lt(x@.skip(i as int), y@.skip(i as int)),
        decreases x@.len() - i,
    {
        assert(x@.skip(i as int).drop_first() =~= x@.skip(i + 1));
        assert(y@.skip(i as int).drop_first() =~= y@.skip(i + 1));
        i += 1;
    }
    if i == x.len() {
        i < y.len()
    } else if i == y.len() {
        false
    } else {
        x[i] < y[i]
    }
}

/// Inserts `x` into a sorted list without repeats, keeping it so.
pub fn insert_sorted(r: &mut Vec<String>, x: &str)
    requires
        strictly_sorted(str_views(old(r)@)),
    ensures
        strictly_sorted(str_views(final(r)@)),
        str_views(final(r)@).to_set() == str_views(old(r)@).to_set().insert(x@),
{
    let ghost rs = str_views(r@);
    let mut p: usize = 0;
    while p < r.len() && lex_less(r[p].as_str(), x)
        invariant
            rs == str_views(r@),
            0 <= p <= r@.len(),
            forall|k: int| 0 <= k < p ==> lex_lt(#[trigger] rs[k], x@),
        decreases r@.len() - p,
    {
        p += 1;
    }
    if p < r.len() && str_eq(r[p].as_str(), x) {
        assert(rs[p as int] == x@);
        assert(rs.to_set().contains(x@));
        assert(rs.to_set() =~= rs.to_set().insert(x@));
    } else {
        proof {
            if p < rs.len() {
                lemma_lex_total(rs[p as int], x@);
            }
        }
        r.insert(p, crate::text::string_from(x));
        let ghost ns = str_views(r@);
        assert(ns =~= rs.insert(p as int, x@));
        assert forall|a: int, b: int| 0 <= a < b < ns.len() implies lex_lt(
            #[trigger] ns[a],
            #[trigger] ns[b],
        ) by {
            if b < p {
                assert(ns[a] == rs[a] && ns[b] == rs[b]);
            } else if b == p {
                assert(ns[a] == rs[a]);
            } else if a == p {
                assert(ns[b] == rs[b - 1]);
                if b - 1 > p {
                    lemma_lex_transitive(x@, rs[p as int], rs[b - 1]);
                }
            } else if a < p {
                assert(ns[a] == rs[a] && ns[b] == rs[b - 1]);
                if b - 1 > p {
                    lemma_lex_transitive(x@, rs[p as int], rs[b - 1]);
                }
                lemma_lex_transitive(rs[a], x@, rs[b - 1]);
            } else {
                assert(ns[a] == rs[a - 1] && ns[b] == rs[b - 1]);
            }
        }
        assert forall|y: Seq<char>| ns.to_set().contains(y) <==> rs.to_set().insert(x@).contains(
            y,
        ) by {
            if ns.to_set().contains(y) {
                let k = choose|k: int| 0 <= k < ns.len() && ns[k] == y;
                if k < p {
                    assert(rs[k] == y);
                } else if k > p {
                    assert(rs[k - 1] == y);
                }
            }
            if rs.to_set().contains(y) {
                let k = choose|k: int| 0 <= k < rs.len() && rs[k] == y;
                if k < p {
                    assert(ns[k] == y);
                } else {
                    assert(ns[k + 1] == y);
                }
            }
            if y == x@ {
                assert(ns[p as int] == y);
            }
        }
        assert(ns.to_set() =~= rs.to_set().insert(x@));
    }
}

/// The strings sorted, each once (`sort` followed by `dedup`).
pub fn sorted_unique(v: &[String]) -> (r: Vec<String>)
    ensures
        strictly_sorted(str_views(r@)),
        str_views(r@).to_set() == str_views(v@).to_set(),
        str_views(r@) == sorted_of(str_views(v@).to_set()),
{
    let ghost vs = str_views(v@);
    let mut r: Vec<String> = Vec::new();
    let mut i: usize = 0;
    while i < v.len()
        invariant
            vs == str_views(v@),
            0 <= i <= v@.len(),
            strictly_sorted(str_views(r@)),
            str_views(r@).to_set() == vs.take(i as int).to_set(),
        decreases v@.len() - i,
    {
        let x = v[i].as_str();
        assert(vs.take(i + 1) =~= vs.take(i as int).push(x@));
        proof {
            lemma_push_to_set(vs.take(i as int), x@);
        }
        insert_sorted(&mut r, x);
        i += 1;
    }
    assert(vs.take(v@.len() as int) =~= vs);
    proof {
        lemma_sorted_of(str_views(r@));
    }
    r
}

} // verus!
