//! Sequences built element by element: what a loop that pushes zero or more
//! items per input element produces.
use vstd::prelude::*;

verus! {

/// The items `f` gives for each element, concatenated in order.
pub open spec fn flat_map<A, B>(s: Seq<A>, f: spec_fn(int, A) -> Seq<B>) -> Seq<B>
    decreases s.len(),
{
    if s.len() == 0 {
        Seq::empty()
    } else {
        flat_map(s.drop_last(), f) + f(s.len() - 1, s.last())
    }
}

/// No item or one.
pub open spec fn opt_seq<B>(o: Option<B>) -> Seq<B> {
    match o {
        Some(b) => seq![b],
        None => Seq::empty(),
    }
}

pub proof fn lemma_flat_map_step<A, B>(s: Seq<A>, f: spec_fn(int, A) -> Seq<B>, i: int)
    requires
        0 <= i < s.len(),
    ensures
        flat_map(s.take(i + 1), f) == flat_map(s.take(i), f) + f(i, s[i]),
{
    assert(s.take(i + 1).drop_last() =~= s.take(i));
}

/// Each element's piece stands whole in the flat map, at some offset.
pub proof fn lemma_flat_map_piece<A, B>(s: Seq<A>, f: spec_fn(int, A) -> Seq<B>, i: int) -> (k: int)
    requires
        0 <= i < s.len(),
    ensures
        0 <= k,
        k + f(i, s[i]).len() <= flat_map(s, f).len(),
        flat_map(s, f).subrange(k, k + f(i, s[i]).len()) == f(i, s[i]),
    decreases s.len(),
{
    let p = flat_map(s.drop_last(), f);
    let last = f(s.len() - 1, s.last());
    assert(flat_map(s, f) == p + last);
    if i == s.len() - 1 {
        let k = p.len() as int;
        assert((p + last).subrange(k, k + last.len()) =~= last);
        k
    } else {
        let k = lemma_flat_map_piece(s.drop_last(), f, i);
        assert(s.drop_last()[i] == s[i]);
        let n = f(i, s[i]).len();
        assert((p + last).subrange(k, k + n) =~= p.subrange(k, k + n));
        k
    }
}

/// Every item of a flat map is an item of the piece of some element.
pub proof fn lemma_flat_map_origin<A, B>(s: Seq<A>, f: spec_fn(int, A) -> Seq<B>, k: int) -> (r: (int, int))
    requires
        0 <= k < flat_map(s, f).len(),
    ensures
        0 <= r.0 < s.len(),
        0 <= r.1 < f(r.0, s[r.0]).len(),
        flat_map(s, f)[k] == f(r.0, s[r.0])[r.1],
    decreases s.len(),
{
    let p = flat_map(s.drop_last(), f);
    let last = f(s.len() - 1, s.last());
    assert(flat_map(s, f) == p + last);
    if k < p.len() {
        let r = lemma_flat_map_origin(s.drop_last(), f, k);
        assert(s.drop_last()[r.0] == s[r.0]);
        r
    } else {
        (s.len() - 1, k - p.len())
    }
}

pub proof fn lemma_flat_map_all<A, B>(s: Seq<A>, f: spec_fn(int, A) -> Seq<B>)
    ensures
        flat_map(s.take(s.len() as int), f) == flat_map(s, f),
{
    assert(s.take(s.len() as int) =~= s);
}

} // verus!
