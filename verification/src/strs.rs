//! Building strings from pieces, with the result stated as the concatenation
//! of the pieces.
use crate::text::{append_str, decimal, decimal_string, string_from};
use vstd::prelude::*;

verus! {

pub fn s2(a: &str, b: &str) -> (r: String)
    ensures
        r@ == a@ + b@,
{
    let mut r = string_from(a);
    append_str(&mut r, b);
    r
}

pub fn s3(a: &str, b: &str, c: &str) -> (r: String)
    ensures
        r@ == a@ + b@ + c@,
{
    let mut r = s2(a, b);
    append_str(&mut r, c);
    r
}

pub fn s4(a: &str, b: &str, c: &str, d: &str) -> (r: String)
    ensures
        r@ == a@ + b@ + c@ + d@,
{
    let mut r = s3(a, b, c);
    append_str(&mut r, d);
    r
}

pub fn s5(a: &str, b: &str, c: &str, d: &str, e: &str) -> (r: String)
    ensures
        r@ == a@ + b@ + c@ + d@ + e@,
{
    let mut r = s4(a, b, c, d);
    append_str(&mut r, e);
    r
}

pub fn s6(a: &str, b: &str, c: &str, d: &str, e: &str, f: &str) -> (r: String)
    ensures
        r@ == a@ + b@ + c@ + d@ + e@ + f@,
{
    let mut r = s5(a, b, c, d, e);
    append_str(&mut r, f);
    r
}

pub fn s7(a: &str, b: &str, c: &str, d: &str, e: &str, f: &str, g: &str) -> (r: String)
    ensures
        r@ == a@ + b@ + c@ + d@ + e@ + f@ + g@,
{
    let mut r = s6(a, b, c, d, e, f);
    append_str(&mut r, g);
    r
}

/// The decimal rendering of a count or index.
pub fn dec(n: usize) -> (r: String)
    ensures
        r@ == decimal(n as nat),
{
    decimal_string(n as u64)
}

/// The decimal rendering of a 16-bit number.
pub fn dec16(n: u16) -> (r: String)
    ensures
        r@ == decimal(n as nat),
{
    decimal_string(n as u64)
}

/// A copy of a string.
pub fn copy(s: &str) -> (r: String)
    ensures
        r@ == s@,
{
    string_from(s)
}

/// A copy of an optional string.
pub fn copy_opt(s: &Option<String>) -> (r: Option<String>)
    ensures
        match (r, *s) {
            (Some(a), Some(b)) => a@ == b@,
            (None, None) => true,
            _ => false,
        },
{
    match s {
        Some(v) => Some(string_from(v.as_str())),
        None => None,
    }
}

/// The texts of a sequence of strings.
pub open spec fn str_views(v: Seq<String>) -> Seq<Seq<char>> {
    v.map_values(|s: String| s@)
}

/// Whether one of the strings equals `s`.
pub fn contains_string(v: &Vec<String>, s: &str) -> (r: bool)
    ensures
        r == str_views(v@).contains(s@),
{
    let mut i: usize = 0;
    while i < v.len()
        invariant
            0 <= i <= v@.len(),
            forall|j: int| 0 <= j < i ==> v@[j]@ != s@,
        decreases v@.len() - i,
    {
        if crate::text::str_eq(v[i].as_str(), s) {
            assert(str_views(v@)[i as int] == s@);
            return true;
        }
        i += 1;
    }
    assert forall|j: int| 0 <= j < str_views(v@).len() implies str_views(v@)[j] != s@ by {
        assert(str_views(v@)[j] == v@[j]@);
    }
    false
}

/// A vector of strings extended by a copy of `s`.
pub fn push_copy(v: &mut Vec<String>, s: &str)
    ensures
        str_views(final(v)@) == str_views(old(v)@).push(s@),
{
    v.push(string_from(s));
    assert(str_views(v@) =~= str_views(old(v)@).push(s@));
}

/// The strings joined with `sep` between consecutive ones (`[..].join`).
pub fn join_strings(v: &[String], sep: &str) -> (r: String)
    ensures
        r@ == crate::text::join(str_views(v@), sep@),
{
    let mut parts: Vec<Vec<char>> = Vec::new();
    let mut i: usize = 0;
    while i < v.len()
        invariant
            0 <= i <= v@.len(),
            crate::text::views(parts@) == str_views(v@).take(i as int),
        decreases v@.len() - i,
    {
        let ghost before = crate::text::views(parts@);
        parts.push(crate::text::chars_of(v[i].as_str()));
        assert(crate::text::views(parts@) =~= before.push(v@[i as int]@));
        assert(str_views(v@).take(i + 1) =~= str_views(v@).take(i as int).push(v@[i as int]@));
        i += 1;
    }
    assert(str_views(v@).take(v@.len() as int) =~= str_views(v@));
    crate::text::join_chars(&parts, sep)
}

} // verus!
