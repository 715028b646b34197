//! Pkl text helpers for files the library writes: string literals that
//! Pkl reads back as the string they render.
use crate::seqs::{flat_map, lemma_flat_map_all, lemma_flat_map_step};
use crate::text::{append_str, chars_of, push_char};
use vstd::prelude::*;

verus! {

/// The escape sequence of one character inside a Pkl string literal.
pub open spec fn escaped(c: char) -> Seq<char> {
    if c == '\\' {
        seq!['\\', '\\']
    } else if c == '"' {
        seq!['\\', '"']
    } else if c == '\n' {
        seq!['\\', 'n']
    } else if c == '\r' {
        seq!['\\', 'r']
    } else if c == '\t' {
        seq!['\\', 't']
    } else {
        seq![c]
    }
}

pub open spec fn escaped_fn() -> spec_fn(int, char) -> Seq<char> {
    |i: int, c: char| escaped(c)
}

/// The Pkl string literal of `s`: quoted, with backslashes, quotes and
/// line breaks and tabs escaped.
pub open spec fn pkl_literal(s: Seq<char>) -> Seq<char> {
    seq!['"'] + flat_map(s, escaped_fn()) + seq!['"']
}

/// What a Pkl reader makes of the inside of a string literal: each escape
/// sequence stands for its character; an unescaped quote, a bare line break
/// or an unknown escape makes it no literal.
pub open spec fn unescape(s: Seq<char>) -> Option<Seq<char>>
    decreases s.len(),
{
    if s.len() == 0 {
        Some(Seq::empty())
    } else if s[0] == '\\' {
        if s.len() < 2 {
            None
        } else {
            let c = s[1];
            let d = if c == '\\' {
                Some('\\')
            } else if c == '"' {
                Some('"')
            } else if c == 'n' {
                Some('\n')
            } else if c == 'r' {
                Some('\r')
            } else if c == 't' {
                Some('\t')
            } else {
                None
            };
            match (d, unescape(s.skip(2))) {
                (Some(x), Some(rest)) => Some(seq![x] + rest),
                _ => None,
            }
        }
    } else if s[0] == '"' || s[0] == '\n' || s[0] == '\r' {
        None
    } else {
        match unescape(s.drop_first()) {
            Some(rest) => Some(seq![s[0]] + rest),
            None => None,
        }
    }
}

/// What a Pkl reader makes of a string literal.
pub open spec fn read_literal(s: Seq<char>) -> Option<Seq<char>> {
    if s.len() >= 2 && s[0] == '"' && s.last() == '"' {
        unescape(s.subrange(1, s.len() - 1))
    } else {
        None
    }
}

proof fn lemma_unescape_flat(s: Seq<char>)
    ensures
        unescape(flat_map(s, escaped_fn())) == Some(s),
    decreases s.len(),
{
    if s.len() > 0 {
        let f = escaped_fn();
        lemma_flat_map_front(s, f);
        lemma_unescape_flat(s.drop_first());
        let e = escaped(s[0]);
        let rest = flat_map(s.drop_first(), f);
        let whole = e + rest;
        if e.len() == 2 {
            assert(whole.skip(2) =~= rest);
        } else {
            assert(whole.drop_first() =~= rest);
        }
        assert(seq![s[0]] + s.drop_first() =~= s);
    }
}

/// Concatenating from the front gives the same result as from the back.
pub proof fn lemma_flat_map_front<A, B>(s: Seq<A>, f: spec_fn(int, A) -> Seq<B>)
    requires
        s.len() > 0,
        forall|i: int, a: A| #[trigger] f(i, a) == f(0, a),
    ensures
        flat_map(s, f) == f(0, s[0]) + flat_map(s.drop_first(), f),
    decreases s.len(),
{
    if s.len() == 1 {
        assert(s.drop_first() =~= Seq::<A>::empty());
        assert(s.drop_last() =~= Seq::<A>::empty());
        assert(flat_map(s.drop_last(), f) =~= Seq::<B>::empty());
    } else {
        lemma_flat_map_front(s.drop_last(), f);
        assert(s.drop_last().drop_first() =~= s.drop_first().drop_last());
        assert(s.drop_first().last() == s.last());
        assert(f(s.len() - 1, s.last()) == f(0, s.last()));
        assert(f(s.drop_first().len() - 1, s.last()) == f(0, s.last()));
        assert(s.drop_last()[0] == s[0]);
    }
}

/// A rendered literal reads back as the string it renders.
pub proof fn lemma_string_literal_round_trip(s: Seq<char>)
    ensures
        read_literal(pkl_literal(s)) == Some(s),
{
    lemma_unescape_flat(s);
    let l = pkl_literal(s);
    assert(l.subrange(1, l.len() - 1) =~= flat_map(s, escaped_fn()));
}

/// Renders a string as a Pkl string literal that reads back as the string.
pub fn string_literal(value: &str) -> (r: String)
    ensures
        r@ == pkl_literal(value@),
{
    let v = chars_of(value);
    let ghost f = escaped_fn();
    let mut out = String::new();
    push_char(&mut out, '"');
    let ghost start = out@;
    let mut i: usize = 0;
    while i < v.len()
        invariant
            f == escaped_fn(),
            start == seq!['"'],
            v@ == value@,
            0 <= i <= v@.len(),
            out@ == start + flat_map(v@.take(i as int), f),
        decreases v@.len() - i,
    {
        proof {
            lemma_flat_map_step(v@, f, i as int);
        }
        let c = v[i];
        if c == '\\' {
            push_char(&mut out, '\\');
            push_char(&mut out, '\\');
        } else if c == '"' {
            push_char(&mut out, '\\');
            push_char(&mut out, '"');
        } else if c == '\n' {
            push_char(&mut out, '\\');
            push_char(&mut out, 'n');
        } else if c == '\r' {
            push_char(&mut out, '\\');
            push_char(&mut out, 'r');
        } else if c == '\t' {
            push_char(&mut out, '\\');
            push_char(&mut out, 't');
        } else {
            push_char(&mut out, c);
        }
        assert(out@ =~= start + flat_map(v@.take(i + 1), f));
        i += 1;
    }
    proof {
        lemma_flat_map_all(v@, f);
    }
    push_char(&mut out, '"');
    out
}

} // verus!
