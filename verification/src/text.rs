//! Character-level text handling used throughout the library: whitespace,
//! prefixes, searching, splitting into lines, replacement and decimal
//! rendering, each stated over `Seq<char>` and implemented on `Vec<char>`.
use vstd::prelude::*;

verus! {

// ---------------------------------------------------------------------------
// Specifications
// ---------------------------------------------------------------------------

/// Unicode `White_Space`, the property `char::is_whitespace` tests.
pub open spec fn is_ws(c: char) -> bool {
    ||| ('\u{9}' <= c && c <= '\u{d}')
    ||| c == ' '
    ||| c == '\u{85}'
    ||| c == '\u{a0}'
    ||| c == '\u{1680}'
    ||| ('\u{2000}' <= c && c <= '\u{200a}')
    ||| c == '\u{2028}'
    ||| c == '\u{2029}'
    ||| c == '\u{202f}'
    ||| c == '\u{205f}'
    ||| c == '\u{3000}'
}

/// A string whose trimmed form is empty: every character is whitespace.
pub open spec fn is_blank(s: Seq<char>) -> bool {
    forall|i: int| 0 <= i < s.len() ==> is_ws(#[trigger] s[i])
}

/// The string with leading whitespace removed.
pub open spec fn trim_start(s: Seq<char>) -> Seq<char>
    decreases s.len(),
{
    if s.len() > 0 && is_ws(s[0]) {
        trim_start(s.drop_first())
    } else {
        s
    }
}

/// The string with trailing whitespace removed.
pub open spec fn trim_end(s: Seq<char>) -> Seq<char>
    decreases s.len(),
{
    if s.len() > 0 && is_ws(s.last()) {
        trim_end(s.drop_last())
    } else {
        s
    }
}

/// The string with whitespace removed from both ends.
pub open spec fn trim(s: Seq<char>) -> Seq<char> {
    trim_end(trim_start(s))
}

pub open spec fn starts_with(s: Seq<char>, p: Seq<char>) -> bool {
    p.len() <= s.len() && s.subrange(0, p.len() as int) == p
}

pub open spec fn ends_with(s: Seq<char>, p: Seq<char>) -> bool {
    p.len() <= s.len() && s.subrange(s.len() - p.len(), s.len() as int) == p
}

/// `p` occurs in `s` starting at index `i`.
pub open spec fn occurs_at(s: Seq<char>, p: Seq<char>, i: int) -> bool {
    0 <= i && i + p.len() <= s.len() && s.subrange(i, i + p.len()) == p
}

/// `i` is the first index at which `p` occurs in `s`.
pub open spec fn first_occurrence_at(s: Seq<char>, p: Seq<char>, i: int) -> bool {
    occurs_at(s, p, i) && forall|j: int| 0 <= j < i ==> !occurs_at(s, p, j)
}

/// The index of the first occurrence of `p` in `s`, as `str::find` gives it.
pub open spec fn find(s: Seq<char>, p: Seq<char>) -> Option<int> {
    if exists|i: int| first_occurrence_at(s, p, i) {
        Some(choose|i: int| first_occurrence_at(s, p, i))
    } else {
        None
    }
}

/// The pieces of `s` between occurrences of `c` (always at least one).
pub open spec fn split_char(s: Seq<char>, c: char) -> Seq<Seq<char>>
    decreases s.len(),
{
    if s.len() == 0 {
        seq![Seq::empty()]
    } else {
        let prev = split_char(s.drop_last(), c);
        if s.last() == c {
            prev.push(Seq::empty())
        } else {
            prev.update(prev.len() - 1, prev.last().push(s.last()))
        }
    }
}

/// A piece that was followed by a line feed loses one trailing carriage return.
pub open spec fn strip_cr(s: Seq<char>) -> Seq<char> {
    if s.len() > 0 && s.last() == '\r' {
        s.drop_last()
    } else {
        s
    }
}

/// The lines of `s` as `str::lines` yields them: split at `\n`, a `\r`
/// before a `\n` dropped, and no empty line after a final `\n`.
pub open spec fn lines(s: Seq<char>) -> Seq<Seq<char>> {
    let parts = split_char(s, '\n');
    let n: int = if s.len() == 0 {
        0
    } else if s.last() == '\n' {
        parts.len() - 1
    } else {
        parts.len() as int
    };
    Seq::new(n as nat, |i: int| if i < parts.len() - 1 { strip_cr(parts[i]) } else { parts[i] })
}

/// The parts joined with `sep` between consecutive parts.
pub open spec fn join(parts: Seq<Seq<char>>, sep: Seq<char>) -> Seq<char>
    decreases parts.len(),
{
    if parts.len() == 0 {
        Seq::empty()
    } else if parts.len() == 1 {
        parts[0]
    } else {
        join(parts.drop_last(), sep) + sep + parts.last()
    }
}

/// Every non-overlapping occurrence of `pat`, scanning left to right,
/// replaced by `rep`.
pub open spec fn replace_all(s: Seq<char>, pat: Seq<char>, rep: Seq<char>) -> Seq<char>
    decreases s.len(),
{
    if s.len() == 0 || pat.len() == 0 {
        s
    } else if starts_with(s, pat) {
        rep + replace_all(s.skip(pat.len() as int), pat, rep)
    } else {
        seq![s[0]] + replace_all(s.drop_first(), pat, rep)
    }
}

pub open spec fn ascii_lower(c: char) -> char {
    if 'A' <= c && c <= 'Z' {
        ((c as u32) + 32) as char
    } else {
        c
    }
}

pub open spec fn to_ascii_lowercase(s: Seq<char>) -> Seq<char> {
    s.map_values(|c: char| ascii_lower(c))
}

pub open spec fn ascii_upper(c: char) -> char {
    if 'a' <= c && c <= 'z' {
        ((c as u32) - 32) as char
    } else {
        c
    }
}

/// The ASCII upper-case form of a string (`str::to_ascii_uppercase`).
pub open spec fn to_ascii_uppercase(s: Seq<char>) -> Seq<char> {
    s.map_values(|c: char| ascii_upper(c))
}

pub open spec fn is_ascii_alnum(c: char) -> bool {
    ('a' <= c && c <= 'z') || ('A' <= c && c <= 'Z') || ('0' <= c && c <= '9')
}

pub open spec fn digit_char(d: nat) -> char {
    if d == 0 { '0' }
    else if d == 1 { '1' }
    else if d == 2 { '2' }
    else if d == 3 { '3' }
    else if d == 4 { '4' }
    else if d == 5 { '5' }
    else if d == 6 { '6' }
    else if d == 7 { '7' }
    else if d == 8 { '8' }
    else { '9' }
}

/// The decimal rendering of `n`, without sign or leading zeros.
pub open spec fn decimal(n: nat) -> Seq<char>
    decreases n,
{
    if n < 10 {
        seq![digit_char(n)]
    } else {
        decimal(n / 10).push(digit_char(n % 10))
    }
}

/// The character sequences held by a vector of character vectors.
pub open spec fn views(v: Seq<Vec<char>>) -> Seq<Seq<char>> {
    v.map_values(|p: Vec<char>| p@)
}

// ---------------------------------------------------------------------------
// Lemmas
// ---------------------------------------------------------------------------

pub proof fn lemma_split_nonempty(s: Seq<char>, c: char)
    ensures
        split_char(s, c).len() >= 1,
    decreases s.len(),
{
    if s.len() > 0 {
        lemma_split_nonempty(s.drop_last(), c);
    }
}

/// The first occurrence, once found, is what `find` returns.
pub proof fn lemma_find_is(s: Seq<char>, p: Seq<char>, i: int)
    requires
        first_occurrence_at(s, p, i),
    ensures
        find(s, p) == Some(i),
{
    let k = choose|k: int| first_occurrence_at(s, p, k);
    assert(first_occurrence_at(s, p, k));
    if k < i {
        assert(!occurs_at(s, p, k));
    }
    if i < k {
        assert(!occurs_at(s, p, i));
    }
}

/// What `find` returns is the first occurrence.
pub proof fn lemma_find_some(s: Seq<char>, p: Seq<char>, k: int)
    requires
        find(s, p) == Some(k),
    ensures
        first_occurrence_at(s, p, k),
{
}

/// With no occurrence anywhere, `find` gives nothing.
pub proof fn lemma_find_none(s: Seq<char>, p: Seq<char>)
    requires
        forall|j: int| !occurs_at(s, p, j),
    ensures
        find(s, p) is None,
{
}

pub proof fn lemma_blank_trim_start(s: Seq<char>)
    ensures
        is_blank(s) <==> trim_start(s).len() == 0,
    decreases s.len(),
{
    if s.len() > 0 && is_ws(s[0]) {
        lemma_blank_trim_start(s.drop_first());
        if is_blank(s.drop_first()) {
            assert forall|i: int| 0 <= i < s.len() implies is_ws(#[trigger] s[i]) by {
                if i > 0 {
                    assert(s[i] == s.drop_first()[i - 1]);
                }
            }
        }
        if is_blank(s) {
            assert forall|i: int| 0 <= i < s.drop_first().len() implies is_ws(
                #[trigger] s.drop_first()[i],
            ) by {
                assert(s.drop_first()[i] == s[i + 1]);
            }
        }
    } else if s.len() > 0 {
        assert(!is_ws(s[0]));
    }
}

/// Trimming leaves nothing exactly when the string is all whitespace.
pub proof fn lemma_blank_trim(s: Seq<char>)
    ensures
        is_blank(s) <==> trim(s).len() == 0,
{
    lemma_blank_trim_start(s);
    lemma_trim_end_len(trim_start(s));
    lemma_trim_start_head(s);
}

pub proof fn lemma_trim_start_head(s: Seq<char>)
    ensures
        trim_start(s).len() > 0 ==> !is_ws(trim_start(s)[0]),
    decreases s.len(),
{
    if s.len() > 0 && is_ws(s[0]) {
        lemma_trim_start_head(s.drop_first());
    }
}

pub proof fn lemma_trim_end_len(s: Seq<char>)
    ensures
        trim_end(s).len() == 0 <==> is_blank(s),
    decreases s.len(),
{
    if s.len() > 0 && is_ws(s.last()) {
        lemma_trim_end_len(s.drop_last());
        if is_blank(s.drop_last()) {
            assert forall|i: int| 0 <= i < s.len() implies is_ws(#[trigger] s[i]) by {
                if i < s.len() - 1 {
                    assert(s[i] == s.drop_last()[i]);
                }
            }
        }
        if is_blank(s) {
            assert forall|i: int| 0 <= i < s.drop_last().len() implies is_ws(
                #[trigger] s.drop_last()[i],
            ) by {
                assert(s.drop_last()[i] == s[i]);
            }
        }
    } else if s.len() > 0 {
        assert(!is_ws(s[s.len() - 1]));
    }
}

// ---------------------------------------------------------------------------
// Executable helpers
// ---------------------------------------------------------------------------

/// The characters of a string slice, in order.
pub fn chars_of(s: &str) -> (v: Vec<char>)
    ensures
        v@ == s@,
{
    let mut v: Vec<char> = Vec::new();
    for c in it: s.chars()
        invariant
            v@ == it.seq().take(it.index() as int),
            it.seq() == s@,
    {
        v.push(c);
    }
    v
}

/// Appends one character to a string (`String::push`).
#[verifier::external_body]
pub(crate) fn push_char(s: &mut String, c: char)
    ensures
        final(s)@ == old(s)@.push(c),
{
    s.push(c);
}

/// A string holding the characters `v[from..to]`.
pub fn string_of_range(v: &[char], from: usize, to: usize) -> (s: String)
    requires
        from <= to <= v@.len(),
    ensures
        s@ == v@.subrange(from as int, to as int),
{
    let mut s = String::new();
    let mut i: usize = from;
    while i < to
        invariant
            from <= i <= to <= v@.len(),
            s@ == v@.subrange(from as int, i as int),
        decreases to - i,
    {
        push_char(&mut s, v[i]);
        assert(v@.subrange(from as int, i + 1) == v@.subrange(from as int, i as int).push(v@[i as int]));
        i += 1;
    }
    s
}

/// A string holding all of `v`.
pub fn string_of(v: &[char]) -> (s: String)
    ensures
        s@ == v@,
{
    let s = string_of_range(v, 0, v.len());
    assert(v@.subrange(0, v@.len() as int) == v@);
    s
}

/// Appends the characters `v[from..to]` to `s`.
pub fn append_range(s: &mut String, v: &[char], from: usize, to: usize)
    requires
        from <= to <= v@.len(),
    ensures
        final(s)@ == old(s)@ + v@.subrange(from as int, to as int),
{
    let mut i: usize = from;
    while i < to
        invariant
            from <= i <= to <= v@.len(),
            s@ == old(s)@ + v@.subrange(from as int, i as int),
        decreases to - i,
    {
        push_char(s, v[i]);
        assert(v@.subrange(from as int, i + 1) == v@.subrange(from as int, i as int).push(v@[i as int]));
        i += 1;
    }
}

/// Appends a string slice to `s`.
pub fn append_str(s: &mut String, t: &str)
    ensures
        final(s)@ == old(s)@ + t@,
{
    s.append(t);
}

/// A new string with the contents of `t`.
pub fn string_from(t: &str) -> (s: String)
    ensures
        s@ == t@,
{
    String::from_str(t)
}

/// Whether two strings hold the same characters.
pub fn str_eq(a: &str, b: &str) -> (r: bool)
    ensures
        r == (a@ == b@),
{
    let x = chars_of(a);
    let y = chars_of(b);
    chars_eq(&x, &y)
}

/// Whether two character sequences are equal.
pub fn chars_eq(x: &[char], y: &[char]) -> (r: bool)
    ensures
        r == (x@ == y@),
{
    if x.len() != y.len() {
        return false;
    }
    let mut i: usize = 0;
    while i < x.len()
        invariant
            x@.len() == y@.len(),
            0 <= i <= x@.len(),
            forall|j: int| 0 <= j < i ==> x@[j] == y@[j],
        decreases x@.len() - i,
    {
        if x[i] != y[i] {
            return false;
        }
        i += 1;
    }
    assert(x@ =~= y@);
    true
}

/// `char::is_whitespace`.
pub fn is_whitespace(c: char) -> (r: bool)
    ensures
        r == is_ws(c),
{
    ('\u{9}' <= c && c <= '\u{d}') || c == ' ' || c == '\u{85}' || c == '\u{a0}' || c == '\u{1680}'
        || ('\u{2000}' <= c && c <= '\u{200a}') || c == '\u{2028}' || c == '\u{2029}' || c
        == '\u{202f}' || c == '\u{205f}' || c == '\u{3000}'
}

/// Whether every character is whitespace (`s.trim().is_empty()`).
pub fn blank_chars(v: &[char]) -> (r: bool)
    ensures
        r == is_blank(v@),
{
    let mut i: usize = 0;
    while i < v.len()
        invariant
            0 <= i <= v@.len(),
            forall|j: int| 0 <= j < i ==> is_ws(#[trigger] v@[j]),
        decreases v@.len() - i,
    {
        if !is_whitespace(v[i]) {
            return false;
        }
        i += 1;
    }
    true
}

/// Whether the string is empty after trimming.
pub fn is_blank_str(s: &str) -> (r: bool)
    ensures
        r == is_blank(s@),
{
    let v = chars_of(s);
    blank_chars(&v)
}

/// Whether `p` occurs in `v` at index `i`.
pub fn occurs_at_exec(v: &[char], p: &[char], i: usize) -> (r: bool)
    ensures
        r == occurs_at(v@, p@, i as int),
{
    let vl = v.len();
    if i > vl || p.len() > vl - i {
        return false;
    }
    let mut k: usize = 0;
    while k < p.len()
        invariant
            vl == v@.len(),
            i + p@.len() <= vl,
            0 <= k <= p@.len(),
            forall|j: int| 0 <= j < k ==> v@[i + j] == p@[j],
        decreases p@.len() - k,
    {
        if v[i + k] != p[k] {
            assert(v@.subrange(i as int, i + p@.len())[k as int] == v@[i + k]);
            return false;
        }
        k += 1;
    }
    assert(v@.subrange(i as int, i + p@.len()) =~= p@);
    true
}

/// Whether `v` starts with `p`.
pub fn starts_with_chars(v: &[char], p: &[char]) -> (r: bool)
    ensures
        r == starts_with(v@, p@),
{
    occurs_at_exec(v, p, 0)
}

/// Whether the string starts with `p`.
pub fn str_starts_with(s: &str, p: &str) -> (r: bool)
    ensures
        r == starts_with(s@, p@),
{
    let v = chars_of(s);
    let q = chars_of(p);
    starts_with_chars(&v, &q)
}

/// Whether `v` holds the character `c`.
pub fn contains_char(v: &[char], c: char) -> (r: bool)
    ensures
        r == v@.contains(c),
{
    let mut i: usize = 0;
    while i < v.len()
        invariant
            0 <= i <= v@.len(),
            forall|j: int| 0 <= j < i ==> v@[j] != c,
        decreases v@.len() - i,
    {
        if v[i] == c {
            return true;
        }
        i += 1;
    }
    false
}

/// Whether the string holds the character `c`.
pub fn str_contains_char(s: &str, c: char) -> (r: bool)
    ensures
        r == s@.contains(c),
{
    let v = chars_of(s);
    contains_char(&v, c)
}

/// The first index at or after `from` where `p` occurs in `v`.
pub fn find_from(v: &[char], p: &[char], from: usize) -> (r: Option<usize>)
    requires
        from <= v@.len(),
    ensures
        match r {
            Some(i) => from <= i && occurs_at(v@, p@, i as int) && forall|j: int|
                from <= j < i ==> !occurs_at(v@, p@, j),
            None => forall|j: int| from <= j ==> !occurs_at(v@, p@, j),
        },
{
    let mut i: usize = from;
    loop
        invariant
            from <= i <= v@.len(),
            forall|j: int| from <= j < i ==> !occurs_at(v@, p@, j),
        decreases v@.len() - i,
    {
        if occurs_at_exec(v, p, i) {
            return Some(i);
        }
        if i == v.len() {
            assert forall|j: int| from <= j implies !occurs_at(v@, p@, j) by {
                if j > i {
                }
            }
            return None;
        }
        i += 1;
    }
}

/// The first index where `p` occurs in `v` (`str::find`).
pub fn find_chars(v: &[char], p: &[char]) -> (r: Option<usize>)
    ensures
        match r {
            Some(i) => find(v@, p@) == Some(i as int),
            None => find(v@, p@) is None,
        },
{
    let r = find_from(v, p, 0);
    proof {
        match r {
            Some(i) => {
                lemma_find_is(v@, p@, i as int);
            },
            None => {
                assert forall|j: int| !occurs_at(v@, p@, j) by {
                    if j < 0 {
                    }
                }
                lemma_find_none(v@, p@);
            },
        }
    }
    r
}

/// The decimal rendering of `n`.
pub fn decimal_string(n: u64) -> (s: String)
    ensures
        s@ == decimal(n as nat),
    decreases n,
{
    let d: u64 = n % 10;
    let c = if d == 0 { '0' }
    else if d == 1 { '1' }
    else if d == 2 { '2' }
    else if d == 3 { '3' }
    else if d == 4 { '4' }
    else if d == 5 { '5' }
    else if d == 6 { '6' }
    else if d == 7 { '7' }
    else if d == 8 { '8' }
    else { '9' };
    if n < 10 {
        let mut s = String::new();
        push_char(&mut s, c);
        assert(s@ =~= seq![digit_char(n as nat)]);
        s
    } else {
        let mut s = decimal_string(n / 10);
        push_char(&mut s, c);
        s
    }
}

/// The pieces of `v` between occurrences of `c` (`str::split`).
pub fn split_chars(v: &[char], c: char) -> (parts: Vec<Vec<char>>)
    ensures
        views(parts@) == split_char(v@, c),
{
    let mut parts: Vec<Vec<char>> = Vec::new();
    let mut cur: Vec<char> = Vec::new();
    let mut i: usize = 0;
    while i < v.len()
        invariant
            0 <= i <= v@.len(),
            views(parts@).push(cur@) == split_char(v@.take(i as int), c),
        decreases v@.len() - i,
    {
        assert(v@.take(i + 1).drop_last() == v@.take(i as int));
        let ghost before = views(parts@);
        if v[i] == c {
            let done = cur;
            parts.push(done);
            cur = Vec::new();
            assert(views(parts@) == before.push(done@));
        } else {
            cur.push(v[i]);
        }
        i += 1;
        assert(views(parts@).push(cur@) =~= split_char(v@.take(i as int), c));
    }
    assert(v@.take(v@.len() as int) == v@);
    let last = cur;
    parts.push(last);
    assert(views(parts@) =~= split_char(v@, c));
    parts
}

/// The lines of `v` (`str::lines`).
pub fn lines_of(v: &[char]) -> (ls: Vec<Vec<char>>)
    ensures
        views(ls@) == lines(v@),
{
    let parts = split_chars(v, '\n');
    proof {
        lemma_split_nonempty(v@, '\n');
    }
    let n: usize = if v.len() == 0 {
        0
    } else if v[v.len() - 1] == '\n' {
        parts.len() - 1
    } else {
        parts.len()
    };
    let mut ls: Vec<Vec<char>> = Vec::new();
    let mut i: usize = 0;
    while i < n
        invariant
            n <= parts@.len(),
            views(parts@) == split_char(v@, '\n'),
            n == lines(v@).len(),
            0 <= i <= n,
            views(ls@) == lines(v@).take(i as int),
        decreases n - i,
    {
        let p = &parts[i];
        let plen: usize = p.len();
        let line = if i + 1 < parts.len() && plen > 0 && p[plen - 1] == '\r' {
            let mut l = Vec::new();
            let mut k: usize = 0;
            while k < plen - 1
                invariant
                    plen == p@.len(),
                    plen > 0,
                    0 <= k <= plen - 1,
                    l@ == p@.take(k as int),
                decreases plen - 1 - k,
            {
                l.push(p[k]);
                assert(p@.take(k + 1) == p@.take(k as int).push(p@[k as int]));
                k += 1;
            }
            assert(l@ =~= p@.drop_last());
            l
        } else {
            let c = p.clone();
            assert(c@ =~= p@);
            c
        };
        assert(views(parts@)[i as int] == parts@[i as int]@);
        assert(line@ == lines(v@)[i as int]);
        let ghost old_ls = ls@;
        let ghost line_view = line@;
        ls.push(line);
        assert(views(ls@) =~= views(old_ls).push(line_view));
        assert(views(ls@) =~= lines(v@).take(i + 1));
        i += 1;
    }
    assert(lines(v@).take(n as int) =~= lines(v@));
    ls
}

/// The index of the first non-whitespace character (`str::trim_start`).
pub fn trim_start_index(v: &[char]) -> (i: usize)
    ensures
        i <= v@.len(),
        v@.skip(i as int) == trim_start(v@),
{
    let mut i: usize = 0;
    assert(v@.skip(0) =~= v@);
    while i < v.len() && is_whitespace(v[i])
        invariant
            0 <= i <= v@.len(),
            trim_start(v@) == trim_start(v@.skip(i as int)),
        decreases v@.len() - i,
    {
        assert(v@.skip(i as int).drop_first() =~= v@.skip(i + 1));
        i += 1;
    }
    i
}

/// The end of `v[..to]` once trailing whitespace is removed.
pub fn trim_end_index(v: &[char], to: usize) -> (j: usize)
    requires
        to <= v@.len(),
    ensures
        j <= to,
        v@.take(j as int) == trim_end(v@.take(to as int)),
{
    let mut j: usize = to;
    while j > 0 && is_whitespace(v[j - 1])
        invariant
            0 <= j <= to <= v@.len(),
            trim_end(v@.take(to as int)) == trim_end(v@.take(j as int)),
        decreases j,
    {
        assert(v@.take(j as int).drop_last() =~= v@.take(j - 1));
        j -= 1;
    }
    j
}

/// The bounds of `v` with whitespace removed from both ends (`str::trim`).
pub fn trim_bounds(v: &[char]) -> (r: (usize, usize))
    ensures
        r.0 <= r.1 <= v@.len(),
        v@.subrange(r.0 as int, r.1 as int) == trim(v@),
{
    let a = trim_start_index(v);
    let rest = crate::net::slice_from(v, a);
    let b = trim_end_index(&rest, rest.len());
    assert(rest@.len() == v@.len() - a);
    assert(b <= rest@.len());
    assert(a + b <= v@.len());
    let n: usize = v.len();
    assert(a + b <= n);
    assert(rest@.take(rest@.len() as int) =~= rest@);
    assert(v@.subrange(a as int, a + b) =~= rest@.take(b as int));
    (a, a + b)
}

/// The parts joined with `sep` between consecutive parts (`[..].join`).
pub fn join_chars(parts: &Vec<Vec<char>>, sep: &str) -> (s: String)
    ensures
        s@ == join(views(parts@), sep@),
{
    let mut s = String::new();
    let mut i: usize = 0;
    while i < parts.len()
        invariant
            0 <= i <= parts@.len(),
            s@ == join(views(parts@).take(i as int), sep@),
        decreases parts@.len() - i,
    {
        let ghost before = views(parts@).take(i as int);
        assert(views(parts@).take(i + 1).drop_last() =~= before);
        if i > 0 {
            append_str(&mut s, sep);
        }
        let p = &parts[i];
        append_range(&mut s, p.as_slice(), 0, p.len());
        assert(p@.subrange(0, p@.len() as int) =~= p@);
        i += 1;
    }
    assert(views(parts@).take(parts@.len() as int) =~= views(parts@));
    s
}

/// Every non-overlapping occurrence of `pat` replaced by `rep`, scanning
/// left to right (`str::replace`).
pub fn replace_all_str(s: &str, pat: &str, rep: &str) -> (r: String)
    ensures
        r@ == replace_all(s@, pat@, rep@),
{
    let v = chars_of(s);
    let p = chars_of(pat);
    if p.len() == 0 {
        return string_from(s);
    }
    let mut r = String::new();
    let mut i: usize = 0;
    assert(v@.skip(0) =~= v@);
    while i < v.len()
        invariant
            0 <= i <= v@.len(),
            p@.len() > 0,
            p@ == pat@,
            r@ + replace_all(v@.skip(i as int), p@, rep@) == replace_all(v@, p@, rep@),
        decreases v@.len() - i,
    {
        let ghost rest = v@.skip(i as int);
        if occurs_at_exec(&v, &p, i) {
            assert(rest.subrange(0, p@.len() as int) =~= v@.subrange(i as int, i + p@.len()));
            assert(rest.skip(p@.len() as int) =~= v@.skip(i + p@.len()));
            append_str(&mut r, rep);
            i += p.len();
        } else {
            proof {
                if p@.len() <= rest.len() {
                    assert(rest.subrange(0, p@.len() as int) =~= v@.subrange(i as int, i + p@.len()));
                }
            }
            assert(rest.drop_first() =~= v@.skip(i + 1));
            assert(seq![rest[0]] =~= seq![v@[i as int]]);
            push_char(&mut r, v[i]);
            i += 1;
        }
    }
    assert(v@.skip(i as int) =~= Seq::<char>::empty());
    r
}

/// The ASCII lower-case form of a character (`char::to_ascii_lowercase`).
pub fn ascii_lower_char(c: char) -> (r: char)
    ensures
        r == ascii_lower(c),
{
    if 'A' <= c && c <= 'Z' {
        let u: u32 = (c as u32) + 32;
        let b: u8 = u as u8;
        assert(b as u32 == u);
        b as char
    } else {
        c
    }
}

/// The ASCII lower-case form of a string (`str::to_ascii_lowercase`).
pub fn ascii_lowercase(s: &str) -> (r: String)
    ensures
        r@ == to_ascii_lowercase(s@),
{
    let v = chars_of(s);
    let mut r = String::new();
    let mut i: usize = 0;
    while i < v.len()
        invariant
            0 <= i <= v@.len(),
            r@ == to_ascii_lowercase(v@.take(i as int)),
        decreases v@.len() - i,
    {
        push_char(&mut r, ascii_lower_char(v[i]));
        assert(to_ascii_lowercase(v@.take(i + 1)) =~= to_ascii_lowercase(v@.take(i as int)).push(
            ascii_lower(v@[i as int]),
        ));
        i += 1;
    }
    assert(v@.take(v@.len() as int) =~= v@);
    r
}

} // verus!
