//! The text of a modular Pkl topology: which modules an entrypoint imports,
//! import lines removed, a section's body cut out by brace matching, and the
//! self-contained file assembled from the module texts.
use crate::net::slice_from;
use crate::seqs::{flat_map, lemma_flat_map_all, lemma_flat_map_step};
use crate::text::{
    chars_of, find, find_chars, join, join_chars, lemma_find_some, lines, lines_of, occurs_at,
    replace_all, replace_all_str, starts_with, starts_with_chars, append_str, string_of_range, trim, trim_bounds, trim_start, trim_start_index, views,
};
use vstd::prelude::*;

verus! {

/// A line that imports a module: `import ` after leading whitespace.
pub open spec fn is_import_line(l: Seq<char>) -> bool {
    starts_with(trim_start(l), "import "@)
}

pub open spec fn kept_line_fn() -> spec_fn(int, Seq<char>) -> Seq<Seq<char>> {
    |i: int, l: Seq<char>|
        if is_import_line(l) {
            Seq::empty()
        } else {
            seq![l]
        }
}

/// The text without its import lines, lines joined by `\n`.
pub open spec fn without_imports(s: Seq<char>) -> Seq<char> {
    join(flat_map(lines(s), kept_line_fn()), "\n"@)
}

/// The path a line `import "path"` names, when it starts with `prefix`.
pub open spec fn line_import(l: Seq<char>, prefix: Seq<char>) -> Seq<Seq<char>> {
    let t = trim(l);
    if starts_with(t, "import \""@) {
        let rest = t.skip(8);
        match find(rest, "\""@) {
            Some(k) => if starts_with(rest.take(k), prefix) {
                seq![rest.take(k)]
            } else {
                Seq::empty()
            },
            None => Seq::empty(),
        }
    } else {
        Seq::empty()
    }
}

pub open spec fn line_import_fn(prefix: Seq<char>) -> spec_fn(int, Seq<char>) -> Seq<Seq<char>> {
    |i: int, l: Seq<char>| line_import(l, prefix)
}

/// The paths of `import("path")` expressions, left to right, that start
/// with `prefix`; the scan stops at an unterminated path.
pub open spec fn call_imports(s: Seq<char>, prefix: Seq<char>) -> Seq<Seq<char>>
    decreases s.len(),
{
    match find(s, "import(\""@) {
        Some(i) => {
            proof {
                reveal_strlit("import(\"");
                lemma_find_some(s, "import(\""@, i);
            }
            let after = s.skip(i + 8);
            match find(after, "\""@) {
                Some(k) => {
                    proof {
                        reveal_strlit("\"");
                        lemma_find_some(after, "\""@, k);
                    }
                    let path = after.take(k);
                    (if starts_with(path, prefix) {
                        seq![path]
                    } else {
                        Seq::empty()
                    }) + call_imports(after.skip(k + 1), prefix)
                },
                None => Seq::empty(),
            }
        },
        None => Seq::empty(),
    }
}

/// The imported module paths under `prefix`: first those of `import "..."`
/// lines, in line order, then those of `import("...")` expressions.
pub open spec fn imports_under(s: Seq<char>, prefix: Seq<char>) -> Seq<Seq<char>> {
    flat_map(lines(s), line_import_fn(prefix)) + call_imports(s, prefix)
}

/// The first line declaring `schemaVersion`, trimmed.
pub open spec fn first_schema_line(ls: Seq<Seq<char>>) -> Option<Seq<char>>
    decreases ls.len(),
{
    if ls.len() == 0 {
        None
    } else if starts_with(trim_start(ls[0]), "schemaVersion"@) {
        Some(trim(ls[0]))
    } else {
        first_schema_line(ls.drop_first())
    }
}

/// The entrypoint's `schemaVersion` line, or `schemaVersion = 0`.
pub open spec fn schema_line(s: Seq<char>) -> Seq<char> {
    match first_schema_line(lines(s)) {
        Some(l) => l,
        None => "schemaVersion = 0"@,
    }
}

fn is_import_line_exec(l: &[char]) -> (r: bool)
    ensures
        r == is_import_line(l@),
{
    let a = trim_start_index(l);
    let rest = slice_from(l, a);
    let p = chars_of("import ");
    starts_with_chars(&rest, &p)
}

/// The text without the lines that import modules.
pub fn strip_imports(input: &str) -> (r: String)
    ensures
        r@ == without_imports(input@),
{
    let v = chars_of(input);
    let ls = lines_of(&v);
    let ghost all = views(ls@);
    let ghost f = kept_line_fn();
    let mut kept: Vec<Vec<char>> = Vec::new();
    let mut i: usize = 0;
    while i < ls.len()
        invariant
            all == views(ls@),
            all == lines(input@),
            f == kept_line_fn(),
            0 <= i <= ls@.len(),
            views(kept@) == flat_map(all.take(i as int), f),
        decreases ls@.len() - i,
    {
        proof {
            lemma_flat_map_step(all, f, i as int);
        }
        let ghost before = views(kept@);
        assert(all[i as int] == ls@[i as int]@);
        if !is_import_line_exec(ls[i].as_slice()) {
            kept.push(ls[i].clone());
        }
        assert(views(kept@) =~= before + f(i as int, all[i as int]));
        i += 1;
    }
    proof {
        lemma_flat_map_all(all, f);
    }
    join_chars(&kept, "\n")
}

fn line_import_exec(l: &[char], prefix: &[char]) -> (r: Option<String>)
    ensures
        match r {
            Some(p) => line_import(l@, prefix@) == seq![p@],
            None => line_import(l@, prefix@) == Seq::<Seq<char>>::empty(),
        },
{
    let (a, b) = trim_bounds(l);
    let t = crate::text::chars_of(string_of_range(l, a, b).as_str());
    let head = chars_of("import \"");
    proof {
        reveal_strlit("import \"");
    }
    if !starts_with_chars(&t, &head) {
        return None;
    }
    let rest = slice_from(&t, 8);
    let quote = chars_of("\"");
    match find_chars(&rest, &quote) {
        Some(k) => {
            proof {
                lemma_find_some(rest@, quote@, k as int);
            }
            let path = string_of_range(&rest, 0, k);
            let pv = chars_of(path.as_str());
            if starts_with_chars(&pv, prefix) {
                Some(path)
            } else {
                None
            }
        },
        None => None,
    }
}

/// The module paths under `prefix` that an entrypoint imports, as
/// `import "..."` lines first and then as `import("...")` expressions.
pub fn imported_paths(input: &str, prefix: &str) -> (r: Vec<String>)
    ensures
        r@.map_values(|s: String| s@) == imports_under(input@, prefix@),
{
    let v = chars_of(input);
    let pre = chars_of(prefix);
    let ls = lines_of(&v);
    let ghost all = views(ls@);
    let ghost f = line_import_fn(prefix@);
    let mut paths: Vec<String> = Vec::new();
    let mut i: usize = 0;
    while i < ls.len()
        invariant
            all == views(ls@),
            all == lines(input@),
            pre@ == prefix@,
            f == line_import_fn(prefix@),
            0 <= i <= ls@.len(),
            paths@.map_values(|s: String| s@) == flat_map(all.take(i as int), f),
        decreases ls@.len() - i,
    {
        proof {
            lemma_flat_map_step(all, f, i as int);
        }
        let ghost before = paths@.map_values(|s: String| s@);
        assert(all[i as int] == ls@[i as int]@);
        match line_import_exec(ls[i].as_slice(), &pre) {
            Some(p) => {
                paths.push(p);
            },
            None => {},
        }
        assert(paths@.map_values(|s: String| s@) =~= before + f(i as int, all[i as int]));
        i += 1;
    }
    proof {
        lemma_flat_map_all(all, f);
    }
    let ghost lined = paths@.map_values(|s: String| s@);
    let pat = chars_of("import(\"");
    let quote = chars_of("\"");
    proof {
        reveal_strlit("import(\"");
        reveal_strlit("\"");
    }
    let mut rest = v;
    loop
        invariant
            pre@ == prefix@,
            pat@ == "import(\""@,
            quote@ == "\""@,
            pat@.len() == 8,
            quote@.len() == 1,
            paths@.map_values(|s: String| s@) + call_imports(rest@, prefix@) == lined
                + call_imports(input@, prefix@),
        ensures
            paths@.map_values(|s: String| s@) == lined + call_imports(input@, prefix@),
        decreases rest@.len(),
    {
        let ghost before = paths@.map_values(|s: String| s@);
        match find_chars(&rest, &pat) {
            None => {
                assert(paths@.map_values(|s: String| s@) =~= lined + call_imports(input@, prefix@));
                break;
            },
            Some(index) => {
                proof {
                    lemma_find_some(rest@, pat@, index as int);
                }
                let rest_len: usize = rest.len();
                assert(index + 8 <= rest_len);
                let after = slice_from(&rest, index + 8);
                match find_chars(&after, &quote) {
                    None => {
                        assert(paths@.map_values(|s: String| s@) =~= lined + call_imports(
                            input@,
                            prefix@,
                        ));
                        break;
                    },
                    Some(k) => {
                        proof {
                            lemma_find_some(after@, quote@, k as int);
                        }
                        let path = string_of_range(&after, 0, k);
                        assert(path@ == after@.take(k as int));
                        let pv = chars_of(path.as_str());
                        if starts_with_chars(&pv, &pre) {
                            paths.push(path);
                        }
                        let after_len: usize = after.len();
                        assert(k + 1 <= after_len);
                        let next = slice_from(&after, k + 1);
                        assert(paths@.map_values(|s: String| s@) + call_imports(next@, prefix@)
                            =~= lined + call_imports(input@, prefix@));
                        rest = next;
                    },
                }
            },
        }
    }
    paths
}

/// The entrypoint's `schemaVersion` line, trimmed, or `schemaVersion = 0`.
pub fn schema_version_line(entrypoint: &str) -> (r: String)
    ensures
        r@ == schema_line(entrypoint@),
{
    let v = chars_of(entrypoint);
    let ls = lines_of(&v);
    let key = chars_of("schemaVersion");
    let ghost all = views(ls@);
    let mut i: usize = 0;
    assert(all.skip(0) =~= all);
    while i < ls.len()
        invariant
            all == views(ls@),
            all == lines(entrypoint@),
            key@ == "schemaVersion"@,
            0 <= i <= ls@.len(),
            first_schema_line(all) == first_schema_line(all.skip(i as int)),
        decreases ls@.len() - i,
    {
        let ghost rest = all.skip(i as int);
        assert(rest[0] == ls@[i as int]@);
        assert(rest.drop_first() =~= all.skip(i + 1));
        let l = ls[i].as_slice();
        let a = trim_start_index(l);
        let tail = slice_from(l, a);
        if starts_with_chars(&tail, &key) {
            let (x, y) = trim_bounds(l);
            return string_of_range(l, x, y);
        }
        i += 1;
    }
    assert(all.skip(i as int) =~= Seq::<Seq<char>>::empty());
    crate::text::string_from("schemaVersion = 0")
}

/// Where a scan for a closing brace stands: the nesting depth, and whether
/// it is inside a string (just after a backslash in it) or a comment.
pub struct ScanState {
    pub depth: nat,
    pub escaped: bool,
    pub in_string: bool,
    pub in_line_comment: bool,
    pub in_block_comment: bool,
}

pub open spec fn scan_start() -> ScanState {
    ScanState {
        depth: 0,
        escaped: false,
        in_string: false,
        in_line_comment: false,
        in_block_comment: false,
    }
}

pub open spec fn with_flags(st: ScanState, escaped: bool, in_string: bool, line: bool, block: bool) -> ScanState {
    ScanState {
        depth: st.depth,
        escaped,
        in_string,
        in_line_comment: line,
        in_block_comment: block,
    }
}

pub open spec fn with_depth(st: ScanState, depth: nat) -> ScanState {
    ScanState {
        depth,
        escaped: st.escaped,
        in_string: st.in_string,
        in_line_comment: st.in_line_comment,
        in_block_comment: st.in_block_comment,
    }
}

/// The position, from `i` on, of the brace that closes the block the scan
/// is in: braces inside strings (with backslash escapes), `//` line
/// comments and `/* */` block comments do not count; a closing brace at
/// depth zero ends the scan with nothing.
pub open spec fn brace_scan(s: Seq<char>, i: int, st: ScanState) -> Option<int>
    decreases s.len() - i,
{
    if i < 0 || i >= s.len() {
        None
    } else {
        let c = s[i];
        if st.in_line_comment {
            brace_scan(s, i + 1, with_flags(st, st.escaped, st.in_string, c != '\n', false))
        } else if st.in_block_comment {
            brace_scan(
                s,
                i + 1,
                with_flags(st, st.escaped, st.in_string, false, !(c == '*' && occurs_at(s, "*/"@, i))),
            )
        } else if st.in_string {
            if st.escaped {
                brace_scan(s, i + 1, with_flags(st, false, true, false, false))
            } else if c == '\\' {
                brace_scan(s, i + 1, with_flags(st, true, true, false, false))
            } else if c == '"' {
                brace_scan(s, i + 1, with_flags(st, false, false, false, false))
            } else {
                brace_scan(s, i + 1, st)
            }
        } else if c == '"' {
            brace_scan(s, i + 1, with_flags(st, st.escaped, true, false, false))
        } else if c == '/' && occurs_at(s, "//"@, i) {
            brace_scan(s, i + 1, with_flags(st, st.escaped, false, true, false))
        } else if c == '/' && occurs_at(s, "/*"@, i) {
            brace_scan(s, i + 1, with_flags(st, st.escaped, false, false, true))
        } else if c == '{' {
            brace_scan(s, i + 1, with_depth(st, st.depth + 1))
        } else if c == '}' {
            if st.depth == 0 {
                None
            } else if st.depth == 1 {
                Some(i)
            } else {
                brace_scan(s, i + 1, with_depth(st, (st.depth - 1) as nat))
            }
        } else {
            brace_scan(s, i + 1, st)
        }
    }
}

pub proof fn lemma_brace_scan_range(s: Seq<char>, i: int, st: ScanState)
    ensures
        brace_scan(s, i, st) matches Some(e) ==> i <= e < s.len(),
    decreases s.len() - i,
{
    if 0 <= i < s.len() {
        lemma_brace_scan_range(s, i + 1, with_flags(st, st.escaped, st.in_string, s[i] != '\n', false));
        lemma_brace_scan_range(
            s,
            i + 1,
            with_flags(st, st.escaped, st.in_string, false, !(s[i] == '*' && occurs_at(s, "*/"@, i))),
        );
        lemma_brace_scan_range(s, i + 1, with_flags(st, false, true, false, false));
        lemma_brace_scan_range(s, i + 1, with_flags(st, true, true, false, false));
        lemma_brace_scan_range(s, i + 1, with_flags(st, false, false, false, false));
        lemma_brace_scan_range(s, i + 1, st);
        lemma_brace_scan_range(s, i + 1, with_flags(st, st.escaped, true, false, false));
        lemma_brace_scan_range(s, i + 1, with_flags(st, st.escaped, false, true, false));
        lemma_brace_scan_range(s, i + 1, with_flags(st, st.escaped, false, false, true));
        lemma_brace_scan_range(s, i + 1, with_depth(st, st.depth + 1));
        if st.depth >= 1 {
            lemma_brace_scan_range(s, i + 1, with_depth(st, (st.depth - 1) as nat));
        }
    }
}

/// What reading position `i` does to the scan state: comments and strings
/// open and close, and braces outside them change the depth.
pub open spec fn scan_step(s: Seq<char>, i: int, st: ScanState) -> ScanState {
    let c = s[i];
    if st.in_line_comment {
        with_flags(st, st.escaped, st.in_string, c != '\n', false)
    } else if st.in_block_comment {
        with_flags(st, st.escaped, st.in_string, false, !(c == '*' && occurs_at(s, "*/"@, i)))
    } else if st.in_string {
        if st.escaped {
            with_flags(st, false, true, false, false)
        } else if c == '\\' {
            with_flags(st, true, true, false, false)
        } else if c == '"' {
            with_flags(st, false, false, false, false)
        } else {
            st
        }
    } else if c == '"' {
        with_flags(st, st.escaped, true, false, false)
    } else if c == '/' && occurs_at(s, "//"@, i) {
        with_flags(st, st.escaped, false, true, false)
    } else if c == '/' && occurs_at(s, "/*"@, i) {
        with_flags(st, st.escaped, false, false, true)
    } else if c == '{' {
        with_depth(st, st.depth + 1)
    } else if c == '}' && st.depth >= 2 {
        with_depth(st, (st.depth - 1) as nat)
    } else {
        st
    }
}

/// The scan state just before position `j`, having read `s[i..j]` from
/// state `st`.
pub open spec fn state_at(s: Seq<char>, i: int, st: ScanState, j: int) -> ScanState
    decreases j - i,
{
    if j <= i {
        st
    } else {
        scan_step(s, j - 1, state_at(s, i, st, j - 1))
    }
}

/// A closing brace outside strings and comments at depth one or zero: the
/// scan ends there.
pub open spec fn stops_at(s: Seq<char>, i: int, st: ScanState) -> bool {
    !st.in_line_comment && !st.in_block_comment && !st.in_string && s[i] == '}' && st.depth <= 1
}

/// `e` is the first position from `i` on where the scan ends.
pub open spec fn first_stop(s: Seq<char>, i: int, st: ScanState, e: int) -> bool {
    &&& i <= e < s.len()
    &&& stops_at(s, e, state_at(s, i, st, e))
    &&& forall|j: int| i <= j < e ==> !stops_at(s, j, #[trigger] state_at(s, i, st, j))
}

/// The brace match in direct terms: the first closing brace outside strings
/// and comments at which the depth counted from `i` comes back to one;
/// nothing when the first such brace finds the depth at zero, or there is
/// none.
pub open spec fn brace_close(s: Seq<char>, i: int, st: ScanState) -> Option<int> {
    if exists|e: int| #[trigger] first_stop(s, i, st, e) {
        let e = choose|e: int| #[trigger] first_stop(s, i, st, e);
        if state_at(s, i, st, e).depth == 1 {
            Some(e)
        } else {
            None
        }
    } else {
        None
    }
}

proof fn lemma_state_at_shift(s: Seq<char>, i: int, st: ScanState, j: int)
    requires
        i < j,
    ensures
        state_at(s, i, st, j) == state_at(s, i + 1, scan_step(s, i, st), j),
    decreases j - i,
{
    let next = scan_step(s, i, st);
    assert(state_at(s, i, st, i) == st);
    if j > i + 1 {
        lemma_state_at_shift(s, i, st, j - 1);
        assert(state_at(s, i, st, j) == scan_step(s, j - 1, state_at(s, i, st, j - 1)));
        assert(state_at(s, i + 1, next, j) == scan_step(s, j - 1, state_at(s, i + 1, next, j - 1)));
    } else {
        assert(state_at(s, i + 1, next, i + 1) == next);
    }
}

proof fn lemma_first_stop_unique(s: Seq<char>, i: int, st: ScanState, a: int, b: int)
    requires
        first_stop(s, i, st, a),
        first_stop(s, i, st, b),
    ensures
        a == b,
{
    if a < b {
        assert(!stops_at(s, a, state_at(s, i, st, a)));
    }
    if b < a {
        assert(!stops_at(s, b, state_at(s, i, st, b)));
    }
}

/// The scan finds what the direct statement says: the closing brace it
/// returns is the first position where braces outside strings and comments
/// balance.
pub proof fn lemma_brace_scan_direct(s: Seq<char>, i: int, st: ScanState)
    requires
        0 <= i,
    ensures
        brace_scan(s, i, st) == brace_close(s, i, st),
    decreases s.len() - i,
{
    if i >= s.len() {
        assert(!exists|e: int| #[trigger] first_stop(s, i, st, e));
    } else if stops_at(s, i, st) {
        assert(state_at(s, i, st, i) == st);
        assert(first_stop(s, i, st, i));
        let e = choose|e: int| #[trigger] first_stop(s, i, st, e);
        lemma_first_stop_unique(s, i, st, i, e);
        assert(brace_close(s, i, st) == if st.depth == 1 { Some(i) } else { None::<int> });
    } else {
        let next = scan_step(s, i, st);
        lemma_brace_scan_direct(s, i + 1, next);
        assert(brace_scan(s, i, st) == brace_scan(s, i + 1, next));
        assert forall|e: int| first_stop(s, i, st, e) <==> first_stop(s, i + 1, next, e) by {
            if i < e {
                lemma_state_at_shift(s, i, st, e);
                assert forall|j: int| i + 1 <= j < e implies state_at(s, i, st, j) == state_at(
                    s,
                    i + 1,
                    next,
                    j,
                ) by {
                    lemma_state_at_shift(s, i, st, j);
                }
                if first_stop(s, i + 1, next, e) {
                    assert forall|j: int| i <= j < e implies !stops_at(
                        s,
                        j,
                        #[trigger] state_at(s, i, st, j),
                    ) by {
                        if j > i {
                            assert(state_at(s, i, st, j) == state_at(s, i + 1, next, j));
                        }
                    }
                }
                if first_stop(s, i, st, e) {
                    assert forall|j: int| i + 1 <= j < e implies !stops_at(
                        s,
                        j,
                        #[trigger] state_at(s, i + 1, next, j),
                    ) by {
                        assert(state_at(s, i, st, j) == state_at(s, i + 1, next, j));
                    }
                }
            } else if e == i {
                assert(state_at(s, i, st, i) == st);
            }
        }
        if exists|e: int| #[trigger] first_stop(s, i, st, e) {
            let a = choose|e: int| #[trigger] first_stop(s, i, st, e);
            let b = choose|e: int| #[trigger] first_stop(s, i + 1, next, e);
            assert(first_stop(s, i + 1, next, a));
            lemma_first_stop_unique(s, i + 1, next, a, b);
            lemma_state_at_shift(s, i, st, a);
            assert(brace_close(s, i, st) == brace_close(s, i + 1, next));
        } else if exists|e: int| #[trigger] first_stop(s, i + 1, next, e) {
            let b = choose|e: int| #[trigger] first_stop(s, i + 1, next, e);
            assert(first_stop(s, i, st, b));
        }
    }
}

/// The position of the brace closing the one at `open_index` (positions
/// count characters), skipping braces in strings and comments.
pub fn matching_brace(input: &[char], open_index: usize) -> (r: Option<usize>)
    requires
        open_index <= input@.len(),
    ensures
        match r {
            Some(e) => brace_scan(input@, open_index as int, scan_start()) == Some(e as int),
            None => brace_scan(input@, open_index as int, scan_start()) is None,
        },
{
    let line = chars_of("//");
    let block_open = chars_of("/*");
    let block_close = chars_of("*/");
    let mut depth: usize = 0;
    let mut escaped = false;
    let mut in_string = false;
    let mut in_line_comment = false;
    let mut in_block_comment = false;
    let mut i: usize = open_index;
    while i < input.len()
        invariant
            line@ == "//"@,
            block_open@ == "/*"@,
            block_close@ == "*/"@,
            open_index <= i <= input@.len(),
            depth <= i - open_index,
            brace_scan(input@, open_index as int, scan_start()) == brace_scan(
                input@,
                i as int,
                ScanState {
                    depth: depth as nat,
                    escaped,
                    in_string,
                    in_line_comment,
                    in_block_comment,
                },
            ),
        decreases input@.len() - i,
    {
        let c = input[i];
        if in_line_comment {
            if c == '\n' {
                in_line_comment = false;
            }
            in_block_comment = false;
        } else if in_block_comment {
            if c == '*' && crate::text::occurs_at_exec(input, &block_close, i) {
                in_block_comment = false;
            }
        } else if in_string {
            if escaped {
                escaped = false;
            } else if c == '\\' {
                escaped = true;
            } else if c == '"' {
                in_string = false;
            }
        } else if c == '"' {
            in_string = true;
        } else if c == '/' && crate::text::occurs_at_exec(input, &line, i) {
            in_line_comment = true;
        } else if c == '/' && crate::text::occurs_at_exec(input, &block_open, i) {
            in_block_comment = true;
        } else if c == '{' {
            depth += 1;
        } else if c == '}' {
            if depth == 0 {
                return None;
            }
            depth -= 1;
            if depth == 0 {
                return Some(i);
            }
        }
        i += 1;
    }
    None
}

/// The body of the `section = new { ... }` block, without the braces; the
/// whole text when there is no such block or its braces do not balance.
pub open spec fn section_body(s: Seq<char>, section: Seq<char>) -> Seq<char> {
    match find(s, section + " = new"@) {
        Some(start) => match find(s.skip(start), seq!['{']) {
            Some(o) => match brace_scan(s, start + o, scan_start()) {
                Some(e) => s.subrange(start + o + 1, e),
                None => s,
            },
            None => s,
        },
        None => s,
    }
}

/// The body of the `section = new { ... }` block of a module.
pub fn unwrap_section(input: &str, section: &str) -> (r: String)
    ensures
        r@ == section_body(input@, section@),
{
    let v = chars_of(input);
    let needle_text = crate::strs::s2(section, " = new");
    let needle = chars_of(needle_text.as_str());
    let start = match find_chars(&v, &needle) {
        Some(k) => k,
        None => return crate::text::string_from(input),
    };
    proof {
        lemma_find_some(v@, needle@, start as int);
    }
    let tail = slice_from(&v, start);
    let brace = chars_of("{");
    proof {
        reveal_strlit("{");
        assert(brace@ =~= seq!['{']);
    }
    let open_rel = match find_chars(&tail, &brace) {
        Some(k) => k,
        None => return crate::text::string_from(input),
    };
    proof {
        lemma_find_some(tail@, brace@, open_rel as int);
        assert(tail@.subrange(open_rel as int, open_rel + 1)[0] == tail@[open_rel as int]);
        assert(tail@[open_rel as int] == '{');
        assert(v@[start + open_rel] == tail@[open_rel as int]);
        lemma_brace_scan_range(v@, start + open_rel, scan_start());
        lemma_brace_scan_range(v@, start + open_rel + 1, with_depth(scan_start(), 1));
    }
    let v_len: usize = v.len();
    assert(start + open_rel < v_len);
    let open = start + open_rel;
    match matching_brace(&v, open) {
        Some(end) => string_of_range(&v, open + 1, end),
        None => crate::text::string_from(input),
    }
}

/// The module texts of a modular topology, read by the caller: the
/// entrypoint, the schema, the shared names, the link and host modules in
/// the order [`imported_paths`] gives, the domain and service modules, and
/// the deployment and trust modules where they exist.
pub struct ModularSources {
    pub entrypoint: String,
    pub schema: String,
    pub shared_names: String,
    pub links: Vec<String>,
    pub hosts: Vec<String>,
    pub domains: String,
    pub services: String,
    pub deployment: Option<String>,
    pub trust: Option<String>,
}

/// A module's text without imports and without the `S.` and `N.` module
/// qualifiers.
pub open spec fn unqualified(s: Seq<char>) -> Seq<char> {
    replace_all(replace_all(without_imports(s), "new S."@, "new "@), "N.names."@, "names."@)
}

/// The trust module's text without imports and module qualifiers, type
/// arguments included.
pub open spec fn unqualified_trust(s: Seq<char>) -> Seq<char> {
    replace_all(
        replace_all(replace_all(without_imports(s), "new S."@, "new "@), "<S."@, "<"@),
        "N.names."@,
        "names."@,
    )
}

pub open spec fn section_fn(section: Seq<char>) -> spec_fn(int, Seq<char>) -> Seq<char> {
    |i: int, m: Seq<char>| section_body(replace_all(without_imports(m), "new S."@, "new "@), section)
}

pub open spec fn flatten_header() -> Seq<char> {
    "// Generated compatibility topology. Edit the modular topology source instead.\n\n"@
}

/// The self-contained topology before its final newline is ensured.
pub open spec fn flattened_body(src: ModularSources) -> Seq<char> {
    flatten_header() + without_imports(src.schema@) + "\n\n"@ + schema_line(src.entrypoint@)
        + "\n\nlinks = new {\n"@ + flat_map(src.links@.map_values(|m: String| m@), section_fn("links"@))
        + "}\n\nhosts = new {\n"@ + flat_map(src.hosts@.map_values(|m: String| m@), section_fn("hosts"@))
        + "}\n\n"@ + without_imports(src.shared_names@) + "\n\n"@ + unqualified(src.domains@)
        + "\n\n"@ + unqualified(src.services@) + match src.deployment {
        Some(d) => "\n\n"@ + unqualified(d@),
        None => "\n\ndeployment = new Deployment {}\n"@,
    } + match src.trust {
        Some(t) => "\n\n"@ + unqualified_trust(t@),
        None => "\n\ntrust = new Trust {}\n"@,
    }
}

/// The self-contained topology, ending in a newline.
pub open spec fn flattened(src: ModularSources) -> Seq<char> {
    let b = flattened_body(src);
    if b.len() > 0 && b.last() == '\n' {
        b
    } else {
        b.push('\n')
    }
}

/// The text before the deployment section of the flattened body.
pub open spec fn before_deployment(src: ModularSources) -> Seq<char> {
    flatten_header() + without_imports(src.schema@) + "\n\n"@ + schema_line(src.entrypoint@)
        + "\n\nlinks = new {\n"@ + flat_map(src.links@.map_values(|m: String| m@), section_fn("links"@))
        + "}\n\nhosts = new {\n"@ + flat_map(src.hosts@.map_values(|m: String| m@), section_fn("hosts"@))
        + "}\n\n"@ + without_imports(src.shared_names@) + "\n\n"@ + unqualified(src.domains@)
        + "\n\n"@ + unqualified(src.services@)
}

proof fn lemma_flattened_has(src: ModularSources, x: Seq<char>, k: int)
    requires
        occurs_at(flattened_body(src), x, k),
    ensures
        occurs_at(flattened(src), x, k),
{
    let b = flattened_body(src);
    if !(b.len() > 0 && b.last() == '\n') {
        assert(b.push('\n').subrange(k, k + x.len()) =~= b.subrange(k, k + x.len()));
    }
}

/// The flattened topology keeps the module texts: the domains, services,
/// deployment and trust modules each stand in it whole, imports removed and
/// module qualifiers dropped; a missing deployment or trust module stands
/// as an empty one.
pub proof fn lemma_flattened_keeps_modules(src: ModularSources)
    ensures
        exists|k: int| #[trigger] occurs_at(flattened(src), unqualified(src.domains@), k),
        exists|k: int| #[trigger] occurs_at(flattened(src), unqualified(src.services@), k),
        src.deployment matches Some(d) ==> exists|k: int|
            #[trigger] occurs_at(flattened(src), unqualified(d@), k),
        src.deployment is None ==> exists|k: int|
            #[trigger] occurs_at(flattened(src), "deployment = new Deployment {}\n"@, k),
        src.trust matches Some(tr) ==> exists|k: int|
            #[trigger] occurs_at(flattened(src), unqualified_trust(tr@), k),
        src.trust is None ==> exists|k: int|
            #[trigger] occurs_at(flattened(src), "trust = new Trust {}\n"@, k),
{
    let b = flattened_body(src);
    let a = before_deployment(src);
    let dep = match src.deployment {
        Some(d) => "\n\n"@ + unqualified(d@),
        None => "\n\ndeployment = new Deployment {}\n"@,
    };
    let tr = match src.trust {
        Some(t) => "\n\n"@ + unqualified_trust(t@),
        None => "\n\ntrust = new Trust {}\n"@,
    };
    assert(b == a + dep + tr);
    reveal_strlit("\n\n");
    let sv = unqualified(src.services@);
    let dm = unqualified(src.domains@);
    let pre = flatten_header() + without_imports(src.schema@) + "\n\n"@ + schema_line(src.entrypoint@)
        + "\n\nlinks = new {\n"@ + flat_map(src.links@.map_values(|m: String| m@), section_fn("links"@))
        + "}\n\nhosts = new {\n"@ + flat_map(src.hosts@.map_values(|m: String| m@), section_fn("hosts"@))
        + "}\n\n"@ + without_imports(src.shared_names@) + "\n\n"@;
    assert(a == pre + dm + "\n\n"@ + sv);
    let ad: int = pre.len() as int;
    assert(b.subrange(ad, ad + dm.len()) =~= dm);
    lemma_flattened_has(src, dm, ad);
    let ks: int = pre.len() as int + dm.len() as int + 2;
    assert(b.subrange(ks, ks + sv.len()) =~= sv);
    lemma_flattened_has(src, sv, ks);
    let x = match src.deployment {
        Some(d) => unqualified(d@),
        None => "deployment = new Deployment {}\n"@,
    };
    if src.deployment is None {
        reveal_strlit("\n\ndeployment = new Deployment {}\n");
        reveal_strlit("deployment = new Deployment {}\n");
    }
    assert(dep =~= "\n\n"@ + x);
    let kd: int = a.len() as int + 2;
    assert(b.subrange(kd, kd + x.len()) =~= x);
    lemma_flattened_has(src, x, kd);
    let y = match src.trust {
        Some(t) => unqualified_trust(t@),
        None => "trust = new Trust {}\n"@,
    };
    if src.trust is None {
        reveal_strlit("\n\ntrust = new Trust {}\n");
        reveal_strlit("trust = new Trust {}\n");
    }
    assert(tr =~= "\n\n"@ + y);
    let kt: int = a.len() as int + dep.len() as int + 2;
    assert(b.subrange(kt, kt + y.len()) =~= y);
    lemma_flattened_has(src, y, kt);
}

fn append_sections(out: &mut String, modules: &Vec<String>, section: &str)
    ensures
        final(out)@ == old(out)@ + flat_map(modules@.map_values(|m: String| m@), section_fn(section@)),
{
    let ghost ms = modules@.map_values(|m: String| m@);
    let ghost f = section_fn(section@);
    let ghost start = out@;
    let mut i: usize = 0;
    while i < modules.len()
        invariant
            ms == modules@.map_values(|m: String| m@),
            f == section_fn(section@),
            0 <= i <= modules@.len(),
            out@ == start + flat_map(ms.take(i as int), f),
        decreases modules@.len() - i,
    {
        proof {
            lemma_flat_map_step(ms, f, i as int);
        }
        let stripped = strip_imports(modules[i].as_str());
        let renamed = replace_all_str(stripped.as_str(), "new S.", "new ");
        let body = unwrap_section(renamed.as_str(), section);
        append_str(out, body.as_str());
        assert(out@ =~= start + flat_map(ms.take(i + 1), f));
        i += 1;
    }
    proof {
        lemma_flat_map_all(ms, f);
    }
}

fn unqualified_exec(s: &str) -> (r: String)
    ensures
        r@ == unqualified(s@),
{
    let a = strip_imports(s);
    let b = replace_all_str(a.as_str(), "new S.", "new ");
    replace_all_str(b.as_str(), "N.names.", "names.")
}

/// Renders a modular topology as one self-contained Pkl file, for
/// evaluators that cannot resolve local aggregate imports.
pub fn flatten_sources(src: &ModularSources) -> (r: String)
    ensures
        r@ == flattened(*src),
{
    let mut out = crate::text::string_from(
        "// Generated compatibility topology. Edit the modular topology source instead.\n\n",
    );
    let schema = strip_imports(src.schema.as_str());
    append_str(&mut out, schema.as_str());
    append_str(&mut out, "\n\n");
    let line = schema_version_line(src.entrypoint.as_str());
    append_str(&mut out, line.as_str());
    append_str(&mut out, "\n\nlinks = new {\n");
    append_sections(&mut out, &src.links, "links");
    append_str(&mut out, "}\n\nhosts = new {\n");
    append_sections(&mut out, &src.hosts, "hosts");
    append_str(&mut out, "}\n\n");
    let names = strip_imports(src.shared_names.as_str());
    append_str(&mut out, names.as_str());
    append_str(&mut out, "\n\n");
    let domains = unqualified_exec(src.domains.as_str());
    append_str(&mut out, domains.as_str());
    append_str(&mut out, "\n\n");
    let services = unqualified_exec(src.services.as_str());
    append_str(&mut out, services.as_str());
    match &src.deployment {
        Some(d) => {
            append_str(&mut out, "\n\n");
            let deployment = unqualified_exec(d.as_str());
            append_str(&mut out, deployment.as_str());
        },
        None => {
            append_str(&mut out, "\n\ndeployment = new Deployment {}\n");
        },
    }
    match &src.trust {
        Some(t) => {
            append_str(&mut out, "\n\n");
            let a = strip_imports(t.as_str());
            let b = replace_all_str(a.as_str(), "new S.", "new ");
            let c = replace_all_str(b.as_str(), "<S.", "<");
            let trust = replace_all_str(c.as_str(), "N.names.", "names.");
            append_str(&mut out, trust.as_str());
        },
        None => {
            append_str(&mut out, "\n\ntrust = new Trust {}\n");
        },
    }
    assert(out@ =~= flattened_body(*src));
    let v = chars_of(out.as_str());
    if v.len() == 0 || v[v.len() - 1] != '\n' {
        crate::text::push_char(&mut out, '\n');
    }
    out
}

} // verus!
