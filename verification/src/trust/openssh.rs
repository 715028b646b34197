//! OpenSSH known_hosts entries. Only plain host-key lines can ever be
//! declared: hashed hostnames (`|1|...`) and `@revoked` / `@cert-authority`
//! markers are reported as skipped, and so are malformed lines.
use crate::seqs::{flat_map, lemma_flat_map_all, lemma_flat_map_step};
use crate::sorted::{sorted_of, sorted_unique, strictly_sorted};
use crate::strs::{copy, dec, s2, s3, s4, s5, str_views};
use crate::text::{
    append_str, chars_of, is_ascii_alnum, is_whitespace, is_ws, lines, lines_of, push_char,
    split_char, split_chars, starts_with, starts_with_chars, string_of, string_of_range, trim,
    trim_bounds, views, decimal,
};
use sha2::{Digest, Sha256};
use vstd::prelude::*;

verus! {

/// The OpenSSH known_hosts store.
pub struct OpenSshKnownHosts;

/// A single host-key line from known_hosts, ready for proposal or declaration.
#[derive(Debug, Clone)]
pub struct Entry {
    /// Content hash identifying this exact hostnames+key pair.
    pub id: String,
    /// Hostnames as written in the store (patterns like `[host]:port` kept),
    /// sorted, each once.
    pub host_names: Vec<String>,
    /// Key algorithm (e.g. `ssh-ed25519`).
    pub key_type: String,
    /// Base64 key body.
    pub key: String,
    /// Full `keytype base64` text, used verbatim in declarations.
    pub key_text: String,
    /// Optional trailing comment from the store line.
    pub comment: Option<String>,
    /// Fingerprint when `ssh-keygen` could validate the key.
    pub fingerprint: Option<String>,
    /// 1-based line number in the store file.
    pub line: usize,
}

/// What an entry says, as text.
pub struct EntryView {
    pub id: Seq<char>,
    pub host_names: Seq<Seq<char>>,
    pub key_type: Seq<char>,
    pub key: Seq<char>,
    pub key_text: Seq<char>,
    pub comment: Option<Seq<char>>,
    pub fingerprint: Option<Seq<char>>,
    pub line: usize,
}

pub open spec fn opt_text(o: Option<String>) -> Option<Seq<char>> {
    match o {
        Some(s) => Some(s@),
        None => None,
    }
}

impl View for Entry {
    type V = EntryView;

    open spec fn view(&self) -> EntryView {
        EntryView {
            id: self.id@,
            host_names: str_views(self.host_names@),
            key_type: self.key_type@,
            key: self.key@,
            key_text: self.key_text@,
            comment: opt_text(self.comment),
            fingerprint: opt_text(self.fingerprint),
            line: self.line,
        }
    }
}

/// The SHA-256 digest of a text's UTF-8 bytes, as `sha2::Sha256` computes it.
pub uninterp spec fn sha256(text: Seq<char>) -> Seq<u8>;

/// `sha2::Sha256::digest` of the UTF-8 bytes of `text`: the 32-byte digest,
/// claimed to be a function of the text alone.
#[verifier::external_body]
fn sha256_of(text: &str) -> (r: Vec<u8>)
    ensures
        r@ == sha256(text@),
        r@.len() == 32,
{
    Sha256::digest(text.as_bytes()).to_vec()
}

/// The lower-case hexadecimal digit of a value below 16.
pub open spec fn hex_digit(d: u8) -> char {
    if d == 0 { '0' }
    else if d == 1 { '1' }
    else if d == 2 { '2' }
    else if d == 3 { '3' }
    else if d == 4 { '4' }
    else if d == 5 { '5' }
    else if d == 6 { '6' }
    else if d == 7 { '7' }
    else if d == 8 { '8' }
    else if d == 9 { '9' }
    else if d == 10 { 'a' }
    else if d == 11 { 'b' }
    else if d == 12 { 'c' }
    else if d == 13 { 'd' }
    else if d == 14 { 'e' }
    else { 'f' }
}

pub open spec fn hex_fn() -> spec_fn(int, u8) -> Seq<char> {
    |i: int, b: u8| seq![hex_digit(b / 16), hex_digit(b % 16)]
}

/// Two lower-case hexadecimal digits per byte.
pub open spec fn hex_of(bytes: Seq<u8>) -> Seq<char> {
    flat_map(bytes, hex_fn())
}

/// A lower-case hexadecimal digit.
pub open spec fn is_lower_hex(c: char) -> bool {
    ('0' <= c && c <= '9') || ('a' <= c && c <= 'f')
}

/// The hexadecimal rendering has two digits per byte, each a lower-case
/// hexadecimal digit.
pub proof fn lemma_hex_len(bytes: Seq<u8>)
    ensures
        hex_of(bytes).len() == 2 * bytes.len(),
        forall|i: int| 0 <= i < hex_of(bytes).len() ==> is_lower_hex(#[trigger] hex_of(bytes)[i]),
    decreases bytes.len(),
{
    if bytes.len() > 0 {
        lemma_hex_len(bytes.drop_last());
        let p = hex_of(bytes.drop_last());
        let b = bytes.last();
        let tail = seq![hex_digit(b / 16), hex_digit(b % 16)];
        assert(hex_of(bytes) == p + tail);
        assert(is_lower_hex(tail[0]) && is_lower_hex(tail[1]));
        assert forall|i: int| 0 <= i < hex_of(bytes).len() implies is_lower_hex(
            #[trigger] hex_of(bytes)[i],
        ) by {
            if i < p.len() {
                assert(hex_of(bytes)[i] == p[i]);
            } else {
                assert(hex_of(bytes)[i] == tail[i - p.len()]);
            }
        }
    }
}

fn hex_char(d: u8) -> (c: char)
    requires
        d < 16,
    ensures
        c == hex_digit(d),
{
    if d == 0 { '0' }
    else if d == 1 { '1' }
    else if d == 2 { '2' }
    else if d == 3 { '3' }
    else if d == 4 { '4' }
    else if d == 5 { '5' }
    else if d == 6 { '6' }
    else if d == 7 { '7' }
    else if d == 8 { '8' }
    else if d == 9 { '9' }
    else if d == 10 { 'a' }
    else if d == 11 { 'b' }
    else if d == 12 { 'c' }
    else if d == 13 { 'd' }
    else if d == 14 { 'e' }
    else { 'f' }
}

/// Lower-case hexadecimal rendering of bytes.
pub fn hex(bytes: &[u8]) -> (r: String)
    ensures
        r@ == hex_of(bytes@),
{
    let ghost f = hex_fn();
    let mut out = String::new();
    let mut i: usize = 0;
    while i < bytes.len()
        invariant
            f == hex_fn(),
            0 <= i <= bytes@.len(),
            out@ == flat_map(bytes@.take(i as int), f),
        decreases bytes@.len() - i,
    {
        proof {
            lemma_flat_map_step(bytes@, f, i as int);
        }
        let b = bytes[i];
        push_char(&mut out, hex_char(b / 16));
        push_char(&mut out, hex_char(b % 16));
        i += 1;
    }
    proof {
        lemma_flat_map_all(bytes@, f);
    }
    out
}

pub open spec fn name_line_fn() -> spec_fn(int, Seq<char>) -> Seq<char> {
    |i: int, n: Seq<char>| n + seq!['\n']
}

/// The text an entry id hashes: each host name once, in sorted order, each
/// followed by a line feed, then the key text.
pub open spec fn id_text(names: Set<Seq<char>>, key_text: Seq<char>) -> Seq<char> {
    flat_map(sorted_of(names), name_line_fn()) + key_text
}

/// The id of an entry with these host names and key text.
pub open spec fn entry_id_of(names: Set<Seq<char>>, key_text: Seq<char>) -> Seq<char> {
    hex_of(sha256(id_text(names, key_text)))
}

/// Deterministic proposal id: sorted unique hostnames + key text. It is
/// 64 lower-case hexadecimal digits long.
pub fn entry_id(host_names: &[String], key_text: &str) -> (r: String)
    ensures
        r@ == entry_id_of(str_views(host_names@).to_set(), key_text@),
        r@.len() == 64,
        forall|i: int| 0 <= i < r@.len() ==> is_lower_hex(#[trigger] r@[i]),
{
    let names = sorted_unique(host_names);
    let ghost ns = str_views(names@);
    let ghost f = name_line_fn();
    let mut text = String::new();
    let mut i: usize = 0;
    while i < names.len()
        invariant
            ns == str_views(names@),
            f == name_line_fn(),
            0 <= i <= names@.len(),
            text@ == flat_map(ns.take(i as int), f),
        decreases names@.len() - i,
    {
        proof {
            lemma_flat_map_step(ns, f, i as int);
        }
        append_str(&mut text, names[i].as_str());
        push_char(&mut text, '\n');
        assert(text@ =~= flat_map(ns.take(i + 1), f));
        i += 1;
    }
    proof {
        lemma_flat_map_all(ns, f);
    }
    append_str(&mut text, key_text);
    let digest = sha256_of(text.as_str());
    proof {
        lemma_hex_len(digest@);
    }
    hex(digest.as_slice())
}

/// The whitespace-separated fields of a line (`str::split_whitespace`).
pub open spec fn words(s: Seq<char>) -> Seq<Seq<char>>
    decreases s.len(),
{
    if s.len() == 0 {
        Seq::empty()
    } else {
        let prev = words(s.drop_last());
        let c = s.last();
        if is_ws(c) {
            prev
        } else if s.len() >= 2 && !is_ws(s[s.len() - 2]) {
            prev.update(prev.len() - 1, prev.last().push(c))
        } else {
            prev.push(seq![c])
        }
    }
}

pub proof fn lemma_words_nonempty(s: Seq<char>)
    requires
        s.len() > 0,
        !is_ws(s.last()),
    ensures
        words(s).len() > 0,
    decreases s.len(),
{
    if s.len() >= 2 && !is_ws(s[s.len() - 2]) {
        lemma_words_nonempty(s.drop_last());
    }
}

/// The whitespace-separated fields of a line.
pub fn split_whitespace_chars(v: &[char]) -> (r: Vec<Vec<char>>)
    ensures
        views(r@) == words(v@),
{
    let mut r: Vec<Vec<char>> = Vec::new();
    let mut i: usize = 0;
    while i < v.len()
        invariant
            0 <= i <= v@.len(),
            views(r@) == words(v@.take(i as int)),
        decreases v@.len() - i,
    {
        let ghost t = v@.take(i + 1);
        assert(t.drop_last() =~= v@.take(i as int));
        let c = v[i];
        if is_whitespace(c) {
        } else if i >= 1 && !is_whitespace(v[i - 1]) {
            proof {
                assert(v@.take(i as int).last() == v@[i - 1]);
                lemma_words_nonempty(v@.take(i as int));
            }
            let ghost before = views(r@);
            let mut w = r.pop().unwrap();
            w.push(c);
            r.push(w);
            assert(views(r@) =~= before.update(before.len() - 1, before.last().push(c)));
        } else {
            let ghost before = views(r@);
            let mut w: Vec<char> = Vec::new();
            w.push(c);
            r.push(w);
            assert(views(r@) =~= before.push(seq![c]));
        }
        i += 1;
    }
    assert(v@.take(v@.len() as int) =~= v@);
    r
}

/// The first of `ws` that begins with `p`, if any.
pub open spec fn first_with_prefix(ws: Seq<Seq<char>>, p: Seq<char>) -> Option<Seq<char>>
    decreases ws.len(),
{
    if ws.len() == 0 {
        None
    } else if starts_with(ws[0], p) {
        Some(ws[0])
    } else {
        first_with_prefix(ws.drop_first(), p)
    }
}

/// The `SHA256:` fingerprint that `ssh-keygen -l` prints for a key: the first
/// whitespace-separated field of its output that begins with `SHA256:`.
pub fn fingerprint_token(output: &str) -> (r: Option<String>)
    ensures
        opt_text(r) == first_with_prefix(words(output@), "SHA256:"@),
{
    let v = chars_of(output);
    let fields = split_whitespace_chars(&v);
    let prefix = chars_of("SHA256:");
    let ghost ws = words(output@);
    assert(ws.skip(0) =~= ws);
    let mut i: usize = 0;
    while i < fields.len()
        invariant
            0 <= i <= fields@.len(),
            views(fields@) == ws,
            ws == words(output@),
            prefix@ == "SHA256:"@,
            first_with_prefix(ws, "SHA256:"@) == first_with_prefix(ws.skip(i as int), "SHA256:"@),
        decreases fields@.len() - i,
    {
        let ghost rest = ws.skip(i as int);
        assert(rest[0] == fields@[i as int]@);
        assert(rest.drop_first() =~= ws.skip(i + 1));
        if starts_with_chars(fields[i].as_slice(), prefix.as_slice()) {
            let found = string_of(fields[i].as_slice());
            assert(first_with_prefix(rest, "SHA256:"@) == Some(rest[0]));
            return Some(found);
        }
        assert(first_with_prefix(rest, "SHA256:"@) == first_with_prefix(rest.drop_first(), "SHA256:"@));
        i += 1;
    }
    assert(ws.skip(i as int).len() == 0);
    None
}

pub open spec fn key_type_char(c: char) -> bool {
    is_ascii_alnum(c) || c == '-'
}

pub open spec fn key_body_char(c: char) -> bool {
    is_ascii_alnum(c) || c == '+' || c == '/' || c == '='
}

pub open spec fn host_name_fn() -> spec_fn(int, Seq<char>) -> Seq<Seq<char>> {
    |i: int, n: Seq<char>|
        if trim(n).len() > 0 {
            seq![trim(n)]
        } else {
            Seq::empty()
        }
}

/// The non-empty trimmed names of a comma-separated host field.
pub open spec fn host_field_names(field: Seq<char>) -> Seq<Seq<char>> {
    flat_map(split_char(field, ','), host_name_fn())
}

/// The first 24 characters.
pub open spec fn first_24(s: Seq<char>) -> Seq<char> {
    if s.len() <= 24 {
        s
    } else {
        s.take(24)
    }
}

/// What one known_hosts line gives: an entry; nothing for a hashed or
/// marker line, which can never be declared; or why the line is malformed.
pub open spec fn parse_line_spec(line: Seq<char>, n: usize) -> Result<Option<EntryView>, Seq<char>> {
    let f = words(line);
    if f.len() < 3 {
        Err("malformed line: expected 'hostnames keytype key'"@)
    } else if starts_with(f[0], seq!['|']) || starts_with(f[0], seq!['@']) {
        Ok(None)
    } else if !(forall|i: int| 0 <= i < f[1].len() ==> key_type_char(#[trigger] f[1][i])) {
        Err("invalid key type '"@ + first_24(f[1]) + "'"@)
    } else if f[2].len() == 0 || !(forall|i: int| 0 <= i < f[2].len() ==> key_body_char(#[trigger] f[2][i])) {
        Err("invalid base64 key body"@)
    } else if host_field_names(f[0]).len() == 0 {
        Err("empty hostname list"@)
    } else {
        let names = host_field_names(f[0]).to_set();
        let key_text = f[1] + " "@ + f[2];
        Ok(Some(EntryView {
            id: entry_id_of(names, key_text),
            host_names: sorted_of(names),
            key_type: f[1],
            key: f[2],
            key_text,
            comment: if f.len() > 3 { Some(f[3]) } else { None },
            fingerprint: None,
            line: n,
        }))
    }
}

fn all_key_type_chars(v: &[char]) -> (r: bool)
    ensures
        r == forall|i: int| 0 <= i < v@.len() ==> key_type_char(#[trigger] v@[i]),
{
    let mut i: usize = 0;
    while i < v.len()
        invariant
            0 <= i <= v@.len(),
            forall|j: int| 0 <= j < i ==> key_type_char(#[trigger] v@[j]),
        decreases v@.len() - i,
    {
        let c = v[i];
        let ok = ('a' <= c && c <= 'z') || ('A' <= c && c <= 'Z') || ('0' <= c && c <= '9') || c == '-';
        if !ok {
            return false;
        }
        i += 1;
    }
    true
}

fn all_key_body_chars(v: &[char]) -> (r: bool)
    ensures
        r == forall|i: int| 0 <= i < v@.len() ==> key_body_char(#[trigger] v@[i]),
{
    let mut i: usize = 0;
    while i < v.len()
        invariant
            0 <= i <= v@.len(),
            forall|j: int| 0 <= j < i ==> key_body_char(#[trigger] v@[j]),
        decreases v@.len() - i,
    {
        let c = v[i];
        let ok = ('a' <= c && c <= 'z') || ('A' <= c && c <= 'Z') || ('0' <= c && c <= '9') || c
            == '+' || c == '/' || c == '=';
        if !ok {
            return false;
        }
        i += 1;
    }
    true
}

fn host_field_names_exec(field: &[char]) -> (r: Vec<String>)
    ensures
        str_views(r@) == host_field_names(field@),
{
    let parts = split_chars(field, ',');
    let ghost ps = views(parts@);
    let ghost f = host_name_fn();
    let mut r: Vec<String> = Vec::new();
    let mut i: usize = 0;
    while i < parts.len()
        invariant
            ps == views(parts@),
            ps == split_char(field@, ','),
            f == host_name_fn(),
            0 <= i <= parts@.len(),
            str_views(r@) == flat_map(ps.take(i as int), f),
        decreases parts@.len() - i,
    {
        proof {
            lemma_flat_map_step(ps, f, i as int);
        }
        let ghost before = str_views(r@);
        let p = parts[i].as_slice();
        assert(ps[i as int] == p@);
        let (a, b) = trim_bounds(p);
        if a < b {
            r.push(string_of_range(p, a, b));
        }
        assert(str_views(r@) =~= before + f(i as int, ps[i as int]));
        i += 1;
    }
    proof {
        lemma_flat_map_all(ps, f);
    }
    r
}

/// Parses one known_hosts line. `Ok(None)` marks lines that are
/// structurally valid but can never be declared (hashed/marker lines).
pub fn parse_line(line: &str, line_number: usize) -> (r: Result<Option<Entry>, String>)
    ensures
        match (r, parse_line_spec(line@, line_number)) {
            (Ok(Some(e)), Ok(Some(v))) => e@ == v,
            (Ok(None), Ok(None)) => true,
            (Err(m), Err(v)) => m@ == v,
            _ => false,
        },
{
    let v = chars_of(line);
    let fields = split_whitespace_chars(&v);
    let ghost f = words(line@);
    if fields.len() < 3 {
        return Err(copy("malformed line: expected 'hostnames keytype key'"));
    }
    assert(fields@[0]@ == f[0] && fields@[1]@ == f[1] && fields@[2]@ == f[2]);
    let host_field = fields[0].as_slice();
    proof {
        if host_field@.len() > 0 {
            assert(host_field@.subrange(0, 1)[0] == host_field@[0]);
            if host_field@[0] == '|' {
                assert(host_field@.subrange(0, 1) =~= seq!['|']);
            }
            if host_field@[0] == '@' {
                assert(host_field@.subrange(0, 1) =~= seq!['@']);
            }
        }
    }
    if host_field.len() > 0 && (host_field[0] == '|' || host_field[0] == '@') {
        return Ok(None);
    }
    let key_type = fields[1].as_slice();
    if !all_key_type_chars(key_type) {
        let shown = if key_type.len() <= 24 {
            string_of(key_type)
        } else {
            let t = string_of_range(key_type, 0, 24);
            assert(key_type@.subrange(0, 24) =~= key_type@.take(24));
            t
        };
        return Err(s3("invalid key type '", shown.as_str(), "'"));
    }
    let key = fields[2].as_slice();
    if key.len() == 0 || !all_key_body_chars(key) {
        return Err(copy("invalid base64 key body"));
    }
    let names = host_field_names_exec(host_field);
    if names.len() == 0 {
        return Err(copy("empty hostname list"));
    }
    let host_names = sorted_unique(names.as_slice());
    let key_type_text = string_of(key_type);
    let key_body = string_of(key);
    let key_text = s3(key_type_text.as_str(), " ", key_body.as_str());
    let comment = if fields.len() > 3 {
        assert(fields@[3]@ == f[3]);
        Some(string_of(fields[3].as_slice()))
    } else {
        None
    };
    let id = entry_id(host_names.as_slice(), key_text.as_str());
    proof {
        crate::sorted::lemma_sorted_of(str_views(host_names@));
    }
    Ok(Some(Entry {
        id,
        host_names,
        key_type: key_type_text,
        key: key_body,
        key_text,
        comment,
        fingerprint: None,
        line: line_number,
    }))
}

/// Why a structurally valid line can never be declared.
pub open spec fn marker_reason_spec(line: Seq<char>) -> Seq<char> {
    let field = if words(line).len() > 0 {
        words(line)[0]
    } else {
        Seq::empty()
    };
    if starts_with(field, seq!['|']) {
        "hashed hostname line cannot be declared; ssh-keyscan can produce plain hostnames"@
    } else {
        "marker line ('"@ + field + "') cannot be declared"@
    }
}

/// Why a hashed or marker line can never be declared.
pub fn marker_reason(line: &str) -> (r: String)
    ensures
        r@ == marker_reason_spec(line@),
{
    let v = chars_of(line);
    let fields = split_whitespace_chars(&v);
    let field: Vec<char> = if fields.len() > 0 {
        fields[0].clone()
    } else {
        Vec::new()
    };
    assert(field@ == (if words(line@).len() > 0 {
        words(line@)[0]
    } else {
        Seq::<char>::empty()
    }));
    let hashed = field.len() > 0 && field[0] == '|';
    proof {
        if hashed {
            assert(field@.subrange(0, 1) =~= seq!['|']);
        } else if field@.len() > 0 {
            assert(field@.subrange(0, 1)[0] != '|');
        }
        assert(hashed == starts_with(field@, seq!['|']));
    }
    if hashed {
        copy("hashed hostname line cannot be declared; ssh-keyscan can produce plain hostnames")
    } else {
        let f = string_of(field.as_slice());
        let r = s3("marker line ('", f.as_str(), "') cannot be declared");
        assert(r@ == "marker line ('"@ + field@ + "') cannot be declared"@);
        r
    }
}

/// A line that holds no entry: blank or a comment.
pub open spec fn ignored_line(line: Seq<char>) -> bool {
    trim(line).len() == 0 || starts_with(trim(line), seq!['#'])
}

pub open spec fn entry_fn() -> spec_fn(int, Seq<char>) -> Seq<EntryView> {
    |i: int, raw: Seq<char>|
        if ignored_line(raw) {
            Seq::empty()
        } else {
            match parse_line_spec(trim(raw), (i + 1) as usize) {
                Ok(Some(e)) => seq![e],
                _ => Seq::empty(),
            }
        }
}

pub open spec fn skip_fn(source: Seq<char>) -> spec_fn(int, Seq<char>) -> Seq<Seq<char>> {
    |i: int, raw: Seq<char>|
        if ignored_line(raw) {
            Seq::empty()
        } else {
            match parse_line_spec(trim(raw), (i + 1) as usize) {
                Ok(Some(e)) => Seq::empty(),
                Ok(None) => seq![
                    source + ":"@ + decimal((i + 1) as nat) + ": "@ + marker_reason_spec(trim(raw)),
                ],
                Err(m) => seq![source + ":"@ + decimal((i + 1) as nat) + ": "@ + m],
            }
        }
}

/// The entries of a known_hosts store, in line order, and why each other
/// non-blank, non-comment line was skipped (`source:line: reason`).
pub fn parse_known_hosts(content: &str, source: &str) -> (r: (Vec<Entry>, Vec<String>))
    ensures
        r.0@.map_values(|e: Entry| e@) == flat_map(lines(content@), entry_fn()),
        str_views(r.1@) == flat_map(lines(content@), skip_fn(source@)),
{
    let v = chars_of(content);
    let ls = lines_of(&v);
    let ghost all = views(ls@);
    let ghost f = entry_fn();
    let ghost g = skip_fn(source@);
    let mut entries: Vec<Entry> = Vec::new();
    let mut skipped: Vec<String> = Vec::new();
    let mut i: usize = 0;
    while i < ls.len()
        invariant
            all == views(ls@),
            all == lines(content@),
            f == entry_fn(),
            g == skip_fn(source@),
            0 <= i <= ls@.len(),
            entries@.map_values(|e: Entry| e@) == flat_map(all.take(i as int), f),
            str_views(skipped@) == flat_map(all.take(i as int), g),
        decreases ls@.len() - i,
    {
        proof {
            lemma_flat_map_step(all, f, i as int);
            lemma_flat_map_step(all, g, i as int);
        }
        let ghost before_e = entries@.map_values(|e: Entry| e@);
        let ghost before_s = str_views(skipped@);
        let raw = ls[i].as_slice();
        assert(all[i as int] == raw@);
        let (a, b) = trim_bounds(raw);
        let line = string_of_range(raw, a, b);
        let n = i + 1;
        let blank = a == b;
        let comment = !blank && raw[a] == '#';
        proof {
            assert(line@ == trim(raw@));
            if !blank {
                assert(line@[0] == raw@[a as int]);
                assert(line@.subrange(0, 1)[0] == line@[0]);
                if line@[0] == '#' {
                    assert(line@.subrange(0, 1) =~= seq!['#']);
                }
            }
        }
        if !blank && !comment {
            match parse_line(line.as_str(), n) {
                Ok(Some(e)) => {
                    entries.push(e);
                },
                Ok(None) => {
                    let reason = marker_reason(line.as_str());
                    let num = dec(n);
                    skipped.push(s5(source, ":", num.as_str(), ": ", reason.as_str()));
                },
                Err(m) => {
                    let num = dec(n);
                    skipped.push(s5(source, ":", num.as_str(), ": ", m.as_str()));
                },
            }
        }
        assert(entries@.map_values(|e: Entry| e@) =~= before_e + f(i as int, all[i as int]));
        assert(str_views(skipped@) =~= before_s + g(i as int, all[i as int]));
        i += 1;
    }
    proof {
        lemma_flat_map_all(all, f);
        lemma_flat_map_all(all, g);
    }
    (entries, skipped)
}

impl Entry {
    /// A copy of the entry.
    pub fn clone_entry(&self) -> (r: Entry)
        ensures
            r@ == self@,
    {
        let mut names: Vec<String> = Vec::new();
        let mut i: usize = 0;
        while i < self.host_names.len()
            invariant
                0 <= i <= self.host_names@.len(),
                str_views(names@) == str_views(self.host_names@).take(i as int),
            decreases self.host_names@.len() - i,
        {
            let ghost before = str_views(names@);
            names.push(copy(self.host_names[i].as_str()));
            assert(str_views(names@) =~= before.push(self.host_names@[i as int]@));
            assert(str_views(self.host_names@).take(i + 1) =~= str_views(self.host_names@).take(
                i as int,
            ).push(self.host_names@[i as int]@));
            i += 1;
        }
        assert(str_views(self.host_names@).take(self.host_names@.len() as int) =~= str_views(
            self.host_names@,
        ));
        Entry {
            id: copy(self.id.as_str()),
            host_names: names,
            key_type: copy(self.key_type.as_str()),
            key: copy(self.key.as_str()),
            key_text: copy(self.key_text.as_str()),
            comment: crate::strs::copy_opt(&self.comment),
            fingerprint: crate::strs::copy_opt(&self.fingerprint),
            line: self.line,
        }
    }
}

} // verus!
