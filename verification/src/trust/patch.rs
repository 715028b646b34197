//! Edits of the consumer-owned Trust.pkl: an observed entry is inserted at
//! the top of the `sshKnownHosts` listing, found by brace matching, and the
//! text around the edit (comments and formatting) is kept as it was.
use super::openssh::Entry;
use crate::flatten::{brace_scan, lemma_brace_scan_range, matching_brace, scan_start};
use crate::net::slice_from;
use crate::pkl::{lemma_string_literal_round_trip, pkl_literal, read_literal, string_literal};
use crate::seqs::{flat_map, lemma_flat_map_all, lemma_flat_map_piece, lemma_flat_map_step};
use crate::strs::{copy, s3};
use crate::text::{
    append_range, append_str, chars_of, find, find_chars, lemma_find_some, occurs_at, push_char,
};
use vstd::prelude::*;

verus! {

/// The Trust.pkl written when none exists yet.
pub const DEFAULT_TRUST_PKL: &'static str = "// Fleet-level trust declarations.
// Entries are typically proposed by `fleetix trust scan` and integrated
// through the desktop observer; edit by hand when needed.
import \"Schema.pkl\" as S

trust = new S.Trust {
  sshKnownHosts = new Listing<S.SshKnownHost> {
  }
}
";

pub open spec fn host_name_line_fn() -> spec_fn(int, Seq<char>) -> Seq<char> {
    |i: int, n: Seq<char>| "        "@ + pkl_literal(n) + "\n"@
}

/// The Pkl object literal of an entry for the `sshKnownHosts` listing.
pub open spec fn entry_literal_spec(e: super::openssh::EntryView) -> Seq<char> {
    "    new S.SshKnownHost {\n"@ + "      hostNames = new Listing {\n"@ + flat_map(
        e.host_names,
        host_name_line_fn(),
    ) + "      }\n"@ + "      publicKeys = new Listing {\n"@ + "        "@ + pkl_literal(e.key_text)
        + "\n"@ + "      }\n"@ + "      provenance = \"observed-known-hosts\"\n"@ + "    }"@
}

/// The opening of an entry literal, up to its `hostNames` listing.
pub open spec fn host_names_header() -> Seq<char> {
    "    new S.SshKnownHost {\n"@ + "      hostNames = new Listing {\n"@
}

/// An entry literal declares every host name of the entry: after the
/// opening of the `hostNames` listing stands a line that holds a Pkl string
/// literal which reads back as that name.
pub proof fn lemma_entry_literal_declares_every_name(e: super::openssh::EntryView, i: int)
    requires
        0 <= i < e.host_names.len(),
    ensures
        exists|k: int, lit: Seq<char>|
            host_names_header().len() <= k && read_literal(lit) == Some(e.host_names[i])
                && #[trigger] occurs_at(entry_literal_spec(e), "        "@ + lit + "\n"@, k),
        entry_literal_spec(e).take(host_names_header().len() as int) == host_names_header(),
{
    let h = host_names_header();
    let f = host_name_line_fn();
    let names = flat_map(e.host_names, f);
    let rest = "      }\n"@ + "      publicKeys = new Listing {\n"@ + "        "@ + pkl_literal(e.key_text)
        + "\n"@ + "      }\n"@ + "      provenance = \"observed-known-hosts\"\n"@ + "    }"@;
    let whole = entry_literal_spec(e);
    assert(whole =~= h + names + rest);
    let k0 = lemma_flat_map_piece(e.host_names, f, i);
    let lit = pkl_literal(e.host_names[i]);
    let line = "        "@ + lit + "\n"@;
    assert(f(i, e.host_names[i]) == line);
    let k = h.len() + k0;
    assert(whole.subrange(k, k + line.len()) =~= names.subrange(k0, k0 + line.len()));
    lemma_string_literal_round_trip(e.host_names[i]);
    assert(occurs_at(whole, line, k));
    assert(whole.take(h.len() as int) =~= h);
}

/// An entry literal declares the entry's key: a line of the literal holds a
/// Pkl string literal which reads back as the key text.
pub proof fn lemma_entry_literal_declares_key(e: super::openssh::EntryView)
    ensures
        exists|k: int, lit: Seq<char>|
            read_literal(lit) == Some(e.key_text) && #[trigger] occurs_at(
                entry_literal_spec(e),
                "        "@ + lit + "\n"@,
                k,
            ),
{
    let before = host_names_header() + flat_map(e.host_names, host_name_line_fn()) + "      }\n"@
        + "      publicKeys = new Listing {\n"@;
    let lit = pkl_literal(e.key_text);
    let line = "        "@ + lit + "\n"@;
    let after = "      }\n"@ + "      provenance = \"observed-known-hosts\"\n"@ + "    }"@;
    let whole = entry_literal_spec(e);
    assert(whole =~= before + line + after);
    let k = before.len() as int;
    assert(whole.subrange(k, k + line.len()) =~= line);
    lemma_string_literal_round_trip(e.key_text);
    assert(occurs_at(whole, line, k));
}

/// Renders an entry as a Pkl object literal for the `sshKnownHosts` listing.
pub fn entry_literal(entry: &Entry) -> (r: String)
    ensures
        r@ == entry_literal_spec(entry@),
{
    let mut out = copy("    new S.SshKnownHost {\n");
    append_str(&mut out, "      hostNames = new Listing {\n");
    let ghost start = out@;
    let ghost names = entry@.host_names;
    let ghost f = host_name_line_fn();
    let mut i: usize = 0;
    while i < entry.host_names.len()
        invariant
            names == entry@.host_names,
            f == host_name_line_fn(),
            0 <= i <= names.len(),
            out@ == start + flat_map(names.take(i as int), f),
        decreases names.len() - i,
    {
        proof {
            lemma_flat_map_step(names, f, i as int);
        }
        assert(names[i as int] == entry.host_names@[i as int]@);
        let literal = string_literal(entry.host_names[i].as_str());
        append_str(&mut out, "        ");
        append_str(&mut out, literal.as_str());
        append_str(&mut out, "\n");
        assert(out@ =~= start + flat_map(names.take(i + 1), f));
        i += 1;
    }
    proof {
        lemma_flat_map_all(names, f);
    }
    append_str(&mut out, "      }\n");
    append_str(&mut out, "      publicKeys = new Listing {\n");
    let key = string_literal(entry.key_text.as_str());
    append_str(&mut out, "        ");
    append_str(&mut out, key.as_str());
    append_str(&mut out, "\n");
    append_str(&mut out, "      }\n");
    append_str(&mut out, "      provenance = \"observed-known-hosts\"\n");
    append_str(&mut out, "    }");
    assert(out@ =~= entry_literal_spec(entry@));
    out
}

/// Trust.pkl with the entry inserted at the top of its `sshKnownHosts`
/// listing, or why it cannot be: no listing, no opening brace after it, or
/// braces that do not balance.
pub open spec fn inserted_entry(content: Seq<char>, e: super::openssh::EntryView) -> Result<
    Seq<char>,
    Seq<char>,
> {
    match find(content, "sshKnownHosts"@) {
        None => Err("Trust.pkl has no sshKnownHosts listing; add one or integrate manually"@),
        Some(l) => match find(content.skip(l + 13), seq!['{']) {
            None => Err("sshKnownHosts has no opening brace"@),
            Some(o) => if brace_scan(content, l + 13 + o, scan_start()) is None {
                Err("sshKnownHosts listing is not brace-balanced"@)
            } else {
                Ok(content.take(l + 13 + o + 1) + "\n"@ + entry_literal_spec(e) + content.skip(
                    l + 13 + o + 1,
                ))
            },
        },
    }
}

/// Patching changes nothing but the inserted block: taking out the line
/// break and entry literal inserted after the listing's brace gives back
/// the text as it was before.
pub proof fn lemma_patch_keeps_text(content: Seq<char>, e: super::openssh::EntryView)
    requires
        inserted_entry(content, e) is Ok,
    ensures
        exists|k: int|
            0 <= k <= content.len() && #[trigger] inserted_entry(content, e) == Ok::<
                Seq<char>,
                Seq<char>,
            >(content.take(k) + "\n"@ + entry_literal_spec(e) + content.skip(k)),
{
    let l = find(content, "sshKnownHosts"@).unwrap();
    let o = find(content.skip(l + 13), seq!['{']).unwrap();
    reveal_strlit("sshKnownHosts");
    lemma_find_some(content, "sshKnownHosts"@, l);
    lemma_find_some(content.skip(l + 13), seq!['{'], o);
    let k = l + 13 + o + 1;
    assert(0 <= k <= content.len());
}

/// Inserts an entry into the `sshKnownHosts` listing of a Trust.pkl text.
pub fn insert_entry(content: &str, entry: &Entry) -> (r: Result<String, String>)
    ensures
        match (r, inserted_entry(content@, entry@)) {
            (Ok(t), Ok(s)) => t@ == s,
            (Err(m), Err(s)) => m@ == s,
            _ => false,
        },
{
    let v = chars_of(content);
    let key = chars_of("sshKnownHosts");
    proof {
        reveal_strlit("sshKnownHosts");
    }
    let listing = match find_chars(&v, &key) {
        Some(l) => l,
        None => {
            return Err(copy("Trust.pkl has no sshKnownHosts listing; add one or integrate manually"));
        },
    };
    proof {
        lemma_find_some(v@, key@, listing as int);
    }
    let total: usize = v.len();
    assert(listing + 13 <= total);
    let after = slice_from(&v, listing + 13);
    let brace = chars_of("{");
    proof {
        reveal_strlit("{");
        assert(brace@ =~= seq!['{']);
    }
    let open_rel = match find_chars(&after, &brace) {
        Some(o) => o,
        None => {
            return Err(copy("sshKnownHosts has no opening brace"));
        },
    };
    proof {
        lemma_find_some(after@, brace@, open_rel as int);
    }
    let v_len: usize = v.len();
    assert(listing + 13 + open_rel < v_len);
    let open = listing + 13 + open_rel;
    if matching_brace(&v, open).is_none() {
        return Err(copy("sshKnownHosts listing is not brace-balanced"));
    }
    let mut patched = String::new();
    append_range(&mut patched, &v, 0, open + 1);
    push_char(&mut patched, '\n');
    let literal = entry_literal(entry);
    append_str(&mut patched, literal.as_str());
    append_range(&mut patched, &v, open + 1, v.len());
    assert(v@.subrange(0, open + 1) =~= v@.take(open + 1));
    assert(v@.subrange(open + 1, v@.len() as int) =~= v@.skip(open + 1));
    assert(patched@ =~= v@.take(open + 1) + "\n"@ + entry_literal_spec(entry@) + v@.skip(open + 1)) by {
        reveal_strlit("\n");
    }
    Ok(patched)
}

/// The new Trust.pkl text: the entry inserted into the existing file's
/// text, or into the default file when there is none.
pub fn patch_content(existing: Option<&str>, entry: &Entry) -> (r: Result<String, String>)
    ensures
        match (r, inserted_entry(
            match existing {
                Some(c) => c@,
                None => DEFAULT_TRUST_PKL@,
            },
            entry@,
        )) {
            (Ok(t), Ok(s)) => t@ == s,
            (Err(m), Err(s)) => m@ == s,
            _ => false,
        },
{
    match existing {
        Some(c) => insert_entry(c, entry),
        None => insert_entry(DEFAULT_TRUST_PKL, entry),
    }
}

} // verus!
