//! Desktop prompting for trust proposals: the notification's text, and the
//! action the user chose as `notify-send --wait --action` prints it. No
//! action means dismissed, timed out, or no notification daemon.
use super::openssh::Entry;
use crate::strs::{copy, join_strings, s2, s4, str_views};
use crate::text::{append_str, chars_of, join, str_eq, string_of_range, trim, trim_bounds};
use vstd::prelude::*;

verus! {

/// What the user chose for a proposal.
#[derive(Debug, Clone, Copy, PartialEq, Eq, Structural)]
pub enum Action {
    Integrate,
    Ignore,
}

/// The action a printed action key names; anything else (nothing printed
/// on dismissal, timeout or a closing daemon) is no action.
pub open spec fn action_of(stdout: Seq<char>) -> Option<Action> {
    let t = trim(stdout);
    if t == "integrate"@ {
        Some(Action::Integrate)
    } else if t == "ignore"@ {
        Some(Action::Ignore)
    } else {
        None
    }
}

/// Maps notify-send's printed action key to an [`Action`].
pub fn action_from_stdout(stdout: &str) -> (r: Option<Action>)
    ensures
        r == action_of(stdout@),
{
    let v = chars_of(stdout);
    let (a, b) = trim_bounds(&v);
    let t = string_of_range(&v, a, b);
    if str_eq(t.as_str(), "integrate") {
        Some(Action::Integrate)
    } else if str_eq(t.as_str(), "ignore") {
        Some(Action::Ignore)
    } else {
        None
    }
}

/// The notification's summary for a proposal.
pub open spec fn prompt_summary(e: super::openssh::EntryView) -> Seq<char> {
    "Fleetix: new SSH host key for "@ + join(e.host_names, ", "@)
}

/// The notification's body for a proposal: the key and its type, the
/// fingerprint and comment where known, and what the actions do.
pub open spec fn prompt_body(e: super::openssh::EntryView) -> Seq<char> {
    e.key_text + " ("@ + e.key_type + ")"@ + match e.fingerprint {
        Some(f) => "\nFingerprint: "@ + f,
        None => Seq::empty(),
    } + match e.comment {
        Some(c) => "\nComment: "@ + c,
        None => Seq::empty(),
    } + "\n\nIntegrate to declare it in Trust.pkl, or ignore."@
}

/// The summary and body of the notification prompting for one proposal.
pub fn prompt_message(entry: &Entry) -> (r: (String, String))
    ensures
        r.0@ == prompt_summary(entry@),
        r.1@ == prompt_body(entry@),
{
    let names = join_strings(entry.host_names.as_slice(), ", ");
    let summary = s2("Fleetix: new SSH host key for ", names.as_str());
    let mut body = s4(entry.key_text.as_str(), " (", entry.key_type.as_str(), ")");
    if let Some(fingerprint) = &entry.fingerprint {
        append_str(&mut body, "\nFingerprint: ");
        append_str(&mut body, fingerprint.as_str());
    }
    if let Some(comment) = &entry.comment {
        append_str(&mut body, "\nComment: ");
        append_str(&mut body, comment.as_str());
    }
    append_str(&mut body, "\n\nIntegrate to declare it in Trust.pkl, or ignore.");
    assert(body@ =~= prompt_body(entry@));
    (summary, body)
}

} // verus!
