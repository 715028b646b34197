//! The command-line interface's data and decisions: the commands and their
//! arguments, exit codes, the wrapper that scrubs evaluated Nix, and which
//! trust proposals a scan still offers.
use crate::seqs::{flat_map, lemma_flat_map_all, lemma_flat_map_step};
use crate::accessors::server_binding;
use crate::maps::{
    host_entries, host_map_get, lemma_lookup_hit, link_entries, link_map_get_index, link_map_len,
    lookup,
};
use crate::strs::{copy, dec, s2, s3, str_views};
use crate::validate::{issues_view, of_severity, report_ok, ValidationReport, ValidationSeverity};
use crate::text::decimal;
use crate::topology::{Host, Topology};
use crate::trust::openssh::{Entry, EntryView};
use crate::trust::state::{State, STATE_VERSION};
use vstd::prelude::*;

verus! {

/// Exit code of a failed evaluation.
pub const EXIT_EVALUATION: u8 = 1;

/// Exit code of a topology that does not validate.
pub const EXIT_VALIDATION: u8 = 2;

/// Exit code of a failed read or write.
pub const EXIT_IO: u8 = 3;

/// Exit code of a host, link or entry that does not exist.
pub const EXIT_NOT_FOUND: u8 = 4;

/// Evaluator options: HTTP URL rewrites (`source_prefix=target_prefix`)
/// and an HTTP proxy.
#[derive(Debug, Clone, Default)]
pub struct EvaluatorArgs {
    pub http_rewrite: Vec<String>,
    pub http_proxy: Option<String>,
}

/// How a command reports.
#[derive(Clone, Copy, Debug, PartialEq, Eq, Structural)]
pub enum OutputFormat {
    Human,
    Json,
}

/// The trust subcommands.
#[derive(Debug)]
pub enum TrustCommand {
    /// Scan a trust store and report proposals, conflicts, and skipped lines.
    Scan {
        topology: String,
        known_hosts: Option<String>,
        state_dir: Option<String>,
        review_existing: bool,
        notify: bool,
        sidecar: Option<String>,
        json: bool,
    },
    /// List actionable proposals only.
    Pending {
        topology: String,
        known_hosts: Option<String>,
        state_dir: Option<String>,
        review_existing: bool,
        json: bool,
    },
    /// Declare an observed entry in Trust.pkl and regenerate the sidecar.
    Integrate {
        id: String,
        topology: String,
        known_hosts: Option<String>,
        state_dir: Option<String>,
        sidecar: Option<String>,
    },
    /// Suppress a proposal so it is never prompted again.
    Ignore {
        id: String,
        known_hosts: Option<String>,
        state_dir: Option<String>,
    },
}

/// The commands.
#[derive(Debug)]
pub enum Command {
    /// Validate a topology file for cross-reference invariants.
    Validate { path: String, format: OutputFormat, evaluator: EvaluatorArgs },
    /// Show a fleet overview or one host.
    Show { path: String, host: Option<String>, format: OutputFormat, evaluator: EvaluatorArgs },
    /// List links with derived values.
    Links { path: String, name: Option<String>, format: OutputFormat, evaluator: EvaluatorArgs },
    /// Evaluate a topology and print Nix or an archive.
    Eval { path: String, rkyv: bool, evaluator: EvaluatorArgs },
    /// Validate and atomically export a topology sidecar.
    Export { path: String, output: String, evaluator: EvaluatorArgs },
    /// Convert any Pkl value to an importable Nix expression.
    PklToNix { path: String, output: String, evaluator: EvaluatorArgs },
    /// Observe trust stores against the declared topology trust.
    Trust(TrustCommand),
}

/// A parsed command line.
#[derive(Debug)]
pub struct Cli {
    pub command: Command,
}

/// The Nix expression that removes `__pkl_class` attributes and null
/// values from an evaluated topology, around that topology.
pub open spec fn scrubbed(nix: Seq<char>) -> Seq<char> {
    "let\n  scrub = value:\n    if builtins.isAttrs value then\n      builtins.listToAttrs (\n        builtins.filter (entry: entry.value != null) (\n          builtins.map (name: { inherit name; value = scrub value.${name}; })\n            (builtins.attrNames (builtins.removeAttrs value [\"__pkl_class\"]))\n        )\n      )\n    else if builtins.isList value then builtins.map scrub value\n    else value;\nin\n  scrub (\n"@
        + nix + "\n  )\n"@
}

/// Wraps evaluated Nix in the expression that scrubs Pkl class markers and
/// null values.
pub fn wrap_topology_nix(nix: String) -> (r: String)
    ensures
        r@ == scrubbed(nix@),
{
    s3(
        "let\n  scrub = value:\n    if builtins.isAttrs value then\n      builtins.listToAttrs (\n        builtins.filter (entry: entry.value != null) (\n          builtins.map (name: { inherit name; value = scrub value.${name}; })\n            (builtins.attrNames (builtins.removeAttrs value [\"__pkl_class\"]))\n        )\n      )\n    else if builtins.isList value then builtins.map scrub value\n    else value;\nin\n  scrub (\n",
        nix.as_str(),
        "\n  )\n",
    )
}

pub open spec fn unsuppressed_fn(existing: Option<State>) -> spec_fn(int, EntryView) -> Seq<EntryView> {
    |i: int, e: EntryView|
        match existing {
            Some(s) => if s.suppressed_ids().contains(e.id) {
                Seq::empty()
            } else {
                seq![e]
            },
            None => seq![e],
        }
}

/// The ids of the proposals.
pub open spec fn proposal_ids(ps: Seq<EntryView>) -> Set<Seq<char>> {
    ps.map_values(|e: EntryView| e.id).to_set()
}

/// Which proposals a scan offers, and the decisions to record. With no
/// decisions recorded yet and existing entries not to be reviewed, the
/// current proposals become the silent baseline: nothing is offered and a
/// state suppressing all of them is to be saved. Otherwise the proposals
/// not suppressed are offered and nothing is to be saved.
pub fn actionable_proposals(proposals: &Vec<Entry>, existing: Option<&State>, review_existing: bool) -> (r: (
    Vec<Entry>,
    Option<State>,
))
    ensures
        !review_existing && existing is None ==> r.0@.len() == 0 && (r.1 matches Some(s) && s.version
            == STATE_VERSION && s.well_formed() && s.suppressed_ids() == proposal_ids(
            proposals@.map_values(|e: Entry| e@),
        )),
        !(!review_existing && existing is None) ==> r.1 is None && r.0@.map_values(|e: Entry| e@)
            == flat_map(
            proposals@.map_values(|e: Entry| e@),
            unsuppressed_fn(
                match existing {
                    Some(s) => Some(*s),
                    None => None,
                },
            ),
        ),
{
    let ghost ps = proposals@.map_values(|e: Entry| e@);
    if !review_existing && existing.is_none() {
        let mut baseline = State::new();
        let mut i: usize = 0;
        while i < proposals.len()
            invariant
                ps == proposals@.map_values(|e: Entry| e@),
                0 <= i <= proposals@.len(),
                baseline.version == STATE_VERSION,
                baseline.well_formed(),
                baseline.suppressed_ids() == proposal_ids(ps.take(i as int)),
            decreases proposals@.len() - i,
        {
            baseline.suppress(proposals[i].id.as_str());
            proof {
                let ids = ps.take(i as int).map_values(|e: EntryView| e.id);
                assert(ps.take(i + 1).map_values(|e: EntryView| e.id) =~= ids.push(ps[i as int].id));
                crate::sorted::lemma_push_to_set(ids, ps[i as int].id);
            }
            i += 1;
        }
        assert(ps.take(ps.len() as int) =~= ps);
        return (Vec::new(), Some(baseline));
    }
    let ghost ex = match existing {
        Some(s) => Some(*s),
        None => None,
    };
    let ghost f = unsuppressed_fn(ex);
    let mut actionable: Vec<Entry> = Vec::new();
    let mut i: usize = 0;
    while i < proposals.len()
        invariant
            ps == proposals@.map_values(|e: Entry| e@),
            f == unsuppressed_fn(ex),
            ex == match existing {
                Some(s) => Some(*s),
                None => None,
            },
            0 <= i <= proposals@.len(),
            actionable@.map_values(|e: Entry| e@) == flat_map(ps.take(i as int), f),
        decreases proposals@.len() - i,
    {
        proof {
            lemma_flat_map_step(ps, f, i as int);
        }
        let ghost before = actionable@.map_values(|e: Entry| e@);
        let entry = &proposals[i];
        let keep = match existing {
            Some(s) => !s.is_suppressed(entry.id.as_str()),
            None => true,
        };
        if keep {
            actionable.push(entry.clone_entry());
        }
        assert(actionable@.map_values(|e: Entry| e@) =~= before + f(i as int, ps[i as int]));
        i += 1;
    }
    proof {
        lemma_flat_map_all(ps, f);
    }
    (actionable, None)
}

/// What a baseline records is silent on the next scan: with every current
/// proposal's id suppressed, a scan of the same proposals offers nothing.
pub proof fn lemma_baseline_silences_rescan(ps: Seq<EntryView>, s: State)
    requires
        proposal_ids(ps).subset_of(s.suppressed_ids()),
    ensures
        flat_map(ps, unsuppressed_fn(Some(s))).len() == 0,
    decreases ps.len(),
{
    if ps.len() > 0 {
        let init = ps.drop_last();
        assert(ps.map_values(|e: EntryView| e.id)[ps.len() - 1] == ps.last().id);
        assert(proposal_ids(ps).contains(ps.last().id));
        assert forall|x: Seq<char>| proposal_ids(init).contains(x) implies s.suppressed_ids().contains(
            x,
        ) by {
            let ids = init.map_values(|e: EntryView| e.id);
            let k = choose|k: int| 0 <= k < ids.len() && #[trigger] ids[k] == x;
            assert(ps.map_values(|e: EntryView| e.id)[k] == x);
            assert(proposal_ids(ps).contains(x));
        }
        lemma_baseline_silences_rescan(init, s);
    }
}

/// A suppressed proposal is never offered again.
pub proof fn lemma_suppressed_not_offered(ps: Seq<EntryView>, s: State, id: Seq<char>)
    requires
        s.suppressed_ids().contains(id),
    ensures
        forall|i: int|
            0 <= i < flat_map(ps, unsuppressed_fn(Some(s))).len() ==> #[trigger] flat_map(
                ps,
                unsuppressed_fn(Some(s)),
            )[i].id != id,
    decreases ps.len(),
{
    if ps.len() > 0 {
        lemma_suppressed_not_offered(ps.drop_last(), s, id);
        let f = unsuppressed_fn(Some(s));
        let prev = flat_map(ps.drop_last(), f);
        let whole = flat_map(ps, f);
        assert forall|i: int| 0 <= i < whole.len() implies #[trigger] whole[i].id != id by {
            if i < prev.len() {
                assert(whole[i] == prev[i]);
            }
        }
    }
}

/// The entry with the given id, if the store has one.
pub fn find_entry<'a>(entries: &'a Vec<Entry>, id: &str) -> (r: Option<&'a Entry>)
    ensures
        match r {
            Some(e) => exists|i: int|
                0 <= i < entries@.len() && entries@[i] == *e && e.id@ == id@ && forall|j: int|
                    0 <= j < i ==> entries@[j].id@ != id@,
            None => forall|j: int| 0 <= j < entries@.len() ==> entries@[j].id@ != id@,
        },
{
    let mut i: usize = 0;
    while i < entries.len()
        invariant
            0 <= i <= entries@.len(),
            forall|j: int| 0 <= j < i ==> entries@[j].id@ != id@,
        decreases entries@.len() - i,
    {
        if crate::text::str_eq(entries[i].id.as_str(), id) {
            return Some(&entries[i]);
        }
        i += 1;
    }
    None
}

/// The message of a refused topology: for `validate`, or for `export`.
pub open spec fn refusal_message(exporting: bool, errors: nat, warnings: nat) -> Seq<char> {
    if exporting {
        "refusing to export invalid topology: "@ + decimal(errors) + " errors and "@ + decimal(
            warnings,
        ) + " warnings"@
    } else {
        "validation failed with "@ + decimal(errors) + " errors and "@ + decimal(warnings)
            + " warnings"@
    }
}

/// How the `validate` and `export` commands end on a report: nothing when
/// it passes, else the validation exit code with the counts of errors and
/// warnings.
pub fn validation_failure(report: &ValidationReport, exporting: bool) -> (r: Option<(u8, String)>)
    ensures
        match r {
            None => report_ok(issues_view(report.issues@)),
            Some((c, m)) => !report_ok(issues_view(report.issues@)) && c == EXIT_VALIDATION && m@
                == refusal_message(
                exporting,
                of_severity(issues_view(report.issues@), ValidationSeverity::Error).len(),
                of_severity(issues_view(report.issues@), ValidationSeverity::Warning).len(),
            ),
        },
{
    if report.is_ok() {
        return None;
    }
    let errors = report.errors();
    let warnings = report.warnings();
    let ne = dec(errors.len());
    let nw = dec(warnings.len());
    let mut m = if exporting {
        s2("refusing to export invalid topology: ", ne.as_str())
    } else {
        s2("validation failed with ", ne.as_str())
    };
    crate::text::append_str(&mut m, " errors and ");
    crate::text::append_str(&mut m, nw.as_str());
    crate::text::append_str(&mut m, " warnings");
    Some((EXIT_VALIDATION, m))
}

/// The host the `show` command shows: the one of that name, or the
/// not-found exit code with the message naming it.
pub fn show_host<'a>(topology: &'a Topology, name: &str) -> (r: Result<&'a Host, (u8, String)>)
    ensures
        match r {
            Ok(h) => lookup(host_entries(topology.hosts), name@) == Some(*h),
            Err((c, m)) => lookup(host_entries(topology.hosts), name@) is None && c
                == EXIT_NOT_FOUND && m@ == "host '"@ + name@ + "' not found"@,
        },
{
    match host_map_get(&topology.hosts, name) {
        Some(h) => Ok(h),
        None => Err((EXIT_NOT_FOUND, s3("host '", name, "' not found"))),
    }
}

/// What an integration of a proposal learns after each piece of outside
/// work.
pub enum IntegrateEvent {
    /// The known_hosts store was parsed into these entries.
    Parsed(Vec<Entry>),
    /// The topology was loaded and the store scanned: these are the
    /// proposals.
    Scanned(Vec<Entry>),
    /// Trust.pkl was patched (its earlier bytes are held by the caller).
    Patched,
    /// The sidecar was exported; the failure message, if it failed.
    Exported(Option<String>),
    /// Trust.pkl was restored after the export failed with this message.
    Restored(String),
}

/// The next piece of work of an integration.
pub enum IntegrateAction {
    /// Load the topology and scan the store against its declared keys.
    LoadAndScan,
    /// Declare this entry in Trust.pkl.
    Patch(Entry),
    /// Regenerate the sidecar.
    Export,
    /// Put back Trust.pkl's earlier bytes (none: the file did not exist),
    /// then report this export failure.
    Restore(Option<Vec<u8>>, String),
    /// Stop with this exit code and message.
    Fail(u8, String),
    /// The entry is declared.
    Done,
}

/// Some entry has this id.
pub open spec fn has_entry(es: Seq<Entry>, id: Seq<char>) -> bool {
    exists|i: int| 0 <= i < es.len() && es[i].id@ == id
}

/// `i` is the first position of an entry with this id.
pub open spec fn first_entry_at(es: Seq<Entry>, id: Seq<char>, i: int) -> bool {
    0 <= i < es.len() && es[i].id@ == id && forall|j: int| 0 <= j < i ==> es[j].id@ != id
}

/// How `trust ignore` and `trust integrate` refuse an id the store does
/// not hold: the not-found exit code and a message naming the id; nothing
/// when the store holds it.
pub fn missing_entry(entries: &Vec<Entry>, id: &str) -> (r: Option<(u8, String)>)
    ensures
        match r {
            None => has_entry(entries@, id@),
            Some((c, m)) => !has_entry(entries@, id@) && c == EXIT_NOT_FOUND && m@
                == "no known_hosts entry with id '"@ + id@ + "'"@,
        },
{
    match find_entry(entries, id) {
        Some(_) => None,
        None => Some((EXIT_NOT_FOUND, s3("no known_hosts entry with id '", id, "'"))),
    }
}

/// The decisions of `trust integrate`: the entry must exist in the store,
/// then be an actionable proposal; it is declared in Trust.pkl; with a
/// sidecar the sidecar is regenerated, and a failed regeneration restores
/// Trust.pkl's earlier bytes (`previous`, once patched) before failing.
pub fn integrate_step(
    id: &str,
    sidecar: bool,
    previous: Option<Option<Vec<u8>>>,
    event: IntegrateEvent,
) -> (r: IntegrateAction)
    ensures
        match event {
            IntegrateEvent::Parsed(es) => if has_entry(es@, id@) {
                r matches IntegrateAction::LoadAndScan
            } else {
                r matches IntegrateAction::Fail(c, m) && c == EXIT_NOT_FOUND && m@
                    == "no known_hosts entry with id '"@ + id@ + "'"@
            },
            IntegrateEvent::Scanned(ps) => if has_entry(ps@, id@) {
                r matches IntegrateAction::Patch(e) && exists|i: int|
                    #[trigger] first_entry_at(ps@, id@, i) && e == ps@[i]
            } else {
                r matches IntegrateAction::Fail(c, m) && c == EXIT_EVALUATION && m@ == "entry '"@
                    + id@ + "' is not an actionable proposal (already declared or conflicting)"@
            },
            IntegrateEvent::Patched => if sidecar {
                r matches IntegrateAction::Export
            } else {
                r matches IntegrateAction::Done
            },
            IntegrateEvent::Exported(None) => r matches IntegrateAction::Done,
            IntegrateEvent::Exported(Some(error)) => match previous {
                Some(p) => r matches IntegrateAction::Restore(q, m) && q == p && m@ == error@,
                None => r matches IntegrateAction::Fail(c, m) && c == EXIT_EVALUATION && m@
                    == "sidecar regeneration failed: "@ + error@,
            },
            IntegrateEvent::Restored(error) => r matches IntegrateAction::Fail(c, m) && c
                == EXIT_EVALUATION && m@ == "sidecar regeneration failed, rolled back Trust.pkl: "@
                + error@,
        },
{
    match event {
        IntegrateEvent::Parsed(es) => match missing_entry(&es, id) {
            None => IntegrateAction::LoadAndScan,
            Some((code, message)) => IntegrateAction::Fail(code, message),
        },
        IntegrateEvent::Scanned(ps) => {
            let mut ps = ps;
            let ghost all = ps@;
            let mut i: usize = 0;
            while i < ps.len()
                invariant
                    ps@ == all,
                    event matches IntegrateEvent::Scanned(q) && q@ == all,
                    0 <= i <= all.len(),
                    forall|j: int| 0 <= j < i ==> all[j].id@ != id@,
                decreases all.len() - i,
            {
                if crate::text::str_eq(ps[i].id.as_str(), id) {
                    let e = ps.remove(i);
                    assert(first_entry_at(all, id@, i as int));
                    assert(e == all[i as int]);
                    assert(has_entry(all, id@));
                    return IntegrateAction::Patch(e);
                }
                i += 1;
            }
            IntegrateAction::Fail(
                EXIT_EVALUATION,
                s3("entry '", id, "' is not an actionable proposal (already declared or conflicting)"),
            )
        },
        IntegrateEvent::Patched => {
            if sidecar {
                IntegrateAction::Export
            } else {
                IntegrateAction::Done
            }
        },
        IntegrateEvent::Exported(None) => IntegrateAction::Done,
        IntegrateEvent::Exported(Some(error)) => match previous {
            Some(p) => IntegrateAction::Restore(p, error),
            None => IntegrateAction::Fail(
                EXIT_EVALUATION,
                s2("sidecar regeneration failed: ", error.as_str()),
            ),
        },
        IntegrateEvent::Restored(error) => IntegrateAction::Fail(
            EXIT_EVALUATION,
            s2("sidecar regeneration failed, rolled back Trust.pkl: ", error.as_str()),
        ),
    }
}

/// What the `links` command shows of a link.
#[derive(Debug, Clone)]
pub struct LinkView {
    pub name: String,
    pub subnet: String,
    pub port: u16,
    pub cidr: Option<String>,
    pub server: Option<String>,
    pub dial: Option<String>,
}

/// The view of one declared link: its subnet and port, its CIDR, its
/// server's address and the dial string, as the accessors give them.
pub open spec fn link_view_ok(t: Topology, name: Seq<char>, v: LinkView) -> bool {
    &&& lookup(link_entries(t.links), name) matches Some(l)
    &&& v.name@ == name
    &&& v.subnet@ == l.subnet@
    &&& v.port == l.port
    &&& v.cidr matches Some(c) && c@ == l.subnet@
    &&& match v.server {
        Some(a) => server_binding(t, name) matches Some(b) && a@ == b.address@,
        None => server_binding(t, name) is None,
    }
    &&& match v.dial {
        Some(d) => server_binding(t, name) matches Some(b) && d@ == b.address@ + ":"@ + decimal(
            l.port as nat,
        ),
        None => server_binding(t, name) is None,
    }
}

fn link_view(topology: &Topology, name: &str) -> (r: Option<LinkView>)
    ensures
        match r {
            Some(v) => link_view_ok(*topology, name@, v),
            None => lookup(link_entries(topology.links), name@) is None,
        },
{
    let link = match topology.link(name) {
        Some(l) => l,
        None => return None,
    };
    let cidr = match topology.link_cidr(name) {
        Some(c) => Some(copy(c)),
        None => None,
    };
    let server = match topology.link_server_address(name) {
        Some(a) => Some(copy(a)),
        None => None,
    };
    let dial = topology.link_dial(name);
    Some(LinkView {
        name: copy(name),
        subnet: copy(link.subnet.as_str()),
        port: link.port,
        cidr,
        server,
        dial,
    })
}

/// The views of the `links` command: of the named link, or of every link
/// in declaration order; a name that is no link is refused with the
/// not-found exit code.
pub fn link_views(topology: &Topology, name: Option<&str>) -> (r: Result<Vec<LinkView>, (u8, String)>)
    ensures
        match name {
            Some(n) => match r {
                Ok(v) => v@.len() == 1 && link_view_ok(*topology, n@, v@[0]),
                Err((c, m)) => lookup(link_entries(topology.links), n@) is None && c == EXIT_NOT_FOUND
                    && m@ == "link '"@ + n@ + "' not found"@,
            },
            None => r matches Ok(v) && v@.len() == link_entries(topology.links).len() && forall|i: int|
                0 <= i < v@.len() ==> link_view_ok(
                    *topology,
                    #[trigger] link_entries(topology.links)[i].0,
                    v@[i],
                ),
        },
{
    match name {
        Some(n) => match link_view(topology, n) {
            Some(v) => {
                let mut r: Vec<LinkView> = Vec::new();
                r.push(v);
                Ok(r)
            },
            None => Err((EXIT_NOT_FOUND, s3("link '", n, "' not found"))),
        },
        None => {
            let ghost links = link_entries(topology.links);
            let len = link_map_len(&topology.links);
            let mut r: Vec<LinkView> = Vec::new();
            let mut i: usize = 0;
            while i < len
                invariant
                    links == link_entries(topology.links),
                    len == links.len(),
                    0 <= i <= len,
                    r@.len() == i,
                    forall|k: int| 0 <= k < i ==> link_view_ok(*topology, #[trigger] links[k].0, r@[k]),
                decreases len - i,
            {
                if let Some((ln, _)) = link_map_get_index(&topology.links, i) {
                    proof {
                        lemma_lookup_hit(links, ln@, i as int);
                    }
                    if let Some(v) = link_view(topology, ln.as_str()) {
                        r.push(v);
                    }
                }
                i += 1;
            }
            Ok(r)
        },
    }
}

} // verus!
