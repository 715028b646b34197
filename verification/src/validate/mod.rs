//! Cross-reference validation of a topology. Every check appends issues to a
//! report in a fixed order; the contract of [`validate`] states that order
//! and the content of every issue.
pub mod deployment;
pub mod domains;
pub mod hardware;
pub mod identifiers;
pub mod links;
pub mod names;
pub mod routes;
pub mod services;
pub mod vpn;

use crate::strs::{copy, dec16, s2, s3};
use crate::text::{chars_of, decimal, join, join_chars, views};
use crate::topology::Topology;
use deployment::{deployment_issues, validate_deployment};
use domains::{domain_issues, validate_domains};
use hardware::{hardware_issues, validate_host_hardware};
use identifiers::{identifier_issues, validate_identifiers};
use links::{
    clients_issues, host_refs_issues, links_issues, validate_client_keys, validate_host_refs,
    validate_links,
};
use names::{names_issues, validate_names};
use services::{service_issues, validate_services};
use vpn::{validate_vpn_profiles, vpn_issues};
use vstd::prelude::*;

verus! {

#[derive(Debug, Clone, Copy, PartialEq, Eq, Structural)]
#[non_exhaustive]
pub enum ValidationSeverity {
    Error,
    Warning,
}

#[derive(Debug, Clone)]
pub struct ValidationIssue {
    pub severity: ValidationSeverity,
    pub code: String,
    pub path: Option<String>,
    pub value: Option<String>,
    pub message: String,
}

/// The text of an optional string.
pub open spec fn ov(o: Option<String>) -> Option<Seq<char>> {
    match o {
        Some(s) => Some(s@),
        None => None,
    }
}

/// What an issue says, as text.
pub struct IssueView {
    pub severity: ValidationSeverity,
    pub code: Seq<char>,
    pub path: Option<Seq<char>>,
    pub value: Option<Seq<char>>,
    pub message: Seq<char>,
}

impl View for ValidationIssue {
    type V = IssueView;

    open spec fn view(&self) -> IssueView {
        IssueView {
            severity: self.severity,
            code: self.code@,
            path: ov(self.path),
            value: ov(self.value),
            message: self.message@,
        }
    }
}

#[derive(Debug, Default)]
pub struct ValidationReport {
    pub issues: Vec<ValidationIssue>,
}

/// The issues of a report, as text, in the order they were raised.
pub open spec fn issues_view(issues: Seq<ValidationIssue>) -> Seq<IssueView> {
    issues.map_values(|i: ValidationIssue| i@)
}

pub open spec fn err(
    code: Seq<char>,
    path: Option<Seq<char>>,
    value: Option<Seq<char>>,
    message: Seq<char>,
) -> IssueView {
    IssueView { severity: ValidationSeverity::Error, code, path, value, message }
}

pub open spec fn warn(
    code: Seq<char>,
    path: Option<Seq<char>>,
    value: Option<Seq<char>>,
    message: Seq<char>,
) -> IssueView {
    IssueView { severity: ValidationSeverity::Warning, code, path, value, message }
}

/// One issue when `c` holds, none otherwise.
pub open spec fn raise_if(c: bool, i: IssueView) -> Seq<IssueView> {
    if c {
        seq![i]
    } else {
        Seq::empty()
    }
}

/// The issues `f` raises for each element, concatenated in order.
pub open spec fn concat_map<A>(s: Seq<A>, f: spec_fn(int, A) -> Seq<IssueView>) -> Seq<IssueView>
    decreases s.len(),
{
    if s.len() == 0 {
        Seq::empty()
    } else {
        concat_map(s.drop_last(), f) + f(s.len() - 1, s.last())
    }
}

pub proof fn lemma_concat_map_step<A>(s: Seq<A>, f: spec_fn(int, A) -> Seq<IssueView>, i: int)
    requires
        0 <= i < s.len(),
    ensures
        concat_map(s.take(i + 1), f) == concat_map(s.take(i), f) + f(i, s[i]),
{
    assert(s.take(i + 1).drop_last() =~= s.take(i));
}

pub proof fn lemma_concat_map_all<A>(s: Seq<A>, f: spec_fn(int, A) -> Seq<IssueView>)
    ensures
        concat_map(s.take(s.len() as int), f) == concat_map(s, f),
{
    assert(s.take(s.len() as int) =~= s);
}

/// An issue raised for some element is among the issues of all elements.
pub proof fn lemma_concat_map_contains<A>(s: Seq<A>, f: spec_fn(int, A) -> Seq<IssueView>, i: int, x: IssueView)
    requires
        0 <= i < s.len(),
        f(i, s[i]).contains(x),
    ensures
        concat_map(s, f).contains(x),
    decreases s.len(),
{
    let p = concat_map(s.drop_last(), f);
    let last = f(s.len() - 1, s.last());
    assert(concat_map(s, f) == p + last);
    if i == s.len() - 1 {
        let j = choose|j: int| 0 <= j < last.len() && last[j] == x;
        assert((p + last)[p.len() + j] == x);
    } else {
        assert(s.drop_last()[i] == s[i]);
        lemma_concat_map_contains(s.drop_last(), f, i, x);
        let j = choose|j: int| 0 <= j < p.len() && p[j] == x;
        assert((p + last)[j] == x);
    }
}

/// Every issue of a concatenation was raised for some element.
pub proof fn lemma_concat_map_origin<A>(s: Seq<A>, f: spec_fn(int, A) -> Seq<IssueView>, k: int) -> (r: (int, int))
    requires
        0 <= k < concat_map(s, f).len(),
    ensures
        0 <= r.0 < s.len(),
        0 <= r.1 < f(r.0, s[r.0]).len(),
        concat_map(s, f)[k] == f(r.0, s[r.0])[r.1],
    decreases s.len(),
{
    let p = concat_map(s.drop_last(), f);
    let last = f(s.len() - 1, s.last());
    assert(concat_map(s, f) == p + last);
    if k < p.len() {
        let r = lemma_concat_map_origin(s.drop_last(), f, k);
        assert(s.drop_last()[r.0] == s[r.0]);
        r
    } else {
        (s.len() - 1, k - p.len())
    }
}

/// The issues of a given severity, in order.
pub open spec fn of_severity(s: Seq<IssueView>, sev: ValidationSeverity) -> Seq<IssueView>
    decreases s.len(),
{
    if s.len() == 0 {
        Seq::empty()
    } else if s.last().severity == sev {
        of_severity(s.drop_last(), sev).push(s.last())
    } else {
        of_severity(s.drop_last(), sev)
    }
}

/// A report passes when it holds no error (warnings are allowed).
pub open spec fn report_ok(s: Seq<IssueView>) -> bool {
    forall|i: int| 0 <= i < s.len() ==> s[i].severity != ValidationSeverity::Error
}

/// The errors and the warnings of a report are all of its issues, and a
/// report passes exactly when it has no error.
pub proof fn lemma_report_partition(s: Seq<IssueView>)
    ensures
        of_severity(s, ValidationSeverity::Error).len() + of_severity(
            s,
            ValidationSeverity::Warning,
        ).len() == s.len(),
        report_ok(s) <==> of_severity(s, ValidationSeverity::Error).len() == 0,
    decreases s.len(),
{
    if s.len() > 0 {
        lemma_report_partition(s.drop_last());
        let p = s.drop_last();
        assert forall|i: int| 0 <= i < p.len() implies p[i] == s[i] by {}
        if s.last().severity == ValidationSeverity::Error {
            assert(!report_ok(s)) by {
                assert(s[s.len() - 1].severity == ValidationSeverity::Error);
            }
        } else {
            assert(report_ok(s) <==> report_ok(p)) by {
                if report_ok(p) {
                    assert forall|i: int| 0 <= i < s.len() implies s[i].severity
                        != ValidationSeverity::Error by {
                        if i < p.len() {
                            assert(p[i] == s[i]);
                        }
                    }
                }
                if report_ok(s) {
                    assert forall|i: int| 0 <= i < p.len() implies p[i].severity
                        != ValidationSeverity::Error by {
                        assert(p[i] == s[i]);
                    }
                }
            }
        }
    }
}

impl ValidationReport {
    pub fn is_ok(&self) -> (r: bool)
        ensures
            r == report_ok(issues_view(self.issues@)),
    {
        let mut i: usize = 0;
        while i < self.issues.len()
            invariant
                0 <= i <= self.issues@.len(),
                forall|j: int|
                    0 <= j < i ==> self.issues@[j].severity != ValidationSeverity::Error,
            decreases self.issues@.len() - i,
        {
            if self.issues[i].severity == ValidationSeverity::Error {
                assert(issues_view(self.issues@)[i as int].severity == ValidationSeverity::Error);
                return false;
            }
            i += 1;
        }
        true
    }

    /// The issues, in the order they were raised.
    pub fn issues(&self) -> (r: Vec<&ValidationIssue>)
        ensures
            r@.len() == self.issues@.len(),
            forall|i: int| 0 <= i < r@.len() ==> *r@[i] == self.issues@[i],
    {
        let mut r: Vec<&ValidationIssue> = Vec::new();
        let mut i: usize = 0;
        while i < self.issues.len()
            invariant
                0 <= i <= self.issues@.len(),
                r@.len() == i,
                forall|j: int| 0 <= j < i ==> *r@[j] == self.issues@[j],
            decreases self.issues@.len() - i,
        {
            r.push(&self.issues[i]);
            i += 1;
        }
        r
    }

    fn select(&self, sev: ValidationSeverity) -> (r: Vec<&ValidationIssue>)
        ensures
            r@.map_values(|i: &ValidationIssue| i@) == of_severity(issues_view(self.issues@), sev),
    {
        let mut r: Vec<&ValidationIssue> = Vec::new();
        let mut i: usize = 0;
        while i < self.issues.len()
            invariant
                0 <= i <= self.issues@.len(),
                r@.map_values(|i: &ValidationIssue| i@) == of_severity(
                    issues_view(self.issues@.take(i as int)),
                    sev,
                ),
            decreases self.issues@.len() - i,
        {
            let ghost before = r@;
            assert(issues_view(self.issues@.take(i + 1)).drop_last() =~= issues_view(
                self.issues@.take(i as int),
            ));
            if self.issues[i].severity == sev {
                r.push(&self.issues[i]);
                assert(r@ == before.push(&self.issues@[i as int]));
            }
            i += 1;
            assert(r@.map_values(|i: &ValidationIssue| i@) =~= of_severity(
                issues_view(self.issues@.take(i as int)),
                sev,
            ));
        }
        assert(self.issues@.take(self.issues@.len() as int) =~= self.issues@);
        r
    }

    /// The errors, in the order they were raised.
    pub fn errors(&self) -> (r: Vec<&ValidationIssue>)
        ensures
            r@.map_values(|i: &ValidationIssue| i@) == of_severity(
                issues_view(self.issues@),
                ValidationSeverity::Error,
            ),
    {
        self.select(ValidationSeverity::Error)
    }

    /// The warnings, in the order they were raised.
    pub fn warnings(&self) -> (r: Vec<&ValidationIssue>)
        ensures
            r@.map_values(|i: &ValidationIssue| i@) == of_severity(
                issues_view(self.issues@),
                ValidationSeverity::Warning,
            ),
    {
        self.select(ValidationSeverity::Warning)
    }

    pub(crate) fn error(&mut self, code: &str, path: Option<String>, value: Option<String>, message: String)
        ensures
            issues_view(final(self).issues@) == issues_view(old(self).issues@).push(
                err(code@, ov(path), ov(value), message@),
            ),
    {
        let issue = ValidationIssue {
            severity: ValidationSeverity::Error,
            code: String::from_str(code),
            path,
            value,
            message,
        };
        self.issues.push(issue);
        assert(issues_view(self.issues@) =~= issues_view(old(self).issues@).push(
            err(code@, ov(path), ov(value), message@),
        ));
    }

    pub(crate) fn warning(&mut self, code: &str, path: Option<String>, value: Option<String>, message: String)
        ensures
            issues_view(final(self).issues@) == issues_view(old(self).issues@).push(
                warn(code@, ov(path), ov(value), message@),
            ),
    {
        let issue = ValidationIssue {
            severity: ValidationSeverity::Warning,
            code: String::from_str(code),
            path,
            value,
            message,
        };
        self.issues.push(issue);
        assert(issues_view(self.issues@) =~= issues_view(old(self).issues@).push(
            warn(code@, ov(path), ov(value), message@),
        ));
    }
}

/// A schema version other than 2 is refused.
pub open spec fn schema_issues(t: Topology) -> Seq<IssueView> {
    raise_if(
        t.schema_version != 2,
        err(
            "topology.unsupported_schema_version"@,
            Some("schemaVersion"@),
            Some(decimal(t.schema_version as nat)),
            "topology schemaVersion must be 2, got "@ + decimal(t.schema_version as nat),
        ),
    )
}

/// Everything validation reports of a topology, in order: the schema
/// version, identifiers, domains, host hardware, VPN profiles, deployment,
/// services, links, host references, dynamic hosts and redirects, and last
/// the clients without keys.
pub open spec fn validation_issues(t: Topology) -> Seq<IssueView> {
    schema_issues(t) + identifier_issues(t) + domain_issues(t) + hardware_issues(t) + vpn_issues(t)
        + deployment_issues(t) + service_issues(t) + links_issues(t) + host_refs_issues(t)
        + names_issues(t) + clients_issues(t)
}

/// Cross-reference validation of a topology.
pub fn validate(topology: &Topology) -> (report: ValidationReport)
    ensures
        issues_view(report.issues@) == validation_issues(*topology),
{
    let mut report = ValidationReport { issues: Vec::new() };
    assert(issues_view(report.issues@) =~= Seq::<IssueView>::empty());
    if topology.schema_version != 2 {
        let v = dec16(topology.schema_version);
        report.error(
            "topology.unsupported_schema_version",
            Some(copy("schemaVersion")),
            Some(copy(v.as_str())),
            s2("topology schemaVersion must be 2, got ", v.as_str()),
        );
    }
    assert(issues_view(report.issues@) =~= schema_issues(*topology));
    validate_identifiers(topology, &mut report);
    validate_domains(topology, &mut report);
    validate_host_hardware(topology, &mut report);
    validate_vpn_profiles(topology, &mut report);
    validate_deployment(topology, &mut report);
    validate_services(topology, &mut report);
    validate_links(topology, &mut report);
    validate_host_refs(topology, &mut report);
    validate_names(topology, &mut report);
    validate_client_keys(topology, &mut report);
    assert(issues_view(report.issues@) =~= validation_issues(*topology));
    report
}

/// The error line of an issue: `code: message`.
pub open spec fn error_line(i: IssueView) -> Seq<char> {
    i.code + ": "@ + i.message
}

/// Why a topology is refused: `invalid topology:` and the line of each
/// error, in order.
pub open spec fn refusal(issues: Seq<IssueView>) -> Seq<char> {
    "invalid topology:\n"@ + join(
        of_severity(issues, ValidationSeverity::Error).map_values(|i: IssueView| error_line(i)),
        "\n"@,
    )
}

/// Whether a validated topology may be loaded: accepted when the report
/// holds no error, refused otherwise with the errors listed.
pub fn load_outcome(report: &ValidationReport) -> (r: Result<(), String>)
    ensures
        match r {
            Ok(()) => report_ok(issues_view(report.issues@)),
            Err(m) => !report_ok(issues_view(report.issues@)) && m@ == refusal(
                issues_view(report.issues@),
            ),
        },
{
    if report.is_ok() {
        return Ok(());
    }
    let errors = report.errors();
    let ghost es = of_severity(issues_view(report.issues@), ValidationSeverity::Error);
    let mut lines: Vec<Vec<char>> = Vec::new();
    let mut i: usize = 0;
    while i < errors.len()
        invariant
            errors@.map_values(|i: &ValidationIssue| i@) == es,
            0 <= i <= errors@.len(),
            views(lines@) == es.take(i as int).map_values(|i: IssueView| error_line(i)),
        decreases errors@.len() - i,
    {
        let e = errors[i];
        assert(es[i as int] == e@);
        let line = s3(e.code.as_str(), ": ", e.message.as_str());
        let ghost before = views(lines@);
        assert(line@ == error_line(es[i as int]));
        lines.push(chars_of(line.as_str()));
        assert(views(lines@) =~= before.push(line@));
        assert(es.take(i + 1) =~= es.take(i as int).push(es[i as int]));
        assert(views(lines@) =~= es.take(i + 1).map_values(|i: IssueView| error_line(i)));
        i += 1;
    }
    assert(es.take(errors@.len() as int) =~= es);
    let body = join_chars(&lines, "\n");
    Err(s2("invalid topology:\n", body.as_str()))
}

} // verus!
