//! Deployment intent: availability classes, ingress groups, service intents
//! and their dependency graph, which must be acyclic.
use super::{
    concat_map, err, issues_view, lemma_concat_map_all, lemma_concat_map_step, raise_if, IssueView,
    ValidationReport,
};
use crate::maps::{
    endpoint_entries, endpoint_map_get, host_entries, host_map_get, host_map_get_index,
    host_map_len, http_site_entries, http_site_map_get, ingress_group_entries,
    ingress_group_map_get_index, ingress_group_map_len, lookup,
};
use crate::strs::{contains_string, copy, dec, push_copy, s2, s3, s4, s5, str_views};
use crate::text::{decimal, is_blank, is_blank_str, str_eq};
use crate::topology::{Host, IngressGroup, ServiceIntent, Topology};
use vstd::prelude::*;

verus! {

/// The availability classes a host or intent may name.
pub open spec fn known_availability(a: Seq<char>) -> bool {
    a == "unknown"@ || a == "always-on"@ || a == "intermittent"@ || a == "maintenance"@
}

pub open spec fn availability_issue(hn: Seq<char>, host: Host) -> Seq<IssueView> {
    let ac = host.availability_class@;
    raise_if(
        ac.len() > 0 && !known_availability(ac),
        err(
            "host.invalid_availability_class"@,
            Some("hosts."@ + hn + ".availabilityClass"@),
            Some(ac),
            "host '"@ + hn + "' uses unsupported availability class '"@ + ac + "'"@,
        ),
    )
}

pub open spec fn availability_fn() -> spec_fn(int, (Seq<char>, Host)) -> Seq<IssueView> {
    |i: int, e: (Seq<char>, Host)| availability_issue(e.0, e.1)
}

pub open spec fn is_host(t: Topology, h: Seq<char>) -> bool {
    lookup(host_entries(t.hosts), h) is Some
}

pub open spec fn ingress_host_issue(t: Topology, name: Seq<char>, h: Seq<char>) -> Seq<IssueView> {
    raise_if(
        !is_host(t, h),
        err(
            "ingress.unknown_host"@,
            Some("deployment.ingressGroups."@ + name + ".hosts"@),
            Some(h),
            "ingress group '"@ + name + "' references unknown host '"@ + h + "'"@,
        ),
    )
}

pub open spec fn ingress_host_fn(t: Topology, name: Seq<char>) -> spec_fn(int, Seq<char>) -> Seq<IssueView> {
    |i: int, h: Seq<char>| ingress_host_issue(t, name, h)
}

pub open spec fn ingress_group_issues(t: Topology, name: Seq<char>, g: IngressGroup) -> Seq<IssueView> {
    raise_if(
        g.hosts@.len() == 0,
        err(
            "ingress.empty_hosts"@,
            Some("deployment.ingressGroups."@ + name + ".hosts"@),
            None,
            "ingress group '"@ + name + "' must contain at least one host"@,
        ),
    ) + concat_map(str_views(g.hosts@), ingress_host_fn(t, name))
}

pub open spec fn ingress_fn(t: Topology) -> spec_fn(int, (Seq<char>, IngressGroup)) -> Seq<IssueView> {
    |i: int, e: (Seq<char>, IngressGroup)| ingress_group_issues(t, e.0, e.1)
}

/// A service name that an endpoint or an HTTP site declares.
pub open spec fn declared_service(t: Topology, s: Seq<char>) -> bool {
    lookup(endpoint_entries(t.services.endpoints), s) is Some || lookup(
        http_site_entries(t.services.http_sites),
        s,
    ) is Some
}

pub open spec fn intent_names(intents: Seq<ServiceIntent>) -> Seq<Seq<char>> {
    intents.map_values(|x: ServiceIntent| x.name@)
}

pub open spec fn intent_host_issue(
    t: Topology,
    idx: int,
    field: Seq<char>,
    name: Seq<char>,
    h: Seq<char>,
) -> Seq<IssueView> {
    raise_if(
        !is_host(t, h),
        err(
            "deployment.unknown_host"@,
            Some("deployment.serviceIntents["@ + decimal(idx as nat) + "]."@ + field),
            Some(h),
            "service intent '"@ + name + "' references unknown host '"@ + h + "'"@,
        ),
    )
}

pub open spec fn intent_host_fn(t: Topology, idx: int, field: Seq<char>, name: Seq<char>) -> spec_fn(
    int,
    Seq<char>,
) -> Seq<IssueView> {
    |i: int, h: Seq<char>| intent_host_issue(t, idx, field, name, h)
}

pub open spec fn intent_name_issues(names: Seq<Seq<char>>, idx: int, intent: ServiceIntent) -> Seq<IssueView> {
    let name = intent.name@;
    let d = decimal(idx as nat);
    raise_if(
        is_blank(name),
        err(
            "deployment.empty_intent_name"@,
            Some("deployment.serviceIntents["@ + d + "].name"@),
            Some(name),
            "service intent names must not be empty"@,
        ),
    ) + raise_if(
        names.take(idx).contains(name),
        err(
            "deployment.duplicate_intent"@,
            Some("deployment.serviceIntents["@ + d + "].name"@),
            Some(name),
            "service intent '"@ + name + "' is declared more than once"@,
        ),
    )
}

pub open spec fn intent_ref_issues(t: Topology, idx: int, intent: ServiceIntent) -> Seq<IssueView> {
    let name = intent.name@;
    let d = decimal(idx as nat);
    (match intent.service_name {
        Some(s) => raise_if(
            !declared_service(t, s@),
            err(
                "deployment.unknown_service"@,
                Some("deployment.serviceIntents["@ + d + "].serviceName"@),
                Some(s@),
                "service intent '"@ + name + "' references unknown service '"@ + s@ + "',"@,
            ),
        ),
        None => Seq::empty(),
    }) + match intent.required_availability {
        Some(a) => raise_if(
            !known_availability(a@),
            err(
                "deployment.invalid_required_availability"@,
                Some("deployment.serviceIntents["@ + d + "].requiredAvailability"@),
                Some(a@),
                "service intent '"@ + name + "' uses unsupported required availability '"@ + a@
                    + "'"@,
            ),
        ),
        None => Seq::empty(),
    }
}

pub open spec fn intent_health_issues(idx: int, intent: ServiceIntent) -> Seq<IssueView> {
    raise_if(
        intent.health.required && match intent.health.endpoint {
            Some(e) => e@.len() == 0,
            None => true,
        },
        err(
            "deployment.health_endpoint_required"@,
            Some("deployment.serviceIntents["@ + decimal(idx as nat) + "].health.endpoint"@),
            None,
            "service intent '"@ + intent.name@
                + "' requires a health endpoint when health.required is true"@,
        ),
    )
}

pub open spec fn intent_issues(
    t: Topology,
    names: Seq<Seq<char>>,
    idx: int,
    intent: ServiceIntent,
) -> Seq<IssueView> {
    intent_name_issues(names, idx, intent) + intent_ref_issues(t, idx, intent) + concat_map(
        str_views(intent.required_hosts@),
        intent_host_fn(t, idx, "requiredHosts"@, intent.name@),
    ) + concat_map(
        str_views(intent.preferred_hosts@),
        intent_host_fn(t, idx, "preferredHosts"@, intent.name@),
    ) + intent_health_issues(idx, intent)
}

pub open spec fn intent_fn(t: Topology, names: Seq<Seq<char>>) -> spec_fn(int, ServiceIntent) -> Seq<IssueView> {
    |i: int, x: ServiceIntent| intent_issues(t, names, i, x)
}

/// The last position holding `d`: a later intent of the same name takes
/// over the name.
pub open spec fn last_index(names: Seq<Seq<char>>, d: Seq<char>) -> Option<int>
    decreases names.len(),
{
    if names.len() == 0 {
        None
    } else if names.last() == d {
        Some(names.len() - 1)
    } else {
        last_index(names.drop_last(), d)
    }
}

pub open spec fn dependency_issue(names: Seq<Seq<char>>, idx: int, name: Seq<char>, dep: Seq<char>) -> Seq<IssueView> {
    match last_index(names, dep) {
        None => seq![
            err(
                "deployment.unknown_dependency"@,
                Some("deployment.serviceIntents["@ + decimal(idx as nat) + "].dependsOn"@),
                Some(dep),
                "service intent '"@ + name + "' depends on unknown intent '"@ + dep + "'"@,
            ),
        ],
        Some(j) => raise_if(
            j == idx,
            err(
                "deployment.self_dependency"@,
                Some("deployment.serviceIntents["@ + decimal(idx as nat) + "].dependsOn"@),
                Some(dep),
                "service intent '"@ + name + "' cannot depend on itself"@,
            ),
        ),
    }
}

pub open spec fn dependency_dep_fn(names: Seq<Seq<char>>, idx: int, name: Seq<char>) -> spec_fn(
    int,
    Seq<char>,
) -> Seq<IssueView> {
    |k: int, dep: Seq<char>| dependency_issue(names, idx, name, dep)
}

pub open spec fn dependency_fn(names: Seq<Seq<char>>) -> spec_fn(int, ServiceIntent) -> Seq<IssueView> {
    |i: int, x: ServiceIntent|
        concat_map(str_views(x.depends_on@), dependency_dep_fn(names, i, x.name@))
}

/// Intent `i` depends on intent `j` (a known name other than its own).
pub open spec fn dep_edge(intents: Seq<ServiceIntent>, j: int, i: int) -> bool {
    0 <= i < intents.len() && exists|k: int|
        0 <= k < intents[i].depends_on@.len() && last_index(
            intent_names(intents),
            #[trigger] intents[i].depends_on@[k]@,
        ) == Some(j) && j != i
}

/// The dependency graph is acyclic: some ranking of the intents puts every
/// dependency strictly before the intent that depends on it.
pub open spec fn acyclic(intents: Seq<ServiceIntent>) -> bool {
    exists|rank: Seq<int>|
        rank.len() == intents.len() && forall|j: int, i: int| #[trigger]
            dep_edge(intents, j, i) ==> rank[j] < rank[i]
}

pub open spec fn cycle_issue(intents: Seq<ServiceIntent>) -> Seq<IssueView> {
    raise_if(
        !acyclic(intents),
        err(
            "deployment.dependency_cycle"@,
            Some("deployment.serviceIntents"@),
            None,
            "service intent dependencies must form an acyclic graph"@,
        ),
    )
}

/// Availability classes must be known; ingress groups must list known
/// hosts; intents must be named uniquely, refer to declared services,
/// availability classes and hosts, give a health endpoint when health is
/// required, depend on known other intents, and form no cycle.
pub open spec fn deployment_issues(t: Topology) -> Seq<IssueView> {
    let intents = t.deployment.service_intents@;
    let names = intent_names(intents);
    concat_map(host_entries(t.hosts), availability_fn()) + concat_map(
        ingress_group_entries(t.deployment.ingress_groups),
        ingress_fn(t),
    ) + concat_map(intents, intent_fn(t, names)) + concat_map(intents, dependency_fn(names))
        + cycle_issue(intents)
}

// ---------------------------------------------------------------------------
// Graph lemmas
// ---------------------------------------------------------------------------

/// Among the positions below `n` that satisfy `p`, one has the least rank.
proof fn lemma_min_rank(p: spec_fn(int) -> bool, rank: Seq<int>, n: int)
    requires
        0 <= n <= rank.len(),
        exists|i: int| 0 <= i < n && #[trigger] p(i),
    ensures
        exists|m: int|
            0 <= m < n && #[trigger] p(m) && forall|i: int| 0 <= i < n && #[trigger] p(i) ==> rank[m] <= rank[i],
    decreases n,
{
    if exists|i: int| 0 <= i < n - 1 && #[trigger] p(i) {
        lemma_min_rank(p, rank, n - 1);
        let m = choose|m: int|
            0 <= m < n - 1 && #[trigger] p(m) && forall|i: int| 0 <= i < n - 1 && #[trigger] p(i) ==> rank[m] <= rank[i];
        if p(n - 1) && rank[n - 1] < rank[m] {
            assert forall|i: int| 0 <= i < n && #[trigger] p(i) implies rank[n - 1] <= rank[i] by {
                if i < n - 1 {
                }
            }
        } else {
            assert forall|i: int| 0 <= i < n && #[trigger] p(i) implies rank[m] <= rank[i] by {
                if i < n - 1 {
                }
            }
        }
    } else {
        assert(p(n - 1));
        assert forall|i: int| 0 <= i < n && #[trigger] p(i) implies rank[n - 1] <= rank[i] by {
            if i < n - 1 {
            }
        }
    }
}

/// The number of positions already removed.
pub open spec fn num_removed(s: Seq<bool>) -> nat
    decreases s.len(),
{
    if s.len() == 0 {
        0
    } else {
        num_removed(s.drop_last()) + if s.last() {
            1nat
        } else {
            0nat
        }
    }
}

proof fn lemma_num_removed_bound(s: Seq<bool>)
    ensures
        num_removed(s) <= s.len(),
    decreases s.len(),
{
    if s.len() > 0 {
        lemma_num_removed_bound(s.drop_last());
    }
}

proof fn lemma_num_removed_set(s: Seq<bool>, i: int)
    requires
        0 <= i < s.len(),
        !s[i],
    ensures
        num_removed(s.update(i, true)) == num_removed(s) + 1,
    decreases s.len(),
{
    if i == s.len() - 1 {
        assert(s.update(i, true).drop_last() =~= s.drop_last());
    } else {
        lemma_num_removed_set(s.drop_last(), i);
        assert(s.update(i, true).drop_last() =~= s.drop_last().update(i, true));
    }
}

// ---------------------------------------------------------------------------
// Executable checks
// ---------------------------------------------------------------------------

fn is_known_availability(a: &str) -> (r: bool)
    ensures
        r == known_availability(a@),
{
    str_eq(a, "unknown") || str_eq(a, "always-on") || str_eq(a, "intermittent") || str_eq(
        a,
        "maintenance",
    )
}

fn check_intent_names(
    report: &mut ValidationReport,
    seen: &mut Vec<String>,
    idx: usize,
    intent: &ServiceIntent,
    Ghost(names): Ghost<Seq<Seq<char>>>,
)
    requires
        0 <= idx < names.len(),
        names[idx as int] == intent.name@,
        str_views(old(seen)@) == names.take(idx as int),
    ensures
        str_views(final(seen)@) == names.take(idx + 1),
        issues_view(final(report).issues@) == issues_view(old(report).issues@)
            + intent_name_issues(names, idx as int, *intent),
{
    let ghost start = issues_view(report.issues@);
    let name = intent.name.as_str();
    let d = dec(idx);
    if is_blank_str(name) {
        report.error(
            "deployment.empty_intent_name",
            Some(s3("deployment.serviceIntents[", d.as_str(), "].name")),
            Some(copy(name)),
            copy("service intent names must not be empty"),
        );
    }
    if contains_string(seen, name) {
        report.error(
            "deployment.duplicate_intent",
            Some(s3("deployment.serviceIntents[", d.as_str(), "].name")),
            Some(copy(name)),
            s3("service intent '", name, "' is declared more than once"),
        );
    }
    push_copy(seen, name);
    assert(names.take(idx + 1) =~= names.take(idx as int).push(name@));
    assert(issues_view(report.issues@) =~= start + intent_name_issues(names, idx as int, *intent));
}

fn check_intent_refs(topology: &Topology, report: &mut ValidationReport, idx: usize, intent: &ServiceIntent)
    ensures
        issues_view(final(report).issues@) == issues_view(old(report).issues@)
            + intent_ref_issues(*topology, idx as int, *intent),
{
    let ghost start = issues_view(report.issues@);
    let name = intent.name.as_str();
    let d = dec(idx);
    if let Some(service_name) = &intent.service_name {
        let s = service_name.as_str();
        if !(endpoint_map_get(&topology.services.endpoints, s).is_some() || http_site_map_get(
            &topology.services.http_sites,
            s,
        ).is_some()) {
            report.error(
                "deployment.unknown_service",
                Some(s3("deployment.serviceIntents[", d.as_str(), "].serviceName")),
                Some(copy(s)),
                s5("service intent '", name, "' references unknown service '", s, "',"),
            );
        }
    }
    if let Some(availability) = &intent.required_availability {
        let a = availability.as_str();
        if !is_known_availability(a) {
            report.error(
                "deployment.invalid_required_availability",
                Some(s3("deployment.serviceIntents[", d.as_str(), "].requiredAvailability")),
                Some(copy(a)),
                s5("service intent '", name, "' uses unsupported required availability '", a, "'"),
            );
        }
    }
    assert(issues_view(report.issues@) =~= start + intent_ref_issues(*topology, idx as int, *intent));
}

fn check_intent_health(report: &mut ValidationReport, idx: usize, intent: &ServiceIntent)
    ensures
        issues_view(final(report).issues@) == issues_view(old(report).issues@)
            + intent_health_issues(idx as int, *intent),
{
    let ghost start = issues_view(report.issues@);
    let missing = match &intent.health.endpoint {
        Some(e) => e.as_str().is_empty(),
        None => true,
    };
    if intent.health.required && missing {
        report.error(
            "deployment.health_endpoint_required",
            Some(s3("deployment.serviceIntents[", dec(idx).as_str(), "].health.endpoint")),
            None,
            s3(
                "service intent '",
                intent.name.as_str(),
                "' requires a health endpoint when health.required is true",
            ),
        );
    }
    assert(issues_view(report.issues@) =~= start + intent_health_issues(idx as int, *intent));
}

#[verifier::rlimit(50)]
fn check_intent(
    topology: &Topology,
    report: &mut ValidationReport,
    seen: &mut Vec<String>,
    idx: usize,
    intent: &ServiceIntent,
    Ghost(names): Ghost<Seq<Seq<char>>>,
)
    requires
        0 <= idx < names.len(),
        names[idx as int] == intent.name@,
        str_views(old(seen)@) == names.take(idx as int),
    ensures
        str_views(final(seen)@) == names.take(idx + 1),
        issues_view(final(report).issues@) == issues_view(old(report).issues@) + intent_issues(
            *topology,
            names,
            idx as int,
            *intent,
        ),
{
    let ghost s0 = issues_view(report.issues@);
    check_intent_names(report, seen, idx, intent, Ghost(names));
    check_intent_refs(topology, report, idx, intent);
    check_intent_hosts(topology, report, idx, "requiredHosts", intent.name.as_str(), &intent.required_hosts);
    check_intent_hosts(topology, report, idx, "preferredHosts", intent.name.as_str(), &intent.preferred_hosts);
    check_intent_health(report, idx, intent);
    assert(issues_view(report.issues@) =~= s0 + intent_issues(*topology, names, idx as int, *intent));
}

fn check_intent_hosts(
    topology: &Topology,
    report: &mut ValidationReport,
    idx: usize,
    field: &str,
    name: &str,
    hosts: &Vec<String>,
)
    ensures
        issues_view(final(report).issues@) == issues_view(old(report).issues@) + concat_map(
            str_views(hosts@),
            intent_host_fn(*topology, idx as int, field@, name@),
        ),
{
    let ghost start = issues_view(report.issues@);
    let ghost hs = str_views(hosts@);
    let ghost f = intent_host_fn(*topology, idx as int, field@, name@);
    let mut k: usize = 0;
    while k < hosts.len()
        invariant
            hs == str_views(hosts@),
            f == intent_host_fn(*topology, idx as int, field@, name@),
            0 <= k <= hosts@.len(),
            issues_view(report.issues@) == start + concat_map(hs.take(k as int), f),
        decreases hosts@.len() - k,
    {
        let h = hosts[k].as_str();
        proof {
            lemma_concat_map_step(hs, f, k as int);
            assert(hs[k as int] == h@);
        }
        if host_map_get(&topology.hosts, h).is_none() {
            report.error(
                "deployment.unknown_host",
                Some(s4("deployment.serviceIntents[", dec(idx).as_str(), "].", field)),
                Some(copy(h)),
                s5("service intent '", name, "' references unknown host '", h, "'"),
            );
        }
        k += 1;
    }
    proof {
        lemma_concat_map_all(hs, f);
    }
}

/// The last position among the intents whose name is `d`.
fn last_index_exec(intents: &Vec<ServiceIntent>, d: &str) -> (r: Option<usize>)
    ensures
        match r {
            Some(j) => last_index(intent_names(intents@), d@) == Some(j as int),
            None => last_index(intent_names(intents@), d@) is None,
        },
{
    let ghost names = intent_names(intents@);
    let mut best: Option<usize> = None;
    let mut i: usize = 0;
    while i < intents.len()
        invariant
            names == intent_names(intents@),
            0 <= i <= intents@.len(),
            match best {
                Some(j) => last_index(names.take(i as int), d@) == Some(j as int),
                None => last_index(names.take(i as int), d@) is None,
            },
        decreases intents@.len() - i,
    {
        assert(names.take(i + 1).drop_last() =~= names.take(i as int));
        assert(names.take(i + 1).last() == intents@[i as int].name@);
        if str_eq(intents[i].name.as_str(), d) {
            best = Some(i);
        }
        i += 1;
    }
    assert(names.take(intents@.len() as int) =~= names);
    best
}

proof fn lemma_last_index_bound(names: Seq<Seq<char>>, d: Seq<char>)
    ensures
        last_index(names, d) matches Some(j) ==> 0 <= j < names.len(),
    decreases names.len(),
{
    if names.len() > 0 {
        lemma_last_index_bound(names.drop_last(), d);
    }
}

proof fn lemma_dep_edge_bound(intents: Seq<ServiceIntent>, j: int, i: int)
    requires
        dep_edge(intents, j, i),
    ensures
        0 <= j < intents.len(),
        0 <= i < intents.len(),
{
    let k = choose|k: int|
        0 <= k < intents[i].depends_on@.len() && last_index(
            intent_names(intents),
            #[trigger] intents[i].depends_on@[k]@,
        ) == Some(j) && j != i;
    lemma_last_index_bound(intent_names(intents), intents[i].depends_on@[k]@);
}

/// The dependencies of intent `idx` that name another known intent, as
/// positions; raises the issues for unknown and self dependencies.
fn check_dependencies(
    report: &mut ValidationReport,
    intents: &Vec<ServiceIntent>,
    idx: usize,
) -> (sources: Vec<usize>)
    requires
        0 <= idx < intents@.len(),
    ensures
        issues_view(final(report).issues@) == issues_view(old(report).issues@) + concat_map(
            str_views(intents@[idx as int].depends_on@),
            dependency_dep_fn(intent_names(intents@), idx as int, intents@[idx as int].name@),
        ),
        forall|j: usize| #[trigger] sources@.contains(j) <==> dep_edge(intents@, j as int, idx as int),
        forall|k: int| 0 <= k < sources@.len() ==> #[trigger] sources@[k] < intents@.len(),
{
    let ghost start = issues_view(report.issues@);
    let intent = &intents[idx];
    let name = intent.name.as_str();
    let ghost names = intent_names(intents@);
    let ghost deps = str_views(intent.depends_on@);
    let ghost f = dependency_dep_fn(names, idx as int, name@);
    let mut sources: Vec<usize> = Vec::new();
    let mut k: usize = 0;
    while k < intent.depends_on.len()
        invariant
            names == intent_names(intents@),
            intent == &intents@[idx as int],
            name@ == intent.name@,
            deps == str_views(intent.depends_on@),
            f == dependency_dep_fn(names, idx as int, name@),
            0 <= idx < intents@.len(),
            0 <= k <= intent.depends_on@.len(),
            issues_view(report.issues@) == start + concat_map(deps.take(k as int), f),
            forall|j: usize|
                #[trigger] sources@.contains(j) <==> (exists|q: int|
                    0 <= q < k && last_index(names, #[trigger] intents@[idx as int].depends_on@[q]@)
                        == Some(j as int) && j as int != idx as int),
            forall|q: int| 0 <= q < sources@.len() ==> #[trigger] sources@[q] < intents@.len(),
        decreases intent.depends_on@.len() - k,
    {
        let dep = intent.depends_on[k].as_str();
        proof {
            lemma_concat_map_step(deps, f, k as int);
            assert(deps[k as int] == dep@);
            lemma_last_index_bound(names, dep@);
        }
        let ghost before = sources@;
        let r = last_index_exec(intents, dep);
        match r {
            None => {
                report.error(
                    "deployment.unknown_dependency",
                    Some(s3("deployment.serviceIntents[", dec(idx).as_str(), "].dependsOn")),
                    Some(copy(dep)),
                    s5("service intent '", name, "' depends on unknown intent '", dep, "'"),
                );
            },
            Some(j) => {
                if j == idx {
                    report.error(
                        "deployment.self_dependency",
                        Some(s3("deployment.serviceIntents[", dec(idx).as_str(), "].dependsOn")),
                        Some(copy(dep)),
                        s3("service intent '", name, "' cannot depend on itself"),
                    );
                } else {
                    sources.push(j);
                }
            },
        }
        proof {
            assert(intents@[idx as int].depends_on@[k as int]@ == dep@);
            assert forall|jj: usize| #[trigger] sources@.contains(jj) <==> (exists|q: int|
                0 <= q < k + 1 && last_index(names, #[trigger] intents@[idx as int].depends_on@[q]@)
                    == Some(jj as int) && jj as int != idx as int) by {
                if sources@.contains(jj) {
                    if !before.contains(jj) {
                        let w = choose|w: int| 0 <= w < sources@.len() && sources@[w] == jj;
                        assert(w == before.len());
                        assert(r == Some(jj));
                    }
                }
                if exists|q: int|
                    0 <= q < k + 1 && last_index(names, #[trigger] intents@[idx as int].depends_on@[q]@)
                        == Some(jj as int) && jj as int != idx as int {
                    let q = choose|q: int|
                        0 <= q < k + 1 && last_index(names, #[trigger] intents@[idx as int].depends_on@[q]@)
                            == Some(jj as int) && jj as int != idx as int;
                    if q < k {
                        assert(before.contains(jj));
                        let w = choose|w: int| 0 <= w < before.len() && before[w] == jj;
                        assert(sources@[w] == jj);
                    } else {
                        assert(r == Some(jj));
                        assert(sources@[sources@.len() - 1] == jj);
                    }
                }
            }
        }
        k += 1;
    }
    proof {
        lemma_concat_map_all(deps, f);
        assert forall|j: usize| #[trigger] sources@.contains(j) <==> dep_edge(intents@, j as int, idx as int) by {
            if dep_edge(intents@, j as int, idx as int) {
                let q = choose|q: int|
                    0 <= q < intents@[idx as int].depends_on@.len() && last_index(
                        intent_names(intents@),
                        #[trigger] intents@[idx as int].depends_on@[q]@,
                    ) == Some(j as int) && j as int != idx as int;
                assert(0 <= q < k);
            }
        }
    }
    sources
}

/// Whether the dependency graph given by `sources` (the dependencies of
/// each intent) has a cycle, found by removing intents whose dependencies
/// are all removed until none is left to remove.
fn has_cycle(sources: &Vec<Vec<usize>>, Ghost(intents): Ghost<Seq<ServiceIntent>>) -> (r: bool)
    requires
        sources@.len() == intents.len(),
        forall|i: int, j: usize|
            0 <= i < intents.len() ==> (#[trigger] sources@[i]@.contains(j) <==> dep_edge(
                intents,
                j as int,
                i,
            )),
        forall|i: int, k: int|
            0 <= i < intents.len() && 0 <= k < sources@[i]@.len() ==> #[trigger] sources@[i]@[k]
                < intents.len(),
    ensures
        r == !acyclic(intents),
{
    let n = sources.len();
    let mut removed: Vec<bool> = Vec::new();
    let mut i: usize = 0;
    while i < n
        invariant
            0 <= i <= n,
            removed@.len() == i,
            forall|k: int| 0 <= k < i ==> !removed@[k],
        decreases n - i,
    {
        removed.push(false);
        i += 1;
    }
    proof {
        lemma_num_removed_false(removed@);
    }
    let ghost mut rank: Seq<int> = Seq::new(n as nat, |k: int| 0);
    let mut count: usize = 0;
    loop
        invariant
            n == sources@.len(),
            n == intents.len(),
            forall|i: int, j: usize|
                0 <= i < intents.len() ==> (#[trigger] sources@[i]@.contains(j) <==> dep_edge(
                    intents,
                    j as int,
                    i,
                )),
            forall|i: int, k: int|
                0 <= i < intents.len() && 0 <= k < sources@[i]@.len() ==> #[trigger] sources@[i]@[k]
                    < intents.len(),
            removed@.len() == n,
            rank.len() == n,
            count == num_removed(removed@),
            forall|v: int| 0 <= v < n && #[trigger] removed@[v] ==> rank[v] < count,
            forall|v: int, j: int|
                0 <= v < n && removed@[v] && #[trigger] dep_edge(intents, j, v) ==> 0 <= j < n
                    && removed@[j] && rank[j] < rank[v],
        decreases n - count,
    {
        proof {
            lemma_num_removed_bound(removed@);
        }
        // Find an intent not yet removed whose dependencies are all removed.
        let mut found: Option<usize> = None;
        let mut v: usize = 0;
        while v < n
            invariant
                n == sources@.len(),
                n == removed@.len(),
                0 <= v <= n,
                forall|i: int, k: int|
                    0 <= i < n && 0 <= k < sources@[i]@.len() ==> #[trigger] sources@[i]@[k] < n,
                match found {
                    Some(c) => c < n && !removed@[c as int] && forall|k: int|
                        0 <= k < sources@[c as int]@.len() ==> removed@[#[trigger] sources@[c as int]@[k] as int],
                    None => forall|u: int|
                        0 <= u < v && !removed@[u] ==> exists|k: int|
                            0 <= k < sources@[u]@.len() && !removed@[#[trigger] sources@[u]@[k] as int],
                },
            decreases n - v,
        {
            if found.is_none() && !removed[v] {
                let deps = &sources[v];
                let mut all = true;
                let mut k: usize = 0;
                while k < deps.len()
                    invariant
                        n == removed@.len(),
                        deps == &sources@[v as int],
                        v < n,
                        forall|q: int| 0 <= q < deps@.len() ==> #[trigger] deps@[q] < n,
                        0 <= k <= deps@.len(),
                        all == forall|q: int| 0 <= q < k ==> removed@[#[trigger] deps@[q] as int],
                    decreases deps@.len() - k,
                {
                    if !removed[deps[k]] {
                        all = false;
                    }
                    k += 1;
                }
                if all {
                    found = Some(v);
                } else {
                    assert(exists|k: int|
                        0 <= k < sources@[v as int]@.len() && !removed@[#[trigger] sources@[v as int]@[k] as int]);
                }
            }
            v += 1;
        }
        match found {
            Some(c) => {
                proof {
                    lemma_num_removed_set(removed@, c as int);
                    assert forall|j: int| #[trigger] dep_edge(intents, j, c as int) implies 0 <= j < n
                        && removed@[j] && rank[j] < count by {
                        lemma_dep_edge_bound(intents, j, c as int);
                        assert(sources@[c as int]@.contains(j as usize));
                        let k = choose|k: int|
                            0 <= k < sources@[c as int]@.len() && sources@[c as int]@[k] == j as usize;
                        assert(removed@[sources@[c as int]@[k] as int]);
                        assert(removed@[j]);
                    }
                }
                let ghost old_removed = removed@;
                removed.set(c, true);
                proof {
                    rank = rank.update(c as int, count as int);
                    lemma_num_removed_bound(removed@);
                    assert forall|w: int, j: int|
                        0 <= w < n && removed@[w] && #[trigger] dep_edge(intents, j, w) implies 0 <= j
                            < n && removed@[j] && rank[j] < rank[w] by {
                        if w == c {
                            assert(old_removed[j]);
                            assert(j != c);
                        } else {
                            assert(old_removed[w]);
                            assert(old_removed[j]);
                            assert(j != c);
                        }
                    }
                }
                count += 1;
            },
            None => {
                let mut u: usize = 0;
                while u < n
                    invariant
                        n == removed@.len(),
                        n == sources@.len(),
                        n == intents.len(),
                        0 <= u <= n,
                        forall|w: int| 0 <= w < u ==> removed@[w],
                        forall|i: int, j: usize|
                            0 <= i < intents.len() ==> (#[trigger] sources@[i]@.contains(j)
                                <==> dep_edge(intents, j as int, i)),
                        forall|i: int, k: int|
                            0 <= i < intents.len() && 0 <= k < sources@[i]@.len()
                                ==> #[trigger] sources@[i]@[k] < intents.len(),
                        forall|w: int|
                            0 <= w < n && !removed@[w] ==> exists|k: int|
                                0 <= k < sources@[w]@.len() && !removed@[#[trigger] sources@[w]@[k] as int],
                    decreases n - u,
                {
                    if !removed[u] {
                        proof {
                            lemma_cycle_from_stuck(intents, sources@, removed@, u as int);
                        }
                        return true;
                    }
                    u += 1;
                }
                proof {
                    assert forall|j: int, i: int| #[trigger] dep_edge(intents, j, i) implies rank[j]
                        < rank[i] by {
                        lemma_dep_edge_bound(intents, j, i);
                        assert(removed@[i]);
                    }
                }
                return false;
            },
        }
    }
}

proof fn lemma_num_removed_false(s: Seq<bool>)
    requires
        forall|k: int| 0 <= k < s.len() ==> !s[k],
    ensures
        num_removed(s) == 0,
    decreases s.len(),
{
    if s.len() > 0 {
        lemma_num_removed_false(s.drop_last());
    }
}

/// When no remaining intent has all its dependencies removed, and some
/// intent remains, the graph is not acyclic.
proof fn lemma_cycle_from_stuck(
    intents: Seq<ServiceIntent>,
    sources: Seq<Vec<usize>>,
    removed: Seq<bool>,
    u0: int,
)
    requires
        sources.len() == intents.len(),
        removed.len() == intents.len(),
        0 <= u0 < intents.len(),
        !removed[u0],
        forall|i: int, j: usize|
            0 <= i < intents.len() ==> (#[trigger] sources[i]@.contains(j) <==> dep_edge(
                intents,
                j as int,
                i,
            )),
        forall|i: int, k: int|
            0 <= i < intents.len() && 0 <= k < sources[i]@.len() ==> #[trigger] sources[i]@[k]
                < intents.len(),
        forall|u: int|
            0 <= u < intents.len() && !removed[u] ==> exists|k: int|
                0 <= k < sources[u]@.len() && !removed[#[trigger] sources[u]@[k] as int],
    ensures
        !acyclic(intents),
{
    if acyclic(intents) {
        let rank = choose|rank: Seq<int>|
            rank.len() == intents.len() && forall|j: int, i: int| #[trigger]
                dep_edge(intents, j, i) ==> rank[j] < rank[i];
        let p = |i: int| !removed[i];
        assert(p(u0));
        lemma_min_rank(p, rank, intents.len() as int);
        let m = choose|m: int|
            0 <= m < intents.len() && #[trigger] p(m) && forall|i: int|
                0 <= i < intents.len() && #[trigger] p(i) ==> rank[m] <= rank[i];
        let k = choose|k: int| 0 <= k < sources[m]@.len() && !removed[#[trigger] sources[m]@[k] as int];
        let j = sources[m]@[k];
        assert(sources[m]@.contains(j));
        assert(dep_edge(intents, j as int, m));
        assert(rank[j as int] < rank[m]);
        assert(p(j as int));
    }
}

/// Checks availability classes, ingress groups and service intents.
pub fn validate_deployment(topology: &Topology, report: &mut ValidationReport)
    ensures
        issues_view(final(report).issues@) == issues_view(old(report).issues@)
            + deployment_issues(*topology),
{
    let ghost start = issues_view(report.issues@);
    // Availability classes.
    let ghost hosts = host_entries(topology.hosts);
    let ghost fa = availability_fn();
    let n = host_map_len(&topology.hosts);
    let mut i: usize = 0;
    while i < n
        invariant
            hosts == host_entries(topology.hosts),
            fa == availability_fn(),
            n == hosts.len(),
            0 <= i <= n,
            issues_view(report.issues@) == start + concat_map(hosts.take(i as int), fa),
        decreases n - i,
    {
        match host_map_get_index(&topology.hosts, i) {
            Some((hn, host)) => {
                proof {
                    lemma_concat_map_step(hosts, fa, i as int);
                }
                let ac = host.availability_class.as_str();
                if !ac.is_empty() && !is_known_availability(ac) {
                    report.error(
                        "host.invalid_availability_class",
                        Some(s3("hosts.", hn.as_str(), ".availabilityClass")),
                        Some(copy(ac)),
                        s5("host '", hn.as_str(), "' uses unsupported availability class '", ac, "'"),
                    );
                }
            },
            None => {},
        }
        i += 1;
    }
    proof {
        lemma_concat_map_all(hosts, fa);
    }
    // Ingress groups.
    let ghost m1 = issues_view(report.issues@);
    let ghost groups = ingress_group_entries(topology.deployment.ingress_groups);
    let ghost fg = ingress_fn(*topology);
    let ng = ingress_group_map_len(&topology.deployment.ingress_groups);
    let mut g: usize = 0;
    while g < ng
        invariant
            groups == ingress_group_entries(topology.deployment.ingress_groups),
            fg == ingress_fn(*topology),
            ng == groups.len(),
            0 <= g <= ng,
            issues_view(report.issues@) == m1 + concat_map(groups.take(g as int), fg),
        decreases ng - g,
    {
        match ingress_group_map_get_index(&topology.deployment.ingress_groups, g) {
            Some((name, group)) => {
                proof {
                    lemma_concat_map_step(groups, fg, g as int);
                }
                check_ingress_group(topology, report, name.as_str(), group);
            },
            None => {},
        }
        g += 1;
    }
    proof {
        lemma_concat_map_all(groups, fg);
    }
    // Service intents.
    let intents = &topology.deployment.service_intents;
    let ghost names = intent_names(intents@);
    let ghost m2 = issues_view(report.issues@);
    let ghost fi = intent_fn(*topology, names);
    let mut seen: Vec<String> = Vec::new();
    let mut k: usize = 0;
    while k < intents.len()
        invariant
            intents == &topology.deployment.service_intents,
            names == intent_names(intents@),
            fi == intent_fn(*topology, names),
            0 <= k <= intents@.len(),
            str_views(seen@) == names.take(k as int),
            issues_view(report.issues@) == m2 + concat_map(intents@.take(k as int), fi),
        decreases intents@.len() - k,
    {
        proof {
            lemma_concat_map_step(intents@, fi, k as int);
        }
        check_intent(topology, report, &mut seen, k, &intents[k], Ghost(names));
        k += 1;
    }
    proof {
        lemma_concat_map_all(intents@, fi);
    }
    // Dependencies.
    let ghost m3 = issues_view(report.issues@);
    let ghost fd = dependency_fn(names);
    let mut sources: Vec<Vec<usize>> = Vec::new();
    let mut k: usize = 0;
    while k < intents.len()
        invariant
            intents == &topology.deployment.service_intents,
            names == intent_names(intents@),
            fd == dependency_fn(names),
            0 <= k <= intents@.len(),
            sources@.len() == k,
            forall|i: int, j: usize|
                0 <= i < k ==> (#[trigger] sources@[i]@.contains(j) <==> dep_edge(
                    intents@,
                    j as int,
                    i,
                )),
            forall|i: int, q: int|
                0 <= i < k && 0 <= q < sources@[i]@.len() ==> #[trigger] sources@[i]@[q]
                    < intents@.len(),
            issues_view(report.issues@) == m3 + concat_map(intents@.take(k as int), fd),
        decreases intents@.len() - k,
    {
        proof {
            lemma_concat_map_step(intents@, fd, k as int);
        }
        let s = check_dependencies(report, intents, k);
        sources.push(s);
        k += 1;
    }
    proof {
        lemma_concat_map_all(intents@, fd);
    }
    let ghost m4 = issues_view(report.issues@);
    if has_cycle(&sources, Ghost(intents@)) {
        report.error(
            "deployment.dependency_cycle",
            Some(copy("deployment.serviceIntents")),
            None,
            copy("service intent dependencies must form an acyclic graph"),
        );
    }
    assert(issues_view(report.issues@) =~= start + deployment_issues(*topology));
}

fn check_ingress_group(topology: &Topology, report: &mut ValidationReport, name: &str, group: &IngressGroup)
    ensures
        issues_view(final(report).issues@) == issues_view(old(report).issues@)
            + ingress_group_issues(*topology, name@, *group),
{
    let ghost start = issues_view(report.issues@);
    if group.hosts.len() == 0 {
        report.error(
            "ingress.empty_hosts",
            Some(s3("deployment.ingressGroups.", name, ".hosts")),
            None,
            s3("ingress group '", name, "' must contain at least one host"),
        );
    }
    let ghost mid = issues_view(report.issues@);
    let ghost hs = str_views(group.hosts@);
    let ghost f = ingress_host_fn(*topology, name@);
    let mut k: usize = 0;
    while k < group.hosts.len()
        invariant
            hs == str_views(group.hosts@),
            f == ingress_host_fn(*topology, name@),
            0 <= k <= group.hosts@.len(),
            issues_view(report.issues@) == mid + concat_map(hs.take(k as int), f),
        decreases group.hosts@.len() - k,
    {
        let h = group.hosts[k].as_str();
        proof {
            lemma_concat_map_step(hs, f, k as int);
            assert(hs[k as int] == h@);
        }
        if host_map_get(&topology.hosts, h).is_none() {
            report.error(
                "ingress.unknown_host",
                Some(s3("deployment.ingressGroups.", name, ".hosts")),
                Some(copy(h)),
                s5("ingress group '", name, "' references unknown host '", h, "'"),
            );
        }
        k += 1;
    }
    proof {
        lemma_concat_map_all(hs, f);
    }
    assert(issues_view(report.issues@) =~= start + ingress_group_issues(*topology, name@, *group));
}

} // verus!
