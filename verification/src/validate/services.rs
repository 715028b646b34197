//! Service endpoints and HTTP sites.
use super::routes::{routes_issues, validate_http_routes};
use super::{
    concat_map, err, issues_view, lemma_concat_map_all, lemma_concat_map_step, ov, raise_if,
    IssueView, ValidationReport,
};
use crate::dns::{best_zone, best_zone_exec, zones_in_use, zones_in_use_exec};
use crate::maps::{
    endpoint_entries, endpoint_map_get, endpoint_map_get_index, endpoint_map_len, host_entries,
    host_map_get, http_site_entries, http_site_map_get_index, http_site_map_len,
    ingress_group_entries, ingress_group_map_get, lookup,
};
use crate::net::{valid_hostname, valid_hostname_exec};
use crate::strs::{contains_string, copy, copy_opt, push_copy, s2, s3, s5, str_views};
use crate::text::str_eq;
use crate::topology::{
    transport_is_http, DnsPublication, Endpoint, EndpointBind, EndpointTransport, HttpAccess,
    HttpSite, IngressGroup, IngressScope, Topology,
};
use vstd::prelude::*;

verus! {

pub open spec fn remote_via_issues(t: Topology, base: Seq<char>, name: Seq<char>, remote: Option<String>) -> Seq<IssueView> {
    match remote {
        Some(r) => if r@ == name {
            seq![
                err(
                    "endpoint.remote_via_self"@,
                    Some(base + ".remoteVia"@),
                    Some(r@),
                    "endpoint '"@ + name + "' cannot use itself as remoteVia"@,
                ),
            ]
        } else {
            match lookup(endpoint_entries(t.services.endpoints), r@) {
                Some(re) => raise_if(
                    re.bind != EndpointBind::Lan || !transport_is_http(re.transport),
                    err(
                        "endpoint.invalid_remote_via"@,
                        Some(base + ".remoteVia"@),
                        Some(r@),
                        "endpoint '"@ + name + "' remoteVia '"@ + r@
                            + "' must bind to lan with HTTP-capable transport"@,
                    ),
                ),
                None => seq![
                    err(
                        "endpoint.unknown_remote_via"@,
                        Some(base + ".remoteVia"@),
                        Some(r@),
                        "endpoint '"@ + name + "' references unknown remoteVia '"@ + r@ + "'"@,
                    ),
                ],
            }
        },
        None => Seq::empty(),
    }
}

pub open spec fn endpoint_issues(t: Topology, name: Seq<char>, e: Endpoint) -> Seq<IssueView> {
    let base = "services.endpoints."@ + name;
    raise_if(
        lookup(host_entries(t.hosts), e.target_host@) is None,
        err(
            "endpoint.unknown_target_host"@,
            Some(base + ".targetHost"@),
            Some(e.target_host@),
            "endpoint '"@ + name + "' references unknown host '"@ + e.target_host@ + "'"@,
        ),
    ) + raise_if(
        e.port == 0,
        err(
            "endpoint.invalid_port"@,
            Some(base + ".port"@),
            Some("0"@),
            "endpoint '"@ + name + "' must use a non-zero port"@,
        ),
    ) + raise_if(
        e.tls_server_name is Some && e.transport != EndpointTransport::Https,
        err(
            "endpoint.sni_without_https"@,
            Some(base + ".tlsServerName"@),
            ov(e.tls_server_name),
            "endpoint '"@ + name + "' may set tlsServerName only for https transport"@,
        ),
    ) + remote_via_issues(t, base, name, e.remote_via)
}

pub open spec fn endpoint_fn(t: Topology) -> spec_fn(int, (Seq<char>, Endpoint)) -> Seq<IssueView> {
    |i: int, e: (Seq<char>, Endpoint)| endpoint_issues(t, e.0, e.1)
}

/// The ingress scope an access mode needs.
pub open spec fn expected_scope(a: HttpAccess) -> IngressScope {
    if a == HttpAccess::Vpn {
        IngressScope::Vpn
    } else {
        IngressScope::Public
    }
}

pub open spec fn site_hostnames(sites: Seq<(Seq<char>, HttpSite)>) -> Seq<Seq<char>> {
    sites.map_values(|e: (Seq<char>, HttpSite)| e.1.hostname@)
}

pub open spec fn site_head_issues(t: Topology, before: Seq<Seq<char>>, name: Seq<char>, site: HttpSite) -> Seq<IssueView> {
    let base = "services.httpSites."@ + name;
    let h = site.hostname@;
    raise_if(
        !valid_hostname(h),
        err(
            "site.invalid_hostname"@,
            Some(base + ".hostname"@),
            Some(h),
            "HTTP site '"@ + name + "' has invalid hostname '"@ + h + "'"@,
        ),
    ) + raise_if(
        before.contains(h),
        err(
            "site.duplicate_hostname"@,
            Some(base + ".hostname"@),
            Some(h),
            "HTTP site hostname '"@ + h + "' is declared more than once"@,
        ),
    ) + raise_if(
        site.dns_publication == DnsPublication::Managed && best_zone(zones_in_use(t.domains), h)
            is None,
        err(
            "site.managed_hostname_outside_zone"@,
            Some(base + ".hostname"@),
            Some(h),
            "managed HTTP site '"@ + h + "' is outside declared DNS zones"@,
        ),
    )
}

pub open spec fn site_ingress_issues(t: Topology, name: Seq<char>, site: HttpSite) -> Seq<IssueView> {
    let base = "services.httpSites."@ + name;
    (match lookup(ingress_group_entries(t.deployment.ingress_groups), site.ingress@) {
        Some(g) => raise_if(
            g.scope != expected_scope(site.access),
            err(
                "site.ingress_scope_mismatch"@,
                Some(base + ".ingress"@),
                Some(site.ingress@),
                "HTTP site '"@ + name + "' access does not match ingress scope"@,
            ),
        ),
        None => seq![
            err(
                "site.unknown_ingress"@,
                Some(base + ".ingress"@),
                Some(site.ingress@),
                "HTTP site '"@ + name + "' references unknown ingress '"@ + site.ingress@ + "'"@,
            ),
        ],
    }) + raise_if(
        site.access == HttpAccess::Vpn && site.dns_publication == DnsPublication::Managed,
        err(
            "site.vpn_managed_dns"@,
            Some(base + ".dnsPublication"@),
            Some("managed"@),
            "VPN HTTP site '"@ + name + "' cannot use managed public DNS"@,
        ),
    )
}

pub open spec fn site_issues(t: Topology, before: Seq<Seq<char>>, name: Seq<char>, site: HttpSite) -> Seq<IssueView> {
    site_head_issues(t, before, name, site) + site_ingress_issues(t, name, site) + routes_issues(
        t,
        name,
        site.routes@,
        lookup(ingress_group_entries(t.deployment.ingress_groups), site.ingress@),
    )
}

pub open spec fn site_fn(t: Topology, sites: Seq<(Seq<char>, HttpSite)>) -> spec_fn(
    int,
    (Seq<char>, HttpSite),
) -> Seq<IssueView> {
    |i: int, e: (Seq<char>, HttpSite)| site_issues(t, site_hostnames(sites.take(i)), e.0, e.1)
}

/// Endpoints must target known hosts on a non-zero port, set a TLS server
/// name only for HTTPS, and relay through a LAN HTTP endpoint other than
/// themselves; HTTP sites need valid unique hostnames, a managed zone when
/// DNS is managed, a known ingress of the right scope, and valid routes.
pub open spec fn service_issues(t: Topology) -> Seq<IssueView> {
    let sites = http_site_entries(t.services.http_sites);
    concat_map(endpoint_entries(t.services.endpoints), endpoint_fn(t)) + concat_map(
        sites,
        site_fn(t, sites),
    )
}

fn check_endpoint(topology: &Topology, report: &mut ValidationReport, name: &str, e: &Endpoint)
    ensures
        issues_view(final(report).issues@) == issues_view(old(report).issues@) + endpoint_issues(
            *topology,
            name@,
            *e,
        ),
{
    let ghost start = issues_view(report.issues@);
    let base = s2("services.endpoints.", name);
    if host_map_get(&topology.hosts, e.target_host.as_str()).is_none() {
        report.error(
            "endpoint.unknown_target_host",
            Some(s2(base.as_str(), ".targetHost")),
            Some(copy(e.target_host.as_str())),
            s5("endpoint '", name, "' references unknown host '", e.target_host.as_str(), "'"),
        );
    }
    if e.port == 0 {
        report.error(
            "endpoint.invalid_port",
            Some(s2(base.as_str(), ".port")),
            Some(copy("0")),
            s3("endpoint '", name, "' must use a non-zero port"),
        );
    }
    if e.tls_server_name.is_some() && e.transport != EndpointTransport::Https {
        let v = copy_opt(&e.tls_server_name);
        report.error(
            "endpoint.sni_without_https",
            Some(s2(base.as_str(), ".tlsServerName")),
            v,
            s3("endpoint '", name, "' may set tlsServerName only for https transport"),
        );
    }
    let ghost mid = issues_view(report.issues@);
    if let Some(remote) = &e.remote_via {
        let r = remote.as_str();
        if str_eq(r, name) {
            report.error(
                "endpoint.remote_via_self",
                Some(s2(base.as_str(), ".remoteVia")),
                Some(copy(r)),
                s3("endpoint '", name, "' cannot use itself as remoteVia"),
            );
        } else {
            match endpoint_map_get(&topology.services.endpoints, r) {
                Some(re) => {
                    if re.bind != EndpointBind::Lan || !re.transport.is_http() {
                        report.error(
                            "endpoint.invalid_remote_via",
                            Some(s2(base.as_str(), ".remoteVia")),
                            Some(copy(r)),
                            s5(
                                "endpoint '",
                                name,
                                "' remoteVia '",
                                r,
                                "' must bind to lan with HTTP-capable transport",
                            ),
                        );
                    }
                },
                None => {
                    report.error(
                        "endpoint.unknown_remote_via",
                        Some(s2(base.as_str(), ".remoteVia")),
                        Some(copy(r)),
                        s5("endpoint '", name, "' references unknown remoteVia '", r, "'"),
                    );
                },
            }
        }
    }
    assert(issues_view(report.issues@) =~= start + endpoint_issues(*topology, name@, *e));
}

fn check_site_head(
    topology: &Topology,
    report: &mut ValidationReport,
    hostnames: &mut Vec<String>,
    name: &str,
    site: &HttpSite,
)
    ensures
        str_views(final(hostnames)@) == str_views(old(hostnames)@).push(site.hostname@),
        issues_view(final(report).issues@) == issues_view(old(report).issues@) + site_head_issues(
            *topology,
            str_views(old(hostnames)@),
            name@,
            *site,
        ),
{
    let ghost start = issues_view(report.issues@);
    let base = s2("services.httpSites.", name);
    let h = site.hostname.as_str();
    if !valid_hostname_exec(h) {
        report.error(
            "site.invalid_hostname",
            Some(s2(base.as_str(), ".hostname")),
            Some(copy(h)),
            s5("HTTP site '", name, "' has invalid hostname '", h, "'"),
        );
    }
    if contains_string(hostnames, h) {
        report.error(
            "site.duplicate_hostname",
            Some(s2(base.as_str(), ".hostname")),
            Some(copy(h)),
            s3("HTTP site hostname '", h, "' is declared more than once"),
        );
    }
    push_copy(hostnames, h);
    if site.dns_publication == DnsPublication::Managed && best_zone_exec(
        zones_in_use_exec(&topology.domains),
        h,
    ).is_none() {
        report.error(
            "site.managed_hostname_outside_zone",
            Some(s2(base.as_str(), ".hostname")),
            Some(copy(h)),
            s3("managed HTTP site '", h, "' is outside declared DNS zones"),
        );
    }
    assert(issues_view(report.issues@) =~= start + site_head_issues(
        *topology,
        str_views(old(hostnames)@),
        name@,
        *site,
    ));
}

fn check_site_ingress<'a>(
    topology: &'a Topology,
    report: &mut ValidationReport,
    name: &str,
    site: &HttpSite,
) -> (ingress: Option<&'a IngressGroup>)
    ensures
        (match ingress {
            Some(g) => Some(*g),
            None => None,
        }) == lookup(ingress_group_entries(topology.deployment.ingress_groups), site.ingress@),
        issues_view(final(report).issues@) == issues_view(old(report).issues@)
            + site_ingress_issues(*topology, name@, *site),
{
    let ghost mid = issues_view(report.issues@);
    let base = s2("services.httpSites.", name);
    let ingress = ingress_group_map_get(&topology.deployment.ingress_groups, site.ingress.as_str());
    match ingress {
        Some(g) => {
            let expected = if site.access == HttpAccess::Vpn {
                IngressScope::Vpn
            } else {
                IngressScope::Public
            };
            if g.scope != expected {
                report.error(
                    "site.ingress_scope_mismatch",
                    Some(s2(base.as_str(), ".ingress")),
                    Some(copy(site.ingress.as_str())),
                    s3("HTTP site '", name, "' access does not match ingress scope"),
                );
            }
        },
        None => {
            report.error(
                "site.unknown_ingress",
                Some(s2(base.as_str(), ".ingress")),
                Some(copy(site.ingress.as_str())),
                s5("HTTP site '", name, "' references unknown ingress '", site.ingress.as_str(), "'"),
            );
        },
    }
    if site.access == HttpAccess::Vpn && site.dns_publication == DnsPublication::Managed {
        report.error(
            "site.vpn_managed_dns",
            Some(s2(base.as_str(), ".dnsPublication")),
            Some(copy("managed")),
            s3("VPN HTTP site '", name, "' cannot use managed public DNS"),
        );
    }
    assert(issues_view(report.issues@) =~= mid + site_ingress_issues(*topology, name@, *site));
    ingress
}

fn check_site(
    topology: &Topology,
    report: &mut ValidationReport,
    hostnames: &mut Vec<String>,
    name: &str,
    site: &HttpSite,
)
    ensures
        str_views(final(hostnames)@) == str_views(old(hostnames)@).push(site.hostname@),
        issues_view(final(report).issues@) == issues_view(old(report).issues@) + site_issues(
            *topology,
            str_views(old(hostnames)@),
            name@,
            *site,
        ),
{
    let ghost start = issues_view(report.issues@);
    check_site_head(topology, report, hostnames, name, site);
    let ingress = check_site_ingress(topology, report, name, site);
    let ghost mid2 = issues_view(report.issues@);
    validate_http_routes(topology, name, &site.routes, ingress, report);
    assert(issues_view(report.issues@) =~= start + site_issues(
        *topology,
        str_views(old(hostnames)@),
        name@,
        *site,
    ));
}

/// Checks service endpoints and HTTP sites.
pub fn validate_services(topology: &Topology, report: &mut ValidationReport)
    ensures
        issues_view(final(report).issues@) == issues_view(old(report).issues@) + service_issues(
            *topology,
        ),
{
    let ghost start = issues_view(report.issues@);
    let ghost eps = endpoint_entries(topology.services.endpoints);
    let ghost f = endpoint_fn(*topology);
    let n = endpoint_map_len(&topology.services.endpoints);
    let mut i: usize = 0;
    while i < n
        invariant
            eps == endpoint_entries(topology.services.endpoints),
            f == endpoint_fn(*topology),
            n == eps.len(),
            0 <= i <= n,
            issues_view(report.issues@) == start + concat_map(eps.take(i as int), f),
        decreases n - i,
    {
        match endpoint_map_get_index(&topology.services.endpoints, i) {
            Some((name, e)) => {
                proof {
                    lemma_concat_map_step(eps, f, i as int);
                }
                check_endpoint(topology, report, name.as_str(), e);
            },
            None => {},
        }
        i += 1;
    }
    proof {
        lemma_concat_map_all(eps, f);
    }
    let ghost mid = issues_view(report.issues@);
    let ghost sites = http_site_entries(topology.services.http_sites);
    let ghost g = site_fn(*topology, sites);
    let m = http_site_map_len(&topology.services.http_sites);
    let mut hostnames: Vec<String> = Vec::new();
    let mut j: usize = 0;
    while j < m
        invariant
            sites == http_site_entries(topology.services.http_sites),
            g == site_fn(*topology, sites),
            m == sites.len(),
            0 <= j <= m,
            str_views(hostnames@) == site_hostnames(sites.take(j as int)),
            issues_view(report.issues@) == mid + concat_map(sites.take(j as int), g),
        decreases m - j,
    {
        match http_site_map_get_index(&topology.services.http_sites, j) {
            Some((name, site)) => {
                proof {
                    lemma_concat_map_step(sites, g, j as int);
                }
                check_site(topology, report, &mut hostnames, name.as_str(), site);
                assert(site_hostnames(sites.take(j + 1)) =~= site_hostnames(sites.take(j as int)).push(
                    site.hostname@,
                ));
            },
            None => {},
        }
        j += 1;
    }
    proof {
        lemma_concat_map_all(sites, g);
    }
}

} // verus!
