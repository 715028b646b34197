//! Managed zones, dynamic host uniqueness and Pages sites.
use super::{
    concat_map, err, issues_view, lemma_concat_map_all, lemma_concat_map_step, raise_if, IssueView,
    ValidationReport,
};
use crate::net::{valid_hostname, valid_hostname_exec};
use crate::strs::{contains_string, copy, push_copy, s3, str_views};
use crate::text::str_contains_char;
use crate::topology::{DynamicHost, PagesSite, Topology};
use vstd::prelude::*;

verus! {

pub open spec fn managed_zone_issues(zones: Seq<Seq<char>>, z: Seq<char>) -> Seq<IssueView> {
    raise_if(
        !zones.contains(z),
        err(
            "dns.managed_zone_undeclared"@,
            Some("domains.managedZones"@),
            Some(z),
            "managed zone '"@ + z + "' is not in domains.zones"@,
        ),
    )
}

pub open spec fn managed_zone_fn(zones: Seq<Seq<char>>) -> spec_fn(int, Seq<char>) -> Seq<IssueView> {
    |i: int, z: Seq<char>| managed_zone_issues(zones, z)
}

pub open spec fn fqdns(hosts: Seq<DynamicHost>) -> Seq<Seq<char>> {
    hosts.map_values(|h: DynamicHost| h.fqdn@)
}

pub open spec fn dynamic_duplicate_issues(all: Seq<Seq<char>>, i: int, f: Seq<char>) -> Seq<IssueView> {
    raise_if(
        all.take(i).contains(f),
        err(
            "dns.duplicate_dynamic_host"@,
            Some("domains.dynamicHosts"@),
            Some(f),
            "dynamic host '"@ + f + "' is declared more than once"@,
        ),
    )
}

pub open spec fn dynamic_duplicate_fn(all: Seq<Seq<char>>) -> spec_fn(int, Seq<char>) -> Seq<IssueView> {
    |i: int, f: Seq<char>| dynamic_duplicate_issues(all, i, f)
}

pub open spec fn pages_issues(site: PagesSite) -> Seq<IssueView> {
    raise_if(
        !valid_hostname(site.subdomain@),
        err(
            "pages.invalid_subdomain"@,
            Some("domains.pagesSites"@),
            Some(site.subdomain@),
            "Pages relative hostname '"@ + site.subdomain@ + "' is invalid"@,
        ),
    ) + raise_if(
        !valid_hostname(site.cname_target@),
        err(
            "pages.invalid_cname_target"@,
            Some("domains.pagesSites"@),
            Some(site.cname_target@),
            "Pages CNAME target '"@ + site.cname_target@ + "' is invalid"@,
        ),
    ) + raise_if(
        !site.repository@.contains('/'),
        err(
            "pages.invalid_repository"@,
            Some("domains.pagesSites"@),
            Some(site.repository@),
            "Pages repository '"@ + site.repository@ + "' must be owner/repository"@,
        ),
    )
}

pub open spec fn pages_fn() -> spec_fn(int, PagesSite) -> Seq<IssueView> {
    |i: int, s: PagesSite| pages_issues(s)
}

/// Managed zones must be declared zones; dynamic hosts must be unique;
/// Pages sites need valid names and an owner/repository.
pub open spec fn domain_issues(t: Topology) -> Seq<IssueView> {
    let d = t.domains;
    concat_map(str_views(d.managed_zones@), managed_zone_fn(str_views(d.zones@))) + concat_map(
        fqdns(d.dynamic_hosts@),
        dynamic_duplicate_fn(fqdns(d.dynamic_hosts@)),
    ) + concat_map(d.pages_sites@, pages_fn())
}

/// Checks managed zones, dynamic host uniqueness and Pages sites.
pub fn validate_domains(topology: &Topology, report: &mut ValidationReport)
    ensures
        issues_view(final(report).issues@) == issues_view(old(report).issues@) + domain_issues(
            *topology,
        ),
{
    let d = &topology.domains;
    let ghost start = issues_view(report.issues@);
    let ghost zs = str_views(d.zones@);
    let ghost ms = str_views(d.managed_zones@);
    let ghost f = managed_zone_fn(zs);
    let mut i: usize = 0;
    while i < d.managed_zones.len()
        invariant
            zs == str_views(d.zones@),
            ms == str_views(d.managed_zones@),
            f == managed_zone_fn(zs),
            0 <= i <= d.managed_zones@.len(),
            issues_view(report.issues@) == start + concat_map(ms.take(i as int), f),
        decreases d.managed_zones@.len() - i,
    {
        let zone = d.managed_zones[i].as_str();
        proof {
            lemma_concat_map_step(ms, f, i as int);
            assert(ms[i as int] == zone@);
        }
        if !contains_string(&d.zones, zone) {
            report.error(
                "dns.managed_zone_undeclared",
                Some(copy("domains.managedZones")),
                Some(copy(zone)),
                s3("managed zone '", zone, "' is not in domains.zones"),
            );
        }
        i += 1;
    }
    proof {
        lemma_concat_map_all(ms, f);
    }
    let ghost mid = issues_view(report.issues@);
    let ghost fs = fqdns(d.dynamic_hosts@);
    let ghost g = dynamic_duplicate_fn(fs);
    let mut seen: Vec<String> = Vec::new();
    let mut j: usize = 0;
    while j < d.dynamic_hosts.len()
        invariant
            fs == fqdns(d.dynamic_hosts@),
            g == dynamic_duplicate_fn(fs),
            0 <= j <= d.dynamic_hosts@.len(),
            str_views(seen@) == fs.take(j as int),
            issues_view(report.issues@) == mid + concat_map(fs.take(j as int), g),
        decreases d.dynamic_hosts@.len() - j,
    {
        let fqdn = d.dynamic_hosts[j].fqdn.as_str();
        proof {
            lemma_concat_map_step(fs, g, j as int);
            assert(fs[j as int] == fqdn@);
        }
        if contains_string(&seen, fqdn) {
            report.error(
                "dns.duplicate_dynamic_host",
                Some(copy("domains.dynamicHosts")),
                Some(copy(fqdn)),
                s3("dynamic host '", fqdn, "' is declared more than once"),
            );
        }
        push_copy(&mut seen, fqdn);
        assert(fs.take(j + 1) =~= fs.take(j as int).push(fqdn@));
        j += 1;
    }
    proof {
        lemma_concat_map_all(fs, g);
    }
    let ghost mid2 = issues_view(report.issues@);
    let ghost h = pages_fn();
    let mut k: usize = 0;
    while k < d.pages_sites.len()
        invariant
            h == pages_fn(),
            0 <= k <= d.pages_sites@.len(),
            issues_view(report.issues@) == mid2 + concat_map(d.pages_sites@.take(k as int), h),
        decreases d.pages_sites@.len() - k,
    {
        let site = &d.pages_sites[k];
        proof {
            lemma_concat_map_step(d.pages_sites@, h, k as int);
        }
        if !valid_hostname_exec(site.subdomain.as_str()) {
            report.error(
                "pages.invalid_subdomain",
                Some(copy("domains.pagesSites")),
                Some(copy(site.subdomain.as_str())),
                s3("Pages relative hostname '", site.subdomain.as_str(), "' is invalid"),
            );
        }
        if !valid_hostname_exec(site.cname_target.as_str()) {
            report.error(
                "pages.invalid_cname_target",
                Some(copy("domains.pagesSites")),
                Some(copy(site.cname_target.as_str())),
                s3("Pages CNAME target '", site.cname_target.as_str(), "' is invalid"),
            );
        }
        if !str_contains_char(site.repository.as_str(), '/') {
            report.error(
                "pages.invalid_repository",
                Some(copy("domains.pagesSites")),
                Some(copy(site.repository.as_str())),
                s3("Pages repository '", site.repository.as_str(), "' must be owner/repository"),
            );
        }
        k += 1;
    }
    proof {
        lemma_concat_map_all(d.pages_sites@, h);
    }
}

} // verus!
