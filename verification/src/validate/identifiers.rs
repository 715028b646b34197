//! Host identifiers, host aliases and zone names.
use super::{concat_map, err, issues_view, lemma_concat_map_all, lemma_concat_map_step, raise_if, IssueView, ValidationReport};
use crate::maps::{host_entries, host_map_get_index, host_map_len};
use crate::net::{valid_hostname, valid_hostname_exec};
use crate::strs::{contains_string, copy, push_copy, s3, s5, str_views};
use crate::text::{is_blank, is_blank_str, str_contains_char, str_eq};
use crate::topology::{Host, Topology};
use vstd::prelude::*;

verus! {

/// Every alias the hosts declare, host by host, in order.
pub open spec fn all_aliases(hosts: Seq<(Seq<char>, Host)>) -> Seq<Seq<char>>
    decreases hosts.len(),
{
    if hosts.len() == 0 {
        Seq::empty()
    } else {
        all_aliases(hosts.drop_last()) + str_views(hosts.last().1.host_names@)
    }
}

pub open spec fn alias_issues(hn: Seq<char>, seen: Seq<Seq<char>>, alias: Seq<char>) -> Seq<IssueView> {
    raise_if(
        !valid_hostname(alias) && alias != hn,
        err(
            "host.invalid_alias"@,
            Some("hosts."@ + hn + ".hostNames"@),
            Some(alias),
            "host '"@ + hn + "' has invalid alias '"@ + alias + "'"@,
        ),
    ) + raise_if(
        seen.contains(alias),
        err(
            "host.duplicate_alias"@,
            Some("hosts."@ + hn + ".hostNames"@),
            Some(alias),
            "host alias '"@ + alias + "' is declared more than once"@,
        ),
    )
}

pub open spec fn alias_fn(hn: Seq<char>, before: Seq<Seq<char>>, names: Seq<Seq<char>>) -> spec_fn(
    int,
    Seq<char>,
) -> Seq<IssueView> {
    |ai: int, alias: Seq<char>| alias_issues(hn, before + names.take(ai), alias)
}

pub open spec fn host_name_issues(hn: Seq<char>, host: Host) -> Seq<IssueView> {
    raise_if(
        is_blank(hn) || hn.contains('.') || hn.contains('/'),
        err(
            "host.invalid_name"@,
            Some("hosts."@ + hn),
            Some(hn),
            "host identifier '"@ + hn + "' is invalid"@,
        ),
    ) + raise_if(
        is_blank(host.system@),
        err(
            "host.invalid_system"@,
            Some("hosts."@ + hn + ".system"@),
            None,
            "host '"@ + hn + "' must declare system"@,
        ),
    )
}

pub open spec fn host_identifier_issues(
    hosts: Seq<(Seq<char>, Host)>,
    hi: int,
    e: (Seq<char>, Host),
) -> Seq<IssueView> {
    let names = str_views(e.1.host_names@);
    host_name_issues(e.0, e.1) + concat_map(
        names,
        alias_fn(e.0, all_aliases(hosts.take(hi)), names),
    )
}

pub open spec fn host_identifier_fn(hosts: Seq<(Seq<char>, Host)>) -> spec_fn(
    int,
    (Seq<char>, Host),
) -> Seq<IssueView> {
    |hi: int, e: (Seq<char>, Host)| host_identifier_issues(hosts, hi, e)
}

pub open spec fn zone_issues(all: Seq<Seq<char>>, zi: int, z: Seq<char>) -> Seq<IssueView> {
    raise_if(
        !valid_hostname(z),
        err(
            "dns.invalid_zone"@,
            Some("domains.zones"@),
            Some(z),
            "zone '"@ + z + "' is not a valid hostname"@,
        ),
    ) + raise_if(
        all.take(zi).contains(z),
        err(
            "dns.duplicate_zone"@,
            Some("domains.zones"@),
            Some(z),
            "zone '"@ + z + "' is declared more than once"@,
        ),
    )
}

pub open spec fn zone_fn(all: Seq<Seq<char>>) -> spec_fn(int, Seq<char>) -> Seq<IssueView> {
    |zi: int, z: Seq<char>| zone_issues(all, zi, z)
}

/// All declared zones: the general zones, then the managed zones.
pub open spec fn all_zones(t: Topology) -> Seq<Seq<char>> {
    str_views(t.domains.zones@) + str_views(t.domains.managed_zones@)
}

/// Host names must be plain identifiers with a system; aliases must be
/// hostnames (or the host's own name) and unique fleet-wide; zones must be
/// hostnames and unique.
pub open spec fn identifier_issues(t: Topology) -> Seq<IssueView> {
    let hosts = host_entries(t.hosts);
    concat_map(hosts, host_identifier_fn(hosts)) + concat_map(all_zones(t), zone_fn(all_zones(t)))
}

proof fn lemma_all_aliases_step(hosts: Seq<(Seq<char>, Host)>, i: int)
    requires
        0 <= i < hosts.len(),
    ensures
        all_aliases(hosts.take(i + 1)) == all_aliases(hosts.take(i)) + str_views(
            hosts[i].1.host_names@,
        ),
{
    assert(hosts.take(i + 1).drop_last() =~= hosts.take(i));
}

fn check_host_identifiers(
    report: &mut ValidationReport,
    seen: &mut Vec<String>,
    hn: &String,
    host: &Host,
    Ghost(before): Ghost<Seq<Seq<char>>>,
)
    requires
        str_views(old(seen)@) == before,
    ensures
        str_views(final(seen)@) == before + str_views(host.host_names@),
        issues_view(final(report).issues@) == issues_view(old(report).issues@)
            + host_name_issues(hn@, *host) + concat_map(
            str_views(host.host_names@),
            alias_fn(hn@, before, str_views(host.host_names@)),
        ),
{
    if is_blank_str(hn.as_str()) || str_contains_char(hn.as_str(), '.') || str_contains_char(
        hn.as_str(),
        '/',
    ) {
        report.error(
            "host.invalid_name",
            Some(s2_("hosts.", hn.as_str())),
            Some(copy(hn.as_str())),
            s3("host identifier '", hn.as_str(), "' is invalid"),
        );
    }
    if is_blank_str(host.system.as_str()) {
        report.error(
            "host.invalid_system",
            Some(s3("hosts.", hn.as_str(), ".system")),
            None,
            s3("host '", hn.as_str(), "' must declare system"),
        );
    }
    let ghost mid = issues_view(report.issues@);
    let ghost names = str_views(host.host_names@);
    let ghost f = alias_fn(hn@, before, names);
    let mut ai: usize = 0;
    while ai < host.host_names.len()
        invariant
            names == str_views(host.host_names@),
            f == alias_fn(hn@, before, names),
            0 <= ai <= host.host_names@.len(),
            str_views(seen@) == before + names.take(ai as int),
            issues_view(report.issues@) == mid + concat_map(names.take(ai as int), f),
        decreases host.host_names@.len() - ai,
    {
        let alias = host.host_names[ai].as_str();
        proof {
            lemma_concat_map_step(names, f, ai as int);
            assert(names[ai as int] == alias@);
        }
        if !valid_hostname_exec(alias) && !str_eq(alias, hn.as_str()) {
            report.error(
                "host.invalid_alias",
                Some(s3("hosts.", hn.as_str(), ".hostNames")),
                Some(copy(alias)),
                s5("host '", hn.as_str(), "' has invalid alias '", alias, "'"),
            );
        }
        if contains_string(seen, alias) {
            report.error(
                "host.duplicate_alias",
                Some(s3("hosts.", hn.as_str(), ".hostNames")),
                Some(copy(alias)),
                s3("host alias '", alias, "' is declared more than once"),
            );
        }
        push_copy(seen, alias);
        assert(names.take(ai + 1) =~= names.take(ai as int).push(alias@));
        ai += 1;
    }
    proof {
        lemma_concat_map_all(names, f);
    }
    assert(names.take(names.len() as int) =~= names);
}

fn s2_(a: &str, b: &str) -> (r: String)
    ensures
        r@ == a@ + b@,
{
    crate::strs::s2(a, b)
}

fn check_zone(
    report: &mut ValidationReport,
    zones: &mut Vec<String>,
    zone: &str,
    Ghost(zs): Ghost<Seq<Seq<char>>>,
    Ghost(zi): Ghost<int>,
)
    requires
        0 <= zi < zs.len(),
        zs[zi] == zone@,
        str_views(old(zones)@) == zs.take(zi),
    ensures
        str_views(final(zones)@) == zs.take(zi + 1),
        issues_view(final(report).issues@) == issues_view(old(report).issues@) + zone_issues(
            zs,
            zi,
            zone@,
        ),
{
    if !valid_hostname_exec(zone) {
        report.error(
            "dns.invalid_zone",
            Some(copy("domains.zones")),
            Some(copy(zone)),
            s3("zone '", zone, "' is not a valid hostname"),
        );
    }
    if contains_string(zones, zone) {
        report.error(
            "dns.duplicate_zone",
            Some(copy("domains.zones")),
            Some(copy(zone)),
            s3("zone '", zone, "' is declared more than once"),
        );
    }
    push_copy(zones, zone);
    assert(zs.take(zi + 1) =~= zs.take(zi).push(zone@));
}

/// Checks host identifiers, aliases and zone names.
pub fn validate_identifiers(topology: &Topology, report: &mut ValidationReport)
    ensures
        issues_view(final(report).issues@) == issues_view(old(report).issues@)
            + identifier_issues(*topology),
{
    let ghost start = issues_view(report.issues@);
    let ghost hosts = host_entries(topology.hosts);
    let ghost f = host_identifier_fn(hosts);
    let n = host_map_len(&topology.hosts);
    let mut seen: Vec<String> = Vec::new();
    let mut hi: usize = 0;
    while hi < n
        invariant
            hosts == host_entries(topology.hosts),
            f == host_identifier_fn(hosts),
            n == hosts.len(),
            0 <= hi <= n,
            str_views(seen@) == all_aliases(hosts.take(hi as int)),
            issues_view(report.issues@) == start + concat_map(hosts.take(hi as int), f),
        decreases n - hi,
    {
        match host_map_get_index(&topology.hosts, hi) {
            Some((hn, host)) => {
                proof {
                    lemma_concat_map_step(hosts, f, hi as int);
                    lemma_all_aliases_step(hosts, hi as int);
                }
                check_host_identifiers(
                    report,
                    &mut seen,
                    hn,
                    host,
                    Ghost(all_aliases(hosts.take(hi as int))),
                );
            },
            None => {},
        }
        hi += 1;
    }
    proof {
        lemma_concat_map_all(hosts, f);
    }
    let ghost mid = issues_view(report.issues@);
    let ghost zs = all_zones(*topology);
    let ghost g = zone_fn(zs);
    let mut zones: Vec<String> = Vec::new();
    let nz = topology.domains.zones.len();
    let mut zi: usize = 0;
    while zi < nz
        invariant
            zs == all_zones(*topology),
            g == zone_fn(zs),
            nz == topology.domains.zones@.len(),
            0 <= zi <= nz,
            str_views(zones@) == zs.take(zi as int),
            issues_view(report.issues@) == mid + concat_map(zs.take(zi as int), g),
        decreases nz - zi,
    {
        let zone = topology.domains.zones[zi].as_str();
        proof {
            lemma_concat_map_step(zs, g, zi as int);
            assert(zs[zi as int] == str_views(topology.domains.zones@)[zi as int]);
        }
        check_zone(report, &mut zones, zone, Ghost(zs), Ghost(zi as int));
        zi += 1;
    }
    let nm = topology.domains.managed_zones.len();
    let mut mi: usize = 0;
    while mi < nm
        invariant
            zs == all_zones(*topology),
            g == zone_fn(zs),
            nz == topology.domains.zones@.len(),
            nm == topology.domains.managed_zones@.len(),
            0 <= mi <= nm,
            str_views(zones@) == zs.take(nz + mi),
            issues_view(report.issues@) == mid + concat_map(zs.take(nz + mi), g),
        decreases nm - mi,
    {
        let zone = topology.domains.managed_zones[mi].as_str();
        proof {
            lemma_concat_map_step(zs, g, nz + mi);
            assert(zs[nz + mi] == str_views(topology.domains.managed_zones@)[mi as int]);
        }
        check_zone(report, &mut zones, zone, Ghost(zs), Ghost(nz + mi));
        mi += 1;
    }
    proof {
        lemma_concat_map_all(zs, g);
    }
    assert(nz + nm == zs.len());
}

} // verus!
