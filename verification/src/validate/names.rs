//! Dynamic DNS hosts and HTTP redirects: their names, zones, targets and
//! status codes.
use super::{
    concat_map, err, issues_view, lemma_concat_map_all, lemma_concat_map_step, raise_if, warn,
    IssueView, ValidationReport,
};
use crate::dns::{host_in_zone_exec, in_zone, zones_in_use, zones_in_use_exec};
use crate::net::{valid_hostname, valid_hostname_exec};
use crate::strs::{contains_string, copy, dec16, s3, s5, str_views};
use crate::text::{decimal, is_blank_str, lemma_blank_trim, trim};
use crate::topology::{DynamicHost, Redirect, Topology};
use vstd::prelude::*;

verus! {

/// The FQDN lies in one of the zones.
pub open spec fn in_some_zone(zones: Seq<Seq<char>>, fqdn: Seq<char>) -> bool {
    exists|i: int| 0 <= i < zones.len() && in_zone(fqdn, #[trigger] zones[i])
}

/// A dynamic host needs a valid name inside the zones in use (a warning
/// when outside them), and an explicit zone must contain it and be in use.
pub open spec fn dynamic_host_issues(zones: Seq<Seq<char>>, d: DynamicHost) -> Seq<IssueView> {
    let f = d.fqdn@;
    let base = "domains.dynamicHosts."@ + f;
    raise_if(
        !valid_hostname(f),
        err(
            "dns.invalid_hostname"@,
            Some(base + ".fqdn"@),
            Some(f),
            "dynamic host '"@ + f + "' is not a valid hostname"@,
        ),
    ) + raise_if(
        !in_some_zone(zones, f) && zones.len() != 0,
        warn(
            "dns.dynamic_host_outside_managed_zone"@,
            Some(base + ".fqdn"@),
            Some(f),
            "dynamic host '"@ + f + "' is not in any managed zone"@,
        ),
    ) + match d.zone {
        Some(z) => raise_if(
            !in_zone(f, z@),
            err(
                "dns.dynamic_host_zone_mismatch"@,
                Some(base + ".zone"@),
                Some(z@),
                "dynamic host '"@ + f + "' declares zone '"@ + z@
                    + "' but is not inside that zone"@,
            ),
        ) + raise_if(
            !zones.contains(z@),
            err(
                "dns.dynamic_host_undeclared_zone"@,
                Some(base + ".zone"@),
                Some(z@),
                "dynamic host '"@ + f + "' declares undeclared zone '"@ + z@ + "'"@,
            ),
        ),
        None => Seq::empty(),
    }
}

pub open spec fn dynamic_host_fn(zones: Seq<Seq<char>>) -> spec_fn(int, DynamicHost) -> Seq<
    IssueView,
> {
    |i: int, d: DynamicHost| dynamic_host_issues(zones, d)
}

/// A redirect needs a valid source hostname, a non-blank target and a
/// status in 300..=399.
pub open spec fn redirect_issues(r: Redirect) -> Seq<IssueView> {
    let from = r.from@;
    let base = "domains.redirects."@ + from;
    raise_if(
        !valid_hostname(from),
        err(
            "redirect.invalid_source"@,
            Some(base + ".from"@),
            Some(from),
            "redirect source '"@ + from + "' is not a valid hostname"@,
        ),
    ) + raise_if(
        trim(r.to@).len() == 0,
        err(
            "redirect.invalid_target"@,
            Some(base + ".to"@),
            Some(r.to@),
            "redirect '"@ + from + "' has an empty target"@,
        ),
    ) + raise_if(
        !(300 <= r.status <= 399),
        err(
            "redirect.invalid_status"@,
            Some(base + ".status"@),
            Some(decimal(r.status as nat)),
            "redirect '"@ + from + "' has invalid status "@ + decimal(r.status as nat)
                + " (expected 300..=399)"@,
        ),
    )
}

pub open spec fn redirect_fn() -> spec_fn(int, Redirect) -> Seq<IssueView> {
    |i: int, r: Redirect| redirect_issues(r)
}

/// The issues of dynamic hosts, then of redirects, in declaration order.
pub open spec fn names_issues(t: Topology) -> Seq<IssueView> {
    let zones = zones_in_use(t.domains);
    concat_map(t.domains.dynamic_hosts@, dynamic_host_fn(zones)) + concat_map(
        t.domains.redirects@,
        redirect_fn(),
    )
}

fn in_some_zone_exec(zones: &Vec<String>, fqdn: &str) -> (r: bool)
    ensures
        r == in_some_zone(str_views(zones@), fqdn@),
{
    let ghost zs = str_views(zones@);
    let mut i: usize = 0;
    while i < zones.len()
        invariant
            zs == str_views(zones@),
            0 <= i <= zones@.len(),
            forall|j: int| 0 <= j < i ==> !in_zone(fqdn@, #[trigger] zs[j]),
        decreases zones@.len() - i,
    {
        if host_in_zone_exec(fqdn, zones[i].as_str()) {
            assert(in_zone(fqdn@, zs[i as int]));
            return true;
        }
        i += 1;
    }
    false
}

fn check_dynamic_host(report: &mut ValidationReport, zones: &Vec<String>, d: &DynamicHost)
    ensures
        issues_view(final(report).issues@) == issues_view(old(report).issues@)
            + dynamic_host_issues(str_views(zones@), *d),
{
    let ghost start = issues_view(report.issues@);
    let f = d.fqdn.as_str();
    if !valid_hostname_exec(f) {
        report.error(
            "dns.invalid_hostname",
            Some(s3("domains.dynamicHosts.", f, ".fqdn")),
            Some(copy(f)),
            s3("dynamic host '", f, "' is not a valid hostname"),
        );
    }
    if !in_some_zone_exec(zones, f) && zones.len() != 0 {
        report.warning(
            "dns.dynamic_host_outside_managed_zone",
            Some(s3("domains.dynamicHosts.", f, ".fqdn")),
            Some(copy(f)),
            s3("dynamic host '", f, "' is not in any managed zone"),
        );
    }
    if let Some(z) = &d.zone {
        let zone = z.as_str();
        if !host_in_zone_exec(f, zone) {
            report.error(
                "dns.dynamic_host_zone_mismatch",
                Some(s3("domains.dynamicHosts.", f, ".zone")),
                Some(copy(zone)),
                s5("dynamic host '", f, "' declares zone '", zone, "' but is not inside that zone"),
            );
        }
        if !contains_string(zones, zone) {
            report.error(
                "dns.dynamic_host_undeclared_zone",
                Some(s3("domains.dynamicHosts.", f, ".zone")),
                Some(copy(zone)),
                s5("dynamic host '", f, "' declares undeclared zone '", zone, "'"),
            );
        }
    }
    assert(issues_view(report.issues@) =~= start + dynamic_host_issues(str_views(zones@), *d));
}

fn check_redirect(report: &mut ValidationReport, r: &Redirect)
    ensures
        issues_view(final(report).issues@) == issues_view(old(report).issues@) + redirect_issues(
            *r,
        ),
{
    let ghost start = issues_view(report.issues@);
    let from = r.from.as_str();
    if !valid_hostname_exec(from) {
        report.error(
            "redirect.invalid_source",
            Some(s3("domains.redirects.", from, ".from")),
            Some(copy(from)),
            s3("redirect source '", from, "' is not a valid hostname"),
        );
    }
    proof {
        lemma_blank_trim(r.to@);
    }
    if is_blank_str(r.to.as_str()) {
        report.error(
            "redirect.invalid_target",
            Some(s3("domains.redirects.", from, ".to")),
            Some(copy(r.to.as_str())),
            s3("redirect '", from, "' has an empty target"),
        );
    }
    if !(300 <= r.status && r.status <= 399) {
        let status = dec16(r.status);
        report.error(
            "redirect.invalid_status",
            Some(s3("domains.redirects.", from, ".status")),
            Some(copy(status.as_str())),
            s5("redirect '", from, "' has invalid status ", status.as_str(), " (expected 300..=399)"),
        );
    }
    assert(issues_view(report.issues@) =~= start + redirect_issues(*r));
}

/// Checks dynamic hosts and redirects.
pub fn validate_names(topology: &Topology, report: &mut ValidationReport)
    ensures
        issues_view(final(report).issues@) == issues_view(old(report).issues@) + names_issues(
            *topology,
        ),
{
    let d = &topology.domains;
    let zones = zones_in_use_exec(d);
    assert(str_views(zones@) == zones_in_use(*d));
    let ghost start = issues_view(report.issues@);
    let ghost f = dynamic_host_fn(zones_in_use(*d));
    let mut i: usize = 0;
    while i < d.dynamic_hosts.len()
        invariant
            f == dynamic_host_fn(zones_in_use(*d)),
            str_views(zones@) == zones_in_use(*d),
            0 <= i <= d.dynamic_hosts@.len(),
            issues_view(report.issues@) == start + concat_map(d.dynamic_hosts@.take(i as int), f),
        decreases d.dynamic_hosts@.len() - i,
    {
        proof {
            lemma_concat_map_step(d.dynamic_hosts@, f, i as int);
        }
        check_dynamic_host(report, zones, &d.dynamic_hosts[i]);
        i += 1;
    }
    proof {
        lemma_concat_map_all(d.dynamic_hosts@, f);
    }
    let ghost mid = issues_view(report.issues@);
    let ghost g = redirect_fn();
    let mut j: usize = 0;
    while j < d.redirects.len()
        invariant
            g == redirect_fn(),
            0 <= j <= d.redirects@.len(),
            issues_view(report.issues@) == mid + concat_map(d.redirects@.take(j as int), g),
        decreases d.redirects@.len() - j,
    {
        proof {
            lemma_concat_map_step(d.redirects@, g, j as int);
        }
        check_redirect(report, &d.redirects[j]);
        j += 1;
    }
    proof {
        lemma_concat_map_all(d.redirects@, g);
    }
}

} // verus!
