//! Host-local VPN profiles: provider, owner, DNS servers, WireGuard
//! connection data and port forwarding.
use super::{
    concat_map, err, issues_view, lemma_concat_map_all, lemma_concat_map_step, raise_if, IssueView,
    ValidationReport,
};
use crate::maps::{
    host_entries, host_map_get_index, host_map_len, lookup, user_entries, user_map_get,
    vpn_profile_entries, vpn_profile_map_get_index, vpn_profile_map_len,
};
use crate::net::{cidr_parse, ip_endpoint, ip_parse, is_ip_endpoint, parse_cidr, parse_ip, IpValue};
use crate::strs::{copy, dec, s2, s3, s4, s5, str_views};
use crate::text::{decimal, is_blank, is_blank_str};
use crate::topology::{
    Host, Topology, VpnConnection, VpnPortForwarding, VpnProfile, WireGuardPeer,
    WireGuardVpnConnection,
};
use vstd::prelude::*;

verus! {

pub open spec fn dns_server_issue(base: Seq<char>, pn: Seq<char>, i: int, server: Seq<char>) -> Seq<IssueView> {
    raise_if(
        ip_parse(server) is None,
        err(
            "vpn.invalid_dns_server"@,
            Some(base + ".dnsServers."@ + decimal(i as nat)),
            Some(server),
            "VPN profile '"@ + pn + "' has invalid DNS server '"@ + server + "'"@,
        ),
    )
}

pub open spec fn dns_server_fn(base: Seq<char>, pn: Seq<char>) -> spec_fn(int, Seq<char>) -> Seq<IssueView> {
    |i: int, s: Seq<char>| dns_server_issue(base, pn, i, s)
}

pub open spec fn address_issue(base: Seq<char>, pn: Seq<char>, i: int, a: Seq<char>) -> Seq<IssueView> {
    raise_if(
        cidr_parse(a) is None,
        err(
            "vpn.invalid_address"@,
            Some(base + ".connection.addresses."@ + decimal(i as nat)),
            Some(a),
            "VPN profile '"@ + pn + "' has invalid address '"@ + a + "'"@,
        ),
    )
}

pub open spec fn address_fn(base: Seq<char>, pn: Seq<char>) -> spec_fn(int, Seq<char>) -> Seq<IssueView> {
    |i: int, a: Seq<char>| address_issue(base, pn, i, a)
}

pub open spec fn allowed_ip_issue(pb: Seq<char>, pn: Seq<char>, i: int, a: Seq<char>) -> Seq<IssueView> {
    raise_if(
        cidr_parse(a) is None,
        err(
            "vpn.invalid_allowed_ip"@,
            Some(pb + ".allowedIps."@ + decimal(i as nat)),
            Some(a),
            "VPN profile '"@ + pn + "' peer has invalid allowed IP '"@ + a + "'"@,
        ),
    )
}

pub open spec fn allowed_ip_fn(pb: Seq<char>, pn: Seq<char>) -> spec_fn(int, Seq<char>) -> Seq<IssueView> {
    |i: int, a: Seq<char>| allowed_ip_issue(pb, pn, i, a)
}

pub open spec fn peer_field_issue(pb: Seq<char>, pn: Seq<char>, field: Seq<char>, value: Seq<char>) -> Seq<IssueView> {
    raise_if(
        is_blank(value),
        err(
            "vpn.empty_peer_field"@,
            Some(pb + "."@ + field),
            Some(value),
            "VPN profile '"@ + pn + "' peer "@ + field + " must not be empty"@,
        ),
    )
}

/// A peer endpoint that is given but is not an IP address with a port: one
/// that would need name resolution before the tunnel is up.
pub open spec fn peer_endpoint_issue(pb: Seq<char>, pn: Seq<char>, endpoint: Seq<char>) -> Seq<IssueView> {
    raise_if(
        !is_blank(endpoint) && !ip_endpoint(endpoint),
        err(
            "vpn.non_ip_peer_endpoint"@,
            Some(pb + ".endpoint"@),
            Some(endpoint),
            "VPN profile '"@ + pn + "' peer endpoint '"@ + endpoint
                + "' must be an IP address with a port (address:port or [address]:port)"@,
        ),
    )
}

pub open spec fn peer_issues(base: Seq<char>, pn: Seq<char>, i: int, peer: WireGuardPeer) -> Seq<IssueView> {
    let pb = base + ".connection.peers."@ + decimal(i as nat);
    peer_field_issue(pb, pn, "publicKey"@, peer.public_key@) + peer_field_issue(
        pb,
        pn,
        "endpoint"@,
        peer.endpoint@,
    ) + peer_endpoint_issue(pb, pn, peer.endpoint@) + raise_if(
        peer.allowed_ips@.len() == 0,
        err(
            "vpn.empty_allowed_ips"@,
            Some(pb + ".allowedIps"@),
            None,
            "VPN profile '"@ + pn + "' peer must declare allowedIps"@,
        ),
    ) + concat_map(str_views(peer.allowed_ips@), allowed_ip_fn(pb, pn))
}

pub open spec fn peer_fn(base: Seq<char>, pn: Seq<char>) -> spec_fn(int, WireGuardPeer) -> Seq<IssueView> {
    |i: int, p: WireGuardPeer| peer_issues(base, pn, i, p)
}

pub open spec fn wireguard_issues(base: Seq<char>, pn: Seq<char>, w: WireGuardVpnConnection) -> Seq<IssueView> {
    raise_if(
        w.addresses@.len() == 0,
        err(
            "vpn.empty_addresses"@,
            Some(base + ".connection.addresses"@),
            None,
            "VPN profile '"@ + pn + "' must declare at least one address"@,
        ),
    ) + concat_map(str_views(w.addresses@), address_fn(base, pn)) + raise_if(
        is_blank(w.private_key_ref@),
        err(
            "vpn.empty_private_key_ref"@,
            Some(base + ".connection.privateKeyRef"@),
            Some(w.private_key_ref@),
            "VPN profile '"@ + pn + "' privateKeyRef must not be empty"@,
        ),
    ) + raise_if(
        w.peers@.len() == 0,
        err(
            "vpn.empty_peers"@,
            Some(base + ".connection.peers"@),
            None,
            "VPN profile '"@ + pn + "' must declare at least one peer"@,
        ),
    ) + concat_map(w.peers@, peer_fn(base, pn))
}

pub open spec fn profile_base(hn: Seq<char>, pn: Seq<char>) -> Seq<char> {
    "hosts."@ + hn + ".vpnProfiles."@ + pn
}

pub open spec fn profile_head_issues(hn: Seq<char>, host: Host, pn: Seq<char>, p: VpnProfile) -> Seq<IssueView> {
    let base = profile_base(hn, pn);
    raise_if(
        is_blank(p.provider@),
        err(
            "vpn.empty_provider"@,
            Some(base + ".provider"@),
            Some(p.provider@),
            "VPN profile '"@ + pn + "' on host '"@ + hn + "' must declare provider"@,
        ),
    ) + match p.owner {
        Some(o) => raise_if(
            lookup(user_entries(host.users), o@) is None,
            err(
                "vpn.unknown_owner"@,
                Some(base + ".owner"@),
                Some(o@),
                "VPN profile '"@ + pn + "' on host '"@ + hn + "' references unknown user '"@ + o@
                    + "'"@,
            ),
        ),
        None => Seq::empty(),
    }
}

pub open spec fn profile_dns_issues(base: Seq<char>, pn: Seq<char>, p: VpnProfile) -> Seq<IssueView> {
    concat_map(str_views(p.dns_servers@), dns_server_fn(base, pn)) + raise_if(
        p.dns_servers@.len() == 0,
        err(
            "vpn.empty_dns_servers"@,
            Some(base + ".dnsServers"@),
            None,
            "VPN profile '"@ + pn + "' must declare at least one DNS server"@,
        ),
    )
}

pub open spec fn profile_forwarding_issues(base: Seq<char>, pn: Seq<char>, p: VpnProfile) -> Seq<IssueView> {
    match p.port_forwarding {
        Some(VpnPortForwarding::NatPmp(f)) => raise_if(
            !(ip_parse(f.gateway@) matches Some(IpValue::V4(_))),
            err(
                "vpn.invalid_port_forwarding_gateway"@,
                Some(base + ".portForwarding.gateway"@),
                Some(f.gateway@),
                "VPN profile '"@ + pn + "' has invalid port-forwarding gateway '"@ + f.gateway@
                    + "' (NAT-PMP needs an IPv4 address)"@,
            ),
        ),
        None => Seq::empty(),
    }
}

pub open spec fn profile_issues(hn: Seq<char>, host: Host, pn: Seq<char>, p: VpnProfile) -> Seq<IssueView> {
    let base = profile_base(hn, pn);
    profile_head_issues(hn, host, pn, p) + profile_dns_issues(base, pn, p) + match p.connection {
        VpnConnection::WireGuard(w) => wireguard_issues(base, pn, w),
    } + profile_forwarding_issues(base, pn, p)
}

pub open spec fn profile_fn(hn: Seq<char>, host: Host) -> spec_fn(int, (Seq<char>, VpnProfile)) -> Seq<IssueView> {
    |i: int, e: (Seq<char>, VpnProfile)| profile_issues(hn, host, e.0, e.1)
}

pub open spec fn host_vpn_fn() -> spec_fn(int, (Seq<char>, Host)) -> Seq<IssueView> {
    |i: int, e: (Seq<char>, Host)| concat_map(vpn_profile_entries(e.1.vpn_profiles), profile_fn(e.0, e.1))
}

/// Every VPN profile needs a provider, an owner among the host's users (when
/// named), parseable DNS servers, WireGuard addresses, a private key
/// reference, peers with keys, endpoints that are IP addresses with ports
/// (no DNS names) and allowed IPs, and an IPv4 gateway for NAT-PMP.
pub open spec fn vpn_issues(t: Topology) -> Seq<IssueView> {
    concat_map(host_entries(t.hosts), host_vpn_fn())
}

fn check_peer(report: &mut ValidationReport, base: &str, pn: &str, i: usize, peer: &WireGuardPeer)
    ensures
        issues_view(final(report).issues@) == issues_view(old(report).issues@) + peer_issues(
            base@,
            pn@,
            i as int,
            *peer,
        ),
{
    let ghost start = issues_view(report.issues@);
    let pb = s3(base, ".connection.peers.", dec(i).as_str());
    if is_blank_str(peer.public_key.as_str()) {
        report.error(
            "vpn.empty_peer_field",
            Some(s3(pb.as_str(), ".", "publicKey")),
            Some(copy(peer.public_key.as_str())),
            s5("VPN profile '", pn, "' peer ", "publicKey", " must not be empty"),
        );
    }
    if is_blank_str(peer.endpoint.as_str()) {
        report.error(
            "vpn.empty_peer_field",
            Some(s3(pb.as_str(), ".", "endpoint")),
            Some(copy(peer.endpoint.as_str())),
            s5("VPN profile '", pn, "' peer ", "endpoint", " must not be empty"),
        );
    } else if !is_ip_endpoint(peer.endpoint.as_str()) {
        let mut m = s4("VPN profile '", pn, "' peer endpoint '", peer.endpoint.as_str());
        crate::text::append_str(
            &mut m,
            "' must be an IP address with a port (address:port or [address]:port)",
        );
        report.error(
            "vpn.non_ip_peer_endpoint",
            Some(s2(pb.as_str(), ".endpoint")),
            Some(copy(peer.endpoint.as_str())),
            m,
        );
    }
    if peer.allowed_ips.len() == 0 {
        report.error(
            "vpn.empty_allowed_ips",
            Some(s2(pb.as_str(), ".allowedIps")),
            None,
            s3("VPN profile '", pn, "' peer must declare allowedIps"),
        );
    }
    let ghost mid = issues_view(report.issues@);
    let ghost ips = str_views(peer.allowed_ips@);
    let ghost f = allowed_ip_fn(pb@, pn@);
    let mut k: usize = 0;
    while k < peer.allowed_ips.len()
        invariant
            ips == str_views(peer.allowed_ips@),
            f == allowed_ip_fn(pb@, pn@),
            0 <= k <= peer.allowed_ips@.len(),
            issues_view(report.issues@) == mid + concat_map(ips.take(k as int), f),
        decreases peer.allowed_ips@.len() - k,
    {
        let allowed = peer.allowed_ips[k].as_str();
        proof {
            lemma_concat_map_step(ips, f, k as int);
            assert(ips[k as int] == allowed@);
        }
        if parse_cidr(allowed).is_none() {
            report.error(
                "vpn.invalid_allowed_ip",
                Some(s3(pb.as_str(), ".allowedIps.", dec(k).as_str())),
                Some(copy(allowed)),
                s5("VPN profile '", pn, "' peer has invalid allowed IP '", allowed, "'"),
            );
        }
        k += 1;
    }
    proof {
        lemma_concat_map_all(ips, f);
    }
    assert(issues_view(report.issues@) =~= start + peer_issues(base@, pn@, i as int, *peer));
}

fn check_wireguard(report: &mut ValidationReport, base: &str, pn: &str, w: &WireGuardVpnConnection)
    ensures
        issues_view(final(report).issues@) == issues_view(old(report).issues@) + wireguard_issues(
            base@,
            pn@,
            *w,
        ),
{
    let ghost start = issues_view(report.issues@);
    if w.addresses.len() == 0 {
        report.error(
            "vpn.empty_addresses",
            Some(s2(base, ".connection.addresses")),
            None,
            s3("VPN profile '", pn, "' must declare at least one address"),
        );
    }
    let ghost m1 = issues_view(report.issues@);
    let ghost addrs = str_views(w.addresses@);
    let ghost f = address_fn(base@, pn@);
    let mut k: usize = 0;
    while k < w.addresses.len()
        invariant
            addrs == str_views(w.addresses@),
            f == address_fn(base@, pn@),
            0 <= k <= w.addresses@.len(),
            issues_view(report.issues@) == m1 + concat_map(addrs.take(k as int), f),
        decreases w.addresses@.len() - k,
    {
        let address = w.addresses[k].as_str();
        proof {
            lemma_concat_map_step(addrs, f, k as int);
            assert(addrs[k as int] == address@);
        }
        if parse_cidr(address).is_none() {
            report.error(
                "vpn.invalid_address",
                Some(s3(base, ".connection.addresses.", dec(k).as_str())),
                Some(copy(address)),
                s5("VPN profile '", pn, "' has invalid address '", address, "'"),
            );
        }
        k += 1;
    }
    proof {
        lemma_concat_map_all(addrs, f);
    }
    let ghost m2 = issues_view(report.issues@);
    if is_blank_str(w.private_key_ref.as_str()) {
        report.error(
            "vpn.empty_private_key_ref",
            Some(s2(base, ".connection.privateKeyRef")),
            Some(copy(w.private_key_ref.as_str())),
            s3("VPN profile '", pn, "' privateKeyRef must not be empty"),
        );
    }
    if w.peers.len() == 0 {
        report.error(
            "vpn.empty_peers",
            Some(s2(base, ".connection.peers")),
            None,
            s3("VPN profile '", pn, "' must declare at least one peer"),
        );
    }
    let ghost m3 = issues_view(report.issues@);
    let ghost g = peer_fn(base@, pn@);
    let mut p: usize = 0;
    while p < w.peers.len()
        invariant
            g == peer_fn(base@, pn@),
            0 <= p <= w.peers@.len(),
            issues_view(report.issues@) == m3 + concat_map(w.peers@.take(p as int), g),
        decreases w.peers@.len() - p,
    {
        proof {
            lemma_concat_map_step(w.peers@, g, p as int);
        }
        check_peer(report, base, pn, p, &w.peers[p]);
        p += 1;
    }
    proof {
        lemma_concat_map_all(w.peers@, g);
    }
    assert(issues_view(report.issues@) =~= start + wireguard_issues(base@, pn@, *w));
}

fn check_profile_head(
    report: &mut ValidationReport,
    hn: &str,
    host: &Host,
    pn: &str,
    base: &str,
    profile: &VpnProfile,
)
    requires
        base@ == profile_base(hn@, pn@),
    ensures
        issues_view(final(report).issues@) == issues_view(old(report).issues@)
            + profile_head_issues(hn@, *host, pn@, *profile),
{
    let ghost start = issues_view(report.issues@);
    if is_blank_str(profile.provider.as_str()) {
        report.error(
            "vpn.empty_provider",
            Some(s2(base, ".provider")),
            Some(copy(profile.provider.as_str())),
            s5("VPN profile '", pn, "' on host '", hn, "' must declare provider"),
        );
    }
    if let Some(owner) = &profile.owner {
        if user_map_get(&host.users, owner.as_str()).is_none() {
            let mut m = s5("VPN profile '", pn, "' on host '", hn, "' references unknown user '");
            crate::text::append_str(&mut m, owner.as_str());
            crate::text::append_str(&mut m, "'");
            report.error("vpn.unknown_owner", Some(s2(base, ".owner")), Some(copy(owner.as_str())), m);
        }
    }
    assert(issues_view(report.issues@) =~= start + profile_head_issues(hn@, *host, pn@, *profile));
}

fn check_profile_dns(report: &mut ValidationReport, pn: &str, base: &str, profile: &VpnProfile)
    ensures
        issues_view(final(report).issues@) == issues_view(old(report).issues@)
            + profile_dns_issues(base@, pn@, *profile),
{
    let ghost m1 = issues_view(report.issues@);
    let ghost servers = str_views(profile.dns_servers@);
    let ghost f = dns_server_fn(base@, pn@);
    let mut k: usize = 0;
    while k < profile.dns_servers.len()
        invariant
            servers == str_views(profile.dns_servers@),
            f == dns_server_fn(base@, pn@),
            0 <= k <= profile.dns_servers@.len(),
            issues_view(report.issues@) == m1 + concat_map(servers.take(k as int), f),
        decreases profile.dns_servers@.len() - k,
    {
        let server = profile.dns_servers[k].as_str();
        proof {
            lemma_concat_map_step(servers, f, k as int);
            assert(servers[k as int] == server@);
        }
        if parse_ip(server).is_none() {
            report.error(
                "vpn.invalid_dns_server",
                Some(s3(base, ".dnsServers.", dec(k).as_str())),
                Some(copy(server)),
                s5("VPN profile '", pn, "' has invalid DNS server '", server, "'"),
            );
        }
        k += 1;
    }
    proof {
        lemma_concat_map_all(servers, f);
    }
    let ghost m2 = issues_view(report.issues@);
    if profile.dns_servers.len() == 0 {
        report.error(
            "vpn.empty_dns_servers",
            Some(s2(base, ".dnsServers")),
            None,
            s3("VPN profile '", pn, "' must declare at least one DNS server"),
        );
    }
    assert(issues_view(report.issues@) =~= m1 + profile_dns_issues(base@, pn@, *profile));
}

fn check_profile_forwarding(report: &mut ValidationReport, pn: &str, base: &str, profile: &VpnProfile)
    ensures
        issues_view(final(report).issues@) == issues_view(old(report).issues@)
            + profile_forwarding_issues(base@, pn@, *profile),
{
    let ghost start = issues_view(report.issues@);
    if let Some(VpnPortForwarding::NatPmp(forwarding)) = &profile.port_forwarding {
        let ipv4 = match parse_ip(forwarding.gateway.as_str()) {
            Some(IpValue::V4(_)) => true,
            _ => false,
        };
        if !ipv4 {
            let mut m = s3("VPN profile '", pn, "' has invalid port-forwarding gateway '");
            crate::text::append_str(&mut m, forwarding.gateway.as_str());
            crate::text::append_str(&mut m, "' (NAT-PMP needs an IPv4 address)");
            report.error(
                "vpn.invalid_port_forwarding_gateway",
                Some(s2(base, ".portForwarding.gateway")),
                Some(copy(forwarding.gateway.as_str())),
                m,
            );
        }
    }
    assert(issues_view(report.issues@) =~= start + profile_forwarding_issues(base@, pn@, *profile));
}

#[verifier::rlimit(30)]
fn check_profile(report: &mut ValidationReport, hn: &str, host: &Host, pn: &str, profile: &VpnProfile)
    ensures
        issues_view(final(report).issues@) == issues_view(old(report).issues@) + profile_issues(
            hn@,
            *host,
            pn@,
            *profile,
        ),
{
    let ghost s0 = issues_view(report.issues@);
    let base = s4("hosts.", hn, ".vpnProfiles.", pn);
    check_profile_head(report, hn, host, pn, base.as_str(), profile);
    let ghost s1 = issues_view(report.issues@);
    check_profile_dns(report, pn, base.as_str(), profile);
    let ghost s2_ = issues_view(report.issues@);
    match &profile.connection {
        VpnConnection::WireGuard(w) => {
            check_wireguard(report, base.as_str(), pn, w);
        },
    }
    let ghost s3_ = issues_view(report.issues@);
    check_profile_forwarding(report, pn, base.as_str(), profile);
    assert(issues_view(report.issues@) =~= s0 + profile_issues(hn@, *host, pn@, *profile));
}

/// Checks the VPN profiles of every host.
pub fn validate_vpn_profiles(topology: &Topology, report: &mut ValidationReport)
    ensures
        issues_view(final(report).issues@) == issues_view(old(report).issues@) + vpn_issues(
            *topology,
        ),
{
    let ghost start = issues_view(report.issues@);
    let ghost hosts = host_entries(topology.hosts);
    let ghost f = host_vpn_fn();
    let n = host_map_len(&topology.hosts);
    let mut i: usize = 0;
    while i < n
        invariant
            hosts == host_entries(topology.hosts),
            f == host_vpn_fn(),
            n == hosts.len(),
            0 <= i <= n,
            issues_view(report.issues@) == start + concat_map(hosts.take(i as int), f),
        decreases n - i,
    {
        match host_map_get_index(&topology.hosts, i) {
            Some((hn, host)) => {
                proof {
                    lemma_concat_map_step(hosts, f, i as int);
                }
                let ghost before = issues_view(report.issues@);
                let ghost ps = vpn_profile_entries(host.vpn_profiles);
                let ghost g = profile_fn(hn@, *host);
                let m = vpn_profile_map_len(&host.vpn_profiles);
                let mut j: usize = 0;
                while j < m
                    invariant
                        ps == vpn_profile_entries(host.vpn_profiles),
                        g == profile_fn(hn@, *host),
                        m == ps.len(),
                        0 <= j <= m,
                        issues_view(report.issues@) == before + concat_map(ps.take(j as int), g),
                    decreases m - j,
                {
                    match vpn_profile_map_get_index(&host.vpn_profiles, j) {
                        Some((pn, profile)) => {
                            proof {
                                lemma_concat_map_step(ps, g, j as int);
                            }
                            check_profile(report, hn.as_str(), host, pn.as_str(), profile);
                        },
                        None => {},
                    }
                    j += 1;
                }
                proof {
                    lemma_concat_map_all(ps, g);
                }
            },
            None => {},
        }
        i += 1;
    }
    proof {
        lemma_concat_map_all(hosts, f);
    }
}

} // verus!
