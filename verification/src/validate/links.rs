//! Links and their participants: ports, subnets, servers, addresses and
//! keys, and the host references that point at links and hosts.
use super::{
    concat_map, err, issues_view, lemma_concat_map_all, lemma_concat_map_contains,
    lemma_concat_map_origin, ValidationSeverity,
    lemma_concat_map_step, raise_if, validation_issues, warn, IssueView, ValidationReport,
};
use crate::maps::{
    binding_entries, binding_map_get, binding_map_get_index, binding_map_len, host_entries,
    host_map_get, host_map_get_index, host_map_len, link_entries, link_map_get, link_map_get_index,
    link_map_len, lookup,
};
use crate::net::{address_in_subnet, cidr_parse, in_subnet, ip_parse, parse_cidr, parse_ip};
use crate::strs::{contains_string, copy, dec, push_copy, s2, s3, s4, s5, s7, str_views};
use crate::text::{append_str, decimal};
use crate::topology::{Host, Link, LinkBinding, LinkRole, Topology};
use vstd::prelude::*;

verus! {

/// The binding a host declares for a link.
pub open spec fn binding_of(h: Host, ln: Seq<char>) -> Option<LinkBinding> {
    lookup(binding_entries(h.links), ln)
}

pub open spec fn is_server_on(h: Host, ln: Seq<char>) -> bool {
    match binding_of(h, ln) {
        Some(b) => b.role == LinkRole::Server,
        None => false,
    }
}

/// How many of the hosts serve the link.
pub open spec fn server_count(hosts: Seq<(Seq<char>, Host)>, ln: Seq<char>) -> nat
    decreases hosts.len(),
{
    if hosts.len() == 0 {
        0
    } else {
        server_count(hosts.drop_last(), ln) + if is_server_on(hosts.last().1, ln) {
            1nat
        } else {
            0nat
        }
    }
}

/// How many of the hosts take part in the link.
pub open spec fn participant_count(hosts: Seq<(Seq<char>, Host)>, ln: Seq<char>) -> nat
    decreases hosts.len(),
{
    if hosts.len() == 0 {
        0
    } else {
        participant_count(hosts.drop_last(), ln) + if binding_of(hosts.last().1, ln) is Some {
            1nat
        } else {
            0nat
        }
    }
}

/// The addresses the hosts hold on the link, in host order.
pub open spec fn link_addresses(hosts: Seq<(Seq<char>, Host)>, ln: Seq<char>) -> Seq<Seq<char>>
    decreases hosts.len(),
{
    if hosts.len() == 0 {
        Seq::empty()
    } else {
        let rest = link_addresses(hosts.drop_last(), ln);
        match binding_of(hosts.last().1, ln) {
            Some(b) => rest.push(b.address@),
            None => rest,
        }
    }
}

pub open spec fn binding_base(hn: Seq<char>, ln: Seq<char>) -> Seq<char> {
    "hosts."@ + hn + ".links."@ + ln
}

pub open spec fn address_issues(hn: Seq<char>, ln: Seq<char>, l: Link, b: LinkBinding) -> Seq<IssueView> {
    match cidr_parse(l.subnet@) {
        Some((net, p)) => match ip_parse(b.address@) {
            Some(a) => raise_if(
                !in_subnet(a, net, p),
                err(
                    "link.address_outside_subnet"@,
                    Some(binding_base(hn, ln) + ".address"@),
                    Some(b.address@),
                    "host '"@ + hn + "' address '"@ + b.address@ + "' is outside link '"@ + ln
                        + "' subnet '"@ + l.subnet@ + "'"@,
                ),
            ),
            None => seq![
                err(
                    "link.invalid_address"@,
                    Some(binding_base(hn, ln) + ".address"@),
                    Some(b.address@),
                    "host '"@ + hn + "' on link '"@ + ln + "' has invalid address '"@ + b.address@
                        + "'"@,
                ),
            ],
        },
        None => Seq::empty(),
    }
}

/// What one host's binding to a link raises, given the addresses taken by
/// the hosts before it.
pub open spec fn member_issues(
    seen: Seq<Seq<char>>,
    hn: Seq<char>,
    ln: Seq<char>,
    l: Link,
    h: Host,
) -> Seq<IssueView> {
    match binding_of(h, ln) {
        Some(b) => raise_if(
            seen.contains(b.address@),
            err(
                "link.duplicate_address"@,
                Some(binding_base(hn, ln) + ".address"@),
                Some(b.address@),
                "link '"@ + ln + "' has duplicate address '"@ + b.address@ + "' (host '"@ + hn
                    + "')"@,
            ),
        ) + address_issues(hn, ln, l, b) + raise_if(
            b.role == LinkRole::Server && b.public_key is None,
            err(
                "link.server_missing_public_key"@,
                Some(binding_base(hn, ln) + ".publicKey"@),
                None,
                "server '"@ + hn + "' on link '"@ + ln + "' must declare publicKey"@,
            ),
        ),
        None => Seq::empty(),
    }
}

pub open spec fn member_fn(hosts: Seq<(Seq<char>, Host)>, ln: Seq<char>, l: Link) -> spec_fn(
    int,
    (Seq<char>, Host),
) -> Seq<IssueView> {
    |i: int, e: (Seq<char>, Host)| member_issues(link_addresses(hosts.take(i), ln), e.0, ln, l, e.1)
}

pub open spec fn server_issues(hosts: Seq<(Seq<char>, Host)>, ln: Seq<char>) -> Seq<IssueView> {
    let n = server_count(hosts, ln);
    if n == 0 {
        seq![
            warn(
                "link.no_server"@,
                Some("links."@ + ln),
                None,
                "link '"@ + ln + "' has no server \u{2014} this is fine for peer-to-peer links"@,
            ),
        ]
    } else if n > 1 {
        seq![
            err(
                "link.multiple_servers"@,
                Some("links."@ + ln),
                Some(decimal(n)),
                "link '"@ + ln + "' has "@ + decimal(n) + " servers \u{2014} at most 1 allowed"@,
            ),
        ]
    } else {
        Seq::empty()
    }
}

/// A link needs a non-zero port, a valid subnet and at most one server;
/// its participants need distinct addresses inside the subnet, and its
/// server a public key.
pub open spec fn link_issues(t: Topology, ln: Seq<char>, l: Link) -> Seq<IssueView> {
    let hosts = host_entries(t.hosts);
    raise_if(
        l.port == 0,
        err(
            "link.invalid_port"@,
            Some("links."@ + ln + ".port"@),
            Some("0"@),
            "link '"@ + ln + "' must use a non-zero port"@,
        ),
    ) + raise_if(
        cidr_parse(l.subnet@) is None,
        err(
            "link.invalid_subnet"@,
            Some("links."@ + ln + ".subnet"@),
            Some(l.subnet@),
            "link '"@ + ln + "' has invalid subnet '"@ + l.subnet@ + "'"@,
        ),
    ) + server_issues(hosts, ln) + concat_map(hosts, member_fn(hosts, ln, l))
}

pub open spec fn link_fn(t: Topology) -> spec_fn(int, (Seq<char>, Link)) -> Seq<IssueView> {
    |i: int, e: (Seq<char>, Link)| link_issues(t, e.0, e.1)
}

pub open spec fn peer_fn(t: Topology, hn: Seq<char>) -> spec_fn(int, Seq<char>) -> Seq<IssueView> {
    |i: int, peer: Seq<char>|
        raise_if(
            lookup(host_entries(t.hosts), peer) is None,
            err(
                "host.invalid_direct_peer"@,
                Some("hosts."@ + hn + ".network.directLinkPeers"@),
                Some(peer),
                "host '"@ + hn + "' references unknown direct-link peer '"@ + peer + "'"@,
            ),
        )
}

pub open spec fn undeclared_fn(t: Topology, hn: Seq<char>) -> spec_fn(
    int,
    (Seq<char>, LinkBinding),
) -> Seq<IssueView> {
    |i: int, e: (Seq<char>, LinkBinding)|
        raise_if(
            lookup(link_entries(t.links), e.0) is None,
            err(
                "host.undeclared_link"@,
                Some(binding_base(hn, e.0)),
                Some(e.0),
                "host '"@ + hn + "' has binding for undeclared link '"@ + e.0 + "'"@,
            ),
        )
}

/// A host's direct-link peers must be hosts, and its bindings declared links.
pub open spec fn host_ref_issues(t: Topology, hn: Seq<char>, h: Host) -> Seq<IssueView> {
    concat_map(str_views(h.network.direct_link_peers@), peer_fn(t, hn)) + concat_map(
        binding_entries(h.links),
        undeclared_fn(t, hn),
    )
}

pub open spec fn host_ref_fn(t: Topology) -> spec_fn(int, (Seq<char>, Host)) -> Seq<IssueView> {
    |i: int, e: (Seq<char>, Host)| host_ref_issues(t, e.0, e.1)
}

/// A host's build host must be a host.
pub open spec fn build_host_issues(t: Topology, hn: Seq<char>, h: Host) -> Seq<IssueView> {
    match h.rebuild.build_host {
        Some(b) => raise_if(
            lookup(host_entries(t.hosts), b@) is None,
            err(
                "host.invalid_build_host"@,
                Some("hosts."@ + hn + ".rebuild.buildHost"@),
                Some(b@),
                "host '"@ + hn + "' has rebuild.buildHost '"@ + b@
                    + "' which does not exist in hosts"@,
            ),
        ),
        None => Seq::empty(),
    }
}

pub open spec fn build_host_fn(t: Topology) -> spec_fn(int, (Seq<char>, Host)) -> Seq<IssueView> {
    |i: int, e: (Seq<char>, Host)| build_host_issues(t, e.0, e.1)
}

pub open spec fn client_key_fn(ln: Seq<char>) -> spec_fn(int, (Seq<char>, Host)) -> Seq<IssueView> {
    |i: int, e: (Seq<char>, Host)|
        match binding_of(e.1, ln) {
            Some(b) => raise_if(
                b.role != LinkRole::Server && b.public_key is None,
                warn(
                    "link.client_missing_public_key"@,
                    Some(binding_base(e.0, ln) + ".publicKey"@),
                    None,
                    "host '"@ + e.0 + "' on link '"@ + ln
                        + "' has no publicKey \u{2014} WireGuard will not work"@,
                ),
            ),
            None => Seq::empty(),
        }
}

/// On a link with more than one participant, every client without a
/// public key is warned about.
pub open spec fn client_issues(t: Topology, ln: Seq<char>) -> Seq<IssueView> {
    let hosts = host_entries(t.hosts);
    if participant_count(hosts, ln) > 1 {
        concat_map(hosts, client_key_fn(ln))
    } else {
        Seq::empty()
    }
}

pub open spec fn client_fn(t: Topology) -> spec_fn(int, (Seq<char>, Link)) -> Seq<IssueView> {
    |i: int, e: (Seq<char>, Link)| client_issues(t, e.0)
}

/// The issues of the links, in link order.
pub open spec fn links_issues(t: Topology) -> Seq<IssueView> {
    concat_map(link_entries(t.links), link_fn(t))
}

/// The issues of host references, in host order: peers and bindings first
/// for every host, then build hosts for every host.
pub open spec fn host_refs_issues(t: Topology) -> Seq<IssueView> {
    concat_map(host_entries(t.hosts), host_ref_fn(t)) + concat_map(
        host_entries(t.hosts),
        build_host_fn(t),
    )
}

/// The warnings about clients without keys, in link order.
pub open spec fn clients_issues(t: Topology) -> Seq<IssueView> {
    concat_map(link_entries(t.links), client_fn(t))
}

proof fn lemma_one_participant(hosts: Seq<(Seq<char>, Host)>, ln: Seq<char>, i: int)
    requires
        0 <= i < hosts.len(),
        binding_of(hosts[i].1, ln) is Some,
    ensures
        participant_count(hosts, ln) >= 1,
    decreases hosts.len(),
{
    if i < hosts.len() - 1 {
        assert(hosts.drop_last()[i] == hosts[i]);
        lemma_one_participant(hosts.drop_last(), ln, i);
    }
}

proof fn lemma_two_participants(hosts: Seq<(Seq<char>, Host)>, ln: Seq<char>, i: int, j: int)
    requires
        0 <= i < hosts.len(),
        0 <= j < hosts.len(),
        i != j,
        binding_of(hosts[i].1, ln) is Some,
        binding_of(hosts[j].1, ln) is Some,
    ensures
        participant_count(hosts, ln) >= 2,
    decreases hosts.len(),
{
    let last = hosts.len() - 1;
    if i < last && j < last {
        assert(hosts.drop_last()[i] == hosts[i]);
        assert(hosts.drop_last()[j] == hosts[j]);
        lemma_two_participants(hosts.drop_last(), ln, i, j);
    } else if i == last {
        assert(hosts.drop_last()[j] == hosts[j]);
        lemma_one_participant(hosts.drop_last(), ln, j);
    } else {
        assert(hosts.drop_last()[i] == hosts[i]);
        lemma_one_participant(hosts.drop_last(), ln, i);
    }
}

proof fn lemma_participant_exists(hosts: Seq<(Seq<char>, Host)>, ln: Seq<char>, skip: int) -> (j: int)
    requires
        participant_count(hosts, ln) >= 2 || (participant_count(hosts, ln) >= 1 && (skip < 0
            || skip >= hosts.len() || binding_of(hosts[skip].1, ln) is None)),
    ensures
        0 <= j < hosts.len(),
        j != skip,
        binding_of(hosts[j].1, ln) is Some,
    decreases hosts.len(),
{
    let last = hosts.len() - 1;
    if hosts.len() == 0 {
        assert(false);
        0
    } else if binding_of(hosts[last].1, ln) is Some && last != skip {
        last
    } else {
        let p = hosts.drop_last();
        let j = lemma_participant_exists(p, ln, skip);
        assert(p[j] == hosts[j]);
        j
    }
}

/// Every warning about a missing client key is justified: it names a host
/// that takes part in the link without serving it and without a public key,
/// on a link another host takes part in too.
pub proof fn lemma_client_warnings_are_justified(t: Topology, k: int)
    requires
        0 <= k < clients_issues(t).len(),
    ensures
        exists|li: int, i: int, j: int|
            #![trigger link_entries(t.links)[li], host_entries(t.hosts)[i], host_entries(t.hosts)[j]]
            0 <= li < link_entries(t.links).len() && 0 <= i < host_entries(t.hosts).len() && 0 <= j
                < host_entries(t.hosts).len() && i != j && (binding_of(
                host_entries(t.hosts)[i].1,
                link_entries(t.links)[li].0,
            ) matches Some(b) && b.role != LinkRole::Server && b.public_key is None) && binding_of(
                host_entries(t.hosts)[j].1,
                link_entries(t.links)[li].0,
            ) is Some && clients_issues(t)[k].severity == ValidationSeverity::Warning
                && clients_issues(t)[k].code == "link.client_missing_public_key"@
                && clients_issues(t)[k].path == Some(
                "hosts."@ + host_entries(t.hosts)[i].0 + ".links."@ + link_entries(t.links)[li].0
                    + ".publicKey"@,
            ),
{
    let hosts = host_entries(t.hosts);
    let links = link_entries(t.links);
    let r = lemma_concat_map_origin(links, client_fn(t), k);
    let li = r.0;
    let ln = links[li].0;
    let ci = client_issues(t, ln);
    assert(client_fn(t)(li, links[li]) == ci);
    assert(participant_count(hosts, ln) > 1);
    let g = client_key_fn(ln);
    let q = lemma_concat_map_origin(hosts, g, r.1);
    let i = q.0;
    assert(binding_of(hosts[i].1, ln) is Some);
    let j = lemma_participant_exists(hosts, ln, i);
    assert(link_entries(t.links)[li] == links[li]);
    assert(host_entries(t.hosts)[i] == hosts[i] && host_entries(t.hosts)[j] == hosts[j]);
}

/// On a link that two hosts (or more) take part in, every participant that
/// does not serve it and declares no public key is warned about, at its
/// binding's `publicKey`.
pub proof fn lemma_keyless_clients_are_warned(t: Topology, li: int, i: int, j: int)
    requires
        0 <= li < link_entries(t.links).len(),
        0 <= i < host_entries(t.hosts).len(),
        0 <= j < host_entries(t.hosts).len(),
        i != j,
        binding_of(host_entries(t.hosts)[i].1, link_entries(t.links)[li].0) matches Some(b) && b.role
            != LinkRole::Server && b.public_key is None,
        binding_of(host_entries(t.hosts)[j].1, link_entries(t.links)[li].0) is Some,
    ensures
        validation_issues(t).contains(
            warn(
                "link.client_missing_public_key"@,
                Some(
                    "hosts."@ + host_entries(t.hosts)[i].0 + ".links."@ + link_entries(t.links)[li].0
                        + ".publicKey"@,
                ),
                None,
                "host '"@ + host_entries(t.hosts)[i].0 + "' on link '"@ + link_entries(t.links)[li].0
                    + "' has no publicKey \u{2014} WireGuard will not work"@,
            ),
        ),
{
    let hosts = host_entries(t.hosts);
    let links = link_entries(t.links);
    let ln = links[li].0;
    let hn = hosts[i].0;
    let w = warn(
        "link.client_missing_public_key"@,
        Some("hosts."@ + hn + ".links."@ + ln + ".publicKey"@),
        None,
        "host '"@ + hn + "' on link '"@ + ln + "' has no publicKey \u{2014} WireGuard will not work"@,
    );
    lemma_two_participants(hosts, ln, i, j);
    let g = client_key_fn(ln);
    assert(g(i, hosts[i]) == seq![w]);
    assert(seq![w][0] == w);
    lemma_concat_map_contains(hosts, g, i, w);
    assert(client_issues(t, ln).contains(w));
    assert(client_fn(t)(li, links[li]) == client_issues(t, ln));
    lemma_concat_map_contains(links, client_fn(t), li, w);
    let c = clients_issues(t);
    let k = choose|k: int| 0 <= k < c.len() && c[k] == w;
    let v = validation_issues(t);
    let front = v.len() - c.len();
    assert(v[front + k] == w);
}

/// The number of hosts that serve a link.
pub fn count_link_servers(topology: &Topology, ln: &str) -> (n: usize)
    ensures
        n == server_count(host_entries(topology.hosts), ln@),
{
    let ghost hosts = host_entries(topology.hosts);
    let len = host_map_len(&topology.hosts);
    let mut count: usize = 0;
    let mut i: usize = 0;
    while i < len
        invariant
            hosts == host_entries(topology.hosts),
            len == hosts.len(),
            0 <= i <= len,
            count <= i,
            count == server_count(hosts.take(i as int), ln@),
        decreases len - i,
    {
        assert(hosts.take(i + 1).drop_last() =~= hosts.take(i as int));
        match host_map_get_index(&topology.hosts, i) {
            Some((_, h)) => {
                if let Some(b) = binding_map_get(&h.links, ln) {
                    if b.role == LinkRole::Server {
                        count += 1;
                    }
                }
            },
            None => {},
        }
        i += 1;
    }
    assert(hosts.take(len as int) =~= hosts);
    count
}

/// The number of hosts that take part in a link.
pub fn count_link_participants(topology: &Topology, ln: &str) -> (n: usize)
    ensures
        n == participant_count(host_entries(topology.hosts), ln@),
{
    let ghost hosts = host_entries(topology.hosts);
    let len = host_map_len(&topology.hosts);
    let mut count: usize = 0;
    let mut i: usize = 0;
    while i < len
        invariant
            hosts == host_entries(topology.hosts),
            len == hosts.len(),
            0 <= i <= len,
            count <= i,
            count == participant_count(hosts.take(i as int), ln@),
        decreases len - i,
    {
        assert(hosts.take(i + 1).drop_last() =~= hosts.take(i as int));
        match host_map_get_index(&topology.hosts, i) {
            Some((_, h)) => {
                if binding_map_get(&h.links, ln).is_some() {
                    count += 1;
                }
            },
            None => {},
        }
        i += 1;
    }
    assert(hosts.take(len as int) =~= hosts);
    count
}

fn check_address(report: &mut ValidationReport, hn: &str, ln: &str, l: &Link, b: &LinkBinding)
    ensures
        issues_view(final(report).issues@) == issues_view(old(report).issues@) + address_issues(
            hn@,
            ln@,
            *l,
            *b,
        ),
{
    let ghost start = issues_view(report.issues@);
    if let Some((network, prefix)) = parse_cidr(l.subnet.as_str()) {
        let a = b.address.as_str();
        match parse_ip(a) {
            Some(address) => {
                if !address_in_subnet(address, network, prefix) {
                    let mut m = s7(
                        "host '",
                        hn,
                        "' address '",
                        a,
                        "' is outside link '",
                        ln,
                        "' subnet '",
                    );
                    append_str(&mut m, l.subnet.as_str());
                    append_str(&mut m, "'");
                    report.error(
                        "link.address_outside_subnet",
                        Some(s5("hosts.", hn, ".links.", ln, ".address")),
                        Some(copy(a)),
                        m,
                    );
                }
            },
            None => {
                report.error(
                    "link.invalid_address",
                    Some(s5("hosts.", hn, ".links.", ln, ".address")),
                    Some(copy(a)),
                    s7("host '", hn, "' on link '", ln, "' has invalid address '", a, "'"),
                );
            },
        }
    }
    assert(issues_view(report.issues@) =~= start + address_issues(hn@, ln@, *l, *b));
}

fn check_member(
    report: &mut ValidationReport,
    seen: &mut Vec<String>,
    hn: &str,
    ln: &str,
    l: &Link,
    h: &Host,
)
    ensures
        str_views(final(seen)@) == match binding_of(*h, ln@) {
            Some(b) => str_views(old(seen)@).push(b.address@),
            None => str_views(old(seen)@),
        },
        issues_view(final(report).issues@) == issues_view(old(report).issues@) + member_issues(
            str_views(old(seen)@),
            hn@,
            ln@,
            *l,
            *h,
        ),
{
    let ghost start = issues_view(report.issues@);
    match binding_map_get(&h.links, ln) {
        Some(b) => {
            let a = b.address.as_str();
            if contains_string(seen, a) {
                report.error(
                    "link.duplicate_address",
                    Some(s5("hosts.", hn, ".links.", ln, ".address")),
                    Some(copy(a)),
                    s7("link '", ln, "' has duplicate address '", a, "' (host '", hn, "')"),
                );
            }
            push_copy(seen, a);
            let ghost mid = issues_view(report.issues@);
            check_address(report, hn, ln, l, b);
            let ghost mid2 = issues_view(report.issues@);
            if b.role == LinkRole::Server && b.public_key.is_none() {
                report.error(
                    "link.server_missing_public_key",
                    Some(s5("hosts.", hn, ".links.", ln, ".publicKey")),
                    None,
                    s5("server '", hn, "' on link '", ln, "' must declare publicKey"),
                );
            }
            assert(issues_view(report.issues@) =~= start + member_issues(
                str_views(old(seen)@),
                hn@,
                ln@,
                *l,
                *h,
            ));
        },
        None => {
            assert(issues_view(report.issues@) =~= start + member_issues(
                str_views(old(seen)@),
                hn@,
                ln@,
                *l,
                *h,
            ));
        },
    }
}

fn check_link_members(topology: &Topology, report: &mut ValidationReport, ln: &str, l: &Link)
    ensures
        issues_view(final(report).issues@) == issues_view(old(report).issues@) + concat_map(
            host_entries(topology.hosts),
            member_fn(host_entries(topology.hosts), ln@, *l),
        ),
{
    let ghost start = issues_view(report.issues@);
    let ghost hosts = host_entries(topology.hosts);
    let ghost f = member_fn(hosts, ln@, *l);
    let len = host_map_len(&topology.hosts);
    let mut seen: Vec<String> = Vec::new();
    let mut i: usize = 0;
    while i < len
        invariant
            hosts == host_entries(topology.hosts),
            f == member_fn(hosts, ln@, *l),
            len == hosts.len(),
            0 <= i <= len,
            str_views(seen@) == link_addresses(hosts.take(i as int), ln@),
            issues_view(report.issues@) == start + concat_map(hosts.take(i as int), f),
        decreases len - i,
    {
        assert(hosts.take(i + 1).drop_last() =~= hosts.take(i as int));
        match host_map_get_index(&topology.hosts, i) {
            Some((hn, h)) => {
                proof {
                    lemma_concat_map_step(hosts, f, i as int);
                }
                check_member(report, &mut seen, hn.as_str(), ln, l, h);
            },
            None => {},
        }
        i += 1;
    }
    proof {
        lemma_concat_map_all(hosts, f);
    }
}

fn check_link(topology: &Topology, report: &mut ValidationReport, ln: &str, l: &Link)
    ensures
        issues_view(final(report).issues@) == issues_view(old(report).issues@) + link_issues(
            *topology,
            ln@,
            *l,
        ),
{
    let ghost start = issues_view(report.issues@);
    if l.port == 0 {
        report.error(
            "link.invalid_port",
            Some(s3("links.", ln, ".port")),
            Some(copy("0")),
            s3("link '", ln, "' must use a non-zero port"),
        );
    }
    if parse_cidr(l.subnet.as_str()).is_none() {
        report.error(
            "link.invalid_subnet",
            Some(s3("links.", ln, ".subnet")),
            Some(copy(l.subnet.as_str())),
            s5("link '", ln, "' has invalid subnet '", l.subnet.as_str(), "'"),
        );
    }
    let servers = count_link_servers(topology, ln);
    if servers == 0 {
        report.warning(
            "link.no_server",
            Some(s2("links.", ln)),
            None,
            s3("link '", ln, "' has no server \u{2014} this is fine for peer-to-peer links"),
        );
    } else if servers > 1 {
        let n = dec(servers);
        report.error(
            "link.multiple_servers",
            Some(s2("links.", ln)),
            Some(copy(n.as_str())),
            s5("link '", ln, "' has ", n.as_str(), " servers \u{2014} at most 1 allowed"),
        );
    }
    check_link_members(topology, report, ln, l);
    assert(issues_view(report.issues@) =~= start + link_issues(*topology, ln@, *l));
}

/// Checks every link.
pub fn validate_links(topology: &Topology, report: &mut ValidationReport)
    ensures
        issues_view(final(report).issues@) == issues_view(old(report).issues@) + links_issues(
            *topology,
        ),
{
    let ghost start = issues_view(report.issues@);
    let ghost links = link_entries(topology.links);
    let ghost f = link_fn(*topology);
    let len = link_map_len(&topology.links);
    let mut i: usize = 0;
    while i < len
        invariant
            links == link_entries(topology.links),
            f == link_fn(*topology),
            len == links.len(),
            0 <= i <= len,
            issues_view(report.issues@) == start + concat_map(links.take(i as int), f),
        decreases len - i,
    {
        match link_map_get_index(&topology.links, i) {
            Some((ln, l)) => {
                proof {
                    lemma_concat_map_step(links, f, i as int);
                }
                check_link(topology, report, ln.as_str(), l);
            },
            None => {},
        }
        i += 1;
    }
    proof {
        lemma_concat_map_all(links, f);
    }
}

fn check_host_refs(topology: &Topology, report: &mut ValidationReport, hn: &str, h: &Host)
    ensures
        issues_view(final(report).issues@) == issues_view(old(report).issues@) + host_ref_issues(
            *topology,
            hn@,
            *h,
        ),
{
    let ghost start = issues_view(report.issues@);
    let ghost peers = str_views(h.network.direct_link_peers@);
    let ghost f = peer_fn(*topology, hn@);
    let mut i: usize = 0;
    while i < h.network.direct_link_peers.len()
        invariant
            peers == str_views(h.network.direct_link_peers@),
            f == peer_fn(*topology, hn@),
            0 <= i <= h.network.direct_link_peers@.len(),
            issues_view(report.issues@) == start + concat_map(peers.take(i as int), f),
        decreases h.network.direct_link_peers@.len() - i,
    {
        let peer = h.network.direct_link_peers[i].as_str();
        proof {
            lemma_concat_map_step(peers, f, i as int);
            assert(peers[i as int] == peer@);
        }
        if host_map_get(&topology.hosts, peer).is_none() {
            report.error(
                "host.invalid_direct_peer",
                Some(s3("hosts.", hn, ".network.directLinkPeers")),
                Some(copy(peer)),
                s5("host '", hn, "' references unknown direct-link peer '", peer, "'"),
            );
        }
        i += 1;
    }
    proof {
        lemma_concat_map_all(peers, f);
    }
    let ghost mid = issues_view(report.issues@);
    let ghost bindings = binding_entries(h.links);
    let ghost g = undeclared_fn(*topology, hn@);
    let len = binding_map_len(&h.links);
    let mut j: usize = 0;
    while j < len
        invariant
            bindings == binding_entries(h.links),
            g == undeclared_fn(*topology, hn@),
            len == bindings.len(),
            0 <= j <= len,
            issues_view(report.issues@) == mid + concat_map(bindings.take(j as int), g),
        decreases len - j,
    {
        match binding_map_get_index(&h.links, j) {
            Some((ln, _)) => {
                proof {
                    lemma_concat_map_step(bindings, g, j as int);
                }
                let l = ln.as_str();
                if link_map_get(&topology.links, l).is_none() {
                    report.error(
                        "host.undeclared_link",
                        Some(s4("hosts.", hn, ".links.", l)),
                        Some(copy(l)),
                        s5("host '", hn, "' has binding for undeclared link '", l, "'"),
                    );
                }
            },
            None => {},
        }
        j += 1;
    }
    proof {
        lemma_concat_map_all(bindings, g);
    }
}

fn check_build_host(topology: &Topology, report: &mut ValidationReport, hn: &str, h: &Host)
    ensures
        issues_view(final(report).issues@) == issues_view(old(report).issues@) + build_host_issues(
            *topology,
            hn@,
            *h,
        ),
{
    let ghost start = issues_view(report.issues@);
    if let Some(b) = &h.rebuild.build_host {
        let bh = b.as_str();
        if host_map_get(&topology.hosts, bh).is_none() {
            report.error(
                "host.invalid_build_host",
                Some(s3("hosts.", hn, ".rebuild.buildHost")),
                Some(copy(bh)),
                s5("host '", hn, "' has rebuild.buildHost '", bh, "' which does not exist in hosts"),
            );
        }
    }
    assert(issues_view(report.issues@) =~= start + build_host_issues(*topology, hn@, *h));
}

/// Checks the direct-link peers, link bindings and build hosts of every host.
pub fn validate_host_refs(topology: &Topology, report: &mut ValidationReport)
    ensures
        issues_view(final(report).issues@) == issues_view(old(report).issues@) + host_refs_issues(
            *topology,
        ),
{
    let ghost start = issues_view(report.issues@);
    let ghost hosts = host_entries(topology.hosts);
    let ghost f = host_ref_fn(*topology);
    let len = host_map_len(&topology.hosts);
    let mut i: usize = 0;
    while i < len
        invariant
            hosts == host_entries(topology.hosts),
            f == host_ref_fn(*topology),
            len == hosts.len(),
            0 <= i <= len,
            issues_view(report.issues@) == start + concat_map(hosts.take(i as int), f),
        decreases len - i,
    {
        match host_map_get_index(&topology.hosts, i) {
            Some((hn, h)) => {
                proof {
                    lemma_concat_map_step(hosts, f, i as int);
                }
                check_host_refs(topology, report, hn.as_str(), h);
            },
            None => {},
        }
        i += 1;
    }
    proof {
        lemma_concat_map_all(hosts, f);
    }
    let ghost mid = issues_view(report.issues@);
    let ghost g = build_host_fn(*topology);
    let mut j: usize = 0;
    while j < len
        invariant
            hosts == host_entries(topology.hosts),
            g == build_host_fn(*topology),
            len == hosts.len(),
            0 <= j <= len,
            issues_view(report.issues@) == mid + concat_map(hosts.take(j as int), g),
        decreases len - j,
    {
        match host_map_get_index(&topology.hosts, j) {
            Some((hn, h)) => {
                proof {
                    lemma_concat_map_step(hosts, g, j as int);
                }
                check_build_host(topology, report, hn.as_str(), h);
            },
            None => {},
        }
        j += 1;
    }
    proof {
        lemma_concat_map_all(hosts, g);
    }
}

fn check_client_keys(topology: &Topology, report: &mut ValidationReport, ln: &str)
    ensures
        issues_view(final(report).issues@) == issues_view(old(report).issues@) + client_issues(
            *topology,
            ln@,
        ),
{
    let ghost start = issues_view(report.issues@);
    let ghost hosts = host_entries(topology.hosts);
    let ghost f = client_key_fn(ln@);
    let participants = count_link_participants(topology, ln);
    if participants > 1 {
        let len = host_map_len(&topology.hosts);
        let mut i: usize = 0;
        while i < len
            invariant
                hosts == host_entries(topology.hosts),
                f == client_key_fn(ln@),
                len == hosts.len(),
                0 <= i <= len,
                issues_view(report.issues@) == start + concat_map(hosts.take(i as int), f),
            decreases len - i,
        {
            match host_map_get_index(&topology.hosts, i) {
                Some((hn, h)) => {
                    proof {
                        lemma_concat_map_step(hosts, f, i as int);
                    }
                    let ghost before = issues_view(report.issues@);
                    if let Some(b) = binding_map_get(&h.links, ln) {
                        if b.role != LinkRole::Server && b.public_key.is_none() {
                            report.warning(
                                "link.client_missing_public_key",
                                Some(s5("hosts.", hn.as_str(), ".links.", ln, ".publicKey")),
                                None,
                                s5(
                                    "host '",
                                    hn.as_str(),
                                    "' on link '",
                                    ln,
                                    "' has no publicKey \u{2014} WireGuard will not work",
                                ),
                            );
                        }
                    }
                    assert(issues_view(report.issues@) =~= before + f(i as int, hosts[i as int]));
                },
                None => {},
            }
            i += 1;
        }
        proof {
            lemma_concat_map_all(hosts, f);
        }
    }
    assert(issues_view(report.issues@) =~= start + client_issues(*topology, ln@));
}

/// Warns, on every link with more than one participant, about each client
/// without a public key.
pub fn validate_client_keys(topology: &Topology, report: &mut ValidationReport)
    ensures
        issues_view(final(report).issues@) == issues_view(old(report).issues@) + clients_issues(
            *topology,
        ),
{
    let ghost start = issues_view(report.issues@);
    let ghost links = link_entries(topology.links);
    let ghost f = client_fn(*topology);
    let len = link_map_len(&topology.links);
    let mut i: usize = 0;
    while i < len
        invariant
            links == link_entries(topology.links),
            f == client_fn(*topology),
            len == links.len(),
            0 <= i <= len,
            issues_view(report.issues@) == start + concat_map(links.take(i as int), f),
        decreases len - i,
    {
        match link_map_get_index(&topology.links, i) {
            Some((ln, _)) => {
                proof {
                    lemma_concat_map_step(links, f, i as int);
                }
                check_client_keys(topology, report, ln.as_str());
            },
            None => {},
        }
        i += 1;
    }
    proof {
        lemma_concat_map_all(links, f);
    }
}

} // verus!
